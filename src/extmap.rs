//! The `extmap` attribute: an RTP header extension, named by a number, with a
//! direction and the URI that identifies the extension.

use crate::common::{Attribute, AttributeView};
use crate::decoder::int_token;
use crate::direction::{direction_of, direction_text, Direction};
use crate::error::{Error, ErrorView};
use crate::number::{int_chars, parse_int, push_int};
use crate::text::{
    chars_of, find, find_char, push_char, push_chars, push_str, same_chars, slice_of,
    split_char, split_on, split_ws, string_of, trim, trim_ws, views_of, ws_fields,
};
use vstd::prelude::*;

verus! {

/// An index into the table of known extension URIs.
pub type ExtIdx = u32;

pub const DEF_EXT_MAP_VALUE_ABS_SEND_TIME: usize = 1;
pub const DEF_EXT_MAP_VALUE_TRANSPORT_CC: usize = 2;
pub const DEF_EXT_MAP_VALUE_SDES_MID: usize = 3;
pub const DEF_EXT_MAP_VALUE_SDES_RTP_STREAM_ID: usize = 4;

pub const NONE_EXT: &'static str = "";
pub const ABS_SEND_TIME_EXT: &'static str = "http://www.webrtc.org/experiments/rtp-hdrext/abs-send-time";
pub const TRANSPORT_CC_EXT: &'static str =
    "http://www.ietf.org/id/draft-holmer-rmcat-transport-wide-cc-extensions-01";
pub const PLAYOUT_DELAY_EXT: &'static str = "http://www.webrtc.org/experiments/rtp-hdrext/playout-delay";
pub const VIDEO_CONTENT_TYPE_EXT: &'static str =
    "http://www.webrtc.org/experiments/rtp-hdrext/video-content-type";
pub const VIDEO_TIMING_EXT: &'static str = "http://www.webrtc.org/experiments/rtp-hdrext/video-timing";
pub const COLOR_SPACE_EXT: &'static str = "http://www.webrtc.org/experiments/rtp-hdrext/color-space";
pub const SDES_MID_EXT: &'static str = "urn:ietf:params:rtp-hdrext:sdes:mid";
pub const SDES_RID_EXT: &'static str = "urn:ietf:params:rtp-hdrext:sdes:rtp-stream-id";
pub const SDES_RRID_EXT: &'static str = "urn:ietf:params:rtp-hdrext:sdes:repaired-rtp-stream-id";
pub const AUDIO_LEVEL_EXT: &'static str = "urn:ietf:params:rtp-hdrext:ssrc-audio-level";
pub const VIDEO_ORIENTATION_EXT: &'static str = "urn:3gpp:video-orientation";
pub const TOFFSET_EXT: &'static str = "urn:ietf:params:rtp-hdrext:toffset";

pub const EXT_IDX_NONE: ExtIdx = 0;
pub const ABS_SEND_TIME_EXT_IDX: ExtIdx = 1;
pub const TRANSPORT_CC_EXT_IDX: ExtIdx = 2;
pub const PLAYOUT_DELAY_EXT_IDX: ExtIdx = 3;
pub const VIDEO_CONTENT_TYPE_EXT_IDX: ExtIdx = 4;
pub const VIDEO_TIMING_EXT_IDX: ExtIdx = 5;
pub const COLOR_SPACE_EXT_IDX: ExtIdx = 6;
pub const SDES_MID_EXT_IDX: ExtIdx = 7;
pub const SDES_RID_EXT_IDX: ExtIdx = 8;
pub const SDES_RRID_EXT_IDX: ExtIdx = 9;
pub const AUDIO_LEVEL_EXT_IDX: ExtIdx = 10;
pub const VIDEO_ORIENTATION_EXT_IDX: ExtIdx = 11;
pub const TOFFSET_EXT_IDX: ExtIdx = 12;

/// The URI at an index of the table; the empty text for the "none" index
/// and for any index past the table.
pub open spec fn ext_uri_text(idx: int) -> Seq<char> {
    if idx == 1 {
        ABS_SEND_TIME_EXT@
    } else if idx == 2 {
        TRANSPORT_CC_EXT@
    } else if idx == 3 {
        PLAYOUT_DELAY_EXT@
    } else if idx == 4 {
        VIDEO_CONTENT_TYPE_EXT@
    } else if idx == 5 {
        VIDEO_TIMING_EXT@
    } else if idx == 6 {
        COLOR_SPACE_EXT@
    } else if idx == 7 {
        SDES_MID_EXT@
    } else if idx == 8 {
        SDES_RID_EXT@
    } else if idx == 9 {
        SDES_RRID_EXT@
    } else if idx == 10 {
        AUDIO_LEVEL_EXT@
    } else if idx == 11 {
        VIDEO_ORIENTATION_EXT@
    } else if idx == 12 {
        TOFFSET_EXT@
    } else {
        NONE_EXT@
    }
}

/// The first index in `1..=12` whose URI is `uri`, or the "none" index.
pub open spec fn ext_idx_from(uri: Seq<char>, i: int) -> ExtIdx
    decreases 13 - i,
{
    if i < 1 || i > 12 {
        EXT_IDX_NONE
    } else if uri == ext_uri_text(i) {
        i as ExtIdx
    } else {
        ext_idx_from(uri, i + 1)
    }
}

pub open spec fn ext_idx_of(uri: Seq<char>) -> ExtIdx {
    ext_idx_from(uri, 1)
}

/// The URI at `idx` in the table of known extensions.
pub fn get_ext_uri_by_idx(idx: ExtIdx) -> (r: &'static str)
    ensures
        r@ == ext_uri_text(idx as int),
{
    if idx == 1 {
        ABS_SEND_TIME_EXT
    } else if idx == 2 {
        TRANSPORT_CC_EXT
    } else if idx == 3 {
        PLAYOUT_DELAY_EXT
    } else if idx == 4 {
        VIDEO_CONTENT_TYPE_EXT
    } else if idx == 5 {
        VIDEO_TIMING_EXT
    } else if idx == 6 {
        COLOR_SPACE_EXT
    } else if idx == 7 {
        SDES_MID_EXT
    } else if idx == 8 {
        SDES_RID_EXT
    } else if idx == 9 {
        SDES_RRID_EXT
    } else if idx == 10 {
        AUDIO_LEVEL_EXT
    } else if idx == 11 {
        VIDEO_ORIENTATION_EXT
    } else if idx == 12 {
        TOFFSET_EXT
    } else {
        NONE_EXT
    }
}

/// The index of a known extension URI, or the "none" index.
pub fn get_idx_by_ext_uri(uri: &str) -> (r: ExtIdx)
    ensures
        r == ext_idx_of(uri@),
{
    let cs = chars_of(uri);
    idx_of_chars(&cs)
}

fn idx_of_chars(uri: &Vec<char>) -> (r: ExtIdx)
    ensures
        r == ext_idx_of(uri@),
{
    let mut i: u32 = 1;
    while i <= 12
        invariant
            1 <= i <= 13,
            ext_idx_from(uri@, i as int) == ext_idx_of(uri@),
        decreases 13 - i,
    {
        let known = chars_of(get_ext_uri_by_idx(i));
        if same_chars(uri, &known) {
            return i;
        }
        i = i + 1;
    }
    EXT_IDX_NONE
}

/// The activation of one RTP header extension.
#[derive(Debug, Clone, Default, PartialEq, Eq)]
pub struct ExtMap {
    pub value: isize,
    pub direction: Direction,
    pub uri_idx: ExtIdx,
    pub ext_attr: Option<String>,
}

pub struct ExtMapView {
    pub value: isize,
    pub direction: Direction,
    pub uri_idx: ExtIdx,
    pub ext_attr: Option<Seq<char>>,
}

impl View for ExtMap {
    type V = ExtMapView;

    open spec fn view(&self) -> ExtMapView {
        ExtMapView {
            value: self.value,
            direction: self.direction,
            uri_idx: self.uri_idx,
            ext_attr: crate::text::opt_chars(self.ext_attr),
        }
    }
}

/// The value of the attribute after `extmap:`: the number, `/direction`
/// unless it is unspecified, a space and the URI, then a space and the
/// extension attribute if there is one.
pub open spec fn extmap_text(e: ExtMapView) -> Seq<char> {
    let dir = if e.direction == Direction::Unspecified {
        seq![]
    } else {
        seq!['/'] + direction_text(e.direction)
    };
    let attr = match e.ext_attr {
        Some(a) => seq![' '] + a,
        None => seq![],
    };
    int_chars(e.value as int) + dir + seq![' '] + ext_uri_text(e.uri_idx as int) + attr
}

pub open spec fn extmap_prefix() -> Seq<char> {
    seq!['e', 'x', 't', 'm', 'a', 'p', ':']
}

/// Reading an `extmap` line: `<anything>:<id>[/<direction>] <uri> [<attr>]`,
/// the id in `1..=246`; a third token, when there is one, is kept as the
/// extension attribute, and tokens after it are ignored.
pub open spec fn extmap_spec(line: Seq<char>) -> Result<ExtMapView, ErrorView> {
    let t = trim_ws(line);
    match find_char(t, ':') {
        None => Err(ErrorView::ParseExtMap(line)),
        Some(i) => {
            let f = ws_fields(t.skip(i + 1));
            if f.len() < 2 {
                Err(ErrorView::ParseExtMap(line))
            } else {
                let vd = split_on(f[0], '/');
                match int_token(vd[0], true, isize::MIN as int, isize::MAX as int) {
                    Err(e) => Err(e),
                    Ok(v) => if !(1 <= v <= 246) {
                        Err(ErrorView::SdpInvalidValue(vd[0]))
                    } else if vd.len() == 2 && direction_of(vd[1]) == Direction::Unspecified {
                        Err(ErrorView::UnknownDirection(vd[1]))
                    } else {
                        Ok(
                            ExtMapView {
                                value: v as isize,
                                direction: if vd.len() == 2 {
                                    direction_of(vd[1])
                                } else {
                                    Direction::Unspecified
                                },
                                uri_idx: ext_idx_of(f[1]),
                                ext_attr: if f.len() >= 3 {
                                    Some(f[2])
                                } else {
                                    None
                                },
                            },
                        )
                    },
                }
            }
        },
    }
}

impl ExtMap {
    /// This extension as an `a=` attribute.
    pub fn convert(&self) -> (r: Attribute)
        ensures
            r@ == (AttributeView {
                key: seq!['e', 'x', 't', 'm', 'a', 'p'],
                value: Some(extmap_text(self@)),
            }),
    {
        let key = string_of(&vec!['e', 'x', 't', 'm', 'a', 'p']);
        Attribute { key, value: Some(self.to_string()) }
    }

    /// The attribute value without the `extmap:` tag.
    pub fn to_string(&self) -> (r: String)
        ensures
            r@ == extmap_text(self@),
    {
        let mut out = String::new();
        push_int(&mut out, self.value as i64);
        let ghost a = out@;
        if self.direction != Direction::Unspecified {
            push_char(&mut out, '/');
            push_chars(&mut out, &self.direction.text());
        }
        push_char(&mut out, ' ');
        let uri = chars_of(get_ext_uri_by_idx(self.uri_idx));
        push_chars(&mut out, &uri);
        if let Some(attr) = &self.ext_attr {
            push_char(&mut out, ' ');
            push_str(&mut out, attr);
        }
        assert(out@ =~= extmap_text(self@));
        out
    }

    /// The whole attribute value, `extmap:` included.
    pub fn marshal(&self) -> (r: String)
        ensures
            r@ == extmap_prefix() + extmap_text(self@),
    {
        let mut out = string_of(&vec!['e', 'x', 't', 'm', 'a', 'p', ':']);
        let t = self.to_string();
        push_str(&mut out, &t);
        out
    }

    /// Reads an `extmap` attribute from one line of text.
    pub fn unmarshal(line: &str) -> (r: Result<ExtMap, Error>)
        ensures
            match extmap_spec(line@) {
                Ok(e) => r matches Ok(x) && x@ == e,
                Err(e) => r matches Err(x) && x@ == e,
            },
    {
        let cs = chars_of(line);
        let t = trim(&cs);
        proof {
            crate::lexer::lemma_find_char_bound(t@, ':');
        }
        let i = match find(&t, ':') {
            None => return Err(Error::ParseExtMap(string_of(&cs))),
            Some(i) => i,
        };
        let rest = slice_of(&t, i + 1, t.len());
        assert(rest@ =~= t@.skip(i + 1));
        let f = split_ws(&rest);
        if f.len() < 2 {
            return Err(Error::ParseExtMap(string_of(&cs)));
        }
        assert(views_of(f@)[0] == f@[0]@);
        assert(views_of(f@)[1] == f@[1]@);
        let vd = split_char(&f[0], '/');
        assert(views_of(vd@)[0] == vd@[0]@);
        let value = match parse_int(&vd[0], true, isize::MIN as i128, isize::MAX as i128) {
            Some(v) => v,
            None => return Err(Error::ParseInt(string_of(&vd[0]))),
        };
        if value < 1 || value > 246 {
            return Err(Error::SdpInvalidValue(string_of(&vd[0])));
        }
        let mut direction = Direction::Unspecified;
        if vd.len() == 2 {
            assert(views_of(vd@)[1] == vd@[1]@);
            direction = Direction::from_chars(&vd[1]);
            if direction == Direction::Unspecified {
                return Err(Error::UnknownDirection(string_of(&vd[1])));
            }
        }
        let uri_idx = idx_of_chars(&f[1]);
        let ext_attr = if f.len() >= 3 {
            assert(views_of(f@)[2] == f@[2]@);
            Some(string_of(&f[2]))
        } else {
            None
        };
        Ok(ExtMap { value: value as isize, direction, uri_idx, ext_attr })
    }
}

} // verus!

verus! {

/// Facts about the table of URIs: each is a single token, and each is found
/// back at its own index.
pub proof fn lemma_ext_uri_table()
    ensures
        forall|i: int| 1 <= i <= 12 ==> crate::text::is_token(#[trigger] ext_uri_text(i)),
        forall|i: int| 1 <= i <= 12 ==> ext_idx_of(#[trigger] ext_uri_text(i)) == i,
{
    reveal_strlit("");
    reveal_strlit("http://www.webrtc.org/experiments/rtp-hdrext/abs-send-time");
    reveal_strlit("http://www.ietf.org/id/draft-holmer-rmcat-transport-wide-cc-extensions-01");
    reveal_strlit("http://www.webrtc.org/experiments/rtp-hdrext/playout-delay");
    reveal_strlit("http://www.webrtc.org/experiments/rtp-hdrext/video-content-type");
    reveal_strlit("http://www.webrtc.org/experiments/rtp-hdrext/video-timing");
    reveal_strlit("http://www.webrtc.org/experiments/rtp-hdrext/color-space");
    reveal_strlit("urn:ietf:params:rtp-hdrext:sdes:mid");
    reveal_strlit("urn:ietf:params:rtp-hdrext:sdes:rtp-stream-id");
    reveal_strlit("urn:ietf:params:rtp-hdrext:sdes:repaired-rtp-stream-id");
    reveal_strlit("urn:ietf:params:rtp-hdrext:ssrc-audio-level");
    reveal_strlit("urn:3gpp:video-orientation");
    reveal_strlit("urn:ietf:params:rtp-hdrext:toffset");
    assert(ext_uri_text(1)[45] != ext_uri_text(3)[45]);
    assert forall|i: int| 1 <= i <= 12 implies crate::text::is_token(#[trigger] ext_uri_text(i)) by {}
    assert forall|i: int| 1 <= i <= 12 implies ext_idx_of(#[trigger] ext_uri_text(i)) == i by {
        assert forall|j: int| 1 <= j <= 12 && j != i implies #[trigger] ext_uri_text(j) != ext_uri_text(i) by {
            if j == 1 && i == 3 || j == 3 && i == 1 {
                assert(ext_uri_text(1)[45] != ext_uri_text(3)[45]);
            }
        }
        lemma_idx_from(ext_uri_text(i), 1, i);
    }
}

proof fn lemma_idx_from(uri: Seq<char>, j: int, i: int)
    requires
        1 <= j <= i <= 12,
        uri == ext_uri_text(i),
        forall|k: int| 1 <= k <= 12 && k != i ==> #[trigger] ext_uri_text(k) != uri,
    ensures
        ext_idx_from(uri, j) == i,
    decreases i - j,
{
    if j < i {
        lemma_idx_from(uri, j + 1, i);
    }
}

} // verus!
