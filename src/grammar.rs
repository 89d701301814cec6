//! The grammar of a description as a state machine: which keys may come next,
//! what each field does to the document, and the loop that reads a whole text.

use crate::decoder::{
    attribute_spec, bandwidth_spec, connection_spec, media_name_spec, origin_spec,
    repeat_time_spec, time_zones_spec, timing_spec, unmarshal_attribute, unmarshal_bandwidth,
    unmarshal_connection_information, unmarshal_media_name, unmarshal_origin,
    unmarshal_protocol_version, unmarshal_repeat_time, unmarshal_time_zones, unmarshal_timing,
    version_spec, with_key, line_text,
};
use crate::document::{empty_sdp, SdpView, SDP};
use crate::error::{Error, ErrorView};
use crate::lexer::{read_record, read_record_spec, Record, RecordView};
use crate::media::{MediaDescription, MediaDescriptionView};
use crate::session::SessionView;
use crate::text::{chars_of, string_of, ws_fields};
use crate::time::{RepeatTime, TimeDescription, TimeDescriptionView};
use crate::uri::{unmarshal_uri, uri_spec};
use vstd::prelude::*;
use vstd::string::StringSliceAdditionalSpecFns;
use vstd::utf8::{decode_utf8, valid_utf8};

verus! {

/// Where the reader stands in the grammar. The session states shrink the set
/// of optional fields that may still come; the media states do the same
/// within each media description.
#[derive(Debug, Clone, Copy, PartialEq, Eq, Structural)]
pub enum State {
    /// `v=` must come.
    Version,
    /// `o=` must come.
    Origin,
    /// `s=` must come.
    SessionName,
    /// `i= u= e= p= c= b=` or the first `t=`.
    SessionInformation,
    /// `u= e= p= c= b=` or the first `t=`.
    SessionUri,
    /// `e= p= c= b=` or the first `t=`.
    SessionEmail,
    /// `p= c= b=` or the first `t=`.
    SessionPhone,
    /// `c= b=` or the first `t=`.
    SessionConnection,
    /// `b=` or the first `t=`.
    SessionBandwidth,
    /// After a `t=`: `r= t= z= k= a= m=`, or the end.
    TimeDescription,
    /// After `z=`: `k= a= m=`, or the end.
    SessionKey,
    /// After `k=` or an `a=`: `a= m=`, or the end.
    SessionAttribute,
    /// After `m=`: `i= c= b= k= a= m=`, or the end.
    MediaTitle,
    /// After the media `i=`: `c= b= k= a= m=`, or the end.
    MediaConnection,
    /// After the media `c=` or a `b=`: `b= k= a= m=`, or the end.
    MediaBandwidth,
    /// After the media `k=` or an `a=`: `a= m=`, or the end; leniently also
    /// `k= b= c= i=`.
    MediaAttribute,
}

/// What a line does to the document.
#[derive(Debug, Clone, Copy, PartialEq, Eq, Structural)]
pub enum Field {
    Version,
    Origin,
    SessionName,
    SessionInformation,
    Uri,
    Email,
    Phone,
    SessionConnection,
    SessionBandwidth,
    Timing,
    RepeatTime,
    TimeZones,
    SessionEncryptionKey,
    SessionAttribute,
    MediaDescription,
    MediaTitle,
    MediaConnection,
    MediaBandwidth,
    MediaEncryptionKey,
    MediaAttribute,
}

/// The order of RFC 4566, state by state.
pub open spec fn strict_accept(s: State, c: char) -> Option<Field> {
    match s {
        State::Version => {
            if c == 'v' {
                Some(Field::Version)
            } else {
                None
            }
        },
        State::Origin => {
            if c == 'o' {
                Some(Field::Origin)
            } else {
                None
            }
        },
        State::SessionName => {
            if c == 's' {
                Some(Field::SessionName)
            } else {
                None
            }
        },
        State::SessionInformation => {
            if c == 'i' {
                Some(Field::SessionInformation)
            } else if c == 'u' {
                Some(Field::Uri)
            } else if c == 'e' {
                Some(Field::Email)
            } else if c == 'p' {
                Some(Field::Phone)
            } else if c == 'c' {
                Some(Field::SessionConnection)
            } else if c == 'b' {
                Some(Field::SessionBandwidth)
            } else if c == 't' {
                Some(Field::Timing)
            } else {
                None
            }
        },
        State::SessionUri => {
            if c == 'u' {
                Some(Field::Uri)
            } else if c == 'e' {
                Some(Field::Email)
            } else if c == 'p' {
                Some(Field::Phone)
            } else if c == 'c' {
                Some(Field::SessionConnection)
            } else if c == 'b' {
                Some(Field::SessionBandwidth)
            } else if c == 't' {
                Some(Field::Timing)
            } else {
                None
            }
        },
        State::SessionEmail => {
            if c == 'e' {
                Some(Field::Email)
            } else if c == 'p' {
                Some(Field::Phone)
            } else if c == 'c' {
                Some(Field::SessionConnection)
            } else if c == 'b' {
                Some(Field::SessionBandwidth)
            } else if c == 't' {
                Some(Field::Timing)
            } else {
                None
            }
        },
        State::SessionPhone => {
            if c == 'p' {
                Some(Field::Phone)
            } else if c == 'c' {
                Some(Field::SessionConnection)
            } else if c == 'b' {
                Some(Field::SessionBandwidth)
            } else if c == 't' {
                Some(Field::Timing)
            } else {
                None
            }
        },
        State::SessionConnection => {
            if c == 'c' {
                Some(Field::SessionConnection)
            } else if c == 'b' {
                Some(Field::SessionBandwidth)
            } else if c == 't' {
                Some(Field::Timing)
            } else {
                None
            }
        },
        State::SessionBandwidth => {
            if c == 'b' {
                Some(Field::SessionBandwidth)
            } else if c == 't' {
                Some(Field::Timing)
            } else {
                None
            }
        },
        State::TimeDescription => {
            if c == 'r' {
                Some(Field::RepeatTime)
            } else if c == 't' {
                Some(Field::Timing)
            } else if c == 'z' {
                Some(Field::TimeZones)
            } else if c == 'k' {
                Some(Field::SessionEncryptionKey)
            } else if c == 'a' {
                Some(Field::SessionAttribute)
            } else if c == 'm' {
                Some(Field::MediaDescription)
            } else {
                None
            }
        },
        State::SessionKey => {
            if c == 'k' {
                Some(Field::SessionEncryptionKey)
            } else if c == 'a' {
                Some(Field::SessionAttribute)
            } else if c == 'm' {
                Some(Field::MediaDescription)
            } else {
                None
            }
        },
        State::SessionAttribute => {
            if c == 'a' {
                Some(Field::SessionAttribute)
            } else if c == 'm' {
                Some(Field::MediaDescription)
            } else {
                None
            }
        },
        State::MediaTitle => {
            if c == 'i' {
                Some(Field::MediaTitle)
            } else if c == 'c' {
                Some(Field::MediaConnection)
            } else if c == 'b' {
                Some(Field::MediaBandwidth)
            } else if c == 'k' {
                Some(Field::MediaEncryptionKey)
            } else if c == 'a' {
                Some(Field::MediaAttribute)
            } else if c == 'm' {
                Some(Field::MediaDescription)
            } else {
                None
            }
        },
        State::MediaConnection => {
            if c == 'c' {
                Some(Field::MediaConnection)
            } else if c == 'b' {
                Some(Field::MediaBandwidth)
            } else if c == 'k' {
                Some(Field::MediaEncryptionKey)
            } else if c == 'a' {
                Some(Field::MediaAttribute)
            } else if c == 'm' {
                Some(Field::MediaDescription)
            } else {
                None
            }
        },
        State::MediaBandwidth => {
            if c == 'b' {
                Some(Field::MediaBandwidth)
            } else if c == 'k' {
                Some(Field::MediaEncryptionKey)
            } else if c == 'a' {
                Some(Field::MediaAttribute)
            } else if c == 'm' {
                Some(Field::MediaDescription)
            } else {
                None
            }
        },
        State::MediaAttribute => {
            if c == 'a' {
                Some(Field::MediaAttribute)
            } else if c == 'm' {
                Some(Field::MediaDescription)
            } else {
                None
            }
        },
    }
}

/// What is accepted beyond the strict order, for generators that do not
/// keep it: after a media attribute or key, the media `k= b= c= i=` fields
/// may come again.
pub open spec fn lenient_accept(s: State, c: char) -> Option<Field> {
    match s {
        State::MediaAttribute => if c == 'k' {
            Some(Field::MediaEncryptionKey)
        } else if c == 'b' {
            Some(Field::MediaBandwidth)
        } else if c == 'c' {
            Some(Field::MediaConnection)
        } else if c == 'i' {
            Some(Field::MediaTitle)
        } else {
            None
        },
        _ => None,
    }
}

/// The field that key letter `c` means in state `s`, if it may come there.
pub open spec fn accept(s: State, c: char) -> Option<Field> {
    match strict_accept(s, c) {
        Some(f) => Some(f),
        None => lenient_accept(s, c),
    }
}

/// The letter of a key of the form `x=`.
pub open spec fn key_letter(key: Seq<char>) -> Option<char> {
    if key.len() == 2 && key[1] == '=' {
        Some(key[0])
    } else {
        None
    }
}

pub open spec fn key_field(s: State, key: Seq<char>) -> Option<Field> {
    match key_letter(key) {
        Some(c) => accept(s, c),
        None => None,
    }
}

/// Whether the text may end in state `s`: only once a time description has
/// been read.
pub open spec fn accepts_end(s: State) -> bool {
    match s {
        State::TimeDescription | State::SessionKey | State::SessionAttribute | State::MediaTitle
        | State::MediaConnection | State::MediaBandwidth | State::MediaAttribute => true,
        _ => false,
    }
}

/// The state after a field has been read.
pub open spec fn next_state(f: Field) -> State {
    match f {
        Field::Version => State::Origin,
        Field::Origin => State::SessionName,
        Field::SessionName => State::SessionInformation,
        Field::SessionInformation => State::SessionUri,
        Field::Uri => State::SessionEmail,
        Field::Email => State::SessionPhone,
        Field::Phone => State::SessionConnection,
        Field::SessionConnection => State::SessionBandwidth,
        Field::SessionBandwidth => State::SessionBandwidth,
        Field::Timing => State::TimeDescription,
        Field::RepeatTime => State::TimeDescription,
        Field::TimeZones => State::SessionKey,
        Field::SessionEncryptionKey => State::SessionAttribute,
        Field::SessionAttribute => State::SessionAttribute,
        Field::MediaDescription => State::MediaTitle,
        Field::MediaTitle => State::MediaConnection,
        Field::MediaConnection => State::MediaBandwidth,
        Field::MediaBandwidth => State::MediaBandwidth,
        Field::MediaEncryptionKey => State::MediaAttribute,
        Field::MediaAttribute => State::MediaAttribute,
    }
}

impl State {
    /// The strict table.
    pub fn strict(self, c: char) -> (r: Option<Field>)
        ensures
            r == strict_accept(self, c),
    {
        match self {
            State::Version => {
                if c == 'v' {
                    Some(Field::Version)
                } else {
                    None
                }
            },
            State::Origin => {
                if c == 'o' {
                    Some(Field::Origin)
                } else {
                    None
                }
            },
            State::SessionName => {
                if c == 's' {
                    Some(Field::SessionName)
                } else {
                    None
                }
            },
            State::SessionInformation => {
                if c == 'i' {
                    Some(Field::SessionInformation)
                } else if c == 'u' {
                    Some(Field::Uri)
                } else if c == 'e' {
                    Some(Field::Email)
                } else if c == 'p' {
                    Some(Field::Phone)
                } else if c == 'c' {
                    Some(Field::SessionConnection)
                } else if c == 'b' {
                    Some(Field::SessionBandwidth)
                } else if c == 't' {
                    Some(Field::Timing)
                } else {
                    None
                }
            },
            State::SessionUri => {
                if c == 'u' {
                    Some(Field::Uri)
                } else if c == 'e' {
                    Some(Field::Email)
                } else if c == 'p' {
                    Some(Field::Phone)
                } else if c == 'c' {
                    Some(Field::SessionConnection)
                } else if c == 'b' {
                    Some(Field::SessionBandwidth)
                } else if c == 't' {
                    Some(Field::Timing)
                } else {
                    None
                }
            },
            State::SessionEmail => {
                if c == 'e' {
                    Some(Field::Email)
                } else if c == 'p' {
                    Some(Field::Phone)
                } else if c == 'c' {
                    Some(Field::SessionConnection)
                } else if c == 'b' {
                    Some(Field::SessionBandwidth)
                } else if c == 't' {
                    Some(Field::Timing)
                } else {
                    None
                }
            },
            State::SessionPhone => {
                if c == 'p' {
                    Some(Field::Phone)
                } else if c == 'c' {
                    Some(Field::SessionConnection)
                } else if c == 'b' {
                    Some(Field::SessionBandwidth)
                } else if c == 't' {
                    Some(Field::Timing)
                } else {
                    None
                }
            },
            State::SessionConnection => {
                if c == 'c' {
                    Some(Field::SessionConnection)
                } else if c == 'b' {
                    Some(Field::SessionBandwidth)
                } else if c == 't' {
                    Some(Field::Timing)
                } else {
                    None
                }
            },
            State::SessionBandwidth => {
                if c == 'b' {
                    Some(Field::SessionBandwidth)
                } else if c == 't' {
                    Some(Field::Timing)
                } else {
                    None
                }
            },
            State::TimeDescription => {
                if c == 'r' {
                    Some(Field::RepeatTime)
                } else if c == 't' {
                    Some(Field::Timing)
                } else if c == 'z' {
                    Some(Field::TimeZones)
                } else if c == 'k' {
                    Some(Field::SessionEncryptionKey)
                } else if c == 'a' {
                    Some(Field::SessionAttribute)
                } else if c == 'm' {
                    Some(Field::MediaDescription)
                } else {
                    None
                }
            },
            State::SessionKey => {
                if c == 'k' {
                    Some(Field::SessionEncryptionKey)
                } else if c == 'a' {
                    Some(Field::SessionAttribute)
                } else if c == 'm' {
                    Some(Field::MediaDescription)
                } else {
                    None
                }
            },
            State::SessionAttribute => {
                if c == 'a' {
                    Some(Field::SessionAttribute)
                } else if c == 'm' {
                    Some(Field::MediaDescription)
                } else {
                    None
                }
            },
            State::MediaTitle => {
                if c == 'i' {
                    Some(Field::MediaTitle)
                } else if c == 'c' {
                    Some(Field::MediaConnection)
                } else if c == 'b' {
                    Some(Field::MediaBandwidth)
                } else if c == 'k' {
                    Some(Field::MediaEncryptionKey)
                } else if c == 'a' {
                    Some(Field::MediaAttribute)
                } else if c == 'm' {
                    Some(Field::MediaDescription)
                } else {
                    None
                }
            },
            State::MediaConnection => {
                if c == 'c' {
                    Some(Field::MediaConnection)
                } else if c == 'b' {
                    Some(Field::MediaBandwidth)
                } else if c == 'k' {
                    Some(Field::MediaEncryptionKey)
                } else if c == 'a' {
                    Some(Field::MediaAttribute)
                } else if c == 'm' {
                    Some(Field::MediaDescription)
                } else {
                    None
                }
            },
            State::MediaBandwidth => {
                if c == 'b' {
                    Some(Field::MediaBandwidth)
                } else if c == 'k' {
                    Some(Field::MediaEncryptionKey)
                } else if c == 'a' {
                    Some(Field::MediaAttribute)
                } else if c == 'm' {
                    Some(Field::MediaDescription)
                } else {
                    None
                }
            },
            State::MediaAttribute => {
                if c == 'a' {
                    Some(Field::MediaAttribute)
                } else if c == 'm' {
                    Some(Field::MediaDescription)
                } else {
                    None
                }
            },
        }
    }

    /// The lenient additions.
    pub fn lenient(self, c: char) -> (r: Option<Field>)
        ensures
            r == lenient_accept(self, c),
    {
        match self {
            State::MediaAttribute => if c == 'k' {
                Some(Field::MediaEncryptionKey)
            } else if c == 'b' {
                Some(Field::MediaBandwidth)
            } else if c == 'c' {
                Some(Field::MediaConnection)
            } else if c == 'i' {
                Some(Field::MediaTitle)
            } else {
                None
            },
            _ => None,
        }
    }

    /// The field that `key` means here, if it may come here.
    pub fn accept_key(self, key: &Vec<char>) -> (r: Option<Field>)
        ensures
            r == key_field(self, key@),
    {
        if key.len() != 2 || key[1] != '=' {
            return None;
        }
        let c = key[0];
        match self.strict(c) {
            Some(f) => Some(f),
            None => self.lenient(c),
        }
    }

    pub fn accepts_end(self) -> (r: bool)
        ensures
            r == accepts_end(self),
    {
        match self {
            State::TimeDescription | State::SessionKey | State::SessionAttribute
            | State::MediaTitle | State::MediaConnection | State::MediaBandwidth
            | State::MediaAttribute => true,
            _ => false,
        }
    }
}

impl Field {
    pub fn next(self) -> (r: State)
        ensures
            r == next_state(self),
    {
        match self {
            Field::Version => State::Origin,
            Field::Origin => State::SessionName,
            Field::SessionName => State::SessionInformation,
            Field::SessionInformation => State::SessionUri,
            Field::Uri => State::SessionEmail,
            Field::Email => State::SessionPhone,
            Field::Phone => State::SessionConnection,
            Field::SessionConnection => State::SessionBandwidth,
            Field::SessionBandwidth => State::SessionBandwidth,
            Field::Timing => State::TimeDescription,
            Field::RepeatTime => State::TimeDescription,
            Field::TimeZones => State::SessionKey,
            Field::SessionEncryptionKey => State::SessionAttribute,
            Field::SessionAttribute => State::SessionAttribute,
            Field::MediaDescription => State::MediaTitle,
            Field::MediaTitle => State::MediaConnection,
            Field::MediaConnection => State::MediaBandwidth,
            Field::MediaBandwidth => State::MediaBandwidth,
            Field::MediaEncryptionKey => State::MediaAttribute,
            Field::MediaAttribute => State::MediaAttribute,
        }
    }
}

pub open spec fn with_session(d: SdpView, s: SessionView) -> SdpView {
    SdpView { session: s, ..d }
}

/// `d` with its last media description replaced by `m`.
pub open spec fn with_last_media(d: SdpView, m: MediaDescriptionView) -> SdpView {
    SdpView { media_descriptions: d.media_descriptions.update(d.media_descriptions.len() - 1, m), ..d }
}

pub open spec fn last_media(d: SdpView) -> MediaDescriptionView {
    d.media_descriptions.last()
}

/// What reading a field with value `v` does to the document `d`. Fields of a
/// repeat time or of a media description go to the last time or media
/// description; with none there, that is an error.
pub open spec fn apply_spec(d: SdpView, f: Field, v: Seq<char>) -> Result<SdpView, ErrorView> {
    let s = d.session;
    match f {
        Field::Version => match version_spec(v) {
            Ok(n) => Ok(with_session(d, SessionView { version: n, ..s })),
            Err(e) => Err(e),
        },
        Field::Origin => match origin_spec(v) {
            Ok(o) => Ok(with_session(d, SessionView { origin: o, ..s })),
            Err(e) => Err(e),
        },
        Field::SessionName => Ok(with_session(d, SessionView { session_name: v, ..s })),
        Field::SessionInformation => Ok(
            with_session(d, SessionView { session_information: Some(v), ..s }),
        ),
        Field::Uri => match uri_spec(v) {
            Ok(u) => Ok(with_session(d, SessionView { uri: Some(u), ..s })),
            Err(e) => Err(e),
        },
        Field::Email => Ok(with_session(d, SessionView { email_address: Some(v), ..s })),
        Field::Phone => Ok(with_session(d, SessionView { phone_number: Some(v), ..s })),
        Field::SessionConnection => match connection_spec(v, 'c') {
            Ok(c) => Ok(with_session(d, SessionView { connection_information: Some(c), ..s })),
            Err(e) => Err(e),
        },
        Field::SessionBandwidth => match bandwidth_spec(v) {
            Ok(b) => Ok(with_session(d, SessionView { bandwidth: s.bandwidth.push(b), ..s })),
            Err(e) => Err(e),
        },
        Field::Timing => match timing_spec(v) {
            Ok(t) => Ok(
                SdpView {
                    time_descriptions: d.time_descriptions.push(
                        TimeDescriptionView { timing: t, repeat_times: seq![] },
                    ),
                    ..d
                },
            ),
            Err(e) => Err(e),
        },
        Field::RepeatTime => if ws_fields(v).len() < 3 {
            Err(ErrorView::SdpInvalidSyntax(with_key('r', v)))
        } else if d.time_descriptions.len() == 0 {
            Err(ErrorView::SdpEmptyTimeDescription)
        } else {
            match repeat_time_spec(v) {
                Ok(r) => {
                    let t = d.time_descriptions.last();
                    Ok(
                        SdpView {
                            time_descriptions: d.time_descriptions.update(
                                d.time_descriptions.len() - 1,
                                TimeDescriptionView { repeat_times: t.repeat_times.push(r), ..t },
                            ),
                            ..d
                        },
                    )
                },
                Err(e) => Err(e),
            }
        },
        Field::TimeZones => match time_zones_spec(v) {
            Ok(z) => Ok(with_session(d, SessionView { time_zones: s.time_zones + z, ..s })),
            Err(e) => Err(e),
        },
        Field::SessionEncryptionKey => Ok(
            with_session(d, SessionView { encryption_key: Some(v), ..s }),
        ),
        Field::SessionAttribute => Ok(
            with_session(d, SessionView { attributes: s.attributes.push(attribute_spec(v)), ..s }),
        ),
        Field::MediaDescription => match media_name_spec(v) {
            Ok(m) => Ok(
                SdpView {
                    media_descriptions: d.media_descriptions.push(
                        MediaDescriptionView {
                            media_name: m,
                            media_title: None,
                            connection_information: None,
                            bandwidth: seq![],
                            encryption_key: None,
                            attributes: seq![],
                        },
                    ),
                    ..d
                },
            ),
            Err(e) => Err(e),
        },
        Field::MediaTitle => if d.media_descriptions.len() == 0 {
            Err(ErrorView::SdpEmptyMediaDescription)
        } else {
            Ok(with_last_media(d, MediaDescriptionView { media_title: Some(v), ..last_media(d) }))
        },
        Field::MediaConnection => if d.media_descriptions.len() == 0 {
            Err(ErrorView::SdpEmptyMediaDescription)
        } else {
            match connection_spec(v, 'c') {
                Ok(c) => Ok(
                    with_last_media(
                        d,
                        MediaDescriptionView { connection_information: Some(c), ..last_media(d) },
                    ),
                ),
                Err(e) => Err(e),
            }
        },
        Field::MediaBandwidth => if d.media_descriptions.len() == 0 {
            Err(ErrorView::SdpEmptyMediaDescription)
        } else {
            match bandwidth_spec(v) {
                Ok(b) => Ok(
                    with_last_media(
                        d,
                        MediaDescriptionView {
                            bandwidth: last_media(d).bandwidth.push(b),
                            ..last_media(d)
                        },
                    ),
                ),
                Err(e) => Err(e),
            }
        },
        Field::MediaEncryptionKey => if d.media_descriptions.len() == 0 {
            Err(ErrorView::SdpEmptyMediaDescription)
        } else {
            Ok(
                with_last_media(
                    d,
                    MediaDescriptionView { encryption_key: Some(v), ..last_media(d) },
                ),
            )
        },
        Field::MediaAttribute => if d.media_descriptions.len() == 0 {
            Err(ErrorView::SdpEmptyMediaDescription)
        } else {
            Ok(
                with_last_media(
                    d,
                    MediaDescriptionView {
                        attributes: last_media(d).attributes.push(attribute_spec(v)),
                        ..last_media(d)
                    },
                ),
            )
        },
    }
}

/// Takes the last media description out of the document.
fn take_last_media(doc: &mut SDP) -> (r: Option<MediaDescription>)
    ensures
        match r {
            None => old(doc)@.media_descriptions.len() == 0 && final(doc)@ == old(doc)@,
            Some(m) => old(doc)@.media_descriptions.len() > 0 && m@ == last_media(old(doc)@)
                && final(doc)@ == (SdpView {
                media_descriptions: old(doc)@.media_descriptions.drop_last(),
                ..old(doc)@
            }),
        },
{
    let r = doc.media_descriptions.pop();
    proof {
        if old(doc)@.media_descriptions.len() > 0 {
            assert(doc@.media_descriptions =~= old(doc)@.media_descriptions.drop_last());
        } else {
            assert(doc@.media_descriptions =~= old(doc)@.media_descriptions);
        }
    }
    r
}

/// Puts a media description back at the end.
fn put_last_media(doc: &mut SDP, m: MediaDescription, ghost_before: Ghost<SdpView>)
    requires
        ghost_before@.media_descriptions.len() > 0,
        old(doc)@ == (SdpView {
            media_descriptions: ghost_before@.media_descriptions.drop_last(),
            ..ghost_before@
        }),
    ensures
        final(doc)@ == with_last_media(ghost_before@, m@),
{
    let ghost mv = m@;
    let ghost old_seq = doc@.media_descriptions;
    doc.media_descriptions.push(m);
    assert(doc@.media_descriptions =~= old_seq.push(mv));
    assert(old_seq.push(mv) =~= ghost_before@.media_descriptions.update(
        ghost_before@.media_descriptions.len() - 1,
        mv,
    ));
}

/// Reads the value of field `f` into the document. On an error the
/// document is left as it was.
pub fn apply(doc: &mut SDP, f: Field, value: &Vec<char>) -> (r: Result<(), Error>)
    ensures
        match apply_spec(old(doc)@, f, value@) {
            Ok(d) => r is Ok && final(doc)@ == d,
            Err(e) => r matches Err(x) && x@ == e && final(doc)@ == old(doc)@,
        },
{
    match f {
        Field::Version => {
            doc.session.version = unmarshal_protocol_version(value)?;
            Ok(())
        },
        Field::Origin => {
            doc.session.origin = unmarshal_origin(value)?;
            Ok(())
        },
        Field::SessionName => {
            doc.session.session_name = string_of(value);
            Ok(())
        },
        Field::SessionInformation => {
            doc.session.session_information = Some(string_of(value));
            Ok(())
        },
        Field::Uri => {
            doc.session.uri = Some(unmarshal_uri(value)?);
            Ok(())
        },
        Field::Email => {
            doc.session.email_address = Some(string_of(value));
            Ok(())
        },
        Field::Phone => {
            doc.session.phone_number = Some(string_of(value));
            Ok(())
        },
        Field::SessionConnection => {
            doc.session.connection_information = Some(unmarshal_connection_information(value)?);
            Ok(())
        },
        Field::SessionBandwidth => {
            let b = unmarshal_bandwidth(value)?;
            let ghost bv = b@;
            doc.session.bandwidth.push(b);
            assert(doc@.session.bandwidth =~= old(doc)@.session.bandwidth.push(bv));
            Ok(())
        },
        Field::Timing => {
            let t = unmarshal_timing(value)?;
            let td = TimeDescription { timing: t, repeat_times: Vec::new() };
            assert(td@.repeat_times =~= seq![]);
            let ghost tv = td@;
            doc.time_descriptions.push(td);
            assert(doc@.time_descriptions =~= old(doc)@.time_descriptions.push(tv));
            Ok(())
        },
        Field::RepeatTime => {
            let f = crate::text::split_ws(value);
            if f.len() < 3 {
                return Err(Error::SdpInvalidSyntax(line_text('r', value)));
            }
            if doc.time_descriptions.len() == 0 {
                return Err(Error::SdpEmptyTimeDescription);
            }
            let rt = unmarshal_repeat_time(value)?;
            let ghost rv = rt@;
            let mut td = doc.time_descriptions.pop().unwrap();
            assert(td@ == old(doc)@.time_descriptions.last());
            td.repeat_times.push(rt);
            assert(td@.repeat_times =~= old(doc)@.time_descriptions.last().repeat_times.push(rv));
            let ghost tv = td@;
            doc.time_descriptions.push(td);
            assert(doc@.time_descriptions =~= old(doc)@.time_descriptions.update(
                old(doc)@.time_descriptions.len() - 1,
                tv,
            ));
            Ok(())
        },
        Field::TimeZones => {
            let z = unmarshal_time_zones(value)?;
            let mut i: usize = 0;
            while i < z.len()
                invariant
                    i <= z.len(),
                    doc@ == with_session(
                        old(doc)@,
                        SessionView {
                            time_zones: old(doc)@.session.time_zones + z@.take(i as int),
                            ..old(doc)@.session
                        },
                    ),
                decreases z.len() - i,
            {
                doc.session.time_zones.push(z[i]);
                i = i + 1;
                assert(doc@.session.time_zones =~= old(doc)@.session.time_zones + z@.take(
                    i as int,
                ));
            }
            assert(z@.take(i as int) =~= z@);
            Ok(())
        },
        Field::SessionEncryptionKey => {
            doc.session.encryption_key = Some(string_of(value));
            Ok(())
        },
        Field::SessionAttribute => {
            let a = unmarshal_attribute(value);
            let ghost av = a@;
            doc.session.attributes.push(a);
            assert(doc@.session.attributes =~= old(doc)@.session.attributes.push(av));
            Ok(())
        },
        Field::MediaDescription => {
            let name = unmarshal_media_name(value)?;
            let m = MediaDescription {
                media_name: name,
                media_title: None,
                connection_information: None,
                bandwidth: Vec::new(),
                encryption_key: None,
                attributes: Vec::new(),
            };
            assert(m@.bandwidth =~= seq![]);
            assert(m@.attributes =~= seq![]);
            let ghost mv = m@;
            doc.media_descriptions.push(m);
            assert(doc@.media_descriptions =~= old(doc)@.media_descriptions.push(mv));
            Ok(())
        },
        Field::MediaTitle => {
            let ghost before = doc@;
            match take_last_media(doc) {
                None => Err(Error::SdpEmptyMediaDescription),
                Some(mut m) => {
                    m.media_title = Some(string_of(value));
                    put_last_media(doc, m, Ghost(before));
                    Ok(())
                },
            }
        },
        Field::MediaConnection => {
            if doc.media_descriptions.len() == 0 {
                return Err(Error::SdpEmptyMediaDescription);
            }
            let c = unmarshal_connection_information(value)?;
            let ghost before = doc@;
            match take_last_media(doc) {
                None => Err(Error::SdpEmptyMediaDescription),
                Some(mut m) => {
                    m.connection_information = Some(c);
                    put_last_media(doc, m, Ghost(before));
                    Ok(())
                },
            }
        },
        Field::MediaBandwidth => {
            if doc.media_descriptions.len() == 0 {
                return Err(Error::SdpEmptyMediaDescription);
            }
            let b = unmarshal_bandwidth(value)?;
            let ghost before = doc@;
            match take_last_media(doc) {
                None => Err(Error::SdpEmptyMediaDescription),
                Some(mut m) => {
                    let ghost bv = b@;
                    let ghost old_m = m@;
                    m.bandwidth.push(b);
                    assert(m@.bandwidth =~= old_m.bandwidth.push(bv));
                    put_last_media(doc, m, Ghost(before));
                    Ok(())
                },
            }
        },
        Field::MediaEncryptionKey => {
            let ghost before = doc@;
            match take_last_media(doc) {
                None => Err(Error::SdpEmptyMediaDescription),
                Some(mut m) => {
                    m.encryption_key = Some(string_of(value));
                    put_last_media(doc, m, Ghost(before));
                    Ok(())
                },
            }
        },
        Field::MediaAttribute => {
            let a = unmarshal_attribute(value);
            let ghost before = doc@;
            match take_last_media(doc) {
                None => Err(Error::SdpEmptyMediaDescription),
                Some(mut m) => {
                    let ghost av = a@;
                    let ghost old_m = m@;
                    m.attributes.push(a);
                    assert(m@.attributes =~= old_m.attributes.push(av));
                    put_last_media(doc, m, Ghost(before));
                    Ok(())
                },
            }
        },
    }
}

/// Reading the text from `pos` on, in state `s`, with the document read so
/// far `d`: the finished document, or the first error.
pub open spec fn run_spec(text: Seq<char>, pos: int, s: State, d: SdpView) -> Result<SdpView, ErrorView>
    decreases text.len() - pos,
{
    match read_record_spec(text, pos) {
        Err(e) => Err(e),
        Ok(RecordView::Eof) => if accepts_end(s) {
            Ok(d)
        } else {
            Err(ErrorView::SdpUnexpectedKey(seq![]))
        },
        Ok(RecordView::Field { key, value, next }) => match key_field(s, key) {
            None => Err(ErrorView::SdpUnexpectedKey(key)),
            Some(f) => match apply_spec(d, f, value) {
                Err(e) => Err(e),
                Ok(d2) => if pos < next <= text.len() {
                    run_spec(text, next, next_state(f), d2)
                } else {
                    Err(ErrorView::SdpUnexpectedKey(key))
                },
            },
        },
    }
}

/// What a text reads as: a whole description, or the first error.
pub open spec fn unmarshal_text(text: Seq<char>) -> Result<SdpView, ErrorView> {
    run_spec(text, 0, State::Version, empty_sdp())
}

/// What a byte string reads as: it must be UTF-8, then it reads as its text.
pub open spec fn unmarshal_bytes(b: Seq<u8>) -> Result<SdpView, ErrorView> {
    if valid_utf8(b) {
        unmarshal_text(decode_utf8(b))
    } else {
        Err(ErrorView::Utf8)
    }
}

/// Relies on `std::str::from_utf8`: it accepts exactly the byte strings that
/// are UTF-8, and the `str` it gives is made of those bytes.
#[verifier::external_body]
fn utf8_text(b: &[u8]) -> (r: Option<&str>)
    ensures
        r is Some <==> valid_utf8(b@),
        r matches Some(s) ==> s.spec_bytes() == b@,
{
    std::str::from_utf8(b).ok()
}

/// Reads a whole text.
pub fn unmarshal_chars(text: &Vec<char>) -> (r: Result<SDP, Error>)
    ensures
        match unmarshal_text(text@) {
            Ok(d) => r matches Ok(x) && x@ == d,
            Err(e) => r matches Err(x) && x@ == e,
        },
{
    let mut doc = SDP::new();
    let mut state = State::Version;
    let mut pos: usize = 0;
    loop
        invariant
            pos <= text.len(),
            run_spec(text@, pos as int, state, doc@) == unmarshal_text(text@),
        decreases text.len() - pos,
    {
        match read_record(text, pos)? {
            Record::Eof => {
                if state.accepts_end() {
                    return Ok(doc);
                } else {
                    return Err(Error::SdpUnexpectedKey(String::new()));
                }
            },
            Record::Field { key, value, next } => {
                match state.accept_key(&key) {
                    None => {
                        return Err(Error::SdpUnexpectedKey(string_of(&key)));
                    },
                    Some(f) => {
                        apply(&mut doc, f, &value)?;
                        state = f.next();
                        pos = next;
                    },
                }
            },
        }
    }
}

impl SDP {
    /// Reads a session description. The fields must come in the order of the
    /// grammar; the first problem met aborts the reading.
    pub fn unmarshal(input: &[u8]) -> (r: Result<SDP, Error>)
        ensures
            match unmarshal_bytes(input@) {
                Ok(d) => r matches Ok(x) && x@ == d,
                Err(e) => r matches Err(x) && x@ == e,
            },
    {
        match utf8_text(input) {
            None => Err(Error::Utf8),
            Some(s) => {
                proof {
                    vstd::utf8::encode_utf8_decode_utf8(s@);
                }
                let text = chars_of(s);
                unmarshal_chars(&text)
            },
        }
    }
}

} // verus!
