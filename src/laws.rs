//! Properties of the parser and the serializer taken as a whole, proved over
//! their specifications.

use crate::decoder::{origin_spec, version_spec};
use crate::document::SdpView;
use crate::error::ErrorView;
use crate::decoder::{attribute_spec, bandwidth_spec, media_name_spec};
use crate::grammar::{apply_spec, key_field, next_state, run_spec, unmarshal_text, Field, State};
use crate::serializer::{attribute_lines, bandwidth_lines, kv_line, media_block, media_lines};
use crate::lexer::{read_record_spec, RecordView};
use crate::direction::{direction_of, direction_text, Direction};
use crate::extmap::{
    ext_idx_of, ext_uri_text, extmap_prefix, extmap_spec, extmap_text, lemma_ext_uri_table,
    ExtMapView,
};
use crate::number::{int_chars, lemma_int_chars_shape, lemma_parse_int_chars};
use crate::text::{
    find_char, free_of, is_ascii_ws, is_token, join, lemma_find_char_after, lemma_split_join,
    lemma_ws_join, split_on, trim_end_ws, trim_start_ws, trim_ws, ws_fields,
};
use vstd::prelude::*;

verus! {

/// The keys of the records of `text` from `pos` on, up to the end or to the
/// first line that has no `=`.
pub open spec fn keys_from(text: Seq<char>, pos: int) -> Seq<Seq<char>>
    decreases text.len() - pos,
{
    match read_record_spec(text, pos) {
        Ok(RecordView::Field { key, next, .. }) => if pos < next <= text.len() {
            seq![key] + keys_from(text, next)
        } else {
            seq![key]
        },
        _ => seq![],
    }
}

pub open spec fn v_key() -> Seq<char> {
    seq!['v', '=']
}

pub open spec fn o_key() -> Seq<char> {
    seq!['o', '=']
}

pub open spec fn s_key() -> Seq<char> {
    seq!['s', '=']
}

/// A grammar error or a syntax error.
pub open spec fn is_order_error(r: Result<crate::document::SdpView, ErrorView>) -> bool {
    r matches Err(ErrorView::SdpUnexpectedKey(_)) || r matches Err(ErrorView::SdpInvalidSyntax(_))
}

/// Reading in state `s` a record whose key is `k`, the only key that `s`
/// accepts: the first record is that key, or the reading fails with a
/// grammar or syntax error.
proof fn lemma_must_start_with(text: Seq<char>, pos: int, s: State, d: crate::document::SdpView, c: char)
    requires
        0 <= pos <= text.len(),
        !crate::grammar::accepts_end(s),
        forall|x: char| x != c ==> #[trigger] crate::grammar::accept(s, x) is None,
        crate::grammar::accept(s, c) is Some,
    ensures
        keys_from(text, pos).len() == 0 || keys_from(text, pos)[0] != seq![c, '='] ==> is_order_error(
            run_spec(text, pos, s, d),
        ),
        run_spec(text, pos, s, d) is Ok ==> keys_from(text, pos).len() > 0 && keys_from(
            text,
            pos,
        )[0] == seq![c, '='],
{
    match read_record_spec(text, pos) {
        Ok(RecordView::Field { key, value, next }) => {
            if key_field(s, key) is Some {
                assert(key[0] == c);
                assert(key =~= seq![c, '=']);
            }
        },
        _ => {},
    }
}

/// A description needs its `v=`, `o=` and `s=` lines: a text whose first
/// three records are not `v=`, `o=`, `s=` reads as no document. When `v=` is
/// missing the error is a grammar or syntax error.
pub proof fn law_required_fields(text: Seq<char>)
    ensures
        unmarshal_text(text) is Ok ==> keys_from(text, 0).len() >= 3 && keys_from(text, 0)[0]
            == v_key() && keys_from(text, 0)[1] == o_key() && keys_from(text, 0)[2] == s_key(),
        !keys_from(text, 0).contains(v_key()) ==> is_order_error(unmarshal_text(text)),
{
    let d0 = crate::document::empty_sdp();
    lemma_must_start_with(text, 0, State::Version, d0, 'v');
    if !keys_from(text, 0).contains(v_key()) {
        if keys_from(text, 0).len() > 0 {
            assert(keys_from(text, 0)[0] != v_key()) by {
                if keys_from(text, 0)[0] == v_key() {
                    assert(keys_from(text, 0).contains(v_key()));
                }
            }
        }
    }
    if unmarshal_text(text) is Ok {
        match read_record_spec(text, 0) {
            Ok(RecordView::Field { key, value, next }) => {
                crate::lexer::lemma_record_advances(text, 0);
                let f = key_field(State::Version, key)->0;
                let d1 = crate::grammar::apply_spec(d0, f, value)->Ok_0;
                lemma_must_start_with(text, next, State::Origin, d1, 'o');
                match read_record_spec(text, next) {
                    Ok(RecordView::Field { key: key2, value: value2, next: next2 }) => {
                        crate::lexer::lemma_record_advances(text, next);
                        let f2 = key_field(State::Origin, key2)->0;
                        let d2 = crate::grammar::apply_spec(d1, f2, value2)->Ok_0;
                        lemma_must_start_with(text, next2, State::SessionName, d2, 's');
                    },
                    _ => {},
                }
            },
            _ => {},
        }
    }
}

/// When the text starts with a `v=` line that reads well, a missing `o=`
/// line is a grammar or syntax error; when it also goes on with an `o=` line
/// that reads well, so is a missing `s=` line.
pub proof fn law_required_fields_in_order(text: Seq<char>)
    requires
        read_record_spec(text, 0) matches Ok(RecordView::Field { key, value, next }) && key
            == v_key() && version_spec(value) is Ok,
    ensures
        !keys_from(text, 0).contains(o_key()) ==> is_order_error(unmarshal_text(text)),
        ({
            let next = read_record_spec(text, 0)->Ok_0->next;
            read_record_spec(text, next) matches Ok(RecordView::Field { key, value, .. }) && key
                == o_key() && origin_spec(value) is Ok && !keys_from(text, 0).contains(s_key())
                ==> is_order_error(unmarshal_text(text))
        }),
{
    let d0 = crate::document::empty_sdp();
    let r = read_record_spec(text, 0)->Ok_0;
    let next = r->next;
    let value = r->value;
    crate::lexer::lemma_record_advances(text, 0);
    let d1 = crate::grammar::apply_spec(d0, crate::grammar::Field::Version, value)->Ok_0;
    lemma_must_start_with(text, next, State::Origin, d1, 'o');
    if 0 < next <= text.len() {
        assert(keys_from(text, 0) == seq![v_key()] + keys_from(text, next));
        if keys_from(text, next).len() > 0 && keys_from(text, next)[0] == o_key() {
            assert(keys_from(text, 0)[1] == o_key());
        }
        match read_record_spec(text, next) {
            Ok(RecordView::Field { key: key2, value: value2, next: next2 }) => {
                crate::lexer::lemma_record_advances(text, next);
                if key2 == o_key() && origin_spec(value2) is Ok {
                    let d2 = crate::grammar::apply_spec(d1, crate::grammar::Field::Origin, value2)->Ok_0;
                    lemma_must_start_with(text, next2, State::SessionName, d2, 's');
                    if next < next2 <= text.len() {
                        assert(keys_from(text, next) == seq![o_key()] + keys_from(text, next2));
                        if keys_from(text, next2).len() > 0 && keys_from(text, next2)[0] == s_key() {
                            assert(keys_from(text, 0)[2] == s_key());
                        }
                    }
                }
            },
            _ => {},
        }
    }
}

/// The id and direction token of an `extmap` value.
pub open spec fn id_token(e: ExtMapView) -> Seq<char> {
    if e.direction == Direction::Unspecified {
        int_chars(e.value as int)
    } else {
        int_chars(e.value as int).push('/') + direction_text(e.direction)
    }
}

/// The whitespace-separated tokens of an `extmap` value.
pub open spec fn extmap_tokens(e: ExtMapView) -> Seq<Seq<char>> {
    match e.ext_attr {
        Some(a) => seq![id_token(e), ext_uri_text(e.uri_idx as int), a],
        None => seq![id_token(e), ext_uri_text(e.uri_idx as int)],
    }
}

proof fn lemma_direction_texts()
    ensures
        forall|d: Direction| d != Direction::Unspecified ==> direction_of(#[trigger] direction_text(d)) == d,
        forall|d: Direction| #[trigger] direction_text(d).len() > 0 && free_of(direction_text(d), '/')
            && forall|i: int| 0 <= i < direction_text(d).len() ==> !is_ascii_ws(direction_text(d)[i]),
{
    assert(direction_text(Direction::SendRecv)[4] != direction_text(Direction::SendOnly)[4]);
    assert(direction_text(Direction::SendRecv)[0] != direction_text(Direction::RecvOnly)[0]);
    assert(direction_text(Direction::SendRecv)[0] != direction_text(Direction::Inactive)[0]);
    assert(direction_text(Direction::SendOnly)[0] != direction_text(Direction::RecvOnly)[0]);
    assert(direction_text(Direction::SendOnly)[0] != direction_text(Direction::Inactive)[0]);
    assert(direction_text(Direction::RecvOnly)[0] != direction_text(Direction::Inactive)[0]);
}

/// How the text that `marshal` writes splits up again.
proof fn lemma_extmap_text_reads(e: ExtMapView)
    requires
        1 <= e.uri_idx <= 12,
        e.ext_attr matches Some(a) ==> is_token(a),
    ensures
        trim_ws(extmap_prefix() + extmap_text(e)) == extmap_prefix() + extmap_text(e),
        find_char(extmap_prefix() + extmap_text(e), ':') == Some(6int),
        (extmap_prefix() + extmap_text(e)).skip(7) == extmap_text(e),
        ws_fields(extmap_text(e)) == extmap_tokens(e),
        split_on(id_token(e), '/') == (if e.direction == Direction::Unspecified {
            seq![int_chars(e.value as int)]
        } else {
            seq![int_chars(e.value as int), direction_text(e.direction)]
        }),
{
    lemma_ext_uri_table();
    lemma_direction_texts();
    lemma_int_chars_shape(e.value as int);
    let n = int_chars(e.value as int);
    let u = ext_uri_text(e.uri_idx as int);
    let t = extmap_text(e);
    let line = extmap_prefix() + t;
    let toks = extmap_tokens(e);
    assert(free_of(n, '/'));
    assert(is_token(u));
    let idt = id_token(e);
    assert(is_token(idt)) by {
        if e.direction != Direction::Unspecified {
            let dt = direction_text(e.direction);
            assert forall|i: int| 0 <= i < idt.len() implies !is_ascii_ws(#[trigger] idt[i]) by {
                if i < n.len() {
                    assert(idt[i] == n[i]);
                } else if i > n.len() {
                    assert(idt[i] == dt[i - n.len() - 1]);
                }
            }
        }
    }
    // the id token, split at `/`
    if e.direction == Direction::Unspecified {
        lemma_split_join(seq![n], '/');
        assert(join(seq![n], '/') == n);
    } else {
        let parts = seq![n, direction_text(e.direction)];
        lemma_split_join(parts, '/');
        assert(parts.drop_last() =~= seq![n]);
        assert(join(seq![n], '/') == n);
        assert(join(parts, '/') == join(parts.drop_last(), '/').push('/') + parts.last());
        assert(join(parts, '/') =~= idt);
    }
    // the tokens, joined by spaces
    assert forall|i: int| 0 <= i < toks.len() implies is_token(#[trigger] toks[i]) by {}
    lemma_ws_join(toks);
    match e.ext_attr {
        Some(a) => {
            assert(toks.drop_last().drop_last() =~= seq![idt]);
            assert(toks.drop_last() =~= seq![idt, u]);
            assert(join(seq![idt], ' ') == idt);
            assert(join(toks.drop_last(), ' ') == join(seq![idt], ' ').push(' ') + u);
            assert(join(toks, ' ') == join(toks.drop_last(), ' ').push(' ') + a);
            assert(t =~= idt.push(' ') + u + seq![' '] + a);
            assert(join(toks, ' ') =~= t);
            assert(is_token(a));
            assert(!is_ascii_ws(line.last()));
        },
        None => {
            assert(toks.drop_last() =~= seq![idt]);
            assert(join(seq![idt], ' ') == idt);
            assert(join(toks, ' ') == join(toks.drop_last(), ' ').push(' ') + u);
            assert(t =~= idt.push(' ') + u);
            assert(join(toks, ' ') =~= t);
            assert(!is_ascii_ws(line.last()));
        },
    }
    // nothing to trim, and the tag ends at the first `:`
    assert(trim_start_ws(line) == line);
    assert(trim_end_ws(line) == line);
    let tag = seq!['e', 'x', 't', 'm', 'a', 'p'];
    assert(line =~= tag.push(':') + t);
    lemma_find_char_after(tag, ':', t);
    assert(line.skip(7) =~= t);
}

/// The id of an `extmap` that reads well lies in `1..=246`; an id outside
/// that range, in a line that is otherwise well formed, is refused with a
/// value error that names it.
pub proof fn law_extmap_id_range(e: ExtMapView)
    requires
        1 <= e.uri_idx <= 12,
        e.ext_attr matches Some(a) ==> is_token(a),
    ensures
        forall|line: Seq<char>| #[trigger] extmap_spec(line) matches Ok(x) ==> 1 <= x.value <= 246,
        !(1 <= e.value <= 246) ==> extmap_spec(extmap_prefix() + extmap_text(e)) == Err::<
            ExtMapView,
            ErrorView,
        >(ErrorView::SdpInvalidValue(int_chars(e.value as int))),
{
    lemma_extmap_text_reads(e);
    lemma_parse_int_chars(e.value as int, true, isize::MIN as int, isize::MAX as int);
}

/// Within the range, what `marshal` writes reads back as the same value:
/// any id in `1..=246`, any direction, a URI of the table, and an extension
/// attribute that is a single token if there is one.
pub proof fn law_extmap_round_trip(e: ExtMapView)
    requires
        1 <= e.value <= 246,
        1 <= e.uri_idx <= 12,
        e.ext_attr matches Some(a) ==> is_token(a),
    ensures
        extmap_spec(extmap_prefix() + extmap_text(e)) == Ok::<ExtMapView, ErrorView>(e),
{
    lemma_extmap_text_reads(e);
    lemma_direction_texts();
    lemma_ext_uri_table();
    lemma_parse_int_chars(e.value as int, true, isize::MIN as int, isize::MAX as int);
    assert(ext_idx_of(ext_uri_text(e.uri_idx as int)) == e.uri_idx);
}

/// Every list of the document grows at its end only: reading a line appends
/// at most one entry to one list and leaves the entries read before in
/// place; an attribute, bandwidth or media line appends exactly one.
pub proof fn law_lists_grow_at_the_end(d: SdpView, f: Field, v: Seq<char>)
    ensures
        apply_spec(d, f, v) matches Ok(d2) ==> {
            &&& d2.session.attributes == (if f == Field::SessionAttribute {
                d.session.attributes.push(attribute_spec(v))
            } else {
                d.session.attributes
            })
            &&& d2.session.bandwidth == (if f == Field::SessionBandwidth {
                d.session.bandwidth.push(bandwidth_spec(v)->Ok_0)
            } else {
                d.session.bandwidth
            })
            &&& d2.media_descriptions.len() == d.media_descriptions.len() + (if f
                == Field::MediaDescription {
                1int
            } else {
                0int
            })
            &&& f == Field::MediaDescription ==> d2.media_descriptions.last().media_name
                == media_name_spec(v)->Ok_0
            &&& forall|i: int|
                0 <= i < d.media_descriptions.len() - 1 ==> #[trigger] d2.media_descriptions[i]
                    == d.media_descriptions[i]
            &&& d.media_descriptions.len() > 0 && f != Field::MediaDescription ==> {
                let m = d.media_descriptions.last();
                let m2 = d2.media_descriptions[d.media_descriptions.len() - 1];
                &&& m2.media_name == m.media_name
                &&& m2.attributes == (if f == Field::MediaAttribute {
                    m.attributes.push(attribute_spec(v))
                } else {
                    m.attributes
                })
                &&& m2.bandwidth == (if f == Field::MediaBandwidth {
                    m.bandwidth.push(bandwidth_spec(v)->Ok_0)
                } else {
                    m.bandwidth
                })
            }
        },
{
}

/// The serializer writes each list entry by entry, in the order of the list.
pub proof fn law_lists_written_in_order(
    attrs: Seq<crate::common::AttributeView>,
    a: crate::common::AttributeView,
    bws: Seq<crate::common::BandwidthView>,
    b: crate::common::BandwidthView,
    ms: Seq<crate::media::MediaDescriptionView>,
    m: crate::media::MediaDescriptionView,
)
    ensures
        attribute_lines(attrs.push(a)) == attribute_lines(attrs) + kv_line(
            'a',
            crate::common::attribute_text(a),
        ),
        bandwidth_lines(bws.push(b)) == bandwidth_lines(bws) + kv_line(
            'b',
            crate::common::bandwidth_text(b),
        ),
        media_lines(ms.push(m)) == media_lines(ms) + media_block(m),
{
    assert(attrs.push(a).drop_last() =~= attrs);
    assert(bws.push(b).drop_last() =~= bws);
    assert(ms.push(m).drop_last() =~= ms);
}

/// The session attributes, session bandwidths and media names that the
/// records of `text` from `pos` on carry, read from state `s`, in the order of
/// the text.
pub open spec fn entries_read(text: Seq<char>, pos: int, s: State) -> (
    Seq<crate::common::AttributeView>,
    Seq<crate::common::BandwidthView>,
    Seq<crate::media::MediaNameView>,
)
    decreases text.len() - pos,
{
    match read_record_spec(text, pos) {
        Ok(RecordView::Field { key, value, next }) => match key_field(s, key) {
            Some(f) => if pos < next <= text.len() {
                let (a, b, m) = entries_read(text, next, next_state(f));
                (
                    if f == Field::SessionAttribute {
                        seq![attribute_spec(value)] + a
                    } else {
                        a
                    },
                    if f == Field::SessionBandwidth {
                        seq![bandwidth_spec(value)->Ok_0] + b
                    } else {
                        b
                    },
                    if f == Field::MediaDescription {
                        seq![media_name_spec(value)->Ok_0] + m
                    } else {
                        m
                    },
                )
            } else {
                (seq![], seq![], seq![])
            },
            None => (seq![], seq![], seq![]),
        },
        _ => (seq![], seq![], seq![]),
    }
}

pub open spec fn media_names(ms: Seq<crate::media::MediaDescriptionView>) -> Seq<
    crate::media::MediaNameView,
> {
    ms.map_values(|m: crate::media::MediaDescriptionView| m.media_name)
}

proof fn lemma_entries_read(text: Seq<char>, pos: int, s: State, d: SdpView)
    requires
        0 <= pos <= text.len(),
    ensures
        run_spec(text, pos, s, d) matches Ok(d2) ==> {
            let (a, b, m) = entries_read(text, pos, s);
            &&& d2.session.attributes == d.session.attributes + a
            &&& d2.session.bandwidth == d.session.bandwidth + b
            &&& media_names(d2.media_descriptions) == media_names(d.media_descriptions) + m
        },
    decreases text.len() - pos,
{
    match read_record_spec(text, pos) {
        Ok(RecordView::Field { key, value, next }) => {
            match key_field(s, key) {
                Some(f) => {
                    match apply_spec(d, f, value) {
                        Ok(d1) => {
                            if pos < next <= text.len() {
                                law_lists_grow_at_the_end(d, f, value);
                                lemma_entries_read(text, next, next_state(f), d1);
                                let (a, b, m) = entries_read(text, next, next_state(f));
                                if run_spec(text, pos, s, d) is Ok {
                                    let d2 = run_spec(text, pos, s, d)->Ok_0;
                                    if f == Field::SessionAttribute {
                                        assert(d.session.attributes.push(attribute_spec(value)) + a
                                            =~= d.session.attributes + (seq![attribute_spec(value)] + a));
                                    } else {
                                        assert(d.session.attributes + a =~= d.session.attributes + a);
                                    }
                                    if f == Field::SessionBandwidth {
                                        assert(d.session.bandwidth.push(bandwidth_spec(value)->Ok_0) + b
                                            =~= d.session.bandwidth + (seq![bandwidth_spec(value)->Ok_0] + b));
                                    }
                                    let n = d.media_descriptions.len();
                                    if f == Field::MediaDescription {
                                        assert(media_names(d1.media_descriptions) =~= media_names(
                                            d.media_descriptions,
                                        ).push(media_name_spec(value)->Ok_0));
                                        assert(media_names(d.media_descriptions).push(
                                            media_name_spec(value)->Ok_0,
                                        ) + m =~= media_names(d.media_descriptions) + (seq![
                                            media_name_spec(value)->Ok_0,
                                        ] + m));
                                    } else {
                                        assert(media_names(d1.media_descriptions) =~= media_names(
                                            d.media_descriptions,
                                        ));
                                    }
                                }
                            }
                        },
                        Err(_) => {},
                    }
                },
                None => {},
            }
        },
        _ => {},
    }
}

/// The session attributes, the session bandwidths and the media
/// descriptions of a parsed document are those of the text, in the order the
/// text gives them; the serializer writes each list in that order.
pub proof fn law_entries_keep_text_order(text: Seq<char>)
    ensures
        unmarshal_text(text) matches Ok(d) ==> {
            let (a, b, m) = entries_read(text, 0, State::Version);
            &&& d.session.attributes == a
            &&& d.session.bandwidth == b
            &&& media_names(d.media_descriptions) == m
        },
{
    let d0 = crate::document::empty_sdp();
    lemma_entries_read(text, 0, State::Version, d0);
    let (a, b, m) = entries_read(text, 0, State::Version);
    assert(d0.session.attributes + a =~= a);
    assert(d0.session.bandwidth + b =~= b);
    assert(media_names(d0.media_descriptions) + m =~= m);
}

/// Round trip: when a text reads as a document `d`, the text that the
/// serializer writes for `d` (as characters, or as its UTF-8 bytes) reads as
/// a document again: `d` itself, with optional texts that were empty left
/// unset; and that document is written as the very same text. The URL of
/// `d`, if there is one, must be one that the `url` crate writes back
/// unchanged, on one line.
pub proof fn law_round_trip(text: Seq<char>)
    requires
        unmarshal_text(text) is Ok,
        crate::canonical::uri_ok(unmarshal_text(text)->Ok_0.session.uri),
    ensures
        ({
            let d = unmarshal_text(text)->Ok_0;
            let out = crate::serializer::marshal_spec(d);
            &&& unmarshal_text(out) == Ok::<SdpView, ErrorView>(crate::canonical::norm_doc(d))
            &&& crate::serializer::marshal_spec(crate::canonical::norm_doc(d)) == out
            &&& crate::grammar::unmarshal_bytes(vstd::utf8::encode_utf8(out)) == unmarshal_text(out)
        }),
{
    let d = unmarshal_text(text)->Ok_0;
    crate::canonical::lemma_parsed_is_canonical(text);
    crate::canonical::lemma_canonical_round_trip(d);
    let out = crate::serializer::marshal_spec(d);
    vstd::utf8::encode_utf8_valid_utf8(out);
    vstd::utf8::encode_utf8_decode_utf8(out);
}

/// What a media description holds in lists: its name, its attributes and
/// its bandwidths.
pub type MediaLists = (
    crate::media::MediaNameView,
    Seq<crate::common::AttributeView>,
    Seq<crate::common::BandwidthView>,
);

pub open spec fn media_lists(ms: Seq<crate::media::MediaDescriptionView>) -> Seq<MediaLists> {
    ms.map_values(|m: crate::media::MediaDescriptionView| (m.media_name, m.attributes, m.bandwidth))
}

/// A line read as field `f` with value `v`: an `m=` line opens a new media
/// description, a media `a=` or `b=` line goes at the end of the last one.
pub open spec fn media_lists_step(acc: Seq<MediaLists>, f: Field, v: Seq<char>) -> Seq<MediaLists> {
    if f == Field::MediaDescription {
        acc.push((media_name_spec(v)->Ok_0, seq![], seq![]))
    } else if f == Field::MediaAttribute && acc.len() > 0 {
        let l = acc.last();
        acc.update(acc.len() - 1, (l.0, l.1.push(attribute_spec(v)), l.2))
    } else if f == Field::MediaBandwidth && acc.len() > 0 {
        let l = acc.last();
        acc.update(acc.len() - 1, (l.0, l.1, l.2.push(bandwidth_spec(v)->Ok_0)))
    } else {
        acc
    }
}

/// The media descriptions that the records of `text` from `pos` on build,
/// read from state `s` after `acc`: each `m=` line with the media `a=` and
/// `b=` lines that follow it, in the order of the text.
pub open spec fn media_lists_read(text: Seq<char>, pos: int, s: State, acc: Seq<MediaLists>) -> Seq<
    MediaLists,
>
    decreases text.len() - pos,
{
    match read_record_spec(text, pos) {
        Ok(RecordView::Field { key, value, next }) => match key_field(s, key) {
            Some(f) => if pos < next <= text.len() {
                media_lists_read(text, next, next_state(f), media_lists_step(acc, f, value))
            } else {
                acc
            },
            None => acc,
        },
        _ => acc,
    }
}

proof fn lemma_media_lists_step(d: SdpView, f: Field, v: Seq<char>)
    ensures
        apply_spec(d, f, v) matches Ok(d2) ==> media_lists(d2.media_descriptions)
            == media_lists_step(media_lists(d.media_descriptions), f, v),
{
    if apply_spec(d, f, v) is Ok {
        let d2 = apply_spec(d, f, v)->Ok_0;
        let a = media_lists(d.media_descriptions);
        law_lists_grow_at_the_end(d, f, v);
        if f == Field::MediaDescription {
            assert(media_lists(d2.media_descriptions) =~= media_lists_step(a, f, v));
        } else if d.media_descriptions.len() > 0 {
            let n = d.media_descriptions.len() - 1;
            assert(media_lists(d2.media_descriptions) =~= media_lists_step(a, f, v)) by {
                assert(d2.media_descriptions.len() == d.media_descriptions.len());
                assert forall|i: int| 0 <= i < n implies #[trigger] media_lists(
                    d2.media_descriptions,
                )[i] == media_lists_step(a, f, v)[i] by {
                    assert(d2.media_descriptions[i] == d.media_descriptions[i]);
                }
            }
        } else {
            assert(media_lists(d2.media_descriptions) =~= a);
        }
    }
}

proof fn lemma_media_lists_read(text: Seq<char>, pos: int, s: State, d: SdpView)
    requires
        0 <= pos <= text.len(),
    ensures
        run_spec(text, pos, s, d) matches Ok(d2) ==> media_lists(d2.media_descriptions)
            == media_lists_read(text, pos, s, media_lists(d.media_descriptions)),
    decreases text.len() - pos,
{
    match read_record_spec(text, pos) {
        Ok(RecordView::Field { key, value, next }) => {
            match key_field(s, key) {
                Some(f) => {
                    match apply_spec(d, f, value) {
                        Ok(d1) => {
                            if pos < next <= text.len() {
                                lemma_media_lists_step(d, f, value);
                                lemma_media_lists_read(text, next, next_state(f), d1);
                            }
                        },
                        Err(_) => {},
                    }
                },
                None => {},
            }
        },
        _ => {},
    }
}

/// Each media description of a parsed document is the `m=` line of the
/// text that opened it, with the media `a=` and `b=` lines that follow that
/// line, in the order of the text; there are as many as `m=` lines read.
pub proof fn law_media_lists_keep_text_order(text: Seq<char>)
    ensures
        unmarshal_text(text) matches Ok(d) ==> media_lists(d.media_descriptions)
            == media_lists_read(text, 0, State::Version, seq![]),
{
    let d0 = crate::document::empty_sdp();
    lemma_media_lists_read(text, 0, State::Version, d0);
    assert(media_lists(d0.media_descriptions) =~= seq![]);
}

/// The serializer writes exactly the lines of `doc_records(d)`: the session
/// lines, each session bandwidth and attribute in list order, the time
/// descriptions in order, then each media description in order with its own
/// bandwidths and attributes in list order.
pub proof fn law_written_in_list_order(d: SdpView)
    ensures
        crate::serializer::marshal_spec(d) == crate::records::records_text(
            crate::records::doc_records(d),
        ),
{
    crate::records::lemma_marshal_records(d);
}

} // verus!
