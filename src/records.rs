//! A description's text seen as a list of `key=value` records: what the
//! serializer writes, and how the reader goes through such a list.

use crate::common::{attribute_text, bandwidth_text, connection_text, AttributeView, BandwidthView};
use crate::document::SdpView;
use crate::error::ErrorView;
use crate::grammar::{accepts_end, apply_spec, key_field, next_state, run_spec, State};
use crate::lexer::{line_end, read_record_spec, skip_breaks, trim_cr, RecordView};
use crate::media::{media_name_text, MediaDescriptionView};
use crate::number::int_chars;
use crate::round_trip::line_ok;
use crate::serializer::{
    attribute_lines, bandwidth_lines, connection_line, kv_line, marshal_spec, media_block,
    media_lines, opt_line, repeat_lines, time_lines, zones_line,
};
use crate::session::{origin_text, time_zone_text, TimeZone};
use crate::text::{find_char, free_of, join, lemma_find_char_after};
use crate::time::{repeat_time_text, timing_text, RepeatTimeView, TimeDescriptionView};
use vstd::prelude::*;

verus! {

pub type Rec = (char, Seq<char>);

/// The lines of a list of records, in order.
pub open spec fn records_text(rs: Seq<Rec>) -> Seq<char>
    decreases rs.len(),
{
    if rs.len() == 0 {
        seq![]
    } else {
        kv_line(rs[0].0, rs[0].1) + records_text(rs.drop_first())
    }
}

pub proof fn lemma_records_text_concat(a: Seq<Rec>, b: Seq<Rec>)
    ensures
        records_text(a + b) == records_text(a) + records_text(b),
    decreases a.len(),
{
    if a.len() == 0 {
        assert(a + b =~= b);
        assert(records_text(a) + records_text(b) =~= records_text(b));
    } else {
        assert((a + b).drop_first() =~= a.drop_first() + b);
        lemma_records_text_concat(a.drop_first(), b);
        assert(records_text(a + b) =~= records_text(a) + records_text(b));
    }
}

pub proof fn lemma_records_text_one(r: Rec)
    ensures
        records_text(seq![r]) == kv_line(r.0, r.1),
{
    let e = Seq::<Rec>::empty();
    assert(seq![r].drop_first() =~= e);
    assert(records_text(e) == Seq::<char>::empty());
    assert(seq![r][0] == r);
    assert(kv_line(r.0, r.1) + Seq::<char>::empty() =~= kv_line(r.0, r.1));
}

pub open spec fn opt_rec(k: char, o: Option<Seq<char>>) -> Seq<Rec> {
    match o {
        Some(v) => if v.len() > 0 {
            seq![(k, v)]
        } else {
            seq![]
        },
        None => seq![],
    }
}

pub open spec fn connection_rec(c: Option<crate::common::ConnectionInformationView>) -> Seq<Rec> {
    match c {
        Some(c) => seq![('c', connection_text(c))],
        None => seq![],
    }
}

pub open spec fn bandwidth_recs(bs: Seq<BandwidthView>) -> Seq<Rec> {
    bs.map_values(|b: BandwidthView| ('b', bandwidth_text(b)))
}

pub open spec fn attribute_recs(attrs: Seq<AttributeView>) -> Seq<Rec> {
    attrs.map_values(|a: AttributeView| ('a', attribute_text(a)))
}

pub open spec fn repeat_recs(rs: Seq<RepeatTimeView>) -> Seq<Rec> {
    rs.map_values(|r: RepeatTimeView| ('r', repeat_time_text(r)))
}

pub open spec fn time_recs(ts: Seq<TimeDescriptionView>) -> Seq<Rec>
    decreases ts.len(),
{
    if ts.len() == 0 {
        seq![]
    } else {
        time_recs(ts.drop_last()) + seq![('t', timing_text(ts.last().timing))] + repeat_recs(
            ts.last().repeat_times,
        )
    }
}

pub open spec fn zone_rec(zs: Seq<TimeZone>) -> Seq<Rec> {
    if zs.len() == 0 {
        seq![]
    } else {
        seq![('z', join(zs.map_values(|z: TimeZone| time_zone_text(z)), ' '))]
    }
}

pub open spec fn media_recs(m: MediaDescriptionView) -> Seq<Rec> {
    seq![('m', media_name_text(m.media_name))] + opt_rec('i', m.media_title) + connection_rec(
        m.connection_information,
    ) + bandwidth_recs(m.bandwidth) + opt_rec('k', m.encryption_key) + attribute_recs(m.attributes)
}

pub open spec fn medias_recs(ms: Seq<MediaDescriptionView>) -> Seq<Rec>
    decreases ms.len(),
{
    if ms.len() == 0 {
        seq![]
    } else {
        medias_recs(ms.drop_last()) + media_recs(ms.last())
    }
}

/// The session lines before the first `t=`.
pub open spec fn head_recs(d: SdpView) -> Seq<Rec> {
    let s = d.session;
    seq![('v', int_chars(s.version as int)), ('o', origin_text(s.origin)), ('s', s.session_name)]
        + opt_rec('i', s.session_information) + opt_rec('u', s.uri) + opt_rec('e', s.email_address)
        + opt_rec('p', s.phone_number) + connection_rec(s.connection_information) + bandwidth_recs(
        s.bandwidth,
    )
}

/// The session lines after the time descriptions.
pub open spec fn tail_recs(d: SdpView) -> Seq<Rec> {
    let s = d.session;
    zone_rec(s.time_zones) + opt_rec('k', s.encryption_key) + attribute_recs(s.attributes)
}

/// The records that the serializer writes for `d`.
pub open spec fn doc_records(d: SdpView) -> Seq<Rec> {
    head_recs(d) + time_recs(d.time_descriptions) + tail_recs(d) + medias_recs(d.media_descriptions)
}

proof fn lemma_opt_rec(k: char, o: Option<Seq<char>>)
    ensures
        records_text(opt_rec(k, o)) == opt_line(k, o),
{
    match o {
        Some(v) => if v.len() > 0 {
            lemma_records_text_one((k, v));
        },
        None => {},
    }
}

proof fn lemma_connection_rec(c: Option<crate::common::ConnectionInformationView>)
    ensures
        records_text(connection_rec(c)) == connection_line(c),
{
    match c {
        Some(x) => lemma_records_text_one(('c', connection_text(x))),
        None => {},
    }
}

proof fn lemma_bandwidth_recs(bs: Seq<BandwidthView>)
    ensures
        records_text(bandwidth_recs(bs)) == bandwidth_lines(bs),
    decreases bs.len(),
{
    if bs.len() > 0 {
        lemma_bandwidth_recs(bs.drop_last());
        let r = ('b', bandwidth_text(bs.last()));
        assert(bandwidth_recs(bs) =~= bandwidth_recs(bs.drop_last()) + seq![r]);
        lemma_records_text_concat(bandwidth_recs(bs.drop_last()), seq![r]);
        lemma_records_text_one(r);
    } else {
        assert(bandwidth_recs(bs) =~= seq![]);
    }
}

proof fn lemma_attribute_recs(attrs: Seq<AttributeView>)
    ensures
        records_text(attribute_recs(attrs)) == attribute_lines(attrs),
    decreases attrs.len(),
{
    if attrs.len() > 0 {
        lemma_attribute_recs(attrs.drop_last());
        let r = ('a', attribute_text(attrs.last()));
        assert(attribute_recs(attrs) =~= attribute_recs(attrs.drop_last()) + seq![r]);
        lemma_records_text_concat(attribute_recs(attrs.drop_last()), seq![r]);
        lemma_records_text_one(r);
    } else {
        assert(attribute_recs(attrs) =~= seq![]);
    }
}

proof fn lemma_repeat_recs(rs: Seq<RepeatTimeView>)
    ensures
        records_text(repeat_recs(rs)) == repeat_lines(rs),
    decreases rs.len(),
{
    if rs.len() > 0 {
        lemma_repeat_recs(rs.drop_last());
        let r = ('r', repeat_time_text(rs.last()));
        assert(repeat_recs(rs) =~= repeat_recs(rs.drop_last()) + seq![r]);
        lemma_records_text_concat(repeat_recs(rs.drop_last()), seq![r]);
        lemma_records_text_one(r);
    } else {
        assert(repeat_recs(rs) =~= seq![]);
    }
}

proof fn lemma_time_recs(ts: Seq<TimeDescriptionView>)
    ensures
        records_text(time_recs(ts)) == time_lines(ts),
    decreases ts.len(),
{
    if ts.len() > 0 {
        lemma_time_recs(ts.drop_last());
        let r = ('t', timing_text(ts.last().timing));
        lemma_records_text_concat(time_recs(ts.drop_last()), seq![r]);
        lemma_records_text_concat(
            time_recs(ts.drop_last()) + seq![r],
            repeat_recs(ts.last().repeat_times),
        );
        lemma_records_text_one(r);
        lemma_repeat_recs(ts.last().repeat_times);
    }
}

proof fn lemma_zone_rec(zs: Seq<TimeZone>)
    ensures
        records_text(zone_rec(zs)) == zones_line(zs),
{
    if zs.len() > 0 {
        lemma_records_text_one(('z', join(zs.map_values(|z: TimeZone| time_zone_text(z)), ' ')));
    }
}

proof fn lemma_media_recs(m: MediaDescriptionView)
    ensures
        records_text(media_recs(m)) == media_block(m),
{
    let a = seq![('m', media_name_text(m.media_name))];
    let b = opt_rec('i', m.media_title);
    let c = connection_rec(m.connection_information);
    let d = bandwidth_recs(m.bandwidth);
    let e = opt_rec('k', m.encryption_key);
    let f = attribute_recs(m.attributes);
    lemma_records_text_one(a[0]);
    lemma_records_text_concat(a, b);
    lemma_records_text_concat(a + b, c);
    lemma_records_text_concat(a + b + c, d);
    lemma_records_text_concat(a + b + c + d, e);
    lemma_records_text_concat(a + b + c + d + e, f);
    lemma_opt_rec('i', m.media_title);
    lemma_connection_rec(m.connection_information);
    lemma_bandwidth_recs(m.bandwidth);
    lemma_opt_rec('k', m.encryption_key);
    lemma_attribute_recs(m.attributes);
}

proof fn lemma_medias_recs(ms: Seq<MediaDescriptionView>)
    ensures
        records_text(medias_recs(ms)) == media_lines(ms),
    decreases ms.len(),
{
    if ms.len() > 0 {
        lemma_medias_recs(ms.drop_last());
        lemma_records_text_concat(medias_recs(ms.drop_last()), media_recs(ms.last()));
        lemma_media_recs(ms.last());
    }
}

/// The serializer writes exactly the lines of the records of `d`.
pub proof fn lemma_marshal_records(d: SdpView)
    ensures
        marshal_spec(d) == records_text(doc_records(d)),
{
    let s = d.session;
    let h0 = seq![('v', int_chars(s.version as int)), ('o', origin_text(s.origin)), ('s', s.session_name)];
    let r0: Rec = ('v', int_chars(s.version as int));
    let r1: Rec = ('o', origin_text(s.origin));
    let r2: Rec = ('s', s.session_name);
    assert(h0 =~= seq![r0] + seq![r1] + seq![r2]);
    lemma_records_text_concat(seq![r0], seq![r1]);
    lemma_records_text_concat(seq![r0] + seq![r1], seq![r2]);
    lemma_records_text_one(r0);
    lemma_records_text_one(r1);
    lemma_records_text_one(r2);
    let h1 = opt_rec('i', s.session_information);
    let h2 = opt_rec('u', s.uri);
    let h3 = opt_rec('e', s.email_address);
    let h4 = opt_rec('p', s.phone_number);
    let h5 = connection_rec(s.connection_information);
    let h6 = bandwidth_recs(s.bandwidth);
    let t = time_recs(d.time_descriptions);
    let z = zone_rec(s.time_zones);
    let k = opt_rec('k', s.encryption_key);
    let a = attribute_recs(s.attributes);
    let m = medias_recs(d.media_descriptions);
    lemma_records_text_concat(h0, h1);
    lemma_records_text_concat(h0 + h1, h2);
    lemma_records_text_concat(h0 + h1 + h2, h3);
    lemma_records_text_concat(h0 + h1 + h2 + h3, h4);
    lemma_records_text_concat(h0 + h1 + h2 + h3 + h4, h5);
    lemma_records_text_concat(h0 + h1 + h2 + h3 + h4 + h5, h6);
    let h = h0 + h1 + h2 + h3 + h4 + h5 + h6;
    lemma_records_text_concat(h, t);
    lemma_records_text_concat(z, k);
    lemma_records_text_concat(z + k, a);
    lemma_records_text_concat(h + t, z + k + a);
    lemma_records_text_concat(h + t + (z + k + a), m);
    lemma_opt_rec('i', s.session_information);
    lemma_opt_rec('u', s.uri);
    lemma_opt_rec('e', s.email_address);
    lemma_opt_rec('p', s.phone_number);
    lemma_connection_rec(s.connection_information);
    lemma_bandwidth_recs(s.bandwidth);
    lemma_time_recs(d.time_descriptions);
    lemma_zone_rec(s.time_zones);
    lemma_opt_rec('k', s.encryption_key);
    lemma_attribute_recs(s.attributes);
    lemma_medias_recs(d.media_descriptions);
    assert(doc_records(d) =~= h + t + (z + k + a) + m);
    assert(marshal_spec(d) =~= records_text(doc_records(d)));
}

/// A record that reads back as itself: a key letter that is no line break
/// and no `=`, and a value that a line can hold.
pub open spec fn rec_ok(r: Rec) -> bool {
    r.0 != '\r' && r.0 != '\n' && r.0 != '=' && line_ok(r.1)
}

/// The state machine run over records, without the text around them: the
/// state and document reached, or the first error.
pub open spec fn steps(rs: Seq<Rec>, s: State, d: SdpView) -> Result<(State, SdpView), ErrorView>
    decreases rs.len(),
{
    if rs.len() == 0 {
        Ok((s, d))
    } else {
        match key_field(s, seq![rs[0].0, '=']) {
            None => Err(ErrorView::SdpUnexpectedKey(seq![rs[0].0, '='])),
            Some(f) => match apply_spec(d, f, rs[0].1) {
                Err(e) => Err(e),
                Ok(d1) => steps(rs.drop_first(), next_state(f), d1),
            },
        }
    }
}

/// The end of the text after `steps`.
pub open spec fn finish(r: Result<(State, SdpView), ErrorView>) -> Result<SdpView, ErrorView> {
    match r {
        Ok((s, d)) => if accepts_end(s) {
            Ok(d)
        } else {
            Err(ErrorView::SdpUnexpectedKey(seq![]))
        },
        Err(e) => Err(e),
    }
}

pub proof fn lemma_steps_concat(a: Seq<Rec>, b: Seq<Rec>, s: State, d: SdpView)
    ensures
        steps(a + b, s, d) == match steps(a, s, d) {
            Ok((s1, d1)) => steps(b, s1, d1),
            Err(e) => Err(e),
        },
    decreases a.len(),
{
    if a.len() == 0 {
        assert(a + b =~= b);
    } else {
        assert((a + b).drop_first() =~= a.drop_first() + b);
        assert((a + b)[0] == a[0]);
        match key_field(s, seq![a[0].0, '=']) {
            Some(f) => match apply_spec(d, f, a[0].1) {
                Ok(d1) => lemma_steps_concat(a.drop_first(), b, next_state(f), d1),
                Err(_) => {},
            },
            None => {},
        }
    }
}

proof fn lemma_line_end_at(text: Seq<char>, p: int, q: int)
    requires
        0 <= p <= q < text.len(),
        text[q] == '\n',
        forall|j: int| p <= j < q ==> text[j] != '\n',
    ensures
        line_end(text, p) == q,
    decreases q - p,
{
    if p < q {
        lemma_line_end_at(text, p + 1, q);
    }
}

proof fn lemma_trim_cr_line_ok(v: Seq<char>)
    requires
        line_ok(v),
    ensures
        trim_cr(v.push('\r')) == v,
{
    assert(v.push('\r').drop_last() =~= v);
    assert(trim_cr(v) == v);
    assert(trim_cr(v.push('\r')) == trim_cr(v.push('\r').drop_last()));
}

/// A line break in front of a position changes nothing for the reader.
proof fn lemma_run_skip_break(text: Seq<char>, q: int, s: State, d: SdpView)
    requires
        0 <= q < text.len(),
        text[q] == '\r' || text[q] == '\n',
    ensures
        run_spec(text, q, s, d) == run_spec(text, q + 1, s, d),
{
    assert(skip_breaks(text, q) == skip_breaks(text, q + 1));
    assert(read_record_spec(text, q) == read_record_spec(text, q + 1));
    crate::lexer::lemma_record_advances(text, q + 1);
}

/// Reading the lines of well-formed records is running the state machine
/// over the records.
pub proof fn lemma_run_records(pre: Seq<char>, rs: Seq<Rec>, s: State, d: SdpView)
    requires
        forall|i: int| 0 <= i < rs.len() ==> rec_ok(#[trigger] rs[i]),
    ensures
        run_spec(pre + records_text(rs), pre.len() as int, s, d) == finish(steps(rs, s, d)),
    decreases rs.len(),
{
    let text = pre + records_text(rs);
    let p = pre.len() as int;
    if rs.len() == 0 {
        assert(text =~= pre);
        assert(skip_breaks(text, p) == p);
    } else {
        let r = rs[0];
        assert(rec_ok(r));
        let k = r.0;
        let v = r.1;
        let n = v.len() as int;
        let rest = rs.drop_first();
        let pre2 = pre + kv_line(k, v);
        assert(text =~= pre2 + records_text(rest));
        assert(text[p] == k);
        assert(skip_breaks(text, p) == p);
        assert forall|j: int| p <= j < p + 3 + n implies text[j] != '\n' by {
            if p + 2 <= j < p + 2 + n {
                assert(text[j] == v[j - p - 2]);
            }
        }
        assert(text[p + 3 + n] == '\n');
        lemma_line_end_at(text, p, p + 3 + n);
        let line = text.subrange(p, p + 3 + n);
        assert(line =~= seq![k].push('=') + v.push('\r'));
        lemma_find_char_after(seq![k], '=', v.push('\r'));
        assert(line.take(2) =~= seq![k, '=']);
        assert(line.skip(2) =~= v.push('\r'));
        lemma_trim_cr_line_ok(v);
        assert(read_record_spec(text, p) == Ok::<RecordView, ErrorView>(
            RecordView::Field { key: seq![k, '='], value: v, next: p + 3 + n },
        ));
        match key_field(s, seq![k, '=']) {
            Some(f) => match apply_spec(d, f, v) {
                Ok(d1) => {
                    lemma_run_skip_break(text, p + 3 + n, next_state(f), d1);
                    assert forall|i: int| 0 <= i < rest.len() implies rec_ok(#[trigger] rest[i]) by {
                        assert(rest[i] == rs[i + 1]);
                    }
                    lemma_run_records(pre2, rest, next_state(f), d1);
                    assert(pre2.len() == p + 4 + n);
                },
                Err(_) => {},
            },
            None => {},
        }
    }
}

} // verus!
