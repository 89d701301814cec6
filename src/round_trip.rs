//! Lemmas behind the round trip: every field that the serializer writes
//! reads back, through its decoder, as the value it was written from.

use crate::common::{
    address_text, attribute_text, bandwidth_text, connection_text, AttributeView, BandwidthView,
    ConnectionInformationView,
};
use crate::decoder::{
    address_type_names, attribute_spec, bandwidth_spec, bandwidth_type_names, connection_spec,
    is_experimental, media_names, network_type_names, origin_spec, proto_names, time_units_spec,
    timing_spec, unit_factor, version_spec,
};
use crate::error::ErrorView;
use crate::number::{
    decimal_chars, int_chars, is_digit, lemma_decimal_chars, lemma_int_chars_shape,
    lemma_parse_int_chars,
};
use crate::session::{origin_text, OriginView};
use crate::text::{
    free_of, is_token, join, lemma_find_char_after, lemma_find_char_none, lemma_split_join,
    lemma_ws_join,
};
use crate::decoder::{int_token, port_range_spec, u64_token, media_name_spec, repeat_time_spec, times_spec, time_zones_spec, zones_spec};
use crate::media::{media_name_text, ranged_port_text, MediaNameView, RangedPort};
use crate::session::{time_zone_text, TimeZone};
use crate::text::{split_on, ws_fields};
use crate::time::{offsets_text, repeat_time_text, timing_text, RepeatTimeView, Timing};
use vstd::prelude::*;

verus! {

/// A value that a line can hold and give back: no line feed, and no
/// carriage return at its end.
pub open spec fn line_ok(v: Seq<char>) -> bool {
    free_of(v, '\n') && (v.len() == 0 || v.last() != '\r')
}

pub open spec fn origin_ok(o: OriginView) -> bool {
    &&& is_token(o.username)
    &&& is_token(o.unicast_address)
    &&& network_type_names().contains(o.network_type)
    &&& address_type_names().contains(o.address_type)
}

pub open spec fn connection_ok(c: ConnectionInformationView) -> bool {
    &&& network_type_names().contains(c.network_type)
    &&& address_type_names().contains(c.address_type)
    &&& c.address matches Some(a) ==> is_token(a.address) && a.ttl is None && a.range is None
}

pub open spec fn bandwidth_ok(b: BandwidthView) -> bool {
    if b.experimental {
        free_of(b.bandwidth_type, ':') && free_of(b.bandwidth_type, '\n')
    } else {
        bandwidth_type_names().contains(b.bandwidth_type)
    }
}

pub open spec fn attribute_ok(a: AttributeView) -> bool {
    free_of(a.key, ':') && line_ok(attribute_text(a))
}

/// The registered names are single tokens with no `/`, `:` or line feed.
pub proof fn lemma_names_are_plain()
    ensures
        forall|t: Seq<char>|
            #![trigger network_type_names().contains(t)]
            #![trigger address_type_names().contains(t)]
            #![trigger bandwidth_type_names().contains(t)]
            #![trigger media_names().contains(t)]
            #![trigger proto_names().contains(t)]
            network_type_names().contains(t) || address_type_names().contains(t)
                || bandwidth_type_names().contains(t) || media_names().contains(t)
                || proto_names().contains(t) ==> is_token(t) && free_of(t, '/') && free_of(t, ':')
                && free_of(t, '\n') && !is_experimental(t),
{
    assert forall|t: Seq<char>|
        network_type_names().contains(t) || address_type_names().contains(t)
            || bandwidth_type_names().contains(t) || media_names().contains(t)
            || proto_names().contains(t) implies is_token(t) && free_of(t, '/') && free_of(t, ':')
        && free_of(t, '\n') && !is_experimental(t) by {
        if network_type_names().contains(t) {
            let i = choose|i: int| 0 <= i < network_type_names().len() && network_type_names()[i] == t;
        } else if address_type_names().contains(t) {
            let i = choose|i: int| 0 <= i < address_type_names().len() && address_type_names()[i] == t;
        } else if bandwidth_type_names().contains(t) {
            let i = choose|i: int|
                0 <= i < bandwidth_type_names().len() && bandwidth_type_names()[i] == t;
        } else if media_names().contains(t) {
            let i = choose|i: int| 0 <= i < media_names().len() && media_names()[i] == t;
        } else {
            let i = choose|i: int| 0 <= i < proto_names().len() && proto_names()[i] == t;
        }
    }
}

/// A number written in canonical form is a token without `/`, `:` or line
/// feed, ending in a digit.
pub proof fn lemma_int_token(i: int)
    ensures
        is_token(int_chars(i)),
        free_of(int_chars(i), '/'),
        free_of(int_chars(i), ':'),
        free_of(int_chars(i), '\n'),
        is_digit(int_chars(i).last()),
{
    lemma_int_chars_shape(i);
    if i < 0 {
        lemma_decimal_chars((-i) as nat);
        assert(int_chars(i).last() == decimal_chars((-i) as nat).last());
    } else {
        lemma_decimal_chars(i as nat);
    }
}

pub proof fn lemma_join_push(ts: Seq<Seq<char>>, t: Seq<char>, sep: char)
    ensures
        join(ts.push(t), sep) == if ts.len() == 0 {
            t
        } else {
            join(ts, sep).push(sep) + t
        },
{
    assert(ts.push(t).drop_last() =~= ts);
    if ts.len() == 0 {
        assert(ts.push(t)[0] == t);
    }
}

pub proof fn lemma_join2(a: Seq<char>, b: Seq<char>, sep: char)
    ensures
        join(seq![a, b], sep) == a.push(sep) + b,
{
    lemma_join_push(seq![], a, sep);
    assert(seq![a] =~= Seq::<Seq<char>>::empty().push(a));
    lemma_join_push(seq![a], b, sep);
    assert(seq![a, b] =~= seq![a].push(b));
}

/// Tokens joined by a separator that is no line break make a line.
pub proof fn lemma_join_line_ok(ts: Seq<Seq<char>>, sep: char)
    requires
        ts.len() > 0,
        sep != '\n',
        forall|i: int| 0 <= i < ts.len() ==> is_token(#[trigger] ts[i]),
    ensures
        line_ok(join(ts, sep)),
    decreases ts.len(),
{
    lemma_join_push(ts.drop_last(), ts.last(), sep);
    assert(ts.drop_last().push(ts.last()) =~= ts);
    let l = ts.last();
    assert(is_token(l));
    assert(!crate::text::is_ascii_ws(l[l.len() - 1]));
    if ts.len() > 1 {
        assert forall|i: int| 0 <= i < ts.len() - 1 implies is_token(#[trigger] ts.drop_last()[i]) by {
            assert(ts.drop_last()[i] == ts[i]);
        }
        lemma_join_line_ok(ts.drop_last(), sep);
        let x = join(ts.drop_last(), sep).push(sep);
        let y = x + l;
        assert forall|i: int| 0 <= i < y.len() implies #[trigger] y[i] != '\n' by {
            if i < x.len() - 1 {
                assert(y[i] == join(ts.drop_last(), sep)[i]);
            } else if i >= x.len() {
                assert(y[i] == l[i - x.len()]);
                assert(!crate::text::is_ascii_ws(l[i - x.len()]));
            }
        }
        assert(y.last() == l.last());
    } else {
        assert forall|i: int| 0 <= i < l.len() implies #[trigger] l[i] != '\n' by {
            assert(!crate::text::is_ascii_ws(l[i]));
        }
    }
}

pub proof fn lemma_version_round_trip()
    ensures
        version_spec(int_chars(0)) == Ok::<isize, ErrorView>(0),
        line_ok(int_chars(0)),
{
    lemma_int_token(0);
    lemma_join_line_ok(seq![int_chars(0)], ' ');
    assert(join(seq![int_chars(0)], ' ') == int_chars(0));
    lemma_parse_int_chars(0, true, isize::MIN as int, isize::MAX as int);
}

pub proof fn lemma_origin_round_trip(o: OriginView)
    requires
        origin_ok(o),
    ensures
        origin_spec(origin_text(o)) == Ok::<OriginView, ErrorView>(o),
        line_ok(origin_text(o)),
{
    lemma_names_are_plain();
    let id = decimal_chars(o.session_id as nat);
    let ver = decimal_chars(o.session_version as nat);
    lemma_int_token(o.session_id as int);
    lemma_int_token(o.session_version as int);
    let toks = seq![o.username, id, ver, o.network_type, o.address_type, o.unicast_address];
    assert forall|i: int| 0 <= i < toks.len() implies is_token(#[trigger] toks[i]) by {}
    let t2 = seq![o.username, id];
    lemma_join2(o.username, id, ' ');
    lemma_join_push(t2, ver, ' ');
    let t3 = t2.push(ver);
    lemma_join_push(t3, o.network_type, ' ');
    let t4 = t3.push(o.network_type);
    lemma_join_push(t4, o.address_type, ' ');
    let t5 = t4.push(o.address_type);
    lemma_join_push(t5, o.unicast_address, ' ');
    assert(toks =~= t5.push(o.unicast_address));
    assert(join(toks, ' ') =~= origin_text(o));
    lemma_ws_join(toks);
    lemma_join_line_ok(toks, ' ');
    lemma_parse_int_chars(o.session_id as int, false, 0, u64::MAX as int);
    lemma_parse_int_chars(o.session_version as int, false, 0, u64::MAX as int);
}

pub proof fn lemma_connection_round_trip(c: ConnectionInformationView, k: char)
    requires
        connection_ok(c),
    ensures
        connection_spec(connection_text(c), k) == Ok::<ConnectionInformationView, ErrorView>(c),
        line_ok(connection_text(c)),
{
    lemma_names_are_plain();
    match c.address {
        Some(a) => {
            let toks = seq![c.network_type, c.address_type, a.address];
            assert forall|i: int| 0 <= i < toks.len() implies is_token(#[trigger] toks[i]) by {}
            assert(address_text(a) =~= a.address);
            assert(toks.drop_last() =~= seq![c.network_type, c.address_type]);
            lemma_join2(c.network_type, c.address_type, ' ');
            assert(join(toks, ' ') =~= connection_text(c));
            lemma_ws_join(toks);
            lemma_join_line_ok(toks, ' ');
        },
        None => {
            let toks = seq![c.network_type, c.address_type];
            assert forall|i: int| 0 <= i < toks.len() implies is_token(#[trigger] toks[i]) by {}
            lemma_join2(c.network_type, c.address_type, ' ');
            lemma_ws_join(toks);
            lemma_join_line_ok(toks, ' ');
        },
    }
}

pub proof fn lemma_bandwidth_round_trip(b: BandwidthView)
    requires
        bandwidth_ok(b),
    ensures
        bandwidth_spec(bandwidth_text(b)) == Ok::<BandwidthView, ErrorView>(b),
        line_ok(bandwidth_text(b)),
{
    lemma_names_are_plain();
    let n = decimal_chars(b.bandwidth as nat);
    lemma_int_token(b.bandwidth as int);
    let head = if b.experimental {
        seq!['X', '-'] + b.bandwidth_type
    } else {
        b.bandwidth_type
    };
    assert(free_of(head, ':')) by {
        if b.experimental {
            assert forall|i: int| 0 <= i < head.len() implies #[trigger] head[i] != ':' by {
                if i >= 2 {
                    assert(head[i] == b.bandwidth_type[i - 2]);
                }
            }
        }
    }
    let parts = seq![head, n];
    lemma_join2(head, n, ':');
    assert(bandwidth_text(b) =~= head.push(':') + n);
    lemma_split_join(parts, ':');
    if b.experimental {
        assert(head.skip(2) =~= b.bandwidth_type);
    }
    lemma_parse_int_chars(b.bandwidth as int, false, 0, u64::MAX as int);
    let t = bandwidth_text(b);
    assert(free_of(head, '\n')) by {
        if b.experimental {
            assert forall|i: int| 0 <= i < head.len() implies #[trigger] head[i] != '\n' by {
                if i >= 2 {
                    assert(head[i] == b.bandwidth_type[i - 2]);
                }
            }
        } else {
            assert(bandwidth_type_names().contains(head));
        }
    }
    assert forall|i: int| 0 <= i < t.len() implies #[trigger] t[i] != '\n' by {
        if i < head.len() {
            assert(t[i] == head[i]);
        } else if i > head.len() {
            assert(t[i] == n[i - head.len() - 1]);
        }
    }
    assert(t.last() == n.last());
}

pub proof fn lemma_timing_round_trip(t: Timing)
    ensures
        timing_spec(timing_text(t)) == Ok::<Timing, ErrorView>(t),
        line_ok(timing_text(t)),
{
    let a = decimal_chars(t.start_time as nat);
    let b = decimal_chars(t.stop_time as nat);
    lemma_int_token(t.start_time as int);
    lemma_int_token(t.stop_time as int);
    let toks = seq![a, b];
    assert forall|i: int| 0 <= i < toks.len() implies is_token(#[trigger] toks[i]) by {}
    lemma_join2(a, b, ' ');
    lemma_ws_join(toks);
    lemma_join_line_ok(toks, ' ');
    lemma_parse_int_chars(t.start_time as int, false, 0, u64::MAX as int);
    lemma_parse_int_chars(t.stop_time as int, false, 0, u64::MAX as int);
}

pub proof fn lemma_attribute_round_trip(a: AttributeView)
    requires
        free_of(a.key, ':'),
    ensures
        attribute_spec(attribute_text(a)) == a,
{
    lemma_find_char_none(a.key, ':');
    match a.value {
        Some(v) => {
            lemma_find_char_after(a.key, ':', v);
            assert(attribute_text(a).take(a.key.len() as int) =~= a.key);
            assert(attribute_text(a).skip(a.key.len() + 1int) =~= v);
        },
        None => {},
    }
}

/// A canonical integer reads back as a time in seconds, with no unit.
pub proof fn lemma_time_units_round_trip(x: i64)
    ensures
        time_units_spec(int_chars(x as int)) == Ok::<i64, ErrorView>(x),
{
    lemma_int_token(x as int);
    lemma_parse_int_chars(x as int, true, i64::MIN as int, i64::MAX as int);
    assert(unit_factor(int_chars(x as int).last()) == 0);
}

pub open spec fn ints_text(xs: Seq<i64>) -> Seq<Seq<char>> {
    xs.map_values(|x: i64| int_chars(x as int))
}

proof fn lemma_ints_tokens(xs: Seq<i64>)
    ensures
        forall|i: int| 0 <= i < xs.len() ==> is_token(#[trigger] ints_text(xs)[i]),
{
    assert forall|i: int| 0 <= i < xs.len() implies is_token(#[trigger] ints_text(xs)[i]) by {
        lemma_int_token(xs[i] as int);
    }
}

/// Canonical times read back as themselves.
pub proof fn lemma_times_round_trip(xs: Seq<i64>)
    ensures
        times_spec(ints_text(xs)) == Ok::<Seq<i64>, ErrorView>(xs),
    decreases xs.len(),
{
    if xs.len() > 0 {
        lemma_times_round_trip(xs.drop_last());
        assert(ints_text(xs).drop_last() =~= ints_text(xs.drop_last()));
        assert(ints_text(xs).last() == int_chars(xs.last() as int));
        lemma_time_units_round_trip(xs.last());
        assert(times_spec(ints_text(xs)) == Ok::<Seq<i64>, ErrorView>(xs.drop_last().push(xs.last())));
        assert(xs.drop_last().push(xs.last()) =~= xs);
    } else {
        assert(ints_text(xs) =~= seq![]);
        assert(xs =~= seq![]);
    }
}

proof fn lemma_repeat_text(r: RepeatTimeView, k: int)
    requires
        0 <= k <= r.offsets.len(),
    ensures
        join(ints_text(seq![r.interval, r.duration] + r.offsets.take(k)), ' ') == int_chars(
            r.interval as int,
        ).push(' ') + int_chars(r.duration as int) + offsets_text(r.offsets.take(k)),
    decreases k,
{
    let all = seq![r.interval, r.duration] + r.offsets.take(k);
    if k == 0 {
        assert(all =~= seq![r.interval, r.duration]);
        assert(ints_text(all) =~= seq![int_chars(r.interval as int), int_chars(r.duration as int)]);
        lemma_join2(int_chars(r.interval as int), int_chars(r.duration as int), ' ');
        assert(offsets_text(r.offsets.take(0)) == Seq::<char>::empty());
        assert(int_chars(r.interval as int).push(' ') + int_chars(r.duration as int) + Seq::<
            char,
        >::empty() =~= int_chars(r.interval as int).push(' ') + int_chars(r.duration as int));
    } else {
        lemma_repeat_text(r, k - 1);
        let prev = seq![r.interval, r.duration] + r.offsets.take(k - 1);
        assert(ints_text(all) =~= ints_text(prev).push(int_chars(r.offsets[k - 1] as int)));
        lemma_join_push(ints_text(prev), int_chars(r.offsets[k - 1] as int), ' ');
        assert(r.offsets.take(k).drop_last() =~= r.offsets.take(k - 1));
    }
}

pub proof fn lemma_repeat_time_round_trip(r: RepeatTimeView)
    requires
        r.offsets.len() > 0,
    ensures
        repeat_time_spec(repeat_time_text(r)) == Ok::<RepeatTimeView, ErrorView>(r),
        line_ok(repeat_time_text(r)),
{
    let all = seq![r.interval, r.duration] + r.offsets;
    lemma_repeat_text(r, r.offsets.len() as int);
    assert(r.offsets.take(r.offsets.len() as int) =~= r.offsets);
    lemma_ints_tokens(all);
    lemma_ws_join(ints_text(all));
    lemma_join_line_ok(ints_text(all), ' ');
    lemma_times_round_trip(all);
    assert(all.skip(2) =~= r.offsets);
}

/// The tokens of a `z=` line: adjustment time and offset of each zone.
pub open spec fn zone_tokens(zs: Seq<TimeZone>) -> Seq<Seq<char>>
    decreases zs.len(),
{
    if zs.len() == 0 {
        seq![]
    } else {
        zone_tokens(zs.drop_last()) + seq![
            decimal_chars(zs.last().adjustment_time as nat),
            int_chars(zs.last().offset as int),
        ]
    }
}

proof fn lemma_zone_tokens(zs: Seq<TimeZone>)
    ensures
        zone_tokens(zs).len() == 2 * zs.len(),
        forall|i: int| 0 <= i < zone_tokens(zs).len() ==> is_token(#[trigger] zone_tokens(zs)[i]),
        zs.len() > 0 ==> join(zone_tokens(zs), ' ') == join(
            zs.map_values(|z: TimeZone| time_zone_text(z)),
            ' ',
        ),
        zones_spec(zone_tokens(zs)) == Ok::<Seq<TimeZone>, ErrorView>(zs),
    decreases zs.len(),
{
    if zs.len() > 0 {
        let init = zs.drop_last();
        let z = zs.last();
        lemma_zone_tokens(init);
        let a = decimal_chars(z.adjustment_time as nat);
        let o = int_chars(z.offset as int);
        lemma_int_token(z.adjustment_time as int);
        lemma_int_token(z.offset as int);
        let t = zone_tokens(zs);
        let ti = zone_tokens(init);
        assert(t =~= ti.push(a).push(o));
        assert forall|i: int| 0 <= i < t.len() implies is_token(#[trigger] t[i]) by {
            if i < ti.len() {
                assert(t[i] == ti[i]);
            }
        }
        lemma_join_push(ti, a, ' ');
        lemma_join_push(ti.push(a), o, ' ');
        let texts = zs.map_values(|z: TimeZone| time_zone_text(z));
        let texts_i = init.map_values(|z: TimeZone| time_zone_text(z));
        assert(texts =~= texts_i.push(time_zone_text(z)));
        lemma_join_push(texts_i, time_zone_text(z), ' ');
        if init.len() > 0 {
            assert(join(t, ' ') =~= join(texts, ' '));
        } else {
            assert(ti =~= seq![]);
            assert(join(t, ' ') =~= join(texts, ' '));
        }
        // reading the pairs back
        assert(t.take(t.len() - 2) =~= ti);
        assert(t[t.len() - 2] == a);
        assert(t[t.len() - 1] == o);
        lemma_parse_int_chars(z.adjustment_time as int, false, 0, u64::MAX as int);
        assert(u64_token(a) == Ok::<int, ErrorView>(z.adjustment_time as int));
        lemma_time_units_round_trip(z.offset);
        assert(zones_spec(t) == Ok::<Seq<TimeZone>, ErrorView>(init.push(TimeZone {
            adjustment_time: z.adjustment_time,
            offset: z.offset,
        })));
        assert(init.push(z) =~= zs);
    } else {
        assert(zone_tokens(zs) =~= seq![]);
        assert(zs =~= seq![]);
    }
}

pub proof fn lemma_time_zones_round_trip(zs: Seq<TimeZone>)
    requires
        zs.len() > 0,
    ensures
        time_zones_spec(join(zs.map_values(|z: TimeZone| time_zone_text(z)), ' ')) == Ok::<
            Seq<TimeZone>,
            ErrorView,
        >(zs),
        line_ok(join(zs.map_values(|z: TimeZone| time_zone_text(z)), ' ')),
{
    lemma_zone_tokens(zs);
    lemma_ws_join(zone_tokens(zs));
    lemma_join_line_ok(zone_tokens(zs), ' ');
    assert((2 * zs.len()) % 2 == 0) by (nonlinear_arith);
}

/// Joining non-empty lists: the two joins with one separator between.
pub proof fn lemma_join_concat(a: Seq<Seq<char>>, b: Seq<Seq<char>>, sep: char)
    requires
        a.len() > 0,
        b.len() > 0,
    ensures
        join(a + b, sep) == join(a, sep).push(sep) + join(b, sep),
    decreases b.len(),
{
    lemma_join_push(a + b.drop_last(), b.last(), sep);
    assert((a + b.drop_last()).push(b.last()) =~= a + b);
    lemma_join_push(b.drop_last(), b.last(), sep);
    assert(b.drop_last().push(b.last()) =~= b);
    if b.len() > 1 {
        lemma_join_concat(a, b.drop_last(), sep);
    } else {
        assert(a + b.drop_last() =~= a);
    }
}

/// Tokens joined by a separator that is no whitespace make one token.
pub proof fn lemma_join_token(ts: Seq<Seq<char>>, sep: char)
    requires
        ts.len() > 0,
        !crate::text::is_ascii_ws(sep),
        forall|i: int| 0 <= i < ts.len() ==> is_token(#[trigger] ts[i]),
    ensures
        is_token(join(ts, sep)),
    decreases ts.len(),
{
    lemma_join_push(ts.drop_last(), ts.last(), sep);
    assert(ts.drop_last().push(ts.last()) =~= ts);
    assert(is_token(ts.last()));
    if ts.len() > 1 {
        assert forall|i: int| 0 <= i < ts.len() - 1 implies is_token(#[trigger] ts.drop_last()[i]) by {
            assert(ts.drop_last()[i] == ts[i]);
        }
        lemma_join_token(ts.drop_last(), sep);
        let x = join(ts.drop_last(), sep).push(sep);
        let y = x + ts.last();
        assert forall|i: int| 0 <= i < y.len() implies !crate::text::is_ascii_ws(#[trigger] y[i]) by {
            if i < x.len() - 1 {
                assert(y[i] == join(ts.drop_last(), sep)[i]);
            } else if i >= x.len() {
                assert(y[i] == ts.last()[i - x.len()]);
            }
        }
    }
}

pub open spec fn media_name_ok(m: MediaNameView) -> bool {
    &&& media_names().contains(m.media)
    &&& 0 <= m.port.value <= u16::MAX
    &&& m.port.range matches Some(r) ==> i32::MIN <= r <= i32::MAX
    &&& m.protos.len() > 0
    &&& forall|i: int| 0 <= i < m.protos.len() ==> proto_names().contains(#[trigger] m.protos[i])
    &&& m.formats.len() > 0
    &&& forall|i: int| 0 <= i < m.formats.len() ==> is_token(#[trigger] m.formats[i])
}

proof fn lemma_port_round_trip(p: RangedPort)
    requires
        0 <= p.value <= u16::MAX,
        p.range matches Some(r) ==> i32::MIN <= r <= i32::MAX,
    ensures
        is_token(ranged_port_text(p)),
        ({
            let parts = split_on(ranged_port_text(p), '/');
            &&& int_token(parts[0], false, 0, u16::MAX as int) == Ok::<int, ErrorView>(p.value as int)
            &&& port_range_spec(parts) == Ok::<Option<isize>, ErrorView>(p.range)
        }),
{
    let v = int_chars(p.value as int);
    lemma_int_token(p.value as int);
    let port_parts = match p.range {
        Some(r) => seq![v, int_chars(r as int)],
        None => seq![v],
    };
    match p.range {
        Some(r) => {
            lemma_int_token(r as int);
            lemma_join2(v, int_chars(r as int), '/');
            lemma_join_token(port_parts, '/');
            lemma_parse_int_chars(r as int, true, i32::MIN as int, i32::MAX as int);
        },
        None => {
            assert(join(port_parts, '/') == v);
        },
    }
    assert(join(port_parts, '/') == ranged_port_text(p));
    lemma_split_join(port_parts, '/');
    lemma_parse_int_chars(p.value as int, false, 0, u16::MAX as int);
}

proof fn lemma_protos_round_trip(protos: Seq<Seq<char>>)
    requires
        protos.len() > 0,
        forall|i: int| 0 <= i < protos.len() ==> proto_names().contains(#[trigger] protos[i]),
    ensures
        is_token(join(protos, '/')),
        split_on(join(protos, '/'), '/') == protos,
{
    lemma_names_are_plain();
    assert forall|i: int| 0 <= i < protos.len() implies is_token(#[trigger] protos[i]) && free_of(
        protos[i],
        '/',
    ) by {
        assert(proto_names().contains(protos[i]));
    }
    lemma_join_token(protos, '/');
    lemma_split_join(protos, '/');
}

pub proof fn lemma_media_name_round_trip(m: MediaNameView)
    requires
        media_name_ok(m),
    ensures
        media_name_spec(media_name_text(m)) == Ok::<MediaNameView, ErrorView>(m),
        line_ok(media_name_text(m)),
{
    lemma_names_are_plain();
    lemma_port_round_trip(m.port);
    lemma_protos_round_trip(m.protos);
    let port = ranged_port_text(m.port);
    let protos = join(m.protos, '/');
    let head = seq![m.media, port, protos];
    let toks = head + m.formats;
    assert(is_token(m.media));
    assert forall|i: int| 0 <= i < toks.len() implies is_token(#[trigger] toks[i]) by {
        if i >= 3 {
            assert(toks[i] == m.formats[i - 3]);
        }
    }
    lemma_join2(m.media, port, ' ');
    lemma_join_push(seq![m.media, port], protos, ' ');
    assert(head =~= seq![m.media, port].push(protos));
    lemma_join_concat(head, m.formats, ' ');
    assert(join(toks, ' ') =~= media_name_text(m));
    lemma_ws_join(toks);
    lemma_join_line_ok(toks, ' ');
    assert(toks.skip(3) =~= m.formats);
    assert(toks[0] == m.media);
    assert(toks[1] == port);
    assert(toks[2] == protos);
}

} // verus!
