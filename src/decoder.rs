//! Field decoders: each turns the value of one `key=value` line into its typed
//! form, or says why it cannot.

use crate::common::{
    Address, AddressView, Attribute, AttributeView, Bandwidth, BandwidthView,
    ConnectionInformation, ConnectionInformationView,
};
use crate::error::{Error, ErrorView};
use crate::media::{MediaName, MediaNameView, RangedPort};
use crate::number::{parse_int, parse_int_spec};
use crate::session::{Origin, OriginView, TimeZone};
use crate::text::{
    find, find_char, lemma_split_on_nonempty, slice_of, split_char, split_on, split_ws,
    string_of, views_of, ws_fields,
};
use crate::time::{RepeatTime, RepeatTimeView, Timing};
use vstd::prelude::*;

verus! {

/// A line as it was written: the key letter, `=`, the value.
pub open spec fn with_key(k: char, v: Seq<char>) -> Seq<char> {
    seq![k, '='] + v
}

pub open spec fn network_type_names() -> Seq<Seq<char>> {
    seq![seq!['I', 'N']]
}

pub open spec fn address_type_names() -> Seq<Seq<char>> {
    seq![seq!['I', 'P', '4'], seq!['I', 'P', '6']]
}

pub open spec fn bandwidth_type_names() -> Seq<Seq<char>> {
    seq![seq!['C', 'T'], seq!['A', 'S']]
}

pub open spec fn media_names() -> Seq<Seq<char>> {
    seq![
        seq!['a', 'u', 'd', 'i', 'o'],
        seq!['v', 'i', 'd', 'e', 'o'],
        seq!['t', 'e', 'x', 't'],
        seq!['a', 'p', 'p', 'l', 'i', 'c', 'a', 't', 'i', 'o', 'n'],
        seq!['m', 'e', 's', 's', 'a', 'g', 'e'],
    ]
}

pub open spec fn proto_names() -> Seq<Seq<char>> {
    seq![
        seq!['U', 'D', 'P'],
        seq!['R', 'T', 'P'],
        seq!['A', 'V', 'P'],
        seq!['S', 'A', 'V', 'P'],
        seq!['S', 'A', 'V', 'P', 'F'],
        seq!['T', 'L', 'S'],
        seq!['D', 'T', 'L', 'S'],
        seq!['S', 'C', 'T', 'P'],
        seq!['A', 'V', 'P', 'F'],
    ]
}

fn network_types() -> (r: Vec<Vec<char>>)
    ensures
        views_of(r@) == network_type_names(),
{
    let r = vec![vec!['I', 'N']];
    assert(views_of(r@) =~= network_type_names());
    r
}

fn address_types() -> (r: Vec<Vec<char>>)
    ensures
        views_of(r@) == address_type_names(),
{
    let r = vec![vec!['I', 'P', '4'], vec!['I', 'P', '6']];
    assert(views_of(r@) =~= address_type_names());
    r
}

fn bandwidth_types() -> (r: Vec<Vec<char>>)
    ensures
        views_of(r@) == bandwidth_type_names(),
{
    let r = vec![vec!['C', 'T'], vec!['A', 'S']];
    assert(views_of(r@) =~= bandwidth_type_names());
    r
}

fn media_kinds() -> (r: Vec<Vec<char>>)
    ensures
        views_of(r@) == media_names(),
{
    let r = vec![
        vec!['a', 'u', 'd', 'i', 'o'],
        vec!['v', 'i', 'd', 'e', 'o'],
        vec!['t', 'e', 'x', 't'],
        vec!['a', 'p', 'p', 'l', 'i', 'c', 'a', 't', 'i', 'o', 'n'],
        vec!['m', 'e', 's', 's', 'a', 'g', 'e'],
    ];
    assert(views_of(r@) =~= media_names());
    r
}

fn protos() -> (r: Vec<Vec<char>>)
    ensures
        views_of(r@) == proto_names(),
{
    let r = vec![
        vec!['U', 'D', 'P'],
        vec!['R', 'T', 'P'],
        vec!['A', 'V', 'P'],
        vec!['S', 'A', 'V', 'P'],
        vec!['S', 'A', 'V', 'P', 'F'],
        vec!['T', 'L', 'S'],
        vec!['D', 'T', 'L', 'S'],
        vec!['S', 'C', 'T', 'P'],
        vec!['A', 'V', 'P', 'F'],
    ];
    assert(views_of(r@) =~= proto_names());
    r
}

/// Whether `t` is one of `names`.
pub fn is_one_of(t: &Vec<char>, names: &Vec<Vec<char>>) -> (r: bool)
    ensures
        r == views_of(names@).contains(t@),
{
    let mut i: usize = 0;
    while i < names.len()
        invariant
            i <= names.len(),
            forall|j: int| 0 <= j < i ==> views_of(names@)[j] != t@,
        decreases names.len() - i,
    {
        if crate::text::same_chars(t, &names[i]) {
            assert(views_of(names@)[i as int] == t@);
            return true;
        }
        i = i + 1;
    }
    false
}

/// An integer token read as `str::parse` would for a type spanning `lo..=hi`;
/// a failure carries the token.
pub open spec fn int_token(t: Seq<char>, signed: bool, lo: int, hi: int) -> Result<int, ErrorView> {
    match parse_int_spec(t, signed, lo, hi) {
        Some(n) => Ok(n),
        None => Err(ErrorView::ParseInt(t)),
    }
}

pub open spec fn u64_token(t: Seq<char>) -> Result<int, ErrorView> {
    int_token(t, false, 0, u64::MAX as int)
}

pub open spec fn i64_token(t: Seq<char>) -> Result<int, ErrorView> {
    int_token(t, true, i64::MIN as int, i64::MAX as int)
}

fn u64_of(t: &Vec<char>) -> (r: Result<u64, Error>)
    ensures
        match u64_token(t@) {
            Ok(n) => r == Ok::<u64, Error>(n as u64),
            Err(e) => r matches Err(x) && x@ == e,
        },
{
    match parse_int(t, false, 0, u64::MAX as i128) {
        Some(n) => Ok(n as u64),
        None => Err(Error::ParseInt(string_of(t))),
    }
}

fn i64_of(t: &Vec<char>) -> (r: Result<i64, Error>)
    ensures
        match i64_token(t@) {
            Ok(n) => r == Ok::<i64, Error>(n as i64),
            Err(e) => r matches Err(x) && x@ == e,
        },
{
    match parse_int(t, true, i64::MIN as i128, i64::MAX as i128) {
        Some(n) => Ok(n as i64),
        None => Err(Error::ParseInt(string_of(t))),
    }
}

/// `v=`: an integer that must be 0.
pub open spec fn version_spec(v: Seq<char>) -> Result<isize, ErrorView> {
    match int_token(v, true, isize::MIN as int, isize::MAX as int) {
        Err(e) => Err(e),
        Ok(n) => if n != 0 {
            Err(ErrorView::SdpInvalidSyntax(v))
        } else {
            Ok(0)
        },
    }
}

pub fn unmarshal_protocol_version(value: &Vec<char>) -> (r: Result<isize, Error>)
    ensures
        match version_spec(value@) {
            Ok(n) => r == Ok::<isize, Error>(n),
            Err(e) => r matches Err(x) && x@ == e,
        },
{
    match parse_int(value, true, isize::MIN as i128, isize::MAX as i128) {
        None => Err(Error::ParseInt(string_of(value))),
        Some(n) => if n != 0 {
            Err(Error::SdpInvalidSyntax(string_of(value)))
        } else {
            Ok(0)
        },
    }
}

/// `o=`: exactly six tokens; two numbers, a registered network type and a
/// registered address type among them.
pub open spec fn origin_spec(v: Seq<char>) -> Result<OriginView, ErrorView> {
    let f = ws_fields(v);
    if f.len() != 6 {
        Err(ErrorView::SdpInvalidSyntax(with_key('o', v)))
    } else {
        match u64_token(f[1]) {
            Err(e) => Err(e),
            Ok(id) => match u64_token(f[2]) {
                Err(e) => Err(e),
                Ok(ver) => if !network_type_names().contains(f[3]) {
                    Err(ErrorView::SdpInvalidValue(f[3]))
                } else if !address_type_names().contains(f[4]) {
                    Err(ErrorView::SdpInvalidValue(f[4]))
                } else {
                    Ok(
                        OriginView {
                            username: f[0],
                            session_id: id as u64,
                            session_version: ver as u64,
                            network_type: f[3],
                            address_type: f[4],
                            unicast_address: f[5],
                        },
                    )
                },
            },
        }
    }
}

/// The line itself, `key=value`, as text.
pub(crate) fn line_text(k: char, value: &Vec<char>) -> (r: String)
    ensures
        r@ == with_key(k, value@),
{
    let mut s = String::new();
    crate::text::push_char(&mut s, k);
    crate::text::push_char(&mut s, '=');
    crate::text::push_chars(&mut s, value);
    assert(s@ =~= with_key(k, value@));
    s
}

pub fn unmarshal_origin(value: &Vec<char>) -> (r: Result<Origin, Error>)
    ensures
        match origin_spec(value@) {
            Ok(o) => r matches Ok(x) && x@ == o,
            Err(e) => r matches Err(x) && x@ == e,
        },
{
    let f = split_ws(value);
    if f.len() != 6 {
        return Err(Error::SdpInvalidSyntax(line_text('o', value)));
    }
    assert(views_of(f@)[1] == f@[1]@);
    assert(views_of(f@)[2] == f@[2]@);
    assert(views_of(f@)[3] == f@[3]@);
    assert(views_of(f@)[4] == f@[4]@);
    assert(views_of(f@)[0] == f@[0]@);
    assert(views_of(f@)[5] == f@[5]@);
    let session_id = u64_of(&f[1])?;
    let session_version = u64_of(&f[2])?;
    if !is_one_of(&f[3], &network_types()) {
        return Err(Error::SdpInvalidValue(string_of(&f[3])));
    }
    if !is_one_of(&f[4], &address_types()) {
        return Err(Error::SdpInvalidValue(string_of(&f[4])));
    }
    Ok(
        Origin {
            username: string_of(&f[0]),
            session_id,
            session_version,
            network_type: string_of(&f[3]),
            address_type: string_of(&f[4]),
            unicast_address: string_of(&f[5]),
        },
    )
}

/// `c=`: at least two tokens, a registered network type and address type,
/// then the address if a third token is there.
pub open spec fn connection_spec(v: Seq<char>, k: char) -> Result<ConnectionInformationView, ErrorView> {
    let f = ws_fields(v);
    if f.len() < 2 {
        Err(ErrorView::SdpInvalidSyntax(with_key(k, v)))
    } else if !network_type_names().contains(f[0]) {
        Err(ErrorView::SdpInvalidValue(f[0]))
    } else if !address_type_names().contains(f[1]) {
        Err(ErrorView::SdpInvalidValue(f[1]))
    } else {
        Ok(
            ConnectionInformationView {
                network_type: f[0],
                address_type: f[1],
                address: if f.len() > 2 {
                    Some(AddressView { address: f[2], ttl: None, range: None })
                } else {
                    None
                },
            },
        )
    }
}

pub fn unmarshal_connection_information(value: &Vec<char>) -> (r: Result<ConnectionInformation, Error>)
    ensures
        match connection_spec(value@, 'c') {
            Ok(c) => r matches Ok(x) && x@ == c,
            Err(e) => r matches Err(x) && x@ == e,
        },
{
    let f = split_ws(value);
    if f.len() < 2 {
        return Err(Error::SdpInvalidSyntax(line_text('c', value)));
    }
    assert(views_of(f@)[0] == f@[0]@);
    assert(views_of(f@)[1] == f@[1]@);
    if !is_one_of(&f[0], &network_types()) {
        return Err(Error::SdpInvalidValue(string_of(&f[0])));
    }
    if !is_one_of(&f[1], &address_types()) {
        return Err(Error::SdpInvalidValue(string_of(&f[1])));
    }
    let address = if f.len() > 2 {
        assert(views_of(f@)[2] == f@[2]@);
        Some(Address { address: string_of(&f[2]), ttl: None, range: None })
    } else {
        None
    };
    Ok(
        ConnectionInformation {
            network_type: string_of(&f[0]),
            address_type: string_of(&f[1]),
            address,
        },
    )
}

pub open spec fn is_experimental(t: Seq<char>) -> bool {
    t.len() >= 2 && t[0] == 'X' && t[1] == '-'
}

/// `b=`: `<type>:<number>`; a type with `X-` in front is experimental and
/// kept without it, any other must be registered.
pub open spec fn bandwidth_spec(v: Seq<char>) -> Result<BandwidthView, ErrorView> {
    let parts = split_on(v, ':');
    if parts.len() != 2 {
        Err(ErrorView::SdpInvalidSyntax(with_key('b', v)))
    } else {
        let experimental = is_experimental(parts[0]);
        if !experimental && !bandwidth_type_names().contains(parts[0]) {
            Err(ErrorView::SdpInvalidValue(parts[0]))
        } else {
            match u64_token(parts[1]) {
                Err(e) => Err(e),
                Ok(n) => Ok(
                    BandwidthView {
                        experimental,
                        bandwidth_type: if experimental {
                            parts[0].skip(2)
                        } else {
                            parts[0]
                        },
                        bandwidth: n as u64,
                    },
                ),
            }
        }
    }
}

pub fn unmarshal_bandwidth(value: &Vec<char>) -> (r: Result<Bandwidth, Error>)
    ensures
        match bandwidth_spec(value@) {
            Ok(b) => r matches Ok(x) && x@ == b,
            Err(e) => r matches Err(x) && x@ == e,
        },
{
    let parts = split_char(value, ':');
    if parts.len() != 2 {
        return Err(Error::SdpInvalidSyntax(line_text('b', value)));
    }
    assert(views_of(parts@)[0] == parts@[0]@);
    assert(views_of(parts@)[1] == parts@[1]@);
    let t = &parts[0];
    let experimental = t.len() >= 2 && t[0] == 'X' && t[1] == '-';
    if !experimental && !is_one_of(t, &bandwidth_types()) {
        return Err(Error::SdpInvalidValue(string_of(t)));
    }
    let bandwidth = u64_of(&parts[1])?;
    let bandwidth_type = if experimental {
        string_of(&slice_of(t, 2, t.len()))
    } else {
        string_of(t)
    };
    Ok(Bandwidth { experimental, bandwidth_type, bandwidth })
}

/// `t=`: at least two tokens, the start and stop times.
pub open spec fn timing_spec(v: Seq<char>) -> Result<Timing, ErrorView> {
    let f = ws_fields(v);
    if f.len() < 2 {
        Err(ErrorView::SdpInvalidSyntax(with_key('t', v)))
    } else {
        match u64_token(f[0]) {
            Err(e) => Err(e),
            Ok(start) => match u64_token(f[1]) {
                Err(e) => Err(e),
                Ok(stop) => Ok(Timing { start_time: start as u64, stop_time: stop as u64 }),
            },
        }
    }
}

pub fn unmarshal_timing(value: &Vec<char>) -> (r: Result<Timing, Error>)
    ensures
        match timing_spec(value@) {
            Ok(t) => r == Ok::<Timing, Error>(t),
            Err(e) => r matches Err(x) && x@ == e,
        },
{
    let f = split_ws(value);
    if f.len() < 2 {
        return Err(Error::SdpInvalidSyntax(line_text('t', value)));
    }
    assert(views_of(f@)[0] == f@[0]@);
    assert(views_of(f@)[1] == f@[1]@);
    let start_time = u64_of(&f[0])?;
    let stop_time = u64_of(&f[1])?;
    Ok(Timing { start_time, stop_time })
}

/// The factor of a unit suffix: days, hours, minutes or seconds; 0 when the
/// last character is no unit.
pub open spec fn unit_factor(c: char) -> int {
    if c == 'd' {
        86400
    } else if c == 'h' {
        3600
    } else if c == 'm' {
        60
    } else if c == 's' {
        1
    } else {
        0
    }
}

/// A time in seconds, possibly written with a unit suffix (`d`, `h`, `m`,
/// `s`); an overflow of the expansion is a value error.
pub open spec fn time_units_spec(v: Seq<char>) -> Result<i64, ErrorView> {
    let has_unit = v.len() > 0 && unit_factor(v.last()) != 0;
    let num = if has_unit {
        v.drop_last()
    } else {
        v
    };
    let factor = if has_unit {
        unit_factor(v.last())
    } else {
        1
    };
    match i64_token(num) {
        Err(e) => Err(e),
        Ok(n) => if i64::MIN <= n * factor <= i64::MAX {
            Ok((n * factor) as i64)
        } else {
            Err(ErrorView::SdpInvalidValue(v))
        },
    }
}

pub fn parse_time_units(value: &Vec<char>) -> (r: Result<i64, Error>)
    ensures
        match time_units_spec(value@) {
            Ok(n) => r == Ok::<i64, Error>(n),
            Err(e) => r matches Err(x) && x@ == e,
        },
{
    let len = value.len();
    let last = if len > 0 {
        value[len - 1]
    } else {
        ' '
    };
    let factor: i64 = if last == 'd' {
        86400
    } else if last == 'h' {
        3600
    } else if last == 'm' {
        60
    } else if last == 's' {
        1
    } else {
        0
    };
    let num = if factor != 0 {
        slice_of(value, 0, len - 1)
    } else {
        slice_of(value, 0, len)
    };
    assert(value@.subrange(0, len as int) =~= value@);
    assert(len > 0 ==> value@.subrange(0, len - 1) =~= value@.drop_last());
    let factor = if factor != 0 {
        factor
    } else {
        1
    };
    let n = i64_of(&num)?;
    match n.checked_mul(factor) {
        Some(x) => Ok(x),
        None => Err(Error::SdpInvalidValue(string_of(value))),
    }
}

/// Each token read as a time, stopping at the first that fails.
pub open spec fn times_spec(f: Seq<Seq<char>>) -> Result<Seq<i64>, ErrorView>
    decreases f.len(),
{
    if f.len() == 0 {
        Ok(seq![])
    } else {
        match times_spec(f.drop_last()) {
            Err(e) => Err(e),
            Ok(prev) => match time_units_spec(f.last()) {
                Err(e) => Err(e),
                Ok(x) => Ok(prev.push(x)),
            },
        }
    }
}

/// `r=`: at least three tokens, all times: the interval, the duration and
/// the offsets.
pub open spec fn repeat_time_spec(v: Seq<char>) -> Result<RepeatTimeView, ErrorView> {
    let f = ws_fields(v);
    if f.len() < 3 {
        Err(ErrorView::SdpInvalidSyntax(with_key('r', v)))
    } else {
        match times_spec(f) {
            Err(e) => Err(e),
            Ok(t) => Ok(RepeatTimeView { interval: t[0], duration: t[1], offsets: t.skip(2) }),
        }
    }
}

pub proof fn lemma_times_len(f: Seq<Seq<char>>)
    ensures
        times_spec(f) matches Ok(t) ==> t.len() == f.len(),
    decreases f.len(),
{
    if f.len() > 0 {
        lemma_times_len(f.drop_last());
    }
}

/// A failure within a prefix is the failure of the whole.
pub proof fn lemma_times_prefix_err(f: Seq<Seq<char>>, n: int)
    requires
        0 <= n <= f.len(),
        times_spec(f.take(n)) is Err,
    ensures
        times_spec(f) == times_spec(f.take(n)),
    decreases f.len() - n,
{
    if n < f.len() {
        assert(f.take(n + 1).drop_last() =~= f.take(n));
        lemma_times_prefix_err(f, n + 1);
    } else {
        assert(f.take(n) =~= f);
    }
}

/// Reads every token as a time.
#[verifier::loop_isolation(false)]
fn times_of(f: &Vec<Vec<char>>) -> (r: Result<Vec<i64>, Error>)
    ensures
        match times_spec(views_of(f@)) {
            Ok(t) => r matches Ok(x) && x@ == t,
            Err(e) => r matches Err(x) && x@ == e,
        },
{
    let mut out: Vec<i64> = Vec::new();
    let mut i: usize = 0;
    while i < f.len()
        invariant
            i <= f.len(),
            times_spec(views_of(f@).take(i as int)) == Ok::<Seq<i64>, ErrorView>(out@),
        decreases f.len() - i,
    {
        assert(views_of(f@).take(i + 1).drop_last() =~= views_of(f@).take(i as int));
        assert(views_of(f@).take(i + 1).last() == f@[i as int]@);
        let x = match parse_time_units(&f[i]) {
            Ok(x) => x,
            Err(e) => {
                proof {
                    lemma_times_prefix_err(views_of(f@), i + 1);
                }
                return Err(e);
            },
        };
        out.push(x);
        i = i + 1;
    }
    assert(views_of(f@).take(i as int) =~= views_of(f@));
    Ok(out)
}

pub fn unmarshal_repeat_time(value: &Vec<char>) -> (r: Result<RepeatTime, Error>)
    ensures
        match repeat_time_spec(value@) {
            Ok(t) => r matches Ok(x) && x@ == t,
            Err(e) => r matches Err(x) && x@ == e,
        },
{
    let f = split_ws(value);
    if f.len() < 3 {
        return Err(Error::SdpInvalidSyntax(line_text('r', value)));
    }
    let t = times_of(&f)?;
    proof {
        lemma_times_len(views_of(f@));
    }
    let offsets = slice_i64(&t, 2);
    Ok(RepeatTime { interval: t[0], duration: t[1], offsets })
}

fn slice_i64(v: &Vec<i64>, from: usize) -> (r: Vec<i64>)
    requires
        from <= v.len(),
    ensures
        r@ == v@.skip(from as int),
{
    let mut r: Vec<i64> = Vec::new();
    let mut i = from;
    while i < v.len()
        invariant
            from <= i <= v.len(),
            r@ == v@.subrange(from as int, i as int),
        decreases v.len() - i,
    {
        r.push(v[i]);
        i = i + 1;
        assert(r@ =~= v@.subrange(from as int, i as int));
    }
    assert(r@ =~= v@.skip(from as int));
    r
}

/// Pairs of tokens read as adjustment time and offset, stopping at the first
/// that fails.
pub open spec fn zones_spec(f: Seq<Seq<char>>) -> Result<Seq<TimeZone>, ErrorView>
    decreases f.len(),
{
    if f.len() < 2 {
        Ok(seq![])
    } else {
        match zones_spec(f.take(f.len() - 2)) {
            Err(e) => Err(e),
            Ok(prev) => match u64_token(f[f.len() - 2]) {
                Err(e) => Err(e),
                Ok(a) => match time_units_spec(f[f.len() - 1]) {
                    Err(e) => Err(e),
                    Ok(o) => Ok(prev.push(TimeZone { adjustment_time: a as u64, offset: o })),
                },
            },
        }
    }
}

/// A failure within a prefix of whole pairs is the failure of the whole.
pub proof fn lemma_zones_prefix_err(f: Seq<Seq<char>>, n: int)
    requires
        0 <= n <= f.len(),
        n % 2 == 0,
        f.len() % 2 == 0,
        zones_spec(f.take(n)) is Err,
    ensures
        zones_spec(f) == zones_spec(f.take(n)),
    decreases f.len() - n,
{
    if n < f.len() {
        let g = f.take(n + 2);
        assert(g.take(g.len() - 2) =~= f.take(n));
        lemma_zones_prefix_err(f, n + 2);
    } else {
        assert(f.take(n) =~= f);
    }
}

/// `z=`: an even number of tokens, read in pairs.
pub open spec fn time_zones_spec(v: Seq<char>) -> Result<Seq<TimeZone>, ErrorView> {
    let f = ws_fields(v);
    if f.len() % 2 != 0 {
        Err(ErrorView::SdpInvalidSyntax(with_key('z', v)))
    } else {
        zones_spec(f)
    }
}

#[verifier::loop_isolation(false)]
pub fn unmarshal_time_zones(value: &Vec<char>) -> (r: Result<Vec<TimeZone>, Error>)
    ensures
        match time_zones_spec(value@) {
            Ok(t) => r matches Ok(x) && x@ == t,
            Err(e) => r matches Err(x) && x@ == e,
        },
{
    let f = split_ws(value);
    if f.len() % 2 != 0 {
        return Err(Error::SdpInvalidSyntax(line_text('z', value)));
    }
    let mut out: Vec<TimeZone> = Vec::new();
    let mut i: usize = 0;
    while i < f.len()
        invariant
            i <= f.len(),
            i % 2 == 0,
            f.len() % 2 == 0,
            zones_spec(views_of(f@).take(i as int)) == Ok::<Seq<TimeZone>, ErrorView>(out@),
        decreases f.len() - i,
    {
        let ghost g = views_of(f@).take(i + 2);
        assert(g.take(g.len() - 2) =~= views_of(f@).take(i as int));
        assert(g[g.len() - 2] == f@[i as int]@);
        assert(g[g.len() - 1] == f@[i + 1]@);
        let pair = match u64_of(&f[i]) {
            Ok(a) => match parse_time_units(&f[i + 1]) {
                Ok(o) => Ok(TimeZone { adjustment_time: a, offset: o }),
                Err(e) => Err(e),
            },
            Err(e) => Err(e),
        };
        match pair {
            Ok(z) => out.push(z),
            Err(e) => {
                proof {
                    lemma_zones_prefix_err(views_of(f@), i + 2);
                }
                return Err(e);
            },
        }
        i = i + 2;
    }
    assert(views_of(f@).take(i as int) =~= views_of(f@));
    Ok(out)
}

/// `a=`: split at the first `:`; without one it is a flag.
pub open spec fn attribute_spec(v: Seq<char>) -> AttributeView {
    match find_char(v, ':') {
        None => AttributeView { key: v, value: None },
        Some(i) => AttributeView { key: v.take(i), value: Some(v.skip(i + 1)) },
    }
}

pub fn unmarshal_attribute(value: &Vec<char>) -> (r: Attribute)
    ensures
        r@ == attribute_spec(value@),
{
    proof {
        crate::lexer::lemma_find_char_bound(value@, ':');
    }
    match find(value, ':') {
        None => Attribute { key: string_of(value), value: None },
        Some(i) => {
            assert(i < value.len());
            let k = slice_of(value, 0, i);
            let v = slice_of(value, i + 1, value.len());
            assert(k@ =~= value@.take(i as int));
            assert(v@ =~= value@.skip(i + 1));
            Attribute { key: string_of(&k), value: Some(string_of(&v)) }
        },
    }
}

/// The `/range` part of a port, if there is one.
pub open spec fn port_range_spec(parts: Seq<Seq<char>>) -> Result<Option<isize>, ErrorView> {
    if parts.len() > 1 {
        match int_token(parts[1], true, i32::MIN as int, i32::MAX as int) {
            Err(e) => Err(e),
            Ok(r) => Ok(Some(r as isize)),
        }
    } else {
        Ok(None)
    }
}

/// `m=`: at least four tokens; a registered media kind, a port (with an
/// optional range after `/`), protocols joined by `/` each registered, and
/// the formats.
pub open spec fn media_name_spec(v: Seq<char>) -> Result<MediaNameView, ErrorView> {
    let f = ws_fields(v);
    if f.len() < 4 {
        Err(ErrorView::SdpInvalidSyntax(with_key('m', v)))
    } else if !media_names().contains(f[0]) {
        Err(ErrorView::SdpInvalidValue(f[0]))
    } else {
        let parts = split_on(f[1], '/');
        match int_token(parts[0], false, 0, u16::MAX as int) {
            Err(e) => Err(e),
            Ok(port) => match port_range_spec(parts) {
                Err(e) => Err(e),
                Ok(range) => {
                    let ps = split_on(f[2], '/');
                    if exists|j: int| 0 <= j < ps.len() && !proto_names().contains(#[trigger] ps[j]) {
                        Err(ErrorView::SdpInvalidValue(f[2]))
                    } else {
                        Ok(
                            MediaNameView {
                                media: f[0],
                                port: RangedPort { value: port as isize, range },
                                protos: ps,
                                formats: f.skip(3),
                            },
                        )
                    }
                },
            },
        }
    }
}

/// Strings for each of the character vectors.
fn strings_of(v: &Vec<Vec<char>>, from: usize) -> (r: Vec<String>)
    requires
        from <= v.len(),
    ensures
        crate::text::strings_chars(r@) == views_of(v@).skip(from as int),
{
    let mut r: Vec<String> = Vec::new();
    let mut i = from;
    while i < v.len()
        invariant
            from <= i <= v.len(),
            crate::text::strings_chars(r@) == views_of(v@).subrange(from as int, i as int),
        decreases v.len() - i,
    {
        let ghost before = crate::text::strings_chars(r@);
        r.push(string_of(&v[i]));
        i = i + 1;
        assert(crate::text::strings_chars(r@) =~= before.push(v@[i - 1]@));
        assert(crate::text::strings_chars(r@) =~= views_of(v@).subrange(from as int, i as int));
    }
    assert(views_of(v@).subrange(from as int, i as int) =~= views_of(v@).skip(from as int));
    r
}

#[verifier::loop_isolation(false)]
pub fn unmarshal_media_name(value: &Vec<char>) -> (r: Result<MediaName, Error>)
    ensures
        match media_name_spec(value@) {
            Ok(m) => r matches Ok(x) && x@ == m,
            Err(e) => r matches Err(x) && x@ == e,
        },
{
    let f = split_ws(value);
    if f.len() < 4 {
        return Err(Error::SdpInvalidSyntax(line_text('m', value)));
    }
    assert(views_of(f@)[0] == f@[0]@);
    assert(views_of(f@)[1] == f@[1]@);
    assert(views_of(f@)[2] == f@[2]@);
    if !is_one_of(&f[0], &media_kinds()) {
        return Err(Error::SdpInvalidValue(string_of(&f[0])));
    }
    let parts = split_char(&f[1], '/');
    assert(views_of(parts@)[0] == parts@[0]@);
    let port = match parse_int(&parts[0], false, 0, u16::MAX as i128) {
        Some(n) => n as isize,
        None => return Err(Error::ParseInt(string_of(&parts[0]))),
    };
    let range = if parts.len() > 1 {
        assert(views_of(parts@)[1] == parts@[1]@);
        match parse_int(&parts[1], true, i32::MIN as i128, i32::MAX as i128) {
            Some(n) => Some(n as isize),
            None => return Err(Error::ParseInt(string_of(&parts[1]))),
        }
    } else {
        None
    };
    let ps = split_char(&f[2], '/');
    let names = protos();
    let mut i: usize = 0;
    while i < ps.len()
        invariant
            i <= ps.len(),
            views_of(names@) == proto_names(),
            forall|j: int| 0 <= j < i ==> proto_names().contains(#[trigger] views_of(ps@)[j]),
        decreases ps.len() - i,
    {
        assert(views_of(ps@)[i as int] == ps@[i as int]@);
        if !is_one_of(&ps[i], &names) {
            assert(!proto_names().contains(split_on(f@[2]@, '/')[i as int]));
            return Err(Error::SdpInvalidValue(string_of(&f[2])));
        }
        i = i + 1;
    }
    let protos = strings_of(&ps, 0);
    let formats = strings_of(&f, 3);
    assert(views_of(ps@).skip(0) =~= views_of(ps@));
    Ok(
        MediaName {
            media: string_of(&f[0]),
            port: RangedPort { value: port, range },
            protos,
            formats,
        },
    )
}

} // verus!
