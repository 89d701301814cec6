//! Writing a description back as text, in the one canonical order.

use crate::common::{
    attribute_text, bandwidth_text, connection_text, Attribute, AttributeView, Bandwidth,
    BandwidthView,
};
use crate::document::{SdpView, SDP};
use crate::media::{media_name_text, MediaDescription, MediaDescriptionView};
use crate::number::{int_chars, push_int};
use crate::session::{origin_text, time_zone_text, TimeZone};
use crate::text::{join, opt_chars, push_char, push_str};
use crate::time::{
    repeat_time_text, timing_text, RepeatTime, RepeatTimeView, TimeDescription,
    TimeDescriptionView,
};
use vstd::prelude::*;

verus! {

/// One line: key letter, `=`, value, CRLF.
pub open spec fn kv_line(k: char, v: Seq<char>) -> Seq<char> {
    seq![k, '='] + v + seq!['\r', '\n']
}

/// The line of an optional field, or nothing when it is unset or empty.
pub open spec fn opt_line(k: char, o: Option<Seq<char>>) -> Seq<char> {
    match o {
        Some(v) => if v.len() > 0 {
            kv_line(k, v)
        } else {
            seq![]
        },
        None => seq![],
    }
}

pub open spec fn bandwidth_lines(bs: Seq<BandwidthView>) -> Seq<char>
    decreases bs.len(),
{
    if bs.len() == 0 {
        seq![]
    } else {
        bandwidth_lines(bs.drop_last()) + kv_line('b', bandwidth_text(bs.last()))
    }
}

pub open spec fn attribute_lines(attrs: Seq<AttributeView>) -> Seq<char>
    decreases attrs.len(),
{
    if attrs.len() == 0 {
        seq![]
    } else {
        attribute_lines(attrs.drop_last()) + kv_line('a', attribute_text(attrs.last()))
    }
}

pub open spec fn repeat_lines(rs: Seq<RepeatTimeView>) -> Seq<char>
    decreases rs.len(),
{
    if rs.len() == 0 {
        seq![]
    } else {
        repeat_lines(rs.drop_last()) + kv_line('r', repeat_time_text(rs.last()))
    }
}

/// Each time description: its `t=` line, then its `r=` lines.
pub open spec fn time_lines(ts: Seq<TimeDescriptionView>) -> Seq<char>
    decreases ts.len(),
{
    if ts.len() == 0 {
        seq![]
    } else {
        time_lines(ts.drop_last()) + kv_line('t', timing_text(ts.last().timing)) + repeat_lines(
            ts.last().repeat_times,
        )
    }
}

/// All time zone adjustments on one `z=` line, or nothing when there are none.
pub open spec fn zones_line(zs: Seq<TimeZone>) -> Seq<char> {
    if zs.len() == 0 {
        seq![]
    } else {
        kv_line('z', join(zs.map_values(|z: TimeZone| time_zone_text(z)), ' '))
    }
}

pub open spec fn connection_line(c: Option<crate::common::ConnectionInformationView>) -> Seq<char> {
    match c {
        Some(c) => kv_line('c', connection_text(c)),
        None => seq![],
    }
}

/// A media description: `m=`, then `i= c= b= k= a=` as present.
pub open spec fn media_block(m: MediaDescriptionView) -> Seq<char> {
    kv_line('m', media_name_text(m.media_name)) + opt_line('i', m.media_title) + connection_line(
        m.connection_information,
    ) + bandwidth_lines(m.bandwidth) + opt_line('k', m.encryption_key) + attribute_lines(
        m.attributes,
    )
}

pub open spec fn media_lines(ms: Seq<MediaDescriptionView>) -> Seq<char>
    decreases ms.len(),
{
    if ms.len() == 0 {
        seq![]
    } else {
        media_lines(ms.drop_last()) + media_block(ms.last())
    }
}

/// The text of a description: `v= o= s= i= u= e= p= c= b=`, the time
/// descriptions, `z= k= a=`, then the media descriptions.
pub open spec fn marshal_spec(d: SdpView) -> Seq<char> {
    let s = d.session;
    kv_line('v', int_chars(s.version as int)) + kv_line('o', origin_text(s.origin)) + kv_line(
        's',
        s.session_name,
    ) + opt_line('i', s.session_information) + opt_line('u', s.uri) + opt_line(
        'e',
        s.email_address,
    ) + opt_line('p', s.phone_number) + connection_line(s.connection_information)
        + bandwidth_lines(s.bandwidth) + time_lines(d.time_descriptions) + zones_line(
        s.time_zones,
    ) + opt_line('k', s.encryption_key) + attribute_lines(s.attributes) + media_lines(
        d.media_descriptions,
    )
}

/// `key=value` and a line break, or nothing when there is no value.
pub fn key_value_build(key: char, value: Option<&String>) -> (r: String)
    ensures
        r@ == match value {
            Some(v) => kv_line(key, v@),
            None => seq![],
        },
{
    let mut out = String::new();
    if let Some(v) = value {
        push_char(&mut out, key);
        push_char(&mut out, '=');
        push_str(&mut out, v);
        push_char(&mut out, '\r');
        push_char(&mut out, '\n');
        assert(out@ =~= kv_line(key, v@));
    }
    out
}

fn push_line(out: &mut String, key: char, value: &String)
    ensures
        final(out)@ == old(out)@ + kv_line(key, value@),
{
    let l = key_value_build(key, Some(value));
    push_str(out, &l);
}

fn push_opt_line(out: &mut String, key: char, value: &Option<String>)
    ensures
        final(out)@ == old(out)@ + opt_line(key, opt_chars(*value)),
{
    if let Some(v) = value {
        if v.as_str().is_empty() {
            assert(out@ =~= old(out)@ + opt_line(key, opt_chars(*value)));
        } else {
            push_line(out, key, v);
        }
    } else {
        assert(out@ =~= old(out)@ + opt_line(key, opt_chars(*value)));
    }
}

fn push_bandwidth_lines(out: &mut String, bs: &Vec<Bandwidth>)
    ensures
        final(out)@ == old(out)@ + bandwidth_lines(bs@.map_values(|b: Bandwidth| b@)),
{
    let ghost start = out@;
    let mut i: usize = 0;
    while i < bs.len()
        invariant
            i <= bs.len(),
            out@ == start + bandwidth_lines(bs@.take(i as int).map_values(|b: Bandwidth| b@)),
        decreases bs.len() - i,
    {
        let t = bs[i].to_string();
        push_line(out, 'b', &t);
        i = i + 1;
        assert(bs@.take(i as int).map_values(|b: Bandwidth| b@).drop_last() =~= bs@.take(
            i - 1,
        ).map_values(|b: Bandwidth| b@));
        assert(out@ =~= start + bandwidth_lines(bs@.take(i as int).map_values(|b: Bandwidth| b@)));
    }
    assert(bs@.take(i as int) =~= bs@);
}

fn push_attribute_lines(out: &mut String, attrs: &Vec<Attribute>)
    ensures
        final(out)@ == old(out)@ + attribute_lines(attrs@.map_values(|a: Attribute| a@)),
{
    let ghost start = out@;
    let mut i: usize = 0;
    while i < attrs.len()
        invariant
            i <= attrs.len(),
            out@ == start + attribute_lines(attrs@.take(i as int).map_values(|a: Attribute| a@)),
        decreases attrs.len() - i,
    {
        let t = attrs[i].to_string();
        push_line(out, 'a', &t);
        i = i + 1;
        assert(attrs@.take(i as int).map_values(|a: Attribute| a@).drop_last() =~= attrs@.take(
            i - 1,
        ).map_values(|a: Attribute| a@));
        assert(out@ =~= start + attribute_lines(
            attrs@.take(i as int).map_values(|a: Attribute| a@),
        ));
    }
    assert(attrs@.take(i as int) =~= attrs@);
}

fn push_repeat_lines(out: &mut String, rs: &Vec<RepeatTime>)
    ensures
        final(out)@ == old(out)@ + repeat_lines(rs@.map_values(|r: RepeatTime| r@)),
{
    let ghost start = out@;
    let mut i: usize = 0;
    while i < rs.len()
        invariant
            i <= rs.len(),
            out@ == start + repeat_lines(rs@.take(i as int).map_values(|r: RepeatTime| r@)),
        decreases rs.len() - i,
    {
        let t = rs[i].to_string();
        push_line(out, 'r', &t);
        i = i + 1;
        assert(rs@.take(i as int).map_values(|r: RepeatTime| r@).drop_last() =~= rs@.take(
            i - 1,
        ).map_values(|r: RepeatTime| r@));
        assert(out@ =~= start + repeat_lines(rs@.take(i as int).map_values(|r: RepeatTime| r@)));
    }
    assert(rs@.take(i as int) =~= rs@);
}

fn push_time_lines(out: &mut String, ts: &Vec<TimeDescription>)
    ensures
        final(out)@ == old(out)@ + time_lines(ts@.map_values(|t: TimeDescription| t@)),
{
    let ghost start = out@;
    let mut i: usize = 0;
    while i < ts.len()
        invariant
            i <= ts.len(),
            out@ == start + time_lines(ts@.take(i as int).map_values(|t: TimeDescription| t@)),
        decreases ts.len() - i,
    {
        let t = ts[i].timing.to_string();
        push_line(out, 't', &t);
        push_repeat_lines(out, &ts[i].repeat_times);
        i = i + 1;
        assert(ts@.take(i as int).map_values(|t: TimeDescription| t@).drop_last() =~= ts@.take(
            i - 1,
        ).map_values(|t: TimeDescription| t@));
        assert(out@ =~= start + time_lines(
            ts@.take(i as int).map_values(|t: TimeDescription| t@),
        ));
    }
    assert(ts@.take(i as int) =~= ts@);
}

fn push_zones_line(out: &mut String, zs: &Vec<TimeZone>)
    ensures
        final(out)@ == old(out)@ + zones_line(zs@),
{
    if zs.len() == 0 {
        assert(out@ =~= old(out)@ + zones_line(zs@));
        return ;
    }
    let mut parts: Vec<String> = Vec::new();
    let mut i: usize = 0;
    while i < zs.len()
        invariant
            i <= zs.len(),
            crate::text::strings_chars(parts@) == zs@.take(i as int).map_values(
                |z: TimeZone| time_zone_text(z),
            ),
        decreases zs.len() - i,
    {
        let ghost before = crate::text::strings_chars(parts@);
        let z = zs[i].to_string();
        let ghost zt = z@;
        parts.push(z);
        assert(crate::text::strings_chars(parts@) =~= before.push(zt));
        i = i + 1;
        assert(zs@.take(i as int).map_values(|z: TimeZone| time_zone_text(z)) =~= zs@.take(
            i - 1,
        ).map_values(|z: TimeZone| time_zone_text(z)).push(time_zone_text(zs@[i - 1])));
        assert(crate::text::strings_chars(parts@) =~= zs@.take(i as int).map_values(
            |z: TimeZone| time_zone_text(z),
        ));
    }
    assert(zs@.take(i as int) =~= zs@);
    let mut line = String::new();
    crate::text::push_joined(&mut line, &parts, ' ');
    assert(line@ =~= join(zs@.map_values(|z: TimeZone| time_zone_text(z)), ' '));
    push_line(out, 'z', &line);
}

fn push_media_block(out: &mut String, m: &MediaDescription)
    ensures
        final(out)@ == old(out)@ + media_block(m@),
{
    let ghost start = out@;
    let t = m.media_name.to_string();
    push_line(out, 'm', &t);
    push_opt_line(out, 'i', &m.media_title);
    if let Some(c) = &m.connection_information {
        let t = c.to_string();
        push_line(out, 'c', &t);
    }
    push_bandwidth_lines(out, &m.bandwidth);
    push_opt_line(out, 'k', &m.encryption_key);
    push_attribute_lines(out, &m.attributes);
    assert(out@ =~= start + media_block(m@));
}

impl SDP {
    /// Writes a description as text, field by field in the canonical order,
    /// each line ended by CRLF.
    pub fn marshal(sdp: &SDP) -> (r: String)
        ensures
            r@ == marshal_spec(sdp@),
    {
        let s = &sdp.session;
        let mut out = String::new();
        let mut v = String::new();
        push_int(&mut v, s.version as i64);
        push_line(&mut out, 'v', &v);
        let o = s.origin.to_string();
        push_line(&mut out, 'o', &o);
        push_line(&mut out, 's', &s.session_name);
        push_opt_line(&mut out, 'i', &s.session_information);
        push_opt_line(&mut out, 'u', &s.uri);
        push_opt_line(&mut out, 'e', &s.email_address);
        push_opt_line(&mut out, 'p', &s.phone_number);
        if let Some(c) = &s.connection_information {
            let t = c.to_string();
            push_line(&mut out, 'c', &t);
        }
        push_bandwidth_lines(&mut out, &s.bandwidth);
        push_time_lines(&mut out, &sdp.time_descriptions);
        push_zones_line(&mut out, &s.time_zones);
        push_opt_line(&mut out, 'k', &s.encryption_key);
        push_attribute_lines(&mut out, &s.attributes);
        let ghost before_media = out@;
        let mut i: usize = 0;
        while i < sdp.media_descriptions.len()
            invariant
                i <= sdp.media_descriptions.len(),
                out@ == before_media + media_lines(
                    sdp.media_descriptions@.take(i as int).map_values(|m: MediaDescription| m@),
                ),
            decreases sdp.media_descriptions.len() - i,
        {
            push_media_block(&mut out, &sdp.media_descriptions[i]);
            i = i + 1;
            assert(sdp.media_descriptions@.take(i as int).map_values(
                |m: MediaDescription| m@,
            ).drop_last() =~= sdp.media_descriptions@.take(i - 1).map_values(
                |m: MediaDescription| m@,
            ));
            assert(out@ =~= before_media + media_lines(
                sdp.media_descriptions@.take(i as int).map_values(|m: MediaDescription| m@),
            ));
        }
        assert(sdp.media_descriptions@.take(i as int) =~= sdp.media_descriptions@);
        assert(out@ =~= marshal_spec(sdp@));
        out
    }
}

} // verus!
