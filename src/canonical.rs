//! Canonical documents: the ones the parser produces. Their records, run
//! through the state machine, give the document back.

use crate::common::{AttributeView, BandwidthView, ConnectionInformationView};
use crate::document::{empty_sdp, SdpView};
use crate::error::ErrorView;
use crate::grammar::{
    accepts_end, apply_spec, key_field, last_media, next_state, with_last_media, with_session,
    Field, State,
};
use crate::media::MediaDescriptionView;
use crate::grammar::unmarshal_text;
use crate::records::{
    lemma_marshal_records, lemma_run_records, rec_ok, records_text,
    attribute_recs, bandwidth_recs, connection_rec, doc_records, head_recs, lemma_steps_concat,
    media_recs, medias_recs, opt_rec, repeat_recs, steps, tail_recs, time_recs, zone_rec, Rec,
};
use crate::round_trip::{
    lemma_repeat_time_round_trip as lemma_rt_rt,
    attribute_ok, bandwidth_ok, connection_ok, lemma_attribute_round_trip,
    lemma_bandwidth_round_trip, lemma_connection_round_trip, lemma_media_name_round_trip,
    lemma_origin_round_trip, lemma_repeat_time_round_trip, lemma_time_zones_round_trip,
    lemma_timing_round_trip, lemma_version_round_trip, line_ok, media_name_ok, origin_ok,
};
use crate::session::{SessionView, TimeZone};
use crate::time::{RepeatTimeView, TimeDescriptionView};
use crate::uri::url_serialization;
use vstd::prelude::*;

verus! {

/// An optional text, with an empty one taken as absent (the serializer
/// writes no line for it).
pub open spec fn norm_opt(o: Option<Seq<char>>) -> Option<Seq<char>> {
    match o {
        Some(v) => if v.len() > 0 {
            Some(v)
        } else {
            None
        },
        None => None,
    }
}

pub open spec fn opt_ok(o: Option<Seq<char>>) -> bool {
    o matches Some(v) ==> line_ok(v)
}

pub open spec fn norm_media(m: MediaDescriptionView) -> MediaDescriptionView {
    MediaDescriptionView {
        media_title: norm_opt(m.media_title),
        encryption_key: norm_opt(m.encryption_key),
        ..m
    }
}

pub open spec fn norm_doc(d: SdpView) -> SdpView {
    SdpView {
        session: SessionView {
            session_information: norm_opt(d.session.session_information),
            uri: norm_opt(d.session.uri),
            email_address: norm_opt(d.session.email_address),
            phone_number: norm_opt(d.session.phone_number),
            encryption_key: norm_opt(d.session.encryption_key),
            ..d.session
        },
        media_descriptions: d.media_descriptions.map_values(|m: MediaDescriptionView| norm_media(m)),
        ..d
    }
}

pub open spec fn media_ok(m: MediaDescriptionView) -> bool {
    &&& media_name_ok(m.media_name)
    &&& opt_ok(m.media_title)
    &&& opt_ok(m.encryption_key)
    &&& m.connection_information matches Some(c) ==> connection_ok(c)
    &&& forall|i: int| 0 <= i < m.bandwidth.len() ==> bandwidth_ok(#[trigger] m.bandwidth[i])
    &&& forall|i: int| 0 <= i < m.attributes.len() ==> attribute_ok(#[trigger] m.attributes[i])
}

pub open spec fn uri_ok(o: Option<Seq<char>>) -> bool {
    o matches Some(u) ==> u.len() > 0 ==> line_ok(u) && url_serialization(u) == Some(u)
}

pub open spec fn tds_ok(ts: Seq<TimeDescriptionView>) -> bool {
    forall|i: int, j: int|
        0 <= i < ts.len() && 0 <= j < ts[i].repeat_times.len() ==> (#[trigger] ts[i].repeat_times[j]).offsets.len()
            > 0
}

/// What holds of every document the parser returns, but for its URL.
pub open spec fn doc_fields_ok(d: SdpView) -> bool {
    let s = d.session;
    &&& s.version == 0
    &&& origin_ok(s.origin)
    &&& line_ok(s.session_name)
    &&& opt_ok(s.session_information)
    &&& opt_ok(s.email_address)
    &&& opt_ok(s.phone_number)
    &&& opt_ok(s.encryption_key)
    &&& s.connection_information matches Some(c) ==> connection_ok(c)
    &&& forall|i: int| 0 <= i < s.bandwidth.len() ==> bandwidth_ok(#[trigger] s.bandwidth[i])
    &&& forall|i: int| 0 <= i < s.attributes.len() ==> attribute_ok(#[trigger] s.attributes[i])
    &&& d.time_descriptions.len() > 0
    &&& tds_ok(d.time_descriptions)
    &&& forall|i: int| 0 <= i < d.media_descriptions.len() ==> media_ok(#[trigger] d.media_descriptions[i])
}

pub open spec fn session_rank(s: State) -> int {
    match s {
        State::SessionInformation => 0,
        State::SessionUri => 1,
        State::SessionEmail => 2,
        State::SessionPhone => 3,
        State::SessionConnection => 4,
        State::SessionBandwidth => 5,
        _ => -1,
    }
}

pub open spec fn media_rank(s: State) -> int {
    match s {
        State::MediaTitle => 0,
        State::MediaConnection => 1,
        State::MediaBandwidth => 2,
        State::MediaAttribute => 3,
        _ => -1,
    }
}

pub open spec fn tail_rank(s: State) -> int {
    match s {
        State::TimeDescription => 0,
        State::SessionKey => 1,
        State::SessionAttribute => 2,
        _ => -1,
    }
}

pub proof fn lemma_steps_one(r: Rec, s: State, d: SdpView)
    ensures
        steps(seq![r], s, d) == match key_field(s, seq![r.0, '=']) {
            None => Err(ErrorView::SdpUnexpectedKey(seq![r.0, '='])),
            Some(f) => match apply_spec(d, f, r.1) {
                Err(e) => Err(e),
                Ok(d1) => Ok((next_state(f), d1)),
            },
        },
{
    assert(seq![r].drop_first() =~= Seq::<Rec>::empty());
    assert(seq![r][0] == r);
    match key_field(s, seq![r.0, '=']) {
        Some(f) => match apply_spec(d, f, r.1) {
            Ok(d1) => {
                assert(steps(Seq::<Rec>::empty(), next_state(f), d1) == Ok::<
                    (State, SdpView),
                    ErrorView,
                >((next_state(f), d1)));
            },
            Err(_) => {},
        },
        None => {},
    }
}

/// One record whose key the state accepts as field `f`.
pub proof fn lemma_step(r: Rec, s: State, d: SdpView, f: Field)
    requires
        key_field(s, seq![r.0, '=']) == Some(f),
    ensures
        steps(seq![r], s, d) == match apply_spec(d, f, r.1) {
            Err(e) => Err(e),
            Ok(d1) => Ok::<(State, SdpView), ErrorView>((next_state(f), d1)),
        },
{
    lemma_steps_one(r, s, d);
}

#[verifier::spinoff_prover]
#[verifier::rlimit(100)]
proof fn lemma_opt_session_information(o: Option<Seq<char>>, s: State, x: SdpView)
    requires
        0 <= session_rank(s) <= 0,
        opt_ok(o),
        x.session.session_information is None,
    ensures
        steps(opt_rec('i', o), s, x) == Ok::<(State, SdpView), ErrorView>(
            (
                if norm_opt(o) is Some {
                    State::SessionUri
                } else {
                    s
                },
                with_session(x, SessionView { session_information: norm_opt(o), ..x.session }),
            ),
        ),
{
    match o {
        Some(v) => if v.len() > 0 {
            lemma_step(('i', v), s, x, Field::SessionInformation);
        } else {
            assert(opt_rec('i', o) =~= Seq::<Rec>::empty());
        },
        None => {},
    }
}

#[verifier::spinoff_prover]
#[verifier::rlimit(100)]
proof fn lemma_opt_uri(o: Option<Seq<char>>, s: State, x: SdpView)
    requires
        0 <= session_rank(s) <= 1,
        opt_ok(o),
        uri_ok(o),
        x.session.uri is None,
    ensures
        steps(opt_rec('u', o), s, x) == Ok::<(State, SdpView), ErrorView>(
            (
                if norm_opt(o) is Some {
                    State::SessionEmail
                } else {
                    s
                },
                with_session(x, SessionView { uri: norm_opt(o), ..x.session }),
            ),
        ),
{
    match o {
        Some(v) => if v.len() > 0 {
            lemma_step(('u', v), s, x, Field::Uri);
        } else {
            assert(opt_rec('u', o) =~= Seq::<Rec>::empty());
        },
        None => {},
    }
}

#[verifier::spinoff_prover]
#[verifier::rlimit(100)]
proof fn lemma_opt_email_address(o: Option<Seq<char>>, s: State, x: SdpView)
    requires
        0 <= session_rank(s) <= 2,
        opt_ok(o),
        x.session.email_address is None,
    ensures
        steps(opt_rec('e', o), s, x) == Ok::<(State, SdpView), ErrorView>(
            (
                if norm_opt(o) is Some {
                    State::SessionPhone
                } else {
                    s
                },
                with_session(x, SessionView { email_address: norm_opt(o), ..x.session }),
            ),
        ),
{
    match o {
        Some(v) => if v.len() > 0 {
            lemma_step(('e', v), s, x, Field::Email);
        } else {
            assert(opt_rec('e', o) =~= Seq::<Rec>::empty());
        },
        None => {},
    }
}

#[verifier::spinoff_prover]
#[verifier::rlimit(100)]
proof fn lemma_opt_phone_number(o: Option<Seq<char>>, s: State, x: SdpView)
    requires
        0 <= session_rank(s) <= 3,
        opt_ok(o),
        x.session.phone_number is None,
    ensures
        steps(opt_rec('p', o), s, x) == Ok::<(State, SdpView), ErrorView>(
            (
                if norm_opt(o) is Some {
                    State::SessionConnection
                } else {
                    s
                },
                with_session(x, SessionView { phone_number: norm_opt(o), ..x.session }),
            ),
        ),
{
    match o {
        Some(v) => if v.len() > 0 {
            lemma_step(('p', v), s, x, Field::Phone);
        } else {
            assert(opt_rec('p', o) =~= Seq::<Rec>::empty());
        },
        None => {},
    }
}

#[verifier::spinoff_prover]
#[verifier::rlimit(100)]
proof fn lemma_opt_connection(c: Option<ConnectionInformationView>, s: State, x: SdpView)
    requires
        0 <= session_rank(s) <= 4,
        c matches Some(y) ==> connection_ok(y),
        x.session.connection_information is None,
    ensures
        steps(connection_rec(c), s, x) == Ok::<(State, SdpView), ErrorView>(
            (
                if c is Some {
                    State::SessionBandwidth
                } else {
                    s
                },
                with_session(x, SessionView { connection_information: c, ..x.session }),
            ),
        ),
{
    match c {
        Some(y) => {
            lemma_connection_round_trip(y, 'c');
            lemma_step(('c', crate::common::connection_text(y)), s, x, Field::SessionConnection);
        },
        None => {},
    }
}

#[verifier::spinoff_prover]
#[verifier::rlimit(100)]
proof fn lemma_session_bandwidths(bs: Seq<BandwidthView>, s: State, x: SdpView)
    requires
        0 <= session_rank(s) <= 5,
        forall|i: int| 0 <= i < bs.len() ==> bandwidth_ok(#[trigger] bs[i]),
    ensures
        steps(bandwidth_recs(bs), s, x) matches Ok((s2, x2)) && 0 <= session_rank(s2) <= 5 && x2
            == with_session(x, SessionView { bandwidth: x.session.bandwidth + bs, ..x.session }),
    decreases bs.len(),
{
    if bs.len() == 0 {
        assert(bandwidth_recs(bs) =~= Seq::<Rec>::empty());
        assert(x.session.bandwidth + bs =~= x.session.bandwidth);
    } else {
        let r = ('b', crate::common::bandwidth_text(bs[0]));
        assert(bandwidth_recs(bs) =~= seq![r] + bandwidth_recs(bs.drop_first()));
        lemma_steps_concat(seq![r], bandwidth_recs(bs.drop_first()), s, x);
        lemma_step(r, s, x, Field::SessionBandwidth);
        assert(bandwidth_ok(bs[0]));
        lemma_bandwidth_round_trip(bs[0]);
        let x1 = with_session(x, SessionView { bandwidth: x.session.bandwidth.push(bs[0]), ..x.session });
        assert forall|i: int| 0 <= i < bs.drop_first().len() implies bandwidth_ok(
            #[trigger] bs.drop_first()[i],
        ) by {
            assert(bs.drop_first()[i] == bs[i + 1]);
        }
        lemma_session_bandwidths(bs.drop_first(), State::SessionBandwidth, x1);
        assert(x.session.bandwidth.push(bs[0]) + bs.drop_first() =~= x.session.bandwidth + bs);
    }
}

/// The document made of the session lines before the first `t=`.
pub open spec fn head_doc(d: SdpView) -> SdpView {
    SdpView {
        session: SessionView {
            version: 0,
            origin: d.session.origin,
            session_name: d.session.session_name,
            session_information: norm_opt(d.session.session_information),
            uri: norm_opt(d.session.uri),
            email_address: norm_opt(d.session.email_address),
            phone_number: norm_opt(d.session.phone_number),
            connection_information: d.session.connection_information,
            bandwidth: d.session.bandwidth,
            time_zones: seq![],
            encryption_key: None,
            attributes: seq![],
        },
        time_descriptions: seq![],
        media_descriptions: seq![],
    }
}

#[verifier::spinoff_prover]
#[verifier::rlimit(100)]
proof fn lemma_head(d: SdpView)
    requires
        doc_fields_ok(d),
        uri_ok(d.session.uri),
    ensures
        steps(head_recs(d), State::Version, empty_sdp()) matches Ok((s1, x1)) && 0 <= session_rank(
            s1,
        ) <= 5 && x1 == head_doc(d),
{
    let s = d.session;
    let e = empty_sdp();
    let r0: Rec = ('v', crate::number::int_chars(s.version as int));
    let r1: Rec = ('o', crate::session::origin_text(s.origin));
    let r2: Rec = ('s', s.session_name);
    let h0 = seq![r0, r1, r2];
    assert(h0 =~= seq![r0] + (seq![r1] + seq![r2]));
    lemma_steps_concat(seq![r0], seq![r1] + seq![r2], State::Version, e);
    lemma_steps_concat(seq![r1], seq![r2], State::Origin, with_session(e, SessionView { version: 0, ..e.session }));
    lemma_version_round_trip();
    lemma_origin_round_trip(s.origin);
    lemma_step(r0, State::Version, e, Field::Version);
    let x0 = with_session(e, SessionView { version: 0, ..e.session });
    lemma_step(r1, State::Origin, x0, Field::Origin);
    let xa = with_session(x0, SessionView { origin: s.origin, ..x0.session });
    lemma_step(r2, State::SessionName, xa, Field::SessionName);
    let xb = with_session(xa, SessionView { session_name: s.session_name, ..xa.session });
    assert(steps(h0, State::Version, e) == Ok::<(State, SdpView), ErrorView>((State::SessionInformation, xb)));
    let h1 = opt_rec('i', s.session_information);
    let h2 = opt_rec('u', s.uri);
    let h3 = opt_rec('e', s.email_address);
    let h4 = opt_rec('p', s.phone_number);
    let h5 = connection_rec(s.connection_information);
    let h6 = bandwidth_recs(s.bandwidth);
    lemma_steps_concat(h0, h1, State::Version, e);
    lemma_opt_session_information(s.session_information, State::SessionInformation, xb);
    let (s1, x1) = steps(h0 + h1, State::Version, e)->Ok_0;
    lemma_steps_concat(h0 + h1, h2, State::Version, e);
    lemma_opt_uri(s.uri, s1, x1);
    let (s2, x2) = steps(h0 + h1 + h2, State::Version, e)->Ok_0;
    lemma_steps_concat(h0 + h1 + h2, h3, State::Version, e);
    lemma_opt_email_address(s.email_address, s2, x2);
    let (s3, x3) = steps(h0 + h1 + h2 + h3, State::Version, e)->Ok_0;
    lemma_steps_concat(h0 + h1 + h2 + h3, h4, State::Version, e);
    lemma_opt_phone_number(s.phone_number, s3, x3);
    let (s4, x4) = steps(h0 + h1 + h2 + h3 + h4, State::Version, e)->Ok_0;
    lemma_steps_concat(h0 + h1 + h2 + h3 + h4, h5, State::Version, e);
    lemma_opt_connection(s.connection_information, s4, x4);
    let (s5, x5) = steps(h0 + h1 + h2 + h3 + h4 + h5, State::Version, e)->Ok_0;
    lemma_steps_concat(h0 + h1 + h2 + h3 + h4 + h5, h6, State::Version, e);
    lemma_session_bandwidths(s.bandwidth, s5, x5);
    assert(head_recs(d) == h0 + h1 + h2 + h3 + h4 + h5 + h6);
    let x6 = steps(head_recs(d), State::Version, e)->Ok_0.1;
    assert(seq![] + s.bandwidth =~= s.bandwidth);
    assert(x6 == head_doc(d));
}

#[verifier::spinoff_prover]
#[verifier::rlimit(100)]
proof fn lemma_repeats(rs: Seq<RepeatTimeView>, x: SdpView)
    requires
        x.time_descriptions.len() > 0,
        forall|j: int| 0 <= j < rs.len() ==> (#[trigger] rs[j]).offsets.len() > 0,
    ensures
        steps(repeat_recs(rs), State::TimeDescription, x) == Ok::<(State, SdpView), ErrorView>(
            (
                State::TimeDescription,
                SdpView {
                    time_descriptions: x.time_descriptions.update(
                        x.time_descriptions.len() - 1,
                        TimeDescriptionView {
                            repeat_times: x.time_descriptions.last().repeat_times + rs,
                            ..x.time_descriptions.last()
                        },
                    ),
                    ..x
                },
            ),
        ),
    decreases rs.len(),
{
    let t = x.time_descriptions.last();
    let n = x.time_descriptions.len() - 1;
    if rs.len() == 0 {
        assert(repeat_recs(rs) =~= Seq::<Rec>::empty());
        assert(t.repeat_times + rs =~= t.repeat_times);
        assert(x.time_descriptions.update(n, TimeDescriptionView { repeat_times: t.repeat_times, ..t })
            =~= x.time_descriptions);
    } else {
        let r = ('r', crate::time::repeat_time_text(rs[0]));
        assert(repeat_recs(rs) =~= seq![r] + repeat_recs(rs.drop_first()));
        lemma_steps_concat(seq![r], repeat_recs(rs.drop_first()), State::TimeDescription, x);
        lemma_step(r, State::TimeDescription, x, Field::RepeatTime);
        assert(rs[0].offsets.len() > 0);
        lemma_repeat_time_round_trip(rs[0]);
        let x1 = SdpView {
            time_descriptions: x.time_descriptions.update(
                n,
                TimeDescriptionView { repeat_times: t.repeat_times.push(rs[0]), ..t },
            ),
            ..x
        };
        assert forall|j: int| 0 <= j < rs.drop_first().len() implies (
        #[trigger] rs.drop_first()[j]).offsets.len() > 0 by {
            assert(rs.drop_first()[j] == rs[j + 1]);
        }
        lemma_repeats(rs.drop_first(), x1);
        assert(t.repeat_times.push(rs[0]) + rs.drop_first() =~= t.repeat_times + rs);
        assert(x1.time_descriptions.update(
            n,
            TimeDescriptionView {
                repeat_times: x1.time_descriptions.last().repeat_times + rs.drop_first(),
                ..x1.time_descriptions.last()
            },
        ) =~= x.time_descriptions.update(
            n,
            TimeDescriptionView { repeat_times: t.repeat_times + rs, ..t },
        ));
    }
}

#[verifier::spinoff_prover]
#[verifier::rlimit(100)]
proof fn lemma_times(ts: Seq<TimeDescriptionView>, s: State, x: SdpView)
    requires
        ts.len() > 0,
        0 <= session_rank(s) <= 5 || s == State::TimeDescription,
        tds_ok(ts),
    ensures
        steps(time_recs(ts), s, x) == Ok::<(State, SdpView), ErrorView>(
            (
                State::TimeDescription,
                SdpView { time_descriptions: x.time_descriptions + ts, ..x },
            ),
        ),
    decreases ts.len(),
{
    let init = ts.drop_last();
    let last = ts.last();
    let rt: Rec = ('t', crate::time::timing_text(last.timing));
    let a = time_recs(init);
    let b = seq![rt];
    let c = repeat_recs(last.repeat_times);
    assert(time_recs(ts) == a + b + c);
    lemma_steps_concat(a + b, c, s, x);
    lemma_steps_concat(a, b, s, x);
    let x1 = SdpView { time_descriptions: x.time_descriptions + init, ..x };
    if init.len() > 0 {
        assert(tds_ok(init)) by {
            assert forall|i: int, j: int|
                0 <= i < init.len() && 0 <= j < init[i].repeat_times.len() implies (
            #[trigger] init[i].repeat_times[j]).offsets.len() > 0 by {
                assert(init[i] == ts[i]);
            }
        }
        lemma_times(init, s, x);
    } else {
        assert(a =~= Seq::<Rec>::empty());
        assert(x.time_descriptions + init =~= x.time_descriptions);
        assert(x1 == x);
    }
    let s1 = if init.len() > 0 {
        State::TimeDescription
    } else {
        s
    };
    assert(steps(a, s, x) == Ok::<(State, SdpView), ErrorView>((s1, x1)));
    lemma_step(rt, s1, x1, Field::Timing);
    lemma_timing_round_trip(last.timing);
    let x2 = SdpView {
        time_descriptions: x1.time_descriptions.push(
            TimeDescriptionView { timing: last.timing, repeat_times: seq![] },
        ),
        ..x1
    };
    assert(steps(a + b, s, x) == Ok::<(State, SdpView), ErrorView>((State::TimeDescription, x2)));
    assert forall|j: int| 0 <= j < last.repeat_times.len() implies (
    #[trigger] last.repeat_times[j]).offsets.len() > 0 by {
        assert(ts[ts.len() - 1] == last);
    }
    lemma_repeats(last.repeat_times, x2);
    assert(Seq::<RepeatTimeView>::empty() + last.repeat_times =~= last.repeat_times);
    assert(x2.time_descriptions.update(
        x2.time_descriptions.len() - 1,
        TimeDescriptionView {
            repeat_times: x2.time_descriptions.last().repeat_times + last.repeat_times,
            ..x2.time_descriptions.last()
        },
    ) =~= x.time_descriptions + ts);
}

#[verifier::spinoff_prover]
#[verifier::rlimit(100)]
proof fn lemma_zones(zs: Seq<TimeZone>, x: SdpView)
    requires
        x.session.time_zones == Seq::<TimeZone>::empty(),
    ensures
        steps(zone_rec(zs), State::TimeDescription, x) == Ok::<(State, SdpView), ErrorView>(
            (
                if zs.len() > 0 {
                    State::SessionKey
                } else {
                    State::TimeDescription
                },
                with_session(x, SessionView { time_zones: zs, ..x.session }),
            ),
        ),
{
    if zs.len() > 0 {
        let v = crate::text::join(
            zs.map_values(|z: TimeZone| crate::session::time_zone_text(z)),
            ' ',
        );
        assert(zone_rec(zs) == seq![('z', v)]);
        lemma_time_zones_round_trip(zs);
        assert(crate::decoder::time_zones_spec(v) == Ok::<Seq<TimeZone>, ErrorView>(zs));
        assert(Seq::<TimeZone>::empty() + zs =~= zs);
        assert(apply_spec(x, Field::TimeZones, v) == Ok::<SdpView, ErrorView>(
            with_session(x, SessionView { time_zones: zs, ..x.session }),
        ));
        lemma_step(('z', v), State::TimeDescription, x, Field::TimeZones);
    } else {
        assert(zone_rec(zs) == Seq::<Rec>::empty());
        assert(zs =~= Seq::<TimeZone>::empty());
        assert(with_session(x, SessionView { time_zones: zs, ..x.session }) == x);
    }
}

#[verifier::spinoff_prover]
#[verifier::rlimit(100)]
proof fn lemma_session_key(o: Option<Seq<char>>, s: State, x: SdpView)
    requires
        0 <= tail_rank(s) <= 1,
        opt_ok(o),
        x.session.encryption_key is None,
    ensures
        steps(opt_rec('k', o), s, x) == Ok::<(State, SdpView), ErrorView>(
            (
                if norm_opt(o) is Some {
                    State::SessionAttribute
                } else {
                    s
                },
                with_session(x, SessionView { encryption_key: norm_opt(o), ..x.session }),
            ),
        ),
{
    match o {
        Some(v) => if v.len() > 0 {
            lemma_step(('k', v), s, x, Field::SessionEncryptionKey);
        } else {
            assert(opt_rec('k', o) =~= Seq::<Rec>::empty());
        },
        None => {},
    }
}

#[verifier::spinoff_prover]
#[verifier::rlimit(100)]
proof fn lemma_session_attributes(attrs: Seq<AttributeView>, s: State, x: SdpView)
    requires
        0 <= tail_rank(s) <= 2,
        forall|i: int| 0 <= i < attrs.len() ==> attribute_ok(#[trigger] attrs[i]),
    ensures
        steps(attribute_recs(attrs), s, x) matches Ok((s2, x2)) && 0 <= tail_rank(s2) <= 2 && x2
            == with_session(x, SessionView { attributes: x.session.attributes + attrs, ..x.session }),
    decreases attrs.len(),
{
    if attrs.len() == 0 {
        assert(attribute_recs(attrs) =~= Seq::<Rec>::empty());
        assert(x.session.attributes + attrs =~= x.session.attributes);
    } else {
        let r = ('a', crate::common::attribute_text(attrs[0]));
        assert(attribute_recs(attrs) =~= seq![r] + attribute_recs(attrs.drop_first()));
        lemma_steps_concat(seq![r], attribute_recs(attrs.drop_first()), s, x);
        lemma_step(r, s, x, Field::SessionAttribute);
        assert(attribute_ok(attrs[0]));
        lemma_attribute_round_trip(attrs[0]);
        let x1 = with_session(
            x,
            SessionView { attributes: x.session.attributes.push(attrs[0]), ..x.session },
        );
        assert forall|i: int| 0 <= i < attrs.drop_first().len() implies attribute_ok(
            #[trigger] attrs.drop_first()[i],
        ) by {
            assert(attrs.drop_first()[i] == attrs[i + 1]);
        }
        lemma_session_attributes(attrs.drop_first(), State::SessionAttribute, x1);
        assert(x.session.attributes.push(attrs[0]) + attrs.drop_first() =~= x.session.attributes
            + attrs);
    }
}

pub open spec fn fresh_media(m: crate::media::MediaNameView) -> MediaDescriptionView {
    MediaDescriptionView {
        media_name: m,
        media_title: None,
        connection_information: None,
        bandwidth: seq![],
        encryption_key: None,
        attributes: seq![],
    }
}

proof fn lemma_last_media(
    base: Seq<MediaDescriptionView>,
    w: MediaDescriptionView,
    y: SdpView,
    m2: MediaDescriptionView,
)
    requires
        y.media_descriptions == base.push(w),
    ensures
        last_media(y) == w,
        with_last_media(y, m2) == (SdpView { media_descriptions: base.push(m2), ..y }),
{
    assert(y.media_descriptions.update(base.len() as int, m2) =~= base.push(m2));
}

#[verifier::spinoff_prover]
#[verifier::rlimit(100)]
proof fn lemma_media_title(
    o: Option<Seq<char>>,
    s: State,
    base: Seq<MediaDescriptionView>,
    w: MediaDescriptionView,
    y: SdpView,
)
    requires
        media_rank(s) == 0,
        opt_ok(o),
        w.media_title is None,
        y.media_descriptions == base.push(w),
    ensures
        steps(opt_rec('i', o), s, y) == Ok::<(State, SdpView), ErrorView>(
            (
                if norm_opt(o) is Some {
                    State::MediaConnection
                } else {
                    s
                },
                SdpView {
                    media_descriptions: base.push(
                        MediaDescriptionView { media_title: norm_opt(o), ..w },
                    ),
                    ..y
                },
            ),
        ),
{
    match o {
        Some(v) => if v.len() > 0 {
            lemma_last_media(base, w, y, MediaDescriptionView { media_title: Some(v), ..w });
            lemma_step(('i', v), s, y, Field::MediaTitle);
        } else {
            assert(opt_rec('i', o) =~= Seq::<Rec>::empty());
        },
        None => {},
    }
}

#[verifier::spinoff_prover]
#[verifier::rlimit(100)]
proof fn lemma_media_connection(
    c: Option<ConnectionInformationView>,
    s: State,
    base: Seq<MediaDescriptionView>,
    w: MediaDescriptionView,
    y: SdpView,
)
    requires
        0 <= media_rank(s) <= 1,
        c matches Some(z) ==> connection_ok(z),
        w.connection_information is None,
        y.media_descriptions == base.push(w),
    ensures
        steps(connection_rec(c), s, y) == Ok::<(State, SdpView), ErrorView>(
            (
                if c is Some {
                    State::MediaBandwidth
                } else {
                    s
                },
                SdpView {
                    media_descriptions: base.push(
                        MediaDescriptionView { connection_information: c, ..w },
                    ),
                    ..y
                },
            ),
        ),
{
    match c {
        Some(z) => {
            lemma_connection_round_trip(z, 'c');
            lemma_last_media(base, w, y, MediaDescriptionView { connection_information: Some(z), ..w });
            lemma_step(('c', crate::common::connection_text(z)), s, y, Field::MediaConnection);
        },
        None => {},
    }
}

#[verifier::spinoff_prover]
#[verifier::rlimit(100)]
proof fn lemma_media_bandwidths(
    bs: Seq<BandwidthView>,
    s: State,
    base: Seq<MediaDescriptionView>,
    w: MediaDescriptionView,
    y: SdpView,
)
    requires
        0 <= media_rank(s) <= 2,
        forall|i: int| 0 <= i < bs.len() ==> bandwidth_ok(#[trigger] bs[i]),
        y.media_descriptions == base.push(w),
    ensures
        steps(bandwidth_recs(bs), s, y) matches Ok((s2, y2)) && 0 <= media_rank(s2) <= 2 && y2
            == (SdpView {
            media_descriptions: base.push(
                MediaDescriptionView { bandwidth: w.bandwidth + bs, ..w },
            ),
            ..y
        }),
    decreases bs.len(),
{
    if bs.len() == 0 {
        assert(bandwidth_recs(bs) =~= Seq::<Rec>::empty());
        assert(w.bandwidth + bs =~= w.bandwidth);
        assert(MediaDescriptionView { bandwidth: w.bandwidth + bs, ..w } == w);
        assert(base.push(w) =~= y.media_descriptions);
    } else {
        let r = ('b', crate::common::bandwidth_text(bs[0]));
        assert(bandwidth_recs(bs) =~= seq![r] + bandwidth_recs(bs.drop_first()));
        lemma_steps_concat(seq![r], bandwidth_recs(bs.drop_first()), s, y);
        lemma_step(r, s, y, Field::MediaBandwidth);
        assert(bandwidth_ok(bs[0]));
        lemma_bandwidth_round_trip(bs[0]);
        let w1 = MediaDescriptionView { bandwidth: w.bandwidth.push(bs[0]), ..w };
        let y1 = SdpView { media_descriptions: base.push(w1), ..y };
        lemma_last_media(base, w, y, w1);
        assert forall|i: int| 0 <= i < bs.drop_first().len() implies bandwidth_ok(
            #[trigger] bs.drop_first()[i],
        ) by {
            assert(bs.drop_first()[i] == bs[i + 1]);
        }
        lemma_media_bandwidths(bs.drop_first(), State::MediaBandwidth, base, w1, y1);
        assert(w.bandwidth.push(bs[0]) + bs.drop_first() =~= w.bandwidth + bs);
    }
}

#[verifier::spinoff_prover]
#[verifier::rlimit(100)]
proof fn lemma_media_key(
    o: Option<Seq<char>>,
    s: State,
    base: Seq<MediaDescriptionView>,
    w: MediaDescriptionView,
    y: SdpView,
)
    requires
        0 <= media_rank(s) <= 2,
        opt_ok(o),
        w.encryption_key is None,
        y.media_descriptions == base.push(w),
    ensures
        steps(opt_rec('k', o), s, y) == Ok::<(State, SdpView), ErrorView>(
            (
                if norm_opt(o) is Some {
                    State::MediaAttribute
                } else {
                    s
                },
                SdpView {
                    media_descriptions: base.push(
                        MediaDescriptionView { encryption_key: norm_opt(o), ..w },
                    ),
                    ..y
                },
            ),
        ),
{
    match o {
        Some(v) => if v.len() > 0 {
            lemma_last_media(base, w, y, MediaDescriptionView { encryption_key: Some(v), ..w });
            lemma_step(('k', v), s, y, Field::MediaEncryptionKey);
        } else {
            assert(opt_rec('k', o) =~= Seq::<Rec>::empty());
        },
        None => {},
    }
}

#[verifier::spinoff_prover]
#[verifier::rlimit(100)]
proof fn lemma_media_attributes(
    attrs: Seq<AttributeView>,
    s: State,
    base: Seq<MediaDescriptionView>,
    w: MediaDescriptionView,
    y: SdpView,
)
    requires
        0 <= media_rank(s) <= 3,
        forall|i: int| 0 <= i < attrs.len() ==> attribute_ok(#[trigger] attrs[i]),
        y.media_descriptions == base.push(w),
    ensures
        steps(attribute_recs(attrs), s, y) matches Ok((s2, y2)) && 0 <= media_rank(s2) <= 3 && y2
            == (SdpView {
            media_descriptions: base.push(
                MediaDescriptionView { attributes: w.attributes + attrs, ..w },
            ),
            ..y
        }),
    decreases attrs.len(),
{
    if attrs.len() == 0 {
        assert(attribute_recs(attrs) =~= Seq::<Rec>::empty());
        assert(w.attributes + attrs =~= w.attributes);
        assert(MediaDescriptionView { attributes: w.attributes + attrs, ..w } == w);
        assert(base.push(w) =~= y.media_descriptions);
    } else {
        let r = ('a', crate::common::attribute_text(attrs[0]));
        assert(attribute_recs(attrs) =~= seq![r] + attribute_recs(attrs.drop_first()));
        lemma_steps_concat(seq![r], attribute_recs(attrs.drop_first()), s, y);
        lemma_step(r, s, y, Field::MediaAttribute);
        assert(attribute_ok(attrs[0]));
        lemma_attribute_round_trip(attrs[0]);
        let w1 = MediaDescriptionView { attributes: w.attributes.push(attrs[0]), ..w };
        let y1 = SdpView { media_descriptions: base.push(w1), ..y };
        lemma_last_media(base, w, y, w1);
        assert forall|i: int| 0 <= i < attrs.drop_first().len() implies attribute_ok(
            #[trigger] attrs.drop_first()[i],
        ) by {
            assert(attrs.drop_first()[i] == attrs[i + 1]);
        }
        lemma_media_attributes(attrs.drop_first(), State::MediaAttribute, base, w1, y1);
        assert(w.attributes.push(attrs[0]) + attrs.drop_first() =~= w.attributes + attrs);
    }
}

#[verifier::spinoff_prover]
#[verifier::rlimit(100)]
proof fn lemma_media(m: MediaDescriptionView, s: State, x: SdpView)
    requires
        tail_rank(s) >= 0 || media_rank(s) >= 0,
        media_ok(m),
    ensures
        steps(media_recs(m), s, x) matches Ok((s2, x2)) && media_rank(s2) >= 0 && x2 == (SdpView {
            media_descriptions: x.media_descriptions.push(norm_media(m)),
            ..x
        }),
{
    let r0: Rec = ('m', crate::media::media_name_text(m.media_name));
    let p0 = seq![r0];
    let p1 = opt_rec('i', m.media_title);
    let p2 = connection_rec(m.connection_information);
    let p3 = bandwidth_recs(m.bandwidth);
    let p4 = opt_rec('k', m.encryption_key);
    let p5 = attribute_recs(m.attributes);
    assert(media_recs(m) == p0 + p1 + p2 + p3 + p4 + p5);
    lemma_media_name_round_trip(m.media_name);
    lemma_step(r0, s, x, Field::MediaDescription);
    let base = x.media_descriptions;
    let w0 = fresh_media(m.media_name);
    let y0 = SdpView { media_descriptions: base.push(w0), ..x };
    assert(steps(p0, s, x) == Ok::<(State, SdpView), ErrorView>((State::MediaTitle, y0)));
    lemma_steps_concat(p0, p1, s, x);
    lemma_media_title(m.media_title, State::MediaTitle, base, w0, y0);
    let w1 = MediaDescriptionView { media_title: norm_opt(m.media_title), ..w0 };
    let (s1, y1) = steps(p0 + p1, s, x)->Ok_0;
    lemma_steps_concat(p0 + p1, p2, s, x);
    lemma_media_connection(m.connection_information, s1, base, w1, y1);
    let w2 = MediaDescriptionView { connection_information: m.connection_information, ..w1 };
    let (s2, y2) = steps(p0 + p1 + p2, s, x)->Ok_0;
    lemma_steps_concat(p0 + p1 + p2, p3, s, x);
    lemma_media_bandwidths(m.bandwidth, s2, base, w2, y2);
    let w3 = MediaDescriptionView { bandwidth: w2.bandwidth + m.bandwidth, ..w2 };
    let (s3, y3) = steps(p0 + p1 + p2 + p3, s, x)->Ok_0;
    lemma_steps_concat(p0 + p1 + p2 + p3, p4, s, x);
    lemma_media_key(m.encryption_key, s3, base, w3, y3);
    let w4 = MediaDescriptionView { encryption_key: norm_opt(m.encryption_key), ..w3 };
    let (s4, y4) = steps(p0 + p1 + p2 + p3 + p4, s, x)->Ok_0;
    lemma_steps_concat(p0 + p1 + p2 + p3 + p4, p5, s, x);
    lemma_media_attributes(m.attributes, s4, base, w4, y4);
    assert(Seq::<BandwidthView>::empty() + m.bandwidth =~= m.bandwidth);
    assert(Seq::<AttributeView>::empty() + m.attributes =~= m.attributes);
    assert(MediaDescriptionView { attributes: w4.attributes + m.attributes, ..w4 } == norm_media(m));
}

#[verifier::spinoff_prover]
#[verifier::rlimit(100)]
proof fn lemma_medias(ms: Seq<MediaDescriptionView>, s: State, x: SdpView)
    requires
        tail_rank(s) >= 0 || media_rank(s) >= 0,
        forall|i: int| 0 <= i < ms.len() ==> media_ok(#[trigger] ms[i]),
    ensures
        steps(medias_recs(ms), s, x) matches Ok((s2, x2)) && (tail_rank(s2) >= 0 || media_rank(s2)
            >= 0) && x2 == (SdpView {
            media_descriptions: x.media_descriptions + ms.map_values(
                |m: MediaDescriptionView| norm_media(m),
            ),
            ..x
        }),
    decreases ms.len(),
{
    if ms.len() == 0 {
        assert(x.media_descriptions + ms.map_values(|m: MediaDescriptionView| norm_media(m))
            =~= x.media_descriptions);
    } else {
        let init = ms.drop_last();
        assert forall|i: int| 0 <= i < init.len() implies media_ok(#[trigger] init[i]) by {
            assert(init[i] == ms[i]);
        }
        lemma_medias(init, s, x);
        lemma_steps_concat(medias_recs(init), media_recs(ms.last()), s, x);
        let (s1, x1) = steps(medias_recs(init), s, x)->Ok_0;
        assert(media_ok(ms[ms.len() - 1]));
        lemma_media(ms.last(), s1, x1);
        assert((x.media_descriptions + init.map_values(|m: MediaDescriptionView| norm_media(m))).push(
            norm_media(ms.last()),
        ) =~= x.media_descriptions + ms.map_values(|m: MediaDescriptionView| norm_media(m)));
    }
}

/// Running the state machine over the records that the serializer writes
/// for a canonical document gives that document back, up to empty optional
/// texts, and ends in a state where the text may end.
#[verifier::spinoff_prover]
#[verifier::rlimit(100)]
pub proof fn lemma_doc_steps(d: SdpView)
    requires
        doc_fields_ok(d),
        uri_ok(d.session.uri),
    ensures
        steps(doc_records(d), State::Version, empty_sdp()) matches Ok((s, x)) && accepts_end(s)
            && x == norm_doc(d),
{
    let e = empty_sdp();
    let ss = d.session;
    let h = head_recs(d);
    let t = time_recs(d.time_descriptions);
    let z = zone_rec(ss.time_zones);
    let k = opt_rec('k', ss.encryption_key);
    let a = attribute_recs(ss.attributes);
    let m = medias_recs(d.media_descriptions);
    assert(tail_recs(d) == z + k + a);
    assert(doc_records(d) == h + t + (z + k + a) + m);
    assert(h + t + (z + k + a) + m =~= h + t + z + k + a + m);
    lemma_head(d);
    let (s1, x1) = steps(h, State::Version, e)->Ok_0;
    lemma_steps_concat(h, t, State::Version, e);
    lemma_times(d.time_descriptions, s1, x1);
    let x2 = SdpView { time_descriptions: x1.time_descriptions + d.time_descriptions, ..x1 };
    lemma_steps_concat(h + t, z, State::Version, e);
    lemma_zones(ss.time_zones, x2);
    let (s3, x3) = steps(h + t + z, State::Version, e)->Ok_0;
    lemma_steps_concat(h + t + z, k, State::Version, e);
    lemma_session_key(ss.encryption_key, s3, x3);
    let (s4, x4) = steps(h + t + z + k, State::Version, e)->Ok_0;
    lemma_steps_concat(h + t + z + k, a, State::Version, e);
    lemma_session_attributes(ss.attributes, s4, x4);
    let (s5, x5) = steps(h + t + z + k + a, State::Version, e)->Ok_0;
    lemma_steps_concat(h + t + z + k + a, m, State::Version, e);
    lemma_medias(d.media_descriptions, s5, x5);
    let x6 = steps(h + t + z + k + a + m, State::Version, e)->Ok_0.1;
    assert(Seq::<TimeDescriptionView>::empty() + d.time_descriptions =~= d.time_descriptions);
    assert(Seq::<AttributeView>::empty() + ss.attributes =~= ss.attributes);
    assert(Seq::<MediaDescriptionView>::empty() + d.media_descriptions.map_values(
        |m: MediaDescriptionView| norm_media(m),
    ) =~= d.media_descriptions.map_values(|m: MediaDescriptionView| norm_media(m)));
    assert(x6.session == norm_doc(d).session);
    assert(x6 == norm_doc(d));
}

pub open spec fn recs_ok(rs: Seq<Rec>) -> bool {
    forall|i: int| 0 <= i < rs.len() ==> rec_ok(#[trigger] rs[i])
}

proof fn lemma_recs_ok_concat(a: Seq<Rec>, b: Seq<Rec>)
    requires
        recs_ok(a),
        recs_ok(b),
    ensures
        recs_ok(a + b),
{
    assert forall|i: int| 0 <= i < (a + b).len() implies rec_ok(#[trigger] (a + b)[i]) by {
        if i < a.len() {
            assert((a + b)[i] == a[i]);
        } else {
            assert((a + b)[i] == b[i - a.len()]);
        }
    }
}

proof fn lemma_one_ok(r: Rec)
    requires
        rec_ok(r),
    ensures
        recs_ok(seq![r]),
{
}

proof fn lemma_opt_rec_ok(k: char, o: Option<Seq<char>>)
    requires
        k != '\r' && k != '\n' && k != '=',
        opt_ok(o),
    ensures
        recs_ok(opt_rec(k, o)),
{
}

proof fn lemma_connection_rec_ok(c: Option<ConnectionInformationView>)
    requires
        c matches Some(y) ==> connection_ok(y),
    ensures
        recs_ok(connection_rec(c)),
{
    if let Some(y) = c {
        lemma_connection_round_trip(y, 'c');
    }
}

proof fn lemma_bandwidth_recs_ok(bs: Seq<BandwidthView>)
    requires
        forall|i: int| 0 <= i < bs.len() ==> bandwidth_ok(#[trigger] bs[i]),
    ensures
        recs_ok(bandwidth_recs(bs)),
{
    assert forall|i: int| 0 <= i < bandwidth_recs(bs).len() implies rec_ok(
        #[trigger] bandwidth_recs(bs)[i],
    ) by {
        assert(bandwidth_ok(bs[i]));
        lemma_bandwidth_round_trip(bs[i]);
    }
}

proof fn lemma_attribute_recs_ok(attrs: Seq<AttributeView>)
    requires
        forall|i: int| 0 <= i < attrs.len() ==> attribute_ok(#[trigger] attrs[i]),
    ensures
        recs_ok(attribute_recs(attrs)),
{
    assert forall|i: int| 0 <= i < attribute_recs(attrs).len() implies rec_ok(
        #[trigger] attribute_recs(attrs)[i],
    ) by {
        assert(attribute_ok(attrs[i]));
    }
}

proof fn lemma_repeat_recs_ok(rs: Seq<RepeatTimeView>)
    requires
        forall|j: int| 0 <= j < rs.len() ==> (#[trigger] rs[j]).offsets.len() > 0,
    ensures
        recs_ok(repeat_recs(rs)),
{
    assert forall|i: int| 0 <= i < repeat_recs(rs).len() implies rec_ok(
        #[trigger] repeat_recs(rs)[i],
    ) by {
        assert(rs[i].offsets.len() > 0);
        lemma_rt_rt(rs[i]);
    }
}

proof fn lemma_time_recs_ok(ts: Seq<TimeDescriptionView>)
    requires
        tds_ok(ts),
    ensures
        recs_ok(time_recs(ts)),
    decreases ts.len(),
{
    if ts.len() > 0 {
        let init = ts.drop_last();
        assert(tds_ok(init)) by {
            assert forall|i: int, j: int|
                0 <= i < init.len() && 0 <= j < init[i].repeat_times.len() implies (
            #[trigger] init[i].repeat_times[j]).offsets.len() > 0 by {
                assert(init[i] == ts[i]);
            }
        }
        lemma_time_recs_ok(init);
        let last = ts.last();
        lemma_timing_round_trip(last.timing);
        lemma_one_ok(('t', crate::time::timing_text(last.timing)));
        assert forall|j: int| 0 <= j < last.repeat_times.len() implies (
        #[trigger] last.repeat_times[j]).offsets.len() > 0 by {
            assert(ts[ts.len() - 1] == last);
        }
        lemma_repeat_recs_ok(last.repeat_times);
        lemma_recs_ok_concat(time_recs(init), seq![('t', crate::time::timing_text(last.timing))]);
        lemma_recs_ok_concat(
            time_recs(init) + seq![('t', crate::time::timing_text(last.timing))],
            repeat_recs(last.repeat_times),
        );
    }
}

proof fn lemma_media_recs_ok(m: MediaDescriptionView)
    requires
        media_ok(m),
    ensures
        recs_ok(media_recs(m)),
{
    let p0 = seq![('m', crate::media::media_name_text(m.media_name))];
    let p1 = opt_rec('i', m.media_title);
    let p2 = connection_rec(m.connection_information);
    let p3 = bandwidth_recs(m.bandwidth);
    let p4 = opt_rec('k', m.encryption_key);
    let p5 = attribute_recs(m.attributes);
    lemma_media_name_round_trip(m.media_name);
    lemma_one_ok(p0[0]);
    assert(p0 == seq![p0[0]]);
    lemma_opt_rec_ok('i', m.media_title);
    lemma_connection_rec_ok(m.connection_information);
    lemma_bandwidth_recs_ok(m.bandwidth);
    lemma_opt_rec_ok('k', m.encryption_key);
    lemma_attribute_recs_ok(m.attributes);
    lemma_recs_ok_concat(p0, p1);
    lemma_recs_ok_concat(p0 + p1, p2);
    lemma_recs_ok_concat(p0 + p1 + p2, p3);
    lemma_recs_ok_concat(p0 + p1 + p2 + p3, p4);
    lemma_recs_ok_concat(p0 + p1 + p2 + p3 + p4, p5);
}

proof fn lemma_medias_recs_ok(ms: Seq<MediaDescriptionView>)
    requires
        forall|i: int| 0 <= i < ms.len() ==> media_ok(#[trigger] ms[i]),
    ensures
        recs_ok(medias_recs(ms)),
    decreases ms.len(),
{
    if ms.len() > 0 {
        let init = ms.drop_last();
        assert forall|i: int| 0 <= i < init.len() implies media_ok(#[trigger] init[i]) by {
            assert(init[i] == ms[i]);
        }
        lemma_medias_recs_ok(init);
        assert(media_ok(ms[ms.len() - 1]));
        lemma_media_recs_ok(ms.last());
        lemma_recs_ok_concat(medias_recs(init), media_recs(ms.last()));
    }
}

#[verifier::spinoff_prover]
#[verifier::rlimit(100)]
proof fn lemma_doc_records_ok(d: SdpView)
    requires
        doc_fields_ok(d),
        uri_ok(d.session.uri),
    ensures
        recs_ok(doc_records(d)),
{
    let ss = d.session;
    lemma_version_round_trip();
    lemma_origin_round_trip(ss.origin);
    let h0 = seq![
        ('v', crate::number::int_chars(ss.version as int)),
        ('o', crate::session::origin_text(ss.origin)),
        ('s', ss.session_name),
    ];
    assert(recs_ok(h0));
    let h1 = opt_rec('i', ss.session_information);
    let h2 = opt_rec('u', ss.uri);
    let h3 = opt_rec('e', ss.email_address);
    let h4 = opt_rec('p', ss.phone_number);
    let h5 = connection_rec(ss.connection_information);
    let h6 = bandwidth_recs(ss.bandwidth);
    lemma_opt_rec_ok('i', ss.session_information);
    assert(recs_ok(h2));
    lemma_opt_rec_ok('e', ss.email_address);
    lemma_opt_rec_ok('p', ss.phone_number);
    lemma_connection_rec_ok(ss.connection_information);
    lemma_bandwidth_recs_ok(ss.bandwidth);
    lemma_recs_ok_concat(h0, h1);
    lemma_recs_ok_concat(h0 + h1, h2);
    lemma_recs_ok_concat(h0 + h1 + h2, h3);
    lemma_recs_ok_concat(h0 + h1 + h2 + h3, h4);
    lemma_recs_ok_concat(h0 + h1 + h2 + h3 + h4, h5);
    lemma_recs_ok_concat(h0 + h1 + h2 + h3 + h4 + h5, h6);
    let h = head_recs(d);
    assert(h == h0 + h1 + h2 + h3 + h4 + h5 + h6);
    let t = time_recs(d.time_descriptions);
    lemma_time_recs_ok(d.time_descriptions);
    let z = zone_rec(ss.time_zones);
    if ss.time_zones.len() > 0 {
        lemma_time_zones_round_trip(ss.time_zones);
    }
    assert(recs_ok(z));
    let k = opt_rec('k', ss.encryption_key);
    lemma_opt_rec_ok('k', ss.encryption_key);
    let a = attribute_recs(ss.attributes);
    lemma_attribute_recs_ok(ss.attributes);
    lemma_recs_ok_concat(z, k);
    lemma_recs_ok_concat(z + k, a);
    assert(tail_recs(d) == z + k + a);
    let m = medias_recs(d.media_descriptions);
    lemma_medias_recs_ok(d.media_descriptions);
    lemma_recs_ok_concat(h, t);
    lemma_recs_ok_concat(h + t, tail_recs(d));
    lemma_recs_ok_concat(h + t + tail_recs(d), m);
}

proof fn lemma_media_lines_norm(ms: Seq<MediaDescriptionView>)
    ensures
        crate::serializer::media_lines(ms.map_values(|m: MediaDescriptionView| norm_media(m)))
            == crate::serializer::media_lines(ms),
    decreases ms.len(),
{
    if ms.len() > 0 {
        lemma_media_lines_norm(ms.drop_last());
        assert(ms.map_values(|m: MediaDescriptionView| norm_media(m)).drop_last() =~= ms.drop_last().map_values(
            |m: MediaDescriptionView| norm_media(m),
        ));
    } else {
        assert(ms.map_values(|m: MediaDescriptionView| norm_media(m)) =~= ms);
    }
}

/// A canonical document, written out, reads back as itself up to optional
/// texts that are empty (which are not written); and what it reads back as
/// is written out as the same text.
pub proof fn lemma_canonical_round_trip(d: SdpView)
    requires
        doc_fields_ok(d),
        uri_ok(d.session.uri),
    ensures
        unmarshal_text(crate::serializer::marshal_spec(d)) == Ok::<SdpView, ErrorView>(norm_doc(d)),
        crate::serializer::marshal_spec(norm_doc(d)) == crate::serializer::marshal_spec(d),
{
    lemma_marshal_records(d);
    lemma_doc_records_ok(d);
    lemma_run_records(Seq::<char>::empty(), doc_records(d), State::Version, empty_sdp());
    assert(Seq::<char>::empty() + records_text(doc_records(d)) =~= records_text(doc_records(d)));
    lemma_doc_steps(d);
    lemma_media_lines_norm(d.media_descriptions);
}

proof fn lemma_origin_decoded(v: Seq<char>)
    ensures
        crate::decoder::origin_spec(v) matches Ok(o) ==> origin_ok(o),
{
    crate::text::lemma_ws_fields_tokens(v);
}

proof fn lemma_connection_decoded(v: Seq<char>)
    ensures
        crate::decoder::connection_spec(v, 'c') matches Ok(c) ==> connection_ok(c),
{
    crate::text::lemma_ws_fields_tokens(v);
}

proof fn lemma_bandwidth_decoded(v: Seq<char>)
    requires
        line_ok(v),
    ensures
        crate::decoder::bandwidth_spec(v) matches Ok(b) ==> bandwidth_ok(b),
{
    crate::text::lemma_split_on_pieces(v, ':', '\n');
    crate::text::lemma_split_on_nonempty(v, ':');
    let parts = crate::text::split_on(v, ':');
    if crate::decoder::bandwidth_spec(v) is Ok && crate::decoder::is_experimental(parts[0]) {
        let t = parts[0].skip(2);
        assert(crate::text::free_of(parts[0], ':'));
        assert(crate::text::free_of(parts[0], '\n'));
        assert forall|j: int| 0 <= j < t.len() implies #[trigger] t[j] != ':' && t[j] != '\n' by {
            assert(t[j] == parts[0][j + 2]);
        }
    }
}

proof fn lemma_repeat_decoded(v: Seq<char>)
    ensures
        crate::decoder::repeat_time_spec(v) matches Ok(r) ==> r.offsets.len() > 0,
{
    crate::decoder::lemma_times_len(crate::text::ws_fields(v));
}

proof fn lemma_attribute_decoded(v: Seq<char>)
    requires
        line_ok(v),
    ensures
        attribute_ok(crate::decoder::attribute_spec(v)),
        crate::common::attribute_text(crate::decoder::attribute_spec(v)) == v,
{
    crate::text::lemma_find_char_first(v, ':');
    match crate::text::find_char(v, ':') {
        Some(i) => {
            assert(v.take(i).push(':') + v.skip(i + 1) =~= v);
        },
        None => {},
    }
}

proof fn lemma_media_name_decoded(v: Seq<char>)
    ensures
        crate::decoder::media_name_spec(v) matches Ok(m) ==> media_name_ok(m),
{
    crate::text::lemma_ws_fields_tokens(v);
    let f = crate::text::ws_fields(v);
    if crate::decoder::media_name_spec(v) is Ok {
        let m = crate::decoder::media_name_spec(v)->Ok_0;
        crate::text::lemma_split_on_nonempty(f[2], '/');
        crate::text::lemma_split_on_nonempty(f[1], '/');
        assert forall|i: int| 0 <= i < m.formats.len() implies crate::text::is_token(
            #[trigger] m.formats[i],
        ) by {
            assert(m.formats[i] == f[i + 3]);
        }
        assert forall|i: int| 0 <= i < m.protos.len() implies crate::decoder::proto_names().contains(
            #[trigger] m.protos[i],
        ) by {}
    }
}

/// What holds of the document at every point of a parse.
pub open spec fn partial_ok(d: SdpView, s: State) -> bool {
    let ss = d.session;
    &&& ss.version == 0
    &&& (s != State::Version && s != State::Origin ==> origin_ok(ss.origin))
    &&& line_ok(ss.session_name)
    &&& opt_ok(ss.session_information)
    &&& opt_ok(ss.email_address)
    &&& opt_ok(ss.phone_number)
    &&& opt_ok(ss.encryption_key)
    &&& ss.connection_information matches Some(c) ==> connection_ok(c)
    &&& forall|i: int| 0 <= i < ss.bandwidth.len() ==> bandwidth_ok(#[trigger] ss.bandwidth[i])
    &&& forall|i: int| 0 <= i < ss.attributes.len() ==> attribute_ok(#[trigger] ss.attributes[i])
    &&& (accepts_end(s) ==> d.time_descriptions.len() > 0)
    &&& tds_ok(d.time_descriptions)
    &&& forall|i: int| 0 <= i < d.media_descriptions.len() ==> media_ok(#[trigger] d.media_descriptions[i])
}

#[verifier::spinoff_prover]
#[verifier::rlimit(100)]
proof fn lemma_apply_keeps_ok(d: SdpView, s: State, f: Field, v: Seq<char>)
    requires
        partial_ok(d, s),
        crate::grammar::accept(s, f_letter(f)) == Some(f),
        line_ok(v),
    ensures
        apply_spec(d, f, v) matches Ok(d2) ==> partial_ok(d2, next_state(f)),
{
    lemma_origin_decoded(v);
    lemma_connection_decoded(v);
    lemma_bandwidth_decoded(v);
    lemma_repeat_decoded(v);
    lemma_attribute_decoded(v);
    lemma_media_name_decoded(v);
    if apply_spec(d, f, v) is Ok {
        let d2 = apply_spec(d, f, v)->Ok_0;
        let ss = d.session;
        match f {
            Field::SessionBandwidth => {
                let b = crate::decoder::bandwidth_spec(v)->Ok_0;
                assert forall|i: int| 0 <= i < d2.session.bandwidth.len() implies bandwidth_ok(
                    #[trigger] d2.session.bandwidth[i],
                ) by {
                    if i < ss.bandwidth.len() {
                        assert(d2.session.bandwidth[i] == ss.bandwidth[i]);
                    }
                }
            },
            Field::SessionAttribute => {
                assert forall|i: int| 0 <= i < d2.session.attributes.len() implies attribute_ok(
                    #[trigger] d2.session.attributes[i],
                ) by {
                    if i < ss.attributes.len() {
                        assert(d2.session.attributes[i] == ss.attributes[i]);
                    }
                }
            },
            Field::Timing => {
                let t = d2.time_descriptions;
                assert forall|i: int, j: int|
                    0 <= i < t.len() && 0 <= j < t[i].repeat_times.len() implies (
                #[trigger] t[i].repeat_times[j]).offsets.len() > 0 by {
                    assert(i < d.time_descriptions.len());
                    assert(t[i] == d.time_descriptions[i]);
                }
            },
            Field::RepeatTime => {
                let t = d2.time_descriptions;
                let n = d.time_descriptions.len() - 1;
                assert forall|i: int, j: int|
                    0 <= i < t.len() && 0 <= j < t[i].repeat_times.len() implies (
                #[trigger] t[i].repeat_times[j]).offsets.len() > 0 by {
                    if i < n {
                        assert(t[i] == d.time_descriptions[i]);
                    } else {
                        let old_rt = d.time_descriptions[n].repeat_times;
                        if j < old_rt.len() {
                            assert(t[i].repeat_times[j] == old_rt[j]);
                        }
                    }
                }
            },
            Field::MediaDescription => {
                let m = d2.media_descriptions;
                assert forall|i: int| 0 <= i < m.len() implies media_ok(#[trigger] m[i]) by {
                    if i < d.media_descriptions.len() {
                        assert(m[i] == d.media_descriptions[i]);
                    }
                }
            },
            Field::MediaTitle | Field::MediaConnection | Field::MediaEncryptionKey => {
                let m = d2.media_descriptions;
                let n = d.media_descriptions.len() - 1;
                assert(media_ok(d.media_descriptions[n]));
                assert forall|i: int| 0 <= i < m.len() implies media_ok(#[trigger] m[i]) by {
                    if i < n {
                        assert(m[i] == d.media_descriptions[i]);
                    }
                }
            },
            Field::MediaBandwidth => {
                let m = d2.media_descriptions;
                let n = d.media_descriptions.len() - 1;
                let old_m = d.media_descriptions[n];
                assert(media_ok(old_m));
                assert forall|i: int| 0 <= i < m.len() implies media_ok(#[trigger] m[i]) by {
                    if i < n {
                        assert(m[i] == d.media_descriptions[i]);
                    } else {
                        assert forall|k: int| 0 <= k < m[i].bandwidth.len() implies bandwidth_ok(
                            #[trigger] m[i].bandwidth[k],
                        ) by {
                            if k < old_m.bandwidth.len() {
                                assert(m[i].bandwidth[k] == old_m.bandwidth[k]);
                            }
                        }
                    }
                }
            },
            Field::MediaAttribute => {
                let m = d2.media_descriptions;
                let n = d.media_descriptions.len() - 1;
                let old_m = d.media_descriptions[n];
                assert(media_ok(old_m));
                assert forall|i: int| 0 <= i < m.len() implies media_ok(#[trigger] m[i]) by {
                    if i < n {
                        assert(m[i] == d.media_descriptions[i]);
                    } else {
                        assert forall|k: int| 0 <= k < m[i].attributes.len() implies attribute_ok(
                            #[trigger] m[i].attributes[k],
                        ) by {
                            if k < old_m.attributes.len() {
                                assert(m[i].attributes[k] == old_m.attributes[k]);
                            }
                        }
                    }
                }
            },
            _ => {},
        }
    }
}

/// The key letter of each field.
pub open spec fn f_letter(f: Field) -> char {
    match f {
        Field::Version => 'v',
        Field::Origin => 'o',
        Field::SessionName => 's',
        Field::SessionInformation => 'i',
        Field::Uri => 'u',
        Field::Email => 'e',
        Field::Phone => 'p',
        Field::SessionConnection => 'c',
        Field::SessionBandwidth => 'b',
        Field::Timing => 't',
        Field::RepeatTime => 'r',
        Field::TimeZones => 'z',
        Field::SessionEncryptionKey => 'k',
        Field::SessionAttribute => 'a',
        Field::MediaDescription => 'm',
        Field::MediaTitle => 'i',
        Field::MediaConnection => 'c',
        Field::MediaBandwidth => 'b',
        Field::MediaEncryptionKey => 'k',
        Field::MediaAttribute => 'a',
    }
}

proof fn lemma_field_letter(s: State, c: char)
    ensures
        crate::grammar::accept(s, c) matches Some(f) ==> c == f_letter(f),
{
}

proof fn lemma_trim_cr_ok(x: Seq<char>)
    requires
        crate::text::free_of(x, '\n'),
    ensures
        line_ok(crate::lexer::trim_cr(x)),
    decreases x.len(),
{
    if x.len() > 0 && x.last() == '\r' {
        let x0 = x.drop_last();
        assert forall|j: int| 0 <= j < x0.len() implies #[trigger] x0[j] != '\n' by {
            assert(x0[j] == x[j]);
        }
        lemma_trim_cr_ok(x0);
    }
}

proof fn lemma_record_value_ok(text: Seq<char>, pos: int)
    requires
        0 <= pos <= text.len(),
    ensures
        crate::lexer::read_record_spec(text, pos) matches Ok(
            crate::lexer::RecordView::Field { value, .. },
        ) ==> line_ok(value),
{
    crate::lexer::lemma_skip_breaks(text, pos);
    let start = crate::lexer::skip_breaks(text, pos);
    if start < text.len() {
        crate::lexer::lemma_line_end(text, start);
        let end = crate::lexer::line_end(text, start);
        let line = text.subrange(start, end);
        crate::lexer::lemma_find_char_bound(line, '=');
        match crate::text::find_char(line, '=') {
            Some(i) => {
                let x = line.skip(i + 1);
                assert forall|j: int| 0 <= j < x.len() implies #[trigger] x[j] != '\n' by {
                    assert(x[j] == text[start + i + 1 + j]);
                }
                lemma_trim_cr_ok(x);
            },
            None => {},
        }
    }
}

/// Every document that a parse returns is canonical, but for its URL.
proof fn lemma_run_ok(text: Seq<char>, pos: int, s: State, d: SdpView)
    requires
        0 <= pos <= text.len(),
        partial_ok(d, s),
    ensures
        crate::grammar::run_spec(text, pos, s, d) matches Ok(d2) ==> doc_fields_ok(d2),
    decreases text.len() - pos,
{
    lemma_record_value_ok(text, pos);
    match crate::lexer::read_record_spec(text, pos) {
        Ok(crate::lexer::RecordView::Field { key, value, next }) => {
            match key_field(s, key) {
                Some(f) => {
                    lemma_field_letter(s, key[0]);
                    lemma_apply_keeps_ok(d, s, f, value);
                    match apply_spec(d, f, value) {
                        Ok(d1) => {
                            if pos < next <= text.len() {
                                lemma_run_ok(text, next, next_state(f), d1);
                            }
                        },
                        Err(_) => {},
                    }
                },
                None => {},
            }
        },
        _ => {},
    }
}

/// A parsed document meets every condition of a canonical one but for its
/// URL, which the `url` crate alone decides.
pub proof fn lemma_parsed_is_canonical(text: Seq<char>)
    ensures
        unmarshal_text(text) matches Ok(d) ==> doc_fields_ok(d),
{
    let e = empty_sdp();
    assert(tds_ok(e.time_descriptions));
    assert(partial_ok(e, State::Version));
    lemma_run_ok(text, 0, State::Version, e);
}

} // verus!
