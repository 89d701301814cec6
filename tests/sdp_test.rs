use sdp::decoder::parse_time_units;
use sdp::document::SDP;
use sdp::error::Error;
use sdp::grammar::{apply, Field};

const MINIMAL: &str = "v=0\r\no=- 1 1 IN IP4 127.0.0.1\r\ns=-\r\nt=0 0\r\n";

fn chars(s: &str) -> Vec<char> {
    s.chars().collect()
}

fn parse(s: &str) -> Result<SDP, Error> {
    SDP::unmarshal(s.as_bytes())
}

#[test]
fn minimal_description_parses_and_round_trips() {
    let d = parse(MINIMAL).unwrap();
    assert_eq!(d.session.version, 0);
    assert_eq!(d.session.origin.unicast_address, "127.0.0.1");
    assert_eq!(d.session.origin.username, "-");
    assert_eq!(d.session.origin.session_id, 1);
    assert_eq!(d.session.session_name, "-");
    assert_eq!(d.time_descriptions.len(), 1);
    assert_eq!(d.time_descriptions[0].timing.start_time, 0);
    assert_eq!(d.time_descriptions[0].timing.stop_time, 0);
    assert_eq!(d.media_descriptions.len(), 0);
    assert_eq!(SDP::marshal(&d), MINIMAL);
}

#[test]
fn time_units_expand() {
    assert_eq!(parse_time_units(&chars("1h")), Ok(3600));
    assert_eq!(parse_time_units(&chars("2d")), Ok(172800));
    assert_eq!(parse_time_units(&chars("45")), Ok(45));
    assert_eq!(parse_time_units(&chars("3m")), Ok(180));
    assert_eq!(parse_time_units(&chars("7s")), Ok(7));
    assert_eq!(parse_time_units(&chars("-2h")), Ok(-7200));
    assert_eq!(parse_time_units(&chars("x")), Err(Error::ParseInt("x".to_string())));
    assert_eq!(parse_time_units(&chars("")), Err(Error::ParseInt("".to_string())));
    assert_eq!(
        parse_time_units(&chars("9223372036854775807d")),
        Err(Error::SdpInvalidValue("9223372036854775807d".to_string()))
    );
}

#[test]
fn media_line_with_too_few_tokens_is_a_syntax_error() {
    let text = format!("{}m=video\r\n", MINIMAL);
    assert_eq!(parse(&text).unwrap_err(), Error::SdpInvalidSyntax("m=video".to_string()));
}

#[test]
fn missing_required_fields_fail() {
    let no_v = "o=- 1 1 IN IP4 127.0.0.1\r\ns=-\r\nt=0 0\r\n";
    assert_eq!(parse(no_v).unwrap_err(), Error::SdpUnexpectedKey("o=".to_string()));
    let no_o = "v=0\r\ns=-\r\nt=0 0\r\n";
    assert_eq!(parse(no_o).unwrap_err(), Error::SdpUnexpectedKey("s=".to_string()));
    let no_s = "v=0\r\no=- 1 1 IN IP4 127.0.0.1\r\nt=0 0\r\n";
    assert_eq!(parse(no_s).unwrap_err(), Error::SdpUnexpectedKey("t=".to_string()));
    assert_eq!(parse("").unwrap_err(), Error::SdpUnexpectedKey("".to_string()));
    assert_eq!(parse("v=0\r\n").unwrap_err(), Error::SdpUnexpectedKey("".to_string()));
    let no_t = "v=0\r\no=- 1 1 IN IP4 127.0.0.1\r\ns=-\r\n";
    assert_eq!(parse(no_t).unwrap_err(), Error::SdpUnexpectedKey("".to_string()));
}

const FULL: &str = "v=0\r\n\
o=jdoe 2890844526 2890842807 IN IP4 10.47.16.5\r\n\
s=SDP Seminar\r\n\
i=A Seminar on the session description protocol\r\n\
u=http://www.example.com/seminars/sdp.pdf\r\n\
e=j.doe@example.com (Jane Doe)\r\n\
p=+1 617 555-6011\r\n\
c=IN IP4 224.2.17.12/127\r\n\
b=X-YZ:128\r\n\
b=AS:12345\r\n\
t=2873397496 2873404696\r\n\
r=7d 1h 0 25h\r\n\
t=3034423619 3042462419\r\n\
z=2882844526 -1h 2898848070 0\r\n\
k=clear:ab8c4df8b8f4as8v8iuy8re\r\n\
a=candidate:0 1 UDP 2113667327 203.0.113.1 54400 typ host\r\n\
a=recvonly\r\n\
m=audio 49170 RTP/AVP 0\r\n\
i=Vivamus a posuere nisl\r\n\
c=IN IP4 203.0.113.1\r\n\
b=X-YZ:128\r\n\
k=prompt\r\n\
a=sendrecv\r\n\
m=video 51372/2 RTP/AVP 99\r\n\
a=rtpmap:99 h263-1998/90000\r\n";

#[test]
fn full_description_is_read_field_by_field() {
    let d = parse(FULL).unwrap();
    let s = &d.session;
    assert_eq!(s.origin.username, "jdoe");
    assert_eq!(s.origin.session_id, 2890844526);
    assert_eq!(s.origin.session_version, 2890842807);
    assert_eq!(s.session_name, "SDP Seminar");
    assert_eq!(s.uri, Some("http://www.example.com/seminars/sdp.pdf".to_string()));
    assert_eq!(s.email_address, Some("j.doe@example.com (Jane Doe)".to_string()));
    assert_eq!(s.phone_number, Some("+1 617 555-6011".to_string()));
    let c = s.connection_information.as_ref().unwrap();
    assert_eq!(c.address.as_ref().unwrap().address, "224.2.17.12/127");
    assert_eq!(s.bandwidth.len(), 2);
    assert!(s.bandwidth[0].experimental);
    assert_eq!(s.bandwidth[0].bandwidth_type, "YZ");
    assert_eq!(s.bandwidth[1].bandwidth_type, "AS");
    assert_eq!(s.bandwidth[1].bandwidth, 12345);
    assert_eq!(d.time_descriptions.len(), 2);
    let r = &d.time_descriptions[0].repeat_times[0];
    assert_eq!(r.interval, 604800);
    assert_eq!(r.duration, 3600);
    assert_eq!(r.offsets, vec![0, 90000]);
    assert_eq!(s.time_zones.len(), 2);
    assert_eq!(s.time_zones[0].adjustment_time, 2882844526);
    assert_eq!(s.time_zones[0].offset, -3600);
    assert_eq!(s.encryption_key, Some("clear:ab8c4df8b8f4as8v8iuy8re".to_string()));
    assert_eq!(s.attributes.len(), 2);
    assert_eq!(s.attributes[0].key, "candidate");
    assert_eq!(s.attributes[0].value, Some("0 1 UDP 2113667327 203.0.113.1 54400 typ host".to_string()));
    assert_eq!(s.attributes[1].key, "recvonly");
    assert_eq!(s.attributes[1].value, None);
    assert_eq!(d.media_descriptions.len(), 2);
    let m = &d.media_descriptions[0];
    assert_eq!(m.media_name.media, "audio");
    assert_eq!(m.media_name.port.value, 49170);
    assert_eq!(m.media_name.port.range, None);
    assert_eq!(m.media_name.protos, vec!["RTP".to_string(), "AVP".to_string()]);
    assert_eq!(m.media_name.formats, vec!["0".to_string()]);
    assert_eq!(m.media_title, Some("Vivamus a posuere nisl".to_string()));
    assert_eq!(m.encryption_key, Some("prompt".to_string()));
    assert_eq!(m.attributes[0].key, "sendrecv");
    let v = &d.media_descriptions[1];
    assert_eq!(v.media_name.port.range, Some(2));
    assert_eq!(v.attributes[0].value, Some("99 h263-1998/90000".to_string()));
}

#[test]
fn serialization_is_stable_under_reparsing() {
    let d = parse(FULL).unwrap();
    let text = SDP::marshal(&d);
    let again = parse(&text).unwrap();
    assert_eq!(again, d);
    assert_eq!(SDP::marshal(&again), text);
    assert_eq!(
        text,
        "v=0\r\n\
o=jdoe 2890844526 2890842807 IN IP4 10.47.16.5\r\n\
s=SDP Seminar\r\n\
i=A Seminar on the session description protocol\r\n\
u=http://www.example.com/seminars/sdp.pdf\r\n\
e=j.doe@example.com (Jane Doe)\r\n\
p=+1 617 555-6011\r\n\
c=IN IP4 224.2.17.12/127\r\n\
b=X-YZ:128\r\n\
b=AS:12345\r\n\
t=2873397496 2873404696\r\n\
r=604800 3600 0 90000\r\n\
t=3034423619 3042462419\r\n\
z=2882844526 -3600 2898848070 0\r\n\
k=clear:ab8c4df8b8f4as8v8iuy8re\r\n\
a=candidate:0 1 UDP 2113667327 203.0.113.1 54400 typ host\r\n\
a=recvonly\r\n\
m=audio 49170 RTP/AVP 0\r\n\
i=Vivamus a posuere nisl\r\n\
c=IN IP4 203.0.113.1\r\n\
b=X-YZ:128\r\n\
k=prompt\r\n\
a=sendrecv\r\n\
m=video 51372/2 RTP/AVP 99\r\n\
a=rtpmap:99 h263-1998/90000\r\n"
    );
}

#[test]
fn lists_keep_the_order_of_the_input() {
    let text = format!(
        "{}a=z\r\na=a:1\r\na=m\r\nm=audio 1 RTP 0\r\nb=AS:3\r\nb=CT:1\r\na=y\r\na=b\r\nm=text 2 UDP x\r\nm=message 3 TLS y\r\n",
        MINIMAL
    );
    let d = parse(&text).unwrap();
    let keys: Vec<&str> = d.session.attributes.iter().map(|a| a.key.as_str()).collect();
    assert_eq!(keys, vec!["z", "a", "m"]);
    let kinds: Vec<&str> = d.media_descriptions.iter().map(|m| m.media_name.media.as_str()).collect();
    assert_eq!(kinds, vec!["audio", "text", "message"]);
    let out = SDP::marshal(&d);
    assert!(out.contains("b=AS:3\r\nb=CT:1\r\na=y\r\na=b\r\n"));
    assert!(out.contains("a=z\r\na=a:1\r\na=m\r\nm=audio"));
}

#[test]
fn media_fields_may_come_back_after_an_attribute() {
    let text = format!(
        "{}m=audio 9 UDP/TLS/RTP/SAVPF 111\r\na=mid:0\r\ni=title\r\nc=IN IP6 ::1\r\nb=AS:30\r\nk=clear:x\r\n",
        MINIMAL
    );
    let d = parse(&text).unwrap();
    let m = &d.media_descriptions[0];
    assert_eq!(m.bandwidth.len(), 1);
    assert_eq!(m.media_title, Some("title".to_string()));
    assert_eq!(m.connection_information.as_ref().unwrap().address_type, "IP6");
    assert_eq!(m.media_name.protos.len(), 4);
    // the strict states refuse what the lenient one takes
    let strict = format!("{}m=audio 9 RTP 0\r\nc=IN IP4 1.2.3.4\r\ni=late\r\n", MINIMAL);
    assert_eq!(parse(&strict).unwrap_err(), Error::SdpUnexpectedKey("i=".to_string()));
}

#[test]
fn session_fields_may_appear_at_most_once() {
    let text = "v=0\r\no=- 1 1 IN IP4 127.0.0.1\r\ns=-\r\ni=a\r\ni=b\r\nt=0 0\r\n";
    assert_eq!(parse(text).unwrap_err(), Error::SdpUnexpectedKey("i=".to_string()));
    let text = "v=0\r\no=- 1 1 IN IP4 127.0.0.1\r\ns=-\r\nt=0 0\r\nz=0 0\r\nz=0 0\r\n";
    assert_eq!(parse(text).unwrap_err(), Error::SdpUnexpectedKey("z=".to_string()));
}

#[test]
fn several_time_descriptions_and_bare_newlines() {
    let text = "v=0\no=- 1 1 IN IP4 127.0.0.1\n\ns=-\nt=1 2\nr=1 2 3\nt=3 4\n";
    let d = parse(text).unwrap();
    assert_eq!(d.time_descriptions.len(), 2);
    assert_eq!(d.time_descriptions[0].repeat_times.len(), 1);
    assert_eq!(d.time_descriptions[1].timing.start_time, 3);
}

#[test]
fn each_error_kind_has_an_input() {
    assert_eq!(SDP::unmarshal(&[0x76, 0x3d, 0xff]).unwrap_err(), Error::Utf8);
    assert_eq!(parse("v=0\r\nnoequals\r\n").unwrap_err(), Error::SdpInvalidSyntax("noequals".to_string()));
    assert_eq!(parse("v=1\r\n").unwrap_err(), Error::SdpInvalidSyntax("1".to_string()));
    assert_eq!(parse("v=abc\r\n").unwrap_err(), Error::ParseInt("abc".to_string()));
    assert_eq!(
        parse("v=0\r\no=- 1 1 XX IP4 127.0.0.1\r\n").unwrap_err(),
        Error::SdpInvalidValue("XX".to_string())
    );
    assert_eq!(
        parse("v=0\r\no=- 1 1 IN IP5 127.0.0.1\r\n").unwrap_err(),
        Error::SdpInvalidValue("IP5".to_string())
    );
    assert_eq!(
        parse("v=0\r\no=- x 1 IN IP4 127.0.0.1\r\n").unwrap_err(),
        Error::ParseInt("x".to_string())
    );
    assert_eq!(
        parse("v=0\r\no=- 1 1 IN IP4\r\n").unwrap_err(),
        Error::SdpInvalidSyntax("o=- 1 1 IN IP4".to_string())
    );
    let base = "v=0\r\no=- 1 1 IN IP4 127.0.0.1\r\ns=-\r\n";
    assert_eq!(
        parse(&format!("{}u=not a url\r\n", base)).unwrap_err(),
        Error::Url("not a url".to_string())
    );
    assert_eq!(
        parse(&format!("{}b=XY:1\r\n", base)).unwrap_err(),
        Error::SdpInvalidValue("XY".to_string())
    );
    assert_eq!(
        parse(&format!("{}b=AS\r\n", base)).unwrap_err(),
        Error::SdpInvalidSyntax("b=AS".to_string())
    );
    assert_eq!(
        parse(&format!("{}t=0\r\n", base)).unwrap_err(),
        Error::SdpInvalidSyntax("t=0".to_string())
    );
    assert_eq!(
        parse(&format!("{}t=0 0\r\nz=1\r\n", base)).unwrap_err(),
        Error::SdpInvalidSyntax("z=1".to_string())
    );
    assert_eq!(
        parse(&format!("{}t=0 0\r\nr=1 2\r\n", base)).unwrap_err(),
        Error::SdpInvalidSyntax("r=1 2".to_string())
    );
    assert_eq!(
        parse(&format!("{}t=0 0\r\nm=film 1 RTP 0\r\n", base)).unwrap_err(),
        Error::SdpInvalidValue("film".to_string())
    );
    assert_eq!(
        parse(&format!("{}t=0 0\r\nm=audio 1 RTP/XYZ 0\r\n", base)).unwrap_err(),
        Error::SdpInvalidValue("RTP/XYZ".to_string())
    );
    assert_eq!(
        parse(&format!("{}t=0 0\r\nm=audio 70000 RTP 0\r\n", base)).unwrap_err(),
        Error::ParseInt("70000".to_string())
    );
    assert_eq!(
        parse(&format!("{}c=IN\r\n", base)).unwrap_err(),
        Error::SdpInvalidSyntax("c=IN".to_string())
    );
    let mut doc = SDP::default();
    assert_eq!(
        apply(&mut doc, Field::RepeatTime, &"1 2 3".chars().collect()),
        Err(Error::SdpEmptyTimeDescription)
    );
    assert_eq!(
        apply(&mut doc, Field::MediaTitle, &"x".chars().collect()),
        Err(Error::SdpEmptyMediaDescription)
    );
}

#[test]
fn uri_is_kept_as_the_url_crate_writes_it() {
    let text = "v=0\r\no=- 1 1 IN IP4 127.0.0.1\r\ns=-\r\nu=HTTP://Example.COM\r\nt=0 0\r\n";
    let d = parse(text).unwrap();
    assert_eq!(d.session.uri, Some("http://example.com/".to_string()));
    assert!(SDP::marshal(&d).contains("u=http://example.com/\r\n"));
}

#[test]
fn empty_optional_values_are_not_written() {
    let text = "v=0\r\no=- 1 1 IN IP4 127.0.0.1\r\ns=\r\ni=\r\nt=0 0\r\nk=\r\n";
    let d = parse(text).unwrap();
    assert_eq!(d.session.session_information, Some(String::new()));
    assert_eq!(
        SDP::marshal(&d),
        "v=0\r\no=- 1 1 IN IP4 127.0.0.1\r\ns=\r\nt=0 0\r\n"
    );
}

#[test]
fn empty_document_serializes_its_required_lines() {
    let d = SDP::new();
    assert_eq!(SDP::marshal(&d), "v=0\r\no= 0 0   \r\ns=\r\n");
}

#[test]
fn numbers_render_canonically() {
    let text = "v=0\r\no=- +7 0007 IN IP4 a\r\ns=-\r\nt=0 18446744073709551615\r\nm=audio 0 RTP x\r\n";
    let d = parse(text).unwrap();
    assert_eq!(d.session.origin.session_id, 7);
    assert_eq!(d.time_descriptions[0].timing.stop_time, u64::MAX);
    let out = SDP::marshal(&d);
    assert!(out.contains("o=- 7 7 IN IP4 a\r\n"));
    assert!(out.contains("t=0 18446744073709551615\r\n"));
    assert!(parse("v=0\r\no=- 18446744073709551616 0 IN IP4 a\r\n").is_err());
}

#[test]
fn a_failed_field_leaves_the_document_unchanged() {
    let mut d = parse(&format!("{}m=audio 1 RTP 0\r\n", MINIMAL)).unwrap();
    let before = d.clone();
    assert_eq!(
        apply(&mut d, Field::MediaConnection, &chars("XX IP4 1.2.3.4")),
        Err(Error::SdpInvalidValue("XX".to_string()))
    );
    assert_eq!(d, before);
    assert_eq!(
        apply(&mut d, Field::MediaBandwidth, &chars("AS:x")),
        Err(Error::ParseInt("x".to_string()))
    );
    assert_eq!(d, before);
    let mut empty = SDP::default();
    assert_eq!(
        apply(&mut empty, Field::MediaBandwidth, &chars("AS:x")),
        Err(Error::SdpEmptyMediaDescription)
    );
    assert_eq!(empty, SDP::default());
}
