use sdp::common::{Address, Attribute, Bandwidth, ConnectionInformation};
use sdp::document::SDP;
use sdp::error::Error;
use sdp::media::{MediaName, RangedPort};
use sdp::serializer::key_value_build;
use sdp::session::{Origin, Session, TimeZone};
use sdp::time::{RepeatTime, Timing};

#[test]
fn key_value_lines() {
    let v = "x y".to_string();
    assert_eq!(key_value_build('i', Some(&v)), "i=x y\r\n");
    assert_eq!(key_value_build('i', None), "");
}

#[test]
fn field_texts() {
    let o = Origin {
        username: "alice".to_string(),
        session_id: 42,
        session_version: 7,
        network_type: "IN".to_string(),
        address_type: "IP6".to_string(),
        unicast_address: "::1".to_string(),
    };
    assert_eq!(o.to_string(), "alice 42 7 IN IP6 ::1");
    assert_eq!(TimeZone { adjustment_time: 5, offset: -3600 }.to_string(), "5 -3600");
    assert_eq!(Timing { start_time: 1, stop_time: 18446744073709551615 }.to_string(), "1 18446744073709551615");
    let r = RepeatTime { interval: i64::MIN, duration: 0, offsets: vec![1, -2, 30] };
    assert_eq!(r.to_string(), "-9223372036854775808 0 1 -2 30");
    let a = Attribute { key: "rtpmap".to_string(), value: Some("0 PCMU/8000".to_string()) };
    assert_eq!(a.to_string(), "rtpmap:0 PCMU/8000");
    assert_eq!(Attribute::new("sendonly".to_string()).to_string(), "sendonly");
    let b = Bandwidth { experimental: true, bandwidth_type: "YZ".to_string(), bandwidth: 0 };
    assert_eq!(b.to_string(), "X-YZ:0");
    let c = ConnectionInformation {
        network_type: "IN".to_string(),
        address_type: "IP4".to_string(),
        address: Some(Address { address: "224.2.1.1".to_string(), ttl: Some(127), range: Some(3) }),
    };
    assert_eq!(c.to_string(), "IN IP4 224.2.1.1/127/3");
    let m = MediaName {
        media: "video".to_string(),
        port: RangedPort { value: 49170, range: Some(2) },
        protos: vec!["RTP".to_string(), "AVP".to_string()],
        formats: vec!["31".to_string(), "32".to_string()],
    };
    assert_eq!(m.to_string(), "video 49170/2 RTP/AVP 31 32");
    assert_eq!(RangedPort { value: -1, range: None }.to_string(), "-1");
}

#[test]
fn constructors_start_empty() {
    let o = Origin::new();
    assert_eq!(o.username, "");
    assert_eq!(o.session_id, 0);
    let s = Session::new();
    assert_eq!(s.version, 0);
    assert!(s.attributes.is_empty());
    assert!(s.uri.is_none());
    let d = SDP::new();
    assert!(d.time_descriptions.is_empty());
    assert!(d.media_descriptions.is_empty());
}

#[test]
fn lines_are_split_at_their_first_equals_sign() {
    let text = "v=0\r\no=- 1 1 IN IP4 127.0.0.1\r\ns=a=b\r\nt=0 0\r\na=fmtp:96 x=1;y=2\r\n";
    let d = SDP::unmarshal(text.as_bytes()).unwrap();
    assert_eq!(d.session.session_name, "a=b");
    assert_eq!(d.session.attributes[0].value, Some("96 x=1;y=2".to_string()));
}

#[test]
fn values_keep_inner_whitespace_and_lose_trailing_carriage_returns() {
    let text = "v=0\r\no=-\t1  1 IN IP4 127.0.0.1\r\r\ns= My  Session \r\nt=0 0";
    let d = SDP::unmarshal(text.as_bytes()).unwrap();
    assert_eq!(d.session.session_name, " My  Session ");
    assert_eq!(d.session.origin.session_id, 1);
}

#[test]
fn keys_other_than_a_letter_and_equals_are_refused() {
    let text = "v=0\r\nvv=0\r\n";
    assert_eq!(
        SDP::unmarshal(text.as_bytes()).unwrap_err(),
        Error::SdpUnexpectedKey("vv=".to_string())
    );
    let text = "v=0\r\n=0\r\n";
    assert_eq!(
        SDP::unmarshal(text.as_bytes()).unwrap_err(),
        Error::SdpUnexpectedKey("=".to_string())
    );
}

#[test]
fn repeat_and_zone_errors() {
    let base = "v=0\r\no=- 1 1 IN IP4 127.0.0.1\r\ns=-\r\nt=0 0\r\n";
    let r = SDP::unmarshal(format!("{}r=1x 2 3\r\n", base).as_bytes());
    assert_eq!(r.unwrap_err(), Error::ParseInt("1x".to_string()));
    let r = SDP::unmarshal(format!("{}z=a 1\r\n", base).as_bytes());
    assert_eq!(r.unwrap_err(), Error::ParseInt("a".to_string()));
    let r = SDP::unmarshal(format!("{}z=\r\n", base).as_bytes()).unwrap();
    assert!(r.session.time_zones.is_empty());
}
