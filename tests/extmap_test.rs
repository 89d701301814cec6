use sdp::direction::Direction;
use sdp::error::Error;
use sdp::extmap::{
    get_ext_uri_by_idx, get_idx_by_ext_uri, ExtMap, TOFFSET_EXT, TRANSPORT_CC_EXT_IDX,
};

const END_LINE: &str = "\r\n";

const EXAMPLE_ATTR_EXTMAP1: &str =
    "extmap:1 http://www.webrtc.org/experiments/rtp-hdrext/abs-send-time";
const EXAMPLE_ATTR_EXTMAP2: &str =
    "extmap:2/sendrecv http://www.ietf.org/id/draft-holmer-rmcat-transport-wide-cc-extensions-01 short";
const FAILING_ATTR_EXTMAP1: &str = "extmap:257/sendrecv http://nosuchext.com/ext.htm#xmeta short";
const FAILING_ATTR_EXTMAP2: &str =
    "extmap:2/blorg http://www.ietf.org/id/draft-holmer-rmcat-transport-wide-cc-extensions-01 short";

#[test]
fn test_extmap() -> Result<(), Error> {
    let example_attr_extmap1_line = EXAMPLE_ATTR_EXTMAP1;
    let example_attr_extmap2_line = EXAMPLE_ATTR_EXTMAP2;
    let failing_attr_extmap1_line = format!("{}{}{}", "a=", FAILING_ATTR_EXTMAP1, END_LINE);
    let failing_attr_extmap2_line = format!("{}{}{}", "a=", FAILING_ATTR_EXTMAP2, END_LINE);
    let passingtests = vec![
        (EXAMPLE_ATTR_EXTMAP1, example_attr_extmap1_line),
        (EXAMPLE_ATTR_EXTMAP2, example_attr_extmap2_line),
    ];
    let failingtests = vec![
        (FAILING_ATTR_EXTMAP1, failing_attr_extmap1_line),
        (FAILING_ATTR_EXTMAP2, failing_attr_extmap2_line),
    ];

    for (i, u) in passingtests.iter().enumerate() {
        let actual = ExtMap::unmarshal(u.1)?;
        assert_eq!(u.1, actual.marshal(), "{}: {} vs {}", i, u.1, actual.marshal());
    }

    for u in failingtests {
        let actual = ExtMap::unmarshal(&u.1);
        assert!(actual.is_err());
    }

    Ok(())
}

#[test]
fn test_transport_cc_extmap() -> Result<(), Error> {
    // a=extmap:<value>["/"<direction>] <URI> <extensionattributes>
    // a=extmap:3 http://www.ietf.org/id/draft-holmer-rmcat-transport-wide-cc-extensions-01
    let uri_idx = TRANSPORT_CC_EXT_IDX;
    let e = ExtMap { value: 3, uri_idx, direction: Direction::Unspecified, ext_attr: None };

    let s = e.marshal();
    if s == "3 http://www.ietf.org/id/draft-holmer-rmcat-transport-wide-cc-extensions-01" {
        assert!(false, "TestTransportCC failed");
    } else {
        assert_eq!(
            s,
            "extmap:3 http://www.ietf.org/id/draft-holmer-rmcat-transport-wide-cc-extensions-01"
        )
    }

    Ok(())
}

#[test]
fn extmap_direction_is_rejected_when_unknown() {
    let r = ExtMap::unmarshal(FAILING_ATTR_EXTMAP2);
    assert_eq!(r, Err(Error::UnknownDirection("blorg".to_string())));
}

#[test]
fn extmap_id_out_of_range_is_a_value_error() {
    let r = ExtMap::unmarshal(FAILING_ATTR_EXTMAP1);
    assert_eq!(r, Err(Error::SdpInvalidValue("257".to_string())));
    let r = ExtMap::unmarshal("extmap:0 urn:ietf:params:rtp-hdrext:toffset");
    assert_eq!(r, Err(Error::SdpInvalidValue("0".to_string())));
    let r = ExtMap::unmarshal("extmap:247 urn:ietf:params:rtp-hdrext:toffset");
    assert_eq!(r, Err(Error::SdpInvalidValue("247".to_string())));
}

#[test]
fn extmap_ids_at_the_bounds_round_trip() {
    for line in [
        "extmap:1 urn:ietf:params:rtp-hdrext:toffset",
        "extmap:246/recvonly urn:3gpp:video-orientation attr",
        "extmap:17/inactive urn:ietf:params:rtp-hdrext:sdes:mid",
        "extmap:9/sendonly http://www.webrtc.org/experiments/rtp-hdrext/playout-delay",
    ] {
        let e = ExtMap::unmarshal(line).unwrap();
        assert_eq!(e.marshal(), line);
        assert_eq!(ExtMap::unmarshal(&e.marshal()).unwrap(), e);
    }
}

#[test]
fn extmap_fields_are_read() {
    let e = ExtMap::unmarshal("  extmap:5/sendrecv urn:ietf:params:rtp-hdrext:sdes:mid x \r\n").unwrap();
    assert_eq!(e.value, 5);
    assert_eq!(e.direction, Direction::SendRecv);
    assert_eq!(e.uri_idx, 7);
    assert_eq!(e.ext_attr, Some("x".to_string()));
    let unknown = ExtMap::unmarshal("extmap:5 http://example.com/ext").unwrap();
    assert_eq!(unknown.uri_idx, 0);
    assert_eq!(unknown.ext_attr, None);
}

#[test]
fn extmap_shape_errors() {
    assert_eq!(
        ExtMap::unmarshal("extmap 5 uri"),
        Err(Error::ParseExtMap("extmap 5 uri".to_string()))
    );
    assert_eq!(
        ExtMap::unmarshal("extmap:5"),
        Err(Error::ParseExtMap("extmap:5".to_string()))
    );
    assert_eq!(
        ExtMap::unmarshal("extmap:x uri"),
        Err(Error::ParseInt("x".to_string()))
    );
}

#[test]
fn extmap_convert_gives_an_attribute() {
    let e = ExtMap {
        value: 2,
        direction: Direction::SendOnly,
        uri_idx: 1,
        ext_attr: Some("a".to_string()),
    };
    let a = e.convert();
    assert_eq!(a.key, "extmap");
    assert_eq!(
        a.value,
        Some("2/sendonly http://www.webrtc.org/experiments/rtp-hdrext/abs-send-time a".to_string())
    );
    assert_eq!(Direction::new("recvonly"), Direction::RecvOnly);
    assert_eq!(Direction::new("other"), Direction::Unspecified);
    assert_eq!(Direction::Inactive.to_string(), "inactive");
}

#[test]
fn extmap_uri_table_lookups() {
    assert_eq!(get_idx_by_ext_uri(TOFFSET_EXT), 12);
    assert_eq!(get_idx_by_ext_uri("nothing"), 0);
    assert_eq!(get_ext_uri_by_idx(12), TOFFSET_EXT);
    assert_eq!(get_ext_uri_by_idx(0), "");
    assert_eq!(get_ext_uri_by_idx(99), "");
}

#[test]
fn extmap_third_token_is_kept_when_more_follow() {
    let e = ExtMap::unmarshal("extmap:1 urn:ietf:params:rtp-hdrext:toffset a b").unwrap();
    assert_eq!(e.ext_attr, Some("a".to_string()));
    assert_eq!(e.marshal(), "extmap:1 urn:ietf:params:rtp-hdrext:toffset a");
}
