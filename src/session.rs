//! The session level of a description.

use crate::common::{
    Attribute, AttributeView, Bandwidth, BandwidthView, ConnectionInformation,
    ConnectionInformationView,
};
use crate::number::{decimal_chars, int_chars, push_decimal, push_int};
use crate::text::{opt_chars, push_char, push_str};
use vstd::prelude::*;

verus! {

/// `z=<adjustment time> <offset>`: one adjustment of a repeated session.
#[derive(Debug, Clone, Copy, Default, PartialEq, Eq, Structural)]
pub struct TimeZone {
    pub adjustment_time: u64,
    pub offset: i64,
}

pub open spec fn time_zone_text(z: TimeZone) -> Seq<char> {
    decimal_chars(z.adjustment_time as nat).push(' ') + int_chars(z.offset as int)
}

impl TimeZone {
    pub fn to_string(&self) -> (r: String)
        ensures
            r@ == time_zone_text(*self),
    {
        let mut out = String::new();
        push_decimal(&mut out, self.adjustment_time);
        push_char(&mut out, ' ');
        push_int(&mut out, self.offset);
        assert(out@ =~= time_zone_text(*self));
        out
    }
}

/// `o=<username> <sess-id> <sess-version> <nettype> <addrtype> <unicast-address>`
#[derive(Debug, Clone, Default, PartialEq, Eq)]
pub struct Origin {
    pub username: String,
    pub session_id: u64,
    pub session_version: u64,
    pub network_type: String,
    pub address_type: String,
    pub unicast_address: String,
}

pub struct OriginView {
    pub username: Seq<char>,
    pub session_id: u64,
    pub session_version: u64,
    pub network_type: Seq<char>,
    pub address_type: Seq<char>,
    pub unicast_address: Seq<char>,
}

impl View for Origin {
    type V = OriginView;

    open spec fn view(&self) -> OriginView {
        OriginView {
            username: self.username@,
            session_id: self.session_id,
            session_version: self.session_version,
            network_type: self.network_type@,
            address_type: self.address_type@,
            unicast_address: self.unicast_address@,
        }
    }
}

/// The six fields, separated by single spaces.
pub open spec fn origin_text(o: OriginView) -> Seq<char> {
    o.username.push(' ') + decimal_chars(o.session_id as nat) + seq![' '] + decimal_chars(
        o.session_version as nat,
    ) + seq![' '] + o.network_type + seq![' '] + o.address_type + seq![' '] + o.unicast_address
}

impl Origin {
    /// An origin with empty text fields and zero numbers.
    pub fn new() -> (r: Origin)
        ensures
            r@ == (OriginView {
                username: seq![],
                session_id: 0,
                session_version: 0,
                network_type: seq![],
                address_type: seq![],
                unicast_address: seq![],
            }),
    {
        Origin {
            username: String::new(),
            session_id: 0,
            session_version: 0,
            network_type: String::new(),
            address_type: String::new(),
            unicast_address: String::new(),
        }
    }

    pub fn to_string(&self) -> (r: String)
        ensures
            r@ == origin_text(self@),
    {
        let mut out = String::new();
        push_str(&mut out, &self.username);
        push_char(&mut out, ' ');
        push_decimal(&mut out, self.session_id);
        push_char(&mut out, ' ');
        push_decimal(&mut out, self.session_version);
        push_char(&mut out, ' ');
        push_str(&mut out, &self.network_type);
        push_char(&mut out, ' ');
        push_str(&mut out, &self.address_type);
        push_char(&mut out, ' ');
        push_str(&mut out, &self.unicast_address);
        assert(out@ =~= origin_text(self@));
        out
    }
}

/// The session-level fields. `uri` holds the URL as the `url` crate
/// serializes it.
#[derive(Debug, Clone, Default, PartialEq, Eq)]
pub struct Session {
    pub version: isize,
    pub origin: Origin,
    pub session_name: String,
    pub session_information: Option<String>,
    pub uri: Option<String>,
    pub email_address: Option<String>,
    pub phone_number: Option<String>,
    pub connection_information: Option<ConnectionInformation>,
    pub bandwidth: Vec<Bandwidth>,
    pub time_zones: Vec<TimeZone>,
    pub encryption_key: Option<String>,
    pub attributes: Vec<Attribute>,
}

pub struct SessionView {
    pub version: isize,
    pub origin: OriginView,
    pub session_name: Seq<char>,
    pub session_information: Option<Seq<char>>,
    pub uri: Option<Seq<char>>,
    pub email_address: Option<Seq<char>>,
    pub phone_number: Option<Seq<char>>,
    pub connection_information: Option<ConnectionInformationView>,
    pub bandwidth: Seq<BandwidthView>,
    pub time_zones: Seq<TimeZone>,
    pub encryption_key: Option<Seq<char>>,
    pub attributes: Seq<AttributeView>,
}

impl View for Session {
    type V = SessionView;

    open spec fn view(&self) -> SessionView {
        SessionView {
            version: self.version,
            origin: self.origin@,
            session_name: self.session_name@,
            session_information: opt_chars(self.session_information),
            uri: opt_chars(self.uri),
            email_address: opt_chars(self.email_address),
            phone_number: opt_chars(self.phone_number),
            connection_information: match self.connection_information {
                Some(c) => Some(c@),
                None => None,
            },
            bandwidth: self.bandwidth@.map_values(|b: Bandwidth| b@),
            time_zones: self.time_zones@,
            encryption_key: opt_chars(self.encryption_key),
            attributes: self.attributes@.map_values(|a: Attribute| a@),
        }
    }
}

impl Session {
    /// A session with nothing read yet: version 0, every text empty, every
    /// optional field unset, every list empty.
    pub fn new() -> (r: Session)
        ensures
            r@ == empty_session(),
    {
        let r = Session {
            version: 0,
            origin: Origin::new(),
            session_name: String::new(),
            session_information: None,
            uri: None,
            email_address: None,
            phone_number: None,
            connection_information: None,
            bandwidth: Vec::new(),
            time_zones: Vec::new(),
            encryption_key: None,
            attributes: Vec::new(),
        };
        assert(r@.bandwidth =~= seq![]);
        assert(r@.attributes =~= seq![]);
        r
    }
}

pub open spec fn empty_session() -> SessionView {
    SessionView {
        version: 0,
        origin: OriginView {
            username: seq![],
            session_id: 0,
            session_version: 0,
            network_type: seq![],
            address_type: seq![],
            unicast_address: seq![],
        },
        session_name: seq![],
        session_information: None,
        uri: None,
        email_address: None,
        phone_number: None,
        connection_information: None,
        bandwidth: seq![],
        time_zones: seq![],
        encryption_key: None,
        attributes: seq![],
    }
}

} // verus!
