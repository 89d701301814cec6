//! Values that the session and the media level share: attributes, connection
//! data, bandwidth.

use crate::number::{decimal_chars, int_chars, push_decimal, push_int};
use crate::text::{opt_chars, push_char, push_str};
use vstd::prelude::*;

verus! {

/// `a=<attribute>` or `a=<attribute>:<value>`.
#[derive(Debug, Clone, Default, PartialEq, Eq)]
pub struct Attribute {
    pub key: String,
    pub value: Option<String>,
}

pub struct AttributeView {
    pub key: Seq<char>,
    pub value: Option<Seq<char>>,
}

impl View for Attribute {
    type V = AttributeView;

    open spec fn view(&self) -> AttributeView {
        AttributeView { key: self.key@, value: opt_chars(self.value) }
    }
}

/// The text of an attribute: its key, then `:` and its value if it has one.
pub open spec fn attribute_text(a: AttributeView) -> Seq<char> {
    match a.value {
        Some(v) => a.key.push(':') + v,
        None => a.key,
    }
}

impl Attribute {
    /// A flag attribute such as `recvonly`.
    pub fn new(key: String) -> (r: Attribute)
        ensures
            r@ == (AttributeView { key: key@, value: None }),
    {
        Attribute { key, value: None }
    }

    pub fn to_string(&self) -> (r: String)
        ensures
            r@ == attribute_text(self@),
    {
        let mut out = String::new();
        push_str(&mut out, &self.key);
        if let Some(v) = &self.value {
            push_char(&mut out, ':');
            push_str(&mut out, v);
        }
        out
    }
}

/// The address of a connection, with an optional TTL and range.
#[derive(Debug, Clone, Default, PartialEq, Eq)]
pub struct Address {
    pub address: String,
    pub ttl: Option<isize>,
    pub range: Option<isize>,
}

pub struct AddressView {
    pub address: Seq<char>,
    pub ttl: Option<isize>,
    pub range: Option<isize>,
}

impl View for Address {
    type V = AddressView;

    open spec fn view(&self) -> AddressView {
        AddressView { address: self.address@, ttl: self.ttl, range: self.range }
    }
}

pub open spec fn opt_suffix(o: Option<isize>) -> Seq<char> {
    match o {
        Some(v) => seq!['/'] + int_chars(v as int),
        None => seq![],
    }
}

/// The address, then `/ttl` and `/range` for those that are present.
pub open spec fn address_text(a: AddressView) -> Seq<char> {
    a.address + opt_suffix(a.ttl) + opt_suffix(a.range)
}

impl Address {
    pub fn to_string(&self) -> (r: String)
        ensures
            r@ == address_text(self@),
    {
        let mut out = String::new();
        push_str(&mut out, &self.address);
        if let Some(t) = self.ttl {
            push_char(&mut out, '/');
            push_int(&mut out, t as i64);
        }
        assert(out@ =~= self.address@ + opt_suffix(self.ttl));
        if let Some(r) = self.range {
            push_char(&mut out, '/');
            push_int(&mut out, r as i64);
        }
        assert(out@ =~= address_text(self@));
        out
    }
}

/// `c=<nettype> <addrtype> <connection-address>`
#[derive(Debug, Clone, Default, PartialEq, Eq)]
pub struct ConnectionInformation {
    pub network_type: String,
    pub address_type: String,
    pub address: Option<Address>,
}

pub struct ConnectionInformationView {
    pub network_type: Seq<char>,
    pub address_type: Seq<char>,
    pub address: Option<AddressView>,
}

impl View for ConnectionInformation {
    type V = ConnectionInformationView;

    open spec fn view(&self) -> ConnectionInformationView {
        ConnectionInformationView {
            network_type: self.network_type@,
            address_type: self.address_type@,
            address: match self.address {
                Some(a) => Some(a@),
                None => None,
            },
        }
    }
}

pub open spec fn connection_text(c: ConnectionInformationView) -> Seq<char> {
    let head = c.network_type.push(' ') + c.address_type;
    match c.address {
        Some(a) => head.push(' ') + address_text(a),
        None => head,
    }
}

impl ConnectionInformation {
    pub fn to_string(&self) -> (r: String)
        ensures
            r@ == connection_text(self@),
    {
        let mut out = String::new();
        push_str(&mut out, &self.network_type);
        push_char(&mut out, ' ');
        push_str(&mut out, &self.address_type);
        if let Some(a) = &self.address {
            push_char(&mut out, ' ');
            let t = a.to_string();
            push_str(&mut out, &t);
        }
        assert(out@ =~= connection_text(self@));
        out
    }
}

/// `b=<bwtype>:<bandwidth>`; an experimental type is written with `X-` in
/// front.
#[derive(Debug, Clone, Default, PartialEq, Eq)]
pub struct Bandwidth {
    pub experimental: bool,
    pub bandwidth_type: String,
    pub bandwidth: u64,
}

pub struct BandwidthView {
    pub experimental: bool,
    pub bandwidth_type: Seq<char>,
    pub bandwidth: u64,
}

impl View for Bandwidth {
    type V = BandwidthView;

    open spec fn view(&self) -> BandwidthView {
        BandwidthView {
            experimental: self.experimental,
            bandwidth_type: self.bandwidth_type@,
            bandwidth: self.bandwidth,
        }
    }
}

pub open spec fn bandwidth_text(b: BandwidthView) -> Seq<char> {
    let prefix = if b.experimental {
        seq!['X', '-']
    } else {
        seq![]
    };
    (prefix + b.bandwidth_type).push(':') + decimal_chars(b.bandwidth as nat)
}

impl Bandwidth {
    pub fn to_string(&self) -> (r: String)
        ensures
            r@ == bandwidth_text(self@),
    {
        let mut out = String::new();
        if self.experimental {
            push_char(&mut out, 'X');
            push_char(&mut out, '-');
        }
        push_str(&mut out, &self.bandwidth_type);
        push_char(&mut out, ':');
        push_decimal(&mut out, self.bandwidth);
        assert(out@ =~= bandwidth_text(self@));
        out
    }
}

} // verus!
