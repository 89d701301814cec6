//! Media descriptions: an `m=` line and the fields under it.

use crate::common::{
    Attribute, AttributeView, Bandwidth, BandwidthView, ConnectionInformation,
    ConnectionInformationView,
};
use crate::number::{int_chars, push_int};
use crate::text::{join, opt_chars, push_char, push_joined, push_str, strings_chars};
use vstd::prelude::*;

verus! {

/// A port, with the number of ports after `/` when there are several.
#[derive(Debug, Clone, Copy, Default, PartialEq, Eq, Structural)]
pub struct RangedPort {
    pub value: isize,
    pub range: Option<isize>,
}

pub open spec fn ranged_port_text(p: RangedPort) -> Seq<char> {
    match p.range {
        Some(r) => int_chars(p.value as int).push('/') + int_chars(r as int),
        None => int_chars(p.value as int),
    }
}

impl RangedPort {
    pub fn to_string(&self) -> (r: String)
        ensures
            r@ == ranged_port_text(*self),
    {
        let mut out = String::new();
        push_int(&mut out, self.value as i64);
        if let Some(r) = self.range {
            push_char(&mut out, '/');
            push_int(&mut out, r as i64);
        }
        assert(out@ =~= ranged_port_text(*self));
        out
    }
}

/// `m=<media> <port>/<number of ports> <proto> <fmt> ...`
#[derive(Debug, Clone, Default, PartialEq, Eq)]
pub struct MediaName {
    pub media: String,
    pub port: RangedPort,
    pub protos: Vec<String>,
    pub formats: Vec<String>,
}

pub struct MediaNameView {
    pub media: Seq<char>,
    pub port: RangedPort,
    pub protos: Seq<Seq<char>>,
    pub formats: Seq<Seq<char>>,
}

impl View for MediaName {
    type V = MediaNameView;

    open spec fn view(&self) -> MediaNameView {
        MediaNameView {
            media: self.media@,
            port: self.port,
            protos: strings_chars(self.protos@),
            formats: strings_chars(self.formats@),
        }
    }
}

/// Media, port, the protocols joined by `/`, the formats joined by spaces.
pub open spec fn media_name_text(m: MediaNameView) -> Seq<char> {
    m.media.push(' ') + ranged_port_text(m.port) + seq![' '] + join(m.protos, '/') + seq![' ']
        + join(m.formats, ' ')
}

impl MediaName {
    pub fn to_string(&self) -> (r: String)
        ensures
            r@ == media_name_text(self@),
    {
        let mut out = String::new();
        push_str(&mut out, &self.media);
        push_char(&mut out, ' ');
        let p = self.port.to_string();
        push_str(&mut out, &p);
        push_char(&mut out, ' ');
        push_joined(&mut out, &self.protos, '/');
        push_char(&mut out, ' ');
        push_joined(&mut out, &self.formats, ' ');
        assert(out@ =~= media_name_text(self@));
        out
    }
}

/// An `m=` line and the optional fields that follow it.
#[derive(Debug, Clone, Default, PartialEq, Eq)]
pub struct MediaDescription {
    pub media_name: MediaName,
    pub media_title: Option<String>,
    pub connection_information: Option<ConnectionInformation>,
    pub bandwidth: Vec<Bandwidth>,
    pub encryption_key: Option<String>,
    pub attributes: Vec<Attribute>,
}

pub struct MediaDescriptionView {
    pub media_name: MediaNameView,
    pub media_title: Option<Seq<char>>,
    pub connection_information: Option<ConnectionInformationView>,
    pub bandwidth: Seq<BandwidthView>,
    pub encryption_key: Option<Seq<char>>,
    pub attributes: Seq<AttributeView>,
}

impl View for MediaDescription {
    type V = MediaDescriptionView;

    open spec fn view(&self) -> MediaDescriptionView {
        MediaDescriptionView {
            media_name: self.media_name@,
            media_title: opt_chars(self.media_title),
            connection_information: match self.connection_information {
                Some(c) => Some(c@),
                None => None,
            },
            bandwidth: self.bandwidth@.map_values(|b: Bandwidth| b@),
            encryption_key: opt_chars(self.encryption_key),
            attributes: self.attributes@.map_values(|a: Attribute| a@),
        }
    }
}

} // verus!
