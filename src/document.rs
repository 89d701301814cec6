//! A whole session description.

use crate::media::{MediaDescription, MediaDescriptionView};
use crate::session::{empty_session, Session, SessionView};
use crate::time::{TimeDescription, TimeDescriptionView};
use vstd::prelude::*;

verus! {

/// A session, its time descriptions and its media descriptions, each list in
/// the order of the text it was read from.
#[derive(Debug, Clone, Default, PartialEq, Eq)]
pub struct SDP {
    pub session: Session,
    pub time_descriptions: Vec<TimeDescription>,
    pub media_descriptions: Vec<MediaDescription>,
}

pub struct SdpView {
    pub session: SessionView,
    pub time_descriptions: Seq<TimeDescriptionView>,
    pub media_descriptions: Seq<MediaDescriptionView>,
}

impl View for SDP {
    type V = SdpView;

    open spec fn view(&self) -> SdpView {
        SdpView {
            session: self.session@,
            time_descriptions: self.time_descriptions@.map_values(|t: TimeDescription| t@),
            media_descriptions: self.media_descriptions@.map_values(|m: MediaDescription| m@),
        }
    }
}

pub open spec fn empty_sdp() -> SdpView {
    SdpView { session: empty_session(), time_descriptions: seq![], media_descriptions: seq![] }
}

impl SDP {
    /// A description with nothing read yet.
    pub fn new() -> (r: SDP)
        ensures
            r@ == empty_sdp(),
    {
        let r = SDP {
            session: Session::new(),
            time_descriptions: Vec::new(),
            media_descriptions: Vec::new(),
        };
        assert(r@.time_descriptions =~= seq![]);
        assert(r@.media_descriptions =~= seq![]);
        r
    }
}

} // verus!
