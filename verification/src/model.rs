//! The data model the pipeline works over: principals with their opaque data
//! entries, calendar resources, archived event records, and the error
//! taxonomy of the share-link feed.

use vstd::prelude::*;

verus! {

/// The kind tag of a directory principal. Only individual principals
/// carry calendar share links; every other kind is skipped by resolution.
#[derive(Clone, Copy, PartialEq, Eq, Structural, Debug)]
pub enum PrincipalKind {
    Individual,
    Other,
}

/// One opaque data entry attached to a principal. A share link is one kind
/// of entry; everything else the directory stores alongside it is opaque to
/// this crate.
#[derive(Clone, PartialEq, Eq, Debug)]
pub enum PrincipalData {
    CalendarShareLink(String),
    Other(String),
}

/// A directory principal: a stable numeric identity, a kind tag, and an
/// ordered collection of data entries.
#[derive(Clone, Debug)]
pub struct Principal {
    pub id: u32,
    pub kind: PrincipalKind,
    pub data: Vec<PrincipalData>,
}

/// One entry of an account's calendar resource listing: either a container
/// (a calendar) or a leaf (an event belonging to the calendar identified by
/// `collection_id`). `document_id` keys the archived record of a leaf.
#[derive(Clone, Copy, PartialEq, Eq, Structural, Debug)]
pub struct Resource {
    pub document_id: u32,
    pub collection_id: u32,
    pub is_container: bool,
}

/// One archived event record of an account's event collection. `body` holds
/// the decoded interchange text of the event; `None` stands for an archive
/// that does not decode, which the export skips.
#[derive(Clone, PartialEq, Eq, Debug)]
pub struct EventRecord {
    pub document_id: u32,
    pub body: Option<String>,
}

/// Why resolution failed. A bearer secret that no stored token verifies
/// yields `NotFound`, whatever the stage that ruled it out; collaborator
/// failures at the storage boundary are reported as `Storage`.
#[derive(Clone, Copy, PartialEq, Eq, Structural, Debug)]
pub enum ShareError {
    NotFound,
    Storage,
}

impl ShareError {
    /// The fixed human-readable detail of the failure. `NotFound` carries
    /// one constant message for every cause, so a caller cannot tell a
    /// missing link from a failed hash verification.
    pub fn detail(&self) -> (r: &'static str)
        ensures
            (match *self {
                ShareError::NotFound => r@ == "Calendar share link not found"@,
                ShareError::Storage => r@ == "Storage operation failed"@,
            }),
    {
        match *self {
            ShareError::NotFound => "Calendar share link not found",
            ShareError::Storage => "Storage operation failed",
        }
    }
}

} // verus!
