//! Shared-calendar feed resolution and export.
//!
//! A calendar owner can publish a share link whose bearer secret grants
//! read-only access to one calendar's event feed. This crate holds the
//! verified core of that pipeline:
//!
//! * [`codec`] — the compact `$cal$<meta>$<hash>` token format that embeds a
//!   calendar identifier and a secret-verification hash in a principal's data;
//! * [`scanner`] — resolving a hashed bearer secret to an `(account,
//!   calendar)` pair by scanning principal data entries for a verifying token;
//! * [`resolver`] — filtering an account's resource listing down to the leaf
//!   events of the target calendar;
//! * [`ical`] — rendering the matched events into a single calendar
//!   interchange document framed by `BEGIN:VCALENDAR` / `END:VCALENDAR`.
//!
//! Directory and store access is the caller's business: the caller hands in
//! snapshots of the principal listing, the resource listing and the archived
//! event records as plain values, and this crate makes every decision about
//! them under contract.

pub mod codec;
pub mod ical;
pub mod model;
pub mod resolver;
pub mod scanner;
pub mod text;
