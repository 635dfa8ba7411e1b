//! Decision logic of a self-hosted caching edge for dance videos.
//!
//! Clients ask for a song by number. The edge serves it from a cache on
//! disk, behind a short-lived signed token, or fetches it from an upstream
//! while keeping a copy. This crate holds the rules of that service as
//! functions on plain values; reading files and sockets is left to the
//! program around it.

use vstd::prelude::*;

pub mod cdn;
pub mod digest;
pub mod forward;
pub mod http;
pub mod index;
pub mod rtsp;
pub mod text;
pub mod types;
pub mod wanna;

verus! {

/// The version that this gateway reports of itself.
pub const MY_VERSION_ID: u32 = 1;

/// The short name of the revision this program was built from: the first
/// eight characters of the full revision id, or `0` where none is known.
pub fn my_git_hash(revision: Option<&str>) -> (short: String)
    requires
        revision matches Some(full) ==> full@.len() >= 8,
    ensures
        short@ == match revision {
            Some(full) => full@.subrange(0, 8),
            None => seq!['0'],
        },
{
    match revision {
        Some(full) => {
            let head = full.substring_char(0, 8);
            crate::text::string_of(crate::text::chars_of(head).as_slice())
        },
        None => {
            let mut zero: Vec<char> = Vec::new();
            zero.push('0');
            crate::text::string_of(zero.as_slice())
        },
    }
}

} // verus!
