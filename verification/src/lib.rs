//! What-to-play-next: scans a music library's tags and prints, sorted,
//! the tracks that pass the user's date and genre filters.
//!
//! The library holds the verified logic: option parsing, the date-bucket
//! rewrite, the filter chain, and lexicographic sorting of the result
//! lines. Reading the filesystem and the audio tags is left to the
//! program around it, which hands the library plain strings.
use vstd::prelude::*;

pub mod date;
pub mod filter;
pub mod opts;
pub mod sort;
pub mod text;

verus! {

/// The glob pattern for candidate files, rooted at the given home directory.
pub fn music_pattern(home: &str) -> (r: String)
    ensures
        r@ == home@ + "/music/*/*/01-*"@,
{
    let mut s = home.to_owned();
    s.append("/music/*/*/01-*");
    s
}

} // verus!
