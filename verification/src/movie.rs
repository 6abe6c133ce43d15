//! Movie vocabulary: which paths are movies, and decode errors.

use vstd::prelude::*;
use crate::text::{ends_with_spec, lower_seq, trim_spec};

verus! {

/// Whether a path names a movie: after trimming whitespace and ASCII
/// lowercasing, it ends in `.webm` or `.mp4`.
pub open spec fn is_movie_spec(path: Seq<char>) -> bool {
    let l = lower_seq(trim_spec(path));
    ends_with_spec(l, ".webm"@) || ends_with_spec(l, ".mp4"@)
}

/// Whether a Scene / Show path is a movie (`.webm` / `.mp4`, any ASCII
/// case, surrounding whitespace ignored).
pub fn path_is_movie(path: &str) -> (r: bool)
    ensures
        r == is_movie_spec(path@),
{
    let cs = crate::text::chars_of(path);
    let t = crate::text::trim_chars(cs.as_slice());
    let l = crate::text::lower_chars(t.as_slice());
    let webm = crate::text::chars_of(".webm");
    let mp4 = crate::text::chars_of(".mp4");
    crate::text::ends_with(l.as_slice(), webm.as_slice()) || crate::text::ends_with(
        l.as_slice(),
        mp4.as_slice(),
    )
}

/// Failed to probe or decode a movie.
#[derive(Debug, PartialEq, Eq)]
pub enum MovieError {
    /// File is missing.
    NotFound(String),
    /// The prober failed to describe the stream.
    Probe {
        /// Movie path.
        path: String,
        /// Prober output / parse error.
        detail: String,
    },
    /// The decoder failed to spawn or exited early.
    Decode {
        /// Movie path.
        path: String,
        /// Spawn / IO error.
        detail: String,
    },
}

} // verus!
