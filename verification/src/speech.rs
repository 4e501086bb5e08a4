//! How note names and intervals are spoken.

use vstd::prelude::*;
use vstd::string::*;

verus! {

/// How a note name is spoken: the flats in full, every other name as it is
/// written.
pub open spec fn pronunciation_of(note: Seq<char>) -> Seq<char> {
    if note == "Bb"@ {
        "B Flat"@
    } else if note == "Eb"@ {
        "E Flat"@
    } else if note == "Ab"@ {
        "A Flat"@
    } else {
        note
    }
}

/// The name of an interval of so many semitones.
pub open spec fn interval_name_of(interval: u8) -> Seq<char> {
    if interval == 0 {
        "unison"@
    } else if interval == 1 {
        "half step"@
    } else if interval == 2 {
        "whole step"@
    } else if interval == 3 {
        "minor third"@
    } else if interval == 4 {
        "major third"@
    } else if interval == 5 {
        "perfect fourth"@
    } else if interval == 6 {
        "tritone"@
    } else if interval == 7 {
        "tonic"@
    } else if interval == 8 {
        "minor sixth"@
    } else if interval == 9 {
        "major sixth"@
    } else if interval == 10 {
        "minor seventh"@
    } else if interval == 11 {
        "major seventh"@
    } else if interval == 12 {
        "octave"@
    } else {
        "unknown interval"@
    }
}

/// Whether two texts are the same, character by character.
pub fn same_text(a: &str, b: &str) -> (same: bool)
    ensures
        same == (a@ == b@),
{
    let len = a.unicode_len();
    if len != b.unicode_len() {
        return false;
    }
    let mut i: usize = 0;
    while i < len
        invariant
            i <= len,
            len == a@.len(),
            len == b@.len(),
            forall|j: int| 0 <= j < i ==> a@[j] == b@[j],
        decreases len - i,
    {
        if a.get_char(i) != b.get_char(i) {
            return false;
        }
        i += 1;
    }
    assert(a@ =~= b@);
    true
}

/// How a note name is spoken.
pub fn get_pronunciation<'a>(note: &'a str) -> (spoken: &'a str)
    ensures
        spoken@ == pronunciation_of(note@),
{
    if same_text(note, "Bb") {
        "B Flat"
    } else if same_text(note, "Eb") {
        "E Flat"
    } else if same_text(note, "Ab") {
        "A Flat"
    } else {
        note
    }
}

/// The name of an interval of so many semitones.
pub fn get_interval_name(interval: u8) -> (name: &'static str)
    ensures
        name@ == interval_name_of(interval),
{
    if interval == 0 {
        "unison"
    } else if interval == 1 {
        "half step"
    } else if interval == 2 {
        "whole step"
    } else if interval == 3 {
        "minor third"
    } else if interval == 4 {
        "major third"
    } else if interval == 5 {
        "perfect fourth"
    } else if interval == 6 {
        "tritone"
    } else if interval == 7 {
        "tonic"
    } else if interval == 8 {
        "minor sixth"
    } else if interval == 9 {
        "major sixth"
    } else if interval == 10 {
        "minor seventh"
    } else if interval == 11 {
        "major seventh"
    } else if interval == 12 {
        "octave"
    } else {
        "unknown interval"
    }
}

} // verus!
