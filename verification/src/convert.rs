//! The picture converter: which files it takes, and what it is to do with
//! each.

use crate::text::{append_chars, chars_of, same_text, string_of};
use vstd::prelude::*;

verus! {

/// The ending of a file name that marks a picture to convert, in upper or
/// in lower case, but not mixed.
pub open spec fn is_picture_ending(ending: Seq<char>) -> bool {
    ||| ending == "NEF"@
    ||| ending == "nef"@
    ||| ending == "JPG"@
    ||| ending == "jpg"@
    ||| ending == "JPEG"@
    ||| ending == "jpeg"@
}

/// Whether a file with this ending is a picture to convert.
pub fn is_picture_extension(ending: &str) -> (r: bool)
    ensures
        r == is_picture_ending(ending@),
{
    same_text(ending, "NEF") || same_text(ending, "nef") || same_text(ending, "JPG") || same_text(
        ending,
        "jpg",
    ) || same_text(ending, "JPEG") || same_text(ending, "jpeg")
}

/// What to do with one picture.
pub enum ImagePlan {
    /// The file has no name that can be read: it cannot be converted.
    InvalidName,
    /// The converted file is there already: there is nothing to do.
    Skip,
    /// Convert the picture into a file of this name.
    Convert(String),
}

/// The name of the converted file: the stem with `.webp` behind it.
pub open spec fn webp_name(stem: Seq<char>) -> Seq<char> {
    stem + ".webp"@
}

/// The name of the converted file.
pub fn webp_file_name(stem: &str) -> (name: String)
    ensures
        name@ == webp_name(stem@),
{
    let mut chars = chars_of(stem);
    let ending = chars_of(".webp");
    append_chars(&mut chars, ending.as_slice());
    string_of(chars.as_slice())
}

/// The view of an optional string.
pub open spec fn stem_text(stem: Option<&str>) -> Option<Seq<char>> {
    match stem {
        Some(s) => Some(s@),
        None => None,
    }
}

/// Decides what to do with one picture, given the stem of its file name
/// and whether the converted file is there already.
pub fn process_single_image(stem: Option<&str>, converted_exists: bool) -> (plan: ImagePlan)
    ensures
        stem is None ==> plan is InvalidName,
        stem is Some && converted_exists ==> plan is Skip,
        stem is Some && !converted_exists ==> (plan matches ImagePlan::Convert(name) && name@
            == webp_name(stem->0@)),
{
    match stem {
        None => ImagePlan::InvalidName,
        Some(s) => {
            if converted_exists {
                ImagePlan::Skip
            } else {
                ImagePlan::Convert(webp_file_name(s))
            }
        },
    }
}

/// How many of the outcomes are successes.
pub open spec fn successes(outcomes: Seq<bool>) -> nat
    decreases outcomes.len(),
{
    if outcomes.len() == 0 {
        0
    } else {
        successes(outcomes.drop_last()) + if outcomes.last() {
            1nat
        } else {
            0nat
        }
    }
}

/// How a run went: how many pictures were converted and how many failed.
pub struct RunReport {
    pub converted: usize,
    pub failed: usize,
}

/// Counts the outcomes of a run.
pub fn count_outcomes(outcomes: &Vec<bool>) -> (report: RunReport)
    ensures
        report.converted == successes(outcomes@),
        report.converted + report.failed == outcomes.len(),
{
    let mut converted: usize = 0;
    let mut i: usize = 0;
    proof {
        assert(outcomes@.subrange(0, 0) =~= Seq::<bool>::empty());
    }
    while i < outcomes.len()
        invariant
            i <= outcomes.len(),
            converted <= i,
            converted == successes(outcomes@.subrange(0, i as int)),
        decreases outcomes.len() - i,
    {
        proof {
            let seen = outcomes@.subrange(0, i + 1);
            assert(seen.drop_last() =~= outcomes@.subrange(0, i as int));
            assert(seen.last() == outcomes@[i as int]);
        }
        if outcomes[i] {
            converted += 1;
        }
        i += 1;
    }
    proof {
        assert(outcomes@.subrange(0, outcomes.len() as int) =~= outcomes@);
    }
    RunReport { converted, failed: outcomes.len() - converted }
}

} // verus!
