//! From the lines of a word list to the words of one length.

use vstd::prelude::*;
use vstd::string::*;
use crate::error::{Error, ErrorKind};
use crate::rules::text;

verus! {

/// The lower-case form that `str::to_lowercase` gives for a text.
pub uninterp spec fn lowercase_of(line: Seq<char>) -> Seq<char>;

/// Calls `str::to_lowercase`: the result is the lower-case form of `line` by
/// Unicode's tables, which depends on nothing but `line`. Nothing is claimed
/// of its letters or its length.
#[verifier::external_body]
fn to_lowercase(line: &str) -> (lowered: String)
    ensures
        lowered@ == lowercase_of(line@),
{
    line.to_lowercase()
}

/// The word that a line gives, if it gives one: its lower-case form
/// `lowered`, where both the line and that form have `length` letters.
pub open spec fn admitted(line: Seq<char>, lowered: Seq<char>, length: nat) -> Option<Seq<char>> {
    if line.len() == length && lowered.len() == length {
        Some(lowered)
    } else {
        None
    }
}

/// The words that a list of lines gives, in the order of the lines.
pub open spec fn selected(lines: Seq<Seq<char>>, length: nat) -> Seq<Seq<char>>
    decreases lines.len(),
{
    if lines.len() == 0 {
        Seq::empty()
    } else {
        match admitted(lines.last(), lowercase_of(lines.last()), length) {
            Some(word) => selected(lines.drop_last(), length).push(word),
            None => selected(lines.drop_last(), length),
        }
    }
}

/// Whether `at` is the first place that is present.
pub open spec fn first_present(present: Seq<bool>, at: int) -> bool {
    &&& 0 <= at < present.len()
    &&& present[at]
    &&& forall|i: int| 0 <= i < at ==> !present[i]
}

/// Decides on one line: `lowered` is its lower-case form. The line gives a
/// word where it has `length` letters and its lower-case form has as many.
pub fn admit_word(line: &str, lowered: String, length: usize) -> (word: Option<String>)
    ensures
        match word {
            Some(kept) => admitted(line@, lowered@, length as nat) == Some(kept@),
            None => admitted(line@, lowered@, length as nat) is None,
        },
{
    if line.unicode_len() == length && lowered.as_str().unicode_len() == length {
        Some(lowered)
    } else {
        None
    }
}

/// The words of `length` letters among `lines`, in lower case and in the
/// order of the lines; every other line is passed over.
pub fn read_words(lines: &Vec<String>, length: usize) -> (words: Vec<String>)
    ensures
        text(words@) == selected(text(lines@), length as nat),
        forall|i: int| 0 <= i < words@.len() ==> (#[trigger] words@[i])@.len() == length,
{
    let mut words: Vec<String> = Vec::new();
    let mut at: usize = 0;
    assert(text(words@) =~= Seq::empty());
    assert(text(lines@).subrange(0, 0) =~= Seq::empty());
    while at < lines.len()
        invariant
            at <= lines@.len(),
            text(words@) == selected(text(lines@).subrange(0, at as int), length as nat),
            forall|i: int| 0 <= i < words@.len() ==> (#[trigger] words@[i])@.len() == length,
        decreases lines@.len() - at,
    {
        let line = lines[at].as_str();
        let ghost before = words@;
        let ghost prefix = text(lines@).subrange(0, at as int);
        proof {
            assert(text(lines@).subrange(0, at + 1) =~= prefix.push(line@));
            assert(prefix.push(line@).drop_last() =~= prefix);
        }
        if line.unicode_len() == length {
            match admit_word(line, to_lowercase(line), length) {
                Some(word) => {
                    words.push(word);
                    assert(text(words@) =~= text(before).push(word@));
                },
                None => {},
            }
        }
        at += 1;
    }
    assert(text(lines@).subrange(0, at as int) =~= text(lines@));
    words
}

/// Picks the word list to read: `present[i]` says whether the `i`-th place
/// holds one, and the first that does is taken. With none, the failure is
/// `NotFound`.
pub fn find_dictionary(present: &Vec<bool>) -> (found: Result<usize, Error>)
    ensures
        match found {
            Ok(at) => first_present(present@, at as int),
            Err(error) => {
                &&& forall|i: int| 0 <= i < present@.len() ==> !present@[i]
                &&& error.spec_kind() == ErrorKind::NotFound
                &&& error.spec_msg() == "Unable to find a word database."@
                &&& error.spec_source() == None::<Seq<char>>
            },
        },
{
    let mut at: usize = 0;
    while at < present.len()
        invariant
            at <= present@.len(),
            forall|i: int| 0 <= i < at ==> !present@[i],
        decreases present@.len() - at,
    {
        if present[at] {
            return Ok(at);
        }
        at += 1;
    }
    Err(Error::new("Unable to find a word database."))
}

} // verus!
