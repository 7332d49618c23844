//! What is typed, and what is shown: which characters a field for letters
//! takes, and the text that lists the words found.

use vstd::prelude::*;
use vstd::string::*;
use crate::dictionary::{Dictionary, SetType, State};
use crate::rules::{Rules, text};

verus! {

/// Whether `ch` is one of the letters `a` to `z` or `A` to `Z`.
pub open spec fn ascii_letter(ch: char) -> bool {
    ('a' <= ch && ch <= 'z') || ('A' <= ch && ch <= 'Z')
}

/// The words one after the other, each followed by a line feed.
pub open spec fn listed(words: Seq<Seq<char>>) -> Seq<char>
    decreases words.len(),
{
    if words.len() == 0 {
        Seq::empty()
    } else {
        listed(words.drop_last()) + words.last() + seq!['\n']
    }
}

/// The letters `a` to `z` and `A` to `Z` that occur in `typed`.
pub open spec fn letters_of(typed: Seq<char>) -> Set<char> {
    Set::new(|c: char| typed.contains(c) && ascii_letter(c))
}

/// The state after a field for letters was left with `typed` in it: the set
/// of the field holds the letters typed and no others, and the other set
/// has lost them.
pub open spec fn committed(state: State, set_type: SetType, typed: Seq<char>) -> State {
    match set_type {
        SetType::Excluded => State {
            rules: Rules {
                excluded: letters_of(typed),
                included: state.rules.included.difference(letters_of(typed)),
                ..state.rules
            },
            ..state
        },
        SetType::Included => State {
            rules: Rules {
                excluded: state.rules.excluded.difference(letters_of(typed)),
                included: letters_of(typed),
                ..state.rules
            },
            ..state
        },
    }
}

/// The state after `deleted` was taken out of a field for letters: its
/// characters have left the set of the field, and the words found last are
/// put aside, unless nothing was deleted.
pub open spec fn struck(state: State, set_type: SetType, deleted: Seq<char>) -> State {
    if deleted.len() == 0 {
        state
    } else {
        match set_type {
            SetType::Excluded => State {
                rules: Rules {
                    excluded: state.rules.excluded.difference(deleted.to_set()),
                    ..state.rules
                },
                cache: None,
                ..state
            },
            SetType::Included => State {
                rules: Rules {
                    included: state.rules.included.difference(deleted.to_set()),
                    ..state.rules
                },
                cache: None,
                ..state
            },
        }
    }
}

/// Whether `ch` is one of the letters `a` to `z` or `A` to `Z`.
pub fn is_ascii_letter(ch: char) -> (letter: bool)
    ensures
        letter == ascii_letter(ch),
{
    ('a' <= ch && ch <= 'z') || ('A' <= ch && ch <= 'Z')
}

/// Whether a field for letters refuses `ch`: it takes letters, and the comma
/// and the blank that may stand between them.
pub fn is_non_include_character(ch: char) -> (refused: bool)
    ensures
        refused == !(ascii_letter(ch) || ch == ',' || ch == ' '),
{
    !(is_ascii_letter(ch) || ch == ',' || ch == ' ')
}

/// Takes over what stands in a field for letters when the field is left:
/// the set is emptied and then filled with the letters of `typed`; what else
/// stands there (commas, blanks) is passed over.
pub fn commit_letters(dictionary: &mut Dictionary, set_type: SetType, typed: &str)
    requires
        old(dictionary).wf(),
    ensures
        final(dictionary).wf(),
        final(dictionary)@ == committed(old(dictionary)@, set_type, typed@),
{
    dictionary.clear_set(set_type);
    let length = typed.unicode_len();
    let mut at: usize = 0;
    proof {
        assert(typed@.subrange(0, 0) =~= Seq::<char>::empty());
        assert(letters_of(Seq::<char>::empty()) =~= Set::<char>::empty());
        let start = committed(old(dictionary)@, set_type, Seq::<char>::empty());
        assert(start.rules.excluded =~= dictionary@.rules.excluded);
        assert(start.rules.included =~= dictionary@.rules.included);
    }
    while at < length
        invariant
            length == typed@.len(),
            at <= length,
            dictionary.wf(),
            dictionary@ == committed(old(dictionary)@, set_type, typed@.subrange(0, at as int)),
        decreases length - at,
    {
        let ch = typed.get_char(at);
        let ghost before = dictionary@;
        let ghost prefix = typed@.subrange(0, at as int);
        let ghost next = typed@.subrange(0, at + 1);
        proof {
            assert(next =~= prefix.push(ch));
            assert forall|c: char| #[trigger] next.contains(c) <==> prefix.contains(c) || c == ch by {
                if prefix.contains(c) {
                    let i = choose|i: int| 0 <= i < prefix.len() && prefix[i] == c;
                    assert(next[i] == c);
                }
                if c == ch {
                    assert(next[at as int] == c);
                }
                if next.contains(c) {
                    let i = choose|i: int| 0 <= i < next.len() && next[i] == c;
                    if i < at {
                        assert(prefix[i] == c);
                    }
                }
            }
        }
        if is_ascii_letter(ch) {
            dictionary.add_char(set_type, ch);
            proof {
                assert(letters_of(next) =~= letters_of(prefix).insert(ch));
                let goal = committed(old(dictionary)@, set_type, next);
                assert(goal.rules.excluded =~= dictionary@.rules.excluded);
                assert(goal.rules.included =~= dictionary@.rules.included);
            }
        } else {
            proof {
                assert(letters_of(next) =~= letters_of(prefix));
            }
        }
        at += 1;
    }
    assert(typed@.subrange(0, at as int) =~= typed@);
}

/// Takes the characters of `deleted`, which were struck from a field for
/// letters, out of the set of that field.
pub fn delete_letters(dictionary: &mut Dictionary, set_type: SetType, deleted: &str)
    requires
        old(dictionary).wf(),
    ensures
        final(dictionary).wf(),
        final(dictionary)@ == struck(old(dictionary)@, set_type, deleted@),
{
    let length = deleted.unicode_len();
    let mut at: usize = 0;
    proof {
        assert(deleted@.subrange(0, 0) =~= Seq::<char>::empty());
    }
    while at < length
        invariant
            length == deleted@.len(),
            at <= length,
            dictionary.wf(),
            dictionary@ == struck(old(dictionary)@, set_type, deleted@.subrange(0, at as int)),
        decreases length - at,
    {
        let ch = deleted.get_char(at);
        let ghost prefix = deleted@.subrange(0, at as int);
        let ghost next = deleted@.subrange(0, at + 1);
        proof {
            assert(next =~= prefix.push(ch));
            assert forall|c: char| #[trigger] next.contains(c) <==> prefix.contains(c) || c == ch by {
                if prefix.contains(c) {
                    let i = choose|i: int| 0 <= i < prefix.len() && prefix[i] == c;
                    assert(next[i] == c);
                }
                if c == ch {
                    assert(next[at as int] == c);
                }
                if next.contains(c) {
                    let i = choose|i: int| 0 <= i < next.len() && next[i] == c;
                    if i < at {
                        assert(prefix[i] == c);
                    }
                }
            }
            assert(next.to_set() =~= prefix.to_set().insert(ch));
            if at == 0 {
                assert(prefix.to_set() =~= Set::<char>::empty());
            }
        }
        dictionary.remove_char(set_type, ch);
        proof {
            let goal = struck(old(dictionary)@, set_type, next);
            assert(goal.rules.excluded =~= dictionary@.rules.excluded);
            assert(goal.rules.included =~= dictionary@.rules.included);
        }
        at += 1;
    }
    assert(deleted@.subrange(0, at as int) =~= deleted@);
}

/// The text that shows the words found: one word on each line.
pub fn display_results(found: &Vec<String>) -> (shown: String)
    ensures
        shown@ == listed(text(found@)),
{
    let mut shown = String::new();
    let mut at: usize = 0;
    assert(text(found@).subrange(0, 0) =~= Seq::empty());
    while at < found.len()
        invariant
            at <= found@.len(),
            shown@ == listed(text(found@).subrange(0, at as int)),
        decreases found@.len() - at,
    {
        proof {
            let prefix = text(found@).subrange(0, at as int);
            let next = text(found@).subrange(0, at + 1);
            assert(next.drop_last() =~= prefix);
            assert(next.last() == found@[at as int]@);
            reveal_strlit("\n");
            assert("\n"@ =~= seq!['\n']);
        }
        shown.append(found[at].as_str());
        shown.append("\n");
        at += 1;
    }
    assert(text(found@).subrange(0, at as int) =~= text(found@));
    shown
}

} // verus!
