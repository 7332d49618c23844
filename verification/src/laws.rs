//! What holds of every dictionary, whatever was done to it.

use vstd::prelude::*;
use crate::dictionary::{SetType, State};
use crate::rules::{Rules, WILDCARD, keep, lemma_keep_complete, lemma_keep_narrowed, lemma_keep_sound, lemma_keep_twice, lemma_keep_whole};

verus! {

/// The set that `set_type` does not name.
pub open spec fn other_set(rules: Rules, set_type: SetType) -> Set<char> {
    match set_type {
        SetType::Excluded => rules.included,
        SetType::Included => rules.excluded,
    }
}

/// Whether every word of `part` is a word of `whole`.
pub open spec fn within(part: Seq<Seq<char>>, whole: Seq<Seq<char>>) -> bool {
    forall|i: int| 0 <= i < part.len() ==> whole.contains(#[trigger] part[i])
}

/// A letter is never in both sets: included and then excluded, it is
/// excluded and not included; excluded and then included, the reverse.
pub proof fn lemma_sets_exclude_each_other(state: State, ch: char)
    ensures
        state.add_char(SetType::Included, ch).add_char(SetType::Excluded, ch).rules.excluded.contains(ch),
        !state.add_char(SetType::Included, ch).add_char(SetType::Excluded, ch).rules.included.contains(ch),
        state.add_char(SetType::Excluded, ch).add_char(SetType::Included, ch).rules.included.contains(ch),
        !state.add_char(SetType::Excluded, ch).add_char(SetType::Included, ch).rules.excluded.contains(ch),
{
}

/// Every change keeps the two sets apart and the words as long as the
/// positions are many.
pub proof fn lemma_changes_keep_wf(state: State, set_type: SetType, pos: int, ch: char)
    requires
        state.wf(),
    ensures
        state.reset().wf(),
        state.add_char(set_type, ch).wf(),
        state.remove_char(set_type, ch).wf(),
        state.clear_set(set_type).wf(),
        state.in_range(pos) ==> state.set_char_position(pos, ch).wf(),
        state.after_matches().wf(),
{
    lemma_matches_exact(state);
}

/// A letter that is written at a position is in neither set afterwards. The
/// wildcard is no letter: written at a position it leaves the sets as they are,
/// so the law speaks of it only where no set holds it.
pub proof fn lemma_fixed_letter_leaves_sets(state: State, pos: int, ch: char)
    requires
        state.in_range(pos),
        ch == WILDCARD ==> !state.rules.excluded.contains(ch) && !state.rules.included.contains(ch),
    ensures
        !state.set_char_position(pos, ch).rules.excluded.contains(ch),
        !state.set_char_position(pos, ch).rules.included.contains(ch),
        state.set_char_position(pos, ch).rules.positions[pos - 1] == ch,
{
}

/// A second search with nothing changed in between finds what the first
/// found, and leaves the dictionary as the first left it.
pub proof fn lemma_matches_idempotent(state: State)
    ensures
        state.after_matches().matched() == state.matched(),
        state.after_matches().after_matches() == state.after_matches(),
        state.after_matches().settled(),
{
    lemma_keep_twice(state.pool(), state.rules);
}

/// A search finds the words that it goes through and that the rules accept,
/// and no others; all of them are words of the list.
pub proof fn lemma_matches_exact(state: State)
    ensures
        forall|word: Seq<char>| #[trigger]
            state.matched().contains(word) <==> state.pool().contains(word) && state.rules.accepts(word),
        state.matched().len() <= state.pool().len(),
        state.wf() ==> within(state.matched(), state.words),
{
    let pool = state.pool();
    let found = state.matched();
    lemma_keep_sound(pool, state.rules);
    lemma_keep_complete(pool, state.rules);
    assert forall|word: Seq<char>| #[trigger] found.contains(word) <==> pool.contains(word) && state.rules.accepts(
        word,
    ) by {
        if found.contains(word) {
            let i = choose|i: int| 0 <= i < found.len() && found[i] == word;
            assert(state.rules.accepts(found[i]) && pool.contains(found[i]));
        }
        if pool.contains(word) && state.rules.accepts(word) {
            let i = choose|i: int| 0 <= i < pool.len() && pool[i] == word;
            assert(found.contains(pool[i]));
        }
    }
    if state.wf() {
        state.lemma_pool_of_words();
        assert forall|i: int| 0 <= i < found.len() implies state.words.contains(#[trigger] found[i]) by {
            assert(pool.contains(found[i]));
            let k = choose|k: int| 0 <= k < pool.len() && pool[k] == found[i];
            assert(state.words.contains(pool[k]));
        }
    }
}

/// Whether to add `ch` to the set `set_type` can only tighten the rules: the
/// letter is not in the other set, which it would leave.
pub open spec fn add_tightens(state: State, set_type: SetType, ch: char) -> bool {
    !other_set(state.rules, set_type).contains(ch)
}

/// Whether to write `ch` at `pos` can only tighten the rules: the letter is
/// not excluded, and the position was unknown or held that letter.
pub open spec fn position_tightens(state: State, pos: int, ch: char) -> bool {
    &&& !state.rules.excluded.contains(ch)
    &&& state.rules.positions[pos - 1] == WILDCARD || state.rules.positions[pos - 1] == ch
}

/// After a letter was added to a set, a search finds no word that it would
/// not have found before, but for one case: a letter that was in the other
/// set has left it, and a search then finds either nothing or words that it
/// would not have found. Where a search was made since the last change, and
/// where the letter was not in the other set, it finds exactly what the new
/// rules keep of the words that it would have found.
pub proof fn lemma_add_char_narrows(state: State, set_type: SetType, ch: char)
    ensures
        within(state.add_char(set_type, ch).matched(), state.matched()) <==> add_tightens(
            state,
            set_type,
            ch,
        ) || state.add_char(set_type, ch).matched().len() == 0,
        state.settled() ==> within(state.add_char(set_type, ch).matched(), state.matched()),
        state.settled() || add_tightens(state, set_type, ch) ==> state.add_char(
            set_type,
            ch,
        ).matched() == keep(state.matched(), state.add_char(set_type, ch).rules),
{
    let after = state.add_char(set_type, ch);
    lemma_keep_sound(state.pool(), state.rules);
    lemma_keep_sound(state.pool(), after.rules);
    lemma_keep_sound(state.matched(), after.rules);
    if add_tightens(state, set_type, ch) {
        match set_type {
            SetType::Excluded => {
                assert(after.rules.included =~= state.rules.included);
            },
            SetType::Included => {
                assert(after.rules.excluded =~= state.rules.excluded);
            },
        }
        assert(after.rules.narrows(state.rules, state.pool()));
        lemma_keep_narrowed(state.pool(), state.rules, after.rules);
    } else if after.matched().len() > 0 {
        let word = after.matched()[0];
        assert(after.rules.accepts(word));
        if state.matched().contains(word) {
            let k = choose|k: int| 0 <= k < state.matched().len() && state.matched()[k] == word;
            assert(state.rules.accepts(state.matched()[k]));
            match set_type {
                SetType::Excluded => {
                    assert(state.rules.included.contains(ch));
                    assert(word.contains(ch));
                    assert(after.rules.excluded.contains(ch));
                },
                SetType::Included => {
                    assert(after.rules.included.contains(ch));
                    assert(word.contains(ch));
                    assert(state.rules.excluded.contains(ch));
                },
            }
            assert(false);
        }
        if state.settled() {
            assert(after.pool() == state.matched());
        }
    }
}

/// After a letter was written at a position, a search finds no word that it
/// would not have found before, but for two cases: the letter was excluded,
/// or another letter stood at the position; a search then finds either
/// nothing or words that it would not have found. Where a search was made
/// since the last change, and in neither of the two cases, it finds exactly
/// what the new rules keep of the words that it would have found.
pub proof fn lemma_set_char_position_narrows(state: State, pos: int, ch: char)
    requires
        state.in_range(pos),
        ch != WILDCARD,
    ensures
        within(state.set_char_position(pos, ch).matched(), state.matched()) <==> position_tightens(
            state,
            pos,
            ch,
        ) || state.set_char_position(pos, ch).matched().len() == 0,
        state.settled() ==> within(state.set_char_position(pos, ch).matched(), state.matched()),
        state.settled() || position_tightens(state, pos, ch) ==> state.set_char_position(
            pos,
            ch,
        ).matched() == keep(state.matched(), state.set_char_position(pos, ch).rules),
{
    let after = state.set_char_position(pos, ch);
    lemma_keep_sound(state.pool(), state.rules);
    lemma_keep_sound(state.pool(), after.rules);
    lemma_keep_sound(state.matched(), after.rules);
    assert(after.rules.positions[pos - 1] == ch);
    if position_tightens(state, pos, ch) {
        assert(after.rules.excluded =~= state.rules.excluded);
        assert forall|i: int| 0 <= i < state.pool().len() && after.rules.accepts(
            #[trigger] state.pool()[i],
        ) implies state.rules.accepts(state.pool()[i]) by {
            let word = state.pool()[i];
            assert(word[pos - 1] == ch);
            assert(word.contains(ch));
            assert forall|k: int| 0 <= k < state.rules.positions.len() implies #[trigger] state.rules.positions[k]
                == WILDCARD || (k < word.len() && word[k] == state.rules.positions[k]) by {
                if k != pos - 1 {
                    assert(after.rules.positions[k] == state.rules.positions[k]);
                }
            }
            assert forall|c: char| state.rules.included.contains(c) implies #[trigger] word.contains(c) by {
                if c != ch {
                    assert(after.rules.included.contains(c));
                }
            }
        }
        lemma_keep_narrowed(state.pool(), state.rules, after.rules);
    } else if after.matched().len() > 0 {
        let word = after.matched()[0];
        assert(after.rules.accepts(word));
        assert(word[pos - 1] == ch);
        if state.matched().contains(word) {
            let k = choose|k: int| 0 <= k < state.matched().len() && state.matched()[k] == word;
            assert(state.rules.accepts(state.matched()[k]));
            if state.rules.excluded.contains(ch) {
                assert(word.contains(ch));
            } else {
                assert(state.rules.positions[pos - 1] == WILDCARD || word[pos - 1]
                    == state.rules.positions[pos - 1]);
            }
            assert(false);
        }
        if state.settled() {
            assert(after.pool() == state.matched());
        }
    }
}

/// After `reset` both sets are empty, every position is unknown, and a
/// search finds the whole word list in its order.
pub proof fn lemma_reset_restores(state: State)
    ensures
        state.reset() == State::fresh(state.words, state.rules.positions.len()),
        state.reset().rules.excluded == Set::<char>::empty(),
        state.reset().rules.included == Set::<char>::empty(),
        state.reset().matched() == state.words,
        state.reset().reset() == state.reset(),
{
    let blank = state.reset().rules;
    assert forall|i: int| 0 <= i < state.words.len() implies blank.accepts(#[trigger] state.words[i]) by {
        let word = state.words[i];
        assert(!crate::rules::hits_excluded(word, blank.excluded));
        assert(crate::rules::has_included(word, blank.included));
        assert(crate::rules::fits_positions(word, blank.positions));
    }
    lemma_keep_whole(state.words, blank);
    assert(state.reset().rules.positions.len() == state.rules.positions.len());
}

} // verus!
