//! The rules that a word is held against, as mathematics: which words a set
//! of rules accepts, and what is left of a list of words once the rules have
//! been applied to it.

use vstd::prelude::*;

verus! {

/// The letter that stands at a position of which nothing is known.
pub const WILDCARD: char = '.';

/// What is known of the word that is sought.
pub struct Rules {
    /// Letters that occur nowhere in it.
    pub excluded: Set<char>,
    /// Letters that occur somewhere in it.
    pub included: Set<char>,
    /// For each position the letter that stands there, or `WILDCARD`.
    pub positions: Seq<char>,
}

/// The views of a list of words, in its order.
pub open spec fn text(words: Seq<String>) -> Seq<Seq<char>> {
    Seq::new(words.len(), |i: int| words[i]@)
}

/// Whether `word` holds one of the letters of `excluded`.
pub open spec fn hits_excluded(word: Seq<char>, excluded: Set<char>) -> bool {
    exists|c: char| excluded.contains(c) && #[trigger] word.contains(c)
}

/// Whether `word` holds every letter of `included`, wherever and however often.
pub open spec fn has_included(word: Seq<char>, included: Set<char>) -> bool {
    forall|c: char| included.contains(c) ==> #[trigger] word.contains(c)
}

/// Whether `word` has, at each position that is known, the letter known there.
pub open spec fn fits_positions(word: Seq<char>, positions: Seq<char>) -> bool {
    forall|i: int|
        0 <= i < positions.len() ==> #[trigger] positions[i] == WILDCARD || (i < word.len()
            && word[i] == positions[i])
}

impl Rules {
    /// No letter excluded, none included, and `length` positions, all unknown.
    pub open spec fn blank(length: nat) -> Rules {
        Rules {
            excluded: Set::empty(),
            included: Set::empty(),
            positions: Seq::new(length, |i: int| WILDCARD),
        }
    }

    /// Whether `word` is consistent with all that is known.
    pub open spec fn accepts(self, word: Seq<char>) -> bool {
        &&& !hits_excluded(word, self.excluded)
        &&& has_included(word, self.included)
        &&& fits_positions(word, self.positions)
    }

    /// Whether these rules accept no word of `pool` that `other` refuses.
    pub open spec fn narrows(self, other: Rules, pool: Seq<Seq<char>>) -> bool {
        forall|i: int| 0 <= i < pool.len() && self.accepts(#[trigger] pool[i]) ==> other.accepts(pool[i])
    }
}

/// The words of `pool` that `rules` accepts, in the order of `pool`.
pub open spec fn keep(pool: Seq<Seq<char>>, rules: Rules) -> Seq<Seq<char>>
    decreases pool.len(),
{
    if pool.len() == 0 {
        Seq::empty()
    } else if rules.accepts(pool.last()) {
        keep(pool.drop_last(), rules).push(pool.last())
    } else {
        keep(pool.drop_last(), rules)
    }
}

/// One more word at the end of the pool is one more word kept, or none.
pub proof fn lemma_keep_push(pool: Seq<Seq<char>>, word: Seq<char>, rules: Rules)
    ensures
        keep(pool.push(word), rules) == if rules.accepts(word) {
            keep(pool, rules).push(word)
        } else {
            keep(pool, rules)
        },
{
    assert(pool.push(word).drop_last() =~= pool);
}

/// Every word that is kept is a word of the pool that the rules accept; no
/// more words are kept than the pool holds.
pub proof fn lemma_keep_sound(pool: Seq<Seq<char>>, rules: Rules)
    ensures
        keep(pool, rules).len() <= pool.len(),
        forall|i: int|
            0 <= i < keep(pool, rules).len() ==> rules.accepts(#[trigger] keep(pool, rules)[i])
                && pool.contains(keep(pool, rules)[i]),
    decreases pool.len(),
{
    if pool.len() > 0 {
        let front = pool.drop_last();
        lemma_keep_sound(front, rules);
        assert forall|i: int| 0 <= i < keep(pool, rules).len() implies pool.contains(
            #[trigger] keep(pool, rules)[i],
        ) by {
            if i < keep(front, rules).len() {
                let word = keep(front, rules)[i];
                assert(front.contains(word));
                let k = choose|k: int| 0 <= k < front.len() && front[k] == word;
                assert(pool[k] == word);
            } else {
                assert(pool[pool.len() - 1] == pool.last());
            }
        }
    }
}

/// Every word of the pool that the rules accept is kept.
pub proof fn lemma_keep_complete(pool: Seq<Seq<char>>, rules: Rules)
    ensures
        forall|i: int|
            0 <= i < pool.len() && rules.accepts(#[trigger] pool[i]) ==> keep(pool, rules).contains(
                pool[i],
            ),
    decreases pool.len(),
{
    if pool.len() > 0 {
        let front = pool.drop_last();
        let kept = keep(pool, rules);
        lemma_keep_complete(front, rules);
        assert forall|i: int| 0 <= i < pool.len() && rules.accepts(#[trigger] pool[i]) implies kept.contains(
            pool[i],
        ) by {
            if i < front.len() {
                assert(front[i] == pool[i]);
                assert(keep(front, rules).contains(pool[i]));
                let k = choose|k: int| 0 <= k < keep(front, rules).len() && keep(front, rules)[k] == pool[i];
                assert(kept[k] == pool[i]);
            } else {
                assert(kept[kept.len() - 1] == pool[i]);
            }
        }
    }
}

/// A pool of which the rules accept every word is kept whole.
pub proof fn lemma_keep_whole(pool: Seq<Seq<char>>, rules: Rules)
    requires
        forall|i: int| 0 <= i < pool.len() ==> rules.accepts(#[trigger] pool[i]),
    ensures
        keep(pool, rules) == pool,
    decreases pool.len(),
{
    if pool.len() > 0 {
        let front = pool.drop_last();
        assert forall|i: int| 0 <= i < front.len() implies rules.accepts(#[trigger] front[i]) by {
            assert(front[i] == pool[i]);
        }
        lemma_keep_whole(front, rules);
        assert(front.push(pool.last()) =~= pool);
    } else {
        assert(pool =~= Seq::empty());
    }
}

/// To apply the same rules a second time changes nothing.
pub proof fn lemma_keep_twice(pool: Seq<Seq<char>>, rules: Rules)
    ensures
        keep(keep(pool, rules), rules) == keep(pool, rules),
{
    lemma_keep_sound(pool, rules);
    lemma_keep_whole(keep(pool, rules), rules);
}

/// Where `tight` accepts no word of the pool that `loose` refuses, to apply
/// `loose` first changes nothing in what `tight` keeps.
pub proof fn lemma_keep_narrowed(pool: Seq<Seq<char>>, loose: Rules, tight: Rules)
    requires
        tight.narrows(loose, pool),
    ensures
        keep(pool, tight) == keep(keep(pool, loose), tight),
    decreases pool.len(),
{
    if pool.len() > 0 {
        let front = pool.drop_last();
        assert forall|i: int| 0 <= i < front.len() && tight.accepts(#[trigger] front[i]) implies loose.accepts(
            front[i],
        ) by {
            assert(front[i] == pool[i]);
        }
        lemma_keep_narrowed(front, loose, tight);
        assert(pool[pool.len() - 1] == pool.last());
        if loose.accepts(pool.last()) {
            lemma_keep_push(keep(front, loose), pool.last(), tight);
        }
    }
}

} // verus!
