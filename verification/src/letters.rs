//! A set of letters, kept as a strictly ascending vector.

use vstd::prelude::*;

verus! {

/// Whether `s` is strictly ascending, so that no letter occurs twice.
pub open spec fn ascending(s: Seq<char>) -> bool {
    forall|i: int, j: int| 0 <= i < j < s.len() ==> s[i] < s[j]
}

/// A finite set of letters.
pub struct LetterSet {
    letters: Vec<char>,
}

impl View for LetterSet {
    type V = Set<char>;

    closed spec fn view(&self) -> Set<char> {
        self.letters@.to_set()
    }
}

impl LetterSet {
    /// The representation invariant: the letters are held in ascending order.
    pub closed spec fn wf(&self) -> bool {
        ascending(self.letters@)
    }

    /// The empty set.
    pub fn new() -> (set: LetterSet)
        ensures
            set.wf(),
            set@ == Set::<char>::empty(),
    {
        let set = LetterSet { letters: Vec::new() };
        assert(set.letters@.to_set() =~= Set::<char>::empty());
        set
    }

    /// The number of letters of the set that are smaller than `ch`: the place
    /// where `ch` stands, or would stand.
    fn rank(&self, ch: char) -> (at: usize)
        requires
            self.wf(),
        ensures
            at <= self.letters@.len(),
            forall|i: int| 0 <= i < at ==> self.letters@[i] < ch,
            forall|i: int| at <= i < self.letters@.len() ==> self.letters@[i] >= ch,
    {
        let mut at: usize = 0;
        while at < self.letters.len() && self.letters[at] < ch
            invariant
                at <= self.letters@.len(),
                forall|i: int| 0 <= i < at ==> self.letters@[i] < ch,
            decreases self.letters@.len() - at,
        {
            at += 1;
        }
        at
    }

    /// Whether `ch` is in the set.
    pub fn contains(&self, ch: char) -> (found: bool)
        requires
            self.wf(),
        ensures
            found == self@.contains(ch),
    {
        let at = self.rank(ch);
        at < self.letters.len() && self.letters[at] == ch
    }

    /// Puts `ch` into the set.
    pub fn insert(&mut self, ch: char)
        requires
            old(self).wf(),
        ensures
            final(self).wf(),
            final(self)@ == old(self)@.insert(ch),
    {
        let at = self.rank(ch);
        if at < self.letters.len() && self.letters[at] == ch {
            assert(self.letters@.to_set() =~= self.letters@.to_set().insert(ch));
        } else {
            let ghost before = self.letters@;
            self.letters.insert(at, ch);
            assert(self.letters@ == before.insert(at as int, ch));
            assert forall|c: char| #[trigger] self.letters@.contains(c) <==> (c == ch || before.contains(c)) by {
                if self.letters@.contains(c) {
                    let i = choose|i: int| 0 <= i < self.letters@.len() && self.letters@[i] == c;
                    if i < at {
                        assert(before[i] == c);
                    } else if i > at {
                        assert(before[i - 1] == c);
                    }
                }
                if before.contains(c) {
                    let i = choose|i: int| 0 <= i < before.len() && before[i] == c;
                    if i < at {
                        assert(self.letters@[i] == c);
                    } else {
                        assert(self.letters@[i + 1] == c);
                    }
                }
                if c == ch {
                    assert(self.letters@[at as int] == c);
                }
            }
            assert(self.letters@.to_set() =~= before.to_set().insert(ch));
        }
    }

    /// Takes `ch` out of the set.
    pub fn remove(&mut self, ch: char)
        requires
            old(self).wf(),
        ensures
            final(self).wf(),
            final(self)@ == old(self)@.remove(ch),
    {
        let at = self.rank(ch);
        if at < self.letters.len() && self.letters[at] == ch {
            let ghost before = self.letters@;
            self.letters.remove(at);
            assert(self.letters@ == before.remove(at as int));
            assert forall|c: char| #[trigger] self.letters@.contains(c) <==> (c != ch && before.contains(c)) by {
                if self.letters@.contains(c) {
                    let i = choose|i: int| 0 <= i < self.letters@.len() && self.letters@[i] == c;
                    if i < at {
                        assert(before[i] == c);
                    } else {
                        assert(before[i + 1] == c);
                    }
                }
                if c != ch && before.contains(c) {
                    let i = choose|i: int| 0 <= i < before.len() && before[i] == c;
                    if i < at {
                        assert(self.letters@[i] == c);
                    } else {
                        assert(self.letters@[i - 1] == c);
                    }
                }
            }
            assert(self.letters@.to_set() =~= before.to_set().remove(ch));
        } else {
            assert forall|c: char| self.letters@.contains(c) implies c != ch by {
                if self.letters@.contains(c) {
                    let i = choose|i: int| 0 <= i < self.letters@.len() && self.letters@[i] == c;
                    assert(self.letters@[i] < ch || i >= at);
                }
            }
            assert(self.letters@.to_set() =~= self.letters@.to_set().remove(ch));
        }
    }

    /// Empties the set.
    pub fn clear(&mut self)
        ensures
            final(self).wf(),
            final(self)@ == Set::<char>::empty(),
    {
        self.letters.clear();
        assert(self.letters@.to_set() =~= Set::<char>::empty());
    }

    /// The letters of the set in ascending order, as they are held.
    pub fn as_vec(&self) -> (letters: &Vec<char>)
        requires
            self.wf(),
        ensures
            ascending(letters@),
            letters@.to_set() == self@,
    {
        &self.letters
    }

    /// The letters of the set in ascending order.
    pub fn to_vec(&self) -> (letters: Vec<char>)
        requires
            self.wf(),
        ensures
            ascending(letters@),
            letters@.to_set() == self@,
    {
        self.letters.clone()
    }
}

} // verus!
