//! The word list and what is known of the word that is sought.

use vstd::prelude::*;
use vstd::string::*;
use crate::error::{Error, ErrorKind};
use crate::letters::{LetterSet, ascending};
use crate::rules::{Rules, WILDCARD, fits_positions, has_included, hits_excluded, keep, lemma_keep_push, lemma_keep_sound, text};
use crate::words::{read_words, selected};

verus! {

/// Which of the two sets of letters is meant.
#[derive(Clone, Copy, Debug, PartialEq, Eq)]
pub enum SetType {
    /// The letters that do not occur in the word.
    Excluded,
    /// The letters that occur somewhere in the word.
    Included,
}

/// What a `Dictionary` holds, as mathematics.
pub struct State {
    /// The word list, which never changes.
    pub words: Seq<Seq<char>>,
    /// What is known of the word.
    pub rules: Rules,
    /// The words that were found last, unless a change has put them aside.
    pub cache: Option<Seq<Seq<char>>>,
}

impl State {
    /// No letter is both excluded and included, each word has one letter
    /// for each position, and the words found last are words of the list.
    pub open spec fn wf(self) -> bool {
        &&& self.rules.excluded.disjoint(self.rules.included)
        &&& forall|i: int|
            0 <= i < self.words.len() ==> (#[trigger] self.words[i]).len()
                == self.rules.positions.len()
        &&& match self.cache {
            Some(found) => forall|i: int| 0 <= i < found.len() ==> self.words.contains(#[trigger] found[i]),
            None => true,
        }
    }

    /// Each word that the next search goes through is a word of the list,
    /// with one letter for each position.
    pub proof fn lemma_pool_of_words(self)
        requires
            self.wf(),
        ensures
            forall|i: int|
                0 <= i < self.pool().len() ==> self.words.contains(#[trigger] self.pool()[i])
                    && self.pool()[i].len() == self.rules.positions.len(),
    {
        assert forall|i: int| 0 <= i < self.pool().len() implies self.words.contains(
            #[trigger] self.pool()[i],
        ) && self.pool()[i].len() == self.rules.positions.len() by {
            let word = self.pool()[i];
            assert(self.words.contains(word));
            let k = choose|k: int| 0 <= k < self.words.len() && self.words[k] == word;
            assert(self.words[k].len() == self.rules.positions.len());
        }
    }

    /// The state of a new dictionary with these words.
    pub open spec fn fresh(words: Seq<Seq<char>>, length: nat) -> State {
        State { words, rules: Rules::blank(length), cache: None }
    }

    /// The words that the next search goes through: those found last, or
    /// the whole list where they were put aside.
    pub open spec fn pool(self) -> Seq<Seq<char>> {
        match self.cache {
            Some(found) => found,
            None => self.words,
        }
    }

    /// What the next search finds.
    pub open spec fn matched(self) -> Seq<Seq<char>> {
        keep(self.pool(), self.rules)
    }

    /// The state after a search.
    pub open spec fn after_matches(self) -> State {
        State { cache: Some(self.matched()), ..self }
    }

    /// Whether the words found last are exactly what the rules keep of them:
    /// nothing was changed since the last search.
    pub open spec fn settled(self) -> bool {
        self.cache == Some(self.matched())
    }

    /// The state after `reset`.
    pub open spec fn reset(self) -> State {
        State::fresh(self.words, self.rules.positions.len())
    }

    /// The state after `add_char`.
    pub open spec fn add_char(self, set_type: SetType, ch: char) -> State {
        match set_type {
            SetType::Excluded => State {
                rules: Rules {
                    excluded: self.rules.excluded.insert(ch),
                    included: self.rules.included.remove(ch),
                    ..self.rules
                },
                ..self
            },
            SetType::Included => State {
                rules: Rules {
                    excluded: self.rules.excluded.remove(ch),
                    included: self.rules.included.insert(ch),
                    ..self.rules
                },
                ..self
            },
        }
    }

    /// The state after `remove_char`.
    pub open spec fn remove_char(self, set_type: SetType, ch: char) -> State {
        match set_type {
            SetType::Excluded => State {
                rules: Rules { excluded: self.rules.excluded.remove(ch), ..self.rules },
                cache: None,
                ..self
            },
            SetType::Included => State {
                rules: Rules { included: self.rules.included.remove(ch), ..self.rules },
                cache: None,
                ..self
            },
        }
    }

    /// The state after `clear_set`.
    pub open spec fn clear_set(self, set_type: SetType) -> State {
        match set_type {
            SetType::Excluded => State {
                rules: Rules { excluded: Set::empty(), ..self.rules },
                ..self
            },
            SetType::Included => State {
                rules: Rules { included: Set::empty(), ..self.rules },
                ..self
            },
        }
    }

    /// Whether `pos` counts a position of the word, from 1.
    pub open spec fn in_range(self, pos: int) -> bool {
        1 <= pos <= self.rules.positions.len()
    }

    /// The state after `set_char_position` with a position in range.
    pub open spec fn set_char_position(self, pos: int, ch: char) -> State {
        if ch == WILDCARD {
            State {
                rules: Rules { positions: self.rules.positions.update(pos - 1, ch), ..self.rules },
                cache: None,
                ..self
            }
        } else {
            State {
                rules: Rules {
                    excluded: self.rules.excluded.remove(ch),
                    included: self.rules.included.remove(ch),
                    positions: self.rules.positions.update(pos - 1, ch),
                },
                ..self
            }
        }
    }
}

/// A word list with the rules that narrow it down, and the words found last.
pub struct Dictionary {
    words: Vec<String>,
    included: LetterSet,
    excluded: LetterSet,
    positions: Vec<char>,
    matches: Option<Vec<String>>,
}

impl View for Dictionary {
    type V = State;

    closed spec fn view(&self) -> State {
        State {
            words: text(self.words@),
            rules: Rules {
                excluded: self.excluded@,
                included: self.included@,
                positions: self.positions@,
            },
            cache: match self.matches {
                Some(found) => Some(text(found@)),
                None => None,
            },
        }
    }
}

/// Whether `word` holds the letter `ch`.
pub fn contains_letter(word: &str, ch: char) -> (found: bool)
    ensures
        found == word@.contains(ch),
{
    let length = word.unicode_len();
    let mut at: usize = 0;
    while at < length
        invariant
            length == word@.len(),
            at <= length,
            forall|i: int| 0 <= i < at ==> word@[i] != ch,
        decreases length - at,
    {
        if word.get_char(at) == ch {
            return true;
        }
        at += 1;
    }
    false
}

impl Dictionary {
    /// The representation invariant; every function keeps it.
    pub closed spec fn wf(&self) -> bool {
        &&& self.included.wf()
        &&& self.excluded.wf()
        &&& self@.wf()
    }

    /// What the representation invariant says of the state.
    pub proof fn lemma_wf_state(&self)
        requires
            self.wf(),
        ensures
            self@.wf(),
    {
    }

    /// A dictionary of the words of `length` letters among `lines`, with
    /// nothing known yet.
    pub fn new(length: usize, lines: &Vec<String>) -> (dictionary: Dictionary)
        ensures
            dictionary.wf(),
            dictionary@ == State::fresh(selected(text(lines@), length as nat), length as nat),
    {
        let words = read_words(lines, length);
        let positions = blank_positions(length);
        let dictionary = Dictionary {
            words,
            included: LetterSet::new(),
            excluded: LetterSet::new(),
            positions,
            matches: None,
        };
        proof {
            assert forall|i: int| 0 <= i < dictionary@.words.len() implies (#[trigger] dictionary@.words[i]).len()
                == length by {
                assert(dictionary@.words[i] == dictionary.words@[i]@);
            }
        }
        dictionary
    }

    /// The number of letters of each word.
    pub fn length(&self) -> (length: usize)
        ensures
            length == self@.rules.positions.len(),
    {
        self.positions.len()
    }

    /// Forgets all that is known: both sets empty, every position unknown,
    /// the words found last put aside.
    pub fn reset(&mut self)
        requires
            old(self).wf(),
        ensures
            final(self).wf(),
            final(self)@ == old(self)@.reset(),
    {
        self.included.clear();
        self.excluded.clear();
        self.positions = blank_positions(self.positions.len());
        self.matches = None;
    }

    /// Puts `ch` into the named set and takes it out of the other one. The
    /// words found last stay as they are.
    pub fn add_char(&mut self, set_type: SetType, ch: char)
        requires
            old(self).wf(),
        ensures
            final(self).wf(),
            final(self)@ == old(self)@.add_char(set_type, ch),
    {
        match set_type {
            SetType::Excluded => self.exclude_char(ch),
            SetType::Included => self.include_char(ch),
        }
    }

    /// Takes `ch` out of the named set and puts the words found last aside.
    pub fn remove_char(&mut self, set_type: SetType, ch: char)
        requires
            old(self).wf(),
        ensures
            final(self).wf(),
            final(self)@ == old(self)@.remove_char(set_type, ch),
    {
        match set_type {
            SetType::Excluded => self.remove_excluded_char(ch),
            SetType::Included => self.remove_included_char(ch),
        }
    }

    /// Empties the named set. The words found last stay as they are: until
    /// a letter is removed or a position made unknown, a search goes through
    /// them and finds no word that the emptied set had kept out.
    pub fn clear_set(&mut self, set_type: SetType)
        requires
            old(self).wf(),
        ensures
            final(self).wf(),
            final(self)@ == old(self)@.clear_set(set_type),
    {
        match set_type {
            SetType::Excluded => self.clear_excluded_chars(),
            SetType::Included => self.clear_included_chars(),
        }
    }

    /// The excluded letters in ascending order, each once.
    pub fn excluded_chars(&self) -> (letters: Vec<char>)
        requires
            self.wf(),
        ensures
            ascending(letters@),
            letters@.to_set() == self@.rules.excluded,
    {
        self.excluded.to_vec()
    }

    /// The included letters in ascending order, each once.
    pub fn included_chars(&self) -> (letters: Vec<char>)
        requires
            self.wf(),
        ensures
            ascending(letters@),
            letters@.to_set() == self@.rules.included,
    {
        self.included.to_vec()
    }

    /// Writes `ch` at the position `pos`, counted from 1. With `WILDCARD`
    /// the position becomes unknown and the words found last are put aside;
    /// with another letter, that letter leaves both sets. A position outside
    /// the word is refused, and nothing changes.
    pub fn set_char_position(&mut self, pos: usize, ch: char) -> (done: Result<(), Error>)
        requires
            old(self).wf(),
        ensures
            final(self).wf(),
            old(self)@.in_range(pos as int) ==> done is Ok && final(self)@ == old(self)@.set_char_position(
                pos as int,
                ch,
            ),
            !old(self)@.in_range(pos as int) ==> done is Err && *final(self) == *old(self),
            match done {
                Ok(_) => true,
                Err(error) => {
                    &&& error.spec_kind() == ErrorKind::InvalidPosition
                    &&& error.spec_msg() == crate::error::position_message()
                    &&& error.spec_source() == None::<Seq<char>>
                },
            },
    {
        if pos < 1 || pos > self.positions.len() {
            return Err(Error::invalid_position());
        }
        if ch == WILDCARD {
            self.matches = None;
        } else {
            self.included.remove(ch);
            self.excluded.remove(ch);
        }
        self.positions.set(pos - 1, ch);
        Ok(())
    }

    /// Makes the position `pos`, counted from 1, unknown again.
    pub fn unset_char_position(&mut self, pos: usize) -> (done: Result<(), Error>)
        requires
            old(self).wf(),
        ensures
            final(self).wf(),
            old(self)@.in_range(pos as int) ==> done is Ok && final(self)@ == old(self)@.set_char_position(
                pos as int,
                WILDCARD,
            ),
            !old(self)@.in_range(pos as int) ==> done is Err && *final(self) == *old(self),
            match done {
                Ok(_) => true,
                Err(error) => {
                    &&& error.spec_kind() == ErrorKind::InvalidPosition
                    &&& error.spec_msg() == crate::error::position_message()
                    &&& error.spec_source() == None::<Seq<char>>
                },
            },
    {
        self.set_char_position(pos, WILDCARD)
    }

    /// Searches: goes through the words found last, or through the whole
    /// list where they were put aside, keeps those that the rules accept,
    /// remembers them and returns them.
    pub fn matches(&mut self) -> (found: Vec<String>)
        requires
            old(self).wf(),
        ensures
            final(self).wf(),
            text(found@) == old(self)@.matched(),
            final(self)@ == old(self)@.after_matches(),
    {
        let ghost before = self@;
        proof {
            before.lemma_pool_of_words();
            lemma_keep_sound(before.pool(), before.rules);
        }
        let kept = match &self.matches {
            Some(pool) => {
                proof {
                    assert forall|i: int| 0 <= i < pool@.len() implies (#[trigger] pool@[i])@.len()
                        == self.positions@.len() by {
                        assert(before.pool()[i] == pool@[i]@);
                    }
                }
                self.filter_matches(pool)
            },
            None => {
                proof {
                    assert forall|i: int| 0 <= i < self.words@.len() implies (#[trigger] self.words@[i])@.len()
                        == self.positions@.len() by {
                        assert(before.pool()[i] == self.words@[i]@);
                    }
                }
                self.filter_matches(&self.words)
            },
        };
        let found = copy_words(&kept);
        self.matches = Some(kept);
        proof {
            let list = before.matched();
            assert forall|i: int| 0 <= i < list.len() implies before.words.contains(#[trigger] list[i]) by {
                let word = list[i];
                assert(before.pool().contains(word));
                let k = choose|k: int| 0 <= k < before.pool().len() && before.pool()[k] == word;
                assert(before.words.contains(before.pool()[k]));
            }
        }
        found
    }

    /// The words of `pool` that the rules accept, in the order of `pool`.
    fn filter_matches(&self, pool: &Vec<String>) -> (kept: Vec<String>)
        requires
            self.included.wf(),
            self.excluded.wf(),
            forall|i: int| 0 <= i < pool@.len() ==> (#[trigger] pool@[i])@.len() == self.positions@.len(),
        ensures
            text(kept@) == keep(text(pool@), self@.rules),
    {
        let mut kept: Vec<String> = Vec::new();
        let mut at: usize = 0;
        assert(text(kept@) =~= Seq::empty());
        assert(text(pool@).subrange(0, 0) =~= Seq::empty());
        while at < pool.len()
            invariant
                at <= pool@.len(),
                self.included.wf(),
                self.excluded.wf(),
                forall|i: int| 0 <= i < pool@.len() ==> (#[trigger] pool@[i])@.len() == self.positions@.len(),
                text(kept@) == keep(text(pool@).subrange(0, at as int), self@.rules),
            decreases pool@.len() - at,
        {
            let word = pool[at].as_str();
            let ghost before = kept@;
            proof {
                let prefix = text(pool@).subrange(0, at as int);
                assert(text(pool@).subrange(0, at + 1) =~= prefix.push(word@));
                lemma_keep_push(prefix, word@, self@.rules);
            }
            if !self.match_excluded(word) && self.match_included(word) && self.match_positions(word) {
                kept.push(pool[at].clone());
                assert(text(kept@) =~= text(before).push(word@));
            }
            at += 1;
        }
        assert(text(pool@).subrange(0, at as int) =~= text(pool@));
        kept
    }

    /// Excludes `ch`; an included letter is included no more.
    fn exclude_char(&mut self, ch: char)
        requires
            old(self).wf(),
        ensures
            final(self).wf(),
            final(self)@ == old(self)@.add_char(SetType::Excluded, ch),
    {
        self.included.remove(ch);
        self.excluded.insert(ch);
    }

    /// Includes `ch`; an excluded letter is excluded no more.
    fn include_char(&mut self, ch: char)
        requires
            old(self).wf(),
        ensures
            final(self).wf(),
            final(self)@ == old(self)@.add_char(SetType::Included, ch),
    {
        self.excluded.remove(ch);
        self.included.insert(ch);
    }

    /// Excludes `ch` no more, and puts the words found last aside.
    fn remove_excluded_char(&mut self, ch: char)
        requires
            old(self).wf(),
        ensures
            final(self).wf(),
            final(self)@ == old(self)@.remove_char(SetType::Excluded, ch),
    {
        self.excluded.remove(ch);
        self.matches = None;
    }

    /// Includes `ch` no more, and puts the words found last aside.
    fn remove_included_char(&mut self, ch: char)
        requires
            old(self).wf(),
        ensures
            final(self).wf(),
            final(self)@ == old(self)@.remove_char(SetType::Included, ch),
    {
        self.included.remove(ch);
        self.matches = None;
    }

    /// Excludes no letter any more.
    fn clear_excluded_chars(&mut self)
        requires
            old(self).wf(),
        ensures
            final(self).wf(),
            final(self)@ == old(self)@.clear_set(SetType::Excluded),
    {
        self.excluded.clear();
    }

    /// Includes no letter any more.
    fn clear_included_chars(&mut self)
        requires
            old(self).wf(),
        ensures
            final(self).wf(),
            final(self)@ == old(self)@.clear_set(SetType::Included),
    {
        self.included.clear();
    }

    /// Whether `word` holds an excluded letter.
    fn match_excluded(&self, word: &str) -> (hit: bool)
        requires
            self.excluded.wf(),
        ensures
            hit == hits_excluded(word@, self@.rules.excluded),
    {
        let letters = self.excluded.as_vec();
        let mut at: usize = 0;
        while at < letters.len()
            invariant
                at <= letters@.len(),
                letters@.to_set() == self.excluded@,
                forall|i: int| 0 <= i < at ==> !word@.contains(#[trigger] letters@[i]),
            decreases letters@.len() - at,
        {
            if contains_letter(word, letters[at]) {
                proof {
                    let c = letters@[at as int];
                    assert(letters@.contains(c));
                    assert(letters@.to_set().contains(c));
                    assert(self.excluded@.contains(c) && word@.contains(c));
                }
                return true;
            }
            at += 1;
        }
        proof {
            assert forall|c: char| self.excluded@.contains(c) implies !#[trigger] word@.contains(c) by {
                assert(letters@.to_set().contains(c));
                assert(letters@.contains(c));
            }
        }
        false
    }

    /// Whether `word` holds every included letter.
    fn match_included(&self, word: &str) -> (all: bool)
        requires
            self.included.wf(),
        ensures
            all == has_included(word@, self@.rules.included),
    {
        let letters = self.included.as_vec();
        let mut at: usize = 0;
        while at < letters.len()
            invariant
                at <= letters@.len(),
                letters@.to_set() == self.included@,
                forall|i: int| 0 <= i < at ==> word@.contains(#[trigger] letters@[i]),
            decreases letters@.len() - at,
        {
            if !contains_letter(word, letters[at]) {
                proof {
                    let c = letters@[at as int];
                    assert(letters@.contains(c));
                    assert(letters@.to_set().contains(c));
                    assert(self.included@.contains(c) && !word@.contains(c));
                }
                return false;
            }
            at += 1;
        }
        proof {
            assert forall|c: char| self.included@.contains(c) implies #[trigger] word@.contains(c) by {
                assert(letters@.to_set().contains(c));
                assert(letters@.contains(c));
            }
        }
        true
    }

    /// Whether `word` has the known letter at each known position.
    fn match_positions(&self, word: &str) -> (fits: bool)
        requires
            word@.len() == self.positions@.len(),
        ensures
            fits == fits_positions(word@, self@.rules.positions),
    {
        let mut at: usize = 0;
        while at < self.positions.len()
            invariant
                at <= self.positions@.len(),
                word@.len() == self.positions@.len(),
                forall|i: int|
                    0 <= i < at ==> #[trigger] self.positions@[i] == WILDCARD || word@[i]
                        == self.positions@[i],
            decreases self.positions@.len() - at,
        {
            let known = self.positions[at];
            if known != WILDCARD && word.get_char(at) != known {
                return false;
            }
            at += 1;
        }
        true
    }
}

/// As many positions as a word has letters, all unknown.
fn blank_positions(length: usize) -> (positions: Vec<char>)
    ensures
        positions@ == Rules::blank(length as nat).positions,
{
    let mut positions: Vec<char> = Vec::new();
    while positions.len() < length
        invariant
            positions@.len() <= length,
            forall|i: int| 0 <= i < positions@.len() ==> positions@[i] == WILDCARD,
        decreases length - positions@.len(),
    {
        positions.push(WILDCARD);
    }
    assert(positions@ =~= Rules::blank(length as nat).positions);
    positions
}

/// A copy of a list of words.
fn copy_words(words: &Vec<String>) -> (copy: Vec<String>)
    ensures
        text(copy@) == text(words@),
{
    let mut copy: Vec<String> = Vec::new();
    let mut at: usize = 0;
    while at < words.len()
        invariant
            at <= words@.len(),
            copy@.len() == at,
            forall|i: int| 0 <= i < at ==> (#[trigger] copy@[i])@ == words@[i]@,
        decreases words@.len() - at,
    {
        copy.push(words[at].clone());
        at += 1;
    }
    assert(text(copy@) =~= text(words@));
    copy
}

} // verus!
