use girdle::dictionary::contains_letter;
use girdle::rules::WILDCARD;
use girdle::{Dictionary, ErrorKind, SetType};

fn lines(words: &[&str]) -> Vec<String> {
    words.iter().map(|w| w.to_string()).collect()
}

fn store() -> Dictionary {
    Dictionary::new(5, &lines(&["crane", "trace", "grape", "plane", "place"]))
}

#[test]
fn new_dictionary_matches_every_word_in_order() {
    let mut d = store();
    assert_eq!(d.length(), 5);
    assert_eq!(d.excluded_chars(), Vec::<char>::new());
    assert_eq!(d.included_chars(), Vec::<char>::new());
    assert_eq!(d.matches(), lines(&["crane", "trace", "grape", "plane", "place"]));
}

#[test]
fn included_letters_then_excluded_letter_narrow_the_words() {
    let mut d = store();
    d.add_char(SetType::Included, 'c');
    d.add_char(SetType::Included, 'r');
    assert_eq!(d.matches(), lines(&["crane", "trace"]));
    d.add_char(SetType::Excluded, 't');
    assert_eq!(d.matches(), lines(&["crane"]));
}

#[test]
fn fixed_positions_narrow_the_words() {
    let mut d = store();
    assert!(d.set_char_position(1, 'p').is_ok());
    assert!(d.set_char_position(5, 'e').is_ok());
    assert_eq!(d.matches(), lines(&["plane", "place"]));
    d.add_char(SetType::Included, 'c');
    assert_eq!(d.matches(), lines(&["place"]));
}

#[test]
fn position_outside_the_word_is_refused_and_changes_nothing() {
    let mut d = store();
    d.add_char(SetType::Included, 'c');
    d.add_char(SetType::Excluded, 't');
    assert!(d.set_char_position(2, 'r').is_ok());
    let before = d.matches();
    for pos in [0usize, 6, 7, usize::MAX] {
        let refused = d.set_char_position(pos, 'c');
        let error = refused.unwrap_err();
        assert_eq!(error.kind(), ErrorKind::InvalidPosition);
        assert!(error.source().is_none());
        let refused = d.unset_char_position(pos);
        assert_eq!(refused.unwrap_err().kind(), ErrorKind::InvalidPosition);
        assert_eq!(d.included_chars(), vec!['c']);
        assert_eq!(d.excluded_chars(), vec!['t']);
        assert_eq!(d.matches(), before);
    }
    assert_eq!(before, lines(&["crane"]));
}

#[test]
fn a_letter_is_never_in_both_sets() {
    for ch in ['a', 'z', 'Q', '.', ' ', 'é', '\u{10FFFF}'] {
        let mut d = store();
        d.add_char(SetType::Included, ch);
        d.add_char(SetType::Excluded, ch);
        assert_eq!(d.included_chars(), Vec::<char>::new());
        assert_eq!(d.excluded_chars(), vec![ch]);
        d.add_char(SetType::Included, ch);
        assert_eq!(d.included_chars(), vec![ch]);
        assert_eq!(d.excluded_chars(), Vec::<char>::new());
    }
}

#[test]
fn a_fixed_letter_leaves_both_sets() {
    for pos in 1usize..=5 {
        let mut d = store();
        d.add_char(SetType::Included, 'c');
        d.add_char(SetType::Included, 'r');
        d.add_char(SetType::Excluded, 'x');
        d.add_char(SetType::Excluded, 't');
        assert!(d.set_char_position(pos, 'c').is_ok());
        assert_eq!(d.included_chars(), vec!['r']);
        assert!(d.set_char_position(pos, 't').is_ok());
        assert_eq!(d.excluded_chars(), vec!['x']);
        assert_eq!(d.included_chars(), vec!['r']);
    }
}

#[test]
fn the_wildcard_at_a_position_leaves_the_sets_alone() {
    let mut d = store();
    d.add_char(SetType::Excluded, WILDCARD);
    d.add_char(SetType::Included, 'a');
    assert!(d.set_char_position(3, WILDCARD).is_ok());
    assert_eq!(d.excluded_chars(), vec![WILDCARD]);
    assert_eq!(d.included_chars(), vec!['a']);
    assert_eq!(d.matches(), lines(&["crane", "trace", "grape", "plane", "place"]));
}

#[test]
fn letters_come_out_in_ascending_order_each_once() {
    let mut d = store();
    for ch in ['q', 'b', 'z', 'a', 'b', 'q', 'm'] {
        d.add_char(SetType::Excluded, ch);
    }
    assert_eq!(d.excluded_chars(), vec!['a', 'b', 'm', 'q', 'z']);
    for ch in ['y', 'c', 'y', 'Z'] {
        d.add_char(SetType::Included, ch);
    }
    assert_eq!(d.included_chars(), vec!['Z', 'c', 'y']);
    d.remove_char(SetType::Excluded, 'm');
    d.remove_char(SetType::Excluded, 'k');
    assert_eq!(d.excluded_chars(), vec!['a', 'b', 'q', 'z']);
    d.remove_char(SetType::Included, 'y');
    assert_eq!(d.included_chars(), vec!['Z', 'c']);
    d.clear_set(SetType::Excluded);
    assert_eq!(d.excluded_chars(), Vec::<char>::new());
    assert_eq!(d.included_chars(), vec!['Z', 'c']);
    d.clear_set(SetType::Included);
    assert_eq!(d.included_chars(), Vec::<char>::new());
}

#[test]
fn a_second_search_finds_the_same() {
    let mut d = store();
    d.add_char(SetType::Included, 'a');
    d.add_char(SetType::Excluded, 'g');
    assert!(d.set_char_position(5, 'e').is_ok());
    let first = d.matches();
    let second = d.matches();
    let third = d.matches();
    assert_eq!(first, lines(&["crane", "trace", "plane", "place"]));
    assert_eq!(first, second);
    assert_eq!(second, third);
}

#[test]
fn adding_a_rule_after_a_search_never_finds_more() {
    let mut d = store();
    let mut before = d.matches();
    let steps: [(SetType, char); 5] = [
        (SetType::Included, 'a'),
        (SetType::Excluded, 'g'),
        (SetType::Included, 'c'),
        (SetType::Excluded, 'c'),
        (SetType::Included, 'c'),
    ];
    for (set_type, ch) in steps {
        d.add_char(set_type, ch);
        let after = d.matches();
        assert!(after.len() <= before.len());
        assert!(after.iter().all(|w| before.contains(w)));
        before = after;
    }
    assert_eq!(before, Vec::<String>::new());
    let mut d = store();
    let mut before = d.matches();
    for (pos, ch) in [(1usize, 'p'), (3, 'a'), (4, 'c'), (4, 'n')] {
        assert!(d.set_char_position(pos, ch).is_ok());
        let after = d.matches();
        assert!(after.iter().all(|w| before.contains(w)));
        before = after;
    }
    assert_eq!(before, Vec::<String>::new());
}

#[test]
fn words_found_last_are_searched_until_put_aside() {
    let mut d = store();
    assert!(d.set_char_position(1, 'p').is_ok());
    assert_eq!(d.matches(), lines(&["plane", "place"]));
    assert!(d.set_char_position(1, 'c').is_ok());
    assert_eq!(d.matches(), Vec::<String>::new());
    assert!(d.unset_char_position(2).is_ok());
    assert_eq!(d.matches(), lines(&["crane"]));
}

#[test]
fn removing_a_letter_puts_the_words_found_aside() {
    let mut d = store();
    d.add_char(SetType::Excluded, 'p');
    assert_eq!(d.matches(), lines(&["crane", "trace"]));
    d.remove_char(SetType::Excluded, 'p');
    assert_eq!(d.matches(), lines(&["crane", "trace", "grape", "plane", "place"]));
    d.add_char(SetType::Included, 'g');
    assert_eq!(d.matches(), lines(&["grape"]));
    d.remove_char(SetType::Included, 'g');
    assert_eq!(d.matches(), lines(&["crane", "trace", "grape", "plane", "place"]));
}

#[test]
fn clearing_a_set_keeps_the_words_found() {
    let mut d = store();
    d.add_char(SetType::Excluded, 'p');
    assert_eq!(d.matches(), lines(&["crane", "trace"]));
    d.clear_set(SetType::Excluded);
    assert_eq!(d.excluded_chars(), Vec::<char>::new());
    assert_eq!(d.matches(), lines(&["crane", "trace"]));
    d.remove_char(SetType::Excluded, 'p');
    assert_eq!(d.matches(), lines(&["crane", "trace", "grape", "plane", "place"]));
}

#[test]
fn unsetting_a_position_puts_the_words_found_aside() {
    let mut d = store();
    assert!(d.set_char_position(1, 'g').is_ok());
    assert_eq!(d.matches(), lines(&["grape"]));
    assert!(d.unset_char_position(1).is_ok());
    assert_eq!(d.matches(), lines(&["crane", "trace", "grape", "plane", "place"]));
}

#[test]
fn reset_restores_the_first_state() {
    let mut d = store();
    d.add_char(SetType::Included, 'c');
    d.add_char(SetType::Excluded, 't');
    assert!(d.set_char_position(2, 'r').is_ok());
    assert_eq!(d.matches(), lines(&["crane"]));
    d.reset();
    assert_eq!(d.length(), 5);
    assert_eq!(d.excluded_chars(), Vec::<char>::new());
    assert_eq!(d.included_chars(), Vec::<char>::new());
    assert_eq!(d.matches(), lines(&["crane", "trace", "grape", "plane", "place"]));
}

#[test]
fn an_included_letter_counts_once_however_often_it_is_needed() {
    let mut d = Dictionary::new(5, &lines(&["eerie", "crane", "light"]));
    d.add_char(SetType::Included, 'e');
    assert_eq!(d.matches(), lines(&["eerie", "crane"]));
    d.add_char(SetType::Excluded, 'r');
    assert_eq!(d.matches(), Vec::<String>::new());
}

#[test]
fn other_word_lengths_than_five() {
    let mut d = Dictionary::new(3, &lines(&["cat", "dog", "crane", "cot", "at"]));
    assert_eq!(d.length(), 3);
    assert_eq!(d.set_char_position(4, 'a').unwrap_err().kind(), ErrorKind::InvalidPosition);
    assert!(d.set_char_position(3, 't').is_ok());
    assert_eq!(d.matches(), lines(&["cat", "cot"]));
    let mut none = Dictionary::new(0, &lines(&["cat", "", "a"]));
    assert_eq!(none.matches(), lines(&[""]));
    assert_eq!(none.set_char_position(1, 'a').unwrap_err().kind(), ErrorKind::InvalidPosition);
    assert_eq!(none.set_char_position(0, 'a').unwrap_err().kind(), ErrorKind::InvalidPosition);
}

#[test]
fn a_letter_is_found_anywhere_in_a_word() {
    assert!(contains_letter("crane", 'c'));
    assert!(contains_letter("crane", 'e'));
    assert!(contains_letter("crane", 'a'));
    assert!(!contains_letter("crane", 'x'));
    assert!(!contains_letter("", 'x'));
    assert!(contains_letter("fée", 'é'));
}
