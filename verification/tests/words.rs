use girdle::words::{admit_word, find_dictionary, read_words};
use girdle::{Dictionary, Error, ErrorKind};

fn lines(words: &[&str]) -> Vec<String> {
    words.iter().map(|w| w.to_string()).collect()
}

#[test]
fn only_lines_of_the_length_are_kept_in_lower_case() {
    let source = lines(&["cat", "Crane", "letters", "PLACE", "abc", "grape"]);
    assert_eq!(read_words(&source, 5), lines(&["crane", "place", "grape"]));
    let mut d = Dictionary::new(5, &source);
    assert_eq!(d.matches(), lines(&["crane", "place", "grape"]));
}

#[test]
fn a_source_without_fitting_lines_gives_no_words() {
    assert_eq!(read_words(&lines(&["cat", "letters", ""]), 5), Vec::<String>::new());
    assert_eq!(read_words(&Vec::new(), 5), Vec::<String>::new());
    let mut d = Dictionary::new(5, &Vec::new());
    assert_eq!(d.matches(), Vec::<String>::new());
}

#[test]
fn length_is_counted_in_letters() {
    assert_eq!(read_words(&lines(&["Élève", "eleve", "élèves"]), 5), lines(&["élève", "eleve"]));
}

#[test]
fn a_line_whose_lower_case_form_is_longer_is_passed_over() {
    assert_eq!(read_words(&lines(&["İcers", "icers"]), 5), lines(&["icers"]));
}

#[test]
fn admitting_a_word_takes_both_lengths() {
    assert_eq!(admit_word("Crane", "crane".to_string(), 5), Some("crane".to_string()));
    assert_eq!(admit_word("Crane", "crane".to_string(), 4), None);
    assert_eq!(admit_word("Cran", "crane".to_string(), 5), None);
    assert_eq!(admit_word("Crane", "cranes".to_string(), 5), None);
    assert_eq!(admit_word("", String::new(), 0), Some(String::new()));
}

#[test]
fn the_first_place_that_is_present_is_taken() {
    assert_eq!(find_dictionary(&vec![true, true]).unwrap(), 0);
    assert_eq!(find_dictionary(&vec![false, true, true]).unwrap(), 1);
    assert_eq!(find_dictionary(&vec![false, false, true]).unwrap(), 2);
}

#[test]
fn no_place_present_is_not_found() {
    for present in [vec![], vec![false], vec![false, false]] {
        let error = find_dictionary(&present).unwrap_err();
        assert_eq!(error.kind(), ErrorKind::NotFound);
        assert_eq!(error.message(), "Unable to find a word database.");
        assert!(error.source().is_none());
    }
}

#[test]
fn an_error_shows_its_message_and_its_cause() {
    let plain = Error::new("Unable to find a word database.");
    assert_eq!(plain.kind(), ErrorKind::NotFound);
    assert_eq!(plain.message(), "Unable to find a word database.");
    assert!(plain.source().is_none());
    let io = Error::io_failure("permission denied");
    assert_eq!(io.kind(), ErrorKind::IoFailure);
    assert_eq!(io.source(), Some(&"permission denied".to_string()));
    assert_eq!(io.message(), "IO Error: permission denied");
    let pos = Error::invalid_position();
    assert_eq!(pos.kind(), ErrorKind::InvalidPosition);
    assert_eq!(pos.message(), "`pos` must be between 1 and the length of the words.");
    assert!(pos.source().is_none());
}
