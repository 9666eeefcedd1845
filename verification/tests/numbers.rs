use para::inference::numbers::{normalize_numbers, replace_number_phrases};

fn run(words: &[&str]) -> Vec<String> {
    normalize_numbers(words)
}

#[test]
fn converts_simple_hundred_phrase() {
    assert_eq!(run(&["one", "hundred"]), vec!["100"]);
}

#[test]
fn converts_hundred_plus_tens_phrase() {
    assert_eq!(run(&["two", "hundred", "forty"]), vec!["240"]);
}

#[test]
fn converts_hundred_and_tens_phrase_with_and() {
    assert_eq!(run(&["one", "hundred", "and", "forty"]), vec!["140"]);
}

#[test]
fn converts_hundred_tens_ones_phrase() {
    assert_eq!(run(&["nine", "hundred", "ninety", "nine"]), vec!["999"]);
}

#[test]
fn converts_hundred_plus_teens_phrase() {
    assert_eq!(run(&["one", "hundred", "thirteen"]), vec!["113"]);
}

#[test]
fn converts_tens_ones_phrase() {
    assert_eq!(run(&["twenty", "one"]), vec!["21"]);
}

#[test]
fn leaves_trailing_words_after_hundred_phrase_untouched() {
    assert_eq!(
        run(&["one", "hundred", "instances"]),
        vec!["100", "instances"]
    );
}

#[test]
fn leaves_lone_number_word_unchanged() {
    assert_eq!(run(&["one", "thing"]), vec!["one", "thing"]);
    assert_eq!(run(&["twenty"]), vec!["twenty"]);
}

#[test]
fn does_not_convert_reversed_ones_tens_pattern() {
    assert_eq!(run(&["four", "eighty"]), vec!["four", "eighty"]);
}

#[test]
fn preserves_words_around_a_converted_phrase() {
    assert_eq!(
        run(&["about", "one", "hundred", "forty", "servers"]),
        vec!["about", "140", "servers"]
    );
}

#[test]
fn number_words_are_recognized_through_case_and_punctuation() {
    assert_eq!(run(&["One", "HUNDRED,", "Five."]), vec!["105"]);
    assert_eq!(run(&["(Twenty", "two)"]), vec!["22"]);
}

#[test]
fn and_without_a_following_number_is_kept() {
    assert_eq!(run(&["two", "hundred", "and", "apples"]), vec!["200", "and", "apples"]);
}

#[test]
fn zero_does_not_start_or_end_a_phrase() {
    assert_eq!(run(&["zero", "hundred"]), vec!["zero", "hundred"]);
    assert_eq!(run(&["twenty", "zero"]), vec!["twenty", "zero"]);
    assert_eq!(run(&["three", "hundred", "zero"]), vec!["300", "zero"]);
}

#[test]
fn a_single_word_is_never_converted() {
    assert_eq!(run(&["nine"]), vec!["nine"]);
    assert_eq!(run(&[]), Vec::<String>::new());
}

#[test]
fn phrases_are_found_in_the_normalized_words_and_others_kept_as_written() {
    let n = |ws: &[&str]| ws.iter().map(|w| w.to_string()).collect::<Vec<String>>();
    assert_eq!(
        replace_number_phrases(&["Two,", "Hundred!", "Apples"], &n(&["two", "hundred", "apples"])),
        vec!["200", "Apples"]
    );
    assert_eq!(replace_number_phrases(&["X", "y"], &n(&["twenty", "one"])), vec!["21"]);
    assert_eq!(
        replace_number_phrases(&["one", "hundred", "and"], &n(&["one", "hundred", "and"])),
        vec!["100", "and"]
    );
    assert_eq!(replace_number_phrases(&[], &[]), Vec::<String>::new());
}
