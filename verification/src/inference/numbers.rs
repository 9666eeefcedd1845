//! Converts spoken cardinal-number word phrases (e.g. "one hundred forty")
//! into digit form ("140"). Only multi-word phrases are converted: a bare
//! "one" or "twenty" is usually not being used as a number and stays a word.
//! Digit-by-digit readings such as "four eighty" are ambiguous with ordinary
//! speech and are left alone.

use vstd::prelude::*;
use crate::strings::{
    decimal, decimal_string, lowercase, lowercase_of, str_eq, string_from_chars, trim_end_non_alnum,
    trim_non_alnum, trim_start_non_alnum,
};

verus! {

/// `word` stripped of surrounding punctuation and lowercased: the form in
/// which number words are recognized.
pub open spec fn normalized_word(word: Seq<char>) -> Seq<char> {
    lowercase_of(trim_end_non_alnum(trim_start_non_alnum(word)))
}

/// The value of a ones word ("zero" to "nine").
pub open spec fn ones_word_value(w: Seq<char>) -> Option<u32> {
    if w == "zero"@ { Some(0) }
    else if w == "one"@ { Some(1) }
    else if w == "two"@ { Some(2) }
    else if w == "three"@ { Some(3) }
    else if w == "four"@ { Some(4) }
    else if w == "five"@ { Some(5) }
    else if w == "six"@ { Some(6) }
    else if w == "seven"@ { Some(7) }
    else if w == "eight"@ { Some(8) }
    else if w == "nine"@ { Some(9) }
    else { None }
}

/// The value of a teens word ("ten" to "nineteen").
pub open spec fn teens_word_value(w: Seq<char>) -> Option<u32> {
    if w == "ten"@ { Some(10) }
    else if w == "eleven"@ { Some(11) }
    else if w == "twelve"@ { Some(12) }
    else if w == "thirteen"@ { Some(13) }
    else if w == "fourteen"@ { Some(14) }
    else if w == "fifteen"@ { Some(15) }
    else if w == "sixteen"@ { Some(16) }
    else if w == "seventeen"@ { Some(17) }
    else if w == "eighteen"@ { Some(18) }
    else if w == "nineteen"@ { Some(19) }
    else { None }
}

/// The value of a tens word ("twenty" to "ninety").
pub open spec fn tens_word_value(w: Seq<char>) -> Option<u32> {
    if w == "twenty"@ { Some(20) }
    else if w == "thirty"@ { Some(30) }
    else if w == "forty"@ { Some(40) }
    else if w == "fifty"@ { Some(50) }
    else if w == "sixty"@ { Some(60) }
    else if w == "seventy"@ { Some(70) }
    else if w == "eighty"@ { Some(80) }
    else if w == "ninety"@ { Some(90) }
    else { None }
}

/// The value of a ones word other than "zero".
pub open spec fn nonzero_ones(w: Seq<char>) -> Option<u32> {
    match ones_word_value(w) {
        Some(v) => if v >= 1 { Some(v) } else { None },
        None => None,
    }
}

/// Token `i` of `tokens`, if there is one.
pub open spec fn token_at(tokens: Seq<Seq<char>>, i: int) -> Option<Seq<char>> {
    if 0 <= i < tokens.len() { Some(tokens[i]) } else { None }
}

/// Whether token `i` exists and has a value under `value_of`'s reading.
pub open spec fn ones_at(tokens: Seq<Seq<char>>, i: int) -> Option<u32> {
    match token_at(tokens, i) { Some(w) => nonzero_ones(w), None => None }
}

pub open spec fn teens_at(tokens: Seq<Seq<char>>, i: int) -> Option<u32> {
    match token_at(tokens, i) { Some(w) => teens_word_value(w), None => None }
}

pub open spec fn tens_at(tokens: Seq<Seq<char>>, i: int) -> Option<u32> {
    match token_at(tokens, i) { Some(w) => tens_word_value(w), None => None }
}

pub open spec fn word_is(tokens: Seq<Seq<char>>, i: int, w: Seq<char>) -> bool {
    token_at(tokens, i) == Some(w)
}

/// The phrase "<ones> hundred [and] [<tens> [<ones>] | <teens> | <ones>]"
/// starting at `start`, as its value and the number of tokens it spans. An
/// "and" that nothing numeric follows is not part of the phrase.
pub open spec fn hundred_phrase(tokens: Seq<Seq<char>>, start: int) -> Option<(u32, nat)> {
    match ones_at(tokens, start) {
        Some(h) => if word_is(tokens, start + 1, "hundred"@) {
            let base = (h * 100) as u32;
            let j = if word_is(tokens, start + 2, "and"@) { start + 3 } else { start + 2 };
            if let Some(t) = tens_at(tokens, j) {
                if let Some(o) = ones_at(tokens, j + 1) {
                    Some(((base + t + o) as u32, (j + 2 - start) as nat))
                } else {
                    Some(((base + t) as u32, (j + 1 - start) as nat))
                }
            } else if let Some(te) = teens_at(tokens, j) {
                Some(((base + te) as u32, (j + 1 - start) as nat))
            } else if let Some(o) = ones_at(tokens, j) {
                Some(((base + o) as u32, (j + 1 - start) as nat))
            } else {
                Some((base, 2))
            }
        } else {
            None
        },
        None => None,
    }
}

/// The cardinal-number phrase of two or more words starting at `start`: a
/// hundred phrase, or "<tens> <ones>" (e.g. "twenty one").
pub open spec fn number_phrase(tokens: Seq<Seq<char>>, start: int) -> Option<(u32, nat)> {
    if hundred_phrase(tokens, start) is Some {
        hundred_phrase(tokens, start)
    } else if let (Some(t), Some(o)) = (tens_at(tokens, start), ones_at(tokens, start + 1)) {
        Some(((t + o) as u32, 2))
    } else {
        None
    }
}

/// A recognized phrase spans at least two tokens, all of them present, and
/// its value is below a thousand.
pub proof fn lemma_number_phrase_shape(tokens: Seq<Seq<char>>, start: int)
    requires
        number_phrase(tokens, start) is Some,
    ensures
        number_phrase(tokens, start).unwrap().1 >= 2,
        start + number_phrase(tokens, start).unwrap().1 <= tokens.len(),
        0 <= start,
        number_phrase(tokens, start).unwrap().0 < 1000,
{
}

/// The output words for `words[i..]`, where `norm` holds their normalized forms.
pub open spec fn normalize_from(words: Seq<Seq<char>>, norm: Seq<Seq<char>>, i: int) -> Seq<Seq<char>>
    decreases norm.len() - i,
{
    if i < 0 || i >= words.len() || i >= norm.len() {
        Seq::empty()
    } else {
        match number_phrase(norm, i) {
            Some((value, consumed)) => {
                proof {
                    lemma_number_phrase_shape(norm, i);
                    assert(consumed >= 2);
                }
                seq![decimal(value as nat)] + normalize_from(words, norm, i + consumed)
            },
            None => seq![words[i]] + normalize_from(words, norm, i + 1),
        }
    }
}

/// Every recognized phrase replaced by its digits, every other word kept as written.
pub open spec fn spec_normalize_numbers(words: Seq<Seq<char>>) -> Seq<Seq<char>> {
    normalize_from(words, words.map_values(|w: Seq<char>| normalized_word(w)), 0)
}

proof fn lemma_normalize_from_len(words: Seq<Seq<char>>, norm: Seq<Seq<char>>, i: int)
    requires
        0 <= i <= words.len(),
        norm.len() == words.len(),
    ensures
        normalize_from(words, norm, i).len() <= words.len() - i,
    decreases norm.len() - i,
{
    if i < words.len() {
        match number_phrase(norm, i) {
            Some((value, consumed)) => {
                lemma_number_phrase_shape(norm, i);
                lemma_normalize_from_len(words, norm, i + consumed);
            },
            None => {
                lemma_normalize_from_len(words, norm, i + 1);
            },
        }
    }
}

/// Converting phrases never lengthens a transcript: there are at most as
/// many output words as input words.
pub proof fn law_never_more_words(words: Seq<Seq<char>>)
    ensures
        spec_normalize_numbers(words).len() <= words.len(),
{
    lemma_normalize_from_len(words, words.map_values(|w: Seq<char>| normalized_word(w)), 0);
}

proof fn lemma_identity_without_number_words(words: Seq<Seq<char>>, norm: Seq<Seq<char>>, i: int)
    requires
        0 <= i <= words.len(),
        norm.len() == words.len(),
        forall|k: int| 0 <= k < norm.len() ==> nonzero_ones(#[trigger] norm[k]) is None
            && tens_word_value(norm[k]) is None,
    ensures
        normalize_from(words, norm, i) == words.subrange(i, words.len() as int),
    decreases norm.len() - i,
{
    if i < words.len() {
        assert(ones_at(norm, i) is None);
        assert(tens_at(norm, i) is None);
        lemma_identity_without_number_words(words, norm, i + 1);
        assert(words.subrange(i, words.len() as int) =~= seq![words[i]] + words.subrange(
            i + 1,
            words.len() as int,
        ));
    } else {
        assert(words.subrange(i, words.len() as int) =~= Seq::<Seq<char>>::empty());
    }
}

/// A phrase can only start at a nonzero ones word or a tens word, so words
/// holding neither come back exactly as written.
pub proof fn law_unchanged_without_number_words(words: Seq<Seq<char>>)
    requires
        forall|k: int| 0 <= k < words.len() ==> nonzero_ones(normalized_word(#[trigger] words[k]))
            is None && tens_word_value(normalized_word(words[k])) is None,
    ensures
        spec_normalize_numbers(words) == words,
{
    let norm = words.map_values(|w: Seq<char>| normalized_word(w));
    assert forall|k: int| 0 <= k < norm.len() implies nonzero_ones(#[trigger] norm[k]) is None
        && tens_word_value(norm[k]) is None by {
        assert(norm[k] == normalized_word(words[k]));
    }
    lemma_identity_without_number_words(words, norm, 0);
    assert(words.subrange(0, words.len() as int) =~= words);
}

/// A lone word is never converted, not even a number word: only phrases of
/// two or more words are.
pub proof fn law_single_word_unchanged(word: Seq<char>)
    ensures
        spec_normalize_numbers(seq![word]) == seq![word],
{
    let words = seq![word];
    let norm = words.map_values(|w: Seq<char>| normalized_word(w));
    assert(number_phrase(norm, 0) is None);
    assert(normalize_from(words, norm, 1) =~= Seq::<Seq<char>>::empty());
    assert(normalize_from(words, norm, 0) =~= seq![word]);
}

/// The ones word of `d`, for `d` from 1 to 9.
pub open spec fn ones_name(d: int) -> Seq<char> {
    if d == 1 { "one"@ }
    else if d == 2 { "two"@ }
    else if d == 3 { "three"@ }
    else if d == 4 { "four"@ }
    else if d == 5 { "five"@ }
    else if d == 6 { "six"@ }
    else if d == 7 { "seven"@ }
    else if d == 8 { "eight"@ }
    else { "nine"@ }
}

proof fn lemma_number_word_shapes()
    ensures
        "zero"@.len() == 4 && "zero"@[0] == 'z' && "zero"@[1] == 'e',
        "one"@.len() == 3 && "one"@[0] == 'o' && "one"@[1] == 'n',
        "two"@.len() == 3 && "two"@[0] == 't' && "two"@[1] == 'w',
        "three"@.len() == 5 && "three"@[0] == 't' && "three"@[1] == 'h',
        "four"@.len() == 4 && "four"@[0] == 'f' && "four"@[1] == 'o',
        "five"@.len() == 4 && "five"@[0] == 'f' && "five"@[1] == 'i',
        "six"@.len() == 3 && "six"@[0] == 's' && "six"@[1] == 'i',
        "seven"@.len() == 5 && "seven"@[0] == 's' && "seven"@[1] == 'e',
        "eight"@.len() == 5 && "eight"@[0] == 'e' && "eight"@[1] == 'i',
        "nine"@.len() == 4 && "nine"@[0] == 'n' && "nine"@[1] == 'i',
        "ten"@.len() == 3 && "ten"@[0] == 't' && "ten"@[1] == 'e',
        "eleven"@.len() == 6 && "eleven"@[0] == 'e' && "eleven"@[1] == 'l',
        "twelve"@.len() == 6 && "twelve"@[0] == 't' && "twelve"@[1] == 'w',
        "thirteen"@.len() == 8 && "thirteen"@[0] == 't' && "thirteen"@[1] == 'h',
        "fourteen"@.len() == 8 && "fourteen"@[0] == 'f' && "fourteen"@[1] == 'o',
        "fifteen"@.len() == 7 && "fifteen"@[0] == 'f' && "fifteen"@[1] == 'i',
        "sixteen"@.len() == 7 && "sixteen"@[0] == 's' && "sixteen"@[1] == 'i',
        "seventeen"@.len() == 9 && "seventeen"@[0] == 's' && "seventeen"@[1] == 'e',
        "eighteen"@.len() == 8 && "eighteen"@[0] == 'e' && "eighteen"@[1] == 'i',
        "nineteen"@.len() == 8 && "nineteen"@[0] == 'n' && "nineteen"@[1] == 'i',
        "twenty"@.len() == 6 && "twenty"@[0] == 't' && "twenty"@[1] == 'w',
        "thirty"@.len() == 6 && "thirty"@[0] == 't' && "thirty"@[1] == 'h',
        "forty"@.len() == 5 && "forty"@[0] == 'f' && "forty"@[1] == 'o',
        "fifty"@.len() == 5 && "fifty"@[0] == 'f' && "fifty"@[1] == 'i',
        "sixty"@.len() == 5 && "sixty"@[0] == 's' && "sixty"@[1] == 'i',
        "seventy"@.len() == 7 && "seventy"@[0] == 's' && "seventy"@[1] == 'e',
        "eighty"@.len() == 6 && "eighty"@[0] == 'e' && "eighty"@[1] == 'i',
        "ninety"@.len() == 6 && "ninety"@[0] == 'n' && "ninety"@[1] == 'i',
        "hundred"@.len() == 7 && "hundred"@[0] == 'h' && "hundred"@[1] == 'u',
        "and"@.len() == 3 && "and"@[0] == 'a' && "and"@[1] == 'n',
{
    reveal_strlit("zero");
    reveal_strlit("one");
    reveal_strlit("two");
    reveal_strlit("three");
    reveal_strlit("four");
    reveal_strlit("five");
    reveal_strlit("six");
    reveal_strlit("seven");
    reveal_strlit("eight");
    reveal_strlit("nine");
    reveal_strlit("ten");
    reveal_strlit("eleven");
    reveal_strlit("twelve");
    reveal_strlit("thirteen");
    reveal_strlit("fourteen");
    reveal_strlit("fifteen");
    reveal_strlit("sixteen");
    reveal_strlit("seventeen");
    reveal_strlit("eighteen");
    reveal_strlit("nineteen");
    reveal_strlit("twenty");
    reveal_strlit("thirty");
    reveal_strlit("forty");
    reveal_strlit("fifty");
    reveal_strlit("sixty");
    reveal_strlit("seventy");
    reveal_strlit("eighty");
    reveal_strlit("ninety");
    reveal_strlit("hundred");
    reveal_strlit("and");
}

proof fn lemma_ones_name(d: int)
    requires
        1 <= d <= 9,
    ensures
        nonzero_ones(ones_name(d)) == Some(d as u32),
        teens_word_value(ones_name(d)) is None,
        tens_word_value(ones_name(d)) is None,
        ones_name(d) != "hundred"@,
        ones_name(d) != "and"@,
{
    lemma_number_word_shapes();
}

/// The teens word of `d`, for `d` from 10 to 19.
pub open spec fn teens_name(d: int) -> Seq<char> {
    if d == 10 { "ten"@ }
    else if d == 11 { "eleven"@ }
    else if d == 12 { "twelve"@ }
    else if d == 13 { "thirteen"@ }
    else if d == 14 { "fourteen"@ }
    else if d == 15 { "fifteen"@ }
    else if d == 16 { "sixteen"@ }
    else if d == 17 { "seventeen"@ }
    else if d == 18 { "eighteen"@ }
    else { "nineteen"@ }
}

/// The tens word of `10 * d`, for `d` from 2 to 9.
pub open spec fn tens_name(d: int) -> Seq<char> {
    if d == 2 { "twenty"@ }
    else if d == 3 { "thirty"@ }
    else if d == 4 { "forty"@ }
    else if d == 5 { "fifty"@ }
    else if d == 6 { "sixty"@ }
    else if d == 7 { "seventy"@ }
    else if d == 8 { "eighty"@ }
    else { "ninety"@ }
}

proof fn lemma_teens_name(d: int)
    requires
        10 <= d <= 19,
    ensures
        teens_word_value(teens_name(d)) == Some(d as u32),
        nonzero_ones(teens_name(d)) is None,
        tens_word_value(teens_name(d)) is None,
{
    lemma_number_word_shapes();
    reveal_strlit("twelve");
    reveal_strlit("twenty");
    assert("twelve"@[3] != "twenty"@[3]);
    reveal_strlit("six");
    reveal_strlit("sixteen");
    reveal_strlit("seven");
    reveal_strlit("seventeen");
    reveal_strlit("eight");
    reveal_strlit("eighteen");
    reveal_strlit("nine");
    reveal_strlit("nineteen");
    reveal_strlit("four");
    reveal_strlit("fourteen");
    reveal_strlit("thirteen");
    reveal_strlit("fifteen");
}

proof fn lemma_tens_name(d: int)
    requires
        2 <= d <= 9,
    ensures
        tens_word_value(tens_name(d)) == Some((10 * d) as u32),
        nonzero_ones(tens_name(d)) is None,
        teens_word_value(tens_name(d)) is None,
        tens_name(d) != "hundred"@,
        tens_name(d) != "and"@,
{
    lemma_number_word_shapes();
    reveal_strlit("twelve");
    reveal_strlit("twenty");
    assert("twelve"@[3] != "twenty"@[3]);
    reveal_strlit("sixty");
    reveal_strlit("seventy");
    reveal_strlit("seventeen");
    reveal_strlit("sixteen");
}

/// "<t> <o>", a tens word and a ones word from one to nine, is read as
/// 10 * t + o spanning two words.
pub proof fn law_tens_ones(tokens: Seq<Seq<char>>, s: int, t: int, o: int)
    requires
        2 <= t <= 9,
        1 <= o <= 9,
        0 <= s,
        s + 2 <= tokens.len(),
        tokens[s] == tens_name(t),
        tokens[s + 1] == ones_name(o),
    ensures
        number_phrase(tokens, s) == Some(((10 * t + o) as u32, 2nat)),
{
    lemma_tens_name(t);
    lemma_ones_name(o);
    assert(token_at(tokens, s) == Some(tens_name(t)));
    assert(token_at(tokens, s + 1) == Some(ones_name(o)));
}

/// "<h> hundred and <te>", with a teens word, is read as 100 * h + te
/// spanning four words.
pub proof fn law_hundred_and_teens(tokens: Seq<Seq<char>>, s: int, h: int, te: int)
    requires
        1 <= h <= 9,
        10 <= te <= 19,
        0 <= s,
        s + 4 <= tokens.len(),
        tokens[s] == ones_name(h),
        tokens[s + 1] == "hundred"@,
        tokens[s + 2] == "and"@,
        tokens[s + 3] == teens_name(te),
    ensures
        number_phrase(tokens, s) == Some(((100 * h + te) as u32, 4nat)),
{
    lemma_ones_name(h);
    lemma_teens_name(te);
    assert(token_at(tokens, s + 3) == Some(teens_name(te)));
}

/// "<h> hundred <t> <o>" is read as 100 * h + 10 * t + o spanning four words.
pub proof fn law_hundred_tens_ones(tokens: Seq<Seq<char>>, s: int, h: int, t: int, o: int)
    requires
        1 <= h <= 9,
        2 <= t <= 9,
        1 <= o <= 9,
        0 <= s,
        s + 4 <= tokens.len(),
        tokens[s] == ones_name(h),
        tokens[s + 1] == "hundred"@,
        tokens[s + 2] == tens_name(t),
        tokens[s + 3] == ones_name(o),
    ensures
        number_phrase(tokens, s) == Some(((100 * h + 10 * t + o) as u32, 4nat)),
{
    lemma_ones_name(h);
    lemma_tens_name(t);
    lemma_ones_name(o);
    assert(token_at(tokens, s + 2) == Some(tens_name(t)));
    assert(token_at(tokens, s + 3) == Some(ones_name(o)));
}

/// "<h> hundred and <o>", for ones words `h` and `o` from one to nine, is
/// read as the number 100 * h + o spanning all four words: the ones word
/// after "and" belongs to the phrase.
pub proof fn law_hundred_and_ones(tokens: Seq<Seq<char>>, s: int, h: int, o: int)
    requires
        1 <= h <= 9,
        1 <= o <= 9,
        0 <= s,
        s + 4 <= tokens.len(),
        tokens[s] == ones_name(h),
        tokens[s + 1] == "hundred"@,
        tokens[s + 2] == "and"@,
        tokens[s + 3] == ones_name(o),
    ensures
        number_phrase(tokens, s) == Some(((100 * h + o) as u32, 4nat)),
{
    lemma_ones_name(h);
    lemma_ones_name(o);
    assert(token_at(tokens, s + 3) == Some(ones_name(o)));
}

/// "<h> hundred <o>", for ones words `h` and `o` from one to nine, is read as
/// the number 100 * h + o spanning three words: with or without "and", the
/// phrase has the same value.
pub proof fn law_hundred_ones(tokens: Seq<Seq<char>>, s: int, h: int, o: int)
    requires
        1 <= h <= 9,
        1 <= o <= 9,
        0 <= s,
        s + 3 <= tokens.len(),
        tokens[s] == ones_name(h),
        tokens[s + 1] == "hundred"@,
        tokens[s + 2] == ones_name(o),
    ensures
        number_phrase(tokens, s) == Some(((100 * h + o) as u32, 3nat)),
{
    lemma_ones_name(h);
    lemma_ones_name(o);
    assert(token_at(tokens, s + 2) == Some(ones_name(o)));
}

/// Four words whose normalized forms read "<h> hundred and <o>" come out as
/// the one word of the digits of 100 * h + o.
pub proof fn law_hundred_and_ones_words(words: Seq<Seq<char>>, norm: Seq<Seq<char>>, h: int, o: int)
    requires
        1 <= h <= 9,
        1 <= o <= 9,
        words.len() == 4,
        norm.len() == 4,
        norm[0] == ones_name(h),
        norm[1] == "hundred"@,
        norm[2] == "and"@,
        norm[3] == ones_name(o),
    ensures
        normalize_from(words, norm, 0) == seq![decimal((100 * h + o) as nat)],
{
    law_hundred_and_ones(norm, 0, h, o);
    assert(normalize_from(words, norm, 4) =~= Seq::<Seq<char>>::empty());
    assert(seq![decimal((100 * h + o) as nat)] + Seq::<Seq<char>>::empty() =~= seq![decimal((100 * h + o) as nat)]);
}

/// Strips surrounding non-alphanumeric characters and lowercases.
fn normalize(word: &str) -> (r: String)
    ensures
        r@ == normalized_word(word@),
{
    let trimmed = string_from_chars(trim_non_alnum(word).as_slice());
    lowercase(trimmed.as_str())
}

fn ones_value(word: &str) -> (r: Option<u32>)
    ensures
        r == ones_word_value(word@),
{
    if str_eq(word, "zero") { Some(0) }
    else if str_eq(word, "one") { Some(1) }
    else if str_eq(word, "two") { Some(2) }
    else if str_eq(word, "three") { Some(3) }
    else if str_eq(word, "four") { Some(4) }
    else if str_eq(word, "five") { Some(5) }
    else if str_eq(word, "six") { Some(6) }
    else if str_eq(word, "seven") { Some(7) }
    else if str_eq(word, "eight") { Some(8) }
    else if str_eq(word, "nine") { Some(9) }
    else { None }
}

fn teens_value(word: &str) -> (r: Option<u32>)
    ensures
        r == teens_word_value(word@),
{
    if str_eq(word, "ten") { Some(10) }
    else if str_eq(word, "eleven") { Some(11) }
    else if str_eq(word, "twelve") { Some(12) }
    else if str_eq(word, "thirteen") { Some(13) }
    else if str_eq(word, "fourteen") { Some(14) }
    else if str_eq(word, "fifteen") { Some(15) }
    else if str_eq(word, "sixteen") { Some(16) }
    else if str_eq(word, "seventeen") { Some(17) }
    else if str_eq(word, "eighteen") { Some(18) }
    else if str_eq(word, "nineteen") { Some(19) }
    else { None }
}

fn tens_value(word: &str) -> (r: Option<u32>)
    ensures
        r == tens_word_value(word@),
{
    if str_eq(word, "twenty") { Some(20) }
    else if str_eq(word, "thirty") { Some(30) }
    else if str_eq(word, "forty") { Some(40) }
    else if str_eq(word, "fifty") { Some(50) }
    else if str_eq(word, "sixty") { Some(60) }
    else if str_eq(word, "seventy") { Some(70) }
    else if str_eq(word, "eighty") { Some(80) }
    else if str_eq(word, "ninety") { Some(90) }
    else { None }
}

/// The views of `tokens`.
pub open spec fn token_views(tokens: Seq<String>) -> Seq<Seq<char>> {
    tokens.map_values(|s: String| s@)
}

fn ones_token(tokens: &[String], start: usize, off: usize) -> (r: Option<u32>)
    requires
        start <= tokens@.len(),
    ensures
        r == ones_at(token_views(tokens@), start + off),
{
    if off < tokens.len() - start {
        match ones_value(tokens[start + off].as_str()) {
            Some(v) => if v >= 1 { Some(v) } else { None },
            None => None,
        }
    } else {
        None
    }
}

fn teens_token(tokens: &[String], start: usize, off: usize) -> (r: Option<u32>)
    requires
        start <= tokens@.len(),
    ensures
        r == teens_at(token_views(tokens@), start + off),
{
    if off < tokens.len() - start { teens_value(tokens[start + off].as_str()) } else { None }
}

fn tens_token(tokens: &[String], start: usize, off: usize) -> (r: Option<u32>)
    requires
        start <= tokens@.len(),
    ensures
        r == tens_at(token_views(tokens@), start + off),
{
    if off < tokens.len() - start { tens_value(tokens[start + off].as_str()) } else { None }
}

fn token_is(tokens: &[String], start: usize, off: usize, w: &str) -> (r: bool)
    requires
        start <= tokens@.len(),
    ensures
        r == word_is(token_views(tokens@), start + off, w@),
{
    if off < tokens.len() - start {
        str_eq(tokens[start + off].as_str(), w)
    } else {
        false
    }
}

/// Parses the cardinal-number phrase of two or more words at `tokens[start]`,
/// as its value and the number of tokens it spans; `None` where none starts there.
fn try_parse_number_phrase(tokens: &[String], start: usize) -> (r: Option<(u32, usize)>)
    ensures
        match r {
            Some((v, c)) => number_phrase(token_views(tokens@), start as int) == Some((v, c as nat)),
            None => number_phrase(token_views(tokens@), start as int) is None,
        },
{
    if start >= tokens.len() {
        return None;
    }
    if let Some(ones) = ones_token(tokens, start, 0) {
        if token_is(tokens, start, 1, "hundred") {
            let mut value: u32 = ones * 100;
            let mut consumed: usize = 2;
            let mut j: usize = 2;
            if token_is(tokens, start, 2, "and") {
                j = 3;
            }
            if let Some(t) = tens_token(tokens, start, j) {
                value = value + t;
                consumed = j + 1;
                if let Some(o) = ones_token(tokens, start, j + 1) {
                    value = value + o;
                    consumed = j + 2;
                }
            } else if let Some(te) = teens_token(tokens, start, j) {
                value = value + te;
                consumed = j + 1;
            } else if let Some(o) = ones_token(tokens, start, j) {
                value = value + o;
                consumed = j + 1;
            }
            return Some((value, consumed));
        }
    }
    if let Some(tens) = tens_token(tokens, start, 0) {
        if let Some(ones) = ones_token(tokens, start, 1) {
            return Some((tens + ones, 2));
        }
    }
    None
}

/// Replaces every recognized cardinal-number word phrase in `words` with its
/// digit form, leaving everything else (including lone number words) unchanged.
pub fn normalize_numbers(words: &[&str]) -> (r: Vec<String>)
    ensures
        token_views(r@) == spec_normalize_numbers(words@.map_values(|w: &str| w@)),
{
    let ghost ws = words@.map_values(|w: &str| w@);
    let ghost norm = ws.map_values(|w: Seq<char>| normalized_word(w));
    let n = words.len();
    let mut normalized: Vec<String> = Vec::new();
    let mut k: usize = 0;
    while k < n
        invariant
            n == words@.len(),
            ws == words@.map_values(|w: &str| w@),
            k <= n,
            token_views(normalized@) == norm.take(k as int),
            norm == ws.map_values(|w: Seq<char>| normalized_word(w)),
        decreases n - k,
    {
        let w = normalize(words[k]);
        assert(ws[k as int] == words@[k as int]@);
        assert(norm[k as int] == normalized_word(ws[k as int]));
        let ghost old_views = token_views(normalized@);
        normalized.push(w);
        assert(token_views(normalized@) =~= old_views.push(norm[k as int]));
        assert(norm.take(k + 1) =~= norm.take(k as int).push(norm[k as int]));
        k = k + 1;
    }
    assert(token_views(normalized@) =~= norm);
    replace_number_phrases(words, normalized.as_slice())
}

/// Replaces each cardinal-number phrase of `normalized`, the normalized forms
/// of `words`, by its digits, scanning from the left; every word outside a
/// phrase is kept as written in `words`.
pub fn replace_number_phrases(words: &[&str], normalized: &[String]) -> (r: Vec<String>)
    requires
        normalized@.len() == words@.len(),
    ensures
        token_views(r@) == normalize_from(words@.map_values(|w: &str| w@), token_views(normalized@), 0),
{
    let ghost ws = words@.map_values(|w: &str| w@);
    let ghost norm = token_views(normalized@);
    let n = words.len();
    let mut result: Vec<String> = Vec::new();
    let mut i: usize = 0;
    assert(token_views(result@) + normalize_from(ws, norm, 0) =~= normalize_from(ws, norm, 0));
    while i < n
        invariant
            n == words@.len(),
            ws == words@.map_values(|w: &str| w@),
            norm == token_views(normalized@),
            normalized@.len() == n,
            i <= n,
            normalize_from(ws, norm, 0) == token_views(result@) + normalize_from(ws, norm, i as int),
        decreases n - i,
    {
        let ghost before = token_views(result@);
        match try_parse_number_phrase(normalized, i) {
            Some((value, consumed)) => {
                proof { lemma_number_phrase_shape(norm, i as int); }
                result.push(decimal_string(value as u64));
                assert(token_views(result@) =~= before.push(decimal(value as nat)));
                i = i + consumed;
            },
            None => {
                result.push(String::from_str(words[i]));
                assert(token_views(result@) =~= before.push(ws[i as int]));
                i = i + 1;
            },
        }
    }
    assert(normalize_from(ws, norm, i as int) =~= Seq::<Seq<char>>::empty());
    assert(token_views(result@) + Seq::<Seq<char>>::empty() =~= token_views(result@));
    result
}

} // verus!
