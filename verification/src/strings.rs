//! Character-level helpers shared by the text-producing parts of the crate.

use vstd::prelude::*;

verus! {

/// An ASCII letter or digit.
pub open spec fn is_ascii_alnum(c: char) -> bool {
    ||| ('a' <= c && c <= 'z')
    ||| ('A' <= c && c <= 'Z')
    ||| ('0' <= c && c <= '9')
}

/// Unicode's `Alphabetic` or `Numeric` property of a character outside
/// ASCII, as `char::is_alphanumeric` reads it.
pub uninterp spec fn non_ascii_alphanumeric(c: char) -> bool;

/// Unicode's `Alphabetic` or `Numeric` property: among ASCII characters,
/// exactly the letters and the digits have it.
pub open spec fn is_alphanumeric_char(c: char) -> bool {
    if (c as u32) < 128 { is_ascii_alnum(c) } else { non_ascii_alphanumeric(c) }
}

/// Unicode's `White_Space` property, as `char::is_whitespace` reads it: tab,
/// line feed, vertical tab, form feed, carriage return, space, next line,
/// no-break space, and the space and separator characters of U+1680,
/// U+2000 to U+200A, U+2028, U+2029, U+202F, U+205F and U+3000.
pub open spec fn is_whitespace_char(c: char) -> bool {
    let x = c as u32;
    ||| (0x09 <= x && x <= 0x0D)
    ||| x == 0x20
    ||| x == 0x85
    ||| x == 0xA0
    ||| x == 0x1680
    ||| (0x2000 <= x && x <= 0x200A)
    ||| x == 0x2028
    ||| x == 0x2029
    ||| x == 0x202F
    ||| x == 0x205F
    ||| x == 0x3000
}

/// Every character of `s` is ASCII.
pub open spec fn is_ascii_str(s: Seq<char>) -> bool {
    forall|i: int| 0 <= i < s.len() ==> (#[trigger] s[i] as u32) < 128
}

/// `c` with an ASCII uppercase letter mapped to its lowercase letter.
pub open spec fn ascii_lower_char(c: char) -> char {
    if 'A' <= c && c <= 'Z' { ((c as u32) + 32) as char } else { c }
}

/// The full Unicode lowercase mapping of a string that holds a character
/// outside ASCII, as `str::to_lowercase` computes it.
pub uninterp spec fn non_ascii_lowercase(s: Seq<char>) -> Seq<char>;

/// The lowercase form of a string, as `str::to_lowercase` computes it: an
/// ASCII string has each uppercase letter mapped to its lowercase letter.
pub open spec fn lowercase_of(s: Seq<char>) -> Seq<char> {
    if is_ascii_str(s) { s.map_values(|c: char| ascii_lower_char(c)) } else { non_ascii_lowercase(s) }
}

/// Calls `char::is_alphanumeric`: the contract claims that ASCII letters and
/// digits are alphanumeric and other ASCII characters are not, and that
/// beyond ASCII the answer is the fixed Unicode property of the character.
#[verifier::external_body]
pub(crate) fn char_is_alphanumeric(c: char) -> (r: bool)
    ensures
        r == is_alphanumeric_char(c),
        (c as u32) >= 128 ==> r == non_ascii_alphanumeric(c),
{
    c.is_alphanumeric()
}

/// Calls `char::is_whitespace`, which is true exactly of the characters with
/// Unicode's `White_Space` property.
#[verifier::external_body]
pub(crate) fn char_is_whitespace(c: char) -> (r: bool)
    ensures
        r == is_whitespace_char(c),
{
    c.is_whitespace()
}

/// Calls `str::to_lowercase`: the contract claims that an ASCII string has its
/// uppercase letters mapped to lowercase and is otherwise unchanged, and that
/// otherwise the result is a function of the input's characters.
#[verifier::external_body]
pub(crate) fn lowercase(s: &str) -> (r: String)
    ensures
        r@ == lowercase_of(s@),
        !is_ascii_str(s@) ==> r@ == non_ascii_lowercase(s@),
{
    s.to_lowercase()
}

/// Calls `String::push`, which appends one character.
#[verifier::external_body]
pub(crate) fn push_char(s: &mut String, c: char)
    ensures
        final(s)@ == old(s)@.push(c),
{
    s.push(c)
}

/// The characters of `s`, in order.
pub fn chars_of(s: &str) -> (v: Vec<char>)
    ensures
        v@ == s@,
{
    let mut v: Vec<char> = Vec::new();
    for c in it: s.chars()
        invariant
            v@ == it.seq().take(it.index() as int),
    {
        v.push(c);
    }
    v
}


/// A `String` holding exactly the characters of `v`.
pub fn string_from_chars(v: &[char]) -> (s: String)
    ensures
        s@ == v@,
{
    let mut s = String::new();
    let n = v.len();
    let mut i: usize = 0;
    while i < n
        invariant
            n == v@.len(),
            i <= n,
            s@ == v@.take(i as int),
        decreases n - i,
    {
        push_char(&mut s, v[i]);
        assert(v@.take(i + 1) == v@.take(i as int).push(v@[i as int]));
        i = i + 1;
    }
    assert(v@.take(n as int) == v@);
    s
}

/// Whether two string slices hold the same characters.
pub fn str_eq(a: &str, b: &str) -> (r: bool)
    ensures
        r == (a@ == b@),
{
    let av = chars_of(a);
    let bv = chars_of(b);
    if av.len() != bv.len() {
        return false;
    }
    let n = av.len();
    let mut i: usize = 0;
    while i < n
        invariant
            av@ == a@,
            bv@ == b@,
            n == av@.len(),
            n == bv@.len(),
            i <= n,
            forall|j: int| 0 <= j < i ==> av@[j] == bv@[j],
        decreases n - i,
    {
        if av[i] != bv[i] {
            assert(a@[i as int] != b@[i as int]);
            return false;
        }
        i = i + 1;
    }
    assert(av@ =~= bv@);
    true
}

/// The character of the decimal digit `d`.
pub open spec fn digit_char(d: nat) -> char
    recommends
        d < 10,
{
    seq!['0', '1', '2', '3', '4', '5', '6', '7', '8', '9'][d as int]
}

/// The decimal numeral of `n`, without sign or leading zeros.
pub open spec fn decimal(n: nat) -> Seq<char>
    decreases n,
{
    if n < 10 {
        seq![digit_char(n)]
    } else {
        decimal(n / 10).push(digit_char(n % 10))
    }
}

/// `s` left-padded with zeros to at least `width` characters.
pub open spec fn zero_padded(s: Seq<char>, width: nat) -> Seq<char> {
    if s.len() >= width {
        s
    } else {
        Seq::new((width - s.len()) as nat, |i: int| '0') + s
    }
}

fn digit(d: u64) -> (c: char)
    requires
        d < 10,
    ensures
        c == digit_char(d as nat),
{
    let digits: [char; 10] = ['0', '1', '2', '3', '4', '5', '6', '7', '8', '9'];
    digits[d as usize]
}

/// The decimal numeral of `n`, as `n.to_string()` writes it.
pub fn decimal_string(n: u64) -> (s: String)
    ensures
        s@ == decimal(n as nat),
    decreases n,
{
    if n < 10 {
        let mut s = String::new();
        push_char(&mut s, digit(n));
        s
    } else {
        let mut s = decimal_string(n / 10);
        push_char(&mut s, digit(n % 10));
        s
    }
}

/// The decimal numeral of `n`, zero-padded to at least `width` digits.
pub fn padded_decimal_string(n: u64, width: usize) -> (s: String)
    ensures
        s@ == zero_padded(decimal(n as nat), width as nat),
{
    let digits = decimal_string(n);
    let len = chars_of(digits.as_str()).len();
    if len >= width {
        return digits;
    }
    let mut s = String::new();
    let mut i: usize = 0;
    while i < width - len
        invariant
            len < width,
            i <= width - len,
            s@ == Seq::new(i as nat, |k: int| '0'),
        decreases width - len - i,
    {
        push_char(&mut s, '0');
        assert(s@ =~= Seq::new((i + 1) as nat, |k: int| '0'));
        i = i + 1;
    }
    s.append(digits.as_str());
    s
}

/// `word` with every leading non-alphanumeric character removed.
pub open spec fn trim_start_non_alnum(word: Seq<char>) -> Seq<char>
    decreases word.len(),
{
    if word.len() > 0 && !is_alphanumeric_char(word[0]) {
        trim_start_non_alnum(word.drop_first())
    } else {
        word
    }
}

/// `word` with every trailing non-alphanumeric character removed.
pub open spec fn trim_end_non_alnum(word: Seq<char>) -> Seq<char>
    decreases word.len(),
{
    if word.len() > 0 && !is_alphanumeric_char(word.last()) {
        trim_end_non_alnum(word.drop_last())
    } else {
        word
    }
}

/// The characters of `word` without its leading and trailing non-alphanumeric ones.
pub fn trim_non_alnum(word: &str) -> (r: Vec<char>)
    ensures
        r@ == trim_end_non_alnum(trim_start_non_alnum(word@)),
{
    let chars = chars_of(word);
    let n = chars.len();
    assert(chars@.subrange(0, n as int) == chars@);
    let mut i: usize = 0;
    while i < n && !char_is_alphanumeric(chars[i])
        invariant
            n == chars@.len(),
            chars@ == word@,
            i <= n,
            trim_start_non_alnum(word@) == trim_start_non_alnum(chars@.subrange(i as int, n as int)),
        decreases n - i,
    {
        assert(chars@.subrange(i as int, n as int).drop_first() == chars@.subrange(i + 1, n as int));
        i = i + 1;
    }
    assert(trim_start_non_alnum(chars@.subrange(i as int, n as int)) == chars@.subrange(i as int, n as int));
    let mut j: usize = n;
    while j > i && !char_is_alphanumeric(chars[j - 1])
        invariant
            n == chars@.len(),
            chars@ == word@,
            i <= j <= n,
            trim_end_non_alnum(trim_start_non_alnum(word@)) == trim_end_non_alnum(chars@.subrange(i as int, j as int)),
        decreases j,
    {
        assert(chars@.subrange(i as int, j as int).drop_last() == chars@.subrange(i as int, j - 1));
        j = j - 1;
    }
    assert(trim_end_non_alnum(chars@.subrange(i as int, j as int)) == chars@.subrange(i as int, j as int));
    let mut r: Vec<char> = Vec::new();
    let mut k: usize = i;
    while k < j
        invariant
            n == chars@.len(),
            i <= k <= j <= n,
            r@ == chars@.subrange(i as int, k as int),
        decreases j - k,
    {
        r.push(chars[k]);
        assert(r@ =~= chars@.subrange(i as int, k + 1));
        k = k + 1;
    }
    r
}

/// The code of `c` with ASCII uppercase letters mapped to lowercase.
pub open spec fn ascii_lower_code(c: char) -> u32 {
    let x = c as u32;
    if 65 <= x <= 90 { (x + 32) as u32 } else { x }
}

/// Equal up to ASCII case, as `str::eq_ignore_ascii_case` compares.
pub open spec fn eq_ignoring_ascii_case(a: Seq<char>, b: Seq<char>) -> bool {
    &&& a.len() == b.len()
    &&& forall|i: int| 0 <= i < a.len() ==> ascii_lower_code(#[trigger] a[i]) == ascii_lower_code(b[i])
}

/// Whether `a` and `b` are equal up to ASCII case.
pub fn chars_eq_ignore_ascii_case(a: &[char], b: &str) -> (r: bool)
    ensures
        r == eq_ignoring_ascii_case(a@, b@),
{
    let bv = chars_of(b);
    if a.len() != bv.len() {
        return false;
    }
    let n = a.len();
    let mut i: usize = 0;
    while i < n
        invariant
            bv@ == b@,
            n == a@.len(),
            n == bv@.len(),
            i <= n,
            forall|j: int| 0 <= j < i ==> ascii_lower_code(#[trigger] a@[j]) == ascii_lower_code(bv@[j]),
        decreases n - i,
    {
        let x = a[i] as u32;
        let y = bv[i] as u32;
        let lx = if 65 <= x && x <= 90 { x + 32 } else { x };
        let ly = if 65 <= y && y <= 90 { y + 32 } else { y };
        if lx != ly {
            return false;
        }
        i = i + 1;
    }
    true
}

/// The pieces of `parts` joined with `sep` between neighbours.
pub open spec fn joined(parts: Seq<Seq<char>>, sep: Seq<char>) -> Seq<char>
    decreases parts.len(),
{
    if parts.len() == 0 {
        Seq::empty()
    } else if parts.len() == 1 {
        parts[0]
    } else {
        joined(parts.drop_last(), sep) + sep + parts.last()
    }
}

/// Appending one more part to a join appends the separator and the part.
pub proof fn lemma_joined_push(parts: Seq<Seq<char>>, sep: Seq<char>, p: Seq<char>)
    ensures
        joined(parts.push(p), sep) == if parts.len() == 0 { p } else { joined(parts, sep) + sep + p },
{
    assert(parts.push(p).drop_last() == parts);
}

/// Replacing the last part's content by an extension of it extends the join.
pub proof fn lemma_joined_extend_last(parts: Seq<Seq<char>>, sep: Seq<char>, c: char)
    requires
        parts.len() > 0,
    ensures
        joined(parts.update(parts.len() - 1, parts.last().push(c)), sep) == joined(parts, sep).push(c),
{
    let q = parts.update(parts.len() - 1, parts.last().push(c));
    if parts.len() > 1 {
        assert(q.drop_last() =~= parts.drop_last());
    }
}

/// A join of non-empty parts is empty exactly when there are no parts.
pub proof fn lemma_joined_empty(parts: Seq<Seq<char>>, sep: Seq<char>)
    requires
        forall|i: int| 0 <= i < parts.len() ==> (#[trigger] parts[i]).len() > 0,
    ensures
        (joined(parts, sep).len() == 0) == (parts.len() == 0),
    decreases parts.len(),
{
    if parts.len() > 1 {
        lemma_joined_empty(parts.drop_last(), sep);
        assert(parts.last() == parts[parts.len() - 1]);
    } else if parts.len() == 1 {
        assert(parts[0].len() > 0);
    }
}

/// The maximal runs of non-whitespace characters of `s`, in order, as
/// `str::split_whitespace` yields them.
pub open spec fn whitespace_words(s: Seq<char>) -> Seq<Seq<char>>
    decreases s.len(),
{
    if s.len() == 0 {
        Seq::empty()
    } else {
        let before = whitespace_words(s.drop_last());
        let c = s.last();
        if is_whitespace_char(c) {
            before
        } else if s.len() >= 2 && !is_whitespace_char(s[s.len() - 2]) && before.len() > 0 {
            before.update(before.len() - 1, before.last().push(c))
        } else {
            before.push(seq![c])
        }
    }
}

/// `s` with its whitespace runs collapsed to single spaces and removed at
/// both ends: the words of `s` joined by single spaces.
pub open spec fn collapsed_whitespace(s: Seq<char>) -> Seq<char> {
    joined(whitespace_words(s), " "@)
}

proof fn lemma_whitespace_words_nonempty(s: Seq<char>)
    ensures
        forall|i: int| 0 <= i < whitespace_words(s).len() ==> (#[trigger] whitespace_words(s)[i]).len() > 0,
        s.len() > 0 && !is_whitespace_char(s.last()) ==> whitespace_words(s).len() > 0,
    decreases s.len(),
{
    if s.len() > 0 {
        lemma_whitespace_words_nonempty(s.drop_last());
        let before = whitespace_words(s.drop_last());
        let w = whitespace_words(s);
        assert forall|i: int| 0 <= i < w.len() implies (#[trigger] w[i]).len() > 0 by {
            if i < before.len() {
                assert(before[i].len() > 0);
            }
        }
    }
}

/// The words of `s` joined by single spaces, as
/// `s.split_whitespace().collect::<Vec<_>>().join(" ")` builds it.
pub fn collapse_whitespace(s: &[char]) -> (r: Vec<char>)
    ensures
        r@ == collapsed_whitespace(s@),
{
    let mut out: Vec<char> = Vec::new();
    let mut in_word = false;
    let n = s.len();
    let mut i: usize = 0;
    while i < n
        invariant
            n == s@.len(),
            i <= n,
            out@ == collapsed_whitespace(s@.take(i as int)),
            in_word == (i > 0 && !is_whitespace_char(s@[i - 1])),
        decreases n - i,
    {
        let ghost pre = s@.take(i as int);
        let ghost words = whitespace_words(pre);
        proof {
            assert(s@.take(i + 1).drop_last() =~= pre);
            assert(s@.take(i + 1).last() == s@[i as int]);
            lemma_whitespace_words_nonempty(pre);
            lemma_joined_empty(words, " "@);
            if i > 0 {
                assert(pre.last() == s@[i - 1]);
                assert(s@.take(i + 1)[i - 1] == s@[i - 1]);
            }
        }
        let c = s[i];
        if char_is_whitespace(c) {
            in_word = false;
        } else {
            if in_word {
                proof { lemma_joined_extend_last(words, " "@, c); }
            } else {
                proof { lemma_joined_push(words, " "@, seq![c]); }
                if out.len() > 0 {
                    out.push(' ');
                }
            }
            let ghost mid = out@;
            out.push(c);
            proof {
                reveal_strlit(" ");
                if !in_word {
                    if mid.len() > 0 {
                        assert(out@ =~= joined(words, " "@) + " "@ + seq![c]);
                    } else {
                        assert(out@ =~= seq![c]);
                    }
                }
            }
            in_word = true;
        }
        i = i + 1;
    }
    assert(s@.take(n as int) =~= s@);
    out
}

} // verus!
