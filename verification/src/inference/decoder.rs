//! The SentencePiece vocabulary and the model-independent halves of greedy
//! TDT and CTC decoding: turning emitted token ids into text, grouping them
//! into timed segments, and deciding how the decode cursor moves.

use vstd::prelude::*;
use crate::inference::{segment_views, Segment, SegmentView, Transcript};
use crate::strings::{chars_of, collapse_whitespace, collapsed_whitespace, string_from_chars};

verus! {

/// The SentencePiece word-boundary marker used by this model family's vocab.
pub const WORD_BOUNDARY: char = '▁';

/// Why a vocabulary file was rejected. `line` counts from 1.
#[derive(Debug, Clone, Copy, PartialEq, Eq, Structural)]
pub enum VocabError {
    /// The line has no space before a trailing id field.
    MissingId { line: usize },
    /// The trailing id field is not a decimal number that fits a `usize`.
    NonNumericId { line: usize },
    /// The id is not the line's own zero-based index.
    IdMismatch { line: usize, id: usize },
}

/// The index at or after `i` of the first line feed in `t`, or `t.len()`.
pub open spec fn line_end(t: Seq<char>, i: int) -> int
    decreases t.len() - i,
{
    if i < 0 || i >= t.len() {
        t.len() as int
    } else if t[i] == '\n' {
        i
    } else {
        line_end(t, i + 1)
    }
}

pub proof fn lemma_line_end_bounds(t: Seq<char>, i: int)
    requires
        0 <= i <= t.len(),
    ensures
        i <= line_end(t, i) <= t.len(),
        line_end(t, i) < t.len() ==> t[line_end(t, i)] == '\n',
        forall|k: int| i <= k < line_end(t, i) ==> t[k] != '\n',
    decreases t.len() - i,
{
    if i < t.len() && t[i] != '\n' {
        lemma_line_end_bounds(t, i + 1);
    }
}

/// The lines of `t` from index `i` on, as `str::lines` yields them: split at
/// each line feed, a carriage return just before a line feed dropped, and no
/// empty line after a final line feed.
pub open spec fn lines_from(t: Seq<char>, i: int) -> Seq<Seq<char>>
    decreases t.len() - i,
{
    if i < 0 || i >= t.len() {
        Seq::empty()
    } else {
        let e = line_end(t, i);
        let raw = t.subrange(i, e);
        let line = if e < t.len() && raw.len() > 0 && raw.last() == '\r' { raw.drop_last() } else { raw };
        if e < t.len() {
            proof { lemma_line_end_bounds(t, i); }
            seq![line] + lines_from(t, e + 1)
        } else {
            seq![line]
        }
    }
}

/// The lines of `text`, as `str::lines` yields them.
pub fn text_lines(text: &str) -> (r: Vec<String>)
    ensures
        r@.map_values(|l: String| l@) == lines_from(text@, 0),
{
    let chars = chars_of(text);
    let n = chars.len();
    let ghost t = chars@;
    let mut out: Vec<String> = Vec::new();
    let mut i: usize = 0;
    assert(out@.map_values(|l: String| l@) + lines_from(t, 0) =~= lines_from(t, 0));
    while i < n
        invariant
            n == chars@.len(),
            t == chars@,
            t == text@,
            i <= n,
            lines_from(t, 0) == out@.map_values(|l: String| l@) + lines_from(t, i as int),
        decreases n - i,
    {
        let mut e = i;
        while e < n && chars[e] != '\n'
            invariant
                i <= e <= n,
                n == chars@.len(),
                line_end(t, i as int) == line_end(t, e as int),
                t == chars@,
            decreases n - e,
        {
            e = e + 1;
        }
        proof { lemma_line_end_bounds(t, i as int); }
        let mut line_to = e;
        if e < n && e > i && chars[e - 1] == '\r' {
            line_to = e - 1;
        }
        let line = string_from_chars(&chars.as_slice()[i..line_to]);
        let ghost done = out@.map_values(|l: String| l@);
        proof {
            let raw = t.subrange(i as int, e as int);
            if e < n && e > i && t[e - 1] == '\r' {
                assert(raw.drop_last() =~= line@);
            } else {
                assert(raw =~= line@);
            }
            if e < n {
                assert(lines_from(t, i as int) =~= seq![line@] + lines_from(t, e + 1));
            } else {
                assert(lines_from(t, i as int) =~= seq![line@]);
                assert(lines_from(t, n as int) =~= Seq::<Seq<char>>::empty());
            }
        }
        out.push(line);
        assert(out@.map_values(|l: String| l@) =~= done.push(line@));
        if e < n {
            assert(done + lines_from(t, i as int) =~= done.push(line@) + lines_from(t, e + 1));
            i = e + 1;
        } else {
            assert(done + lines_from(t, i as int) =~= done.push(line@) + lines_from(t, n as int));
            i = n;
        }
    }
    assert(lines_from(t, i as int) =~= Seq::<Seq<char>>::empty());
    assert(out@.map_values(|l: String| l@) + lines_from(t, i as int) =~= out@.map_values(|l: String| l@));
    out
}

/// The index of the last space in `line`, if it has one.
pub open spec fn last_space(line: Seq<char>) -> Option<int>
    decreases line.len(),
{
    if line.len() == 0 {
        None
    } else if line.last() == ' ' {
        Some(line.len() - 1)
    } else {
        last_space(line.drop_last())
    }
}

pub proof fn lemma_last_space_bound(line: Seq<char>)
    ensures
        match last_space(line) {
            Some(p) => 0 <= p < line.len() && line[p] == ' ',
            None => true,
        },
    decreases line.len(),
{
    if line.len() > 0 && line.last() != ' ' {
        lemma_last_space_bound(line.drop_last());
    }
}

/// Whether `c` is an ASCII decimal digit.
pub open spec fn is_digit(c: char) -> bool {
    '0' <= c <= '9'
}

/// The value of a string of decimal digits.
pub open spec fn digits_value(d: Seq<char>) -> nat
    decreases d.len(),
{
    if d.len() == 0 {
        0
    } else {
        digits_value(d.drop_last()) * 10 + ((d.last() as int - '0' as int) as nat)
    }
}

/// `s` without one leading `+` sign.
pub open spec fn unsigned_digits(s: Seq<char>) -> Seq<char> {
    if s.len() > 0 && s[0] == '+' { s.drop_first() } else { s }
}

/// Whether every character of `d` is a decimal digit.
pub open spec fn all_digits(d: Seq<char>) -> bool {
    forall|k: int| 0 <= k < d.len() ==> is_digit(#[trigger] d[k])
}

/// `s` read as a `usize` the way `str::parse::<usize>` reads it: an optional
/// `+`, then one or more decimal digits whose value fits a `usize`.
pub open spec fn parse_usize(s: Seq<char>) -> Option<usize> {
    let d = unsigned_digits(s);
    if d.len() == 0 || !all_digits(d) {
        None
    } else if digits_value(d) > usize::MAX {
        None
    } else {
        Some(digits_value(d) as usize)
    }
}

/// The piece that line `k` (zero-based) of a vocabulary file names, or why it is rejected.
pub open spec fn line_piece(line: Seq<char>, k: int) -> Result<Seq<char>, VocabError> {
    match last_space(line) {
        None => Err(VocabError::MissingId { line: (k + 1) as usize }),
        Some(p) => match parse_usize(line.subrange(p + 1, line.len() as int)) {
            None => Err(VocabError::NonNumericId { line: (k + 1) as usize }),
            Some(id) => if id == k {
                Ok(line.subrange(0, p))
            } else {
                Err(VocabError::IdMismatch { line: (k + 1) as usize, id })
            },
        },
    }
}

/// The pieces of a list of vocabulary lines, or the error of the first bad line.
pub open spec fn parse_lines(lines: Seq<Seq<char>>) -> Result<Seq<Seq<char>>, VocabError>
    decreases lines.len(),
{
    if lines.len() == 0 {
        Ok(Seq::empty())
    } else {
        match parse_lines(lines.drop_last()) {
            Err(e) => Err(e),
            Ok(pieces) => match line_piece(lines.last(), lines.len() - 1) {
                Err(e) => Err(e),
                Ok(p) => Ok(pieces.push(p)),
            },
        }
    }
}

/// The pieces a vocabulary file lists, one `<piece> <id>` entry per line
/// with ids counting from zero in line order, or the error of its first bad line.
pub open spec fn spec_parse_vocab(text: Seq<char>) -> Result<Seq<Seq<char>>, VocabError> {
    parse_lines(lines_from(text, 0))
}

/// The index of the first occurrence of `x` in `s`.
pub open spec fn first_index_of(s: Seq<Seq<char>>, x: Seq<char>) -> Option<int> {
    if exists|i: int| 0 <= i < s.len() && s[i] == x {
        Some(choose|i: int| 0 <= i < s.len() && s[i] == x && forall|j: int| 0 <= j < i ==> s[j] != x)
    } else {
        None
    }
}

/// Name of the blank token of the TDT/CTC decode loops.
pub open spec fn blank_token() -> Seq<char> {
    "<blk>"@
}

/// A loaded `vocab.txt`: the SentencePiece pieces in id order.
pub struct Vocab {
    pieces: Vec<String>,
    blank_id: Option<usize>,
}

/// The pieces that `ids` name, concatenated; ids outside the vocabulary are skipped.
pub open spec fn known_pieces_text(pieces: Seq<Seq<char>>, ids: Seq<i64>) -> Seq<char>
    decreases ids.len(),
{
    if ids.len() == 0 {
        Seq::empty()
    } else {
        let id = ids.last();
        let before = known_pieces_text(pieces, ids.drop_last());
        if 0 <= id < pieces.len() { before + pieces[id as int] } else { before }
    }
}

/// `s` with every word-boundary marker turned into a space.
pub open spec fn boundaries_as_spaces(s: Seq<char>) -> Seq<char> {
    s.map_values(|c: char| if c == WORD_BOUNDARY { ' ' } else { c })
}

/// The text of a sequence of token ids: their pieces concatenated, word
/// boundaries turned into spaces, whitespace runs collapsed to one space and
/// trimmed at both ends.
pub open spec fn spec_decode(pieces: Seq<Seq<char>>, ids: Seq<i64>) -> Seq<char> {
    collapsed_whitespace(boundaries_as_spaces(known_pieces_text(pieces, ids)))
}

impl View for Vocab {
    type V = Seq<Seq<char>>;

    closed spec fn view(&self) -> Seq<Seq<char>> {
        self.pieces@.map_values(|p: String| p@)
    }
}

impl Vocab {
    #[verifier::type_invariant]
    closed spec fn blank_is_first_blank_piece(&self) -> bool {
        match first_index_of(self@, blank_token()) {
            Some(i) => self.blank_id == Some(i as usize),
            None => self.blank_id is None,
        }
    }
}

proof fn lemma_parse_lines_prefix_err(lines: Seq<Seq<char>>, more: Seq<Seq<char>>, e: VocabError)
    requires
        parse_lines(lines) == Err::<Seq<Seq<char>>, VocabError>(e),
    ensures
        parse_lines(lines + more) == Err::<Seq<Seq<char>>, VocabError>(e),
    decreases more.len(),
{
    if more.len() > 0 {
        lemma_parse_lines_prefix_err(lines, more.drop_last(), e);
        assert((lines + more).drop_last() =~= lines + more.drop_last());
    } else {
        assert(lines + more =~= lines);
    }
}

/// The index of the last space in `chars[from..to]`, relative to `from`.
fn find_last_space(chars: &Vec<char>, from: usize, to: usize) -> (r: Option<usize>)
    requires
        from <= to <= chars@.len(),
    ensures
        match last_space(chars@.subrange(from as int, to as int)) {
            Some(p) => r == Some(p as usize),
            None => r is None,
        },
{
    let mut k: usize = to;
    while k > from
        invariant
            from <= k <= to <= chars@.len(),
            last_space(chars@.subrange(from as int, to as int)) == last_space(chars@.subrange(from as int, k as int)),
        decreases k,
    {
        let ghost line = chars@.subrange(from as int, k as int);
        assert(line.last() == chars@[k - 1]);
        if chars[k - 1] == ' ' {
            return Some(k - 1 - from);
        }
        assert(line.drop_last() =~= chars@.subrange(from as int, k - 1));
        k = k - 1;
    }
    assert(chars@.subrange(from as int, k as int).len() == 0);
    None
}

proof fn lemma_digits_value_push(d: Seq<char>, c: char)
    ensures
        digits_value(d.push(c)) == digits_value(d) * 10 + ((c as int - '0' as int) as nat),
{
    assert(d.push(c).drop_last() =~= d);
}

/// Reads `chars[from..to]` as `str::parse::<usize>` would.
fn parse_usize_at(chars: &Vec<char>, from: usize, to: usize) -> (r: Option<usize>)
    requires
        from <= to <= chars@.len(),
    ensures
        r == parse_usize(chars@.subrange(from as int, to as int)),
{
    let ghost s = chars@.subrange(from as int, to as int);
    let mut start = from;
    if from < to && chars[from] == '+' {
        start = from + 1;
    }
    let ghost d = chars@.subrange(start as int, to as int);
    assert(d == unsigned_digits(s));
    if start == to {
        return None;
    }
    let mut value: usize = 0;
    let mut overflow = false;
    let mut k: usize = start;
    while k < to
        invariant
            s == chars@.subrange(from as int, to as int),
            d == unsigned_digits(s),
            d.len() > 0,
            from <= start <= k <= to <= chars@.len(),
            d == chars@.subrange(start as int, to as int),
            forall|j: int| 0 <= j < k - start ==> is_digit(#[trigger] d[j]),
            !overflow ==> value as nat == digits_value(chars@.subrange(start as int, k as int)),
            overflow ==> digits_value(chars@.subrange(start as int, k as int)) > usize::MAX,
        decreases to - k,
    {
        let c = chars[k];
        assert(d[k - start] == c);
        if !('0' <= c && c <= '9') {
            assert(!is_digit(d[k - start]));
            assert(!all_digits(d));
            return None;
        }
        let digit = (c as u32 - '0' as u32) as usize;
        proof {
            assert(chars@.subrange(start as int, k + 1) =~= chars@.subrange(start as int, k as int).push(c));
            lemma_digits_value_push(chars@.subrange(start as int, k as int), c);
        }
        if !overflow {
            if value > (usize::MAX - digit) / 10 {
                overflow = true;
                assert(value * 10 + digit > usize::MAX) by (nonlinear_arith)
                    requires value > (usize::MAX - digit) / 10, digit <= 9;
            } else {
                assert(value * 10 + digit <= usize::MAX) by (nonlinear_arith)
                    requires value <= (usize::MAX - digit) / 10, digit <= 9;
                value = value * 10 + digit;
            }
        } else {
            assert(digits_value(chars@.subrange(start as int, k + 1)) >= digits_value(chars@.subrange(start as int, k as int)) * 10);
        }
        k = k + 1;
    }
    assert(chars@.subrange(start as int, to as int) =~= d);
    if overflow {
        None
    } else {
        Some(value)
    }
}

impl Vocab {
    /// Reads the `<piece> <id>` lines of a vocabulary file; each id must be its
    /// line's zero-based index. The blank token `<blk>`, if present, is located.
    pub fn from_text(text: &str) -> (r: Result<Vocab, VocabError>)
        ensures
            match r {
                Ok(v) => spec_parse_vocab(text@) == Ok::<Seq<Seq<char>>, VocabError>(v@),
                Err(e) => spec_parse_vocab(text@) == Err::<Seq<Seq<char>>, VocabError>(e),
            },
    {
        let chars = chars_of(text);
        let n = chars.len();
        let ghost t = chars@;
        let mut pieces: Vec<String> = Vec::new();
        let ghost mut done: Seq<Seq<char>> = Seq::empty();
        let mut i: usize = 0;
        assert(pieces@.map_values(|p: String| p@) =~= Seq::<Seq<char>>::empty());
        assert(done + lines_from(t, 0) =~= lines_from(t, 0));
        while i < n
            invariant
                n == chars@.len(),
                t == chars@,
                t == text@,
                i <= n,
                lines_from(t, 0) == done + lines_from(t, i as int),
                parse_lines(done) == Ok::<Seq<Seq<char>>, VocabError>(pieces@.map_values(|p: String| p@)),
                done.len() == pieces@.len(),
                pieces@.len() <= i,
            decreases n - i,
        {
            let ghost old_i = i;
            let mut e = i;
            while e < n && chars[e] != '\n'
                invariant
                    i <= e <= n,
                    n == chars@.len(),
                    line_end(t, i as int) == line_end(t, e as int),
                    t == chars@,
                decreases n - e,
            {
                e = e + 1;
            }
            proof { lemma_line_end_bounds(t, i as int); }
            let mut line_to = e;
            if e < n && e > i && chars[e - 1] == '\r' {
                line_to = e - 1;
            }
            let ghost line = t.subrange(i as int, line_to as int);
            proof {
                let raw = t.subrange(i as int, e as int);
                if e < n && e > i && t[e - 1] == '\r' {
                    assert(raw.drop_last() =~= line);
                } else {
                    assert(raw =~= line);
                }
                if e < n {
                    assert(lines_from(t, i as int) =~= seq![line] + lines_from(t, e + 1));
                    assert(done + lines_from(t, i as int) =~= done.push(line) + lines_from(t, e + 1));
                }
                assert(done.push(line).drop_last() =~= done);
            }
            let line_no = pieces.len();
            match Self::parse_line(&chars, i, line_to, line_no) {
                Err(err) => {
                    proof {
                        assert(parse_lines(done.push(line)) == Err::<Seq<Seq<char>>, VocabError>(err));
                        lemma_parse_lines_prefix_err(done.push(line), lines_from(t, e + 1), err);
                        if e >= n {
                            assert(lines_from(t, i as int) =~= seq![line]);
                            assert(done + lines_from(t, i as int) =~= done.push(line));
                            assert(lines_from(t, e + 1) =~= Seq::<Seq<char>>::empty());
                            assert(done.push(line) + lines_from(t, e + 1) =~= done.push(line));
                        }
                    }
                    return Err(err);
                },
                Ok(piece) => {
                    let ghost before = pieces@.map_values(|q: String| q@);
                    pieces.push(piece);
                    assert(pieces@.map_values(|q: String| q@) =~= before.push(piece@));
                    proof { done = done.push(line); }
                },
            }
            if e < n {
                i = e + 1;
            } else {
                proof {
                    assert(lines_from(t, n as int) =~= Seq::<Seq<char>>::empty());
                    assert(lines_from(t, old_i as int) =~= seq![line]);
                }
                i = n;
            }
        }
        assert(lines_from(t, i as int) =~= Seq::<Seq<char>>::empty());
        assert(done + lines_from(t, i as int) =~= done);
        let blank_id = Self::find_blank(&pieces);
        Ok(Vocab { pieces, blank_id })
    }

    /// The piece of the line `chars[from..to]`, which is line `line_no` (zero-based).
    fn parse_line(chars: &Vec<char>, from: usize, to: usize, line_no: usize) -> (r: Result<String, VocabError>)
        requires
            from <= to <= chars@.len(),
            line_no < usize::MAX,
        ensures
            match r {
                Ok(p) => line_piece(chars@.subrange(from as int, to as int), line_no as int) == Ok::<Seq<char>, VocabError>(p@),
                Err(e) => line_piece(chars@.subrange(from as int, to as int), line_no as int) == Err::<Seq<char>, VocabError>(e),
            },
    {
        let ghost line = chars@.subrange(from as int, to as int);
        proof { lemma_last_space_bound(line); }
        match find_last_space(chars, from, to) {
            None => Err(VocabError::MissingId { line: line_no + 1 }),
            Some(p) => {
                assert(line.subrange(p + 1, line.len() as int) =~= chars@.subrange(from + p + 1, to as int));
                match parse_usize_at(chars, from + p + 1, to) {
                    None => Err(VocabError::NonNumericId { line: line_no + 1 }),
                    Some(id) => if id != line_no {
                        Err(VocabError::IdMismatch { line: line_no + 1, id })
                    } else {
                        let piece = string_from_chars(&chars.as_slice()[from..from + p]);
                        assert(piece@ =~= line.subrange(0, p as int));
                        Ok(piece)
                    },
                }
            },
        }
    }

    /// Id of the blank token `<blk>`, if this vocab has one: the first line
    /// whose piece it is.
    pub fn blank_id(&self) -> (r: Option<usize>)
        ensures
            match first_index_of(self@, blank_token()) {
                Some(i) => r == Some(i as usize),
                None => r is None,
            },
    {
        proof { use_type_invariant(self); }
        self.blank_id
    }

    /// Number of entries in this vocab.
    pub fn len(&self) -> (r: usize)
        ensures
            r == self@.len(),
    {
        self.pieces.len()
    }

    /// Whether this vocab has no entries.
    pub fn is_empty(&self) -> (r: bool)
        ensures
            r == (self@.len() == 0),
    {
        self.pieces.len() == 0
    }

    /// Converts a sequence of token ids into text: look up each id's piece,
    /// concatenate, replace the word-boundary marker with a space, and
    /// collapse runs of whitespace to single spaces. Unknown ids are skipped.
    pub fn decode(&self, token_ids: &[i64]) -> (r: String)
        ensures
            r@ == spec_decode(self@, token_ids@),
    {
        let ghost pieces = self@;
        let mut joined: Vec<char> = Vec::new();
        let n = token_ids.len();
        let mut i: usize = 0;
        while i < n
            invariant
                n == token_ids@.len(),
                i <= n,
                pieces == self@,
                joined@ == boundaries_as_spaces(known_pieces_text(pieces, token_ids@.take(i as int))),
            decreases n - i,
        {
            let id = token_ids[i];
            let ghost before = joined@;
            assert(token_ids@.take(i + 1).drop_last() =~= token_ids@.take(i as int));
            assert(token_ids@.take(i + 1).last() == id);
            if id >= 0 && (id as u64) < (self.pieces.len() as u64) {
                let piece = chars_of(self.pieces[id as usize].as_str());
                assert(piece@ == pieces[id as int]);
                let m = piece.len();
                let mut k: usize = 0;
                while k < m
                    invariant
                        m == piece@.len(),
                        k <= m,
                        joined@ == before + boundaries_as_spaces(piece@.take(k as int)),
                    decreases m - k,
                {
                    let c = piece[k];
                    joined.push(if c == WORD_BOUNDARY { ' ' } else { c });
                    assert(boundaries_as_spaces(piece@.take(k + 1)) =~= boundaries_as_spaces(piece@.take(k as int)).push(if c == WORD_BOUNDARY { ' ' } else { c }));
                    k = k + 1;
                }
                assert(piece@.take(m as int) =~= piece@);
                let ghost known = known_pieces_text(pieces, token_ids@.take(i as int));
                assert(boundaries_as_spaces(known + piece@) =~= boundaries_as_spaces(known) + boundaries_as_spaces(piece@));
            }
            i = i + 1;
        }
        assert(token_ids@.take(n as int) =~= token_ids@);
        let collapsed = collapse_whitespace(joined.as_slice());
        string_from_chars(collapsed.as_slice())
    }

    fn find_blank(pieces: &Vec<String>) -> (r: Option<usize>)
        ensures
            match first_index_of(pieces@.map_values(|p: String| p@), blank_token()) {
                Some(i) => r == Some(i as usize),
                None => r is None,
            },
    {
        let ghost ps = pieces@.map_values(|p: String| p@);
        let n = pieces.len();
        let mut i: usize = 0;
        while i < n
            invariant
                n == pieces@.len(),
                ps == pieces@.map_values(|p: String| p@),
                i <= n,
                forall|j: int| 0 <= j < i ==> ps[j] != blank_token(),
            decreases n - i,
        {
            if crate::strings::str_eq(pieces[i].as_str(), "<blk>") {
                assert(ps[i as int] == blank_token());
                let ghost c = choose|k: int| 0 <= k < ps.len() && ps[k] == blank_token() && forall|j: int| 0 <= j < k ==> ps[j] != blank_token();
                assert(c == i as int) by {
                    if c < i as int {
                        assert(ps[c] != blank_token());
                    } else if c > i as int {
                        assert(ps[i as int] != blank_token());
                    }
                }
                return Some(i);
            }
            assert(ps[i as int] != blank_token());
            i = i + 1;
        }
        None
    }
}

/// Length of one encoder-output frame, in milliseconds (10 ms mel hop, 8x subsampling).
pub const ENCODER_FRAME_MS: u64 = 80;

/// Silence between two emitted tokens, in encoder frames, past which a new
/// phrase-level segment starts: 1.5 s of 80 ms frames, rounded down.
pub const SEGMENT_GAP_FRAMES: usize = 18;

/// Cap on consecutive emissions at one encoder frame before the TDT decoder
/// is forced to move on, so a run of zero durations cannot spin forever.
pub const MAX_TOKENS_PER_STEP: usize = 10;

/// One emitted (non-blank) token and the global encoder frame it was emitted at.
#[derive(Debug, Clone, Copy, PartialEq, Eq, Structural)]
pub struct TokenTiming {
    pub token_id: usize,
    pub frame: usize,
}

/// The ids of a list of tokens, as the decoder reads them.
pub open spec fn token_ids(ts: Seq<TokenTiming>) -> Seq<i64> {
    ts.map_values(|t: TokenTiming| t.token_id as i64)
}

/// Token `i` opens a new segment: it comes more than the segment gap after token `i - 1`.
pub open spec fn breaks_before(ts: Seq<TokenTiming>, i: int) -> bool {
    0 < i < ts.len() && ts[i].frame > ts[i - 1].frame + SEGMENT_GAP_FRAMES
}

/// The index of the first token of each segment, in order.
pub open spec fn group_starts(ts: Seq<TokenTiming>) -> Seq<int>
    decreases ts.len(),
{
    if ts.len() == 0 {
        Seq::empty()
    } else if ts.len() == 1 {
        seq![0]
    } else {
        let before = group_starts(ts.drop_last());
        if breaks_before(ts, ts.len() - 1) { before.push(ts.len() - 1) } else { before }
    }
}

/// The time in milliseconds at which encoder frame `frame` starts.
pub open spec fn frame_ms(frame: usize) -> int {
    frame * ENCODER_FRAME_MS
}

/// Segment `k` of `ts`: it runs from its first token's frame to the next
/// segment's first token, the last one to the end of the input (or at least
/// one frame past its start), and its text is its tokens decoded.
pub open spec fn token_segment(pieces: Seq<Seq<char>>, ts: Seq<TokenTiming>, k: int, duration_ms: u64) -> SegmentView {
    let starts = group_starts(ts);
    let s = starts[k];
    let e = if k + 1 < starts.len() { starts[k + 1] } else { ts.len() as int };
    let start = frame_ms(ts[s].frame);
    let end = if e < ts.len() {
        frame_ms(ts[e].frame)
    } else if duration_ms >= start + ENCODER_FRAME_MS {
        duration_ms as int
    } else {
        start + ENCODER_FRAME_MS
    };
    SegmentView {
        start_ms: start as u64,
        end_ms: end as u64,
        text: spec_decode(pieces, token_ids(ts.subrange(s, e))),
    }
}

/// The phrase-level segments of a flat, time-ordered token stream.
pub open spec fn spec_group_into_segments(pieces: Seq<Seq<char>>, ts: Seq<TokenTiming>, duration_ms: u64) -> Seq<SegmentView> {
    Seq::new(group_starts(ts).len(), |k: int| token_segment(pieces, ts, k, duration_ms))
}

/// Every token's frame, and one frame more, is a millisecond count that fits a `u64`.
pub open spec fn frames_fit_ms(ts: Seq<TokenTiming>) -> bool {
    forall|i: int| 0 <= i < ts.len() ==> (#[trigger] ts[i]).frame * ENCODER_FRAME_MS + ENCODER_FRAME_MS <= u64::MAX
}

/// The starts are strictly increasing indices into `ts`, beginning at 0, and
/// each one after the first is a break.
pub proof fn lemma_group_starts_shape(ts: Seq<TokenTiming>)
    ensures
        ts.len() > 0 ==> group_starts(ts).len() > 0 && group_starts(ts)[0] == 0,
        ts.len() == 0 ==> group_starts(ts).len() == 0,
        forall|k: int| 0 <= k < group_starts(ts).len() ==> 0 <= #[trigger] group_starts(ts)[k] < ts.len(),
        forall|k: int, l: int| 0 <= k < l < group_starts(ts).len() ==> group_starts(ts)[k] < group_starts(ts)[l],
        forall|k: int| 0 < k < group_starts(ts).len() ==> breaks_before(ts, #[trigger] group_starts(ts)[k]),
        forall|i: int| 0 < i < ts.len() && breaks_before(ts, i) ==> group_starts(ts).contains(i),
    decreases ts.len(),
{
    if ts.len() > 1 {
        let d = ts.drop_last();
        lemma_group_starts_shape(d);
        let b = group_starts(d);
        assert forall|k: int| 0 < k < b.len() implies breaks_before(ts, #[trigger] b[k]) by {
            assert(breaks_before(d, b[k]));
            assert(ts[b[k]] == d[b[k]] && ts[b[k] - 1] == d[b[k] - 1]);
        }
        assert forall|i: int| 0 < i < ts.len() && breaks_before(ts, i) implies group_starts(ts).contains(i) by {
            if i < ts.len() - 1 {
                assert(ts[i] == d[i] && ts[i - 1] == d[i - 1]);
                assert(breaks_before(d, i));
                assert(b.contains(i));
                let w = choose|w: int| 0 <= w < b.len() && b[w] == i;
                assert(group_starts(ts)[w] == i);
            } else {
                assert(group_starts(ts)[b.len() as int] == i);
            }
        }
    }
}

/// Groups a flat, time-ordered token stream into phrase-level segments,
/// splitting wherever the gap between two consecutive tokens' frames exceeds
/// [`SEGMENT_GAP_FRAMES`]. Each segment ends where the next one starts.
pub fn group_into_segments(tokens: &[TokenTiming], vocab: &Vocab, duration_ms: u64) -> (r: Vec<Segment>)
    requires
        frames_fit_ms(tokens@),
    ensures
        segment_views(r@) == spec_group_into_segments(vocab@, tokens@, duration_ms),
{
    let ghost ts = tokens@;
    let n = tokens.len();
    let mut starts: Vec<usize> = Vec::new();
    if n > 0 {
        starts.push(0);
    }
    let mut i: usize = 1;
    assert(n > 0 ==> ts.take(1).len() == 1);
    while i < n
        invariant
            ts == tokens@,
            n == ts.len(),
            1 <= i,
            n > 0 ==> i <= n,
            n > 0 ==> starts@.map_values(|x: usize| x as int) == group_starts(ts.take(i as int)),
            n == 0 ==> starts@.len() == 0,
        decreases n - i,
    {
        let ghost before = starts@.map_values(|x: usize| x as int);
        assert(ts.take(i + 1).drop_last() =~= ts.take(i as int));
        assert(ts.take(i + 1)[i as int] == ts[i as int] && ts.take(i + 1)[i - 1] == ts[i - 1]);
        if tokens[i].frame > tokens[i - 1].frame && tokens[i].frame - tokens[i - 1].frame > SEGMENT_GAP_FRAMES {
            starts.push(i);
            assert(starts@.map_values(|x: usize| x as int) =~= before.push(i as int));
        }
        i = i + 1;
    }
    if n > 0 {
        assert(ts.take(n as int) =~= ts);
    }
    let ghost gs = group_starts(ts);
    assert(starts@.map_values(|x: usize| x as int) =~= gs);
    proof { lemma_group_starts_shape(ts); }
    let m = starts.len();
    let mut segments: Vec<Segment> = Vec::new();
    let mut k: usize = 0;
    while k < m
        invariant
            ts == tokens@,
            n == ts.len(),
            frames_fit_ms(ts),
            m == starts@.len(),
            gs == group_starts(ts),
            starts@.map_values(|x: usize| x as int) == gs,
            forall|a: int| 0 <= a < gs.len() ==> 0 <= #[trigger] gs[a] < ts.len(),
            forall|a: int, b: int| 0 <= a < b < gs.len() ==> gs[a] < gs[b],
            k <= m,
            segment_views(segments@) == Seq::new(k as nat, |j: int| token_segment(vocab@, ts, j, duration_ms)),
        decreases m - k,
    {
        assert(starts@[k as int] as int == gs[k as int]);
        let s = starts[k];
        let e = if k + 1 < m { starts[k + 1] } else { n };
        if k + 1 < m {
            assert(starts@[k + 1] as int == gs[k + 1]);
        }
        let mut ids: Vec<i64> = Vec::new();
        let mut j: usize = s;
        while j < e
            invariant
                ts == tokens@,
                s <= j <= e <= n == ts.len(),
                ids@ == token_ids(ts.subrange(s as int, j as int)),
            decreases e - j,
        {
            ids.push(tokens[j].token_id as i64);
            assert(ids@ =~= token_ids(ts.subrange(s as int, j + 1)));
            j = j + 1;
        }
        let text = vocab.decode(ids.as_slice());
        assert(ts[s as int] == tokens@[s as int]);
        let start = tokens[s].frame as u64 * ENCODER_FRAME_MS;
        let end = if e < n {
            assert(ts[e as int] == tokens@[e as int]);
            tokens[e].frame as u64 * ENCODER_FRAME_MS
        } else if duration_ms >= start + ENCODER_FRAME_MS {
            duration_ms
        } else {
            start + ENCODER_FRAME_MS
        };
        let ghost before = segment_views(segments@);
        let seg = Segment { start_ms: start, end_ms: end, text };
        proof {
            let want = token_segment(vocab@, ts, k as int, duration_ms);
            assert(gs[k as int] == s as int);
            assert(want.start_ms == seg.start_ms);
            assert(want.end_ms == seg.end_ms);
            assert(want.text == seg.text@);
            assert(seg@ == want);
        }
        let ghost seg_view = seg@;
        segments.push(seg);
        assert(segment_views(segments@) =~= before.push(seg_view));
        assert(segment_views(segments@) =~= Seq::new((k + 1) as nat, |j: int| token_segment(vocab@, ts, j, duration_ms)));
        k = k + 1;
    }
    segments
}

/// Phrase segments of a time-ordered token stream are ordered and do not
/// overlap: each ends strictly after it starts, and ends exactly where the
/// next one starts. There is a segment exactly when there is a token, and the
/// first starts at the first token.
pub proof fn law_token_segments_contiguous(pieces: Seq<Seq<char>>, ts: Seq<TokenTiming>, duration_ms: u64)
    requires
        frames_fit_ms(ts),
        forall|i: int, j: int| 0 <= i <= j < ts.len() ==> ts[i].frame <= ts[j].frame,
    ensures
        ({
            let segs = spec_group_into_segments(pieces, ts, duration_ms);
            &&& (segs.len() == 0) == (ts.len() == 0)
            &&& ts.len() > 0 ==> segs[0].start_ms == frame_ms(ts[0].frame)
            &&& forall|k: int| 0 <= k < segs.len() ==> (#[trigger] segs[k]).start_ms < segs[k].end_ms
            &&& forall|k: int| 0 <= k < segs.len() - 1 ==> (#[trigger] segs[k]).end_ms == segs[k + 1].start_ms
        }),
{
    lemma_group_starts_shape(ts);
    let segs = spec_group_into_segments(pieces, ts, duration_ms);
    let gs = group_starts(ts);
    assert forall|k: int| 0 <= k < segs.len() implies (#[trigger] segs[k]).start_ms < segs[k].end_ms by {
        let st = gs[k];
        assert(ts[st].frame * ENCODER_FRAME_MS + ENCODER_FRAME_MS <= u64::MAX);
        if k + 1 < gs.len() {
            let e = gs[k + 1];
            assert(breaks_before(ts, e));
            assert(ts[st].frame <= ts[e - 1].frame);
            assert(ts[e].frame * ENCODER_FRAME_MS + ENCODER_FRAME_MS <= u64::MAX);
        }
    }
    assert forall|k: int| 0 <= k < segs.len() - 1 implies (#[trigger] segs[k]).end_ms == segs[k + 1].start_ms by {
        let e = gs[k + 1];
        assert(ts[e].frame * ENCODER_FRAME_MS + ENCODER_FRAME_MS <= u64::MAX);
    }
    if ts.len() > 0 {
        assert(ts[0].frame * ENCODER_FRAME_MS + ENCODER_FRAME_MS <= u64::MAX);
    }
}

/// The transcript of a TDT decode: the text of every token, grouped into
/// phrase segments.
pub fn transcript_from_tdt_tokens(tokens: &[TokenTiming], vocab: &Vocab, model_id: &str, duration_ms: u64) -> (r: Transcript)
    requires
        frames_fit_ms(tokens@),
    ensures
        r.text@ == spec_decode(vocab@, token_ids(tokens@)),
        segment_views(r.segments@) == spec_group_into_segments(vocab@, tokens@, duration_ms),
        r.model@ == model_id@,
        r.duration_ms == duration_ms,
{
    let mut ids: Vec<i64> = Vec::new();
    let n = tokens.len();
    let mut j: usize = 0;
    while j < n
        invariant
            n == tokens@.len(),
            j <= n,
            ids@ == token_ids(tokens@.take(j as int)),
        decreases n - j,
    {
        ids.push(tokens[j].token_id as i64);
        assert(ids@ =~= token_ids(tokens@.take(j + 1)));
        j = j + 1;
    }
    assert(tokens@.take(n as int) =~= tokens@);
    let text = vocab.decode(ids.as_slice());
    let segments = group_into_segments(tokens, vocab, duration_ms);
    Transcript { text, segments, model: String::from_str(model_id), duration_ms }
}

/// The transcript of a CTC decode: CTC models give no finer timing, so the
/// whole text is one segment spanning the input, or there is no segment at
/// all when nothing was recognized.
pub fn transcript_from_ctc_tokens(tokens: &[TokenTiming], vocab: &Vocab, model_id: &str, duration_ms: u64) -> (r: Transcript)
    ensures
        r.text@ == spec_decode(vocab@, token_ids(tokens@)),
        r.text@.len() == 0 ==> r.segments@.len() == 0,
        r.text@.len() > 0 ==> segment_views(r.segments@) == seq![SegmentView { start_ms: 0, end_ms: duration_ms, text: r.text@ }],
        r.model@ == model_id@,
        r.duration_ms == duration_ms,
{
    let mut ids: Vec<i64> = Vec::new();
    let n = tokens.len();
    let mut j: usize = 0;
    while j < n
        invariant
            n == tokens@.len(),
            j <= n,
            ids@ == token_ids(tokens@.take(j as int)),
        decreases n - j,
    {
        ids.push(tokens[j].token_id as i64);
        assert(ids@ =~= token_ids(tokens@.take(j + 1)));
        j = j + 1;
    }
    assert(tokens@.take(n as int) =~= tokens@);
    let text = vocab.decode(ids.as_slice());
    let mut segments: Vec<Segment> = Vec::new();
    if chars_of(text.as_str()).len() > 0 {
        segments.push(Segment { start_ms: 0, end_ms: duration_ms, text: text.clone() });
        assert(segment_views(segments@) =~= seq![SegmentView { start_ms: 0, end_ms: duration_ms, text: text@ }]);
    }
    Transcript { text, segments, model: String::from_str(model_id), duration_ms }
}

/// The tokens greedy CTC decoding emits from per-frame winners: a frame's
/// token is emitted unless it is blank or repeats the previous frame's token.
pub open spec fn ctc_emissions(frame_tokens: Seq<usize>, blank_id: usize, frame_offset: usize) -> Seq<TokenTiming>
    decreases frame_tokens.len(),
{
    if frame_tokens.len() == 0 {
        Seq::empty()
    } else {
        let t = frame_tokens.len() - 1;
        let before = ctc_emissions(frame_tokens.drop_last(), blank_id, frame_offset);
        let tok = frame_tokens[t];
        let prev = if t == 0 { blank_id } else { frame_tokens[t - 1] };
        if tok != blank_id && tok != prev {
            before.push(TokenTiming { token_id: tok, frame: (frame_offset + t) as usize })
        } else {
            before
        }
    }
}

/// Collapses one chunk's per-frame winning tokens (already with low-margin
/// winners replaced by blank): repeats collapse to one token and blanks drop out.
pub fn collapse_ctc_tokens(frame_tokens: &[usize], blank_id: usize, frame_offset: usize) -> (r: Vec<TokenTiming>)
    requires
        frame_offset + frame_tokens@.len() <= usize::MAX,
    ensures
        r@ == ctc_emissions(frame_tokens@, blank_id, frame_offset),
{
    let mut out: Vec<TokenTiming> = Vec::new();
    let mut prev_token = blank_id;
    let n = frame_tokens.len();
    let mut t: usize = 0;
    while t < n
        invariant
            n == frame_tokens@.len(),
            frame_offset + n <= usize::MAX,
            t <= n,
            prev_token == if t == 0 { blank_id } else { frame_tokens@[t - 1] },
            out@ == ctc_emissions(frame_tokens@.take(t as int), blank_id, frame_offset),
        decreases n - t,
    {
        assert(frame_tokens@.take(t + 1).drop_last() =~= frame_tokens@.take(t as int));
        assert(t > 0 ==> frame_tokens@.take(t + 1)[t - 1] == frame_tokens@[t - 1]);
        let token = frame_tokens[t];
        if token != blank_id && token != prev_token {
            out.push(TokenTiming { token_id: token, frame: frame_offset + t });
        }
        prev_token = token;
        t = t + 1;
    }
    assert(frame_tokens@.take(n as int) =~= frame_tokens@);
    out
}

/// Where greedy TDT decoding stands within one chunk: the frame it is at, and
/// how many tokens it has emitted there without moving on.
#[derive(Debug, Clone, Copy, PartialEq, Eq, Structural)]
pub struct TdtCursor {
    pub frame: usize,
    pub emitted_at_frame: usize,
}

/// The cursor after the joint network picks `token` and `duration` at it:
/// a non-blank token is emitted; a nonzero duration skips that many frames;
/// otherwise a blank, or the emission cap, moves to the next frame.
pub open spec fn tdt_next(c: TdtCursor, token: usize, duration: usize, blank_id: usize) -> TdtCursor {
    let emitted = if token != blank_id { c.emitted_at_frame + 1 } else { c.emitted_at_frame as int };
    if duration > 0 {
        TdtCursor { frame: (c.frame + duration) as usize, emitted_at_frame: 0 }
    } else if token == blank_id || emitted >= MAX_TOKENS_PER_STEP {
        TdtCursor { frame: (c.frame + 1) as usize, emitted_at_frame: 0 }
    } else {
        TdtCursor { frame: c.frame, emitted_at_frame: emitted as usize }
    }
}

impl TdtCursor {
    /// A cursor at the first frame of a chunk.
    pub fn new() -> (r: TdtCursor)
        ensures
            r == (TdtCursor { frame: 0, emitted_at_frame: 0 }),
    {
        TdtCursor { frame: 0, emitted_at_frame: 0 }
    }

    /// Advances past one joint-network decision; returns whether `token` is
    /// emitted (any token but blank).
    pub fn step(&mut self, token: usize, duration: usize, blank_id: usize) -> (emitted: bool)
        requires
            old(self).emitted_at_frame < MAX_TOKENS_PER_STEP,
            old(self).frame + duration + 1 <= usize::MAX,
        ensures
            emitted == (token != blank_id),
            *final(self) == tdt_next(*old(self), token, duration, blank_id),
            final(self).emitted_at_frame < MAX_TOKENS_PER_STEP,
            duration > 0 ==> final(self).frame == old(self).frame + duration && final(self).emitted_at_frame == 0,
    {
        let emitted = token != blank_id;
        if emitted {
            self.emitted_at_frame = self.emitted_at_frame + 1;
        }
        if duration > 0 {
            self.frame = self.frame + duration;
            self.emitted_at_frame = 0;
        } else if token == blank_id || self.emitted_at_frame >= MAX_TOKENS_PER_STEP {
            self.frame = self.frame + 1;
            self.emitted_at_frame = 0;
        }
        emitted
    }
}

/// Every step of the TDT decoder makes progress, whatever the joint network
/// answers: either it moves to a later frame, or it stays and counts one more
/// emission there, never reaching the cap; so `frame * MAX_TOKENS_PER_STEP +
/// emitted_at_frame` strictly grows with each step.
pub proof fn law_tdt_step_progress(c: TdtCursor, token: usize, duration: usize, blank_id: usize)
    requires
        c.emitted_at_frame < MAX_TOKENS_PER_STEP,
        c.frame + duration + 1 <= usize::MAX,
    ensures
        tdt_next(c, token, duration, blank_id).frame > c.frame
            || (tdt_next(c, token, duration, blank_id).frame == c.frame
                && tdt_next(c, token, duration, blank_id).emitted_at_frame == c.emitted_at_frame + 1),
        tdt_next(c, token, duration, blank_id).emitted_at_frame < MAX_TOKENS_PER_STEP,
        tdt_next(c, token, duration, blank_id).frame * MAX_TOKENS_PER_STEP
            + tdt_next(c, token, duration, blank_id).emitted_at_frame
            > c.frame * MAX_TOKENS_PER_STEP + c.emitted_at_frame,
{
}

/// How one TDT decision moves the cursor, whatever the token: a positive
/// predicted duration skips exactly that many frames, blank or not; with no
/// duration, a blank moves to the next frame; a non-blank token stays on the
/// frame and counts one more emission, until the tenth emission there moves
/// on. Moving on always resets the count.
pub proof fn law_tdt_step_rules(c: TdtCursor, token: usize, duration: usize, blank_id: usize)
    requires
        c.frame + duration + 1 <= usize::MAX,
    ensures
        duration > 0 ==> tdt_next(c, token, duration, blank_id) == (TdtCursor { frame: (c.frame + duration) as usize, emitted_at_frame: 0 }),
        duration == 0 && token == blank_id ==> tdt_next(c, token, duration, blank_id) == (TdtCursor { frame: (c.frame + 1) as usize, emitted_at_frame: 0 }),
        duration == 0 && token != blank_id && c.emitted_at_frame + 1 >= 10
            ==> tdt_next(c, token, duration, blank_id) == (TdtCursor { frame: (c.frame + 1) as usize, emitted_at_frame: 0 }),
        duration == 0 && token != blank_id && c.emitted_at_frame + 1 < 10
            ==> tdt_next(c, token, duration, blank_id) == (TdtCursor { frame: c.frame, emitted_at_frame: (c.emitted_at_frame + 1) as usize }),
{
}

} // verus!
