//! Groups the recognizer's flat word sequence into pause-delimited
//! paragraphs and drops non-lexical filler words ("um", "uh", ...).

use vstd::prelude::*;
use crate::inference::{segment_views, Segment, SegmentView};
use crate::inference::swift_bridge::{word_views, WordTiming, WordTimingView};
use crate::strings::{
    ascii_lower_code, chars_eq_ignore_ascii_case, eq_ignoring_ascii_case, is_alphanumeric_char, joined, lemma_joined_push, trim_end_non_alnum,
    trim_non_alnum, trim_start_non_alnum,
};

verus! {

/// Silence (milliseconds) between two consecutive words past which a new
/// segment, and paragraph, starts.
pub const SEGMENT_GAP_MS: u64 = 1500;

/// Whether `word`, stripped of surrounding punctuation, is one of the filler
/// words "um", "uh", "hmm", "mm", "mhm", "mmm", in any ASCII case.
pub open spec fn is_filler_word(word: Seq<char>) -> bool {
    let t = trim_end_non_alnum(trim_start_non_alnum(word));
    ||| eq_ignoring_ascii_case(t, "um"@)
    ||| eq_ignoring_ascii_case(t, "uh"@)
    ||| eq_ignoring_ascii_case(t, "hmm"@)
    ||| eq_ignoring_ascii_case(t, "mm"@)
    ||| eq_ignoring_ascii_case(t, "mhm"@)
    ||| eq_ignoring_ascii_case(t, "mmm"@)
}

/// The non-lexical filler words a transcript drops, in lowercase.
pub open spec fn filler_names() -> Seq<Seq<char>> {
    seq!["um"@, "uh"@, "hmm"@, "mm"@, "mhm"@, "mmm"@]
}

/// No character of `s` is alphanumeric.
pub open spec fn all_non_alnum(s: Seq<char>) -> bool {
    forall|i: int| 0 <= i < s.len() ==> !is_alphanumeric_char(#[trigger] s[i])
}

proof fn lemma_trim_start_prefix(p: Seq<char>, r: Seq<char>)
    requires
        all_non_alnum(p),
        r.len() > 0,
        is_alphanumeric_char(r[0]),
    ensures
        trim_start_non_alnum(p + r) == r,
    decreases p.len(),
{
    if p.len() == 0 {
        assert(p + r =~= r);
    } else {
        assert((p + r)[0] == p[0]);
        assert((p + r).drop_first() =~= p.drop_first() + r);
        assert forall|i: int| 0 <= i < p.drop_first().len() implies !is_alphanumeric_char(#[trigger] p.drop_first()[i]) by {
            assert(p.drop_first()[i] == p[i + 1]);
        }
        lemma_trim_start_prefix(p.drop_first(), r);
    }
}

proof fn lemma_trim_end_suffix(r: Seq<char>, s: Seq<char>)
    requires
        all_non_alnum(s),
        r.len() > 0,
        is_alphanumeric_char(r.last()),
    ensures
        trim_end_non_alnum(r + s) == r,
    decreases s.len(),
{
    if s.len() == 0 {
        assert(r + s =~= r);
    } else {
        assert((r + s).last() == s.last());
        assert((r + s).drop_last() =~= r + s.drop_last());
        assert forall|i: int| 0 <= i < s.drop_last().len() implies !is_alphanumeric_char(#[trigger] s.drop_last()[i]) by {
            assert(s.drop_last()[i] == s[i]);
        }
        lemma_trim_end_suffix(r, s.drop_last());
    }
}

proof fn lemma_letter_up_to_case(c: char, l: char)
    requires
        'a' <= l && l <= 'z',
        ascii_lower_code(c) == ascii_lower_code(l),
    ensures
        is_alphanumeric_char(c),
{
}

/// The filler words are exactly the six of [`filler_names`]: a word is a
/// filler when, stripped of its leading and trailing non-alphanumeric
/// characters, it is one of them up to ASCII case, and only then.
pub proof fn law_filler_words_are_the_six(word: Seq<char>)
    ensures
        is_filler_word(word) <==> exists|k: int| 0 <= k < 6
            && eq_ignoring_ascii_case(trim_end_non_alnum(trim_start_non_alnum(word)), #[trigger] filler_names()[k]),
{
    let t = trim_end_non_alnum(trim_start_non_alnum(word));
    let f = filler_names();
    if is_filler_word(word) {
        if eq_ignoring_ascii_case(t, "um"@) { assert(f[0] == "um"@); }
        else if eq_ignoring_ascii_case(t, "uh"@) { assert(f[1] == "uh"@); }
        else if eq_ignoring_ascii_case(t, "hmm"@) { assert(f[2] == "hmm"@); }
        else if eq_ignoring_ascii_case(t, "mm"@) { assert(f[3] == "mm"@); }
        else if eq_ignoring_ascii_case(t, "mhm"@) { assert(f[4] == "mhm"@); }
        else { assert(f[5] == "mmm"@); }
    }
}

/// Each of the six filler words counts as a filler in any ASCII case and
/// wrapped in any punctuation: `p`, then the word, then `s`, where neither
/// `p` nor `s` holds an alphanumeric character.
pub proof fn law_fillers_in_any_case_and_punctuation(p: Seq<char>, core: Seq<char>, s: Seq<char>, k: int)
    requires
        0 <= k < 6,
        eq_ignoring_ascii_case(core, filler_names()[k]),
        all_non_alnum(p),
        all_non_alnum(s),
    ensures
        is_filler_word(p + core + s),
{
    reveal_strlit("um");
    reveal_strlit("uh");
    reveal_strlit("hmm");
    reveal_strlit("mm");
    reveal_strlit("mhm");
    reveal_strlit("mmm");
    let name = filler_names()[k];
    assert(name.len() >= 2);
    assert forall|i: int| 0 <= i < name.len() implies 'a' <= #[trigger] name[i] && name[i] <= 'z' by {
        if k == 0 { assert(name == "um"@); }
        else if k == 1 { assert(name == "uh"@); }
        else if k == 2 { assert(name == "hmm"@); }
        else if k == 3 { assert(name == "mm"@); }
        else if k == 4 { assert(name == "mhm"@); }
        else { assert(name == "mmm"@); }
    }
    assert(core.len() == name.len());
    assert(ascii_lower_code(core[0]) == ascii_lower_code(name[0]));
    lemma_letter_up_to_case(core[0], name[0]);
    let last = core.len() - 1;
    assert(ascii_lower_code(core[last]) == ascii_lower_code(name[last]));
    lemma_letter_up_to_case(core[last], name[last]);
    assert(core.last() == core[last]);
    assert((core + s)[0] == core[0]);
    lemma_trim_start_prefix(p, core + s);
    assert(p + core + s =~= p + (core + s));
    lemma_trim_end_suffix(core, s);
    assert(trim_end_non_alnum(trim_start_non_alnum(p + core + s)) == core);
    if k == 0 { assert(name == "um"@); }
    else if k == 1 { assert(name == "uh"@); }
    else if k == 2 { assert(name == "hmm"@); }
    else if k == 3 { assert(name == "mm"@); }
    else if k == 4 { assert(name == "mhm"@); }
    else { assert(name == "mmm"@); }
}

/// Word `i` starts a new group: it begins more than the segment gap after
/// the previous word ends.
pub open spec fn starts_new_group(words: Seq<WordTimingView>, i: int) -> bool {
    0 < i < words.len() && words[i].start_ms > words[i - 1].end_ms + SEGMENT_GAP_MS
}

/// `words` cut into maximal runs with no gap longer than the segment gap.
pub open spec fn word_groups(words: Seq<WordTimingView>) -> Seq<Seq<WordTimingView>>
    decreases words.len(),
{
    if words.len() == 0 {
        Seq::empty()
    } else {
        let before = word_groups(words.drop_last());
        let i = words.len() - 1;
        if i == 0 || starts_new_group(words, i) || before.len() == 0 {
            before.push(seq![words[i]])
        } else {
            before.update(before.len() - 1, before.last().push(words[i]))
        }
    }
}

/// The words of `words` that are not fillers, in order.
pub open spec fn spoken_words(words: Seq<WordTimingView>) -> Seq<WordTimingView>
    decreases words.len(),
{
    if words.len() == 0 {
        Seq::empty()
    } else {
        let before = spoken_words(words.drop_last());
        if is_filler_word(words.last().word) { before } else { before.push(words.last()) }
    }
}

/// The text of a run of words: their spellings joined by single spaces.
pub open spec fn words_text(words: Seq<WordTimingView>) -> Seq<char> {
    joined(words.map_values(|w: WordTimingView| w.word), " "@)
}

/// The segment a group yields: from its first to its last spoken word, with
/// the spoken words as text; none for a group of fillers only.
pub open spec fn group_segment(group: Seq<WordTimingView>) -> Option<SegmentView> {
    let s = spoken_words(group);
    if s.len() == 0 {
        None
    } else {
        Some(SegmentView { start_ms: s[0].start_ms, end_ms: s.last().end_ms, text: words_text(s) })
    }
}

/// The segments of a list of groups, in order.
pub open spec fn segments_of_groups(groups: Seq<Seq<WordTimingView>>) -> Seq<SegmentView>
    decreases groups.len(),
{
    if groups.len() == 0 {
        Seq::empty()
    } else {
        let before = segments_of_groups(groups.drop_last());
        match group_segment(groups.last()) {
            Some(s) => before.push(s),
            None => before,
        }
    }
}

/// The segments `build_segments` produces for `words`.
pub open spec fn spec_build_segments(words: Seq<WordTimingView>) -> Seq<SegmentView> {
    segments_of_groups(word_groups(words))
}

/// Whether `word` is a filler word.
pub fn is_filler(word: &str) -> (r: bool)
    ensures
        r == is_filler_word(word@),
{
    let t = trim_non_alnum(word);
    let t = t.as_slice();
    chars_eq_ignore_ascii_case(t, "um") || chars_eq_ignore_ascii_case(t, "uh")
        || chars_eq_ignore_ascii_case(t, "hmm") || chars_eq_ignore_ascii_case(t, "mm")
        || chars_eq_ignore_ascii_case(t, "mhm") || chars_eq_ignore_ascii_case(t, "mmm")
}

proof fn lemma_words_text_push(words: Seq<WordTimingView>, w: WordTimingView)
    ensures
        words_text(words.push(w)) == if words.len() == 0 { w.word } else { words_text(words) + " "@ + w.word },
{
    let f = |x: WordTimingView| x.word;
    assert(words.push(w).map_values(f) =~= words.map_values(f).push(w.word));
    lemma_joined_push(words.map_values(f), " "@, w.word);
}

/// The segment that `words[from..to]` yields.
fn finish_segment(words: &[WordTiming], from: usize, to: usize) -> (r: Option<Segment>)
    requires
        from <= to <= words@.len(),
    ensures
        match r {
            Some(s) => group_segment(word_views(words@).subrange(from as int, to as int)) == Some(s@),
            None => group_segment(word_views(words@).subrange(from as int, to as int)) is None,
        },
{
    let ghost views = word_views(words@);
    let mut text = String::new();
    let mut any = false;
    let mut start_ms: u64 = 0;
    let mut end_ms: u64 = 0;
    let mut k: usize = from;
    assert(views.subrange(from as int, from as int) =~= Seq::<WordTimingView>::empty());
    while k < to
        invariant
            from <= k <= to <= words@.len(),
            views == word_views(words@),
            ({
                let sp = spoken_words(views.subrange(from as int, k as int));
                &&& any == (sp.len() > 0)
                &&& any ==> start_ms == sp[0].start_ms && end_ms == sp.last().end_ms
                &&& text@ == words_text(sp)
            }),
        decreases to - k,
    {
        let ghost before = spoken_words(views.subrange(from as int, k as int));
        assert(views.subrange(from as int, k + 1).drop_last() =~= views.subrange(from as int, k as int));
        assert(views[k as int] == words@[k as int]@);
        if !is_filler(words[k].word.as_str()) {
            proof { lemma_words_text_push(before, views[k as int]); }
            if any {
                text.append(" ");
                text.append(words[k].word.as_str());
            } else {
                text.append(words[k].word.as_str());
                start_ms = words[k].start_ms;
                any = true;
            }
            end_ms = words[k].end_ms;
        }
        k = k + 1;
    }
    if any {
        Some(Segment { start_ms, end_ms, text })
    } else {
        None
    }
}

/// Groups a flat word sequence into paragraph-level segments wherever the gap
/// to the previous word exceeds [`SEGMENT_GAP_MS`], dropping filler words from
/// the segment text; a group of nothing but fillers yields no segment.
pub fn build_segments(words: &[WordTiming]) -> (r: Vec<Segment>)
    ensures
        segment_views(r@) == spec_build_segments(word_views(words@)),
{
    let ghost views = word_views(words@);
    let n = words.len();
    let mut segments: Vec<Segment> = Vec::new();
    if n == 0 {
        assert(views =~= Seq::<WordTimingView>::empty());
        assert(segment_views(segments@) =~= Seq::<SegmentView>::empty());
        return segments;
    }
    let mut group_start: usize = 0;
    let mut i: usize = 1;
    assert(views.take(1).drop_last() =~= Seq::<WordTimingView>::empty());
    assert(views.subrange(0, 1) =~= seq![views[0]]);
    assert(word_groups(views.take(1).drop_last()) =~= Seq::<Seq<WordTimingView>>::empty());
    assert(word_groups(views.take(1)) =~= seq![seq![views[0]]]);
    assert(word_groups(views.take(1)).drop_last() =~= Seq::<Seq<WordTimingView>>::empty());
    assert(segment_views(segments@) =~= Seq::<SegmentView>::empty());
    while i < n
        invariant
            n == words@.len(),
            views == word_views(words@),
            0 <= group_start < i <= n,
            word_groups(views.take(i as int)).len() > 0,
            word_groups(views.take(i as int)).last() == views.subrange(group_start as int, i as int),
            segment_views(segments@) == segments_of_groups(word_groups(views.take(i as int)).drop_last()),
        decreases n - i,
    {
        let ghost groups = word_groups(views.take(i as int));
        assert(views.take(i + 1).drop_last() =~= views.take(i as int));
        assert(views.take(i + 1)[i as int] == views[i as int]);
        assert(views.take(i + 1)[i - 1] == views[i - 1]);
        assert(views[i as int] == words@[i as int]@);
        assert(views[i - 1] == words@[i - 1]@);
        if words[i].start_ms > words[i - 1].end_ms && words[i].start_ms - words[i - 1].end_ms > SEGMENT_GAP_MS {
            assert(starts_new_group(views.take(i + 1), i as int));
            let ghost before = segment_views(segments@);
            if let Some(seg) = finish_segment(words, group_start, i) {
                segments.push(seg);
                assert(segment_views(segments@) =~= before.push(seg@));
            }
            assert(word_groups(views.take(i + 1)).drop_last() =~= groups);
            assert(groups =~= groups.drop_last().push(groups.last()));
            assert(views.subrange(i as int, i + 1) =~= seq![views[i as int]]);
            group_start = i;
        } else {
            assert(!starts_new_group(views.take(i + 1), i as int));
            assert(word_groups(views.take(i + 1)).drop_last() =~= groups.drop_last());
            assert(views.subrange(group_start as int, i + 1) =~= views.subrange(group_start as int, i as int).push(views[i as int]));
        }
        i = i + 1;
    }
    assert(views.take(n as int) =~= views);
    let ghost groups = word_groups(views);
    let ghost before = segment_views(segments@);
    if let Some(seg) = finish_segment(words, group_start, n) {
        segments.push(seg);
        assert(segment_views(segments@) =~= before.push(seg@));
    }
    assert(groups =~= groups.drop_last().push(groups.last()));
    segments
}

proof fn lemma_single_group(words: Seq<WordTimingView>)
    requires
        words.len() > 0,
        forall|i: int| 0 < i < words.len() ==> !#[trigger] starts_new_group(words, i),
    ensures
        word_groups(words) == seq![words],
    decreases words.len(),
{
    let d = words.drop_last();
    if d.len() == 0 {
        assert(word_groups(d) =~= Seq::<Seq<WordTimingView>>::empty());
        assert(seq![words[0]] =~= words);
    } else {
        assert forall|i: int| 0 < i < d.len() implies !#[trigger] starts_new_group(d, i) by {
            assert(!starts_new_group(words, i));
            assert(d[i] == words[i] && d[i - 1] == words[i - 1]);
        }
        lemma_single_group(d);
        assert(!starts_new_group(words, words.len() - 1));
        assert(d.push(words.last()) =~= words);
    }
}

/// Without a pause longer than the segment gap, the words form exactly one
/// segment, from the first to the last spoken word, or none at all when
/// every word is a filler.
pub proof fn law_no_long_pause_one_segment(words: Seq<WordTimingView>)
    requires
        words.len() > 0,
        forall|i: int| 0 < i < words.len() ==> !#[trigger] starts_new_group(words, i),
    ensures
        spec_build_segments(words) == match group_segment(words) {
            Some(seg) => seq![seg],
            None => Seq::<SegmentView>::empty(),
        },
{
    lemma_single_group(words);
    let gs = seq![words];
    assert(gs.drop_last() =~= Seq::<Seq<WordTimingView>>::empty());
    assert(segments_of_groups(gs.drop_last()) =~= Seq::<SegmentView>::empty());
    if let Some(seg) = group_segment(words) {
        assert(Seq::<SegmentView>::empty().push(seg) =~= seq![seg]);
    }
}

proof fn lemma_groups_hold_words(words: Seq<WordTimingView>)
    ensures
        forall|j: int, k: int| 0 <= j < word_groups(words).len() && 0 <= k < word_groups(words)[j].len()
            ==> words.contains(#[trigger] word_groups(words)[j][k]),
    decreases words.len(),
{
    if words.len() > 0 {
        let d = words.drop_last();
        lemma_groups_hold_words(d);
        let before = word_groups(d);
        let gs = word_groups(words);
        assert forall|j: int, k: int| 0 <= j < gs.len() && 0 <= k < gs[j].len()
            implies words.contains(#[trigger] gs[j][k]) by {
            if j < before.len() && !(j == before.len() - 1 && gs.len() == before.len()) {
                assert(gs[j] == before[j]);
                assert(d.contains(before[j][k]));
                let m = choose|m: int| 0 <= m < d.len() && d[m] == before[j][k];
                assert(words[m] == d[m]);
            } else if gs.len() == before.len() {
                assert(j == before.len() - 1);
                assert(gs[j] == before[j].push(words.last()));
                if k < before[j].len() {
                    assert(d.contains(before[j][k]));
                    let m = choose|m: int| 0 <= m < d.len() && d[m] == before[j][k];
                    assert(words[m] == d[m]);
                } else {
                    assert(words[words.len() - 1] == gs[j][k]);
                }
            } else {
                assert(gs[j] == seq![words.last()]);
                assert(words[words.len() - 1] == gs[j][k]);
            }
        }
    }
}

proof fn lemma_spoken_of_fillers(ws: Seq<WordTimingView>)
    requires
        forall|k: int| 0 <= k < ws.len() ==> is_filler_word((#[trigger] ws[k]).word),
    ensures
        spoken_words(ws).len() == 0,
    decreases ws.len(),
{
    if ws.len() > 0 {
        let d = ws.drop_last();
        assert forall|k: int| 0 <= k < d.len() implies is_filler_word((#[trigger] d[k]).word) by {
            assert(d[k] == ws[k]);
        }
        lemma_spoken_of_fillers(d);
        assert(is_filler_word(ws[ws.len() - 1].word));
    }
}

proof fn lemma_segments_of_filler_groups(gs: Seq<Seq<WordTimingView>>)
    requires
        forall|j: int| 0 <= j < gs.len() ==> spoken_words(#[trigger] gs[j]).len() == 0,
    ensures
        segments_of_groups(gs).len() == 0,
    decreases gs.len(),
{
    if gs.len() > 0 {
        let d = gs.drop_last();
        assert forall|j: int| 0 <= j < d.len() implies spoken_words(#[trigger] d[j]).len() == 0 by {
            assert(d[j] == gs[j]);
        }
        lemma_segments_of_filler_groups(d);
        assert(spoken_words(gs[gs.len() - 1]).len() == 0);
    }
}

/// Filler words alone never make a segment: words that are all fillers
/// yield no segments at all.
pub proof fn law_fillers_alone_make_no_segment(words: Seq<WordTimingView>)
    requires
        forall|k: int| 0 <= k < words.len() ==> is_filler_word((#[trigger] words[k]).word),
    ensures
        spec_build_segments(words).len() == 0,
{
    lemma_groups_hold_words(words);
    let gs = word_groups(words);
    assert forall|j: int| 0 <= j < gs.len() implies spoken_words(#[trigger] gs[j]).len() == 0 by {
        assert forall|k: int| 0 <= k < gs[j].len() implies is_filler_word((#[trigger] gs[j][k]).word) by {
            assert(words.contains(gs[j][k]));
            let m = choose|m: int| 0 <= m < words.len() && words[m] == gs[j][k];
            assert(is_filler_word(words[m].word));
        }
        lemma_spoken_of_fillers(gs[j]);
    }
    lemma_segments_of_filler_groups(gs);
}

/// Words in time order: each ends no earlier than it starts, and ends no
/// later than any later word starts.
pub open spec fn in_time_order(ws: Seq<WordTimingView>) -> bool {
    &&& forall|i: int| 0 <= i < ws.len() ==> (#[trigger] ws[i]).start_ms <= ws[i].end_ms
    &&& forall|i: int, j: int| 0 <= i < j < ws.len() ==> (#[trigger] ws[i]).end_ms <= (#[trigger] ws[j]).start_ms
}

/// The groups laid end to end.
pub open spec fn flatten_groups(gs: Seq<Seq<WordTimingView>>) -> Seq<WordTimingView>
    decreases gs.len(),
{
    if gs.len() == 0 { Seq::empty() } else { flatten_groups(gs.drop_last()) + gs.last() }
}

/// Groups are non-empty, and each one starts more than the segment gap
/// after the previous one ends.
pub open spec fn groups_separated(gs: Seq<Seq<WordTimingView>>) -> bool {
    &&& forall|j: int| 0 <= j < gs.len() ==> (#[trigger] gs[j]).len() > 0
    &&& forall|j: int| 0 < j < gs.len() ==> (#[trigger] gs[j])[0].start_ms > gs[j - 1].last().end_ms + SEGMENT_GAP_MS
}

proof fn lemma_word_groups_structure(words: Seq<WordTimingView>)
    ensures
        flatten_groups(word_groups(words)) == words,
        groups_separated(word_groups(words)),
    decreases words.len(),
{
    if words.len() > 0 {
        let d = words.drop_last();
        lemma_word_groups_structure(d);
        let before = word_groups(d);
        let gs = word_groups(words);
        let w = words.last();
        let i = words.len() - 1;
        if i == 0 || starts_new_group(words, i) || before.len() == 0 {
            assert(gs == before.push(seq![w]));
            assert(gs.drop_last() =~= before);
            assert(flatten_groups(gs) =~= d + seq![w]);
            assert(d + seq![w] =~= words);
            if before.len() > 0 {
                assert(i > 0);
                assert(starts_new_group(words, i));
                assert(before.last().len() > 0);
                assert(flatten_groups(before) == flatten_groups(before.drop_last()) + before.last());
                assert(d.last() == before.last().last());
                assert(words[i - 1] == d.last());
            }
            assert forall|j: int| 0 < j < gs.len() implies (#[trigger] gs[j])[0].start_ms > gs[j - 1].last().end_ms + SEGMENT_GAP_MS by {
                if j < before.len() {
                    assert(gs[j] == before[j] && gs[j - 1] == before[j - 1]);
                }
            }
            assert forall|j: int| 0 <= j < gs.len() implies (#[trigger] gs[j]).len() > 0 by {
                if j < before.len() {
                    assert(gs[j] == before[j]);
                }
            }
        } else {
            let last = before.last();
            assert(gs == before.update(before.len() - 1, last.push(w)));
            assert(gs.drop_last() =~= before.drop_last());
            assert(flatten_groups(gs) == flatten_groups(before.drop_last()) + last.push(w));
            assert(flatten_groups(before) == flatten_groups(before.drop_last()) + last);
            assert(flatten_groups(before.drop_last()) + last.push(w) =~= d.push(w));
            assert(d.push(w) =~= words);
            assert forall|j: int| 0 < j < gs.len() implies (#[trigger] gs[j])[0].start_ms > gs[j - 1].last().end_ms + SEGMENT_GAP_MS by {
                assert(before[j][0].start_ms > before[j - 1].last().end_ms + SEGMENT_GAP_MS);
                if j == gs.len() - 1 {
                    assert(gs[j][0] == before[j][0]);
                    assert(gs[j - 1] == before[j - 1]);
                } else {
                    assert(gs[j] == before[j] && gs[j - 1] == before[j - 1]);
                }
            }
            assert forall|j: int| 0 <= j < gs.len() implies (#[trigger] gs[j]).len() > 0 by {
                if j < before.len() - 1 {
                    assert(gs[j] == before[j]);
                }
            }
        }
    }
}

proof fn lemma_spoken_span(g: Seq<WordTimingView>)
    ensures
        spoken_words(g).len() > 0 ==> exists|a: int, c: int| 0 <= a <= c < g.len()
            && #[trigger] spoken_words(g)[0] == g[a] && #[trigger] spoken_words(g).last() == g[c],
    decreases g.len(),
{
    if g.len() > 0 {
        let d = g.drop_last();
        lemma_spoken_span(d);
        let sd = spoken_words(d);
        if !is_filler_word(g.last().word) {
            if sd.len() > 0 {
                let (a, c) = choose|a: int, c: int| 0 <= a <= c < d.len() && #[trigger] sd[0] == d[a] && #[trigger] sd.last() == d[c];
                assert(spoken_words(g)[0] == g[a]);
                assert(spoken_words(g).last() == g[g.len() - 1]);
            } else {
                assert(spoken_words(g)[0] == g[g.len() - 1]);
                assert(spoken_words(g).last() == g[g.len() - 1]);
            }
        } else if sd.len() > 0 {
            let (a, c) = choose|a: int, c: int| 0 <= a <= c < d.len() && #[trigger] sd[0] == d[a] && #[trigger] sd.last() == d[c];
            assert(spoken_words(g)[0] == g[a]);
            assert(spoken_words(g).last() == g[c]);
        }
    }
}

proof fn lemma_prefix_in_time_order(ws: Seq<WordTimingView>, n: int)
    requires
        in_time_order(ws),
        0 <= n <= ws.len(),
    ensures
        in_time_order(ws.subrange(0, n)),
        in_time_order(ws.subrange(n, ws.len() as int)),
{
    let p = ws.subrange(0, n);
    let q = ws.subrange(n, ws.len() as int);
    assert forall|i: int, j: int| 0 <= i < j < p.len() implies (#[trigger] p[i]).end_ms <= (#[trigger] p[j]).start_ms by {
        assert(p[i] == ws[i] && p[j] == ws[j]);
    }
    assert forall|i: int| 0 <= i < p.len() implies (#[trigger] p[i]).start_ms <= p[i].end_ms by {
        assert(p[i] == ws[i]);
    }
    assert forall|i: int, j: int| 0 <= i < j < q.len() implies (#[trigger] q[i]).end_ms <= (#[trigger] q[j]).start_ms by {
        assert(q[i] == ws[n + i] && q[j] == ws[n + j]);
    }
    assert forall|i: int| 0 <= i < q.len() implies (#[trigger] q[i]).start_ms <= q[i].end_ms by {
        assert(q[i] == ws[n + i]);
    }
}

proof fn lemma_group_segment_within(g: Seq<WordTimingView>)
    requires
        g.len() > 0,
        in_time_order(g),
    ensures
        g[0].start_ms <= g.last().end_ms,
        group_segment(g) matches Some(seg) ==> g[0].start_ms <= seg.start_ms <= seg.end_ms <= g.last().end_ms,
{
    assert(g[g.len() - 1] == g.last());
    assert(g[0].start_ms <= g.last().end_ms) by {
        if g.len() > 1 {
            assert(g[0].end_ms <= g[g.len() - 1].start_ms);
        }
    }
    lemma_spoken_span(g);
    if spoken_words(g).len() > 0 {
        let (a, c) = choose|a: int, c: int| 0 <= a <= c < g.len()
            && #[trigger] spoken_words(g)[0] == g[a] && #[trigger] spoken_words(g).last() == g[c];
        assert(g[0].start_ms <= g[a].start_ms) by {
            if a > 0 {
                assert(g[0].end_ms <= g[a].start_ms);
            }
        }
        assert(g[a].start_ms <= g[c].end_ms) by {
            if a < c {
                assert(g[a].end_ms <= g[c].start_ms);
            }
        }
        assert(g[c].end_ms <= g.last().end_ms) by {
            if c < g.len() - 1 {
                assert(g[c].end_ms <= g[g.len() - 1].start_ms);
            }
        }
    }
}

proof fn lemma_last_groups_join(gs: Seq<Seq<WordTimingView>>)
    requires
        gs.len() > 1,
        groups_separated(gs),
        in_time_order(flatten_groups(gs)),
    ensures
        gs.last()[0].start_ms > gs.drop_last().last().last().end_ms + SEGMENT_GAP_MS,
        gs.drop_last().last().last().end_ms <= gs.last().last().end_ms,
{
    let d = gs.drop_last();
    let g = gs.last();
    let fd = flatten_groups(d);
    let f = flatten_groups(gs);
    assert(f == fd + g);
    assert(gs[gs.len() - 1] == g);
    assert(gs[gs.len() - 2] == d.last());
    assert(g.len() > 0 && d.last().len() > 0);
    assert(flatten_groups(d) == flatten_groups(d.drop_last()) + d.last());
    assert(fd.last() == d.last().last());
    assert(f[fd.len() - 1] == fd.last());
    assert(f[g.len() + fd.len() - 1] == g.last());
    if g.len() > 1 {
        assert(f[fd.len() - 1].end_ms <= f[g.len() + fd.len() - 1].start_ms);
    } else {
        assert(f[fd.len() - 1].end_ms <= f[fd.len() as int].start_ms);
        assert(f[fd.len() as int] == g[0]);
        assert(f[fd.len() as int].start_ms <= f[fd.len() as int].end_ms);
    }
}

proof fn lemma_segments_of_separated_groups(gs: Seq<Seq<WordTimingView>>)
    requires
        groups_separated(gs),
        in_time_order(flatten_groups(gs)),
    ensures
        ({
            let segs = segments_of_groups(gs);
            &&& forall|k: int| 0 <= k < segs.len() ==> (#[trigger] segs[k]).start_ms <= segs[k].end_ms
            &&& forall|k: int| 0 < k < segs.len() ==> (#[trigger] segs[k]).start_ms > segs[k - 1].end_ms + SEGMENT_GAP_MS
            &&& segs.len() > 0 ==> segs.last().end_ms <= gs.last().last().end_ms
        }),
    decreases gs.len(),
{
    if gs.len() > 0 {
        let d = gs.drop_last();
        let g = gs.last();
        let fd = flatten_groups(d);
        let f = flatten_groups(gs);
        assert(f == fd + g);
        assert(fd =~= f.subrange(0, fd.len() as int));
        assert(g =~= f.subrange(fd.len() as int, f.len() as int));
        lemma_prefix_in_time_order(f, fd.len() as int);
        assert forall|j: int| 0 <= j < d.len() implies (#[trigger] d[j]).len() > 0 by {
            assert(d[j] == gs[j]);
        }
        assert forall|j: int| 0 < j < d.len() implies (#[trigger] d[j])[0].start_ms > d[j - 1].last().end_ms + SEGMENT_GAP_MS by {
            assert(d[j] == gs[j] && d[j - 1] == gs[j - 1]);
        }
        lemma_segments_of_separated_groups(d);
        let before = segments_of_groups(d);
        if d.len() > 0 {
            lemma_last_groups_join(gs);
        }
        lemma_group_segment_within(g);
        match group_segment(g) {
            Some(seg) => {
                let segs = before.push(seg);
                assert(segments_of_groups(gs) == segs);
                assert forall|k: int| 0 < k < segs.len() implies (#[trigger] segs[k]).start_ms > segs[k - 1].end_ms + SEGMENT_GAP_MS by {
                    if k < before.len() {
                        assert(segs[k] == before[k] && segs[k - 1] == before[k - 1]);
                    } else {
                        assert(segs[k - 1] == before.last());
                    }
                }
                assert forall|k: int| 0 <= k < segs.len() implies (#[trigger] segs[k]).start_ms <= segs[k].end_ms by {
                    if k < before.len() {
                        assert(segs[k] == before[k]);
                    }
                }
            },
            None => {
                assert(segments_of_groups(gs) == before);
            },
        }
    }
}

/// Segments come out in time order, separated by the pauses that split
/// them: for words in time order, each segment ends no earlier than it
/// starts, and each starts more than the segment gap after the previous one ends.
pub proof fn law_segments_ordered_and_separated(words: Seq<WordTimingView>)
    requires
        in_time_order(words),
    ensures
        ({
            let segs = spec_build_segments(words);
            &&& forall|k: int| 0 <= k < segs.len() ==> (#[trigger] segs[k]).start_ms <= segs[k].end_ms
            &&& forall|k: int| 0 < k < segs.len() ==> (#[trigger] segs[k]).start_ms > segs[k - 1].end_ms + SEGMENT_GAP_MS
        }),
{
    lemma_word_groups_structure(words);
    lemma_segments_of_separated_groups(word_groups(words));
}

/// The paragraphs of `segments` joined by blank lines.
pub open spec fn paragraphs_text(segments: Seq<SegmentView>) -> Seq<char> {
    joined(segments.map_values(|s: SegmentView| s.text), "\n\n"@)
}

/// Joins segments into the final plain-text transcript: every segment is one
/// paragraph, and paragraphs are separated by a blank line.
pub fn join_as_paragraphs(segments: &[Segment]) -> (r: String)
    ensures
        r@ == paragraphs_text(segment_views(segments@)),
{
    let ghost texts = segment_views(segments@).map_values(|s: SegmentView| s.text);
    let mut out = String::new();
    let n = segments.len();
    let mut i: usize = 0;
    while i < n
        invariant
            n == segments@.len(),
            i <= n,
            texts == segment_views(segments@).map_values(|s: SegmentView| s.text),
            out@ == joined(texts.take(i as int), "\n\n"@),
        decreases n - i,
    {
        proof {
            lemma_joined_push(texts.take(i as int), "\n\n"@, texts[i as int]);
            assert(texts.take(i + 1) =~= texts.take(i as int).push(texts[i as int]));
            assert(texts[i as int] == segments@[i as int].text@);
        }
        if i > 0 {
            out.append("\n\n");
        }
        out.append(segments[i].text.as_str());
        i = i + 1;
    }
    assert(texts.take(n as int) =~= texts);
    out
}

/// A new segment starts exactly where a word begins more than 1.5 seconds
/// (1500 ms) after the previous word ends.
pub proof fn law_pause_threshold(words: Seq<WordTimingView>, i: int)
    requires
        0 < i < words.len(),
    ensures
        starts_new_group(words, i) <==> words[i].start_ms - words[i - 1].end_ms > 1500,
{
}

/// Paragraphs are separated by exactly one blank line: the text of two or
/// more segments is the text of all but the last, a blank line, and the last
/// segment's text; one segment is its own text; no segments, no text.
pub proof fn law_paragraphs_separated_by_blank_line(segs: Seq<SegmentView>)
    ensures
        segs.len() == 0 ==> paragraphs_text(segs) == Seq::<char>::empty(),
        segs.len() == 1 ==> paragraphs_text(segs) == segs[0].text,
        segs.len() >= 2 ==> paragraphs_text(segs) == paragraphs_text(segs.drop_last()) + seq!['\n', '\n'] + segs.last().text,
{
    reveal_strlit("\n\n");
    let f = |s: SegmentView| s.text;
    if segs.len() >= 2 {
        assert(segs.map_values(f).drop_last() =~= segs.drop_last().map_values(f));
        assert("\n\n"@ =~= seq!['\n', '\n']);
    }
}

} // verus!
