//! Text as sequences of characters: whitespace, trimming, searching and
//! splitting. Every function here is stated over `Seq<char>`, the view of a
//! `str`, and the executable versions work on a `Vec<char>` by index.

use vstd::prelude::*;

verus! {

/// The characters of `s`, in order.
pub fn chars_of(s: &str) -> (out: Vec<char>)
    ensures
        out@ == s@,
{
    let mut out: Vec<char> = Vec::new();
    for c in it: s.chars()
        invariant
            out@ == it.seq().take(it.index() as int),
            it.seq() == s@,
    {
        out.push(c);
    }
    out
}

/// Whether `c` is a white space character: the code points with the Unicode
/// property `White_Space`.
pub open spec fn is_whitespace(c: char) -> bool {
    let u = c as u32;
    ||| 0x09 <= u <= 0x0d
    ||| u == 0x20
    ||| u == 0x85
    ||| u == 0xa0
    ||| u == 0x1680
    ||| 0x2000 <= u <= 0x200a
    ||| u == 0x2028
    ||| u == 0x2029
    ||| u == 0x202f
    ||| u == 0x205f
    ||| u == 0x3000
}

/// Decides `is_whitespace`.
pub fn whitespace(c: char) -> (b: bool)
    ensures
        b == is_whitespace(c),
{
    let u: u32 = c as u32;
    (0x09 <= u && u <= 0x0d) || u == 0x20 || u == 0x85 || u == 0xa0 || u == 0x1680 || (0x2000 <= u
        && u <= 0x200a) || u == 0x2028 || u == 0x2029 || u == 0x202f || u == 0x205f || u == 0x3000
}

/// `s` with `[from, to)` holding nothing but white space.
pub open spec fn all_whitespace(s: Seq<char>, from: int, to: int) -> bool {
    forall|i: int| from <= i < to ==> is_whitespace(#[trigger] s[i])
}

/// The first position at or after `from` that holds no white space, or the
/// end of `s`.
pub open spec fn skip_whitespace(s: Seq<char>, from: int) -> int
    decreases s.len() - from,
{
    if 0 <= from < s.len() && is_whitespace(s[from]) {
        skip_whitespace(s, from + 1)
    } else {
        from
    }
}

/// The end of `s[..to]` once the white space at its end is dropped.
pub open spec fn drop_whitespace(s: Seq<char>, to: int) -> int
    decreases to,
{
    if 0 < to <= s.len() && is_whitespace(s[to - 1]) {
        drop_whitespace(s, to - 1)
    } else {
        to
    }
}

/// `s` without the white space at its start and at its end.
pub open spec fn trimmed(s: Seq<char>) -> Seq<char> {
    let a = skip_whitespace(s, 0);
    let b = drop_whitespace(s, s.len() as int);
    if a < b {
        s.subrange(a, b)
    } else {
        Seq::empty()
    }
}

/// `skip_whitespace` stops at the first character that is no white space.
pub proof fn lemma_skip_whitespace(s: Seq<char>, from: int, stop: int)
    requires
        0 <= from <= stop <= s.len(),
        all_whitespace(s, from, stop),
        stop < s.len() ==> !is_whitespace(s[stop]),
    ensures
        skip_whitespace(s, from) == stop,
    decreases stop - from,
{
    if from < stop {
        lemma_skip_whitespace(s, from + 1, stop);
    }
}

/// `drop_whitespace` stops behind the last character that is no white space.
pub proof fn lemma_drop_whitespace(s: Seq<char>, to: int, stop: int)
    requires
        0 <= stop <= to <= s.len(),
        all_whitespace(s, stop, to),
        0 < stop ==> !is_whitespace(s[stop - 1]),
    ensures
        drop_whitespace(s, to) == stop,
    decreases to - stop,
{
    if stop < to {
        lemma_drop_whitespace(s, to - 1, stop);
    }
}

/// Trimming is the one cut `[a, b)` with white space alone before `a` and
/// from `b` on, and none at either end of the cut.
pub proof fn lemma_trimmed_is(s: Seq<char>, a: int, b: int)
    requires
        0 <= a <= b <= s.len(),
        all_whitespace(s, 0, a),
        all_whitespace(s, b, s.len() as int),
        a < b ==> !is_whitespace(s[a]) && !is_whitespace(s[b - 1]),
    ensures
        trimmed(s) == s.subrange(a, b),
{
    if a < b {
        lemma_skip_whitespace(s, 0, a);
        lemma_drop_whitespace(s, s.len() as int, b);
    } else {
        // All of `s` is white space: the scan from the front reaches the end.
        assert(all_whitespace(s, 0, s.len() as int));
        lemma_skip_whitespace(s, 0, s.len() as int);
        lemma_drop_whitespace(s, s.len() as int, 0);
        assert(s.subrange(a, b) =~= Seq::<char>::empty());
    }
}

/// The bounds of `s[from..to]` trimmed, as positions in `s`.
pub fn trim_bounds(s: &Vec<char>, from: usize, to: usize) -> (r: (usize, usize))
    requires
        from <= to <= s.len(),
    ensures
        from <= r.0 <= r.1 <= to,
        s@.subrange(r.0 as int, r.1 as int) == trimmed(s@.subrange(from as int, to as int)),
{
    let ghost part = s@.subrange(from as int, to as int);
    let mut a: usize = from;
    while a < to && whitespace(s[a])
        invariant
            from <= a <= to <= s.len(),
            part == s@.subrange(from as int, to as int),
            all_whitespace(part, 0, a - from),
        decreases to - a,
    {
        a = a + 1;
    }
    let mut b: usize = to;
    while a < b && whitespace(s[b - 1])
        invariant
            from <= a <= b <= to <= s.len(),
            part == s@.subrange(from as int, to as int),
            all_whitespace(part, b - from, to - from),
        decreases b - a,
    {
        b = b - 1;
    }
    proof {
        lemma_trimmed_is(part, a - from, b - from);
        assert(part.subrange(a - from, b - from) =~= s@.subrange(a as int, b as int));
    }
    (a, b)
}

/// The first position at or after `from` that holds `c`, or the end of `s`.
pub open spec fn position_of(s: Seq<char>, c: char, from: int) -> int
    decreases s.len() - from,
{
    if 0 <= from < s.len() && s[from] != c {
        position_of(s, c, from + 1)
    } else {
        from
    }
}

/// `position_of` lies between `from` and the end, holds `c` unless it is the
/// end, and no position before it holds `c`.
pub proof fn lemma_position_of(s: Seq<char>, c: char, from: int)
    requires
        0 <= from <= s.len(),
    ensures
        from <= position_of(s, c, from) <= s.len(),
        position_of(s, c, from) < s.len() ==> s[position_of(s, c, from)] == c,
        forall|i: int| from <= i < position_of(s, c, from) ==> s[i] != c,
    decreases s.len() - from,
{
    if from < s.len() && s[from] != c {
        lemma_position_of(s, c, from + 1);
    }
}

/// `position_of` is the position `stop` where none from `from` up to
/// `stop` holds `c`, and `stop` holds `c` or is the end.
pub proof fn lemma_position_of_is(s: Seq<char>, c: char, from: int, stop: int)
    requires
        0 <= from <= stop <= s.len(),
        forall|i: int| from <= i < stop ==> s[i] != c,
        stop < s.len() ==> s[stop] == c,
    ensures
        position_of(s, c, from) == stop,
    decreases stop - from,
{
    if from < stop {
        lemma_position_of_is(s, c, from + 1, stop);
    }
}

/// Computes `position_of`.
pub fn find_char(s: &Vec<char>, c: char, from: usize) -> (at: usize)
    requires
        from <= s.len(),
    ensures
        at == position_of(s@, c, from as int),
        from <= at <= s.len(),
{
    let mut at: usize = from;
    while at < s.len() && s[at] != c
        invariant
            from <= at <= s.len(),
            position_of(s@, c, from as int) == position_of(s@, c, at as int),
        decreases s.len() - at,
    {
        at = at + 1;
    }
    at
}

/// Whether `pat` stands in `s` at position `at`.
pub open spec fn occurs_at(s: Seq<char>, pat: Seq<char>, at: int) -> bool {
    0 <= at && at + pat.len() <= s.len() && s.subrange(at, at + pat.len()) == pat
}

/// Whether `pat` stands somewhere in `s`.
pub open spec fn contains_text(s: Seq<char>, pat: Seq<char>) -> bool {
    exists|at: int| occurs_at(s, pat, at)
}

/// The first position at or after `from` at which `pat` stands in `s`.
pub open spec fn find_text(s: Seq<char>, pat: Seq<char>, from: int) -> Option<int>
    decreases s.len() - from,
{
    if from < 0 || from + pat.len() > s.len() {
        None
    } else if occurs_at(s, pat, from) {
        Some(from)
    } else if from < s.len() {
        find_text(s, pat, from + 1)
    } else {
        None
    }
}

/// `find_text` gives the least position from `from` on at which `pat` stands,
/// and `None` exactly when there is none.
pub proof fn lemma_find_text(s: Seq<char>, pat: Seq<char>, from: int)
    requires
        0 <= from,
    ensures
        match find_text(s, pat, from) {
            Some(at) => from <= at && occurs_at(s, pat, at) && forall|i: int|
                from <= i < at ==> !occurs_at(s, pat, i),
            None => forall|i: int| from <= i ==> !occurs_at(s, pat, i),
        },
    decreases s.len() - from,
{
    if from + pat.len() <= s.len() && !occurs_at(s, pat, from) {
        if from < s.len() {
            lemma_find_text(s, pat, from + 1);
        } else {
            assert(s.subrange(from, from + pat.len()) =~= pat);
        }
    }
}

/// Decides `occurs_at`.
pub fn matches_at(s: &Vec<char>, pat: &Vec<char>, at: usize) -> (b: bool)
    ensures
        b == occurs_at(s@, pat@, at as int),
{
    if at > s.len() || pat.len() > s.len() - at {
        return false;
    }
    let mut k: usize = 0;
    while k < pat.len()
        invariant
            k <= pat.len(),
            at + pat.len() <= s.len(),
            forall|j: int| 0 <= j < k ==> s@[at + j] == pat@[j],
        decreases pat.len() - k,
    {
        if s[at + k] != pat[k] {
            assert(s@.subrange(at as int, at + pat.len())[k as int] != pat@[k as int]);
            return false;
        }
        k = k + 1;
    }
    assert(s@.subrange(at as int, at + pat.len()) =~= pat@);
    true
}

/// Computes `find_text`.
pub fn find(s: &Vec<char>, pat: &Vec<char>, from: usize) -> (r: Option<usize>)
    ensures
        match r {
            Some(at) => find_text(s@, pat@, from as int) == Some(at as int) && from <= at && at
                + pat.len() <= s.len(),
            None => find_text(s@, pat@, from as int) is None,
        },
{
    if from > s.len() || pat.len() > s.len() - from {
        return None;
    }
    let last: usize = s.len() - pat.len();
    let mut at: usize = from;
    loop
        invariant
            from <= at <= last,
            last == s.len() - pat.len(),
            find_text(s@, pat@, from as int) == find_text(s@, pat@, at as int),
        decreases last - at,
    {
        if matches_at(s, pat, at) {
            return Some(at);
        }
        if at == last {
            assert(find_text(s@, pat@, at + 1) is None);
            return None;
        }
        at = at + 1;
    }
}

/// Decides `contains_text`.
pub fn contains(s: &Vec<char>, pat: &Vec<char>) -> (b: bool)
    ensures
        b == contains_text(s@, pat@),
{
    let r = find(s, pat, 0);
    proof {
        lemma_find_text(s@, pat@, 0);
    }
    r.is_some()
}

/// The parts of `s` that lie between the occurrences of `pat`, found from
/// left to right without overlap. There is always at least one part; an
/// empty `pat` divides nothing.
pub open spec fn pieces(s: Seq<char>, pat: Seq<char>) -> Seq<Seq<char>>
    decreases s.len(),
{
    match find_text(s, pat, 0) {
        Some(at) => if pat.len() == 0 {
            seq![s]
        } else {
            proof {
                lemma_find_text(s, pat, 0);
            }
            seq![s.take(at)] + pieces(s.skip(at + pat.len()), pat)
        },
        None => seq![s],
    }
}

/// What the ranges `cuts` take out of `s`, in their order.
pub open spec fn cut_out(s: Seq<char>, cuts: Seq<(usize, usize)>) -> Seq<Seq<char>> {
    Seq::new(cuts.len(), |k: int| s.subrange(cuts[k].0 as int, cuts[k].1 as int))
}

/// Whether every range of `cuts` lies within a text of length `len`.
pub open spec fn cuts_within(cuts: Seq<(usize, usize)>, len: int) -> bool {
    forall|k: int| 0 <= k < cuts.len() ==> (#[trigger] cuts[k]).0 <= cuts[k].1 <= len
}

/// Searching in `s` without its first `start` characters is searching in
/// `s` from `start`, with every position moved by `start`.
pub proof fn lemma_find_text_skip(s: Seq<char>, pat: Seq<char>, start: int, from: int)
    requires
        0 <= start <= s.len(),
        0 <= from,
    ensures
        find_text(s.skip(start), pat, from) == match find_text(s, pat, start + from) {
            Some(at) => Some(at - start),
            None => None::<int>,
        },
    decreases s.len() - start - from,
{
    let rest = s.skip(start);
    if from + pat.len() <= rest.len() {
        assert(rest.subrange(from, from + pat.len()) =~= s.subrange(
            start + from,
            start + from + pat.len(),
        ));
        if !occurs_at(rest, pat, from) && from < rest.len() {
            lemma_find_text_skip(s, pat, start, from + 1);
        }
    }
}

/// Computes `pieces`, each part as a range of positions in `s`.
pub fn split(s: &Vec<char>, pat: &Vec<char>) -> (cuts: Vec<(usize, usize)>)
    ensures
        cuts_within(cuts@, s.len() as int),
        cut_out(s@, cuts@) == pieces(s@, pat@),
{
    let mut cuts: Vec<(usize, usize)> = Vec::new();
    if pat.len() == 0 {
        cuts.push((0, s.len()));
        assert(cut_out(s@, cuts@) =~= seq![s@]) by {
            assert(s@.subrange(0, s@.len() as int) =~= s@);
        }
        return cuts;
    }
    let mut start: usize = 0;
    proof {
        assert(s@.skip(0) =~= s@);
        assert(cut_out(s@, cuts@) + pieces(s@, pat@) =~= pieces(s@, pat@));
    }
    loop
        invariant
            pat.len() > 0,
            start <= s.len(),
            cuts_within(cuts@, s.len() as int),
            pieces(s@, pat@) == cut_out(s@, cuts@) + pieces(s@.skip(start as int), pat@),
        decreases s.len() - start,
    {
        let ghost before = cuts@;
        let ghost rest = s@.skip(start as int);
        proof {
            lemma_find_text_skip(s@, pat@, start as int, 0);
            lemma_find_text(rest, pat@, 0);
        }
        match find(s, pat, start) {
            Some(at) => {
                cuts.push((start, at));
                proof {
                    assert(rest.take(at - start) =~= s@.subrange(start as int, at as int));
                    assert(rest.skip(at - start + pat.len()) =~= s@.skip(at + pat.len()));
                    assert(cut_out(s@, cuts@) =~= cut_out(s@, before) + seq![
                        s@.subrange(start as int, at as int),
                    ]);
                    assert(cut_out(s@, before) + (seq![rest.take(at - start)] + pieces(
                        s@.skip(at + pat.len()),
                        pat@,
                    )) =~= cut_out(s@, cuts@) + pieces(s@.skip(at + pat.len()), pat@));
                }
                start = at + pat.len();
            },
            None => {
                cuts.push((start, s.len()));
                proof {
                    assert(rest =~= s@.subrange(start as int, s.len() as int));
                    assert(cut_out(s@, cuts@) =~= cut_out(s@, before) + seq![rest]);
                }
                return cuts;
            },
        }
    }
}

/// The first position at or after `from` that holds white space, or the end
/// of `s`.
pub open spec fn skip_word(s: Seq<char>, from: int) -> int
    decreases s.len() - from,
{
    if 0 <= from < s.len() && !is_whitespace(s[from]) {
        skip_word(s, from + 1)
    } else {
        from
    }
}

/// The words of `s`: its longest runs of characters that are no white space,
/// in order.
pub open spec fn words(s: Seq<char>) -> Seq<Seq<char>>
    decreases s.len(),
{
    let start = skip_whitespace(s, 0);
    if 0 <= start < s.len() {
        let end = skip_word(s, start);
        if start < end <= s.len() {
            seq![s.subrange(start, end)] + words(s.skip(end))
        } else {
            Seq::empty()
        }
    } else {
        Seq::empty()
    }
}

/// Skipping in `s` without its first `start` characters is skipping in `s`
/// from `start`, with every position moved by `start`.
pub proof fn lemma_skips_skip(s: Seq<char>, start: int, from: int)
    requires
        0 <= start <= s.len(),
        0 <= from,
    ensures
        skip_whitespace(s.skip(start), from) == skip_whitespace(s, start + from) - start,
        skip_word(s.skip(start), from) == skip_word(s, start + from) - start,
    decreases s.len() - start - from,
{
    if from < s.len() - start {
        lemma_skips_skip(s, start, from + 1);
    }
}

/// Computes `words`, each word as a range of positions in `s`.
pub fn split_words(s: &Vec<char>) -> (cuts: Vec<(usize, usize)>)
    ensures
        cuts_within(cuts@, s.len() as int),
        cut_out(s@, cuts@) == words(s@),
{
    let mut cuts: Vec<(usize, usize)> = Vec::new();
    let mut at: usize = 0;
    proof {
        assert(s@.skip(0) =~= s@);
        assert(cut_out(s@, cuts@) + words(s@) =~= words(s@));
    }
    loop
        invariant
            at <= s.len(),
            cuts_within(cuts@, s.len() as int),
            words(s@) == cut_out(s@, cuts@) + words(s@.skip(at as int)),
        decreases s.len() - at,
    {
        let ghost before = cuts@;
        let ghost rest = s@.skip(at as int);
        let mut start: usize = at;
        while start < s.len() && whitespace(s[start])
            invariant
                at <= start <= s.len(),
                skip_whitespace(s@, at as int) == skip_whitespace(s@, start as int),
            decreases s.len() - start,
        {
            start = start + 1;
        }
        proof {
            lemma_skips_skip(s@, at as int, 0);
        }
        if start == s.len() {
            proof {
                assert(cut_out(s@, cuts@) + Seq::<Seq<char>>::empty() =~= cut_out(s@, cuts@));
            }
            return cuts;
        }
        let mut end: usize = start;
        while end < s.len() && !whitespace(s[end])
            invariant
                start <= end <= s.len(),
                skip_word(s@, start as int) == skip_word(s@, end as int),
            decreases s.len() - end,
        {
            end = end + 1;
        }
        cuts.push((start, end));
        proof {
            lemma_skips_skip(s@, at as int, start - at);
            assert(rest.subrange(start - at, end - at) =~= s@.subrange(start as int, end as int));
            assert(rest.skip(end - at) =~= s@.skip(end as int));
            assert(cut_out(s@, cuts@) =~= cut_out(s@, before) + seq![
                s@.subrange(start as int, end as int),
            ]);
            assert(cut_out(s@, before) + (seq![rest.subrange(start - at, end - at)] + words(
                s@.skip(end as int),
            )) =~= cut_out(s@, cuts@) + words(s@.skip(end as int)));
        }
        at = end;
    }
}

} // verus!
