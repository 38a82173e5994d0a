//! The splitting rules of `str::lines`, `str::split_whitespace` and
//! `str::split(char)`, stated as spans `(start, end)` of character positions,
//! with executable versions that compute the same spans.
use vstd::prelude::*;

verus! {

/// `char::is_whitespace`: the characters with the Unicode `White_Space` property.
pub open spec fn is_whitespace(c: char) -> bool {
    ||| ('\t' <= c && c <= '\r')
    ||| c == ' '
    ||| c == '\u{85}'
    ||| c == '\u{a0}'
    ||| c == '\u{1680}'
    ||| ('\u{2000}' <= c && c <= '\u{200a}')
    ||| c == '\u{2028}'
    ||| c == '\u{2029}'
    ||| c == '\u{202f}'
    ||| c == '\u{205f}'
    ||| c == '\u{3000}'
}

pub fn is_whitespace_char(c: char) -> (b: bool)
    ensures
        b == is_whitespace(c),
{
    ('\t' <= c && c <= '\r') || c == ' ' || c == '\u{85}' || c == '\u{a0}' || c == '\u{1680}' || (
    '\u{2000}' <= c && c <= '\u{200a}') || c == '\u{2028}' || c == '\u{2029}' || c == '\u{202f}'
        || c == '\u{205f}' || c == '\u{3000}'
}

/// The spans in machine integers, read as mathematical integers.
pub open spec fn spans_view(v: Seq<(usize, usize)>) -> Seq<(int, int)> {
    v.map_values(|p: (usize, usize)| (p.0 as int, p.1 as int))
}

/// Every span lies inside `0..n` and does not run backwards.
pub open spec fn spans_within(v: Seq<(int, int)>, n: int) -> bool {
    forall|k: int| 0 <= k < v.len() ==> 0 <= #[trigger] v[k].0 <= v[k].1 <= n
}

/// After reading `s`: the lines already ended by a `'\n'`, and where the current line starts.
/// A `'\r'` just before the `'\n'` does not belong to the line.
pub open spec fn line_scan(s: Seq<char>) -> (Seq<(int, int)>, int)
    decreases s.len(),
{
    if s.len() == 0 {
        (seq![], 0)
    } else {
        let prev = line_scan(s.drop_last());
        let p = s.len() - 1;
        if s[p] == '\n' {
            let end = if p > prev.1 && s[p - 1] == '\r' {
                p - 1
            } else {
                p
            };
            (prev.0.push((prev.1, end)), s.len() as int)
        } else {
            prev
        }
    }
}

/// The lines of `s` as `str::lines` yields them: split at `'\n'`, a `'\r'` before
/// the `'\n'` dropped, and no empty line after a final `'\n'`.
pub open spec fn line_spans(s: Seq<char>) -> Seq<(int, int)> {
    let scan = line_scan(s);
    if scan.1 < s.len() {
        scan.0.push((scan.1, s.len() as int))
    } else {
        scan.0
    }
}

/// After reading `s`: the words already ended by whitespace, and where the current word
/// starts (the position after the last whitespace character).
pub open spec fn word_scan(s: Seq<char>) -> (Seq<(int, int)>, int)
    decreases s.len(),
{
    if s.len() == 0 {
        (seq![], 0)
    } else {
        let prev = word_scan(s.drop_last());
        let p = s.len() - 1;
        if is_whitespace(s[p]) {
            if prev.1 < p {
                (prev.0.push((prev.1, p)), s.len() as int)
            } else {
                (prev.0, s.len() as int)
            }
        } else {
            prev
        }
    }
}

/// The words of `s` as `str::split_whitespace` yields them: the maximal runs of
/// characters that are not whitespace.
pub open spec fn word_spans(s: Seq<char>) -> Seq<(int, int)> {
    let scan = word_scan(s);
    if scan.1 < s.len() {
        scan.0.push((scan.1, s.len() as int))
    } else {
        scan.0
    }
}

/// After reading `s`: the pieces already ended by `sep`, and where the current piece starts.
pub open spec fn piece_scan(s: Seq<char>, sep: char) -> (Seq<(int, int)>, int)
    decreases s.len(),
{
    if s.len() == 0 {
        (seq![], 0)
    } else {
        let prev = piece_scan(s.drop_last(), sep);
        let p = s.len() - 1;
        if s[p] == sep {
            (prev.0.push((prev.1, p)), s.len() as int)
        } else {
            prev
        }
    }
}

/// The pieces of `s` as `str::split(sep)` yields them, empty ones included.
pub open spec fn piece_spans(s: Seq<char>, sep: char) -> Seq<(int, int)> {
    let scan = piece_scan(s, sep);
    scan.0.push((scan.1, s.len() as int))
}

/// The span `(start, end)` of `s`, for `start <= end <= s.len()`.
pub open spec fn span_of(s: Seq<char>, span: (int, int)) -> Seq<char> {
    s.subrange(span.0, span.1)
}

/// The `k`-th word of `s`.
pub open spec fn nth_word(s: Seq<char>, k: int) -> Seq<char> {
    span_of(s, word_spans(s)[k])
}

/// The lines of `s`, each as its characters.
pub open spec fn line_texts(s: Seq<char>) -> Seq<Seq<char>> {
    line_spans(s).map_values(|p: (int, int)| span_of(s, p))
}

/// The position of the first `c` in `s`, or `-1` when `c` does not occur.
pub open spec fn first_index(s: Seq<char>, c: char) -> int
    decreases s.len(),
{
    if s.len() == 0 {
        -1
    } else {
        let p = first_index(s.drop_last(), c);
        if p >= 0 {
            p
        } else if s.last() == c {
            s.len() - 1
        } else {
            -1
        }
    }
}

/// The position of the first `c` in `v`, as `first_index` states it.
pub fn find_char(v: &[char], c: char) -> (r: Option<usize>)
    ensures
        r matches Some(p) ==> first_index(v@, c) == p && p < v@.len(),
        r is None ==> first_index(v@, c) == -1,
{
    let n = v.len();
    let mut i: usize = 0;
    while i < n
        invariant
            n == v@.len(),
            i <= n,
            first_index(v@.take(i as int), c) == -1,
        decreases n - i,
    {
        assert(v@.take(i + 1).drop_last() =~= v@.take(i as int));
        if v[i] == c {
            proof {
                lemma_first_index_prefix(v@, c, i + 1);
            }
            return Some(i);
        }
        i = i + 1;
    }
    assert(v@.take(n as int) =~= v@);
    None
}

/// Once `c` occurs among the first `k` characters, its first position is found there.
proof fn lemma_first_index_prefix(s: Seq<char>, c: char, k: int)
    requires
        0 <= k <= s.len(),
        first_index(s.take(k), c) >= 0,
    ensures
        first_index(s, c) == first_index(s.take(k), c),
    decreases s.len() - k,
{
    if k < s.len() {
        assert(s.take(k + 1).drop_last() =~= s.take(k));
        lemma_first_index_prefix(s, c, k + 1);
    } else {
        assert(s.take(k) =~= s);
    }
}

/// The lines of `v`.
pub fn lines(v: &[char]) -> (r: Vec<(usize, usize)>)
    ensures
        spans_view(r@) == line_spans(v@),
        spans_within(spans_view(r@), v@.len() as int),
{
    let n = v.len();
    let mut done: Vec<(usize, usize)> = Vec::new();
    let mut start: usize = 0;
    let mut i: usize = 0;
    while i < n
        invariant
            n == v@.len(),
            i <= n,
            start <= i,
            (spans_view(done@), start as int) == line_scan(v@.take(i as int)),
            spans_within(spans_view(done@), i as int),
        decreases n - i,
    {
        let ghost before = v@.take(i as int);
        assert(v@.take(i + 1).drop_last() =~= before);
        if v[i] == '\n' {
            let end = if i > start && v[i - 1] == '\r' {
                i - 1
            } else {
                i
            };
            done.push((start, end));
            start = i + 1;
        }
        i = i + 1;
        assert(spans_view(done@) =~= line_scan(v@.take(i as int)).0);
    }
    assert(v@.take(n as int) =~= v@);
    if start < n {
        done.push((start, n));
    }
    assert(spans_view(done@) =~= line_spans(v@));
    done
}

/// The words of `v`.
pub fn words(v: &[char]) -> (r: Vec<(usize, usize)>)
    ensures
        spans_view(r@) == word_spans(v@),
        spans_within(spans_view(r@), v@.len() as int),
{
    let n = v.len();
    let mut done: Vec<(usize, usize)> = Vec::new();
    let mut start: usize = 0;
    let mut i: usize = 0;
    while i < n
        invariant
            n == v@.len(),
            start <= i <= n,
            (spans_view(done@), start as int) == word_scan(v@.take(i as int)),
            spans_within(spans_view(done@), i as int),
        decreases n - i,
    {
        assert(v@.take(i + 1).drop_last() =~= v@.take(i as int));
        if is_whitespace_char(v[i]) {
            if start < i {
                done.push((start, i));
            }
            start = i + 1;
        }
        i = i + 1;
        assert(spans_view(done@) =~= word_scan(v@.take(i as int)).0);
    }
    assert(v@.take(n as int) =~= v@);
    if start < n {
        done.push((start, n));
    }
    assert(spans_view(done@) =~= word_spans(v@));
    done
}

/// The pieces of `v` between occurrences of `sep`.
pub fn pieces(v: &[char], sep: char) -> (r: Vec<(usize, usize)>)
    ensures
        spans_view(r@) == piece_spans(v@, sep),
        spans_within(spans_view(r@), v@.len() as int),
{
    let n = v.len();
    let mut done: Vec<(usize, usize)> = Vec::new();
    let mut start: usize = 0;
    let mut i: usize = 0;
    while i < n
        invariant
            n == v@.len(),
            start <= i <= n,
            (spans_view(done@), start as int) == piece_scan(v@.take(i as int), sep),
            spans_within(spans_view(done@), i as int),
        decreases n - i,
    {
        assert(v@.take(i + 1).drop_last() =~= v@.take(i as int));
        if v[i] == sep {
            done.push((start, i));
            start = i + 1;
        }
        i = i + 1;
        assert(spans_view(done@) =~= piece_scan(v@.take(i as int), sep).0);
    }
    assert(v@.take(n as int) =~= v@);
    done.push((start, n));
    assert(spans_view(done@) =~= piece_spans(v@, sep));
    done
}

/// `s[a..b]` is a word of `s`: a non-empty run of characters that are not whitespace,
/// with whitespace or an end of `s` on either side.
pub open spec fn is_maximal_run(s: Seq<char>, a: int, b: int) -> bool {
    &&& 0 <= a < b <= s.len()
    &&& forall|j: int| a <= j < b ==> !is_whitespace(#[trigger] s[j])
    &&& (a == 0 || is_whitespace(s[a - 1]))
    &&& (b == s.len() || is_whitespace(s[b]))
}

/// What reading `s` word by word has found: maximal runs, in order, that cover every
/// character before the current word, which runs to the end without whitespace.
proof fn lemma_word_scan(s: Seq<char>)
    ensures
        ({
            let done = word_scan(s).0;
            let start = word_scan(s).1;
            &&& 0 <= start <= s.len()
            &&& (start == 0 || is_whitespace(s[start - 1]))
            &&& forall|j: int| start <= j < s.len() ==> !is_whitespace(#[trigger] s[j])
            &&& forall|k: int|
                0 <= k < done.len() ==> is_maximal_run(s, #[trigger] done[k].0, done[k].1)
                    && done[k].1 < start
            &&& forall|k: int| 0 <= k < done.len() - 1 ==> #[trigger] done[k].1 < done[k + 1].0
            &&& forall|j: int|
                0 <= j < start && !is_whitespace(#[trigger] s[j]) ==> exists|k: int|
                    0 <= k < done.len() && #[trigger] done[k].0 <= j < done[k].1
        }),
    decreases s.len(),
{
    if s.len() > 0 {
        let p = s.drop_last();
        lemma_word_scan(p);
        let pd = word_scan(p).0;
        let ps = word_scan(p).1;
        let q = s.len() - 1;
        assert forall|j: int| 0 <= j < p.len() implies p[j] == s[j] by {}
        let done = word_scan(s).0;
        let start = word_scan(s).1;
        if is_whitespace(s[q]) {
            if ps < q {
                assert(done == pd.push((ps, q)));
                assert(is_maximal_run(s, ps, q)) by {
                    assert forall|j: int| ps <= j < q implies !is_whitespace(#[trigger] s[j]) by {
                        assert(p[j] == s[j]);
                    }
                    if ps > 0 {
                        assert(p[ps - 1] == s[ps - 1]);
                    }
                }
                assert forall|k: int| 0 <= k < done.len() implies is_maximal_run(
                    s,
                    #[trigger] done[k].0,
                    done[k].1,
                ) && done[k].1 < start by {
                    if k < pd.len() {
                        assert(done[k] == pd[k]);
                        let a = pd[k].0;
                        let b = pd[k].1;
                        assert(is_maximal_run(p, a, b));
                        assert forall|j: int| a <= j < b implies !is_whitespace(#[trigger] s[j]) by {
                            assert(p[j] == s[j]);
                        }
                        if a > 0 {
                            assert(p[a - 1] == s[a - 1]);
                        }
                        assert(p[b] == s[b]);
                    }
                }
                assert forall|k: int| 0 <= k < done.len() - 1 implies #[trigger] done[k].1
                    < done[k + 1].0 by {
                    assert(is_maximal_run(p, pd[k].0, pd[k].1) && pd[k].1 < ps);
                    if k < pd.len() - 1 {
                        assert(pd[k].1 < pd[k + 1].0);
                        assert(done[k] == pd[k] && done[k + 1] == pd[k + 1]);
                    } else {
                        assert(done[k] == pd[k] && done[k + 1] == (ps, q));
                    }
                }
                assert forall|j: int| 0 <= j < start && !is_whitespace(#[trigger] s[j]) implies exists|
                    k: int,
                | 0 <= k < done.len() && #[trigger] done[k].0 <= j < done[k].1 by {
                    if j < ps {
                        assert(p[j] == s[j]);
                        let k = choose|k: int| 0 <= k < pd.len() && #[trigger] pd[k].0 <= j < pd[k].1;
                        assert(done[k] == pd[k]);
                        assert(done[k].0 <= j < done[k].1);
                    } else {
                        let k = pd.len() as int;
                        assert(done[k] == (ps, q));
                        assert(j != q);
                        assert(done[k].0 <= j < done[k].1);
                    }
                }
            } else {
                assert(done == pd);
                assert forall|k: int| 0 <= k < done.len() implies is_maximal_run(
                    s,
                    #[trigger] done[k].0,
                    done[k].1,
                ) && done[k].1 < start by {
                    let a = pd[k].0;
                    let b = pd[k].1;
                    assert(is_maximal_run(p, a, b));
                    assert forall|j: int| a <= j < b implies !is_whitespace(#[trigger] s[j]) by {
                        assert(p[j] == s[j]);
                    }
                    if a > 0 {
                        assert(p[a - 1] == s[a - 1]);
                    }
                    assert(p[b] == s[b]);
                }
                assert forall|j: int| 0 <= j < start && !is_whitespace(#[trigger] s[j]) implies exists|
                    k: int,
                | 0 <= k < done.len() && #[trigger] done[k].0 <= j < done[k].1 by {
                    assert(p[j] == s[j]);
                }
            }
        } else {
            assert(done == pd && start == ps);
            assert forall|j: int| start <= j < s.len() implies !is_whitespace(#[trigger] s[j]) by {
                if j < q {
                    assert(p[j] == s[j]);
                }
            }
            if ps > 0 {
                assert(p[ps - 1] == s[ps - 1]);
            }
            assert forall|k: int| 0 <= k < done.len() implies is_maximal_run(
                s,
                #[trigger] done[k].0,
                done[k].1,
            ) && done[k].1 < start by {
                let a = pd[k].0;
                let b = pd[k].1;
                assert(is_maximal_run(p, a, b));
                assert forall|j: int| a <= j < b implies !is_whitespace(#[trigger] s[j]) by {
                    assert(p[j] == s[j]);
                }
                if a > 0 {
                    assert(p[a - 1] == s[a - 1]);
                }
                assert(p[b] == s[b]);
            }
            assert forall|j: int| 0 <= j < start && !is_whitespace(#[trigger] s[j]) implies exists|
                k: int,
            | 0 <= k < done.len() && #[trigger] done[k].0 <= j < done[k].1 by {
                assert(p[j] == s[j]);
            }
        }
    }
}

/// The words of a text are exactly its maximal runs of characters that are not whitespace,
/// in order: every word is non-empty, has no whitespace inside and whitespace or an end of
/// the text on each side, words come left to right without overlapping, and every character
/// that is not whitespace lies in a word. So runs of several whitespace characters separate
/// words just as one does.
pub proof fn law_words_are_maximal_runs(s: Seq<char>)
    ensures
        forall|k: int|
            0 <= k < word_spans(s).len() ==> is_maximal_run(
                s,
                #[trigger] word_spans(s)[k].0,
                word_spans(s)[k].1,
            ),
        forall|k: int|
            0 <= k < word_spans(s).len() - 1 ==> #[trigger] word_spans(s)[k].1 < word_spans(s)[k
                + 1].0,
        forall|j: int|
            0 <= j < s.len() && !is_whitespace(#[trigger] s[j]) ==> exists|k: int|
                0 <= k < word_spans(s).len() && #[trigger] word_spans(s)[k].0 <= j
                    < word_spans(s)[k].1,
{
    lemma_word_scan(s);
    let done = word_scan(s).0;
    let start = word_scan(s).1;
    let w = word_spans(s);
    if start < s.len() {
        assert(w == done.push((start, s.len() as int)));
        assert forall|k: int| 0 <= k < w.len() implies is_maximal_run(
            s,
            #[trigger] w[k].0,
            w[k].1,
        ) by {
            if k < done.len() {
                assert(w[k] == done[k]);
            }
        }
        assert forall|k: int| 0 <= k < w.len() - 1 implies #[trigger] w[k].1 < w[k + 1].0 by {
            assert(is_maximal_run(s, done[k].0, done[k].1) && done[k].1 < start);
            if k < done.len() - 1 {
                assert(done[k].1 < done[k + 1].0);
                assert(w[k] == done[k] && w[k + 1] == done[k + 1]);
            } else {
                assert(w[k] == done[k] && w[k + 1] == (start, s.len() as int));
            }
        }
        assert forall|j: int| 0 <= j < s.len() && !is_whitespace(#[trigger] s[j]) implies exists|k: int|
            0 <= k < w.len() && #[trigger] w[k].0 <= j < w[k].1 by {
            if j < start {
                let k = choose|k: int| 0 <= k < done.len() && #[trigger] done[k].0 <= j < done[k].1;
                assert(w[k] == done[k]);
                assert(w[k].0 <= j < w[k].1);
            } else {
                let k = done.len() as int;
                assert(w[k] == (start, s.len() as int));
                assert(w[k].0 <= j < w[k].1);
            }
        }
    } else {
        assert(w == done);
    }
}

} // verus!
