//! Character-sequence utilities: scanning specifications with their
//! characterization lemmas, the executable scanners proved against them,
//! and the `StringUtils` extension trait on `String` that carries the
//! template segmenter.

use vstd::prelude::*;
use vstd::string::{StrSliceExecFns, StringExecFns};

use crate::errors::RenderError;

verus! {

/// One piece of a template, in source order: either literal text to be
/// emitted verbatim, or the text found between a delimiter pair.
#[derive(Debug)]
pub enum Chunk {
    Literal(String),
    Code(String),
}

/// The mathematical image of a [`Chunk`].
pub enum ChunkModel {
    Literal(Seq<char>),
    Code(Seq<char>),
}

impl View for Chunk {
    type V = ChunkModel;

    open spec fn view(&self) -> ChunkModel {
        match self {
            Chunk::Literal(s) => ChunkModel::Literal(s@),
            Chunk::Code(s) => ChunkModel::Code(s@),
        }
    }
}

// ---------------------------------------------------------------------------
// Scanning specifications
// ---------------------------------------------------------------------------

/// Index of the first occurrence of `c` in `s`, or `s.len()` if absent.
pub open spec fn find_first(s: Seq<char>, c: char) -> int
    decreases s.len(),
{
    if s.len() == 0 {
        0
    } else if s[0] == c {
        0
    } else {
        1 + find_first(s.drop_first(), c)
    }
}

/// `find_first` points at the first occurrence: nothing before it is `c`,
/// and it is `c` itself unless `c` is absent altogether.
pub proof fn lemma_find_first(s: Seq<char>, c: char)
    ensures
        0 <= find_first(s, c) <= s.len(),
        forall|k: int| 0 <= k < find_first(s, c) ==> s[k] != c,
        find_first(s, c) < s.len() ==> s[find_first(s, c)] == c,
    decreases s.len(),
{
    if s.len() > 0 && s[0] != c {
        lemma_find_first(s.drop_first(), c);
        assert forall|k: int| 0 <= k < find_first(s, c) implies s[k] != c by {
            if k > 0 {
                assert(s.drop_first()[k - 1] == s[k]);
            }
        }
        if find_first(s, c) < s.len() {
            assert(s.drop_first()[find_first(s.drop_first(), c)] == s[find_first(s, c)]);
        }
    }
}

/// Any index with the first-occurrence properties is `find_first`.
pub proof fn lemma_find_first_unique(s: Seq<char>, c: char, i: int)
    requires
        0 <= i <= s.len(),
        forall|k: int| 0 <= k < i ==> s[k] != c,
        i < s.len() ==> s[i] == c,
    ensures
        find_first(s, c) == i,
{
    lemma_find_first(s, c);
}

/// Length of the longest prefix of `s` made of `c` alone.
pub open spec fn run_len(s: Seq<char>, c: char) -> int
    decreases s.len(),
{
    if s.len() > 0 && s[0] == c {
        1 + run_len(s.drop_first(), c)
    } else {
        0
    }
}

/// `run_len` measures the maximal prefix run: everything before it is `c`,
/// and the character right after it (if any) is not.
pub proof fn lemma_run_len(s: Seq<char>, c: char)
    ensures
        0 <= run_len(s, c) <= s.len(),
        forall|k: int| 0 <= k < run_len(s, c) ==> s[k] == c,
        run_len(s, c) < s.len() ==> s[run_len(s, c)] != c,
    decreases s.len(),
{
    if s.len() > 0 && s[0] == c {
        lemma_run_len(s.drop_first(), c);
        assert forall|k: int| 0 <= k < run_len(s, c) implies s[k] == c by {
            if k > 0 {
                assert(s.drop_first()[k - 1] == s[k]);
            }
        }
        if run_len(s, c) < s.len() {
            assert(s.drop_first()[run_len(s.drop_first(), c)] == s[run_len(s, c)]);
        }
    }
}

/// Any length with the maximal-prefix-run properties is `run_len`.
pub proof fn lemma_run_len_unique(s: Seq<char>, c: char, i: int)
    requires
        0 <= i <= s.len(),
        forall|k: int| 0 <= k < i ==> s[k] == c,
        i < s.len() ==> s[i] != c,
    ensures
        run_len(s, c) == i,
{
    lemma_run_len(s, c);
}

/// `s` with every (leftmost, non-overlapping) occurrence of `pat` removed.
pub open spec fn remove_all(s: Seq<char>, pat: Seq<char>) -> Seq<char>
    decreases s.len(),
{
    if pat.len() == 0 || s.len() < pat.len() {
        s
    } else if s.take(pat.len() as int) == pat {
        remove_all(s.skip(pat.len() as int), pat)
    } else {
        seq![s[0]] + remove_all(s.drop_first(), pat)
    }
}

// ---------------------------------------------------------------------------
// Executable scanners
// ---------------------------------------------------------------------------

/// Position of the first occurrence of `c` in `s` at or after `from`,
/// or `s@.len()` if there is none.
pub fn find_char_from(s: &str, from: usize, c: char) -> (r: usize)
    requires
        from <= s@.len(),
    ensures
        from <= r <= s@.len(),
        forall|k: int| from <= k < r ==> s@[k] != c,
        r < s@.len() ==> s@[r as int] == c,
{
    let n = s.unicode_len();
    let mut i = from;
    while i < n
        invariant
            from <= i <= n,
            n == s@.len(),
            forall|k: int| from <= k < i ==> s@[k] != c,
        decreases n - i,
    {
        if s.get_char(i) == c {
            return i;
        }
        i = i + 1;
    }
    i
}

/// Position just past the run of `c` that starts at `from`.
pub fn skip_run_from(s: &str, from: usize, c: char) -> (r: usize)
    requires
        from <= s@.len(),
    ensures
        from <= r <= s@.len(),
        forall|k: int| from <= k < r ==> s@[k] == c,
        r < s@.len() ==> s@[r as int] != c,
{
    let n = s.unicode_len();
    let mut i = from;
    while i < n
        invariant
            from <= i <= n,
            n == s@.len(),
            forall|k: int| from <= k < i ==> s@[k] == c,
        decreases n - i,
    {
        if s.get_char(i) != c {
            return i;
        }
        i = i + 1;
    }
    i
}

/// Whether `pat` occurs in `s` exactly at position `at`.
pub fn matches_at(s: &str, at: usize, pat: &str) -> (r: bool)
    requires
        at <= s@.len(),
    ensures
        r == (at + pat@.len() <= s@.len() && s@.subrange(
            at as int,
            at + pat@.len(),
        ) == pat@),
{
    let n = s.unicode_len();
    let p = pat.unicode_len();
    if p > n - at {
        return false;
    }
    let mut j: usize = 0;
    while j < p
        invariant
            0 <= j <= p,
            n == s@.len(),
            p == pat@.len(),
            at + p <= n,
            forall|k: int| 0 <= k < j ==> s@[at + k] == pat@[k],
        decreases p - j,
    {
        if s.get_char(at + j) != pat.get_char(j) {
            assert(s@.subrange(at as int, at + pat@.len())[j as int] != pat@[j as int]);
            return false;
        }
        j = j + 1;
    }
    assert(s@.subrange(at as int, at + pat@.len()) =~= pat@);
    true
}

// ---------------------------------------------------------------------------
// Segmentation specification
// ---------------------------------------------------------------------------

/// Segmentation of the part of a template that starts at a delimiter run
/// (or is empty): chunks alternate between the text found between a
/// delimiter pair and the literal text after it, until the text is
/// exhausted.  `None` means an opened block is never closed.
///
/// `od` is the single opening delimiter character, `cd` the closing one.
/// A run of consecutive opening delimiters counts as one opening; the
/// code text reaches to the first closing delimiter, and the run of
/// closing delimiters after it is consumed with it.  An opening run at
/// the very end of the text opens nothing.  An opening delimiter that
/// appears before any closing one leaves the block unclosed.
pub open spec fn spec_segment_code(t: Seq<char>, od: char, cd: char) -> Option<Seq<ChunkModel>>
    decreases t.len(),
    via spec_segment_code_decreases
{
    if t.len() == 0 {
        Some(Seq::empty())
    } else {
        let u = t.skip(run_len(t, od));
        if u.len() == 0 {
            Some(Seq::empty())
        } else {
            let ci = find_first(u, cd);
            let oi = find_first(u, od);
            if ci >= u.len() || oi < ci {
                None
            } else {
                let v = u.skip(ci + run_len(u.skip(ci), cd));
                let li = find_first(v, od);
                match spec_segment_code(v.skip(li), od, cd) {
                    None => None,
                    Some(cs) => Some(
                        seq![ChunkModel::Code(u.take(ci))] + (if li > 0 {
                            seq![ChunkModel::Literal(v.take(li))]
                        } else {
                            Seq::empty()
                        }) + cs,
                    ),
                }
            }
        }
    }
}

#[via_fn]
proof fn spec_segment_code_decreases(t: Seq<char>, od: char, cd: char) {
    lemma_run_len(t, od);
    if t.len() != 0 {
        let u = t.skip(run_len(t, od));
        if u.len() != 0 {
            lemma_find_first(u, cd);
            lemma_find_first(u, od);
            let ci = find_first(u, cd);
            let oi = find_first(u, od);
            if !(ci >= u.len() || oi < ci) {
                let w = u.skip(ci);
                assert(w.len() > 0 && w[0] == cd);
                lemma_run_len(w, cd);
                lemma_run_len(w.drop_first(), cd);
                assert(run_len(w, cd) >= 1);
                let v = u.skip(ci + run_len(w, cd));
                lemma_find_first(v, od);
            }
        }
    }
}

/// Segmentation of a whole template: the literal text before the first
/// opening delimiter (emitted only if non-empty), then the chunks of the
/// rest.  `None` means an opened block is never closed.
pub open spec fn spec_segment(t: Seq<char>, od: char, cd: char) -> Option<Seq<ChunkModel>> {
    let li = find_first(t, od);
    match spec_segment_code(t.skip(li), od, cd) {
        None => None,
        Some(cs) => Some(
            if li > 0 {
                seq![ChunkModel::Literal(t.take(li))] + cs
            } else {
                cs
            },
        ),
    }
}

/// Whether two string slices hold the same characters.
pub fn str_eq(a: &str, b: &str) -> (r: bool)
    ensures
        r == (a@ == b@),
{
    let n = a.unicode_len();
    if n != b.unicode_len() {
        return false;
    }
    let mut i: usize = 0;
    while i < n
        invariant
            0 <= i <= n,
            n == a@.len(),
            n == b@.len(),
            forall|k: int| 0 <= k < i ==> a@[k] == b@[k],
        decreases n - i,
    {
        if a.get_char(i) != b.get_char(i) {
            return false;
        }
        i = i + 1;
    }
    assert(a@ =~= b@);
    true
}

// ---------------------------------------------------------------------------
// The StringUtils extension trait
// ---------------------------------------------------------------------------

/// Text helpers the template engine needs from its string type.
pub trait StringUtils {
    /// The character sequence this text stands for.
    spec fn chars(&self) -> Seq<char>;

    /// Whether the text begins with `start` and ends with `end`.
    fn starts_then_ends_with(&self, start: &str, end: &str) -> (r: bool)
        ensures
            r == (start@.is_prefix_of(self.chars()) && end@.is_suffix_of(self.chars())),
    ;

    /// The text with every occurrence of `string` removed, scanning left
    /// to right without overlap.
    fn without(&self, string: &str) -> (r: Self) where Self: core::marker::Sized
        ensures
            r.chars() == remove_all(self.chars(), string@),
    ;

    /// Split the text into literal and code chunks on the one-character
    /// delimiters `start` and `end`; fail if a code block is opened and
    /// never closed.
    fn split_in_chunks_inclusive(&self, start: &str, end: &str) -> (r: Result<
        Vec<Chunk>,
        RenderError,
    >)
        requires
            start@.len() == 1,
            end@.len() == 1,
        ensures
            (match r {
                Ok(chunks) => spec_segment(self.chars(), start@[0], end@[0]) == Some(
                    chunks@.map_values(|c: Chunk| c@),
                ),
                Err(e) => e == RenderError::Segmentation && spec_segment(
                    self.chars(),
                    start@[0],
                    end@[0],
                ) is None,
            }),
    ;
}

impl StringUtils for String {
    open spec fn chars(&self) -> Seq<char> {
        self@
    }

    fn starts_then_ends_with(&self, start: &str, end: &str) -> (r: bool) {
        let s = self.as_str();
        let n = s.unicode_len();
        let sp = start.unicode_len();
        let ep = end.unicode_len();
        if sp > n || ep > n {
            return false;
        }
        let pre = matches_at(s, 0, start);
        let suf = matches_at(s, n - ep, end);
        proof {
            if pre {
                assert(start@ =~= self@.subrange(0, start@.len() as int));
                assert(start@.is_prefix_of(self@));
            } else {
                assert(!(start@ =~= self@.subrange(0, start@.len() as int)));
            }
            if suf {
                assert(end@ =~= self@.subrange(
                    self@.len() - end@.len(),
                    self@.len() as int,
                ));
                assert(end@.is_suffix_of(self@));
            } else {
                assert(!(end@ =~= self@.subrange(
                    self@.len() - end@.len(),
                    self@.len() as int,
                )));
            }
        }
        pre && suf
    }

    #[verifier::loop_isolation(false)]
    fn without(&self, string: &str) -> (r: Self) {
        let s = self.as_str();
        let n = s.unicode_len();
        let p = string.unicode_len();
        let mut out = String::new();
        let mut i: usize = 0;
        proof {
            assert(self@.skip(0) =~= self@);
            assert(out@ + remove_all(self@.skip(0), string@) =~= remove_all(self@, string@));
        }
        while i < n
            invariant
                i <= n,
                remove_all(self@, string@) == out@ + remove_all(self@.skip(i as int), string@),
            decreases n - i,
        {
            if p > 0 && matches_at(s, i, string) {
                proof {
                    let t = self@.skip(i as int);
                    assert(t.take(string@.len() as int) =~= self@.subrange(
                        i as int,
                        i + string@.len(),
                    ));
                    assert(t.skip(string@.len() as int) =~= self@.skip(i + string@.len()));
                }
                i = i + p;
            } else {
                proof {
                    let t = self@.skip(i as int);
                    if p > 0 && t.len() >= p {
                        assert(t.take(string@.len() as int) =~= self@.subrange(
                            i as int,
                            i + string@.len(),
                        ));
                    }
                    assert(t.drop_first() =~= self@.skip(i + 1));
                    assert(seq![t[0]] =~= self@.subrange(i as int, i + 1));
                }
                out.append(s.substring_char(i, i + 1));
                i = i + 1;
            }
        }
        proof {
            assert(self@.skip(n as int).len() == 0);
            assert(out@ + remove_all(self@.skip(n as int), string@) =~= out@);
        }
        out
    }

    #[verifier::loop_isolation(false)]
    #[verifier::rlimit(60)]
    fn split_in_chunks_inclusive(&self, start: &str, end: &str) -> (r: Result<
        Vec<Chunk>,
        RenderError,
    >) {
        let s = self.as_str();
        let n = s.unicode_len();
        let od = start.get_char(0);
        let cd = end.get_char(0);
        let ghost goal = spec_segment(self@, od, cd);
        let mut chunks: Vec<Chunk> = Vec::new();
        let lead_end = find_char_from(s, 0, od);
        proof {
            lemma_find_first_unique(self@, od, lead_end as int);
        }
        if lead_end > 0 {
            chunks.push(Chunk::Literal(String::from_str(s.substring_char(0, lead_end))));
            proof {
                assert(self@.subrange(0, lead_end as int) =~= self@.take(lead_end as int));
                assert(chunks@.map_values(|c: Chunk| c@) =~= seq![
                    ChunkModel::Literal(self@.take(lead_end as int)),
                ]);
            }
        }
        let mut pos = lead_end;
        while pos < n
            invariant
                pos <= n,
                pos == n || self@[pos as int] == od,
                goal == (match spec_segment_code(self@.skip(pos as int), od, cd) {
                    None => None::<Seq<ChunkModel>>,
                    Some(cs) => Some(chunks@.map_values(|c: Chunk| c@) + cs),
                }),
            decreases n - pos,
        {
            let ghost t = self@.skip(pos as int);
            let after_open = skip_run_from(s, pos, od);
            proof {
                assert forall|k: int| 0 <= k < after_open - pos implies t[k] == od by {
                    assert(t[k] == self@[pos + k]);
                }
                lemma_run_len_unique(t, od, after_open - pos);
                assert(t.skip(after_open - pos) =~= self@.skip(after_open as int));
            }
            if after_open == n {
                proof {
                    assert(spec_segment_code(t, od, cd) == Some(Seq::<ChunkModel>::empty()));
                    assert(self@.skip(n as int).len() == 0);
                    assert(spec_segment_code(self@.skip(n as int), od, cd) == Some(
                        Seq::<ChunkModel>::empty(),
                    ));
                }
                pos = after_open;
            } else {
                let ghost u = self@.skip(after_open as int);
                let ci = find_char_from(s, after_open, cd);
                let oi = find_char_from(s, after_open, od);
                proof {
                    assert forall|k: int| 0 <= k < ci - after_open implies u[k] != cd by {
                        assert(u[k] == self@[after_open + k]);
                    }
                    lemma_find_first_unique(u, cd, ci - after_open);
                    assert forall|k: int| 0 <= k < oi - after_open implies u[k] != od by {
                        assert(u[k] == self@[after_open + k]);
                    }
                    lemma_find_first_unique(u, od, oi - after_open);
                }
                if ci == n || oi < ci {
                    proof {
                        assert(spec_segment_code(t, od, cd) is None);
                        assert(goal is None);
                    }
                    return Err(RenderError::Segmentation);
                }
                let ghost old_chunks = chunks@;
                chunks.push(Chunk::Code(String::from_str(s.substring_char(after_open, ci))));
                let after_close = skip_run_from(s, ci, cd);
                let ghost w = self@.skip(ci as int);
                proof {
                    assert forall|k: int| 0 <= k < after_close - ci implies w[k] == cd by {
                        assert(w[k] == self@[ci + k]);
                    }
                    lemma_run_len_unique(w, cd, after_close - ci);
                    assert(u.skip(ci - after_open) =~= w);
                    assert(u.skip((ci - after_open) + (after_close - ci)) =~= self@.skip(
                        after_close as int,
                    ));
                }
                let ghost v = self@.skip(after_close as int);
                let lit_end = find_char_from(s, after_close, od);
                proof {
                    assert forall|k: int| 0 <= k < lit_end - after_close implies v[k] != od by {
                        assert(v[k] == self@[after_close + k]);
                    }
                    lemma_find_first_unique(v, od, lit_end - after_close);
                    assert(v.skip(lit_end - after_close) =~= self@.skip(lit_end as int));
                }
                if lit_end > after_close {
                    chunks.push(
                        Chunk::Literal(String::from_str(s.substring_char(after_close, lit_end))),
                    );
                }
                proof {
                    let code = u.take(ci - after_open);
                    assert(code =~= self@.subrange(after_open as int, ci as int));
                    let front = seq![ChunkModel::Code(code)] + (if lit_end - after_close > 0 {
                        seq![ChunkModel::Literal(v.take(lit_end - after_close))]
                    } else {
                        Seq::<ChunkModel>::empty()
                    });
                    assert(spec_segment_code(t, od, cd) == (
                    match spec_segment_code(self@.skip(lit_end as int), od, cd) {
                        None => None::<Seq<ChunkModel>>,
                        Some(cs) => Some(front + cs),
                    }));
                    if lit_end > after_close {
                        assert(v.take(lit_end - after_close) =~= self@.subrange(
                            after_close as int,
                            lit_end as int,
                        ));
                    }
                    assert(chunks@.map_values(|c: Chunk| c@) =~= old_chunks.map_values(
                        |c: Chunk| c@,
                    ) + front);
                    if spec_segment_code(self@.skip(lit_end as int), od, cd) is Some {
                        let cs = spec_segment_code(self@.skip(lit_end as int), od, cd)->Some_0;
                        assert((old_chunks.map_values(|c: Chunk| c@) + (front + cs)) =~= (
                        old_chunks.map_values(|c: Chunk| c@) + front) + cs);
                    }
                }
                pos = lit_end;
            }
        }
        proof {
            assert(self@.skip(n as int).len() == 0);
            assert(spec_segment_code(self@.skip(pos as int), od, cd) == Some(
                Seq::<ChunkModel>::empty(),
            ));
            assert(chunks@.map_values(|c: Chunk| c@) + Seq::<ChunkModel>::empty()
                =~= chunks@.map_values(|c: Chunk| c@));
        }
        Ok(chunks)
    }
}

} // verus!
