use vstd::prelude::*;

verus! {

/// Characters with the Unicode White_Space property.
pub open spec fn is_space(c: char) -> bool {
    ('\u{9}' <= c && c <= '\u{d}') || c == ' ' || c == '\u{85}' || c == '\u{a0}' || c == '\u{1680}'
        || ('\u{2000}' <= c && c <= '\u{200a}') || c == '\u{2028}' || c == '\u{2029}' || c
        == '\u{202f}' || c == '\u{205f}' || c == '\u{3000}'
}

/// Whether a character has the Unicode White_Space property.
pub fn is_space_exec(c: char) -> (r: bool)
    ensures
        r == is_space(c),
{
    ('\u{9}' <= c && c <= '\u{d}') || c == ' ' || c == '\u{85}' || c == '\u{a0}' || c == '\u{1680}'
        || ('\u{2000}' <= c && c <= '\u{200a}') || c == '\u{2028}' || c == '\u{2029}' || c
        == '\u{202f}' || c == '\u{205f}' || c == '\u{3000}'
}

/// ASCII letters to lower case; every other character unchanged.
pub open spec fn lower(c: char) -> char {
    if 'A' <= c && c <= 'Z' {
        ((c as u32) + 32) as char
    } else {
        c
    }
}

/// A text with its ASCII letters in lower case.
pub open spec fn lowered(s: Seq<char>) -> Seq<char> {
    Seq::new(s.len(), |i: int| lower(s[i]))
}

/// The text with ASCII letters in lower case.
pub fn lower_exec(s: &Vec<char>) -> (r: Vec<char>)
    ensures
        r@ == lowered(s@),
{
    let mut out: Vec<char> = Vec::new();
    let mut i: usize = 0;
    while i < s.len()
        invariant
            i <= s.len(),
            out@ == lowered(s@.take(i as int)),
        decreases s.len() - i,
    {
        let c = s[i];
        let l = if 'A' <= c && c <= 'Z' {
            ((c as u8) + 32) as char
        } else {
            c
        };
        out.push(l);
        i = i + 1;
        assert(out@ == lowered(s@.take(i as int)));
    }
    assert(s@.take(i as int) == s@);
    out
}


/// Splits a text into its whitespace runs and its tokens: the runs are the
/// leading run, then the run after each token (any of them may be empty at
/// the ends), so there is always one run more than there are tokens.
pub open spec fn segment(s: Seq<char>) -> (Seq<Seq<char>>, Seq<Seq<char>>)
    decreases s.len(),
{
    if s.len() == 0 {
        (seq![Seq::<char>::empty()], Seq::<Seq<char>>::empty())
    } else {
        let (runs, toks) = segment(s.drop_last());
        let c = s.last();
        if is_space(c) {
            (runs.drop_last().push(runs.last().push(c)), toks)
        } else if toks.len() > 0 && runs.last().len() == 0 {
            (runs, toks.drop_last().push(toks.last().push(c)))
        } else {
            (runs.push(Seq::<char>::empty()), toks.push(seq![c]))
        }
    }
}

/// The views of a sequence of character vectors.
pub open spec fn deep(v: Seq<Vec<char>>) -> Seq<Seq<char>> {
    Seq::new(v.len(), |i: int| v[i]@)
}

/// The whitespace runs of a text and its tokens, as `segment` gives them.
pub fn parse_whitespace(s: &Vec<char>) -> (r: (Vec<Vec<char>>, Vec<Vec<char>>))
    ensures
        (deep(r.0@), deep(r.1@)) == segment(s@),
        r.0.len() == r.1.len() + 1,
{
    let mut runs: Vec<Vec<char>> = Vec::new();
    runs.push(Vec::new());
    let mut toks: Vec<Vec<char>> = Vec::new();
    let mut i: usize = 0;
    assert(deep(runs@) =~= seq![Seq::<char>::empty()]);
    assert(deep(toks@) =~= Seq::<Seq<char>>::empty());
    assert(s@.take(0) =~= Seq::<char>::empty());
    while i < s.len()
        invariant
            i <= s.len(),
            (deep(runs@), deep(toks@)) == segment(s@.take(i as int)),
            runs.len() == toks.len() + 1,
        decreases s.len() - i,
    {
        let c = s[i];
        assert(s@.take(i + 1).drop_last() == s@.take(i as int));
        assert(s@.take(i + 1).last() == c);
        let ghost old_runs = deep(runs@);
        let ghost old_toks = deep(toks@);
        let n = runs.len();
        if is_space_exec(c) {
            let mut last = runs.pop().unwrap();
            last.push(c);
            runs.push(last);
            assert(deep(runs@) =~= old_runs.drop_last().push(old_runs.last().push(c)));
            assert(deep(toks@) =~= old_toks);
        } else if toks.len() > 0 && runs[n - 1].len() == 0 {
            let mut last = toks.pop().unwrap();
            last.push(c);
            toks.push(last);
            assert(deep(toks@) =~= old_toks.drop_last().push(old_toks.last().push(c)));
            assert(deep(runs@) =~= old_runs);
        } else {
            runs.push(Vec::new());
            let mut t: Vec<char> = Vec::new();
            t.push(c);
            toks.push(t);
            assert(deep(runs@) =~= old_runs.push(Seq::<char>::empty()));
            assert(deep(toks@) =~= old_toks.push(seq![c]));
        }
        i = i + 1;
    }
    assert(s@.take(i as int) == s@);
    (runs, toks)
}


/// The leading run, then each of the first `n` tokens with the run after it.
pub open spec fn join(runs: Seq<Seq<char>>, toks: Seq<Seq<char>>, n: nat) -> Seq<char>
    decreases n,
{
    if n == 0 {
        runs[0]
    } else {
        join(runs, toks, (n - 1) as nat) + toks[n - 1] + runs[n as int]
    }
}

proof fn lemma_join_frame(r1: Seq<Seq<char>>, t1: Seq<Seq<char>>, r2: Seq<Seq<char>>, t2: Seq<Seq<char>>, k: nat)
    requires
        forall|i: int| 0 <= i <= k ==> r1[i] == r2[i],
        forall|i: int| 0 <= i < k ==> t1[i] == t2[i],
    ensures
        join(r1, t1, k) == join(r2, t2, k),
    decreases k,
{
    if k > 0 {
        lemma_join_frame(r1, t1, r2, t2, (k - 1) as nat);
    }
}

/// The runs hold whitespace only and the tokens are non-empty with none.
pub open spec fn well_split(runs: Seq<Seq<char>>, toks: Seq<Seq<char>>) -> bool {
    &&& runs.len() == toks.len() + 1
    &&& forall|i: int, j: int| 0 <= i < runs.len() && 0 <= j < runs[i].len() ==> is_space(#[trigger] runs[i][j])
    &&& forall|i: int| 0 <= i < toks.len() ==> #[trigger] toks[i].len() > 0
    &&& forall|i: int, j: int| 0 <= i < toks.len() && 0 <= j < toks[i].len() ==> !is_space(#[trigger] toks[i][j])
}

/// Segmentation is exact: the runs and tokens are whitespace and
/// non-whitespace, and put back together they give the text.
pub proof fn lemma_segment_exact(s: Seq<char>)
    ensures
        well_split(segment(s).0, segment(s).1),
        join(segment(s).0, segment(s).1, segment(s).1.len()) == s,
    decreases s.len(),
{
    let e = Seq::<char>::empty();
    if s.len() == 0 {
        assert(segment(s).0 == seq![e]);
    } else {
        let v = s.drop_last();
        let c = s.last();
        lemma_segment_exact(v);
        let runs = segment(v).0;
        let toks = segment(v).1;
        let n = toks.len();
        assert(join(runs, toks, n) == v);
        if is_space(c) {
            let r2 = runs.drop_last().push(runs.last().push(c));
            assert(r2.len() == runs.len());
            if n == 0 {
                assert(join(r2, toks, 0) == v.push(c));
            } else {
                lemma_join_frame(runs, toks, r2, toks, (n - 1) as nat);
                assert(join(r2, toks, n) =~= v.push(c));
            }
            assert forall|i: int, j: int| 0 <= i < r2.len() && 0 <= j < r2[i].len() implies is_space(#[trigger] r2[i][j]) by {
                if i < runs.len() - 1 {
                    assert(r2[i] == runs[i]);
                } else if j < runs.last().len() {
                    assert(r2[i][j] == runs[i][j]);
                }
            }
        } else if n > 0 && runs.last().len() == 0 {
            let t2 = toks.drop_last().push(toks.last().push(c));
            lemma_join_frame(runs, toks, runs, t2, (n - 1) as nat);
            assert(runs[n as int] =~= e);
            assert(join(runs, t2, n) =~= v.push(c));
            assert forall|i: int, j: int| 0 <= i < t2.len() && 0 <= j < t2[i].len() implies !is_space(#[trigger] t2[i][j]) by {
                if i < n - 1 {
                    assert(t2[i] == toks[i]);
                } else if j < toks.last().len() {
                    assert(t2[i][j] == toks[i][j]);
                }
            }
            assert forall|i: int| 0 <= i < t2.len() implies #[trigger] t2[i].len() > 0 by {
                if i < n - 1 {
                    assert(t2[i] == toks[i]);
                }
            }
        } else {
            let r2 = runs.push(e);
            let t2 = toks.push(seq![c]);
            lemma_join_frame(runs, toks, r2, t2, n);
            assert(join(r2, t2, n + 1) =~= v.push(c));
            assert forall|i: int, j: int| 0 <= i < r2.len() && 0 <= j < r2[i].len() implies is_space(#[trigger] r2[i][j]) by {
                if i < runs.len() {
                    assert(r2[i] == runs[i]);
                }
            }
            assert forall|i: int, j: int| 0 <= i < t2.len() && 0 <= j < t2[i].len() implies !is_space(#[trigger] t2[i][j]) by {
                if i < n {
                    assert(t2[i] == toks[i]);
                }
            }
            assert forall|i: int| 0 <= i < t2.len() implies #[trigger] t2[i].len() > 0 by {
                if i < n {
                    assert(t2[i] == toks[i]);
                }
            }
        }
        assert(s == v.push(c));
    }
}

} // verus!
