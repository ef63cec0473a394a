use crate::sentence::deep;
use crate::text::{chars_of, string_of};
use vstd::prelude::*;

verus! {

/// The pieces of `w` between occurrences of `sep`; one more than there are
/// separators.
pub open spec fn split_on(w: Seq<char>, sep: char) -> Seq<Seq<char>>
    decreases w.len(),
{
    if w.len() == 0 {
        seq![Seq::<char>::empty()]
    } else {
        let parts = split_on(w.drop_last(), sep);
        if w.last() == sep {
            parts.push(Seq::<char>::empty())
        } else {
            parts.drop_last().push(parts.last().push(w.last()))
        }
    }
}

/// The pieces of `w` between occurrences of `sep`.
pub fn split_on_exec(w: &Vec<char>, sep: char) -> (r: Vec<Vec<char>>)
    ensures
        deep(r@) == split_on(w@, sep),
        r.len() >= 1,
{
    let mut parts: Vec<Vec<char>> = Vec::new();
    parts.push(Vec::new());
    let mut i: usize = 0;
    assert(deep(parts@) =~= seq![Seq::<char>::empty()]);
    assert(w@.take(0) =~= Seq::<char>::empty());
    while i < w.len()
        invariant
            i <= w.len(),
            deep(parts@) == split_on(w@.take(i as int), sep),
            parts.len() >= 1,
        decreases w.len() - i,
    {
        let c = w[i];
        assert(w@.take(i + 1).drop_last() == w@.take(i as int));
        assert(w@.take(i + 1).last() == c);
        let ghost old_parts = deep(parts@);
        if c == sep {
            parts.push(Vec::new());
            assert(deep(parts@) =~= old_parts.push(Seq::<char>::empty()));
        } else {
            let mut last = parts.pop().unwrap();
            last.push(c);
            parts.push(last);
            assert(deep(parts@) =~= old_parts.drop_last().push(old_parts.last().push(c)));
        }
        i = i + 1;
    }
    assert(w@.take(i as int) == w@);
    parts
}

/// The lines of a text: the pieces between line feeds, without the empty
/// piece after a final line feed.
pub open spec fn lines(s: Seq<char>) -> Seq<Seq<char>> {
    let parts = split_on(s, '\n');
    if parts.last().len() == 0 {
        parts.drop_last()
    } else {
        parts
    }
}

/// ASCII whitespace, as a word list separates its fields.
pub open spec fn is_ascii_space(c: char) -> bool {
    c == ' ' || c == '\t' || c == '\n' || c == '\u{c}' || c == '\r'
}

/// The maximal runs of characters other than ASCII whitespace.
pub open spec fn ascii_words(s: Seq<char>) -> Seq<Seq<char>>
    decreases s.len(),
{
    if s.len() == 0 {
        Seq::<Seq<char>>::empty()
    } else {
        let t = ascii_words(s.drop_last());
        let c = s.last();
        if is_ascii_space(c) {
            t
        } else if s.len() >= 2 && !is_ascii_space(s[s.len() - 2]) {
            t.drop_last().push(t.last().push(c))
        } else {
            t.push(seq![c])
        }
    }
}

fn is_ascii_space_exec(c: char) -> (r: bool)
    ensures
        r == is_ascii_space(c),
{
    c == ' ' || c == '\t' || c == '\n' || c == '\u{c}' || c == '\r'
}

fn ascii_words_exec(s: &Vec<char>) -> (r: Vec<Vec<char>>)
    ensures
        deep(r@) == ascii_words(s@),
        forall|j: int| 0 <= j < r.len() ==> r@[j].len() > 0,
{
    let mut toks: Vec<Vec<char>> = Vec::new();
    let mut i: usize = 0;
    assert(deep(toks@) =~= Seq::<Seq<char>>::empty());
    assert(s@.take(0) =~= Seq::<char>::empty());
    while i < s.len()
        invariant
            i <= s.len(),
            deep(toks@) == ascii_words(s@.take(i as int)),
            i > 0 && !is_ascii_space(s@[i - 1]) ==> toks.len() > 0,
            forall|j: int| 0 <= j < toks.len() ==> toks@[j].len() > 0,
        decreases s.len() - i,
    {
        let c = s[i];
        let ghost pre = s@.take(i + 1);
        assert(pre.drop_last() == s@.take(i as int));
        assert(pre.last() == c);
        let ghost old_toks = deep(toks@);
        if is_ascii_space_exec(c) {
        } else if i > 0 && !is_ascii_space_exec(s[i - 1]) {
            assert(pre[pre.len() - 2] == s@[i - 1]);
            let mut last = toks.pop().unwrap();
            last.push(c);
            toks.push(last);
            assert(deep(toks@) =~= old_toks.drop_last().push(old_toks.last().push(c)));
        } else {
            if i > 0 {
                assert(pre[pre.len() - 2] == s@[i - 1]);
            }
            let mut t: Vec<char> = Vec::new();
            t.push(c);
            toks.push(t);
            assert(deep(toks@) =~= old_toks.push(seq![c]));
        }
        i = i + 1;
    }
    assert(s@.take(i as int) == s@);
    toks
}

/// What one line of a word list gives: nothing where it is malformed (no
/// word, or a word without a transcription); else a skipped placeholder or
/// the word, less its one trailing mark, with its transcription.
pub open spec fn line_entry(line: Seq<char>) -> Option<Option<(Seq<char>, Seq<char>)>> {
    let toks = ascii_words(line);
    if toks.len() == 0 {
        None
    } else if toks[0] == seq!['X', 'X', 'X', 'X', 'X'] {
        Some(None)
    } else if toks.len() < 2 {
        None
    } else {
        Some(Some((toks[0].drop_last(), toks[1])))
    }
}

/// The entries of the first `n` lines, or nothing if one of them is malformed.
pub open spec fn entries_of(ls: Seq<Seq<char>>, n: nat) -> Option<Seq<(Seq<char>, Seq<char>)>>
    decreases n,
{
    if n == 0 {
        Some(Seq::<(Seq<char>, Seq<char>)>::empty())
    } else {
        match (entries_of(ls, (n - 1) as nat), line_entry(ls[n - 1])) {
            (Some(es), Some(Some(e))) => Some(es.push(e)),
            (Some(es), Some(None)) => Some(es),
            _ => None,
        }
    }
}

/// The entries of a word list.
pub open spec fn word_list(text: Seq<char>) -> Option<Seq<(Seq<char>, Seq<char>)>> {
    entries_of(lines(text), lines(text).len())
}

/// The views of a list of entries.
pub open spec fn entry_views(v: Seq<(String, String)>) -> Seq<(Seq<char>, Seq<char>)> {
    Seq::new(v.len(), |i: int| (v[i].0@, v[i].1@))
}

fn is_placeholder(w: &Vec<char>) -> (r: bool)
    ensures
        r == (w@ == seq!['X', 'X', 'X', 'X', 'X']),
{
    if w.len() != 5 {
        return false;
    }
    let r = w[0] == 'X' && w[1] == 'X' && w[2] == 'X' && w[3] == 'X' && w[4] == 'X';
    if r {
        assert(w@ =~= seq!['X', 'X', 'X', 'X', 'X']);
    } else {
        assert(w@ != seq!['X', 'X', 'X', 'X', 'X']) by {
            if w@ == seq!['X', 'X', 'X', 'X', 'X'] {
                assert(w@[0] == 'X' && w@[1] == 'X' && w@[2] == 'X' && w@[3] == 'X' && w@[4] == 'X');
            }
        }
    }
    r
}

/// Reads a word list: one entry per line, the word first with one trailing
/// mark after it, then the transcription; lines whose word is `XXXXX` are
/// skipped. Nothing where a line has no word or no transcription.
pub fn parse_word_list(text: &str) -> (r: Option<Vec<(String, String)>>)
    ensures
        r matches Some(v) ==> word_list(text@) == Some(entry_views(v@)),
        r is None <==> word_list(text@) is None,
{
    let chars = chars_of(text);
    let mut ls = split_on_exec(&chars, '\n');
    let ghost parts = deep(ls@);
    if ls[ls.len() - 1].len() == 0 {
        ls.pop();
        assert(deep(ls@) =~= parts.drop_last());
    }
    let ghost dls = deep(ls@);
    assert(dls == lines(text@));
    let mut out: Vec<(String, String)> = Vec::new();
    let mut i: usize = 0;
    assert(entry_views(out@) =~= Seq::<(Seq<char>, Seq<char>)>::empty());
    while i < ls.len()
        invariant
            i <= ls.len(),
            dls == deep(ls@),
            dls == lines(text@),
            entries_of(dls, i as nat) == Some(entry_views(out@)),
        decreases ls.len() - i,
    {
        let line = &ls[i];
        assert(line@ == dls[i as int]);
        let toks = ascii_words_exec(line);
        let ghost dt = deep(toks@);
        if toks.len() == 0 {
            assert(entries_of(dls, (i + 1) as nat) is None);
            proof {
                lemma_none_stays(dls, (i + 1) as nat, dls.len());
            }
            return None;
        }
        assert(toks[0]@ == dt[0]);
        if is_placeholder(&toks[0]) {
            i = i + 1;
        } else if toks.len() < 2 {
            assert(entries_of(dls, (i + 1) as nat) is None);
            proof {
                lemma_none_stays(dls, (i + 1) as nat, dls.len());
            }
            return None;
        } else {
            assert(toks[1]@ == dt[1]);
            let mut word = toks[0].clone();
            word.pop();
            assert(word@ == dt[0].drop_last());
            let ghost before = entry_views(out@);
            out.push((string_of(&word), string_of(&toks[1])));
            assert(entry_views(out@) =~= before.push((dt[0].drop_last(), dt[1])));
            i = i + 1;
        }
    }
    Some(out)
}

proof fn lemma_none_stays(ls: Seq<Seq<char>>, i: nat, n: nat)
    requires
        i <= n,
        entries_of(ls, i) is None,
    ensures
        entries_of(ls, n) is None,
    decreases n - i,
{
    if i < n {
        lemma_none_stays(ls, i + 1, n);
    }
}

} // verus!
