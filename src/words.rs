use crate::phonetic::{remove_stress_markers, strip_stress};
use vstd::prelude::*;

verus! {

/// The three reduced vowels.
pub open spec fn is_schwa(c: char) -> bool {
    c == 'ə' || c == 'ʌ' || c == 'ɜ'
}

/// `s` ends with `suffix`.
pub open spec fn ends_with(s: Seq<char>, suffix: Seq<char>) -> bool {
    s.len() >= suffix.len() && s.skip(s.len() - suffix.len()) == suffix
}

/// A word-final reduced vowel becomes the "ah" vowel.
pub open spec fn final_schwa(s: Seq<char>) -> Seq<char> {
    if s.len() > 0 && is_schwa(s.last()) {
        s.drop_last().push('a')
    } else {
        s
    }
}

/// A final /i/ becomes the short-front-vowel marker.
pub open spec fn promote(s: Seq<char>) -> Seq<char> {
    if s.len() > 0 && s.last() == 'i' {
        s.drop_last().push('I')
    } else {
        s
    }
}

/// A final reduced vowel, or the "ah" vowel, is dropped.
pub open spec fn elide(s: Seq<char>) -> Seq<char> {
    if s.len() > 0 && (is_schwa(s.last()) || s.last() == 'a') {
        s.drop_last()
    } else {
        s
    }
}

/// The edit that the surface word's apostrophe suffix makes to its transcription.
pub open spec fn suffix_edit(word: Seq<char>, s: Seq<char>) -> Seq<char> {
    if s.len() == 0 {
        s
    } else if ends_with(word, seq!['\'', 't']) {
        s.drop_last() + seq!['\'', s.last()]
    } else if ends_with(word, seq!['\'', 'd']) {
        let r = s.drop_last();
        if r.len() > 0 && (r.last() == 'ʌ' || r.last() == 'ɪ') {
            r.drop_last() + seq!['\'', 'd']
        } else {
            r + seq!['\'', s.last()]
        }
    } else if ends_with(word, seq!['\'', 's']) {
        promote(s.drop_last()) + seq!['\'', s.last()]
    } else if ends_with(word, seq!['\'', 'l', 'l']) {
        if s.last() == 'l' {
            promote(elide(s.drop_last())) + seq!['\'', 'l']
        } else {
            s + seq!['\'', 'l']
        }
    } else if ends_with(word, seq!['\'']) {
        s.push('\'')
    } else if ends_with(word, seq!['\'', 'r', 'e']) {
        s.drop_last() + seq!['\'', 'ɹ']
    } else if ends_with(word, seq!['\'', 'v', 'e']) {
        promote(elide(s.drop_last())) + seq!['\'', s.last()]
    } else {
        s
    }
}

/// The letter "x", of either case.
pub open spec fn is_x(c: char) -> bool {
    c == 'x' || c == 'X'
}

/// The number of letters "x" in a word, of either case.
pub open spec fn count_x(word: Seq<char>) -> nat
    decreases word.len(),
{
    if word.len() == 0 {
        0
    } else {
        count_x(word.drop_last()) + if is_x(word.last()) { 1nat } else { 0nat }
    }
}

/// The first /k/ followed by /s/ at or after position `i`.
pub open spec fn find_ks(s: Seq<char>, i: int) -> Option<int>
    decreases s.len() - i,
{
    if i < 0 || i + 1 >= s.len() {
        None
    } else if s[i] == 'k' && s[i + 1] == 's' {
        Some(i)
    } else {
        find_ks(s, i + 1)
    }
}

proof fn lemma_find_ks(s: Seq<char>, i: int)
    ensures
        find_ks(s, i) matches Some(p) ==> i <= p && p + 1 < s.len() && s[p] == 'k' && s[p + 1] == 's',
    decreases s.len() - i,
{
    if !(i < 0 || i + 1 >= s.len()) && !(s[i] == 'k' && s[i + 1] == 's') {
        lemma_find_ks(s, i + 1);
    }
}

/// One letter "x": the next /k/+/s/ pair from the search start collapses to
/// the x marker, and the search goes on one past it.
pub open spec fn x_step(state: (Seq<char>, int)) -> (Seq<char>, int) {
    match find_ks(state.0, state.1) {
        Some(p) => (state.0.take(p).push('ˣ') + state.0.skip(p + 2), p + 1),
        None => state,
    }
}

pub open spec fn x_steps(s: Seq<char>, n: nat) -> (Seq<char>, int)
    decreases n,
{
    if n == 0 {
        (s, 0)
    } else {
        x_step(x_steps(s, (n - 1) as nat))
    }
}

/// A transcription with one /k/+/s/ pair marked for each letter "x" of the word.
pub open spec fn marked_x(word: Seq<char>, ipa: Seq<char>) -> Seq<char> {
    x_steps(ipa, count_x(word)).0
}

/// The unit that one dictionary word becomes: its literal text for a
/// one-letter word other than "a" and "i", else its edited transcription.
pub open spec fn word_unit(word: Seq<char>, ipa: Seq<char>) -> (Seq<char>, bool) {
    if word.len() == 1 && word[0] != 'a' && word[0] != 'i' {
        (word, false)
    } else {
        (marked_x(word, suffix_edit(word, promote(final_schwa(strip_stress(ipa))))), true)
    }
}

fn ends_with_exec(s: &Vec<char>, suffix: &[char]) -> (r: bool)
    ensures
        r == ends_with(s@, suffix@),
{
    if s.len() < suffix.len() {
        return false;
    }
    let off = s.len() - suffix.len();
    let mut i: usize = 0;
    while i < suffix.len()
        invariant
            off == s.len() - suffix.len(),
            i <= suffix.len(),
            forall|j: int| 0 <= j < i ==> s@[off + j] == suffix@[j],
        decreases suffix.len() - i,
    {
        if s[off + i] != suffix[i] {
            assert(s@.skip(off as int)[i as int] != suffix@[i as int]);
            return false;
        }
        i = i + 1;
    }
    assert(s@.skip(off as int) =~= suffix@);
    true
}

fn ends_with_apostrophe(word: &Vec<char>) -> (r: bool)
    ensures
        r == ends_with(word@, seq!['\'']),
{
    let n = word.len();
    if n == 0 {
        return false;
    }
    let c = word[n - 1];
    assert(word@.skip(n - 1) =~= seq![c]);
    if c == '\'' {
        assert(seq![c] =~= seq!['\'']);
        true
    } else {
        assert(seq![c][0] != seq!['\''][0]);
        false
    }
}

fn drop_last(s: &mut Vec<char>)
    requires
        old(s).len() > 0,
    ensures
        final(s)@ == old(s)@.drop_last(),
{
    s.pop();
}

fn promote_exec(s: &mut Vec<char>)
    ensures
        final(s)@ == promote(old(s)@),
{
    let n = s.len();
    if n > 0 && s[n - 1] == 'i' {
        s.set(n - 1, 'I');
        assert(s@ =~= old(s)@.drop_last().push('I'));
    }
}

fn elide_exec(s: &mut Vec<char>)
    ensures
        final(s)@ == elide(old(s)@),
{
    let n = s.len();
    if n > 0 {
        let c = s[n - 1];
        if c == 'ə' || c == 'ʌ' || c == 'ɜ' || c == 'a' {
            s.pop();
        }
    }
}

fn push2(s: &mut Vec<char>, a: char, b: char)
    ensures
        final(s)@ == old(s)@ + seq![a, b],
{
    s.push(a);
    s.push(b);
    assert(s@ =~= old(s)@ + seq![a, b]);
}

fn suffix_edit_exec(word: &Vec<char>, s: &mut Vec<char>)
    ensures
        final(s)@ == suffix_edit(word@, old(s)@),
{
    let n = s.len();
    if n == 0 {
        return;
    }
    let c = s[n - 1];
    if ends_with_exec(word, &['\'', 't']) {
        drop_last(s);
        push2(s, '\'', c);
    } else if ends_with_exec(word, &['\'', 'd']) {
        drop_last(s);
        let m = s.len();
        if m > 0 && (s[m - 1] == 'ʌ' || s[m - 1] == 'ɪ') {
            drop_last(s);
            push2(s, '\'', 'd');
        } else {
            push2(s, '\'', c);
        }
    } else if ends_with_exec(word, &['\'', 's']) {
        drop_last(s);
        promote_exec(s);
        push2(s, '\'', c);
    } else if ends_with_exec(word, &['\'', 'l', 'l']) {
        if c == 'l' {
            drop_last(s);
            elide_exec(s);
            promote_exec(s);
        }
        push2(s, '\'', 'l');
    } else if ends_with_apostrophe(word) {
        s.push('\'');
    } else if ends_with_exec(word, &['\'', 'r', 'e']) {
        drop_last(s);
        push2(s, '\'', 'ɹ');
    } else if ends_with_exec(word, &['\'', 'v', 'e']) {
        drop_last(s);
        elide_exec(s);
        promote_exec(s);
        push2(s, '\'', c);
    }
}

/// Marks, for each letter "x" of the word from left to right, the next
/// /k/+/s/ pair of the transcription after the previous mark.
pub fn mark_letter_x(word: &Vec<char>, ipa_input: Vec<char>) -> (r: Vec<char>)
    ensures
        r@ == marked_x(word@, ipa_input@),
{
    let mut chars = ipa_input;
    let mut search_start: usize = 0;
    let mut t: usize = 0;
    while t < word.len()
        invariant
            t <= word.len(),
            (chars@, search_start as int) == x_steps(ipa_input@, count_x(word@.take(t as int))),
            search_start <= chars.len(),
        decreases word.len() - t,
    {
        let ghost before = (chars@, search_start as int);
        assert(word@.take(t + 1).drop_last() == word@.take(t as int));
        let ch = word[t];
        if ch == 'x' || ch == 'X' {
            let mut idx = search_start;
            let mut found: Option<usize> = None;
            while found.is_none() && idx < chars.len() && idx + 1 < chars.len()
                invariant
                    search_start <= idx <= chars.len(),
                    found matches Some(p) ==> find_ks(chars@, search_start as int) == Some(p as int),
                    found is None ==> find_ks(chars@, search_start as int) == find_ks(chars@, idx as int),
                decreases chars.len() - idx,
            {
                if chars[idx] == 'k' && chars[idx + 1] == 's' {
                    found = Some(idx);
                }
                idx = idx + 1;
            }
            assert(found matches Some(p) ==> find_ks(chars@, search_start as int) == Some(p as int));
            assert(found is None ==> find_ks(chars@, search_start as int) is None);
            proof {
                lemma_find_ks(chars@, search_start as int);
            }
            if let Some(pos) = found {
                let ghost s0 = chars@;
                chars.set(pos, 'ˣ');
                chars.remove(pos + 1);
                assert(chars@ =~= s0.take(pos as int).push('ˣ') + s0.skip(pos + 2));
                search_start = pos + 1;
            }
        }
        t = t + 1;
    }
    assert(word@.take(t as int) == word@);
    chars
}

/// The unit that one dictionary word becomes: its literal text for a
/// one-letter word other than "a" and "i"; else its transcription without
/// stress, with its final vowel, apostrophe suffix and letters "x" applied.
pub fn handle_ipa_word(ipa_word: &Vec<char>, word: &Vec<char>) -> (r: (Vec<char>, bool))
    ensures
        (r.0@, r.1) == word_unit(word@, ipa_word@),
{
    if word.len() == 1 && word[0] != 'a' && word[0] != 'i' {
        return (word.clone(), false);
    }
    let mut ipa = remove_stress_markers(ipa_word);
    let n = ipa.len();
    if n > 0 {
        let c = ipa[n - 1];
        if c == 'ə' || c == 'ʌ' || c == 'ɜ' {
            ipa.set(n - 1, 'a');
            assert(ipa@ =~= final_schwa(strip_stress(ipa_word@)));
        }
    }
    promote_exec(&mut ipa);
    suffix_edit_exec(word, &mut ipa);
    (mark_letter_x(word, ipa), true)
}

} // verus!
