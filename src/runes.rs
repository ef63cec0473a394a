use vstd::prelude::*;

verus! {

/// The single unit that pass one folds the adjacent symbols `a`, `b` into,
/// if a digraph or diphthong rule matches; rules are tried in order.
pub open spec fn pair_unit(a: char, b: char) -> Option<Seq<char>> {
    if a == 'e' && (b == 'ɪ' || b == 'j') {
        Some(seq!['ᛠ'])
    } else if a == 'a' && (b == 'ɪ' || b == 'j') {
        Some(seq!['ᛡ'])
    } else if a == 'a' && (b == 'ʊ' || b == 'w') {
        Some(seq!['ᚪ', 'ᚹ'])
    } else if a == 'ɑ' && b == 'ɹ' {
        Some(seq!['ᚪ', 'ᚱ'])
    } else if a == 'ɛ' && b == 'ɹ' {
        Some(seq!['ᛠ', 'ᚱ'])
    } else if (a == 'ɪ' || a == 'i') && b == 'ɹ' {
        Some(seq!['ᛁ', 'ᛁ', 'ᚱ'])
    } else if a == 'o' && (b == 'ʊ' || b == 'w') {
        Some(seq!['ᚩ'])
    } else if a == 'ɔ' && (b == 'ɪ' || b == 'j') {
        Some(seq!['ᚩ', 'ᛁ'])
    } else if a == 'ɔ' && b == 'ɹ' {
        Some(seq!['ᚩ', 'ᚱ'])
    } else if a == 't' && b == 'ʃ' {
        Some(seq!['ᚳ', 'ᚻ'])
    } else if a == 'd' && b == 'ʒ' {
        Some(seq!['ᚷ', 'ᚻ'])
    } else if a == 'ŋ' && b == 'g' {
        Some(seq!['ᛝ'])
    } else if a == 's' && b == 'S' {
        Some(seq!['ᛋ', 'ᛋ', 'ᛋ'])
    } else {
        None
    }
}

/// Pass one: a left-to-right scan that folds each matching pair into its unit
/// and consumes both symbols, and otherwise emits one symbol and moves on.
pub open spec fn fold_pairs(s: Seq<char>) -> Seq<char>
    decreases s.len(),
{
    if s.len() < 2 {
        s
    } else {
        match pair_unit(s[0], s[1]) {
            Some(u) => u + fold_pairs(s.skip(2)),
            None => seq![s[0]] + fold_pairs(s.skip(1)),
        }
    }
}

/// The glyph that pass two writes for one symbol; a symbol outside the table
/// stands for itself.
pub open spec fn glyph(c: char) -> Seq<char> {
    match c {
        'X' => seq![' '],
        ' ' => seq!['᛫'],
        'a' => seq!['ᚪ'],
        'ɑ' | 'ɔ' => seq!['ᛟ'],
        'æ' => seq!['ᚫ'],
        'ɛ' => seq!['ᛖ'],
        'ɪ' | 'I' => seq!['ᛁ'],
        'i' => seq!['ᛁ', 'ᛁ'],
        'ʊ' | 'u' => seq!['ᚣ'],
        'ə' | 'ʌ' | 'ɜ' => seq!['ᚢ'],
        'p' | 'P' => seq!['ᛈ'],
        'b' => seq!['ᛒ'],
        't' | 'T' => seq!['ᛏ'],
        'd' | 'D' => seq!['ᛞ'],
        'k' | 'K' => seq!['ᚳ'],
        'g' => seq!['ᚷ'],
        'f' | 'F' => seq!['ᚠ', 'ᚠ'],
        'v' => seq!['ᚠ'],
        'θ' | 'ð' => seq!['ᚦ'],
        's' => seq!['ᛋ', 'ᛋ'],
        'z' => seq!['ᛋ'],
        'ʃ' | 'ʒ' => seq!['ᛋ', 'ᚻ'],
        'h' => seq!['ᚻ'],
        'm' | 'M' => seq!['ᛗ'],
        'n' | 'N' => seq!['ᚾ'],
        'ŋ' => seq!['ᛝ'],
        'j' => seq!['ᛄ'],
        'w' => seq!['ᚹ'],
        'ɹ' | 'R' => seq!['ᚱ'],
        'l' | 'L' => seq!['ᛚ'],
        'ˣ' => seq!['ᛉ'],
        'ʤ' => seq!['ᚷ', 'ᚻ'],
        'ʧ' => seq!['ᚳ', 'ᚻ'],
        'ɚ' => seq!['ᚢ', 'ᚱ'],
        _ => seq![c],
    }
}

/// The glyphs of every symbol of `s`, concatenated.
pub open spec fn glyphs(s: Seq<char>) -> Seq<char>
    decreases s.len(),
{
    if s.len() == 0 {
        s
    } else {
        glyphs(s.drop_last()) + glyph(s.last())
    }
}

/// Every non-overlapping occurrence of `a` followed by `b`, found left to
/// right, replaced by `r`.
pub open spec fn ligate(s: Seq<char>, a: char, b: char, r: char) -> Seq<char>
    decreases s.len(),
{
    if s.len() < 2 {
        s
    } else if s[0] == a && s[1] == b {
        seq![r] + ligate(s.skip(2), a, b, r)
    } else {
        seq![s[0]] + ligate(s.skip(1), a, b, r)
    }
}

/// Pass two: glyph substitution, then the two ligatures.
pub open spec fn runic(s: Seq<char>) -> Seq<char> {
    ligate(ligate(glyphs(s), 'ᛋ', 'ᛏ', 'ᛥ'), 'ᚳ', 'ᚹ', 'ᛢ')
}

/// Where `a` does not occur, a ligature changes nothing.
pub proof fn lemma_ligate_absent(s: Seq<char>, a: char, b: char, r: char)
    requires
        forall|i: int| 0 <= i < s.len() ==> s[i] != a,
    ensures
        ligate(s, a, b, r) == s,
    decreases s.len(),
{
    if s.len() >= 2 {
        lemma_ligate_absent(s.skip(1), a, b, r);
        assert(seq![s[0]] + s.skip(1) =~= s);
    }
}

/// Where every symbol has a one-character glyph, pass two maps symbol by symbol.
pub proof fn lemma_glyphs_single(s: Seq<char>)
    requires
        forall|i: int| 0 <= i < s.len() ==> #[trigger] glyph(s[i]).len() == 1,
    ensures
        glyphs(s) == Seq::new(s.len(), |i: int| glyph(s[i])[0]),
    decreases s.len(),
{
    if s.len() > 0 {
        let v = s.drop_last();
        assert forall|i: int| 0 <= i < v.len() implies #[trigger] glyph(v[i]).len() == 1 by {
            assert(v[i] == s[i]);
        }
        lemma_glyphs_single(v);
        assert(glyph(s[s.len() - 1]).len() == 1);
        assert(glyphs(s) =~= Seq::new(s.len(), |i: int| glyph(s[i])[0]));
    } else {
        assert(glyphs(s) =~= Seq::new(s.len(), |i: int| glyph(s[i])[0]));
    }
}

fn push_all(out: &mut Vec<char>, u: &[char])
    ensures
        final(out)@ == old(out)@ + u@,
{
    let mut i: usize = 0;
    while i < u.len()
        invariant
            i <= u.len(),
            out@ == old(out)@ + u@.take(i as int),
        decreases u.len() - i,
    {
        out.push(u[i]);
        i = i + 1;
        assert(u@.take(i as int) == u@.take(i - 1).push(u@[i - 1]));
    }
    assert(u@.take(i as int) == u@);
}

fn pair_unit_exec(a: char, b: char) -> (r: Option<&'static [char]>)
    ensures
        r matches Some(u) ==> pair_unit(a, b) == Some(u@),
        r is None ==> pair_unit(a, b) is None,
{
    if a == 'e' && (b == 'ɪ' || b == 'j') {
        Some(&['ᛠ'])
    } else if a == 'a' && (b == 'ɪ' || b == 'j') {
        Some(&['ᛡ'])
    } else if a == 'a' && (b == 'ʊ' || b == 'w') {
        Some(&['ᚪ', 'ᚹ'])
    } else if a == 'ɑ' && b == 'ɹ' {
        Some(&['ᚪ', 'ᚱ'])
    } else if a == 'ɛ' && b == 'ɹ' {
        Some(&['ᛠ', 'ᚱ'])
    } else if (a == 'ɪ' || a == 'i') && b == 'ɹ' {
        Some(&['ᛁ', 'ᛁ', 'ᚱ'])
    } else if a == 'o' && (b == 'ʊ' || b == 'w') {
        Some(&['ᚩ'])
    } else if a == 'ɔ' && (b == 'ɪ' || b == 'j') {
        Some(&['ᚩ', 'ᛁ'])
    } else if a == 'ɔ' && b == 'ɹ' {
        Some(&['ᚩ', 'ᚱ'])
    } else if a == 't' && b == 'ʃ' {
        Some(&['ᚳ', 'ᚻ'])
    } else if a == 'd' && b == 'ʒ' {
        Some(&['ᚷ', 'ᚻ'])
    } else if a == 'ŋ' && b == 'g' {
        Some(&['ᛝ'])
    } else if a == 's' && b == 'S' {
        Some(&['ᛋ', 'ᛋ', 'ᛋ'])
    } else {
        None
    }
}


fn glyph_exec(c: char) -> (r: Option<&'static [char]>)
    ensures
        r matches Some(u) ==> glyph(c) == u@,
        r is None ==> glyph(c) == seq![c],
{
    match c {
        'X' => Some(&[' ']),
        ' ' => Some(&['᛫']),
        'a' => Some(&['ᚪ']),
        'ɑ' | 'ɔ' => Some(&['ᛟ']),
        'æ' => Some(&['ᚫ']),
        'ɛ' => Some(&['ᛖ']),
        'ɪ' | 'I' => Some(&['ᛁ']),
        'i' => Some(&['ᛁ', 'ᛁ']),
        'ʊ' | 'u' => Some(&['ᚣ']),
        'ə' | 'ʌ' | 'ɜ' => Some(&['ᚢ']),
        'p' | 'P' => Some(&['ᛈ']),
        'b' => Some(&['ᛒ']),
        't' | 'T' => Some(&['ᛏ']),
        'd' | 'D' => Some(&['ᛞ']),
        'k' | 'K' => Some(&['ᚳ']),
        'g' => Some(&['ᚷ']),
        'f' | 'F' => Some(&['ᚠ', 'ᚠ']),
        'v' => Some(&['ᚠ']),
        'θ' | 'ð' => Some(&['ᚦ']),
        's' => Some(&['ᛋ', 'ᛋ']),
        'z' => Some(&['ᛋ']),
        'ʃ' | 'ʒ' => Some(&['ᛋ', 'ᚻ']),
        'h' => Some(&['ᚻ']),
        'm' | 'M' => Some(&['ᛗ']),
        'n' | 'N' => Some(&['ᚾ']),
        'ŋ' => Some(&['ᛝ']),
        'j' => Some(&['ᛄ']),
        'w' => Some(&['ᚹ']),
        'ɹ' | 'R' => Some(&['ᚱ']),
        'l' | 'L' => Some(&['ᛚ']),
        'ˣ' => Some(&['ᛉ']),
        'ʤ' => Some(&['ᚷ', 'ᚻ']),
        'ʧ' => Some(&['ᚳ', 'ᚻ']),
        'ɚ' => Some(&['ᚢ', 'ᚱ']),
        _ => None,
    }
}

/// Pass one of the rune encoder: folds digraphs and diphthongs.
pub fn translate_to_runic_2(s: &Vec<char>) -> (r: Vec<char>)
    ensures
        r@ == fold_pairs(s@),
{
    let mut out: Vec<char> = Vec::new();
    let n = s.len();
    let mut i: usize = 0;
    assert(s@.skip(0) == s@);
    assert(out@ + s@ == s@);
    while i < n
        invariant
            n == s.len(),
            i <= n,
            out@ + fold_pairs(s@.skip(i as int)) == fold_pairs(s@),
        decreases n - i,
    {
        let ghost rest = s@.skip(i as int);
        if i + 1 < n {
            assert(rest[0] == s@[i as int] && rest[1] == s@[i + 1]);
            match pair_unit_exec(s[i], s[i + 1]) {
                Some(u) => {
                    assert(rest.skip(2) == s@.skip(i + 2));
                    push_all(&mut out, u);
                    i = i + 2;
                },
                None => {
                    assert(rest.skip(1) == s@.skip(i + 1));
                    out.push(s[i]);
                    i = i + 1;
                },
            }
        } else {
            assert(rest == seq![s@[i as int]]);
            assert(s@.skip(i + 1).len() == 0);
            out.push(s[i]);
            i = i + 1;
        }
    }
    assert(s@.skip(i as int).len() == 0);
    out
}

fn glyphs_exec(s: &Vec<char>) -> (r: Vec<char>)
    ensures
        r@ == glyphs(s@),
{
    let mut out: Vec<char> = Vec::new();
    let mut i: usize = 0;
    while i < s.len()
        invariant
            i <= s.len(),
            out@ == glyphs(s@.take(i as int)),
        decreases s.len() - i,
    {
        let c = s[i];
        match glyph_exec(c) {
            Some(u) => push_all(&mut out, u),
            None => out.push(c),
        }
        i = i + 1;
        assert(s@.take(i as int).drop_last() == s@.take(i - 1));
    }
    assert(s@.take(i as int) == s@);
    out
}

fn ligate_exec(s: &Vec<char>, a: char, b: char, r: char) -> (out: Vec<char>)
    ensures
        out@ == ligate(s@, a, b, r),
{
    let mut out: Vec<char> = Vec::new();
    let n = s.len();
    let mut i: usize = 0;
    assert(s@.skip(0) == s@);
    assert(out@ + s@ == s@);
    while i < n
        invariant
            n == s.len(),
            i <= n,
            out@ + ligate(s@.skip(i as int), a, b, r) == ligate(s@, a, b, r),
        decreases n - i,
    {
        let ghost rest = s@.skip(i as int);
        if i + 1 < n && s[i] == a && s[i + 1] == b {
            assert(rest.skip(2) == s@.skip(i + 2));
            out.push(r);
            i = i + 2;
        } else {
            if i + 1 < n {
                assert(rest.skip(1) == s@.skip(i + 1));
            } else {
                assert(rest == seq![s@[i as int]]);
                assert(s@.skip(i + 1).len() == 0);
            }
            out.push(s[i]);
            i = i + 1;
        }
    }
    assert(s@.skip(i as int).len() == 0);
    out
}

/// Pass two of the rune encoder: one glyph per symbol, then the ligatures.
pub fn translate_to_runic(s: &Vec<char>) -> (r: Vec<char>)
    ensures
        r@ == runic(s@),
{
    let g = glyphs_exec(s);
    let l = ligate_exec(&g, 'ᛋ', 'ᛏ', 'ᛥ');
    ligate_exec(&l, 'ᚳ', 'ᚹ', 'ᛢ')
}

} // verus!
