use crate::positions::{positions, positions_at, positions_len, Ambiguities};
use crate::text::{chars_of, string_of};
use vstd::hash_map::StringHashMap;
use vstd::prelude::*;

verus! {

/// The table from phonetic shape to the positions of that shape where both
/// voicings were seen.
pub type AmbiguityMap = StringHashMap<Ambiguities>;

/// A phonetic shape: a transcription with its voicing classes collapsed.
pub type CollapsedKey = String;

/// The primary and secondary stress markers.
pub open spec fn is_stress(c: char) -> bool {
    c == 'ˈ' || c == 'ˌ'
}

/// A transcription without its stress markers.
pub open spec fn strip_stress(s: Seq<char>) -> Seq<char>
    decreases s.len(),
{
    if s.len() == 0 {
        s
    } else if is_stress(s.last()) {
        strip_stress(s.drop_last())
    } else {
        strip_stress(s.drop_last()).push(s.last())
    }
}

/// The class of one symbol: /f/ and /v/ fall together as `f`; /s/, its
/// resolved marker and /z/ fall together as `s`; every other symbol is itself.
pub open spec fn shape_char(c: char) -> char {
    if c == 'f' || c == 'v' {
        'f'
    } else if c == 's' || c == 'S' || c == 'z' {
        's'
    } else {
        c
    }
}

/// The phonetic shape of a transcription, symbol by symbol.
pub open spec fn shape(s: Seq<char>) -> Seq<char> {
    Seq::new(s.len(), |i: int| shape_char(s[i]))
}

/// Resolved markers back to plain symbols.
pub open spec fn plain_char(c: char) -> char {
    match c {
        'F' => 'f',
        'V' => 'v',
        'S' => 's',
        'Z' => 'z',
        _ => c,
    }
}

/// A transcription with its resolved markers made plain.
pub open spec fn plain(s: Seq<char>) -> Seq<char> {
    Seq::new(s.len(), |i: int| plain_char(s[i]))
}

/// Whether the table lists position `p` for shape `k`.
pub open spec fn flagged(table: Map<Seq<char>, Ambiguities>, k: Seq<char>, p: int) -> bool {
    table.contains_key(k) && exists|j: int|
        0 <= j < positions(table[k]).len() && positions(table[k])[j] as int == p
}

/// The voicing of one plain symbol: /f/ and /s/ stay unvoiced where the
/// position is flagged and turn voiced elsewhere.
pub open spec fn resolve(c: char, ambiguous: bool) -> char {
    if c == 'f' {
        if ambiguous { 'f' } else { 'v' }
    } else if c == 's' {
        if ambiguous { 's' } else { 'z' }
    } else {
        c
    }
}

/// A transcription with every /f/-/v/ and /s/-/z/ sound resolved against the table.
pub open spec fn disambiguated(ipa: Seq<char>, table: Map<Seq<char>, Ambiguities>) -> Seq<char> {
    let n = plain(strip_stress(ipa));
    Seq::new(n.len(), |p: int| resolve(n[p], flagged(table, shape(n), p)))
}

spec fn mark(c: char, ambiguous: bool) -> char {
    if ambiguous && c == 'f' {
        'F'
    } else if ambiguous && c == 's' {
        'S'
    } else {
        c
    }
}

spec fn marked_upto(n: Seq<char>, pos: Seq<u16>, j: int, c: int) -> char {
    mark(n[c], exists|jj: int| 0 <= jj < j && pos[jj] as int == c)
}

/// The /f/-/v/ voicing class.
pub open spec fn is_fv(c: char) -> bool {
    c == 'f' || c == 'v'
}

/// The /s/-/z/ voicing class, with the resolved /s/ marker.
pub open spec fn is_sz(c: char) -> bool {
    c == 's' || c == 'S' || c == 'z'
}

/// Shape collapsing ignores voicing: two transcriptions that differ only in
/// the choice between /f/ and /v/, or among /s/, its marker and /z/, at any
/// positions have the same shape; and collapsing a shape again changes nothing.
pub proof fn lemma_shape_ignores_voicing(a: Seq<char>, b: Seq<char>)
    requires
        a.len() == b.len(),
        forall|i: int|
            0 <= i < a.len() ==> a[i] == b[i] || (is_fv(a[i]) && is_fv(b[i])) || (is_sz(a[i]) && is_sz(
                b[i],
            )),
    ensures
        shape(a) == shape(b),
        shape(shape(a)) == shape(a),
{
    assert(shape(a) =~= shape(b));
    assert(shape(shape(a)) =~= shape(a));
}

/// A transcription without its stress markers.
pub fn remove_stress_markers(s: &Vec<char>) -> (r: Vec<char>)
    ensures
        r@ == strip_stress(s@),
{
    let mut out: Vec<char> = Vec::new();
    let mut i: usize = 0;
    while i < s.len()
        invariant
            i <= s.len(),
            out@ == strip_stress(s@.take(i as int)),
        decreases s.len() - i,
    {
        let c = s[i];
        if c != 'ˈ' && c != 'ˌ' {
            out.push(c);
        }
        i = i + 1;
        assert(s@.take(i as int).drop_last() == s@.take(i - 1));
    }
    assert(s@.take(i as int) == s@);
    out
}

pub(crate) fn collapse_key_chars(s: &Vec<char>) -> (r: Vec<char>)
    ensures
        r@ == shape(s@),
{
    let mut out: Vec<char> = Vec::new();
    let mut i: usize = 0;
    while i < s.len()
        invariant
            i <= s.len(),
            out@ == shape(s@.take(i as int)),
        decreases s.len() - i,
    {
        let c = s[i];
        let k = if c == 'f' || c == 'v' {
            'f'
        } else if c == 's' || c == 'S' || c == 'z' {
            's'
        } else {
            c
        };
        out.push(k);
        i = i + 1;
        assert(out@ == shape(s@.take(i as int)));
    }
    assert(s@.take(i as int) == s@);
    out
}

/// The phonetic shape of a transcription, as the table's key.
pub fn collapse_key(seq: &String) -> (r: CollapsedKey)
    ensures
        r@ == shape(seq@),
{
    let v = chars_of(seq.as_str());
    string_of(&collapse_key_chars(&v))
}

pub(crate) fn disambiguate_chars(ipa: &Vec<char>, ambiguities: &AmbiguityMap) -> (r: Vec<char>)
    ensures
        r@ == disambiguated(ipa@, ambiguities@),
{
    let stripped = remove_stress_markers(ipa);
    let mut chars: Vec<char> = Vec::new();
    let mut i: usize = 0;
    while i < stripped.len()
        invariant
            i <= stripped.len(),
            chars@ == plain(stripped@.take(i as int)),
        decreases stripped.len() - i,
    {
        let c = stripped[i];
        let p = match c {
            'F' => 'f',
            'V' => 'v',
            'S' => 's',
            'Z' => 'z',
            _ => c,
        };
        chars.push(p);
        i = i + 1;
        assert(chars@ == plain(stripped@.take(i as int)));
    }
    assert(stripped@.take(i as int) == stripped@);
    let ghost n = chars@;
    let ghost table = ambiguities@;
    let key = string_of(&collapse_key_chars(&chars));
    let len = chars.len();
    match ambiguities.get(key.as_str()) {
        Some(ambs) => {
            let count = positions_len(ambs);
            let mut j: usize = 0;
            while j < count
                invariant
                    count == positions(*ambs).len(),
                    j <= count,
                    table.contains_key(shape(n)),
                    *ambs == table[shape(n)],
                    chars.len() == len == n.len(),
                    forall|c: int| 0 <= c < len ==> n[c] != 'F' && n[c] != 'S',
                    forall|c: int|
                        0 <= c < len ==> #[trigger] chars@[c] == marked_upto(
                            n,
                            positions(*ambs),
                            j as int,
                            c,
                        ),
                decreases count - j,
            {
                let idx = positions_at(ambs, j) as usize;
                if idx < chars.len() {
                    if chars[idx] == 'f' {
                        chars.set(idx, 'F');
                    } else if chars[idx] == 's' {
                        chars.set(idx, 'S');
                    }
                }
                j = j + 1;
                assert forall|c: int| 0 <= c < len implies #[trigger] chars@[c] == marked_upto(
                    n,
                    positions(*ambs),
                    j as int,
                    c,
                ) by {
                    if c == idx && (n[c] == 'f' || n[c] == 's') {
                        assert(positions(*ambs)[j - 1] as int == c);
                    }
                    if (exists|jj: int| 0 <= jj < j && positions(*ambs)[jj] as int == c) {
                        let jj = choose|jj: int| 0 <= jj < j && positions(*ambs)[jj] as int == c;
                        if jj < j - 1 {
                        } else {
                            assert(c == idx);
                        }
                    }
                }
            }
            assert forall|c: int| 0 <= c < len implies #[trigger] chars@[c] == mark(
                n[c],
                flagged(table, shape(n), c),
            ) by {
                assert(chars@[c] == marked_upto(n, positions(*ambs), j as int, c));
            }
        },
        None => {
            assert forall|c: int| 0 <= c < len implies #[trigger] chars@[c] == mark(
                n[c],
                flagged(table, shape(n), c),
            ) by {}
        },
    }
    let mut out: Vec<char> = Vec::new();
    let mut i: usize = 0;
    while i < chars.len()
        invariant
            i <= chars.len() == n.len(),
            out.len() == i,
            forall|c: int| 0 <= c < n.len() ==> n[c] != 'F' && n[c] != 'S',
            forall|c: int|
                0 <= c < n.len() ==> #[trigger] chars@[c] == mark(
                    n[c],
                    flagged(table, shape(n), c),
                ),
            forall|c: int| 0 <= c < i ==> out@[c] == resolve(n[c], flagged(table, shape(n), c)),
        decreases chars.len() - i,
    {
        let c = chars[i];
        let r = match c {
            'f' => 'v',
            's' => 'z',
            'F' => 'f',
            'S' => 's',
            _ => c,
        };
        out.push(r);
        i = i + 1;
    }
    assert(out@ == disambiguated(ipa@, table));
    out
}

/// Resolves each /f/-/v/ and /s/-/z/ sound of a transcription: unvoiced where
/// the table flags its position for the word's shape, voiced elsewhere.
pub fn disambiguate(ipa: &str, ambiguities: &AmbiguityMap) -> (r: String)
    ensures
        r@ == disambiguated(ipa@, ambiguities@),
{
    string_of(&disambiguate_chars(&chars_of(ipa), ambiguities))
}

} // verus!
