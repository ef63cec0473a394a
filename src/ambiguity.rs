use crate::dictionary::Dictionary;
use crate::phonetic::{
    collapse_key_chars, disambiguated, flagged, plain, remove_stress_markers, shape, strip_stress,
    AmbiguityMap,
};
use crate::positions::{positions, positions_len, positions_new, positions_push, Ambiguities};
use crate::text::{chars_of, string_of};
use vstd::hash_map::StringHashMap;
use vstd::prelude::*;

verus! {

/// Positions from this one on are not tracked.
pub const TRACKED: u32 = 32;

/// The four voicing classes that the detector tells apart.
pub open spec fn in_class(c: char, class: u8) -> bool {
    match class {
        0 => c == 'f',
        1 => c == 'v',
        2 => c == 's' || c == 'S',
        _ => c == 'z',
    }
}

/// Some dictionary word of shape `k` has a symbol of `class` at position `p`.
pub open spec fn seen(d: Map<Seq<char>, Seq<char>>, k: Seq<char>, p: int, class: u8) -> bool {
    exists|w: Seq<char>|
        d.contains_key(w) && #[trigger] shape(strip_stress(d[w])) == k && 0 <= p < strip_stress(
            d[w],
        ).len() && in_class(strip_stress(d[w])[p], class)
}

/// Position `p` of shape `k` is ambiguous: within the tracked positions,
/// the dictionary shows both /f/ and /v/ there, or both /s/ and /z/.
pub open spec fn ambiguous(d: Map<Seq<char>, Seq<char>>, k: Seq<char>, p: int) -> bool {
    0 <= p < TRACKED && ((seen(d, k, p, 0) && seen(d, k, p, 1)) || (seen(d, k, p, 2) && seen(
        d,
        k,
        p,
        3,
    )))
}

/// `table` is the ambiguity table of the dictionary `d`: it holds exactly the
/// shapes with an ambiguous position, and for each exactly those positions.
pub open spec fn is_table_of(d: Map<Seq<char>, Seq<char>>, table: Map<Seq<char>, Ambiguities>) -> bool {
    &&& forall|k: Seq<char>| #[trigger] table.contains_key(k) <==> exists|p: int| ambiguous(d, k, p)
    &&& forall|k: Seq<char>, p: int| table.contains_key(k) ==> (#[trigger] flagged(table, k, p) <==> ambiguous(d, k, p))
}

/// Two dictionary words whose stress-free transcriptions share a shape and
/// hold /f/ and /v/ (or /s/ and /z/) at one tracked position make that
/// position ambiguous, and the dictionary's table flags it: the first word
/// keeps its unvoiced sound there and the second its voiced one.
pub proof fn lemma_voicing_pair(
    d: Map<Seq<char>, Seq<char>>,
    table: Map<Seq<char>, Ambiguities>,
    unvoiced: Seq<char>,
    voiced: Seq<char>,
    p: int,
)
    requires
        is_table_of(d, table),
        d.contains_key(unvoiced),
        d.contains_key(voiced),
        shape(strip_stress(d[unvoiced])) == shape(strip_stress(d[voiced])),
        0 <= p < TRACKED,
        p < strip_stress(d[unvoiced]).len(),
        (strip_stress(d[unvoiced])[p] == 'f' && strip_stress(d[voiced])[p] == 'v') || (strip_stress(
            d[unvoiced],
        )[p] == 's' && strip_stress(d[voiced])[p] == 'z'),
        forall|i: int|
            0 <= i < strip_stress(d[unvoiced]).len() ==> !is_marker(strip_stress(d[unvoiced])[i]),
        forall|i: int|
            0 <= i < strip_stress(d[voiced]).len() ==> !is_marker(strip_stress(d[voiced])[i]),
    ensures
        ambiguous(d, shape(strip_stress(d[unvoiced])), p),
        flagged(table, shape(strip_stress(d[unvoiced])), p),
        disambiguated(d[unvoiced], table)[p] == strip_stress(d[unvoiced])[p],
        disambiguated(d[voiced], table)[p] == strip_stress(d[voiced])[p],
{
    let a = strip_stress(d[unvoiced]);
    let b = strip_stress(d[voiced]);
    let k = shape(a);
    assert(shape(b).len() == b.len());
    if a[p] == 'f' {
        assert(seen(d, k, p, 0));
        assert(seen(d, k, p, 1));
    } else {
        assert(seen(d, k, p, 2));
        assert(seen(d, k, p, 3));
    }
    assert(ambiguous(d, k, p));
    assert(table.contains_key(k));
    assert(flagged(table, k, p));
    assert(plain(a) =~= a);
    assert(plain(b) =~= b);
}

/// The positions, below the tracked bound, of each voicing class in one word.
#[derive(Clone, Copy)]
pub struct BuildState {
    pub seen_f: u32,
    pub seen_v: u32,
    pub seen_s: u32,
    pub seen_z: u32,
}

/// The markers of resolved sounds, which transcriptions do not hold.
pub open spec fn is_marker(c: char) -> bool {
    c == 'F' || c == 'V' || c == 'S' || c == 'Z'
}

/// Bit `p` of a position mask.
pub open spec fn has_bit(m: u32, p: u32) -> bool {
    (m >> p) & 1u32 == 1u32
}

impl BuildState {
    /// The mask of one voicing class.
    pub open spec fn mask(&self, class: u8) -> u32 {
        match class {
            0 => self.seen_f,
            1 => self.seen_v,
            2 => self.seen_s,
            _ => self.seen_z,
        }
    }
}

proof fn lemma_bit_or(a: u32, b: u32, p: u32)
    requires
        p < 32,
    ensures
        has_bit(a | b, p) == (has_bit(a, p) || has_bit(b, p)),
{
    assert(((a | b) >> p) & 1u32 == 1u32 <==> ((a >> p) & 1u32 == 1u32 || (b >> p) & 1u32 == 1u32)) by (bit_vector)
        requires
            p < 32,
    ;
}

proof fn lemma_bit_and(a: u32, b: u32, p: u32)
    requires
        p < 32,
    ensures
        has_bit(a & b, p) == (has_bit(a, p) && has_bit(b, p)),
{
    assert(((a & b) >> p) & 1u32 == 1u32 <==> ((a >> p) & 1u32 == 1u32 && (b >> p) & 1u32 == 1u32)) by (bit_vector)
        requires
            p < 32,
    ;
}

proof fn lemma_bit_zero(p: u32)
    requires
        p < 32,
    ensures
        !has_bit(0u32, p),
{
    assert((0u32 >> p) & 1u32 != 1u32) by (bit_vector)
        requires
            p < 32,
    ;
}

proof fn lemma_bit_single(i: u32, p: u32)
    requires
        i < 32,
        p < 32,
    ensures
        has_bit(1u32 << i, p) == (i == p),
{
    assert(((1u32 << i) >> p) & 1u32 == 1u32 <==> i == p) by (bit_vector)
        requires
            i < 32,
            p < 32,
    ;
}

/// The class masks of one stress-free transcription.
pub fn ingest_word(word: &Vec<char>) -> (st: BuildState)
    ensures
        forall|p: u32, class: u8|
            p < TRACKED ==> (#[trigger] has_bit(st.mask(class), p) <==> (p < word.len()
                && in_class(word@[p as int], class))),
{
    let mut st = BuildState { seen_f: 0, seen_v: 0, seen_s: 0, seen_z: 0 };
    let mut i: usize = 0;
    proof {
        assert forall|p: u32, class: u8| p < TRACKED implies !#[trigger] has_bit(st.mask(class), p) by {
            lemma_bit_zero(p);
        }
    }
    while i < word.len() && i < 32
        invariant
            i <= word.len(),
            i <= 32,
            forall|p: u32, class: u8|
                p < TRACKED ==> (#[trigger] has_bit(st.mask(class), p) <==> (p < i
                    && in_class(word@[p as int], class))),
        decreases word.len() - i,
    {
        let ghost old_st = st;
        let bit: u32 = 1u32 << (i as u32);
        let ch = word[i];
        if ch == 'f' {
            st.seen_f = st.seen_f | bit;
        } else if ch == 'v' {
            st.seen_v = st.seen_v | bit;
        } else if ch == 's' || ch == 'S' {
            st.seen_s = st.seen_s | bit;
        } else if ch == 'z' {
            st.seen_z = st.seen_z | bit;
        }
        proof {
            assert forall|p: u32, class: u8| p < TRACKED implies (#[trigger] has_bit(st.mask(class), p) <==> (p < i + 1
                && in_class(word@[p as int], class))) by {
                lemma_bit_or(old_st.mask(class), bit, p);
                lemma_bit_single(i as u32, p);
            }
        }
        i = i + 1;
    }
    st
}


/// The stress-free transcription of the word at position `j` of the walk.
pub open spec fn entry_of(dict: &Dictionary, j: int) -> Seq<char> {
    strip_stress(dict@[dict.word(j)])
}

/// `seen`, over the first `i` words of the walk.
pub open spec fn seen_upto(dict: &Dictionary, i: int, k: Seq<char>, p: int, class: u8) -> bool {
    exists|j: int|
        0 <= j < i && shape(#[trigger] entry_of(dict, j)) == k && 0 <= p < entry_of(dict, j).len()
            && in_class(entry_of(dict, j)[p], class)
}

proof fn lemma_seen_all(dict: &Dictionary, k: Seq<char>, p: int, class: u8)
    requires
        dict.wf(),
    ensures
        seen_upto(dict, dict.spec_len() as int, k, p, class) == seen(dict@, k, p, class),
{
    dict.lemma_walk();
    if seen_upto(dict, dict.spec_len() as int, k, p, class) {
        let j = choose|j: int|
            0 <= j < dict.spec_len() && shape(#[trigger] entry_of(dict, j)) == k && 0 <= p < entry_of(
                dict,
                j,
            ).len() && in_class(entry_of(dict, j)[p], class);
        let w = dict.word(j);
        assert(dict@.contains_key(w));
        assert(shape(strip_stress(dict@[w])) == k);
    }
    if seen(dict@, k, p, class) {
        let w = choose|w: Seq<char>|
            dict@.contains_key(w) && #[trigger] shape(strip_stress(dict@[w])) == k && 0 <= p
                < strip_stress(dict@[w]).len() && in_class(strip_stress(dict@[w])[p], class);
        let j = choose|j: int| 0 <= j < dict.spec_len() && #[trigger] dict.word(j) == w;
        assert(shape(entry_of(dict, j)) == k);
    }
}

proof fn lemma_shape_all(dict: &Dictionary, k: Seq<char>)
    requires
        dict.wf(),
        forall|j: int| 0 <= j < dict.spec_len() ==> shape(#[trigger] entry_of(dict, j)) != k,
    ensures
        forall|p: int, class: u8| !seen(dict@, k, p, class),
{
    assert forall|p: int, class: u8| !seen(dict@, k, p, class) by {
        lemma_seen_all(dict, k, p, class);
    }
}

/// Groups the dictionary's words by phonetic shape and merges their class masks.
fn group_by_shape(dict: &Dictionary) -> (r: (StringHashMap<BuildState>, Vec<String>))
    requires
        dict.wf(),
    ensures
        forall|k: Seq<char>|
            #[trigger] r.0@.contains_key(k) <==> exists|j: int|
                0 <= j < dict.spec_len() && shape(#[trigger] entry_of(dict, j)) == k,
        forall|j: int| 0 <= j < r.1.len() ==> r.0@.contains_key(#[trigger] r.1@[j]@),
        forall|k: Seq<char>|
            r.0@.contains_key(k) ==> exists|j: int| 0 <= j < r.1.len() && #[trigger] r.1@[j]@ == k,
        forall|k: Seq<char>, p: u32, class: u8|
            r.0@.contains_key(k) && p < TRACKED ==> (#[trigger] has_bit(r.0@[k].mask(class), p)
                <==> seen(dict@, k, p as int, class)),
{
    let mut groups: StringHashMap<BuildState> = StringHashMap::new();
    let mut shapes: Vec<String> = Vec::new();
    let n = dict.len();
    let mut i: usize = 0;
    while i < n
        invariant
            n == dict.spec_len(),
            dict.wf(),
            i <= n,
            forall|k: Seq<char>|
                #[trigger] groups@.contains_key(k) <==> exists|j: int|
                    0 <= j < i && shape(#[trigger] entry_of(dict, j)) == k,
            forall|j: int| 0 <= j < shapes.len() ==> groups@.contains_key(#[trigger] shapes@[j]@),
            forall|k: Seq<char>|
                groups@.contains_key(k) ==> exists|j: int|
                    0 <= j < shapes.len() && #[trigger] shapes@[j]@ == k,
            forall|k: Seq<char>, p: u32, class: u8|
                groups@.contains_key(k) && p < TRACKED ==> (#[trigger] has_bit(
                    groups@[k].mask(class),
                    p,
                ) <==> seen_upto(dict, i as int, k, p as int, class)),
        decreases n - i,
    {
        let (_word, ipa) = dict.entry(i);
        let stripped = remove_stress_markers(&chars_of(ipa.as_str()));
        assert(stripped@ == entry_of(dict, i as int));
        let key = string_of(&collapse_key_chars(&stripped));
        let st = ingest_word(&stripped);
        let ghost old_groups = groups@;
        let ghost old_shapes = shapes@;
        let merged = match groups.get(key.as_str()) {
            Some(g) => {
                let m = BuildState {
                    seen_f: g.seen_f | st.seen_f,
                    seen_v: g.seen_v | st.seen_v,
                    seen_s: g.seen_s | st.seen_s,
                    seen_z: g.seen_z | st.seen_z,
                };
                proof {
                    assert forall|p: u32, class: u8| p < TRACKED implies #[trigger] has_bit(m.mask(class), p) == (
                    has_bit(g.mask(class), p) || has_bit(st.mask(class), p)) by {
                        lemma_bit_or(g.mask(class), st.mask(class), p);
                    }
                }
                m
            },
            None => {
                shapes.push(key.clone());
                proof {
                    assert forall|p: u32, class: u8| p < TRACKED implies !seen_upto(dict, i as int, key@, p as int, class) by {
                        if seen_upto(dict, i as int, key@, p as int, class) {
                            let j = choose|j: int|
                                0 <= j < i && shape(#[trigger] entry_of(dict, j)) == key@ && 0 <= p
                                    < entry_of(dict, j).len() && in_class(entry_of(dict, j)[p as int], class);
                            assert(old_groups.contains_key(key@));
                        }
                    }
                }
                st
            },
        };
        groups.insert(key, merged);
        proof {
            assert forall|k: Seq<char>|
                #[trigger] groups@.contains_key(k) <==> exists|j: int|
                    0 <= j < i + 1 && shape(#[trigger] entry_of(dict, j)) == k by {
                if k == key@ {
                    assert(shape(entry_of(dict, i as int)) == k);
                } else if old_groups.contains_key(k) {
                    let j = choose|j: int| 0 <= j < i && shape(#[trigger] entry_of(dict, j)) == k;
                    assert(shape(entry_of(dict, j)) == k);
                } else if exists|j: int| 0 <= j < i + 1 && shape(#[trigger] entry_of(dict, j)) == k {
                    let j = choose|j: int| 0 <= j < i + 1 && shape(#[trigger] entry_of(dict, j)) == k;
                    assert(j != i);
                    assert(false);
                }
            }
            assert forall|k: Seq<char>|
                groups@.contains_key(k) implies exists|j: int|
                    0 <= j < shapes.len() && #[trigger] shapes@[j]@ == k by {
                if k == key@ {
                    if old_groups.contains_key(k) {
                        let j = choose|j: int| 0 <= j < old_shapes.len() && #[trigger] old_shapes[j]@ == k;
                        assert(shapes@[j]@ == k);
                    } else {
                        assert(shapes@[shapes.len() - 1]@ == k);
                    }
                } else {
                    let j = choose|j: int| 0 <= j < old_shapes.len() && #[trigger] old_shapes[j]@ == k;
                    assert(shapes@[j]@ == k);
                }
            }
            assert forall|j: int| 0 <= j < shapes.len() implies groups@.contains_key(#[trigger] shapes@[j]@) by {
                if j < old_shapes.len() {
                    assert(old_groups.contains_key(old_shapes[j]@));
                }
            }
            assert forall|k: Seq<char>, p: u32, class: u8|
                groups@.contains_key(k) && p < TRACKED implies (#[trigger] has_bit(
                    groups@[k].mask(class),
                    p,
                ) <==> seen_upto(dict, i + 1, k, p as int, class)) by {
                let e = entry_of(dict, i as int);
                if seen_upto(dict, i + 1, k, p as int, class) && !seen_upto(dict, i as int, k, p as int, class) {
                    let j = choose|j: int|
                        0 <= j < i + 1 && shape(#[trigger] entry_of(dict, j)) == k && 0 <= p
                            < entry_of(dict, j).len() && in_class(entry_of(dict, j)[p as int], class);
                    assert(j == i);
                }
                if seen_upto(dict, i as int, k, p as int, class) {
                    let j = choose|j: int|
                        0 <= j < i && shape(#[trigger] entry_of(dict, j)) == k && 0 <= p
                            < entry_of(dict, j).len() && in_class(entry_of(dict, j)[p as int], class);
                    assert(seen_upto(dict, i + 1, k, p as int, class));
                }
                if k == key@ && p < e.len() && in_class(e[p as int], class) {
                    assert(seen_upto(dict, i + 1, k, p as int, class));
                }
            }
        }
        i = i + 1;
    }
    proof {
        assert forall|k: Seq<char>, p: u32, class: u8|
            groups@.contains_key(k) && p < TRACKED implies (#[trigger] has_bit(groups@[k].mask(class), p)
                <==> seen(dict@, k, p as int, class)) by {
            lemma_seen_all(dict, k, p as int, class);
        }
    }
    let r = (groups, shapes);
    assert forall|k: Seq<char>| r.0@.contains_key(k) implies exists|j: int|
        0 <= j < r.1.len() && #[trigger] r.1@[j]@ == k by {
        let j = choose|j: int| 0 <= j < r.1.len() && #[trigger] shapes@[j]@ == k;
        assert(r.1@[j]@ == k);
    }
    r
}


/// The tracked positions whose bit is set in `amb`, ascending.
fn set_positions(amb: u32) -> (r: Ambiguities)
    ensures
        forall|j: int| 0 <= j < positions(r).len() ==> (positions(r)[j] as int) < TRACKED,
        forall|p: int|
            (exists|j: int| 0 <= j < positions(r).len() && positions(r)[j] as int == p) <==> (0 <= p
                < TRACKED && #[trigger] has_bit(amb, p as u32)),
{
    let mut list = positions_new();
    let mut q: u32 = 0;
    while q < 32
        invariant
            q <= 32,
            forall|j: int| 0 <= j < positions(list).len() ==> (positions(list)[j] as int) < q,
            forall|p: int|
                (exists|j: int| 0 <= j < positions(list).len() && positions(list)[j] as int == p)
                    <==> (0 <= p < q && #[trigger] has_bit(amb, p as u32)),
        decreases 32 - q,
    {
        let ghost old_list = positions(list);
        if (amb >> q) & 1 == 1 {
            positions_push(&mut list, q as u16);
        }
        proof {
            assert forall|p: int|
                (exists|j: int| 0 <= j < positions(list).len() && positions(list)[j] as int == p)
                    <==> (0 <= p < q + 1 && #[trigger] has_bit(amb, p as u32)) by {
                if exists|j: int| 0 <= j < positions(list).len() && positions(list)[j] as int == p {
                    let j = choose|j: int| 0 <= j < positions(list).len() && positions(list)[j] as int == p;
                    if j < old_list.len() {
                        assert(old_list[j] as int == p);
                    }
                }
                if 0 <= p < q {
                    if has_bit(amb, p as u32) {
                        let j = choose|j: int| 0 <= j < old_list.len() && old_list[j] as int == p;
                        assert(positions(list)[j] as int == p);
                    }
                } else if p == q && has_bit(amb, p as u32) {
                    assert(positions(list)[old_list.len() as int] as int == p);
                }
            }
        }
        q = q + 1;
    }
    list
}

/// Builds the ambiguity table of a dictionary: for every shape, the tracked
/// positions where both voicings of one class occur among its words.
pub fn detect_ambiguities(english_to_ipa: &Dictionary) -> (r: AmbiguityMap)
    requires
        english_to_ipa.wf(),
    ensures
        is_table_of(english_to_ipa@, r@),
{
    let ghost d = english_to_ipa@;
    let (groups, shapes) = group_by_shape(english_to_ipa);
    let mut table: AmbiguityMap = StringHashMap::new();
    let mut idx: usize = 0;
    while idx < shapes.len()
        invariant
            idx <= shapes.len(),
            forall|j: int| 0 <= j < shapes.len() ==> groups@.contains_key(#[trigger] shapes@[j]@),
            forall|k: Seq<char>, p: u32, class: u8|
                groups@.contains_key(k) && p < TRACKED ==> (#[trigger] has_bit(groups@[k].mask(class), p)
                    <==> seen(d, k, p as int, class)),
            forall|k: Seq<char>|
                #[trigger] table@.contains_key(k) <==> (exists|j: int|
                    0 <= j < idx && #[trigger] shapes@[j]@ == k) && exists|p: int| ambiguous(d, k, p),
            forall|k: Seq<char>, p: int|
                table@.contains_key(k) ==> (#[trigger] flagged(table@, k, p) <==> ambiguous(d, k, p)),
        decreases shapes.len() - idx,
    {
        let key = &shapes[idx];
        assert(groups@.contains_key(key@));
        let st = match groups.get(key.as_str()) {
            Some(g) => *g,
            None => {
                assert(false);
                BuildState { seen_f: 0, seen_v: 0, seen_s: 0, seen_z: 0 }
            },
        };
        let amb = (st.seen_f & st.seen_v) | (st.seen_s & st.seen_z);
        proof {
            assert forall|p: int| 0 <= p < TRACKED implies #[trigger] has_bit(amb, p as u32) == ambiguous(d, key@, p) by {
                lemma_bit_or(st.seen_f & st.seen_v, st.seen_s & st.seen_z, p as u32);
                lemma_bit_and(st.seen_f, st.seen_v, p as u32);
                lemma_bit_and(st.seen_s, st.seen_z, p as u32);
                assert(has_bit(st.mask(0), p as u32) == seen(d, key@, p, 0));
                assert(has_bit(st.mask(1), p as u32) == seen(d, key@, p, 1));
                assert(has_bit(st.mask(2), p as u32) == seen(d, key@, p, 2));
                assert(has_bit(st.mask(3), p as u32) == seen(d, key@, p, 3));
            }
        }
        let list = set_positions(amb);
        let ghost old_table = table@;
        if positions_len(&list) > 0 {
            proof {
                let p = positions(list)[0] as int;
                assert(has_bit(amb, p as u32));
            }
            table.insert(key.clone(), list);
        } else {
            assert forall|p: int| !ambiguous(d, key@, p) by {
                if ambiguous(d, key@, p) {
                    assert(has_bit(amb, p as u32));
                }
            }
        }
        proof {
            assert forall|k: Seq<char>, p: int|
                table@.contains_key(k) implies (#[trigger] flagged(table@, k, p) <==> ambiguous(d, k, p)) by {
                if k == key@ && positions(list).len() > 0 {
                    assert(table@[k] == list);
                    let e = exists|j: int| 0 <= j < positions(list).len() && positions(list)[j] as int == p;
                    if 0 <= p < TRACKED {
                        assert(e == has_bit(amb, p as u32));
                        assert(has_bit(amb, p as u32) == ambiguous(d, key@, p));
                    } else {
                        assert(!e);
                    }
                    assert(flagged(table@, k, p) == e);
                } else {
                    assert(old_table.contains_key(k));
                    assert(table@[k] == old_table[k]);
                    assert(flagged(old_table, k, p) <==> ambiguous(d, k, p));
                    assert(flagged(table@, k, p) == flagged(old_table, k, p));
                }
            }
            assert forall|k: Seq<char>|
                #[trigger] table@.contains_key(k) <==> (exists|j: int|
                    0 <= j < idx + 1 && #[trigger] shapes@[j]@ == k) && exists|p: int| ambiguous(d, k, p) by {
                if k != key@ {
                    if exists|j: int| 0 <= j < idx + 1 && #[trigger] shapes@[j]@ == k {
                        let j = choose|j: int| 0 <= j < idx + 1 && #[trigger] shapes@[j]@ == k;
                        assert(j != idx);
                    }
                } else {
                    assert(shapes@[idx as int]@ == k);
                }
            }
        }
        idx = idx + 1;
    }
    proof {
        assert forall|k: Seq<char>| #[trigger] table@.contains_key(k) <==> exists|p: int| ambiguous(d, k, p) by {
            if !groups@.contains_key(k) {
                lemma_shape_all(english_to_ipa, k);
            } else {
                let j = choose|j: int| 0 <= j < shapes.len() && #[trigger] shapes@[j]@ == k;
                assert(shapes@[j]@ == k);
            }
        }
    }
    table
}

} // verus!
