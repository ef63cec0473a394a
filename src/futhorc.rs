use crate::ambiguity::{detect_ambiguities, is_table_of};
use crate::dictionary::Dictionary;
use crate::phonetic::{disambiguate_chars, disambiguated, AmbiguityMap};
use crate::positions::Ambiguities;
use crate::runes::{
    fold_pairs, glyph, glyphs, lemma_glyphs_single, lemma_ligate_absent, runic, translate_to_runic,
    translate_to_runic_2,
};
use crate::sentence::{
    deep, is_space, join, lemma_segment_exact, lower_exec, lowered, parse_whitespace, segment,
    well_split,
};
use crate::phonetic::{remove_stress_markers, strip_stress};
use crate::text::{chars_of, string_of};
use vstd::string::StringExecFns;
use crate::word_list::{entry_views, parse_word_list, split_on, split_on_exec, word_list};
use crate::words::{handle_ipa_word, word_unit};
use vstd::prelude::*;

verus! {

/// The sentence punctuation that a token may end with.
pub open spec fn is_punct(c: char) -> bool {
    c == ',' || c == ':' || c == ';' || c == '.' || c == '!' || c == '?'
}

/// A token without its one trailing punctuation mark, and that mark.
pub open spec fn split_punct(tok: Seq<char>) -> (Seq<char>, Option<char>) {
    if tok.len() > 0 && is_punct(tok.last()) {
        (tok.drop_last(), Some(tok.last()))
    } else {
        (tok, None)
    }
}

/// The punctuation mark, if any, as text.
pub open spec fn punct_seq(p: Option<char>) -> Seq<char> {
    match p {
        Some(c) => seq![c],
        None => Seq::<char>::empty(),
    }
}

/// A unit with the punctuation mark, if any, on its text.
pub open spec fn with_punct(u: (Seq<char>, bool), p: Option<char>) -> (Seq<char>, bool) {
    (u.0 + punct_seq(p), u.1)
}

/// The output of one unit: runes for a transcription, the text itself otherwise.
pub open spec fn render_unit(u: (Seq<char>, bool), table: Map<Seq<char>, Ambiguities>) -> Seq<char> {
    if u.1 {
        runic(fold_pairs(disambiguated(u.0, table)))
    } else {
        u.0
    }
}

/// The unit of one part of a hyphenated word: looked up on its own, while the
/// edits go by the whole word.
pub open spec fn part_unit(dict: Map<Seq<char>, Seq<char>>, word: Seq<char>, part: Seq<char>) -> (Seq<char>, bool) {
    if dict.contains_key(part) {
        word_unit(word, dict[part])
    } else {
        (part, false)
    }
}

/// The output of the first `n` parts of a hyphenated word, with hyphens between
/// them and the punctuation mark on the last part.
pub open spec fn hyphen_text(
    dict: Map<Seq<char>, Seq<char>>,
    table: Map<Seq<char>, Ambiguities>,
    word: Seq<char>,
    parts: Seq<Seq<char>>,
    n: nat,
    p: Option<char>,
) -> Seq<char>
    decreases n,
{
    if n == 0 {
        Seq::<char>::empty()
    } else {
        let u = part_unit(dict, word, parts[n - 1]);
        let u2 = if n == parts.len() { with_punct(u, p) } else { u };
        hyphen_text(dict, table, word, parts, (n - 1) as nat, p) + (if n > 1 {
            runic(seq!['-'])
        } else {
            Seq::<char>::empty()
        }) + render_unit(u2, table)
    }
}

/// The output of one token.
pub open spec fn token_text(
    dict: Map<Seq<char>, Seq<char>>,
    table: Map<Seq<char>, Ambiguities>,
    tok: Seq<char>,
) -> Seq<char> {
    let (word, p) = split_punct(tok);
    if dict.contains_key(word) {
        render_unit(with_punct(word_unit(word, dict[word]), p), table)
    } else if word.contains('-') {
        let parts = split_on(word, '-');
        hyphen_text(dict, table, word, parts, parts.len(), p)
    } else {
        word + punct_seq(p)
    }
}

/// A run after a token that ended in punctuation loses its first space to a
/// plain space rather than the word separator.
pub open spec fn suppress(run: Seq<char>, after_punct: bool) -> Seq<char> {
    if after_punct && run.len() > 0 && run[0] == ' ' {
        run.update(0, 'X')
    } else {
        run
    }
}

/// The leading run, then each of the first `n` tokens with the run after it.
pub open spec fn rendered(
    dict: Map<Seq<char>, Seq<char>>,
    table: Map<Seq<char>, Ambiguities>,
    runs: Seq<Seq<char>>,
    toks: Seq<Seq<char>>,
    n: nat,
) -> Seq<char>
    decreases n,
{
    if n == 0 {
        runic(runs[0])
    } else {
        rendered(dict, table, runs, toks, (n - 1) as nat) + token_text(dict, table, toks[n - 1])
            + runic(suppress(runs[n as int], split_punct(toks[n - 1]).1 is Some))
    }
}

/// The rune rendering of a text.
pub open spec fn translation(
    dict: Map<Seq<char>, Seq<char>>,
    table: Map<Seq<char>, Ambiguities>,
    s: Seq<char>,
) -> Seq<char> {
    let (runs, toks) = segment(lowered(s));
    rendered(dict, table, runs, toks, toks.len())
}

fn strip_punct(tok: &Vec<char>) -> (r: (Vec<char>, Option<char>))
    ensures
        (r.0@, r.1) == split_punct(tok@),
{
    let mut word = tok.clone();
    let n = word.len();
    if n > 0 {
        let c = word[n - 1];
        if c == ',' || c == ':' || c == ';' || c == '.' || c == '!' || c == '?' {
            word.pop();
            return (word, Some(c));
        }
    }
    (word, None)
}

fn has_hyphen(w: &Vec<char>) -> (r: bool)
    ensures
        r == w@.contains('-'),
{
    let mut i: usize = 0;
    while i < w.len()
        invariant
            i <= w.len(),
            forall|j: int| 0 <= j < i ==> w@[j] != '-',
        decreases w.len() - i,
    {
        if w[i] == '-' {
            assert(w@[i as int] == '-');
            return true;
        }
        i = i + 1;
    }
    false
}

fn append(out: &mut Vec<char>, s: &Vec<char>)
    ensures
        final(out)@ == old(out)@ + s@,
{
    let mut i: usize = 0;
    while i < s.len()
        invariant
            i <= s.len(),
            out@ == old(out)@ + s@.take(i as int),
        decreases s.len() - i,
    {
        out.push(s[i]);
        i = i + 1;
        assert(s@.take(i as int) == s@.take(i - 1).push(s@[i - 1]));
    }
    assert(s@.take(i as int) == s@);
}

/// Appends the punctuation mark, if any, to a unit's text.
fn handle_punctuation(p: Option<char>, unit: &mut (Vec<char>, bool))
    ensures
        (final(unit).0@, final(unit).1) == with_punct((old(unit).0@, old(unit).1), p),
{
    match p {
        Some(c) => {
            unit.0.push(c);
        },
        None => {
            assert(unit.0@ =~= unit.0@ + Seq::<char>::empty());
        },
    }
}

/// The run after a token, with its first space kept plain after punctuation.
fn suppress_exec(run: &Vec<char>, after_punct: bool) -> (r: Vec<char>)
    ensures
        r@ == suppress(run@, after_punct),
{
    let mut r = run.clone();
    if after_punct && r.len() > 0 && r[0] == ' ' {
        r.set(0, 'X');
    }
    r
}

/// A dictionary with the fixed pronunciations that take precedence over the
/// word list.
pub open spec fn overridden(m: Map<Seq<char>, Seq<char>>) -> Map<Seq<char>, Seq<char>> {
    m
        .insert("know"@, "noʊw"@)
        .insert("futhorc"@, "vʌθɑɹk"@)
        .insert("the"@, "ðɛ"@)
        .insert("'tis"@, "'tɪz"@)
        .insert("and"@, "ænd"@)
        .insert("of"@, "ɔv"@)
        .insert("a"@, "ᚢ"@)
        .insert("from"@, "fɹɔm"@)
        .insert("aren't"@, "ɑɹnt"@)
        .insert("isn't"@, "ɪznt"@)
        .insert("didn't"@, "dɪdnt"@)
        .insert("doesn't"@, "dʌznt"@)
        .insert("shouldn't"@, "ʃʊdənt"@)
        .insert("couldn't"@, "kʊdnt"@)
        .insert("wouldn't"@, "wʊdnt"@)
        .insert("i'm"@, "aɪ'm"@)
        .insert("for"@, "vɔɹ"@)
        .insert("so"@, "zow"@)
        .insert("use"@, "juz"@)
        .insert("first"@, "vɚst"@)
        .insert("vase"@, "vaz"@)
        .insert("worse"@, "wɚz"@)
        .insert("either"@, "aɪðɚ"@)
        .insert("neither"@, "naɪðɚ"@)
        .insert("else"@, "ɛlz"@)
        .insert("since"@, "zɪns"@)
}

/// The dictionary that a list of entries gives, a later entry for a word
/// replacing an earlier one.
pub open spec fn entries_map(entries: Seq<(Seq<char>, Seq<char>)>) -> Map<Seq<char>, Seq<char>>
    decreases entries.len(),
{
    if entries.len() == 0 {
        Map::<Seq<char>, Seq<char>>::empty()
    } else {
        entries_map(entries.drop_last()).insert(entries.last().0, entries.last().1)
    }
}

/// Every transcription of the dictionary has a symbol besides stress markers.
pub open spec fn all_pronounced(d: Map<Seq<char>, Seq<char>>) -> bool {
    forall|w: Seq<char>| d.contains_key(w) ==> strip_stress(#[trigger] d[w]).len() > 0
}

/// Sets the fixed pronunciations.
pub fn apply_overrides(dict: &mut Dictionary)
    requires
        old(dict).wf(),
    ensures
        final(dict).wf(),
        final(dict)@ == overridden(old(dict)@),
{
    dict.insert(String::from_str("know"), String::from_str("noʊw"));
    dict.insert(String::from_str("futhorc"), String::from_str("vʌθɑɹk"));
    dict.insert(String::from_str("the"), String::from_str("ðɛ"));
    dict.insert(String::from_str("'tis"), String::from_str("'tɪz"));
    dict.insert(String::from_str("and"), String::from_str("ænd"));
    dict.insert(String::from_str("of"), String::from_str("ɔv"));
    dict.insert(String::from_str("a"), String::from_str("ᚢ"));
    dict.insert(String::from_str("from"), String::from_str("fɹɔm"));
    dict.insert(String::from_str("aren't"), String::from_str("ɑɹnt"));
    dict.insert(String::from_str("isn't"), String::from_str("ɪznt"));
    dict.insert(String::from_str("didn't"), String::from_str("dɪdnt"));
    dict.insert(String::from_str("doesn't"), String::from_str("dʌznt"));
    dict.insert(String::from_str("shouldn't"), String::from_str("ʃʊdənt"));
    dict.insert(String::from_str("couldn't"), String::from_str("kʊdnt"));
    dict.insert(String::from_str("wouldn't"), String::from_str("wʊdnt"));
    dict.insert(String::from_str("i'm"), String::from_str("aɪ'm"));
    dict.insert(String::from_str("for"), String::from_str("vɔɹ"));
    dict.insert(String::from_str("so"), String::from_str("zow"));
    dict.insert(String::from_str("use"), String::from_str("juz"));
    dict.insert(String::from_str("first"), String::from_str("vɚst"));
    dict.insert(String::from_str("vase"), String::from_str("vaz"));
    dict.insert(String::from_str("worse"), String::from_str("wɚz"));
    dict.insert(String::from_str("either"), String::from_str("aɪðɚ"));
    dict.insert(String::from_str("neither"), String::from_str("naɪðɚ"));
    dict.insert(String::from_str("else"), String::from_str("ɛlz"));
    dict.insert(String::from_str("since"), String::from_str("zɪns"));
}

proof fn lemma_segment_word(w: Seq<char>)
    requires
        w.len() > 0,
        forall|i: int| 0 <= i < w.len() ==> !is_space(w[i]),
    ensures
        segment(w) == (seq![Seq::<char>::empty(), Seq::<char>::empty()], seq![w]),
    decreases w.len(),
{
    let e = Seq::<char>::empty();
    assert(!is_space(w.last()));
    if w.len() == 1 {
        assert(w.drop_last() =~= e);
        assert(segment(w.drop_last()) == (seq![e], Seq::<Seq<char>>::empty()));
        assert(seq![e].push(e) =~= seq![e, e]);
        assert(seq![w.last()] =~= w);
        assert(Seq::<Seq<char>>::empty().push(seq![w.last()]) =~= seq![w]);
    } else {
        let v = w.drop_last();
        lemma_segment_word(v);
        assert(seq![e, e].last().len() == 0);
        assert(v.push(w.last()) =~= w);
        assert(seq![v].drop_last().push(seq![v].last().push(w.last())) =~= seq![w]);
    }
}

proof fn lemma_runic_empty()
    ensures
        runic(Seq::<char>::empty()) == Seq::<char>::empty(),
{
    assert(glyphs(Seq::<char>::empty()) == Seq::<char>::empty());
}

/// A word that the dictionary does not hold, with no hyphen, no whitespace
/// and no capital letter, translates to itself.
pub proof fn lemma_unknown_word_kept(
    dict: Map<Seq<char>, Seq<char>>,
    table: Map<Seq<char>, Ambiguities>,
    w: Seq<char>,
)
    requires
        forall|i: int| 0 <= i < w.len() ==> !is_space(w[i]),
        lowered(w) == w,
        !w.contains('-'),
        !dict.contains_key(split_punct(w).0),
    ensures
        translation(dict, table, w) == w,
{
    lemma_runic_empty();
    if w.len() > 0 {
        lemma_segment_word(w);
        let word = split_punct(w).0;
        if word.contains('-') {
            let i = choose|i: int| 0 <= i < word.len() && word[i] == '-';
            assert(w[i] == '-');
        }
        if split_punct(w).1 is Some {
            assert(word + punct_seq(split_punct(w).1) =~= w);
        } else {
            assert(word + punct_seq(split_punct(w).1) =~= w);
        }
        assert(rendered(dict, table, segment(w).0, segment(w).1, 0) == Seq::<char>::empty());
        assert(suppress(Seq::<char>::empty(), split_punct(w).1 is Some) == Seq::<char>::empty());
        assert(translation(dict, table, w) =~= w);
    } else {
        assert(segment(w) == (seq![Seq::<char>::empty()], Seq::<Seq<char>>::empty()));
    }
}

/// A run as the output shows it: each space becomes the word separator, but
/// a first space after punctuation stays plain; other whitespace is kept.
pub open spec fn spaced(run: Seq<char>, after_punct: bool) -> Seq<char> {
    Seq::new(
        run.len(),
        |i: int|
            if i == 0 && after_punct && run[0] == ' ' {
                ' '
            } else if run[i] == ' ' {
                '᛫'
            } else {
                run[i]
            },
    )
}

proof fn lemma_run_rendering(run: Seq<char>, after_punct: bool)
    requires
        forall|j: int| 0 <= j < run.len() ==> is_space(run[j]),
    ensures
        runic(suppress(run, after_punct)) == spaced(run, after_punct),
{
    let t = suppress(run, after_punct);
    assert forall|i: int| 0 <= i < t.len() implies #[trigger] glyph(t[i]).len() == 1 by {
        assert(is_space(run[i]));
    }
    lemma_glyphs_single(t);
    let g = glyphs(t);
    assert(g =~= spaced(run, after_punct)) by {
        assert forall|i: int| 0 <= i < t.len() implies g[i] == spaced(run, after_punct)[i] by {
            assert(is_space(run[i]));
        }
    }
    assert forall|i: int| 0 <= i < g.len() implies g[i] != 'ᛋ' && g[i] != 'ᚳ' by {
        assert(is_space(run[i]));
    }
    lemma_ligate_absent(g, 'ᛋ', 'ᛏ', 'ᛥ');
    lemma_ligate_absent(g, 'ᚳ', 'ᚹ', 'ᛢ');
}

/// The runs of the output, in order.
pub open spec fn spaced_runs(runs: Seq<Seq<char>>, toks: Seq<Seq<char>>) -> Seq<Seq<char>> {
    Seq::new(runs.len(), |i: int| spaced(runs[i], i > 0 && split_punct(toks[i - 1]).1 is Some))
}

/// The tokens of the output, in order.
pub open spec fn token_texts(
    dict: Map<Seq<char>, Seq<char>>,
    table: Map<Seq<char>, Ambiguities>,
    toks: Seq<Seq<char>>,
) -> Seq<Seq<char>> {
    Seq::new(toks.len(), |i: int| token_text(dict, table, toks[i]))
}

proof fn lemma_rendered_join(
    dict: Map<Seq<char>, Seq<char>>,
    table: Map<Seq<char>, Ambiguities>,
    runs: Seq<Seq<char>>,
    toks: Seq<Seq<char>>,
    n: nat,
)
    requires
        well_split(runs, toks),
        n <= toks.len(),
    ensures
        rendered(dict, table, runs, toks, n) == join(spaced_runs(runs, toks), token_texts(dict, table, toks), n),
    decreases n,
{
    lemma_run_rendering(runs[n as int], n > 0 && split_punct(toks[n - 1]).1 is Some);
    if n == 0 {
        assert(suppress(runs[0], false) == runs[0]);
    } else {
        lemma_rendered_join(dict, table, runs, toks, (n - 1) as nat);
    }
}

/// Translation keeps the text's structure: the lowered text splits exactly
/// into whitespace runs and tokens, one run more than tokens, and the output
/// is as many rendered tokens with the same runs between them, kept character
/// for character except that a space becomes the word separator (the first
/// space after a punctuation mark stays a plain space).
pub proof fn lemma_structure_kept(
    dict: Map<Seq<char>, Seq<char>>,
    table: Map<Seq<char>, Ambiguities>,
    s: Seq<char>,
)
    ensures
        well_split(segment(lowered(s)).0, segment(lowered(s)).1),
        join(segment(lowered(s)).0, segment(lowered(s)).1, segment(lowered(s)).1.len()) == lowered(s),
        translation(dict, table, s) == join(
            spaced_runs(segment(lowered(s)).0, segment(lowered(s)).1),
            token_texts(dict, table, segment(lowered(s)).1),
            segment(lowered(s)).1.len(),
        ),
{
    lemma_segment_exact(lowered(s));
    lemma_rendered_join(dict, table, segment(lowered(s)).0, segment(lowered(s)).1, segment(lowered(s)).1.len());
}

/// Translation is a function of the dictionary, the table and the text:
/// translating one text twice gives the same output.
pub proof fn lemma_translation_deterministic(
    dict: Map<Seq<char>, Seq<char>>,
    table: Map<Seq<char>, Ambiguities>,
    a: Seq<char>,
    b: Seq<char>,
)
    requires
        a == b,
    ensures
        translation(dict, table, a) == translation(dict, table, b),
{
}

/// Translates a text with a translator built over a word list and the fixed
/// pronunciations; none where the word list is malformed.
pub fn words_to_runes(word_list_text: &str, words: String) -> (r: Option<String>)
    ensures
        r is None <==> (word_list(word_list_text@) is None || !all_pronounced(
            overridden(entries_map(word_list(word_list_text@)->0)),
        )),
        r matches Some(t) ==> exists|table: Map<Seq<char>, Ambiguities>|
            is_table_of(overridden(entries_map(word_list(word_list_text@)->0)), table) && t@
                == translation(overridden(entries_map(word_list(word_list_text@)->0)), table, words@),
{
    match EnglishToRunes::from_word_list(word_list_text) {
        Some(dictionary) => Some(dictionary.translate(words)),
        None => None,
    }
}

/// A translator from English to runes: a phonetic dictionary and the
/// ambiguity table built from it.
pub struct EnglishToRunes {
    english_to_ipa: Dictionary,
    ambiguity_map: AmbiguityMap,
}

impl EnglishToRunes {
    /// The dictionary is walkable and the table is the dictionary's own.
    pub closed spec fn wf(&self) -> bool {
        self.english_to_ipa.wf() && is_table_of(self.english_to_ipa@, self.ambiguity_map@)
    }

    /// The dictionary's contents.
    pub closed spec fn dict(&self) -> Map<Seq<char>, Seq<char>> {
        self.english_to_ipa@
    }

    /// The ambiguity table.
    pub closed spec fn table(&self) -> Map<Seq<char>, Ambiguities> {
        self.ambiguity_map@
    }

    /// A translator over a dictionary, with the dictionary's ambiguity table.
    pub fn from_dictionary(english_to_ipa: Dictionary) -> (r: EnglishToRunes)
        requires
            english_to_ipa.wf(),
        ensures
            r.wf(),
            r.dict() == english_to_ipa@,
    {
        let ambiguity_map = detect_ambiguities(&english_to_ipa);
        EnglishToRunes { english_to_ipa, ambiguity_map }
    }

    /// A translator over the given entries and the fixed pronunciations,
    /// or none where some transcription has no symbol but stress markers.
    pub fn new(entries: Vec<(String, String)>) -> (r: Option<EnglishToRunes>)
        ensures
            r matches Some(t) ==> t.wf() && t.dict() == overridden(entries_map(entry_views(entries@))),
            r is None <==> !all_pronounced(overridden(entries_map(entry_views(entries@)))),
    {
        let mut dict = Dictionary::new();
        let mut i: usize = 0;
        while i < entries.len()
            invariant
                i <= entries.len(),
                dict.wf(),
                dict@ == entries_map(entry_views(entries@).take(i as int)),
            decreases entries.len() - i,
        {
            assert(entry_views(entries@).take(i + 1).drop_last() == entry_views(entries@).take(i as int));
            dict.insert(entries[i].0.clone(), entries[i].1.clone());
            i = i + 1;
        }
        assert(entry_views(entries@).take(i as int) == entry_views(entries@));
        apply_overrides(&mut dict);
        let ghost d = dict@;
        proof {
            dict.lemma_walk();
        }
        let mut k: usize = 0;
        while k < dict.len()
            invariant
                dict.wf(),
                d == dict@,
                d == overridden(entries_map(entry_views(entries@))),
                k <= dict.spec_len(),
                forall|j: int| 0 <= j < k ==> d.contains_key(#[trigger] dict.word(j)) && strip_stress(d[dict.word(j)]).len() > 0,
            decreases dict.spec_len() - k,
        {
            let (_w, t) = dict.entry(k);
            let stripped = remove_stress_markers(&chars_of(t.as_str()));
            if stripped.len() == 0 {
                assert(d.contains_key(dict.word(k as int)));
                assert(strip_stress(d[dict.word(k as int)]).len() == 0);
                assert(!all_pronounced(d));
                return None;
            }
            k = k + 1;
        }
        assert forall|w: Seq<char>| d.contains_key(w) implies strip_stress(#[trigger] d[w]).len() > 0 by {
            let j = choose|j: int| 0 <= j < dict.spec_len() && #[trigger] dict.word(j) == w;
        }
        Some(EnglishToRunes::from_dictionary(dict))
    }

    /// A translator over the entries of a word list and the fixed
    /// pronunciations; none where the word list is malformed or some
    /// transcription has no symbol but stress markers.
    pub fn from_word_list(word_list_text: &str) -> (r: Option<EnglishToRunes>)
        ensures
            r matches Some(t) ==> t.wf() && word_list(word_list_text@) is Some && t.dict()
                == overridden(entries_map(word_list(word_list_text@)->0)),
            r is None <==> (word_list(word_list_text@) is None || !all_pronounced(
                overridden(entries_map(word_list(word_list_text@)->0)),
            )),
    {
        match parse_word_list(word_list_text) {
            Some(entries) => EnglishToRunes::new(entries),
            None => None,
        }
    }

    /// The dictionary.
    pub fn english_to_ipa(&self) -> (r: &Dictionary)
        ensures
            r@ == self.dict(),
    {
        &self.english_to_ipa
    }

    /// The ambiguity table.
    pub fn ambiguity_map(&self) -> (r: &AmbiguityMap)
        ensures
            r@ == self.table(),
    {
        &self.ambiguity_map
    }

    fn render_unit_exec(&self, unit: &(Vec<char>, bool)) -> (r: Vec<char>)
        ensures
            r@ == render_unit((unit.0@, unit.1), self.table()),
    {
        if unit.1 {
            translate_to_runic(&translate_to_runic_2(&disambiguate_chars(&unit.0, &self.ambiguity_map)))
        } else {
            unit.0.clone()
        }
    }

    fn lookup(&self, word: &Vec<char>) -> (r: Option<Vec<char>>)
        ensures
            r matches Some(t) ==> self.dict().contains_key(word@) && t@ == self.dict()[word@],
            r is None ==> !self.dict().contains_key(word@),
    {
        let key = string_of(word);
        match self.english_to_ipa.get(key.as_str()) {
            Some(t) => Some(chars_of(t.as_str())),
            None => None,
        }
    }

    fn token_text_exec(&self, tok: &Vec<char>) -> (r: Vec<char>)
        ensures
            r@ == token_text(self.dict(), self.table(), tok@),
    {
        let (word, p) = strip_punct(tok);
        match self.lookup(&word) {
            Some(ipa) => {
                let mut unit = handle_ipa_word(&ipa, &word);
                handle_punctuation(p, &mut unit);
                self.render_unit_exec(&unit)
            },
            None => {
                if has_hyphen(&word) {
                    let parts = split_on_exec(&word, '-');
                    let ghost dparts = deep(parts@);
                    let mut out: Vec<char> = Vec::new();
                    let mut dash: Vec<char> = Vec::new();
                    dash.push('-');
                    assert(dash@ =~= seq!['-']);
                    let dash_runes = translate_to_runic(&dash);
                    let mut k: usize = 0;
                    while k < parts.len()
                        invariant
                            k <= parts.len(),
                            dparts == deep(parts@),
                            dash_runes@ == runic(seq!['-']),
                            out@ == hyphen_text(self.dict(), self.table(), word@, dparts, k as nat, p),
                        decreases parts.len() - k,
                    {
                        let part = &parts[k];
                        assert(part@ == dparts[k as int]);
                        let mut unit = match self.lookup(part) {
                            Some(ipa) => handle_ipa_word(&ipa, &word),
                            None => (part.clone(), false),
                        };
                        if k + 1 == parts.len() {
                            handle_punctuation(p, &mut unit);
                        }
                        if k > 0 {
                            append(&mut out, &dash_runes);
                        }
                        let text = self.render_unit_exec(&unit);
                        append(&mut out, &text);
                        k = k + 1;
                    }
                    out
                } else {
                    let mut unit = (word, false);
                    handle_punctuation(p, &mut unit);
                    unit.0
                }
            },
        }
    }

    /// The translation that a browser host asks for; the same as `translate`.
    pub fn translate_js(&self, words: String) -> (r: String)
        ensures
            r@ == translation(self.dict(), self.table(), words@),
    {
        self.translate(words)
    }

    /// Translates a text to runes: each token by the dictionary, with the
    /// whitespace between tokens kept and spaces turned into word separators.
    pub fn translate(&self, words: String) -> (r: String)
        ensures
            r@ == translation(self.dict(), self.table(), words@),
    {
        let lowered_chars = lower_exec(&chars_of(words.as_str()));
        let (runs, toks) = parse_whitespace(&lowered_chars);
        let ghost druns = deep(runs@);
        let ghost dtoks = deep(toks@);
        let mut out: Vec<char> = translate_to_runic(&runs[0]);
        let mut i: usize = 0;
        while i < toks.len()
            invariant
                i <= toks.len(),
                runs.len() == toks.len() + 1,
                druns == deep(runs@),
                dtoks == deep(toks@),
                out@ == rendered(self.dict(), self.table(), druns, dtoks, i as nat),
            decreases toks.len() - i,
        {
            let tok = &toks[i];
            assert(tok@ == dtoks[i as int]);
            let text = self.token_text_exec(tok);
            append(&mut out, &text);
            let (_word, p) = strip_punct(tok);
            let run = suppress_exec(&runs[i + 1], p.is_some());
            assert(runs[i + 1 as int]@ == druns[i + 1]);
            let rendered_run = translate_to_runic(&run);
            append(&mut out, &rendered_run);
            i = i + 1;
        }
        string_of(&out)
    }
}

} // verus!
