use vstd::hash_map::StringHashMap;
use vstd::prelude::*;

verus! {

/// A phonetic dictionary: lowercase words and their transcriptions, with the
/// words also kept in order of first insertion so that they can be walked.
pub struct Dictionary {
    words: Vec<String>,
    ipa: StringHashMap<String>,
}

impl View for Dictionary {
    type V = Map<Seq<char>, Seq<char>>;

    closed spec fn view(&self) -> Map<Seq<char>, Seq<char>> {
        Map::new(|w: Seq<char>| self.ipa@.contains_key(w), |w: Seq<char>| self.ipa@[w]@)
    }
}

impl Dictionary {
    /// The words, each once, and exactly those of the map.
    pub closed spec fn wf(&self) -> bool {
        &&& forall|i: int, j: int|
            0 <= i < j < self.words.len() ==> self.words@[i]@ != self.words@[j]@
        &&& forall|i: int| 0 <= i < self.words.len() ==> self.ipa@.contains_key(#[trigger] self.words@[i]@)
        &&& forall|w: Seq<char>|
            self.ipa@.contains_key(w) ==> exists|i: int|
                0 <= i < self.words.len() && #[trigger] self.words@[i]@ == w
    }

    /// The number of words.
    pub closed spec fn spec_len(&self) -> nat {
        self.words.len() as nat
    }

    /// The word at a position of the walk.
    pub closed spec fn word(&self, i: int) -> Seq<char> {
        self.words@[i]@
    }

    /// The walk visits exactly the dictionary's words.
    pub proof fn lemma_walk(&self)
        requires
            self.wf(),
        ensures
            forall|i: int| 0 <= i < self.spec_len() ==> self@.contains_key(#[trigger] self.word(i)),
            forall|w: Seq<char>|
                self@.contains_key(w) ==> exists|i: int| 0 <= i < self.spec_len() && #[trigger] self.word(i) == w,
    {
        assert forall|w: Seq<char>| self@.contains_key(w) implies exists|i: int|
            0 <= i < self.spec_len() && #[trigger] self.word(i) == w by {
            let i = choose|i: int| 0 <= i < self.words.len() && #[trigger] self.words@[i]@ == w;
            assert(self.word(i) == w);
        }
    }

    /// An empty dictionary.
    pub fn new() -> (r: Dictionary)
        ensures
            r.wf(),
            r@ == Map::<Seq<char>, Seq<char>>::empty(),
    {
        let r = Dictionary { words: Vec::new(), ipa: StringHashMap::new() };
        assert(r@ =~= Map::<Seq<char>, Seq<char>>::empty());
        r
    }

    /// Sets the transcription of a word, replacing any earlier one.
    pub fn insert(&mut self, word: String, ipa: String)
        requires
            old(self).wf(),
        ensures
            final(self).wf(),
            final(self)@ == old(self)@.insert(word@, ipa@),
    {
        if !self.ipa.contains_key(word.as_str()) {
            self.words.push(word.clone());
        }
        self.ipa.insert(word, ipa);
        assert forall|w: Seq<char>| self.ipa@.contains_key(w) implies exists|i: int|
            0 <= i < self.words.len() && #[trigger] self.words@[i]@ == w by {
            if w != word@ {
                let i = choose|i: int| 0 <= i < old(self).words.len() && #[trigger] old(self).words@[i]@ == w;
                assert(self.words@[i]@ == w);
            } else if old(self).ipa@.contains_key(w) {
                let i = choose|i: int| 0 <= i < old(self).words.len() && #[trigger] old(self).words@[i]@ == w;
                assert(self.words@[i]@ == w);
            } else {
                assert(self.words@[self.words.len() - 1]@ == w);
            }
        }
        assert(self@ =~= old(self)@.insert(word@, ipa@));
    }

    /// The transcription of a word, if the dictionary holds it.
    pub fn get(&self, word: &str) -> (r: Option<&String>)
        ensures
            r matches Some(t) ==> self@.contains_key(word@) && t@ == self@[word@],
            r is None ==> !self@.contains_key(word@),
    {
        self.ipa.get(word)
    }

    /// The number of words.
    pub fn len(&self) -> (r: usize)
        ensures
            r == self.spec_len(),
    {
        self.words.len()
    }

    /// The word at a position of the walk, with its transcription.
    pub fn entry(&self, i: usize) -> (r: (&String, &String))
        requires
            self.wf(),
            i < self.spec_len(),
        ensures
            r.0@ == self.word(i as int),
            self@.contains_key(r.0@),
            r.1@ == self@[r.0@],
    {
        let w = &self.words[i];
        let t = self.ipa.get(w.as_str());
        match t {
            Some(t) => (w, t),
            None => {
                assert(false);
                (w, w)
            },
        }
    }
}

} // verus!
