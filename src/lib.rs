//! Transliteration of English text into the Anglo-Saxon runic alphabet, by
//! way of a phonetic dictionary and a fixed set of phonological rules.

pub mod ambiguity;
pub mod dictionary;
pub mod futhorc;
pub mod phonetic;
pub mod positions;
pub mod runes;
pub mod sentence;
pub mod text;
pub mod word_list;
pub mod words;

pub use ambiguity::detect_ambiguities;
pub use dictionary::Dictionary;
pub use futhorc::{words_to_runes, EnglishToRunes};
pub use phonetic::{collapse_key, disambiguate, AmbiguityMap, CollapsedKey};
pub use positions::Ambiguities;
