use rust_futhorc::word_list::parse_word_list;
use rust_futhorc::{
    collapse_key, detect_ambiguities, disambiguate, words_to_runes, Dictionary, EnglishToRunes,
};

fn translator(list: &[(&str, &str)]) -> EnglishToRunes {
    let entries = list.iter().map(|(w, t)| (w.to_string(), t.to_string())).collect();
    EnglishToRunes::new(entries).unwrap()
}

#[test]
fn shape_ignores_voicing() {
    assert_eq!(collapse_key(&"lif".to_string()), collapse_key(&"liv".to_string()));
    assert_eq!(collapse_key(&"lus".to_string()), collapse_key(&"luz".to_string()));
    assert_eq!(collapse_key(&"livz".to_string()), collapse_key(&"lifs".to_string()));
    assert_ne!(collapse_key(&"lif".to_string()), collapse_key(&"lis".to_string()));
    let once = collapse_key(&"vaz".to_string());
    assert_eq!(collapse_key(&once), once);
}

#[test]
fn unknown_words_pass_through() {
    let t = translator(&[("leaf", "ˈlif")]);
    assert_eq!(t.translate("xyzzy".to_string()), "xyzzy");
    assert_eq!(t.translate("qwerty,".to_string()), "qwerty,");
    assert_eq!(t.translate("plugh".to_string()), "plugh");
}

#[test]
fn whitespace_structure_kept() {
    let t = translator(&[("leaf", "ˈlif"), ("no", "ˈnoʊ")]);
    assert_eq!(t.translate("  no\tleaf \n no  ".to_string()), "᛫᛫ᚾᚩ\tᛚᛁᛁᚠ᛫\n᛫ᚾᚩ᛫᛫");
    assert_eq!(t.translate("".to_string()), "");
    assert_eq!(t.translate("no, no".to_string()), "ᚾᚩ, ᚾᚩ");
}

#[test]
fn voicing_pair_is_ambiguous() {
    let t = translator(&[("leaf", "ˈlif"), ("leave", "ˈliv"), ("leaves", "ˈlivz")]);
    assert_eq!(t.translate("leaf".to_string()), "ᛚᛁᛁᚠᚠ");
    assert_eq!(t.translate("leave".to_string()), "ᛚᛁᛁᚠ");
    assert_eq!(t.translate("leaves".to_string()), "ᛚᛁᛁᚠᛋ");
    let alone = translator(&[("leaf", "ˈlif")]);
    assert_eq!(alone.translate("leaf".to_string()), "ᛚᛁᛁᚠ");
}

#[test]
fn disambiguate_marks_flagged_positions() {
    let t = translator(&[("leaf", "ˈlif"), ("leave", "ˈliv"), ("loose", "lus")]);
    assert_eq!(disambiguate("ˈlif", t.ambiguity_map()), "lif");
    assert_eq!(disambiguate("ˈliv", t.ambiguity_map()), "liv");
    assert_eq!(disambiguate("lus", t.ambiguity_map()), "luz");
    assert_eq!(disambiguate("sæfs", t.ambiguity_map()), "zævz");
}

#[test]
fn know_has_three_runes() {
    let t = translator(&[("no", "ˈnoʊ")]);
    assert_eq!(t.translate("no".to_string()), "ᚾᚩ");
    assert_eq!(t.translate("know".to_string()), "ᚾᚩᚹ");
    assert_ne!(t.translate("no".to_string()), t.translate("know".to_string()));
}

#[test]
fn contractions_elide_the_vowel() {
    let t = translator(&[("he'll", "ˈhiəl"), ("who'll", "ˈhuəl"), ("she'll", "ˈʃil")]);
    assert_eq!(t.translate("he'll".to_string()), "ᚻᛁ'ᛚ");
    assert_eq!(t.translate("who'll".to_string()), "ᚻᚣ'ᛚ");
    assert_eq!(t.translate("she'll".to_string()), "ᛋᚻᛁ'ᛚ");
}

#[test]
fn letter_x_marks_ks() {
    let t = translator(&[
        ("tax", "ˈtæks"),
        ("taxes", "ˈtæksəz"),
        ("racks", "ˈɹæks"),
        ("xerox", "ˈzɪɹɑks"),
        ("exacts", "ɪgˈzækts"),
        ("taxicabs", "ˈtæksikæbz"),
    ]);
    assert_eq!(t.translate("tax".to_string()), "ᛏᚫᛉ");
    assert_eq!(t.translate("taxes".to_string()), "ᛏᚫᛉᚢᛋ");
    assert_eq!(t.translate("racks".to_string()), "ᚱᚫᚳᛋ");
    assert_eq!(t.translate("xerox".to_string()), "ᛋᛁᛁᚱᛟᛉ");
    assert_eq!(t.translate("exacts".to_string()), "ᛁᚷᛋᚫᚳᛏᛋ");
    assert_eq!(t.translate("taxicabs".to_string()), "ᛏᚫᛉᛁᛁᚳᚫᛒᛋ");
}

#[test]
fn translation_is_deterministic() {
    let t = translator(&[("leaf", "ˈlif"), ("leave", "ˈliv")]);
    let a = t.translate("Leaf, leave: leaf-leave!".to_string());
    let b = t.translate("Leaf, leave: leaf-leave!".to_string());
    assert_eq!(a, b);
    assert_eq!(a, "ᛚᛁᛁᚠ, ᛚᛁᛁᚠ: ᛚᛁᛁᚠᚠ-ᛚᛁᛁᚠ!");
}

#[test]
fn hyphenated_words_split() {
    let t = translator(&[("heart", "ˈhɑɹt"), ("ache", "ˈeɪk")]);
    assert_eq!(t.translate("heart-ache,".to_string()), "ᚻᚪᚱᛏ-ᛠᚳ,");
    assert_eq!(t.translate("heart-zzz".to_string()), "ᚻᚪᚱᛏ-zzz");
}

#[test]
fn single_letters_stay_literal() {
    let t = translator(&[("b", "ˈbi"), ("i", "ˈaɪ")]);
    assert_eq!(t.translate("b".to_string()), "b");
    assert_eq!(t.translate("i".to_string()), "ᛡ");
    assert_eq!(t.translate("a".to_string()), "ᚢ");
}

#[test]
fn ligatures_apply() {
    let t = translator(&[("stone", "ˈstoʊn"), ("quick", "ˈkwɪk")]);
    assert_eq!(t.translate("stone".to_string()), "ᛥᚩᚾ");
    assert_eq!(t.translate("quick".to_string()), "ᛢᛁᚳ");
}

#[test]
fn empty_transcription_is_refused() {
    assert!(EnglishToRunes::new(vec![("oops".to_string(), "ˈ".to_string())]).is_none());
    assert!(words_to_runes("oops, ˈ\n", "oops".to_string()).is_none());
    let out = words_to_runes("leaf, ˈlif\nXXXXX\n", "Leaf".to_string());
    assert_eq!(out, Some("ᛚᛁᛁᚠ".to_string()));
}

#[test]
fn word_list_lines() {
    let parsed = parse_word_list("leaf,\tˈlif\r\nXXXXX\n  leave,  ˈliv  extra\n").unwrap();
    assert_eq!(
        parsed,
        vec![
            ("leaf".to_string(), "ˈlif".to_string()),
            ("leave".to_string(), "ˈliv".to_string())
        ]
    );
    assert_eq!(parse_word_list(""), Some(vec![]));
    assert_eq!(parse_word_list("leaf,\n"), None);
    assert_eq!(parse_word_list("\nleaf, lif"), None);
    let t = EnglishToRunes::from_word_list("leaf, ˈlif\nleave, ˈliv\n").unwrap();
    assert_eq!(t.translate("leaf leave".to_string()), "ᛚᛁᛁᚠᚠ᛫ᛚᛁᛁᚠ");
    assert!(EnglishToRunes::from_word_list("leaf\n").is_none());
}

#[test]
fn dictionary_keeps_last_entry() {
    let mut d = Dictionary::new();
    d.insert("leaf".to_string(), "lif".to_string());
    d.insert("leaf".to_string(), "liv".to_string());
    assert_eq!(d.len(), 1);
    assert_eq!(d.get("leaf"), Some(&"liv".to_string()));
    assert_eq!(d.get("leave"), None);
}

#[test]
fn detector_lists_ambiguous_positions() {
    let mut d = Dictionary::new();
    d.insert("leaf".to_string(), "ˈlif".to_string());
    d.insert("leave".to_string(), "ˈliv".to_string());
    d.insert("safe".to_string(), "ˈseɪf".to_string());
    d.insert("save".to_string(), "ˈseɪv".to_string());
    d.insert("zave".to_string(), "ˈzeɪv".to_string());
    d.insert("ask".to_string(), "ˈæsk".to_string());
    let table = detect_ambiguities(&d);
    let leaf = table.get(collapse_key(&"lif".to_string()).as_str()).unwrap();
    assert_eq!(leaf.len(), 1);
    assert_eq!(leaf.get(0), Some(2));
    assert_eq!(leaf.get(1), None);
    let safe = table.get("seɪf").unwrap();
    assert_eq!(safe.len(), 2);
    assert_eq!(safe.get(0), Some(0));
    assert_eq!(safe.get(1), Some(3));
    assert!(table.get("æsk").is_none());
    assert!(!table.contains_key("æzk"));
}

#[test]
fn long_words_are_tracked_to_the_bound() {
    let long_f = format!("{}f", "a".repeat(40));
    let long_v = format!("{}v", "a".repeat(40));
    let mut d = Dictionary::new();
    d.insert("one".to_string(), long_f.clone());
    d.insert("two".to_string(), long_v);
    let table = detect_ambiguities(&d);
    assert!(table.get(collapse_key(&long_f).as_str()).is_none());
}
