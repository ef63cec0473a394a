use rust_futhorc::EnglishToRunes;

fn entries() -> Vec<(String, String)> {
    let list = [
        ("no", "ˈnoʊ"),
        ("apple", "ˈæpəl"),
        ("banana", "bəˈnænə"),
        ("carrot", "ˈkæɹət"),
        ("abram's", "ˈeɪbɹəmz"),
        ("absolut's", "ˈæbsəˌluts"),
        ("company'll", "ˈkʌmpəniəl"),
        ("he'll", "ˈhil"),
        ("comma", "ˈkɑmə"),
        ("bottle", "ˈbɑtəl"),
        ("wheel", "ˈwil"),
        ("any", "ˈɛni"),
        ("lady's", "ˈleɪdiz"),
        ("we'll", "ˈwil"),
        ("immigrants'", "ˈɪmɪgɹənts"),
        ("who'd", "ˈhud"),
        ("it'd", "ˈɪtʌd"),
        ("that'd", "ˈðætʌd"),
        ("who'll", "ˈhul"),
        ("who're", "ˈhuɹ"),
        ("who's", "ˈhuz"),
        ("who've", "ˈhuv"),
        ("should've", "ˈʃʊdəv"),
        ("leaves", "ˈlivz"),
        ("leaf", "ˈlif"),
        ("leave", "ˈliv"),
        ("lose", "ˈluz"),
        ("loose", "ˈlus"),
        ("after", "ˈæftɚ"),
        ("ask", "ˈæsk"),
        ("tax", "ˈtæks"),
        ("taxes", "ˈtæksəz"),
        ("racks", "ˈɹæks"),
        ("box", "ˈbɑks"),
        ("boxes", "ˈbɑksəz"),
        ("heart", "ˈhɑɹt"),
        ("ache", "ˈeɪk"),
        ("b", "ˈbi"),
        ("stone", "ˈstoʊn"),
    ];
    list.iter().map(|(w, t)| (w.to_string(), t.to_string())).collect()
}

fn dictionary() -> EnglishToRunes {
    EnglishToRunes::new(entries()).unwrap()
}

#[test]
fn know_no_etc() {
    let dictionary = dictionary();

    let mut words = String::new();
    words.push_str("no");
    let output = dictionary.translate(words);
    assert_eq!(output, "ᚾᚩ");

    let mut words = String::new();
    words.push_str("know");
    let output = dictionary.translate(words);
    assert_eq!(output, "ᚾᚩᚹ");
}

#[test]
fn newlines() {
    let dictionary = dictionary();

    let mut words = String::new();
    words.push_str("apple banana\ncarrot\n\n");
    let output = dictionary.translate(words);
    assert_eq!(output, "ᚫᛈᚢᛚ᛫ᛒᚢᚾᚫᚾᚪ\nᚳᚫᚱᚢᛏ\n\n");
}

#[test]
fn apostrophes() {
    let dictionary = dictionary();

    let mut words = String::new();
    words.push_str("abram's");
    let output = dictionary.translate(words);
    assert_eq!(output, "ᛠᛒᚱᚢᛗ'ᛋ");

    let mut words = String::new();
    words.push_str("absolut's");
    let output = dictionary.translate(words);
    assert_eq!(output, "ᚫᛒᛋᚢᛚᚣᛏ'ᛋ");

    let mut words = String::new();
    words.push_str("company'll");
    let output = dictionary.translate(words);
    assert_eq!(output, "ᚳᚢᛗᛈᚢᚾᛁ'ᛚ");

    let mut words = String::new();
    words.push_str("he'll");
    let output = dictionary.translate(words);
    assert_eq!(output, "ᚻᛁ'ᛚ");
}

#[test]
fn final_schwa() {
    let dictionary = dictionary();

    let mut words = String::new();
    words.push_str("comma");
    let output = dictionary.translate(words);
    assert_eq!(output, "ᚳᛟᛗᚪ");

    let mut words = String::new();
    words.push_str("the");
    let output = dictionary.translate(words);
    assert_eq!(output, "ᚦᛖ");
}

#[test]
fn syllabic_consonants() {
    let dictionary = dictionary();

    let mut words = String::new();
    words.push_str("bottle");
    let output = dictionary.translate(words);
    assert_eq!(output, "ᛒᛟᛏᚢᛚ");
}

#[test]
fn ends_with_i() {
    let dictionary = dictionary();

    let mut words = String::new();
    words.push_str("wheel");
    let output = dictionary.translate(words);
    assert_eq!(output, "ᚹᛁᛁᛚ");

    let mut words = String::new();
    words.push_str("any");
    let output = dictionary.translate(words);
    assert_eq!(output, "ᛖᚾᛁ");
}

#[test]
fn i_apostrophe() {
    let dictionary = dictionary();

    let mut words = String::new();
    words.push_str("lady's");
    let output = dictionary.translate(words);
    assert_eq!(output, "ᛚᛠᛞᛁ'ᛋ");

    let mut words = String::new();
    words.push_str("we'll");
    let output = dictionary.translate(words);
    assert_eq!(output, "ᚹᛁ'ᛚ");
}

#[test]
fn plural_possessive() {
    let dictionary = dictionary();

    let mut words = String::new();
    words.push_str("immigrants'");
    let output = dictionary.translate(words);
    assert_eq!(output, "ᛁᛗᛁᚷᚱᚢᚾᛏᛋ'");
}

#[test]
fn apostrophe_d() {
    let dictionary = dictionary();

    let mut words = String::new();
    words.push_str("who'd");
    let output = dictionary.translate(words);
    assert_eq!(output, "ᚻᚣ'ᛞ");

    let mut words = String::new();
    words.push_str("it'd");
    let output = dictionary.translate(words);
    assert_eq!(output, "ᛁᛏ'ᛞ");

    let mut words = String::new();
    words.push_str("that'd");
    let output = dictionary.translate(words);
    assert_eq!(output, "ᚦᚫᛏ'ᛞ");
}

#[test]
fn other_apostrophes() {
    let dictionary = dictionary();

    let mut words = String::new();
    words.push_str("who'd");
    let output = dictionary.translate(words);
    assert_eq!(output, "ᚻᚣ'ᛞ");

    let mut words = String::new();
    words.push_str("who'll");
    let output = dictionary.translate(words);
    assert_eq!(output, "ᚻᚣ'ᛚ");

    let mut words = String::new();
    words.push_str("who're");
    let output = dictionary.translate(words);
    assert_eq!(output, "ᚻᚣ'ᚱ");

    let mut words = String::new();
    words.push_str("who's");
    let output = dictionary.translate(words);
    assert_eq!(output, "ᚻᚣ'ᛋ");

    let mut words = String::new();
    words.push_str("who've");
    let output = dictionary.translate(words);
    assert_eq!(output, "ᚻᚣ'ᚠ");

    let mut words = String::new();
    words.push_str("should've");
    let output = dictionary.translate(words);
    assert_eq!(output, "ᛋᚻᚣᛞ'ᚠ");
}

#[test]
fn ambiguity() {
    let dictionary = dictionary();

    let mut words = String::new();
    words.push_str("leaves");
    let output = dictionary.translate(words);
    assert_eq!(output, "ᛚᛁᛁᚠᛋ");

    let mut words = String::new();
    words.push_str("leaf");
    let output = dictionary.translate(words);
    assert_eq!(output, "ᛚᛁᛁᚠᚠ");

    let mut words = String::new();
    words.push_str("leave");
    let output = dictionary.translate(words);
    assert_eq!(output, "ᛚᛁᛁᚠ");

    let mut words = String::new();
    words.push_str("lose");
    let output = dictionary.translate(words);
    assert_eq!(output, "ᛚᚣᛋ");

    let mut words = String::new();
    words.push_str("loose");
    let output = dictionary.translate(words);
    assert_eq!(output, "ᛚᚣᛋᛋ");
}

#[test]
fn no_ambiguity() {
    let dictionary = dictionary();

    let mut words = String::new();
    words.push_str("after");
    let output = dictionary.translate(words);
    assert_eq!(output, "ᚫᚠᛏᚢᚱ");

    let mut words = String::new();
    words.push_str("ask");
    let output = dictionary.translate(words);
    assert_eq!(output, "ᚫᛋᚳ");
}
