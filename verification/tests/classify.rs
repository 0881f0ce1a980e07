use furigana_html::classify::{classify, needs_reading, CharClass};

#[test]
fn kanji_are_ideographs() {
    for c in "日本語難漢字澄".chars() {
        assert_eq!(classify(c), CharClass::Ideograph);
        assert!(needs_reading(c));
    }
}

#[test]
fn hiragana_are_syllabic_kana() {
    for c in "あがしいですよんゟ".chars() {
        assert_eq!(classify(c), CharClass::SyllabicKana);
        assert!(needs_reading(c));
    }
}

#[test]
fn katakana_get_no_reading() {
    for c in "アカタナンヿ゠".chars() {
        assert_eq!(classify(c), CharClass::Other);
        assert!(!needs_reading(c));
    }
}

#[test]
fn ascii_and_punctuation_get_no_reading() {
    for c in "aZ09 <>,\"\\/=\n\t。、「」！？Ａ１".chars() {
        assert_eq!(classify(c), CharClass::Other);
        assert!(!needs_reading(c));
    }
}

#[test]
fn unified_ideographs_run_from_4e00_to_9ffc() {
    assert_eq!(classify('\u{4dff}'), CharClass::Other);
    assert_eq!(classify('\u{4e00}'), CharClass::Ideograph);
    assert_eq!(classify('\u{9ffc}'), CharClass::Ideograph);
    assert_eq!(classify('\u{9ffd}'), CharClass::Other);
}

#[test]
fn compatibility_ideographs_run_from_f900_to_faff() {
    assert_eq!(classify('\u{f8ff}'), CharClass::Other);
    assert_eq!(classify('\u{f900}'), CharClass::Ideograph);
    assert_eq!(classify('\u{faff}'), CharClass::Ideograph);
    assert_eq!(classify('\u{fb00}'), CharClass::Other);
}

#[test]
fn ideographs_of_the_extensions_get_no_reading() {
    assert_eq!(classify('\u{3400}'), CharClass::Other);
    assert_eq!(classify('\u{4dbf}'), CharClass::Other);
    assert_eq!(classify('\u{20000}'), CharClass::Other);
}

#[test]
fn hiragana_run_from_3041_to_309f() {
    assert_eq!(classify('\u{3040}'), CharClass::Other);
    assert_eq!(classify('\u{3041}'), CharClass::SyllabicKana);
    assert_eq!(classify('\u{309f}'), CharClass::SyllabicKana);
    assert_eq!(classify('\u{30a0}'), CharClass::Other);
}

#[test]
fn a_reading_goes_with_the_two_classes_only() {
    for code in (0u32..0x3_2000).step_by(7) {
        if let Some(c) = char::from_u32(code) {
            assert_eq!(needs_reading(c), classify(c) != CharClass::Other);
        }
    }
}
