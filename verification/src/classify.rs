//! Classification of Unicode scalar values by script.
//!
//! A character is annotated with a reading only if it is an ideograph (kanji)
//! or a syllabic kana (hiragana). Everything else, katakana included, is left
//! as it is.

use vstd::prelude::*;

verus! {

/// The script class of one Unicode scalar value.
#[derive(Clone, Copy, Debug, PartialEq, Eq, Structural)]
pub enum CharClass {
    /// A kanji: a unified or a compatibility ideograph.
    Ideograph,
    /// A hiragana, marks and digraph of the block included.
    SyllabicKana,
    /// Any other character: ASCII, punctuation, katakana, other scripts.
    Other,
}

/// Whether `c` lies in one of the two blocks of ideographs that count as kanji.
pub open spec fn is_ideograph(c: char) -> bool {
    ||| '\u{4e00}' <= c <= '\u{9ffc}'
    ||| '\u{f900}' <= c <= '\u{faff}'
}

/// Whether `c` lies in the hiragana block.
pub open spec fn is_syllabic_kana(c: char) -> bool {
    '\u{3041}' <= c <= '\u{309f}'
}

/// The class of `c`.
pub open spec fn char_class(c: char) -> CharClass {
    if is_ideograph(c) {
        CharClass::Ideograph
    } else if is_syllabic_kana(c) {
        CharClass::SyllabicKana
    } else {
        CharClass::Other
    }
}

/// Whether `c` is a character that gets a reading.
pub open spec fn is_reading_char(c: char) -> bool {
    is_ideograph(c) || is_syllabic_kana(c)
}

/// `kanji::is_kanji` compares the scalar value against two closed ranges,
/// U+4E00 to U+9FFC and U+F900 to U+FAFF, and does nothing else.
pub assume_specification[ kanji::is_kanji ](c: &char) -> (r: bool)
    ensures
        r == is_ideograph(*c),
;

/// `kanji::is_hiragana` compares the scalar value against the closed range
/// U+3041 to U+309F, and does nothing else.
pub assume_specification[ kanji::is_hiragana ](c: &char) -> (r: bool)
    ensures
        r == is_syllabic_kana(*c),
;

/// Classifies one character.
pub fn classify(c: char) -> (class: CharClass)
    ensures
        class == char_class(c),
{
    if kanji::is_kanji(&c) {
        CharClass::Ideograph
    } else if kanji::is_hiragana(&c) {
        CharClass::SyllabicKana
    } else {
        CharClass::Other
    }
}

/// Tells whether a character gets a reading.
pub fn needs_reading(c: char) -> (r: bool)
    ensures
        r == is_reading_char(c),
        r == (char_class(c) != CharClass::Other),
{
    match classify(c) {
        CharClass::Ideograph => true,
        CharClass::SyllabicKana => true,
        CharClass::Other => false,
    }
}

/// Every character has exactly one class: the two blocks of characters that
/// get a reading do not overlap, and a character gets a reading exactly if
/// its class is one of the two.
pub proof fn lemma_class_is_unique(c: char)
    ensures
        !(is_ideograph(c) && is_syllabic_kana(c)),
        char_class(c) == CharClass::Ideograph <==> is_ideograph(c),
        char_class(c) == CharClass::SyllabicKana <==> is_syllabic_kana(c),
        char_class(c) == CharClass::Other <==> !is_reading_char(c),
{
}

/// Neither the two tag delimiters nor the delimiter of a batch of readings
/// nor the characters that quote a string get a reading.
pub proof fn lemma_delimiters_are_other()
    ensures
        !is_reading_char('<'),
        !is_reading_char('>'),
        !is_reading_char(','),
        !is_reading_char('"'),
        !is_reading_char('\\'),
{
}

/// No ASCII character and no katakana gets a reading.
pub proof fn lemma_ascii_and_katakana_are_other(c: char)
    requires
        c <= '\u{7f}' || '\u{30a0}' <= c <= '\u{30ff}',
    ensures
        char_class(c) == CharClass::Other,
{
}

} // verus!
