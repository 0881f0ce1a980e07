use furigana_html::segment::{analyze_jp, next_region, segment_text, Region, Segment};

fn run(content: &str, needs_reading: bool) -> Segment {
    Segment { content: content.to_string(), needs_reading }
}

fn contents(segments: &[Segment]) -> String {
    segments.iter().map(|s| s.content.as_str()).collect()
}

const PAGE: &str = "<!DOCTYPE html>\n<html lang=\"ja\"><head><title>日本語のページ</title></head>\n<body>\n<h1>吾輩は猫である</h1>\n<p class=\"本文\">名前はまだ無い。どこで生れたかとんと見当がつかぬ。</p>\n<img alt=\"猫の写真\" src=\"neko.png\">\n<p>カタカナ and English, 1 > 0</p>\n</body></html>\n";

#[test]
fn the_scan_enters_a_text_node_at_a_closing_bracket() {
    assert_eq!(next_region(Region::Markup, '>'), Region::TextNode);
    assert_eq!(next_region(Region::TextNode, '>'), Region::TextNode);
}

#[test]
fn the_scan_enters_markup_at_an_opening_bracket() {
    assert_eq!(next_region(Region::TextNode, '<'), Region::Markup);
    assert_eq!(next_region(Region::Markup, '<'), Region::Markup);
}

#[test]
fn the_scan_stays_where_it_is_at_any_other_character() {
    assert_eq!(next_region(Region::TextNode, '日'), Region::TextNode);
    assert_eq!(next_region(Region::Markup, '日'), Region::Markup);
    assert_eq!(next_region(Region::Markup, 'a'), Region::Markup);
}

#[test]
fn an_empty_document_has_no_segment() {
    assert_eq!(segment_text("", Region::Markup), Vec::<Segment>::new());
    assert_eq!(segment_text("", Region::TextNode), Vec::<Segment>::new());
    let (parts, sentence) = analyze_jp("");
    assert!(parts.is_empty());
    assert_eq!(sentence, "");
}

#[test]
fn a_paragraph_is_cut_around_its_japanese_word() {
    let (parts, sentence) = analyze_jp("<p>Hello 日本 World</p>");
    assert_eq!(parts, vec![run("<p>Hello ", false), run("日本", true), run(" World</p>", false)]);
    assert_eq!(sentence, "日本");
}

#[test]
fn a_text_node_of_kanji_and_kana_is_one_segment() {
    let parts = segment_text("日本語が難しいですよ", Region::TextNode);
    assert_eq!(parts, vec![run("日本語が難しいですよ", true)]);
}

#[test]
fn what_precedes_the_first_closing_bracket_is_markup() {
    let (parts, sentence) = analyze_jp("日本語が難しいですよ");
    assert_eq!(parts, vec![run("日本語が難しいですよ", false)]);
    assert_eq!(sentence, "");
    let (parts, _) = analyze_jp("日本>日本");
    assert_eq!(parts, vec![run("日本>", false), run("日本", true)]);
}

#[test]
fn the_last_run_of_a_document_keeps_its_reading() {
    let (parts, sentence) = analyze_jp("<p>東京");
    assert_eq!(parts, vec![run("<p>", false), run("東京", true)]);
    assert_eq!(sentence, "東京");
}

#[test]
fn markup_at_the_end_of_a_document_is_kept() {
    let (parts, _) = analyze_jp("<p>東京<br");
    assert_eq!(parts, vec![run("<p>", false), run("東京", true), run("<br", false)]);
}

#[test]
fn kanji_in_an_attribute_get_no_reading() {
    let (parts, sentence) = analyze_jp("<img alt=\"猫\">猫<b title=\"犬\">犬</b>");
    assert_eq!(
        parts,
        vec![
            run("<img alt=\"猫\">", false),
            run("猫", true),
            run("<b title=\"犬\">", false),
            run("犬", true),
            run("</b>", false),
        ]
    );
    assert_eq!(sentence, "猫,犬");
}

#[test]
fn a_closing_bracket_in_a_text_node_is_plain_text() {
    let (parts, _) = analyze_jp("<p>大>小</p>");
    assert_eq!(
        parts,
        vec![run("<p>", false), run("大", true), run(">", false), run("小", true), run("</p>", false)]
    );
}

#[test]
fn kana_and_kanji_share_a_run_and_katakana_ends_it() {
    let (parts, sentence) = analyze_jp("<p>吾輩はネコである。</p>");
    assert_eq!(
        parts,
        vec![
            run("<p>", false),
            run("吾輩は", true),
            run("ネコ", false),
            run("である", true),
            run("。</p>", false),
        ]
    );
    assert_eq!(sentence, "吾輩は,である");
}

#[test]
fn neighbouring_tags_and_plain_text_share_a_segment() {
    let (parts, _) = analyze_jp("<div><p>abc</p><p>def</p></div>");
    assert_eq!(parts, vec![run("<div><p>abc</p><p>def</p></div>", false)]);
}

#[test]
fn the_contents_of_the_segments_are_the_document() {
    for text in [PAGE, "", "日本", ">日本<", "<<>>猫<>犬><", "a>あ<い>う", "<p>東京"] {
        for start in [Region::Markup, Region::TextNode] {
            assert_eq!(contents(&segment_text(text, start)), text);
        }
        assert_eq!(contents(&analyze_jp(text).0), text);
    }
}

#[test]
fn no_segment_is_empty_and_neighbours_differ() {
    for text in [PAGE, "日本", ">日本<", "<<>>猫<>犬><", "a>あ<い>う"] {
        for start in [Region::Markup, Region::TextNode] {
            let parts = segment_text(text, start);
            assert!(parts.iter().all(|s| !s.content.is_empty()));
            assert!(parts.windows(2).all(|w| w[0].needs_reading != w[1].needs_reading));
        }
    }
}

#[test]
fn a_segment_with_a_reading_holds_kanji_and_hiragana_only() {
    let (parts, _) = analyze_jp(PAGE);
    let with_reading: Vec<&str> =
        parts.iter().filter(|s| s.needs_reading).map(|s| s.content.as_str()).collect();
    assert_eq!(
        with_reading,
        vec![
            "日本語の",
            "吾輩は猫である",
            "名前はまだ無い",
            "どこで生れたかとんと見当がつかぬ",
        ]
    );
    for part in &parts {
        if part.needs_reading {
            assert!(part.content.chars().all(furigana_html::classify::needs_reading));
        }
    }
}

#[test]
fn a_plain_segment_of_a_text_node_holds_neither() {
    let parts = segment_text("犬とネコ, cats and 猫。", Region::TextNode);
    assert_eq!(
        parts,
        vec![run("犬と", true), run("ネコ, cats and ", false), run("猫", true), run("。", false)]
    );
    for part in &parts {
        if !part.needs_reading {
            assert!(!part.content.chars().any(furigana_html::classify::needs_reading));
        }
    }
}

#[test]
fn the_sentence_joins_the_runs_in_their_order() {
    let (parts, sentence) = analyze_jp(PAGE);
    assert_eq!(
        sentence,
        "日本語の,吾輩は猫である,名前はまだ無い,どこで生れたかとんと見当がつかぬ"
    );
    assert_eq!(parts.iter().filter(|s| s.needs_reading).count(), 4);
}
