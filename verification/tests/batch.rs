use furigana_html::batch::{
    count_readings_needed, hiragana_request_body, join_sentence, readings_from_response,
    readings_needed, split_readings, ApiConfig, HiraganaResp, DELIMITER,
};
use furigana_html::error::PipelineError;
use furigana_html::segment::{analyze_jp, Segment};

fn strings(items: &[&str]) -> Vec<String> {
    items.iter().map(|s| s.to_string()).collect()
}

fn answer(converted: &str) -> HiraganaResp {
    HiraganaResp {
        converted: converted.to_string(),
        output_type: "hiragana".to_string(),
        request_id: "labs.goo.ne.jp\t1600000000\t0".to_string(),
    }
}

#[test]
fn the_delimiter_is_a_comma() {
    assert_eq!(DELIMITER, ',');
}

#[test]
fn the_runs_with_a_reading_are_collected_in_order() {
    let parts = vec![
        Segment { content: "<p>".to_string(), needs_reading: false },
        Segment { content: "東京".to_string(), needs_reading: true },
        Segment { content: " and ".to_string(), needs_reading: false },
        Segment { content: "大阪".to_string(), needs_reading: true },
    ];
    assert_eq!(readings_needed(&parts), strings(&["東京", "大阪"]));
    assert_eq!(count_readings_needed(&parts), 2);
    assert_eq!(readings_needed(&Vec::new()), Vec::<String>::new());
    assert_eq!(count_readings_needed(&Vec::new()), 0);
}

#[test]
fn joining_puts_the_delimiter_between_neighbours() {
    assert_eq!(join_sentence(&strings(&[])), "");
    assert_eq!(join_sentence(&strings(&["東京"])), "東京");
    assert_eq!(join_sentence(&strings(&["東京", "大阪", "京都"])), "東京,大阪,京都");
    assert_eq!(join_sentence(&strings(&["", ""])), ",");
}

#[test]
fn splitting_cuts_at_every_delimiter() {
    assert_eq!(split_readings("とうきょう,おおさか"), strings(&["とうきょう", "おおさか"]));
    assert_eq!(split_readings("とうきょう"), strings(&["とうきょう"]));
    assert_eq!(split_readings(""), strings(&[""]));
    assert_eq!(split_readings(","), strings(&["", ""]));
    assert_eq!(split_readings("a,b,"), strings(&["a", "b", ""]));
    assert_eq!(split_readings(",a,,b"), strings(&["", "a", "", "b"]));
}

#[test]
fn splitting_agrees_with_the_standard_library() {
    for text in ["", ",", "a", "a,b", "a,,b,", ",,,", "にほん,ご", "x,y,z,"] {
        let expected: Vec<String> = text.split(',').map(|s| s.to_string()).collect();
        assert_eq!(split_readings(text), expected);
    }
}

#[test]
fn joining_what_was_split_gives_the_text_back() {
    for text in ["", ",", "a", "a,b", "a,,b,", ",,,", "にほん,ご"] {
        assert_eq!(join_sentence(&split_readings(text)), text);
    }
}

#[test]
fn splitting_what_was_joined_gives_the_entries_back() {
    for items in [strings(&["東京"]), strings(&["東京", "大阪"]), strings(&["", "a", ""])] {
        assert_eq!(split_readings(&join_sentence(&items)), items);
    }
}

#[test]
fn the_sentence_of_a_document_splits_into_its_runs() {
    let (parts, sentence) = analyze_jp("<p>吾輩は<b>猫</b>である。名前はまだ無い。</p>");
    assert_eq!(split_readings(&sentence), readings_needed(&parts));
    assert_eq!(split_readings(&sentence).len(), 4);
    assert!(!sentence.contains('"') && !sentence.contains('\\'));
}

#[test]
fn the_request_body_names_the_three_fields() {
    let config = ApiConfig { app_id: "0123abcd".to_string(), output_type: "hiragana".to_string() };
    assert_eq!(
        hiragana_request_body(&config, "東京,大阪"),
        "{\"app_id\": \"0123abcd\",\"sentence\": \"東京,大阪\",\"output_type\": \"hiragana\"}"
    );
    let empty = ApiConfig { app_id: String::new(), output_type: String::new() };
    assert_eq!(
        hiragana_request_body(&empty, ""),
        "{\"app_id\": \"\",\"sentence\": \"\",\"output_type\": \"\"}"
    );
}

#[test]
fn the_request_body_is_a_json_object() {
    let config = ApiConfig { app_id: "id".to_string(), output_type: "katakana".to_string() };
    let body = hiragana_request_body(&config, "漢字");
    let value: serde_json::Value = serde_json::from_str(&body).unwrap();
    assert_eq!(value.get("app_id").and_then(|v| v.as_str()), Some("id"));
    assert_eq!(value.get("sentence").and_then(|v| v.as_str()), Some("漢字"));
    assert_eq!(value.get("output_type").and_then(|v| v.as_str()), Some("katakana"));
}

#[test]
fn an_answer_with_one_reading_for_each_run_is_taken() {
    assert_eq!(
        readings_from_response(&answer("とうきょう,おおさか"), 2),
        Ok(strings(&["とうきょう", "おおさか"]))
    );
    assert_eq!(readings_from_response(&answer(""), 1), Ok(strings(&[""])));
}

#[test]
fn an_answer_with_too_few_or_too_many_readings_is_refused() {
    assert_eq!(
        readings_from_response(&answer("とうきょう"), 2),
        Err(PipelineError::AlignmentMismatch { expected: 2, found: 1 })
    );
    assert_eq!(
        readings_from_response(&answer("とうきょう,おおさか,"), 2),
        Err(PipelineError::AlignmentMismatch { expected: 2, found: 3 })
    );
    assert_eq!(
        readings_from_response(&answer(""), 0),
        Err(PipelineError::AlignmentMismatch { expected: 0, found: 1 })
    );
}
