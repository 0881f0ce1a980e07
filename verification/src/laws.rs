//! What holds of the steps of the pipeline taken together.

use vstd::prelude::*;
use crate::batch::{
    delimiter_free, joined, lemma_join_then_split, reading_count, readings_needed_of,
    split_tokens, DELIMITER,
};
use crate::classify::is_reading_char;
use crate::reassemble::{annotated, lemma_annotated_without_readings, lemma_none_needs_reading};
use crate::segment::{
    lemma_no_reading_needed, lemma_reading_segments_hold_only_reading_chars,
    lemma_segments_concat_to_text, no_reading_needed, reading_segments_hold_only_reading_chars,
    segmentation, Region, SegmentView,
};

verus! {

/// Whether every character of every entry is an ideograph or a syllabic
/// kana.
pub open spec fn holds_only_reading_chars(items: Seq<Seq<char>>) -> bool {
    forall|i: int, j: int|
        0 <= i < items.len() && 0 <= j < items[i].len() ==> is_reading_char(#[trigger] items[i][j])
}

/// What goes to the reading service holds ideographs and syllabic kana only.
pub proof fn lemma_readings_needed_hold_only_reading_chars(segments: Seq<SegmentView>)
    requires
        reading_segments_hold_only_reading_chars(segments),
    ensures
        holds_only_reading_chars(readings_needed_of(segments)),
    decreases segments.len(),
{
    if segments.len() > 0 {
        let front = segments.drop_last();
        assert(reading_segments_hold_only_reading_chars(front));
        lemma_readings_needed_hold_only_reading_chars(front);
    }
}

/// A document with no character that gets a reading has no segment that
/// gets one, so that the reading service is not asked, and its annotated
/// form is the document itself.
pub proof fn lemma_document_without_readings(
    text: Seq<char>,
    start: Region,
    readings: Seq<Seq<char>>,
)
    requires
        no_reading_needed(text, start),
    ensures
        reading_count(segmentation(text, start)) == 0,
        annotated(segmentation(text, start), readings) == text,
{
    let segments = segmentation(text, start);
    lemma_no_reading_needed(text, start);
    lemma_none_needs_reading(segments);
    lemma_annotated_without_readings(segments, readings);
    lemma_segments_concat_to_text(text, start);
}

/// The sentence that goes to the reading service for a document, cut at the
/// delimiters, gives back the contents of the segments that get a reading:
/// as many entries as the reassembler needs readings, in the same order.
pub proof fn lemma_sentence_splits_back(text: Seq<char>, start: Region)
    requires
        reading_count(segmentation(text, start)) > 0,
    ensures
        split_tokens(joined(readings_needed_of(segmentation(text, start)))) == readings_needed_of(
            segmentation(text, start),
        ),
{
    let segments = segmentation(text, start);
    let items = readings_needed_of(segments);
    lemma_reading_segments_hold_only_reading_chars(text, start);
    lemma_readings_needed_hold_only_reading_chars(segments);
    assert(delimiter_free(items));
    lemma_join_then_split(items);
}

/// The sentence that goes to the reading service holds neither a quotation
/// mark nor a backslash, so that it stands in the body of the request as it
/// is.
pub proof fn lemma_sentence_needs_no_escape(text: Seq<char>, start: Region, j: int)
    requires
        0 <= j < joined(readings_needed_of(segmentation(text, start))).len(),
    ensures
        joined(readings_needed_of(segmentation(text, start)))[j] != '"',
        joined(readings_needed_of(segmentation(text, start)))[j] != '\\',
{
    let segments = segmentation(text, start);
    lemma_reading_segments_hold_only_reading_chars(text, start);
    lemma_readings_needed_hold_only_reading_chars(segments);
    lemma_joined_chars(readings_needed_of(segments), j);
}

proof fn lemma_joined_chars(items: Seq<Seq<char>>, j: int)
    requires
        holds_only_reading_chars(items),
        0 <= j < joined(items).len(),
    ensures
        joined(items)[j] == DELIMITER || is_reading_char(joined(items)[j]),
    decreases items.len(),
{
    if items.len() > 1 {
        let front = items.drop_last();
        if j < joined(front).len() {
            assert(holds_only_reading_chars(front));
            lemma_joined_chars(front, j);
        }
    }
}

} // verus!
