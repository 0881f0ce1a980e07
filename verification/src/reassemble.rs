//! The reassembler: writes the document out again, each run that gets a
//! reading wrapped in ruby markup together with its reading.

use vstd::prelude::*;
use vstd::string::StringExecFns;
use crate::batch::{
    count_readings_needed, reading_count, readings_needed_of, split_readings, split_tokens,
};
use crate::error::PipelineError;
use crate::segment::{concat_contents, Segment, SegmentView};

verus! {

/// A run and its reading in ruby markup.
pub open spec fn ruby_markup(content: Seq<char>, reading: Seq<char>) -> Seq<char> {
    "<ruby><rb>"@ + content + "</rb><rt>"@ + reading + "</rt></ruby>"@
}

/// The place in the list of readings of the reading of segment `k`: the
/// number of segments before it that get a reading.
pub open spec fn reading_index(segments: Seq<SegmentView>, k: int) -> int {
    reading_count(segments.take(k)) as int
}

/// What segment `k` becomes in the annotated document.
pub open spec fn rendered(segments: Seq<SegmentView>, readings: Seq<Seq<char>>, k: int) -> Seq<
    char,
> {
    if segments[k].needs_reading {
        ruby_markup(segments[k].content, readings[reading_index(segments, k)])
    } else {
        segments[k].content
    }
}

/// What the first `n` segments become in the annotated document.
pub open spec fn annotated_prefix(
    segments: Seq<SegmentView>,
    readings: Seq<Seq<char>>,
    n: nat,
) -> Seq<char>
    decreases n,
{
    if n == 0 {
        Seq::empty()
    } else {
        annotated_prefix(segments, readings, (n - 1) as nat) + rendered(segments, readings, n - 1)
    }
}

/// The annotated document.
pub open spec fn annotated(segments: Seq<SegmentView>, readings: Seq<Seq<char>>) -> Seq<char> {
    annotated_prefix(segments, readings, segments.len())
}

/// Writes the document out, each segment that gets a reading wrapped in ruby
/// markup together with the next reading of the list. Fails, and writes
/// nothing, unless the list holds exactly one reading for each such segment.
pub fn reassemble(segments: &Vec<Segment>, readings: &Vec<String>) -> (result: Result<
    String,
    PipelineError,
>)
    ensures
        match result {
            Ok(html) => {
                &&& readings.len() == reading_count(segments.deep_view())
                &&& html@ == annotated(segments.deep_view(), readings.deep_view())
            },
            Err(e) => {
                &&& readings.len() != reading_count(segments.deep_view())
                &&& e == (PipelineError::AlignmentMismatch {
                    expected: reading_count(segments.deep_view()) as usize,
                    found: readings.len(),
                })
            },
        },
{
    let expected = count_readings_needed(segments);
    if readings.len() != expected {
        return Err(PipelineError::AlignmentMismatch { expected, found: readings.len() });
    }
    let ghost all = segments.deep_view();
    let ghost given = readings.deep_view();
    let mut html = String::new();
    let mut cursor: usize = 0;
    for k in 0..segments.len()
        invariant
            all == segments.deep_view(),
            given == readings.deep_view(),
            readings.len() == reading_count(all),
            cursor == reading_index(all, k as int),
            html@ == annotated_prefix(all, given, k as nat),
    {
        proof {
            lemma_reading_count_grows(all, k as int);
            assert(all.take(k + 1).drop_last() =~= all.take(k as int));
        }
        let segment = &segments[k];
        if segment.needs_reading {
            html.append("<ruby><rb>");
            html.append(segment.content.as_str());
            html.append("</rb><rt>");
            html.append(readings[cursor].as_str());
            html.append("</rt></ruby>");
            cursor += 1;
        } else {
            html.append(segment.content.as_str());
        }
    }
    Ok(html)
}

/// Writes the annotated document from the segments and from the field in
/// which the reading service returned the readings. Fails, and writes
/// nothing, unless the field holds exactly one reading for each segment that
/// gets one.
pub fn generate_html_with_ruby(parts: &Vec<Segment>, hiragana: &str) -> (result: Result<
    String,
    PipelineError,
>)
    ensures
        match result {
            Ok(html) => {
                &&& split_tokens(hiragana@).len() == reading_count(parts.deep_view())
                &&& html@ == annotated(parts.deep_view(), split_tokens(hiragana@))
            },
            Err(e) => {
                &&& split_tokens(hiragana@).len() != reading_count(parts.deep_view())
                &&& split_tokens(hiragana@).len() <= usize::MAX
                &&& e == (PipelineError::AlignmentMismatch {
                    expected: reading_count(parts.deep_view()) as usize,
                    found: split_tokens(hiragana@).len() as usize,
                })
            },
        },
{
    let ruby = split_readings(hiragana);
    reassemble(parts, &ruby)
}

/// Among the first segments no more get a reading than among all of them.
pub proof fn lemma_reading_count_grows(segments: Seq<SegmentView>, k: int)
    requires
        0 <= k <= segments.len(),
    ensures
        reading_count(segments.take(k)) <= reading_count(segments),
        k < segments.len() && segments[k].needs_reading ==> reading_count(segments.take(k))
            < reading_count(segments),
    decreases segments.len() - k,
{
    if k < segments.len() {
        assert(segments.take(k + 1).drop_last() =~= segments.take(k));
        lemma_reading_count_grows(segments, k + 1);
    } else {
        assert(segments.take(k) =~= segments);
    }
}

/// The contents of the first segments that get a reading open the list of
/// the contents of all that do.
pub proof fn lemma_readings_needed_prefix(segments: Seq<SegmentView>, k: int)
    requires
        0 <= k <= segments.len(),
    ensures
        readings_needed_of(segments.take(k)).is_prefix_of(readings_needed_of(segments)),
    decreases segments.len() - k,
{
    if k < segments.len() {
        assert(segments.take(k + 1).drop_last() =~= segments.take(k));
        lemma_readings_needed_prefix(segments, k + 1);
    } else {
        assert(segments.take(k) =~= segments);
    }
}

/// Segments and readings are paired in order: a segment that gets a reading
/// stands in the list that went to the reading service at the place at which
/// its reading is taken from the list that came back, and it is wrapped in
/// ruby markup with that reading.
pub proof fn lemma_pairs_in_order(segments: Seq<SegmentView>, readings: Seq<Seq<char>>, k: int)
    requires
        0 <= k < segments.len(),
        segments[k].needs_reading,
        readings.len() == reading_count(segments),
    ensures
        0 <= reading_index(segments, k) < reading_count(segments),
        readings_needed_of(segments)[reading_index(segments, k)] == segments[k].content,
        rendered(segments, readings, k) == ruby_markup(
            readings_needed_of(segments)[reading_index(segments, k)],
            readings[reading_index(segments, k)],
        ),
{
    lemma_reading_count_grows(segments, k);
    lemma_readings_needed_prefix(segments, k + 1);
    let upto = segments.take(k + 1);
    assert(upto.drop_last() =~= segments.take(k));
    assert(readings_needed_of(upto) == readings_needed_of(segments.take(k)).push(
        segments[k].content,
    ));
    assert(readings_needed_of(upto)[reading_index(segments, k)] == segments[k].content);
}

/// No segment gets a reading exactly if none is counted.
pub proof fn lemma_none_needs_reading(segments: Seq<SegmentView>)
    ensures
        reading_count(segments) == 0 <==> forall|k: int|
            0 <= k < segments.len() ==> !(#[trigger] segments[k]).needs_reading,
    decreases segments.len(),
{
    if segments.len() > 0 {
        lemma_none_needs_reading(segments.drop_last());
        if reading_count(segments) == 0 {
            assert forall|k: int| 0 <= k < segments.len() implies !(
            #[trigger] segments[k]).needs_reading by {
                if k < segments.len() - 1 {
                    assert(segments.drop_last()[k] == segments[k]);
                }
            }
        }
    }
}

/// Where no segment gets a reading, the annotated document is the contents
/// of the segments, one after the other, whatever the list of readings holds.
pub proof fn lemma_annotated_without_readings(
    segments: Seq<SegmentView>,
    readings: Seq<Seq<char>>,
)
    requires
        reading_count(segments) == 0,
    ensures
        annotated(segments, readings) == concat_contents(segments),
{
    lemma_none_needs_reading(segments);
    lemma_plain_prefix(segments, readings, segments.len());
    assert(segments.take(segments.len() as int) =~= segments);
}

proof fn lemma_plain_prefix(segments: Seq<SegmentView>, readings: Seq<Seq<char>>, n: nat)
    requires
        n <= segments.len(),
        forall|k: int| 0 <= k < segments.len() ==> !(#[trigger] segments[k]).needs_reading,
    ensures
        annotated_prefix(segments, readings, n) == concat_contents(segments.take(n as int)),
    decreases n,
{
    if n > 0 {
        lemma_plain_prefix(segments, readings, (n - 1) as nat);
        assert(segments.take(n as int).drop_last() =~= segments.take(n - 1));
    }
}

} // verus!
