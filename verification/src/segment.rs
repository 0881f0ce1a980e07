//! The segmenter: a scan that cuts the text of a document into runs that get
//! a reading and runs that do not.
//!
//! The scan tells markup from text nodes by the two characters `<` and `>`
//! alone. Markup never gets a reading. In a text node, a character gets one
//! exactly if it is an ideograph or a syllabic kana. The segments are the
//! maximal runs of characters that agree on this.

use vstd::prelude::*;
use crate::batch::{join_sentence, joined, readings_needed, readings_needed_of};
use crate::classify::{is_reading_char, needs_reading};

verus! {

/// Where the scan stands: inside markup, or inside a text node.
#[derive(Clone, Copy, Debug, PartialEq, Eq, Structural)]
pub enum Region {
    /// From a `<` through the next `>`; also, in a document, whatever
    /// precedes the first `>`.
    Markup,
    /// After a `>` and before the next `<`.
    TextNode,
}

/// A run of the text of a document.
#[derive(Clone, Debug, PartialEq, Eq)]
pub struct Segment {
    /// The characters of the run, as they stand in the document.
    pub content: String,
    /// Whether the run gets a reading.
    pub needs_reading: bool,
}

/// What a [`Segment`] is to the contracts.
pub struct SegmentView {
    pub content: Seq<char>,
    pub needs_reading: bool,
}

impl View for Segment {
    type V = SegmentView;

    open spec fn view(&self) -> SegmentView {
        SegmentView { content: self.content@, needs_reading: self.needs_reading }
    }
}

impl DeepView for Segment {
    type V = SegmentView;

    open spec fn deep_view(&self) -> SegmentView {
        self@
    }
}

/// The region in which the scan stands once it has read `c` in `region`.
pub open spec fn region_step(region: Region, c: char) -> Region {
    if c == '>' {
        Region::TextNode
    } else if c == '<' {
        Region::Markup
    } else {
        region
    }
}

/// The region in which the scan stands once it has read the first `i`
/// characters of `text`, when it started in `start`.
pub open spec fn region_after(text: Seq<char>, start: Region, i: int) -> Region
    decreases i,
{
    if i <= 0 {
        start
    } else {
        region_step(region_after(text, start, i - 1), text[i - 1])
    }
}

/// Whether the character at `i` gets a reading: it stands in a text node and
/// is an ideograph or a syllabic kana.
pub open spec fn needs_reading_at(text: Seq<char>, start: Region, i: int) -> bool {
    region_after(text, start, i) == Region::TextNode && is_reading_char(text[i])
}

/// The maximal runs of the first `n` characters of `text`.
pub open spec fn segmentation_prefix(text: Seq<char>, start: Region, n: nat) -> Seq<SegmentView>
    decreases n,
{
    if n == 0 {
        Seq::empty()
    } else {
        let before = segmentation_prefix(text, start, (n - 1) as nat);
        let c = text[n - 1];
        let flag = needs_reading_at(text, start, n - 1);
        if before.len() > 0 && before.last().needs_reading == flag {
            before.drop_last().push(
                SegmentView { content: before.last().content.push(c), needs_reading: flag },
            )
        } else {
            before.push(SegmentView { content: seq![c], needs_reading: flag })
        }
    }
}

/// The segments of `text`: its maximal runs of characters that agree on
/// whether they get a reading.
pub open spec fn segmentation(text: Seq<char>, start: Region) -> Seq<SegmentView> {
    segmentation_prefix(text, start, text.len())
}

/// The contents of `segments`, one after the other.
pub open spec fn concat_contents(segments: Seq<SegmentView>) -> Seq<char>
    decreases segments.len(),
{
    if segments.len() == 0 {
        Seq::empty()
    } else {
        concat_contents(segments.drop_last()) + segments.last().content
    }
}

/// For each character of the contents of `segments`, one after the other,
/// whether its segment gets a reading.
pub open spec fn concat_flags(segments: Seq<SegmentView>) -> Seq<bool>
    decreases segments.len(),
{
    if segments.len() == 0 {
        Seq::empty()
    } else {
        concat_flags(segments.drop_last()) + Seq::new(
            segments.last().content.len(),
            |j: int| segments.last().needs_reading,
        )
    }
}

/// For each character of `text`, whether it gets a reading.
pub open spec fn reading_flags(text: Seq<char>, start: Region) -> Seq<bool> {
    Seq::new(text.len(), |i: int| needs_reading_at(text, start, i))
}

/// Whether every character of every segment that gets a reading is an
/// ideograph or a syllabic kana.
pub open spec fn reading_segments_hold_only_reading_chars(segments: Seq<SegmentView>) -> bool {
    forall|k: int, j: int|
        0 <= k < segments.len() && 0 <= j < segments[k].content.len() && segments[k].needs_reading
            ==> is_reading_char(#[trigger] segments[k].content[j])
}

/// Whether no character of a segment that gets no reading is an ideograph or
/// a syllabic kana.
pub open spec fn plain_segments_hold_no_reading_chars(segments: Seq<SegmentView>) -> bool {
    forall|k: int, j: int|
        0 <= k < segments.len() && 0 <= j < segments[k].content.len() && !segments[k].needs_reading
            ==> !is_reading_char(#[trigger] segments[k].content[j])
}

/// Whether every ideograph and every syllabic kana of `text` stands in a text
/// node: none stands in markup.
pub open spec fn markup_holds_no_reading_chars(text: Seq<char>, start: Region) -> bool {
    forall|i: int|
        0 <= i < text.len() && is_reading_char(#[trigger] text[i]) ==> region_after(text, start, i)
            == Region::TextNode
}

/// Whether no character of `text` gets a reading.
pub open spec fn no_reading_needed(text: Seq<char>, start: Region) -> bool {
    forall|i: int| 0 <= i < text.len() ==> !#[trigger] needs_reading_at(text, start, i)
}

/// Whether no segment is empty and no two neighbours agree on whether they
/// get a reading.
pub open spec fn runs_are_maximal(segments: Seq<SegmentView>) -> bool {
    &&& forall|k: int| 0 <= k < segments.len() ==> (#[trigger] segments[k]).content.len() > 0
    &&& forall|k: int|
        0 < k < segments.len() ==> segments[k - 1].needs_reading != (
        #[trigger] segments[k]).needs_reading
}

/// Whether `segments` cut `text` into maximal runs: their contents are the
/// text, each character stands in a segment that gets a reading exactly if
/// the character does, no segment is empty and neighbours differ.
pub open spec fn is_segmentation_of(
    segments: Seq<SegmentView>,
    text: Seq<char>,
    start: Region,
) -> bool {
    &&& concat_contents(segments) == text
    &&& concat_flags(segments) == reading_flags(text, start)
    &&& runs_are_maximal(segments)
}

/// The segments that are complete, and the run that the scan is reading.
spec fn with_pending(done: Seq<SegmentView>, buffer: Seq<char>, flag: bool) -> Seq<SegmentView> {
    if buffer.len() == 0 {
        done
    } else {
        done.push(SegmentView { content: buffer, needs_reading: flag })
    }
}

/// Tells in which region the scan stands once it has read `c` in `region`.
pub fn next_region(region: Region, c: char) -> (next: Region)
    ensures
        next == region_step(region, c),
{
    if c == '>' {
        Region::TextNode
    } else if c == '<' {
        Region::Markup
    } else {
        region
    }
}

/// Cuts `text` into its segments, the scan starting in `start`.
pub fn segment_text(text: &str, start: Region) -> (segments: Vec<Segment>)
    ensures
        segments.deep_view() == segmentation(text@, start),
        is_segmentation_of(segments.deep_view(), text@, start),
        reading_segments_hold_only_reading_chars(segments.deep_view()),
        markup_holds_no_reading_chars(text@, start) ==> plain_segments_hold_no_reading_chars(
            segments.deep_view(),
        ),
{
    let mut segments: Vec<Segment> = Vec::new();
    let mut buffer = String::new();
    let mut flag = false;
    let mut region = start;
    let chars = text.chars();
    for c in iter: chars
        invariant
            iter.seq() == text@,
            region == region_after(text@, start, iter.index()),
            buffer@.len() == 0 <==> iter.index() == 0,
            with_pending(segments.deep_view(), buffer@, flag) == segmentation_prefix(
                text@,
                start,
                iter.index() as nat,
            ),
    {
        let ghost run = buffer@;
        let in_text_node = match region {
            Region::TextNode => true,
            Region::Markup => false,
        };
        let c_flag = in_text_node && needs_reading(c);
        if !buffer.as_str().is_empty() && c_flag != flag {
            segments.push(Segment { content: buffer, needs_reading: flag });
            buffer = String::new();
        }
        buffer.push(c);
        assert(run.len() == 0 ==> buffer@ =~= seq![c]);
        flag = c_flag;
        region = next_region(region, c);
    }
    if !buffer.as_str().is_empty() {
        let ghost done = segments.deep_view();
        segments.push(Segment { content: buffer, needs_reading: flag });
        assert(segments.deep_view() == with_pending(done, segments@.last().content@, flag));
    }
    proof {
        lemma_segments_concat_to_text(text@, start);
        lemma_segments_follow_characters(text@, start);
        lemma_segments_are_maximal_runs(text@, start);
        lemma_reading_segments_hold_only_reading_chars(text@, start);
        if markup_holds_no_reading_chars(text@, start) {
            lemma_plain_segments_hold_no_reading_chars(text@, start);
        }
    }
    segments
}

/// Cuts the text of a document into its segments, and joins the contents of
/// those that get a reading into the sentence that the reading service is
/// asked to read. Whatever precedes the first `>` counts as markup.
pub fn analyze_jp(body_string: &str) -> (result: (Vec<Segment>, String))
    ensures
        result.0.deep_view() == segmentation(body_string@, Region::Markup),
        result.1@ == joined(readings_needed_of(result.0.deep_view())),
        is_segmentation_of(result.0.deep_view(), body_string@, Region::Markup),
        reading_segments_hold_only_reading_chars(result.0.deep_view()),
        markup_holds_no_reading_chars(body_string@, Region::Markup)
            ==> plain_segments_hold_no_reading_chars(result.0.deep_view()),
{
    let html_parts = segment_text(body_string, Region::Markup);
    let jp_content = join_sentence(&readings_needed(&html_parts));
    (html_parts, jp_content)
}

proof fn lemma_prefix_covers(text: Seq<char>, start: Region, n: nat)
    requires
        n <= text.len(),
    ensures
        concat_contents(segmentation_prefix(text, start, n)) == text.take(n as int),
        concat_flags(segmentation_prefix(text, start, n)) == reading_flags(text, start).take(
            n as int,
        ),
    decreases n,
{
    if n > 0 {
        lemma_prefix_covers(text, start, (n - 1) as nat);
        let before = segmentation_prefix(text, start, (n - 1) as nat);
        let after = segmentation_prefix(text, start, n);
        let c = text[n - 1];
        let flag = needs_reading_at(text, start, n - 1);
        assert(reading_flags(text, start).take(n as int) =~= reading_flags(text, start).take(
            n - 1,
        ).push(flag));
        if before.len() > 0 && before.last().needs_reading == flag {
            assert(after.drop_last() =~= before.drop_last());
            assert(concat_contents(after) =~= concat_contents(before.drop_last())
                + before.last().content + seq![c]);
        } else {
            assert(after.drop_last() =~= before);
        }
    }
}

proof fn lemma_prefix_maximal(text: Seq<char>, start: Region, n: nat)
    requires
        n <= text.len(),
    ensures
        runs_are_maximal(segmentation_prefix(text, start, n)),
        n > 0 ==> segmentation_prefix(text, start, n).len() > 0,
        n > 0 ==> segmentation_prefix(text, start, n).last().needs_reading == needs_reading_at(
            text,
            start,
            n - 1,
        ),
    decreases n,
{
    if n > 0 {
        lemma_prefix_maximal(text, start, (n - 1) as nat);
        let before = segmentation_prefix(text, start, (n - 1) as nat);
        let after = segmentation_prefix(text, start, n);
        assert forall|k: int| 0 <= k < after.len() - 1 implies after[k] == before[k] by {}
    }
}

proof fn lemma_prefix_chars(text: Seq<char>, start: Region, n: nat)
    requires
        n <= text.len(),
    ensures
        reading_segments_hold_only_reading_chars(segmentation_prefix(text, start, n)),
        markup_holds_no_reading_chars(text, start) ==> plain_segments_hold_no_reading_chars(
            segmentation_prefix(text, start, n),
        ),
        no_reading_needed(text, start) ==> forall|k: int|
            0 <= k < segmentation_prefix(text, start, n).len() ==> !(
            #[trigger] segmentation_prefix(text, start, n)[k]).needs_reading,
    decreases n,
{
    if n > 0 {
        lemma_prefix_chars(text, start, (n - 1) as nat);
        let after = segmentation_prefix(text, start, n);
        assert forall|k: int, j: int|
            0 <= k < after.len() && 0 <= j < after[k].content.len()
                && after[k].needs_reading implies is_reading_char(
            #[trigger] after[k].content[j],
        ) by {}
        if markup_holds_no_reading_chars(text, start) {
            assert forall|k: int, j: int|
                0 <= k < after.len() && 0 <= j < after[k].content.len()
                    && !after[k].needs_reading implies !is_reading_char(
                #[trigger] after[k].content[j],
            ) by {}
        }
    }
}

/// The contents of the segments of a text, one after the other, are the text.
pub proof fn lemma_segments_concat_to_text(text: Seq<char>, start: Region)
    ensures
        concat_contents(segmentation(text, start)) == text,
{
    lemma_prefix_covers(text, start, text.len());
}

/// Every character stands in a segment that gets a reading exactly if the
/// character does: spread over its characters, what the segments say is what
/// holds of the characters of the text, one by one.
pub proof fn lemma_segments_follow_characters(text: Seq<char>, start: Region)
    ensures
        concat_flags(segmentation(text, start)) == reading_flags(text, start),
{
    lemma_prefix_covers(text, start, text.len());
}

/// No segment of a text is empty, and segments that get a reading alternate
/// with segments that get none.
pub proof fn lemma_segments_are_maximal_runs(text: Seq<char>, start: Region)
    ensures
        runs_are_maximal(segmentation(text, start)),
{
    lemma_prefix_maximal(text, start, text.len());
}

/// A segment that gets a reading holds ideographs and syllabic kana only.
pub proof fn lemma_reading_segments_hold_only_reading_chars(text: Seq<char>, start: Region)
    ensures
        reading_segments_hold_only_reading_chars(segmentation(text, start)),
{
    lemma_prefix_chars(text, start, text.len());
}

/// Where no ideograph and no syllabic kana stands in markup, a segment that
/// gets no reading holds neither.
pub proof fn lemma_plain_segments_hold_no_reading_chars(text: Seq<char>, start: Region)
    requires
        markup_holds_no_reading_chars(text, start),
    ensures
        plain_segments_hold_no_reading_chars(segmentation(text, start)),
{
    lemma_prefix_chars(text, start, text.len());
}

/// Where no character of a text gets a reading, no segment does.
pub proof fn lemma_no_reading_needed(text: Seq<char>, start: Region)
    requires
        no_reading_needed(text, start),
    ensures
        forall|k: int|
            0 <= k < segmentation(text, start).len() ==> !(#[trigger] segmentation(
                text,
                start,
            )[k]).needs_reading,
{
    lemma_prefix_chars(text, start, text.len());
}

proof fn lemma_concat_lengths(segments: Seq<SegmentView>)
    ensures
        concat_contents(segments).len() == concat_flags(segments).len(),
    decreases segments.len(),
{
    if segments.len() > 0 {
        lemma_concat_lengths(segments.drop_last());
    }
}

proof fn lemma_maximal_runs_agree(a: Seq<SegmentView>, b: Seq<SegmentView>)
    requires
        runs_are_maximal(a),
        runs_are_maximal(b),
        concat_contents(a) == concat_contents(b),
        concat_flags(a) == concat_flags(b),
    ensures
        a == b,
    decreases a.len(),
{
    if a.len() == 0 || b.len() == 0 {
        if a.len() > 0 {
            assert(concat_contents(a).len() >= a.last().content.len());
        }
        if b.len() > 0 {
            assert(concat_contents(b).len() >= b.last().content.len());
        }
        assert(a =~= b);
    } else {
        let a_front = a.drop_last();
        let b_front = b.drop_last();
        let a_last = a.last();
        let b_last = b.last();
        let contents = concat_contents(a);
        let flags = concat_flags(a);
        let a_cut = concat_contents(a_front).len() as int;
        let b_cut = concat_contents(b_front).len() as int;
        lemma_concat_lengths(a_front);
        lemma_concat_lengths(b_front);
        assert(a[a.len() - 1].content.len() > 0);
        assert(b[b.len() - 1].content.len() > 0);
        assert(flags[flags.len() - 1] == a_last.needs_reading);
        assert(flags[flags.len() - 1] == b_last.needs_reading);
        if a_cut > b_cut {
            lemma_last_flag(a_front);
            assert(a_front.len() > 0);
            assert(flags[a_cut - 1] == a_front.last().needs_reading);
            assert(flags[a_cut - 1] == b_last.needs_reading);
            assert(a[a.len() - 2].needs_reading != a[a.len() - 1].needs_reading);
            assert(false);
        }
        if b_cut > a_cut {
            lemma_last_flag(b_front);
            assert(b_front.len() > 0);
            assert(flags[b_cut - 1] == b_front.last().needs_reading);
            assert(flags[b_cut - 1] == a_last.needs_reading);
            assert(b[b.len() - 2].needs_reading != b[b.len() - 1].needs_reading);
            assert(false);
        }
        assert(a_last.content =~= contents.subrange(a_cut, contents.len() as int));
        assert(b_last.content =~= contents.subrange(b_cut, contents.len() as int));
        assert(concat_contents(a_front) =~= contents.take(a_cut));
        assert(concat_contents(b_front) =~= contents.take(b_cut));
        assert(concat_flags(a_front) =~= flags.take(a_cut));
        assert(concat_flags(b_front) =~= flags.take(b_cut));
        assert(runs_are_maximal(a_front)) by {
            assert forall|k: int| 0 <= k < a_front.len() implies a_front[k] == a[k] by {}
        }
        assert(runs_are_maximal(b_front)) by {
            assert forall|k: int| 0 <= k < b_front.len() implies b_front[k] == b[k] by {}
        }
        lemma_maximal_runs_agree(a_front, b_front);
        assert(a =~= a_front.push(a_last));
        assert(b =~= b_front.push(b_last));
    }
}

proof fn lemma_last_flag(segments: Seq<SegmentView>)
    requires
        runs_are_maximal(segments),
        concat_flags(segments).len() > 0,
    ensures
        segments.len() > 0,
        concat_flags(segments).last() == segments.last().needs_reading,
{
    assert(segments.len() > 0);
    assert(segments[segments.len() - 1].content.len() > 0);
}

/// The segments of a text are the only way to cut it into maximal runs.
pub proof fn lemma_segmentation_is_unique(
    segments: Seq<SegmentView>,
    text: Seq<char>,
    start: Region,
)
    requires
        is_segmentation_of(segments, text, start),
    ensures
        segments == segmentation(text, start),
{
    lemma_segments_concat_to_text(text, start);
    lemma_segments_follow_characters(text, start);
    lemma_segments_are_maximal_runs(text, start);
    lemma_maximal_runs_agree(segments, segmentation(text, start));
}

} // verus!
