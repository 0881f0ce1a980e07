//! The batch of readings: all the runs of a document that get a reading go to
//! the reading service in one request, joined by a delimiter, and the
//! readings come back in one field, joined by the same delimiter.

use vstd::prelude::*;
use vstd::string::StringExecFns;
use crate::error::PipelineError;
use crate::segment::{Segment, SegmentView};

verus! {

/// The character that separates the entries of a batch.
pub const DELIMITER: char = ',';

/// What the reading service is to be told besides the text.
#[derive(Clone, Debug, PartialEq, Eq)]
pub struct ApiConfig {
    /// The identifier of the application at the service.
    pub app_id: String,
    /// The script in which readings are to be returned.
    pub output_type: String,
}

/// The record in which the reading service answers.
#[derive(Clone, Debug, PartialEq, Eq)]
pub struct HiraganaResp {
    /// The readings, joined by the delimiter.
    pub converted: String,
    /// The script of the readings.
    pub output_type: String,
    /// The identifier that the service gave the request.
    pub request_id: String,
}

/// The contents of the segments that get a reading, in their order.
pub open spec fn readings_needed_of(segments: Seq<SegmentView>) -> Seq<Seq<char>>
    decreases segments.len(),
{
    if segments.len() == 0 {
        Seq::empty()
    } else if segments.last().needs_reading {
        readings_needed_of(segments.drop_last()).push(segments.last().content)
    } else {
        readings_needed_of(segments.drop_last())
    }
}

/// The number of segments that get a reading.
pub open spec fn reading_count(segments: Seq<SegmentView>) -> nat {
    readings_needed_of(segments).len()
}

/// The entries of a batch in one string, the delimiter between neighbours.
pub open spec fn joined(items: Seq<Seq<char>>) -> Seq<char>
    decreases items.len(),
{
    if items.len() == 0 {
        Seq::empty()
    } else if items.len() == 1 {
        items[0]
    } else {
        joined(items.drop_last()) + seq![DELIMITER] + items.last()
    }
}

/// The entries into which the delimiters cut the first `n` characters of `s`.
pub open spec fn split_prefix(s: Seq<char>, n: nat) -> Seq<Seq<char>>
    decreases n,
{
    if n == 0 {
        seq![Seq::empty()]
    } else {
        let before = split_prefix(s, (n - 1) as nat);
        if s[n - 1] == DELIMITER {
            before.push(Seq::empty())
        } else {
            before.drop_last().push(before.last().push(s[n - 1]))
        }
    }
}

/// The entries into which the delimiters cut `s`: one more than `s` has
/// delimiters, an empty string giving one empty entry.
pub open spec fn split_tokens(s: Seq<char>) -> Seq<Seq<char>> {
    split_prefix(s, s.len())
}

/// Whether no entry holds the delimiter.
pub open spec fn delimiter_free(items: Seq<Seq<char>>) -> bool {
    forall|k: int, j: int|
        0 <= k < items.len() && 0 <= j < items[k].len() ==> #[trigger] items[k][j] != DELIMITER
}

/// Whether `s` holds no delimiter.
pub open spec fn has_no_delimiter(s: Seq<char>) -> bool {
    forall|j: int| 0 <= j < s.len() ==> #[trigger] s[j] != DELIMITER
}

/// The body of the request to the reading service.
pub open spec fn request_body_of(
    app_id: Seq<char>,
    sentence: Seq<char>,
    output_type: Seq<char>,
) -> Seq<char> {
    "{\"app_id\": \""@ + app_id + "\",\"sentence\": \""@ + sentence + "\",\"output_type\": \""@
        + output_type + "\"}"@
}

/// Counts the segments that get a reading.
pub fn count_readings_needed(segments: &Vec<Segment>) -> (count: usize)
    ensures
        count == reading_count(segments.deep_view()),
{
    let ghost all = segments.deep_view();
    let mut count: usize = 0;
    for k in 0..segments.len()
        invariant
            all == segments.deep_view(),
            count == reading_count(all.take(k as int)),
            count <= k,
    {
        proof {
            assert(all.take(k + 1).drop_last() =~= all.take(k as int));
        }
        if segments[k].needs_reading {
            count += 1;
        }
    }
    proof {
        assert(all.take(segments.len() as int) =~= all);
    }
    count
}

/// Collects the contents of the segments that get a reading, in their order.
pub fn readings_needed(segments: &Vec<Segment>) -> (contents: Vec<String>)
    ensures
        contents.deep_view() == readings_needed_of(segments.deep_view()),
{
    let ghost all = segments.deep_view();
    let mut contents: Vec<String> = Vec::new();
    for k in 0..segments.len()
        invariant
            all == segments.deep_view(),
            contents.deep_view() == readings_needed_of(all.take(k as int)),
    {
        proof {
            assert(all.take(k + 1).drop_last() =~= all.take(k as int));
        }
        if segments[k].needs_reading {
            contents.push(segments[k].content.clone());
        }
    }
    proof {
        assert(all.take(segments.len() as int) =~= all);
    }
    contents
}

/// Joins the entries of a batch into the one string that the service takes.
pub fn join_sentence(items: &Vec<String>) -> (sentence: String)
    ensures
        sentence@ == joined(items.deep_view()),
{
    let ghost all = items.deep_view();
    let mut sentence = String::new();
    for k in 0..items.len()
        invariant
            all == items.deep_view(),
            sentence@ == joined(all.take(k as int)),
    {
        proof {
            assert(all.take(k + 1).drop_last() =~= all.take(k as int));
        }
        if k > 0 {
            sentence.push(DELIMITER);
        }
        sentence.append(items[k].as_str());
    }
    proof {
        assert(all.take(items.len() as int) =~= all);
    }
    sentence
}

/// Cuts the field in which the readings came back into its entries.
pub fn split_readings(converted: &str) -> (tokens: Vec<String>)
    ensures
        tokens.deep_view() == split_tokens(converted@),
        tokens.len() >= 1,
        joined(tokens.deep_view()) == converted@,
        delimiter_free(tokens.deep_view()),
{
    let mut tokens: Vec<String> = Vec::new();
    let mut current = String::new();
    let chars = converted.chars();
    for c in iter: chars
        invariant
            iter.seq() == converted@,
            tokens.deep_view().push(current@) == split_prefix(converted@, iter.index() as nat),
    {
        if c == DELIMITER {
            tokens.push(current);
            current = String::new();
        } else {
            current.push(c);
        }
    }
    tokens.push(current);
    proof {
        lemma_split_then_join(converted@);
    }
    tokens
}

/// Writes the body of the request that asks the service to read `sentence`.
pub fn hiragana_request_body(config: &ApiConfig, sentence: &str) -> (body: String)
    ensures
        body@ == request_body_of(config.app_id@, sentence@, config.output_type@),
{
    let mut body = String::new();
    body.append("{\"app_id\": \"");
    body.append(config.app_id.as_str());
    body.append("\",\"sentence\": \"");
    body.append(sentence);
    body.append("\",\"output_type\": \"");
    body.append(config.output_type.as_str());
    body.append("\"}");
    body
}

/// Takes the readings out of the answer of the service, where it holds one
/// for each of the `expected` segments that wait for one.
pub fn readings_from_response(response: &HiraganaResp, expected: usize) -> (result: Result<
    Vec<String>,
    PipelineError,
>)
    ensures
        match result {
            Ok(readings) => {
                &&& readings.deep_view() == split_tokens(response.converted@)
                &&& readings.len() == expected
            },
            Err(e) => {
                &&& split_tokens(response.converted@).len() != expected
                &&& split_tokens(response.converted@).len() <= usize::MAX
                &&& e == (PipelineError::AlignmentMismatch {
                    expected,
                    found: split_tokens(response.converted@).len() as usize,
                })
            },
        },
{
    let readings = split_readings(response.converted.as_str());
    if readings.len() == expected {
        Ok(readings)
    } else {
        Err(PipelineError::AlignmentMismatch { expected, found: readings.len() })
    }
}

proof fn lemma_split_prefix_joins(s: Seq<char>, n: nat)
    requires
        n <= s.len(),
    ensures
        split_prefix(s, n).len() >= 1,
        joined(split_prefix(s, n)) == s.take(n as int),
        delimiter_free(split_prefix(s, n)),
    decreases n,
{
    if n > 0 {
        lemma_split_prefix_joins(s, (n - 1) as nat);
        let before = split_prefix(s, (n - 1) as nat);
        let after = split_prefix(s, n);
        let c = s[n - 1];
        if c == DELIMITER {
            assert(after.drop_last() =~= before);
        } else {
            assert(after.drop_last() =~= before.drop_last());
            if before.len() > 1 {
                assert(joined(after) =~= joined(before.drop_last()) + seq![DELIMITER]
                    + before.last() + seq![c]);
            }
        }
    }
}

/// What is cut at the delimiters and joined again is what it was. Cutting
/// gives at least one entry, and no entry holds a delimiter.
pub proof fn lemma_split_then_join(s: Seq<char>)
    ensures
        split_tokens(s).len() >= 1,
        joined(split_tokens(s)) == s,
        delimiter_free(split_tokens(s)),
{
    lemma_split_prefix_joins(s, s.len());
}

proof fn lemma_split_prefix_of_longer(s: Seq<char>, t: Seq<char>, n: nat)
    requires
        n <= s.len(),
    ensures
        split_prefix(s + t, n) == split_prefix(s, n),
    decreases n,
{
    if n > 0 {
        lemma_split_prefix_of_longer(s, t, (n - 1) as nat);
    }
}

proof fn lemma_split_with_delimiter(s: Seq<char>)
    ensures
        split_tokens(s + seq![DELIMITER]) == split_tokens(s).push(Seq::empty()),
{
    lemma_split_prefix_of_longer(s, seq![DELIMITER], s.len());
}

proof fn lemma_split_with_entry(s: Seq<char>, t: Seq<char>, n: nat)
    requires
        n <= t.len(),
        has_no_delimiter(t),
    ensures
        split_prefix(s + t, s.len() + n) == split_tokens(s).drop_last().push(
            split_tokens(s).last() + t.take(n as int),
        ),
    decreases n,
{
    lemma_split_prefix_joins(s, s.len());
    let whole = split_tokens(s);
    if n == 0 {
        lemma_split_prefix_of_longer(s, t, s.len());
    } else {
        lemma_split_with_entry(s, t, (n - 1) as nat);
        assert((whole.last() + t.take(n - 1)).push(t[n - 1]) =~= whole.last() + t.take(n as int));
    }
}

/// Entries that hold no delimiter, joined and cut again, are what they were,
/// as long as there is at least one of them.
pub proof fn lemma_join_then_split(items: Seq<Seq<char>>)
    requires
        items.len() >= 1,
        delimiter_free(items),
    ensures
        split_tokens(joined(items)) == items,
    decreases items.len(),
{
    let last = items.last();
    assert(has_no_delimiter(last));
    assert(last.take(last.len() as int) =~= last);
    if items.len() == 1 {
        lemma_split_with_entry(Seq::empty(), last, last.len());
    } else {
        let front = items.drop_last();
        assert(delimiter_free(front));
        lemma_join_then_split(front);
        lemma_split_with_delimiter(joined(front));
        lemma_split_with_entry(joined(front) + seq![DELIMITER], last, last.len());
    }
}

} // verus!
