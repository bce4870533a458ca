//! The segments of a message: plain text and custom-emoji references in
//! turn, and the tokens that they become.

use crate::emoji::text_tokens;
use crate::span::{byte_span, on_boundary};
use crate::token::{custom_emoji_url, TokenView};
use vstd::prelude::*;
use vstd::utf8::*;

verus! {

/// Whether `ranges` are byte ranges of `text` that lie on character
/// boundaries and follow one another from left to right without overlap.
pub open spec fn ordered_spans(ranges: Seq<(usize, usize)>, text: Seq<char>) -> bool {
    &&& forall|i: int|
        0 <= i < ranges.len() ==> {
            &&& (#[trigger] ranges[i]).0 <= ranges[i].1
            &&& on_boundary(text, ranges[i].0 as int)
            &&& on_boundary(text, ranges[i].1 as int)
        }
    &&& forall|i: int, j: int|
        0 <= i < j < ranges.len() ==> (#[trigger] ranges[i]).1 <= (#[trigger] ranges[j]).0
}

/// A stretch of a message: plain text, or the markup of one custom emoji
/// with the id that it names.
pub enum Segment {
    Plain(Seq<char>),
    Reference { source: Seq<char>, id: Seq<char> },
}

/// The byte offset at which the plain text before match `n` starts: the
/// end of the match before it, or the start of the text.
pub open spec fn resume_at(ranges: Seq<(usize, usize)>, n: int) -> int {
    if n <= 0 {
        0
    } else {
        ranges[n - 1].1 as int
    }
}

/// The segments of `text` up to the end of its `n`-th match: before each
/// match the plain text since the match before it, then the match.
pub open spec fn leading_segments(
    text: Seq<char>,
    ranges: Seq<(usize, usize)>,
    ids: Seq<Seq<char>>,
    n: nat,
) -> Seq<Segment>
    decreases n,
{
    if n == 0 {
        Seq::empty()
    } else {
        let k = n - 1;
        leading_segments(text, ranges, ids, k as nat).push(
            Segment::Plain(byte_span(text, resume_at(ranges, k), ranges[k].0 as int)),
        ).push(
            Segment::Reference {
                source: byte_span(text, ranges[k].0 as int, ranges[k].1 as int),
                id: ids[k],
            },
        )
    }
}

/// All the segments of `text`: those up to its last match, then the plain
/// text that is left.
pub open spec fn segments(text: Seq<char>, ranges: Seq<(usize, usize)>, ids: Seq<Seq<char>>) -> Seq<
    Segment,
> {
    leading_segments(text, ranges, ids, ranges.len()).push(
        Segment::Plain(
            byte_span(text, resume_at(ranges, ranges.len() as int), encode_utf8(text).len() as int),
        ),
    )
}

/// The tokens of one segment: one per scalar value of plain text, one for
/// a reference.
pub open spec fn segment_tokens(segment: Segment) -> Seq<TokenView> {
    match segment {
        Segment::Plain(plain) => text_tokens(plain),
        Segment::Reference { source, id } => seq![TokenView::CustomEmoji(custom_emoji_url(id))],
    }
}

/// The tokens of a run of segments, in order.
pub open spec fn tokens_of(run: Seq<Segment>) -> Seq<TokenView>
    decreases run.len(),
{
    if run.len() == 0 {
        Seq::empty()
    } else {
        tokens_of(run.drop_last()) + segment_tokens(run.last())
    }
}

/// The views of a list of ids.
pub open spec fn id_views(ids: Seq<String>) -> Seq<Seq<char>> {
    ids.map_values(|id: String| id@)
}

/// The tokens of a run with one more segment are those of the run, then
/// those of the segment.
pub proof fn lemma_tokens_of_push(run: Seq<Segment>, segment: Segment)
    ensures
        tokens_of(run.push(segment)) == tokens_of(run) + segment_tokens(segment),
{
    assert(run.push(segment).drop_last() =~= run);
}

} // verus!
