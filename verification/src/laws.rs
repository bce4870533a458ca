//! What holds of every token stream that the tokenizer produces.

use crate::emoji::{char_token, emoji_image, text_tokens};
use crate::segment::{
    leading_segments, ordered_spans, resume_at, segment_tokens, segments, tokens_of, Segment,
};
use crate::span::{byte_span, lemma_span_join, lemma_span_whole, on_boundary};
use crate::token::TokenView;
use vstd::prelude::*;
use vstd::utf8::*;

verus! {

/// The stretch of the message that a segment covers.
pub open spec fn segment_source(segment: Segment) -> Seq<char> {
    match segment {
        Segment::Plain(plain) => plain,
        Segment::Reference { source, id } => source,
    }
}

/// The text that a run of segments covers.
pub open spec fn source_of(run: Seq<Segment>) -> Seq<char>
    decreases run.len(),
{
    if run.len() == 0 {
        Seq::empty()
    } else {
        source_of(run.drop_last()) + segment_source(run.last())
    }
}

/// For each token of a segment, the stretch of the message that it stands
/// for: one scalar value of plain text, or the whole markup of a reference.
pub open spec fn segment_origins(segment: Segment) -> Seq<Seq<char>> {
    match segment {
        Segment::Plain(plain) => Seq::new(plain.len(), |i: int| seq![plain[i]]),
        Segment::Reference { source, id } => seq![source],
    }
}

/// For each token of a run of segments, the stretch that it stands for.
pub open spec fn origins_of(run: Seq<Segment>) -> Seq<Seq<char>>
    decreases run.len(),
{
    if run.len() == 0 {
        Seq::empty()
    } else {
        origins_of(run.drop_last()) + segment_origins(run.last())
    }
}

/// The stretches of `parts` written one after another.
pub open spec fn joined(parts: Seq<Seq<char>>) -> Seq<char>
    decreases parts.len(),
{
    if parts.len() == 0 {
        Seq::empty()
    } else {
        joined(parts.drop_last()) + parts.last()
    }
}

/// Whether `token` is what the stretch `origin` becomes: a custom emoji for
/// markup, and otherwise the token of the one scalar value that `origin`
/// holds.
pub open spec fn stands_for(token: TokenView, origin: Seq<char>) -> bool {
    match token {
        TokenView::CustomEmoji(url) => true,
        _ => origin.len() == 1 && token == char_token(origin[0]),
    }
}

/// The number of tokens that are not custom emoji.
pub open spec fn count_plain(tokens: Seq<TokenView>) -> nat
    decreases tokens.len(),
{
    if tokens.len() == 0 {
        0
    } else {
        count_plain(tokens.drop_last()) + if tokens.last() is CustomEmoji {
            0nat
        } else {
            1nat
        }
    }
}

/// The number of scalar values in the plain segments of a run.
pub open spec fn plain_len(run: Seq<Segment>) -> nat
    decreases run.len(),
{
    if run.len() == 0 {
        0
    } else {
        plain_len(run.drop_last()) + match run.last() {
            Segment::Plain(plain) => plain.len(),
            Segment::Reference { source, id } => 0nat,
        }
    }
}

/// The number of scalar values in the markup of a run.
pub open spec fn markup_len(run: Seq<Segment>) -> nat
    decreases run.len(),
{
    if run.len() == 0 {
        0
    } else {
        markup_len(run.drop_last()) + match run.last() {
            Segment::Plain(plain) => 0nat,
            Segment::Reference { source, id } => source.len(),
        }
    }
}

/// Joining two lists of stretches joins what each of them joins to.
pub proof fn lemma_joined_add(a: Seq<Seq<char>>, b: Seq<Seq<char>>)
    ensures
        joined(a + b) == joined(a) + joined(b),
    decreases b.len(),
{
    if b.len() == 0 {
        assert(a + b =~= a);
        assert(joined(a) + joined(b) =~= joined(a));
    } else {
        assert((a + b).drop_last() =~= a + b.drop_last());
        assert((a + b).last() == b.last());
        lemma_joined_add(a, b.drop_last());
        assert((joined(a) + joined(b.drop_last())) + b.last() =~= joined(a) + (joined(
            b.drop_last(),
        ) + b.last()));
    }
}

/// The scalar values of a plain text, each taken alone, join to the text.
pub proof fn lemma_joined_scalars(plain: Seq<char>)
    ensures
        joined(Seq::new(plain.len(), |i: int| seq![plain[i]])) == plain,
    decreases plain.len(),
{
    let parts = Seq::new(plain.len(), |i: int| seq![plain[i]]);
    if plain.len() == 0 {
        assert(joined(parts) =~= plain);
    } else {
        let init = plain.drop_last();
        assert(parts.drop_last() =~= Seq::new(init.len(), |i: int| seq![init[i]]));
        lemma_joined_scalars(init);
        assert(init + parts.last() =~= plain);
    }
}

/// Counting the tokens that are not custom emoji goes piece by piece.
pub proof fn lemma_count_plain_add(a: Seq<TokenView>, b: Seq<TokenView>)
    ensures
        count_plain(a + b) == count_plain(a) + count_plain(b),
    decreases b.len(),
{
    if b.len() == 0 {
        assert(a + b =~= a);
    } else {
        assert((a + b).drop_last() =~= a + b.drop_last());
        assert((a + b).last() == b.last());
        lemma_count_plain_add(a, b.drop_last());
    }
}

/// None of the tokens of a plain text is a custom emoji.
pub proof fn lemma_count_plain_text(plain: Seq<char>)
    ensures
        count_plain(text_tokens(plain)) == plain.len(),
    decreases plain.len(),
{
    if plain.len() > 0 {
        assert(text_tokens(plain).drop_last() =~= text_tokens(plain.drop_last()));
        lemma_count_plain_text(plain.drop_last());
    }
}

/// Order preservation, for any run of segments: the run has one origin per
/// token, each token is what its origin becomes, and the origins join to
/// the text that the run covers.
pub proof fn lemma_run_in_order(run: Seq<Segment>)
    ensures
        origins_of(run).len() == tokens_of(run).len(),
        joined(origins_of(run)) == source_of(run),
        forall|i: int|
            0 <= i < tokens_of(run).len() ==> stands_for(
                #[trigger] tokens_of(run)[i],
                origins_of(run)[i],
            ),
    decreases run.len(),
{
    if run.len() > 0 {
        let init = run.drop_last();
        let last = run.last();
        lemma_run_in_order(init);
        lemma_joined_add(origins_of(init), segment_origins(last));
        match last {
            Segment::Plain(plain) => {
                lemma_joined_scalars(plain);
            },
            Segment::Reference { source, id } => {
                assert(seq![source].drop_last() =~= Seq::<Seq<char>>::empty());
                assert(joined(seq![source]) =~= source) by {
                    reveal_with_fuel(joined, 2);
                }
            },
        }
        assert forall|i: int| 0 <= i < tokens_of(run).len() implies stands_for(
            #[trigger] tokens_of(run)[i],
            origins_of(run)[i],
        ) by {
            let before = tokens_of(init).len() as int;
            if i >= before {
                assert(tokens_of(run)[i] == segment_tokens(last)[i - before]);
                assert(origins_of(run)[i] == segment_origins(last)[i - before]);
            } else {
                assert(tokens_of(run)[i] == tokens_of(init)[i]);
                assert(origins_of(run)[i] == origins_of(init)[i]);
            }
        }
    }
}

/// Completeness, for any run of segments: there is one token that is not a
/// custom emoji for each scalar value of plain text, and plain text and
/// markup together make up the text that the run covers.
pub proof fn lemma_run_complete(run: Seq<Segment>)
    ensures
        count_plain(tokens_of(run)) == plain_len(run),
        source_of(run).len() == plain_len(run) + markup_len(run),
    decreases run.len(),
{
    if run.len() > 0 {
        let init = run.drop_last();
        let last = run.last();
        lemma_run_complete(init);
        lemma_count_plain_add(tokens_of(init), segment_tokens(last));
        match last {
            Segment::Plain(plain) => {
                lemma_count_plain_text(plain);
            },
            Segment::Reference { source, id } => {
                let one = segment_tokens(last);
                assert(one.drop_last() =~= Seq::<TokenView>::empty());
                assert(count_plain(one) == 0) by {
                    reveal_with_fuel(count_plain, 2);
                }
            },
        }
    }
}

/// The segments up to the end of a match cover the text up to there.
pub proof fn lemma_leading_source(
    text: Seq<char>,
    ranges: Seq<(usize, usize)>,
    ids: Seq<Seq<char>>,
    n: nat,
)
    requires
        ordered_spans(ranges, text),
        n <= ranges.len(),
    ensures
        on_boundary(text, resume_at(ranges, n as int)),
        source_of(leading_segments(text, ranges, ids, n)) == byte_span(
            text,
            0,
            resume_at(ranges, n as int),
        ),
    decreases n,
{
    lemma_span_whole(text);
    if n == 0 {
        lemma_span_join(text, 0, 0, 0);
        assert(byte_span(text, 0, 0).len() == 0);
        assert(byte_span(text, 0, 0) =~= Seq::<char>::empty());
    } else {
        let k = (n - 1) as nat;
        let start = ranges[k as int].0 as int;
        let end = ranges[k as int].1 as int;
        let from = resume_at(ranges, k as int);
        lemma_leading_source(text, ranges, ids, k);
        assert(start <= end);
        if k > 0 {
            assert(ranges[k - 1].1 <= ranges[k as int].0);
        }
        let done = leading_segments(text, ranges, ids, k);
        let plain = Segment::Plain(byte_span(text, from, start));
        let reference = Segment::Reference {
            source: byte_span(text, start, end),
            id: ids[k as int],
        };
        let with_plain = done.push(plain);
        let with_both = with_plain.push(reference);
        assert(with_plain.drop_last() =~= done);
        assert(with_both.drop_last() =~= with_plain);
        assert(source_of(with_plain) == source_of(done) + byte_span(text, from, start));
        assert(source_of(with_both) == source_of(with_plain) + byte_span(text, start, end));
        lemma_span_join(text, 0, from, start);
        lemma_span_join(text, 0, start, end);
    }
}

/// Order preservation: the segments of a text cover it exactly. With each
/// token standing for its origin, the origins of the tokens join to the
/// text, in order and with nothing left out.
pub proof fn lemma_tokens_rebuild_text(
    text: Seq<char>,
    ranges: Seq<(usize, usize)>,
    ids: Seq<Seq<char>>,
)
    requires
        ordered_spans(ranges, text),
    ensures
        source_of(segments(text, ranges, ids)) == text,
        joined(origins_of(segments(text, ranges, ids))) == text,
        origins_of(segments(text, ranges, ids)).len() == tokens_of(
            segments(text, ranges, ids),
        ).len(),
        forall|i: int|
            0 <= i < tokens_of(segments(text, ranges, ids)).len() ==> stands_for(
                #[trigger] tokens_of(segments(text, ranges, ids))[i],
                origins_of(segments(text, ranges, ids))[i],
            ),
{
    let n = ranges.len();
    let end = encode_utf8(text).len() as int;
    let from = resume_at(ranges, n as int);
    let done = leading_segments(text, ranges, ids, n);
    let rest = Segment::Plain(byte_span(text, from, end));
    lemma_leading_source(text, ranges, ids, n);
    lemma_span_whole(text);
    lemma_span_join(text, 0, from, end);
    assert(done.push(rest).drop_last() =~= done);
    lemma_run_in_order(segments(text, ranges, ids));
}

/// Completeness: the tokens that are not custom emoji are as many as the
/// scalar values of the text outside the markup.
pub proof fn lemma_tokens_complete(
    text: Seq<char>,
    ranges: Seq<(usize, usize)>,
    ids: Seq<Seq<char>>,
)
    requires
        ordered_spans(ranges, text),
    ensures
        count_plain(tokens_of(segments(text, ranges, ids))) + markup_len(
            segments(text, ranges, ids),
        ) == text.len(),
{
    lemma_tokens_rebuild_text(text, ranges, ids);
    lemma_run_complete(segments(text, ranges, ids));
}

/// A text without markup is tokenized as plain text.
pub proof fn lemma_no_markup(text: Seq<char>, ids: Seq<Seq<char>>)
    ensures
        tokens_of(segments(text, Seq::empty(), ids)) == text_tokens(text),
{
    let ranges = Seq::<(usize, usize)>::empty();
    lemma_span_whole(text);
    let run = segments(text, ranges, ids);
    assert(run.drop_last() =~= Seq::<Segment>::empty());
    assert(tokens_of(run) =~= text_tokens(text)) by {
        reveal_with_fuel(tokens_of, 2);
    }
}

/// Plain scanning: one token per scalar value, each the token of that
/// value alone, none of them a custom emoji, and a text token always holds
/// exactly one scalar value.
pub proof fn lemma_text_tokens_shape(plain: Seq<char>)
    ensures
        text_tokens(plain).len() == plain.len(),
        forall|i: int|
            0 <= i < plain.len() ==> {
                &&& !((#[trigger] text_tokens(plain)[i]) is CustomEmoji)
                &&& text_tokens(plain)[i] is Text ==> text_tokens(plain)[i]->Text_0 == seq![
                    plain[i],
                ]
            },
{
}

/// An empty text has no tokens.
pub proof fn lemma_empty_text()
    ensures
        text_tokens(Seq::<char>::empty()) == Seq::<TokenView>::empty(),
{
    assert(text_tokens(Seq::<char>::empty()) =~= Seq::<TokenView>::empty());
}

/// A text of one scalar value has one token: the image that the emoji
/// table holds for it, or else the value itself as text.
pub proof fn lemma_single_scalar(c: char)
    ensures
        text_tokens(seq![c]) == seq![char_token(c)],
        emoji_image(seq![c]) is Some ==> char_token(c) == TokenView::Emoji(
            emoji_image(seq![c])->0,
        ),
        emoji_image(seq![c]) is None ==> char_token(c) == TokenView::Text(seq![c]),
{
    assert(text_tokens(seq![c]) =~= seq![char_token(c)]);
}

/// Whether `tokens` render `text` in order and completely, `run` being
/// the segments of the text: the tokens are those of the run, which covers
/// the text; each token stands for a stretch of the text, one scalar value
/// or one reference, and these stretches join to the text; and the tokens
/// that are not custom emoji are as many as the scalar values outside the
/// markup.
pub open spec fn renders(tokens: Seq<TokenView>, run: Seq<Segment>, text: Seq<char>) -> bool {
    &&& tokens == tokens_of(run)
    &&& source_of(run) == text
    &&& origins_of(run).len() == tokens.len()
    &&& joined(origins_of(run)) == text
    &&& forall|i: int|
        0 <= i < tokens.len() ==> stands_for(#[trigger] tokens[i], origins_of(run)[i])
    &&& count_plain(tokens) + markup_len(run) == text.len()
}

/// Order preservation and completeness together: the tokens of the
/// segments around any well-placed ranges render the text.
pub proof fn lemma_segments_render(
    text: Seq<char>,
    ranges: Seq<(usize, usize)>,
    ids: Seq<Seq<char>>,
)
    requires
        ordered_spans(ranges, text),
    ensures
        renders(tokens_of(segments(text, ranges, ids)), segments(text, ranges, ids), text),
{
    lemma_tokens_rebuild_text(text, ranges, ids);
    lemma_tokens_complete(text, ranges, ids);
}

} // verus!
