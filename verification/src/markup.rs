//! Custom-emoji markup: finding the references in a message and putting the
//! token stream together around them.

use crate::emoji::{push_text_tokens, raw_parse_emoji, text_tokens};
use crate::laws::{lemma_segments_render, renders};
use crate::segment::{
    id_views, leading_segments, lemma_tokens_of_push, ordered_spans, resume_at, segment_tokens,
    segments, tokens_of, Segment,
};
use crate::span::{byte_span, lemma_span_whole, on_boundary, span};
use crate::token::{token_views, Token, TokenView};
use regex::Regex;
use vstd::pervasive::unreached;
use vstd::prelude::*;
use vstd::string::*;
use vstd::utf8::*;

verus! {

/// The markup of a custom emoji: `<`, an optional `a`, `:`, a name, `:`,
/// an id of 17 to 19 digits (the one capture group), `>`.
pub const MARKUP_PATTERN: &'static str = "<a?:[a-zA-Z0-9_]+:([0-9]{17,19})>";

/// The capture group of [`MARKUP_PATTERN`] that holds the id.
pub const ID_GROUP: usize = 1;

#[verifier::external_type_specification]
#[verifier::external_body]
pub struct ExRegex(regex::Regex);

#[verifier::external_type_specification]
#[verifier::external_body]
pub struct ExRegexError(regex::Error);

/// The regex that the engine compiles `pattern` to, or `None` where it
/// refuses the pattern.
pub uninterp spec fn compiled_pattern(pattern: Seq<char>) -> Option<Regex>;

/// The byte ranges of the successive matches of `re` in `text`.
pub uninterp spec fn match_ranges(re: Regex, text: Seq<char>) -> Seq<(usize, usize)>;

/// What capture group `group` of the first match of `re` in `text` holds,
/// if there is a match and the group took part in it.
pub uninterp spec fn captured_group(re: Regex, text: Seq<char>, group: usize) -> Option<Seq<char>>;

/// Calls `Regex::new`. What it answers depends on the pattern alone and is
/// named [`compiled_pattern`]: the compiled regex, or an error where the
/// engine refuses the pattern. Nothing is claimed of which patterns it
/// accepts.
#[verifier::external_body]
fn compile(pattern: &str) -> (compiled: Result<Regex, regex::Error>)
    ensures
        match compiled {
            Ok(re) => compiled_pattern(pattern@) == Some(re),
            Err(_) => compiled_pattern(pattern@) is None,
        },
{
    Regex::new(pattern)
}

/// Calls `Regex::find_iter` and collects the start and end of each match.
/// The matches of a regex in a text are named [`match_ranges`]. Claimed
/// beyond the name, as the documentation of `Match::start`, `Match::end`
/// and `find_iter` has it: each match has its start before its end, both
/// on character boundaries of `text`, and the matches come from left to
/// right and do not overlap.
#[verifier::external_body]
fn find_ranges(re: &Regex, text: &str) -> (ranges: Vec<(usize, usize)>)
    ensures
        ranges@ == match_ranges(*re, text@),
        ordered_spans(ranges@, text@),
{
    re.find_iter(text).map(|m| (m.start(), m.end())).collect()
}

/// Calls `Regex::captures` and `Captures::get`, and copies the text of the
/// group. The result is named [`captured_group`]; it is `None` where the
/// regex has no match in `text` and where the group took no part in it.
#[verifier::external_body]
fn capture_group(re: &Regex, text: &str, group: usize) -> (found: Option<String>)
    ensures
        match found {
            Some(id) => captured_group(*re, text@, group) == Some(id@),
            None => captured_group(*re, text@, group) is None,
        },
{
    re.captures(text).and_then(|c| c.get(group)).map(|m| m.as_str().to_string())
}

/// Puts the token stream of `text` together, given the byte ranges of the
/// markup in it and the id that each names: the plain text around the
/// ranges is scanned for emoji, and each range becomes one custom-emoji
/// token. The tokens render the text in order and completely.
pub fn assemble(text: &str, ranges: &Vec<(usize, usize)>, ids: &Vec<String>) -> (tokens: Vec<
    Token,
>)
    requires
        ordered_spans(ranges@, text@),
        ids.len() == ranges.len(),
    ensures
        token_views(tokens@) == tokens_of(segments(text@, ranges@, id_views(ids@))),
        renders(token_views(tokens@), segments(text@, ranges@, id_views(ids@)), text@),
{
    let mut tokens: Vec<Token> = Vec::new();
    let mut last: usize = 0;
    let mut i: usize = 0;
    proof {
        lemma_segments_render(text@, ranges@, id_views(ids@));
        lemma_span_whole(text@);
        assert(token_views(tokens@) =~= Seq::<TokenView>::empty());
    }
    while i < ranges.len()
        invariant
            i <= ranges.len(),
            ids.len() == ranges.len(),
            ordered_spans(ranges@, text@),
            last == resume_at(ranges@, i as int),
            on_boundary(text@, last as int),
            token_views(tokens@) == tokens_of(
                leading_segments(text@, ranges@, id_views(ids@), i as nat),
            ),
        decreases ranges.len() - i,
    {
        let start = ranges[i].0;
        let end = ranges[i].1;
        let ghost done = leading_segments(text@, ranges@, id_views(ids@), i as nat);
        let ghost plain = Segment::Plain(byte_span(text@, last as int, start as int));
        let ghost reference = Segment::Reference {
            source: byte_span(text@, start as int, end as int),
            id: ids[i as int]@,
        };
        proof {
            assert(ranges@[i as int].0 <= ranges@[i as int].1);
            if i > 0 {
                assert(ranges@[i - 1].1 <= ranges@[i as int].0);
            }
        }
        push_text_tokens(&mut tokens, span(text, last, start));
        let ghost scanned = tokens@;
        tokens.push(Token::new_custom_emoji(ids[i].clone()));
        proof {
            assert(token_views(tokens@) =~= token_views(scanned) + segment_tokens(reference));
            lemma_tokens_of_push(done, plain);
            lemma_tokens_of_push(done.push(plain), reference);
            assert(id_views(ids@)[i as int] == ids[i as int]@);
        }
        last = end;
        i = i + 1;
    }
    proof {
        lemma_span_whole(text@);
        lemma_tokens_of_push(
            leading_segments(text@, ranges@, id_views(ids@), ranges.len() as nat),
            Segment::Plain(byte_span(text@, last as int, encode_utf8(text@).len() as int)),
        );
    }
    let end: usize = text.as_bytes().len();
    push_text_tokens(&mut tokens, span(text, last, end));
    tokens
}

/// Why a message cannot be scanned for markup.
#[derive(Debug, Clone, Copy, PartialEq, Eq)]
pub enum ScanError {
    /// The regex engine does not accept the pattern.
    BadPattern,
    /// A stretch that matched the pattern yields no id when matched alone.
    MissingId,
}

/// The id that the markup at `range` of `text` names: what the id group
/// captures when `re` is matched against that stretch alone.
pub open spec fn markup_id(re: Regex, text: Seq<char>, range: (usize, usize)) -> Option<Seq<char>> {
    captured_group(re, byte_span(text, range.0 as int, range.1 as int), ID_GROUP)
}

/// Whether each of `ranges` names an id.
pub open spec fn ids_found(re: Regex, text: Seq<char>, ranges: Seq<(usize, usize)>) -> bool {
    forall|i: int| 0 <= i < ranges.len() ==> markup_id(re, text, #[trigger] ranges[i]) is Some
}

/// The ids that `ranges` name, in order.
pub open spec fn found_ids(re: Regex, text: Seq<char>, ranges: Seq<(usize, usize)>) -> Seq<
    Seq<char>,
> {
    ranges.map_values(|range: (usize, usize)| markup_id(re, text, range)->0)
}

/// Whether the regex engine accepts [`MARKUP_PATTERN`].
pub open spec fn pattern_accepted() -> bool {
    compiled_pattern(MARKUP_PATTERN@) is Some
}

/// The compiled [`MARKUP_PATTERN`].
pub open spec fn markup_regex() -> Regex {
    compiled_pattern(MARKUP_PATTERN@)->0
}

/// Whether `pattern` can be used to scan `text`: the regex engine accepts
/// it, and every match of it in `text` names an id.
pub open spec fn pattern_scans(pattern: Seq<char>, text: Seq<char>) -> bool {
    &&& compiled_pattern(pattern) is Some
    &&& ids_found(
        compiled_pattern(pattern)->0,
        text,
        match_ranges(compiled_pattern(pattern)->0, text),
    )
}

/// Whether `text` can be scanned with [`MARKUP_PATTERN`].
pub open spec fn scannable(text: Seq<char>) -> bool {
    pattern_scans(MARKUP_PATTERN@, text)
}

/// The segments of `text` around the matches of [`MARKUP_PATTERN`].
pub open spec fn markup_segments(text: Seq<char>) -> Seq<Segment> {
    let ranges = match_ranges(markup_regex(), text);
    segments(text, ranges, found_ids(markup_regex(), text, ranges))
}

/// The token stream of `text` with custom-emoji markup recognised.
pub open spec fn parsed_tokens(text: Seq<char>) -> Seq<TokenView> {
    tokens_of(markup_segments(text))
}

/// Extracts the id of each range of markup, or answers `None` as soon as
/// one of them yields none.
fn capture_ids(re: &Regex, text: &str, ranges: &Vec<(usize, usize)>) -> (ids: Option<Vec<String>>)
    requires
        ordered_spans(ranges@, text@),
    ensures
        ids is Some <==> ids_found(*re, text@, ranges@),
        ids is Some ==> ids->0.len() == ranges.len(),
        ids is Some ==> id_views(ids->0@) == found_ids(*re, text@, ranges@),
{
    let mut ids: Vec<String> = Vec::new();
    let mut i: usize = 0;
    while i < ranges.len()
        invariant
            i <= ranges.len(),
            ids.len() == i,
            ordered_spans(ranges@, text@),
            forall|k: int|
                0 <= k < i ==> markup_id(*re, text@, #[trigger] ranges@[k]) == Some(ids@[k]@),
        decreases ranges.len() - i,
    {
        let range = ranges[i];
        let emoji = span(text, range.0, range.1);
        match capture_group(re, emoji, ID_GROUP) {
            Some(id) => {
                ids.push(id);
            },
            None => {
                assert(markup_id(*re, text@, ranges@[i as int]) is None);
                return None;
            },
        }
        i = i + 1;
    }
    assert(id_views(ids@) =~= found_ids(*re, text@, ranges@));
    Some(ids)
}

/// Tells whether `pattern` can be used to scan `s` for markup, and why
/// not: the regex engine refuses it, or one of its matches in `s` names no
/// id.
pub fn check_pattern(pattern: &str, s: &str) -> (outcome: Result<(), ScanError>)
    ensures
        outcome is Ok <==> pattern_scans(pattern@, s@),
        outcome == Err::<(), ScanError>(ScanError::BadPattern) <==> compiled_pattern(
            pattern@,
        ) is None,
{
    match compile(pattern) {
        Ok(re) => {
            let ranges = find_ranges(&re, s);
            match capture_ids(&re, s, &ranges) {
                Some(_) => Ok(()),
                None => Err(ScanError::MissingId),
            }
        },
        Err(_) => Err(ScanError::BadPattern),
    }
}

/// Tokenizes `s` with custom-emoji markup recognised: the text around each
/// reference is scanned for emoji, and each reference becomes one
/// custom-emoji token.
pub fn raw_parse(s: String) -> (tokens: Vec<Token>)
    requires
        scannable(s@),
    ensures
        token_views(tokens@) == parsed_tokens(s@),
        renders(token_views(tokens@), markup_segments(s@), s@),
{
    match compile(MARKUP_PATTERN) {
        Ok(re) => {
            let ranges = find_ranges(&re, s.as_str());
            match capture_ids(&re, s.as_str(), &ranges) {
                Some(ids) => assemble(s.as_str(), &ranges, &ids),
                None => unreached(),
            }
        },
        Err(_) => unreached(),
    }
}

/// Parse a string to tokens
pub fn parse(s: String) -> (tokens: Vec<Token>)
    requires
        scannable(s@),
    ensures
        token_views(tokens@) == parsed_tokens(s@),
        renders(token_views(tokens@), markup_segments(s@), s@),
{
    raw_parse(s)
}

/// Parses `s` where it can be scanned, and says why where it cannot: it
/// checks the pattern against `s` first, and parses only then.
pub fn try_parse(s: String) -> (outcome: Result<Vec<Token>, ScanError>)
    ensures
        outcome is Ok <==> scannable(s@),
        outcome is Ok ==> token_views(outcome->Ok_0@) == parsed_tokens(s@),
        outcome is Ok ==> renders(token_views(outcome->Ok_0@), markup_segments(s@), s@),
        outcome is Err ==> (outcome->Err_0 == ScanError::BadPattern <==> !pattern_accepted()),
{
    match check_pattern(MARKUP_PATTERN, s.as_str()) {
        Ok(_) => Ok(parse(s)),
        Err(e) => Err(e),
    }
}

/// Tokenizes `s` with custom-emoji markup recognised or not, as
/// `custom_emoji` says. Without it the whole of `s` is plain text, and
/// nothing can fail.
pub fn parse_with(s: String, custom_emoji: bool) -> (outcome: Result<Vec<Token>, ScanError>)
    ensures
        outcome is Ok <==> !custom_emoji || scannable(s@),
        outcome is Ok ==> token_views(outcome->Ok_0@) == (if custom_emoji {
            parsed_tokens(s@)
        } else {
            text_tokens(s@)
        }),
        outcome is Err ==> (outcome->Err_0 == ScanError::BadPattern <==> !pattern_accepted()),
{
    if custom_emoji {
        try_parse(s)
    } else {
        Ok(raw_parse_emoji(s))
    }
}

/// Tokenizing is a function of the text: two token streams that the
/// tokenizer gives for one text are equal.
pub proof fn lemma_parse_deterministic(
    text: Seq<char>,
    first: Seq<TokenView>,
    second: Seq<TokenView>,
)
    requires
        first == parsed_tokens(text),
        second == parsed_tokens(text),
    ensures
        first == second,
{
}

} // verus!
