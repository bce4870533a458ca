use emoji_tokenizer::{
    assemble, check_pattern, parse, parse_with, raw_parse, raw_parse_emoji, try_parse, ScanError,
    Token, MARKUP_PATTERN,
};

fn text(s: &str) -> Token {
    Token::new_text(s.to_string())
}

fn custom(id: &str) -> Token {
    Token::new_custom_emoji(id.to_string())
}

#[test]
fn test_parse() {
    let s = "Hello <a:pepega:123456789012345678> World".to_string();
    let tokens = parse(s);
    assert_eq!(
        tokens,
        vec![
            Token::new_text("H".to_string()),
            Token::new_text("e".to_string()),
            Token::new_text("l".to_string()),
            Token::new_text("l".to_string()),
            Token::new_text("o".to_string()),
            Token::new_text(" ".to_string()),
            Token::new_custom_emoji("123456789012345678".to_string()),
            Token::new_text(" ".to_string()),
            Token::new_text("W".to_string()),
            Token::new_text("o".to_string()),
            Token::new_text("r".to_string()),
            Token::new_text("l".to_string()),
            Token::new_text("d".to_string()),
        ]
    );
}

#[test]
fn parse_yields_thirteen_tokens_for_the_greeting() {
    let tokens = parse("Hello <a:pepega:123456789012345678> World".to_string());
    assert_eq!(tokens.len(), 13);
    assert_eq!(
        tokens[6],
        Token::CustomEmoji(
            "https://cdn.discordapp.com/emojis/123456789012345678.png?size=96".to_string()
        )
    );
}

#[test]
fn custom_emoji_url_is_templated_from_the_id() {
    assert_eq!(
        Token::new_custom_emoji("42".to_string()),
        Token::CustomEmoji("https://cdn.discordapp.com/emojis/42.png?size=96".to_string())
    );
}

#[test]
fn constructors_wrap_their_argument() {
    assert_eq!(Token::new_text("ab".to_string()), Token::Text("ab".to_string()));
    assert_eq!(Token::new_emoji(vec![1, 2, 3]), Token::Emoji(vec![1, 2, 3]));
}

#[test]
fn plain_scan_treats_markup_as_characters() {
    let input = "Hello <a:pepega:123456789012345678> World";
    let tokens = raw_parse_emoji(input.to_string());
    let expected: Vec<Token> = input.chars().map(|c| Token::Text(c.to_string())).collect();
    assert_eq!(tokens.len(), 41);
    assert_eq!(tokens, expected);
    assert!(tokens.iter().all(|t| !matches!(t, Token::CustomEmoji(_))));
}

#[test]
fn empty_input_yields_no_tokens() {
    assert_eq!(parse(String::new()), vec![]);
    assert_eq!(raw_parse(String::new()), vec![]);
    assert_eq!(raw_parse_emoji(String::new()), vec![]);
    assert_eq!(try_parse(String::new()), Ok(vec![]));
}

#[test]
fn a_standard_emoji_becomes_its_image() {
    let image = rustwemoji::get("🤔").unwrap();
    assert_eq!(&image[..8], &[0x89, b'P', b'N', b'G', 0x0d, 0x0a, 0x1a, 0x0a]);
    assert_eq!(parse("🤔".to_string()), vec![Token::Emoji(image.clone())]);
    assert_eq!(raw_parse_emoji("🤔".to_string()), vec![Token::Emoji(image)]);
}

#[test]
fn an_unmapped_character_becomes_text() {
    assert_eq!(parse("a".to_string()), vec![text("a")]);
    assert_eq!(raw_parse_emoji("é".to_string()), vec![text("é")]);
}

#[test]
fn one_token_per_scalar_value() {
    // "e" followed by a combining acute accent: two scalar values, one grapheme.
    let tokens = raw_parse_emoji("e\u{301}".to_string());
    assert_eq!(tokens, vec![text("e"), text("\u{301}")]);
}

#[test]
fn parsing_twice_gives_equal_tokens() {
    let input = "a🤔<:x_1:12345678901234567>b";
    assert_eq!(parse(input.to_string()), parse(input.to_string()));
    assert_eq!(raw_parse_emoji(input.to_string()), raw_parse_emoji(input.to_string()));
}

#[test]
fn markup_between_multibyte_text() {
    let image = rustwemoji::get("🤔").unwrap();
    let tokens = parse("é<:x_1:12345678901234567>🤔ß".to_string());
    assert_eq!(
        tokens,
        vec![text("é"), custom("12345678901234567"), Token::Emoji(image), text("ß")]
    );
}

#[test]
fn adjoining_references_leave_no_text_between() {
    let tokens = parse("<:a:11111111111111111><a:b:2222222222222222222>".to_string());
    assert_eq!(tokens, vec![custom("11111111111111111"), custom("2222222222222222222")]);
}

#[test]
fn ids_of_sixteen_or_twenty_digits_are_not_markup() {
    let short = "<:n:1234567890123456>";
    let long = "<:n:12345678901234567890>";
    assert_eq!(parse(short.to_string()), raw_parse_emoji(short.to_string()));
    assert_eq!(parse(long.to_string()), raw_parse_emoji(long.to_string()));
    assert_eq!(parse(short.to_string()).len(), 21);
}

#[test]
fn non_custom_tokens_count_the_characters_outside_markup() {
    let input = "ab🤔 <a:wave:123456789012345678>çd<:k:12345678901234567>";
    let tokens = parse(input.to_string());
    let plain = tokens.iter().filter(|t| !matches!(t, Token::CustomEmoji(_))).count();
    let custom_count = tokens.len() - plain;
    assert_eq!(plain, 6);
    assert_eq!(custom_count, 2);
}

#[test]
fn try_parse_agrees_with_parse() {
    let input = "x<:y:123456789012345678>z";
    assert_eq!(check_pattern(MARKUP_PATTERN, input), Ok(()));
    assert_eq!(try_parse(input.to_string()), Ok(parse(input.to_string())));
}

#[test]
fn a_pattern_that_does_not_compile_is_bad() {
    assert_eq!(check_pattern("<a?:(", "x"), Err(ScanError::BadPattern));
    assert_eq!(check_pattern("[0-9", ""), Err(ScanError::BadPattern));
}

#[test]
fn a_pattern_without_an_id_group_misses_the_id() {
    assert_eq!(check_pattern("<:[a-z]+>", "a <:b> c"), Err(ScanError::MissingId));
    // Without a match nothing is missing.
    assert_eq!(check_pattern("<:[a-z]+>", "a b c"), Ok(()));
}

#[test]
fn a_match_that_needs_its_surroundings_misses_the_id() {
    assert_eq!(check_pattern(r"\b([0-9]+)\b", "x 12 y"), Ok(()));
    // Matched alone, the stretch no longer follows a letter.
    assert_eq!(check_pattern(r"\B(a)", "xa"), Err(ScanError::MissingId));
}

#[test]
fn the_markup_pattern_is_the_documented_one() {
    assert_eq!(MARKUP_PATTERN, "<a?:[a-zA-Z0-9_]+:([0-9]{17,19})>");
}

#[test]
fn assemble_splits_around_given_ranges() {
    let ranges = vec![(1, 3), (3, 4)];
    let ids = vec!["7".to_string(), "8".to_string()];
    let tokens = assemble("abcde", &ranges, &ids);
    assert_eq!(tokens, vec![text("a"), custom("7"), custom("8"), text("e")]);
}

#[test]
fn assemble_without_ranges_scans_the_whole_text() {
    let tokens = assemble("hi", &vec![], &vec![]);
    assert_eq!(tokens, vec![text("h"), text("i")]);
    assert_eq!(assemble("", &vec![], &vec![]), vec![]);
}

#[test]
fn parse_with_follows_the_mode() {
    let input = "Hi <:ok:123456789012345678>";
    assert_eq!(parse_with(input.to_string(), true), Ok(parse(input.to_string())));
    assert_eq!(parse_with(input.to_string(), false), Ok(raw_parse_emoji(input.to_string())));
    assert_eq!(parse_with(input.to_string(), true).unwrap().len(), 4);
    assert_eq!(parse_with(input.to_string(), false).unwrap().len(), 27);
}

#[test]
fn the_id_is_the_digits_of_the_markup() {
    let tokens = parse("<a:some_Name9:1234567890123456789>".to_string());
    assert_eq!(
        tokens,
        vec![Token::CustomEmoji(
            "https://cdn.discordapp.com/emojis/1234567890123456789.png?size=96".to_string()
        )]
    );
}

#[test]
fn broken_markup_stays_text() {
    let inputs = [
        "<b:x:123456789012345678>",
        "<:na me:123456789012345678>",
        "<::123456789012345678>",
        "<:x:123456789012345678",
    ];
    for input in inputs {
        assert_eq!(parse(input.to_string()), raw_parse_emoji(input.to_string()));
        assert_eq!(parse(input.to_string()).len(), input.chars().count());
    }
}

#[test]
fn lib_test_parse() {
    let s = "Hello <a:pepega:123456789012345678> World".to_string();
    let tokens = try_parse(s).unwrap();
    assert_eq!(
        tokens,
        vec![
            Token::new_text("H".to_string()),
            Token::new_text("e".to_string()),
            Token::new_text("l".to_string()),
            Token::new_text("l".to_string()),
            Token::new_text("o".to_string()),
            Token::new_text(" ".to_string()),
            Token::new_custom_emoji("123456789012345678".to_string()),
            Token::new_text(" ".to_string()),
            Token::new_text("W".to_string()),
            Token::new_text("o".to_string()),
            Token::new_text("r".to_string()),
            Token::new_text("l".to_string()),
            Token::new_text("d".to_string()),
        ]
    );
}

#[test]
fn tokens_read_back_as_the_message() {
    let first = "<a:wave:123456789012345678>";
    let second = "<:k:12345678901234567>";
    let input = format!("ab🤔 {}çd{}!", first, second);
    let tokens = parse(input.clone());
    let image = rustwemoji::get("🤔").unwrap();
    let mut markup = vec![first, second].into_iter();
    let mut read_back = String::new();
    for token in &tokens {
        match token {
            Token::Text(t) => {
                assert_eq!(t.chars().count(), 1);
                read_back.push_str(t);
            }
            Token::Emoji(bytes) => {
                assert_eq!(bytes, &image);
                read_back.push('🤔');
            }
            Token::CustomEmoji(url) => {
                let source = markup.next().unwrap();
                let id = &source[source.rfind(':').unwrap() + 1..source.len() - 1];
                assert_eq!(url, &format!("https://cdn.discordapp.com/emojis/{}.png?size=96", id));
                read_back.push_str(source);
            }
        }
    }
    assert_eq!(read_back, input);
    assert_eq!(tokens.len(), 9);
}

#[test]
fn the_leftmost_markup_is_taken_first() {
    let tokens = parse("<<:a:11111111111111111>>".to_string());
    assert_eq!(tokens, vec![text("<"), custom("11111111111111111"), text(">")]);
}
