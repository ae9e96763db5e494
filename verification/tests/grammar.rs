//! Cross-check of the tokenizer against the same grammar written with the
//! parser combinators of `combine`.

use boatypod::parser::tokenize_string;
use combine::error::{Consumed, ParseError};
use combine::parser::function::parser;
use combine::parser::item::{any, satisfy, satisfy_map, token};
use combine::parser::repeat::{many, many1, sep_by1, skip_many1};
use combine::parser::sequence::between;
use combine::stream::state::State;
use combine::{ParseResult, Parser, Stream};

/// One character of a quoted token: an escape or a plain character, and no
/// match at the closing quote.
fn quoted_char<I>(input: &mut I) -> ParseResult<char, I>
where
    I: Stream<Item = char>,
    I::Error: ParseError<I::Item, I::Range, I::Position>,
{
    let (c, consumed) = any().parse_stream(input)?;
    let mut escape_code = satisfy_map(|c| match c {
        '"' => Some('"'),
        '\\' => Some('\\'),
        'n' => Some('\n'),
        'r' => Some('\r'),
        't' => Some('\t'),
        'v' => Some('\x0b'),
        _ => None,
    });
    match c {
        '\\' => consumed.combine(|_| escape_code.parse_stream(input)),
        '"' => Err(Consumed::Empty(I::Error::empty(input.position()).into())),
        _ => Ok((c, consumed)),
    }
}

fn one_token<I>() -> impl Parser<Input = I, Output = String>
where
    I: Stream<Item = char>,
    I::Error: ParseError<I::Item, I::Range, I::Position>,
{
    let bare = many1(satisfy(|c| c != ' '));
    let quoted = between(token('"'), token('"'), many(parser(quoted_char)));
    quoted.or(bare)
}

fn by_combinators(line: &str) -> Option<Vec<String>> {
    let mut tokens = sep_by1(one_token(), skip_many1(token(' ')));
    let result: Result<(Vec<String>, _), _> = tokens.easy_parse(State::new(line));
    result.ok().map(|t| t.0)
}

fn compare(line: &str) {
    assert_eq!(tokenize_string(line), by_combinators(line), "line {:?}", line);
}

#[test]
fn agrees_on_chosen_lines() {
    for line in [
        "",
        " ",
        "foo",
        "foo bar \"foo bar\" \"a test\"",
        "http://x/a.mp3 \"/tmp/out dir/a.mp3\"",
        "justonetoken",
        "\"abc",
        "\"a\\\"b\"",
        "\"a\\\\b\"",
        "\"a\\qb\"",
        "\"\\n\\r\\t\\v\"",
        "\"abc\\",
        "foo ",
        " foo",
        "foo   bar",
        "\"foo\"bar",
        "\"foo\" bar",
        "\"foo\"\tbar",
        "foo\tbar",
        "a\"b c",
        "\"\"",
        "\"\" \"\"",
        "ä \"ö ü\"",
    ] {
        compare(line);
    }
}

#[test]
fn agrees_on_every_short_line() {
    let alphabet = ['a', ' ', '"', '\\', 'n'];
    let mut lines: Vec<String> = vec![String::new()];
    let mut start = 0;
    for _ in 0..7 {
        let end = lines.len();
        for k in start..end {
            for c in alphabet {
                let mut longer = lines[k].clone();
                longer.push(c);
                lines.push(longer);
            }
        }
        start = end;
    }
    assert_eq!(lines.len(), 97656);
    for line in &lines {
        compare(line);
    }
}
