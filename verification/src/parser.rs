//! The queue-line tokenizer.
//!
//! A line is a sequence of tokens separated by one or more spaces:
//!
//! ```text
//! line    := token (space+ token)*
//! token   := quoted | bare
//! bare    := one or more characters, none of them a space
//! quoted  := '"' (escape | any character but '"' and '\')* '"'
//! escape  := '\' followed by one of  "  \  n  r  t  v
//! ```
//!
//! Only the space character separates tokens; a tab is a character like any
//! other. A token that begins with `"` is always read as a quoted token. A
//! line that does not begin with a token, a separator that no token follows,
//! a quoted token that is not closed, or a backslash before any other
//! character makes the whole line fail: there is no partial result. Text that
//! follows a closing quote directly, without a space, ends the token list and
//! is not looked at.

use vstd::prelude::*;
use crate::text::{
    chars_of, leading, lemma_leading_bound, lemma_leading_is, lemma_leading_run, only, other_than,
    read_until, skip_all,
};

verus! {

/// A token and the text that follows it.
pub type Scan = (Seq<char>, Seq<char>);

/// Whether `c` may follow a backslash inside a quoted token.
pub open spec fn is_escape_code(c: char) -> bool {
    c == '"' || c == '\\' || c == 'n' || c == 'r' || c == 't' || c == 'v'
}

/// The character that a backslash followed by the escape code `c` stands
/// for: a newline for `n`, a carriage return for `r`, a tab for `t`, a
/// vertical tab for `v`, and `c` itself for the quote and the backslash.
pub open spec fn escape_value(c: char) -> char {
    if c == 'n' {
        '\n'
    } else if c == 'r' {
        '\r'
    } else if c == 't' {
        '\t'
    } else if c == 'v' {
        '\x0b'
    } else {
        c
    }
}

/// `scan` with `prefix` put in front of its token.
pub open spec fn with_prefix(prefix: Seq<char>, scan: Option<Scan>) -> Option<Scan> {
    match scan {
        Some((token, rest)) => Some((prefix + token, rest)),
        None => None,
    }
}

/// The rest of a quoted token, where `s` is the text after its opening quote:
/// the token's value up to the closing quote, with each escape replaced by
/// the character it stands for, and the text after the closing quote. `None`
/// if `s` holds no closing quote or a backslash that starts no escape.
pub open spec fn quoted(s: Seq<char>) -> Option<Scan>
    decreases s.len(),
{
    if s.len() == 0 {
        None
    } else if s[0] == '"' {
        Some((Seq::empty(), s.skip(1)))
    } else if s[0] == '\\' {
        if s.len() >= 2 && is_escape_code(s[1]) {
            with_prefix(seq![escape_value(s[1])], quoted(s.skip(2)))
        } else {
            None
        }
    } else {
        with_prefix(seq![s[0]], quoted(s.skip(1)))
    }
}

/// The token at the front of `s` and the text after it; `None` if `s` is
/// empty, begins with a space, or begins with a quoted token that fails.
pub open spec fn first_token(s: Seq<char>) -> Option<Scan> {
    if s.len() == 0 || s[0] == ' ' {
        None
    } else if s[0] == '"' {
        quoted(s.skip(1))
    } else {
        let n = leading(s, other_than(' ')) as int;
        Some((s.take(n), s.skip(n)))
    }
}

/// `more` with the tokens `head` put in front.
pub open spec fn prepend(head: Seq<Seq<char>>, more: Option<Seq<Seq<char>>>) -> Option<
    Seq<Seq<char>>,
> {
    match more {
        Some(tokens) => Some(head + tokens),
        None => None,
    }
}

/// The tokens of `line`, or `None` if the line as a whole cannot be read.
///
/// The line begins with a token. Where a space follows it, the spaces are
/// passed over and the rest must hold the further tokens. Where the line
/// ends after the token, or goes on with anything but a space, the token is
/// the last.
pub open spec fn tokens_of(line: Seq<char>) -> Option<Seq<Seq<char>>>
    decreases line.len(),
{
    match first_token(line) {
        None => None,
        Some((token, rest)) => {
            if rest.len() > 0 && rest[0] == ' ' {
                proof {
                    lemma_first_token_rest(line);
                    lemma_leading_bound(rest, only(' '));
                }
                prepend(seq![token], tokens_of(rest.skip(leading(rest, only(' ')) as int)))
            } else {
                Some(seq![token])
            }
        },
    }
}

/// What follows a quoted token is a proper suffix of the text it was read from.
pub proof fn lemma_quoted_rest(s: Seq<char>)
    ensures
        quoted(s) matches Some((_, rest)) ==> rest.len() < s.len() && rest == s.skip(
            s.len() - rest.len(),
        ),
    decreases s.len(),
{
    if s.len() == 0 || s[0] == '"' {
    } else if s[0] == '\\' {
        if s.len() >= 2 && is_escape_code(s[1]) {
            lemma_quoted_rest(s.skip(2));
        }
    } else {
        lemma_quoted_rest(s.skip(1));
    }
}

/// What follows the first token is a proper suffix of the text.
pub proof fn lemma_first_token_rest(s: Seq<char>)
    ensures
        first_token(s) matches Some((_, rest)) ==> rest.len() < s.len() && rest == s.skip(
            s.len() - rest.len(),
        ),
{
    if s.len() == 0 || s[0] == ' ' {
    } else if s[0] == '"' {
        lemma_quoted_rest(s.skip(1));
    } else {
        lemma_leading_bound(s, other_than(' '));
        assert(leading(s, other_than(' ')) >= 1);
    }
}

/// The character that a backslash followed by `c` stands for, if `c` is an
/// escape code.
fn unescape(c: char) -> (value: Option<char>)
    ensures
        value == (if is_escape_code(c) {
            Some(escape_value(c))
        } else {
            None
        }),
{
    if c == '"' || c == '\\' {
        Some(c)
    } else if c == 'n' {
        Some('\n')
    } else if c == 'r' {
        Some('\r')
    } else if c == 't' {
        Some('\t')
    } else if c == 'v' {
        Some('\x0b')
    } else {
        None
    }
}

/// Reads the rest of a quoted token whose opening quote stands just before
/// index `start`. Gives the token's value and the index after its closing quote.
fn read_quoted(chars: &Vec<char>, start: usize) -> (r: Option<(String, usize)>)
    requires
        start <= chars.len(),
    ensures
        match r {
            Some((token, end)) => start < end <= chars.len() && quoted(chars@.skip(start as int))
                == Some((token@, chars@.skip(end as int))),
            None => quoted(chars@.skip(start as int)) is None,
        },
{
    let mut token = String::new();
    let mut i: usize = start;
    loop
        invariant
            start <= i <= chars.len(),
            quoted(chars@.skip(start as int)) == with_prefix(token@, quoted(chars@.skip(i as int))),
        decreases chars.len() - i,
    {
        let ghost here = chars@.skip(i as int);
        if i >= chars.len() {
            return None;
        }
        let c = chars[i];
        if c == '"' {
            return Some((token, i + 1));
        }
        if c == '\\' {
            if i + 1 >= chars.len() {
                return None;
            }
            match unescape(chars[i + 1]) {
                None => {
                    return None;
                },
                Some(value) => {
                    assert(here.skip(2) == chars@.skip(i + 2));
                    token.push(value);
                    i += 2;
                },
            }
        } else {
            assert(here.skip(1) == chars@.skip(i + 1));
            token.push(c);
            i += 1;
        }
    }
}

/// Reads the token that begins at index `start`. Gives the token and the
/// index after it.
fn read_token(chars: &Vec<char>, start: usize) -> (r: Option<(String, usize)>)
    requires
        start <= chars.len(),
    ensures
        match r {
            Some((token, end)) => start < end <= chars.len() && first_token(
                chars@.skip(start as int),
            ) == Some((token@, chars@.skip(end as int))),
            None => first_token(chars@.skip(start as int)) is None,
        },
{
    let ghost here = chars@.skip(start as int);
    if start >= chars.len() {
        return None;
    }
    let c = chars[start];
    if c == ' ' {
        None
    } else if c == '"' {
        assert(here.skip(1) == chars@.skip(start + 1));
        read_quoted(chars, start + 1)
    } else {
        let (token, end) = read_until(chars, start, ' ');
        assert(leading(here, other_than(' ')) >= 1);
        Some((token, end))
    }
}

/// Splits `text` into its tokens.
///
/// Returns the tokens of the line in order, or `None` where the line cannot
/// be read as tokens separated by spaces: see `tokens_of`. A list that is
/// returned holds at least one token.
pub fn tokenize_string(text: &str) -> (tokens: Option<Vec<String>>)
    ensures
        tokens.deep_view() == tokens_of(text@),
        tokens matches Some(list) ==> list.len() >= 1,
{
    let chars = chars_of(text);
    let mut tokens: Vec<String> = Vec::new();
    let mut i: usize = 0;
    assert(chars@.skip(0) == chars@);
    loop
        invariant
            chars@ == text@,
            i <= chars.len(),
            tokens_of(text@) == prepend(tokens.deep_view(), tokens_of(chars@.skip(i as int))),
        decreases chars.len() - i,
    {
        match read_token(&chars, i) {
            None => {
                return None;
            },
            Some((token, end)) => {
                let ghost rest = chars@.skip(end as int);
                tokens.push(token);
                if end < chars.len() && chars[end] == ' ' {
                    let next = skip_all(&chars, end, ' ');
                    assert(rest.skip(next - end) == chars@.skip(next as int));
                    i = next;
                } else {
                    return Some(tokens);
                }
            },
        }
    }
}

/// A line that can be read has at least one token.
pub proof fn lemma_tokens_nonempty(line: Seq<char>)
    ensures
        tokens_of(line) matches Some(tokens) ==> tokens.len() >= 1,
{
}

/// A bare token is not empty and holds no space, and the text after it is
/// what is left of the line.
pub proof fn lemma_bare_token(s: Seq<char>)
    requires
        s.len() > 0,
        s[0] != ' ',
        s[0] != '"',
    ensures
        first_token(s) matches Some((token, rest)) && token.len() >= 1 && token + rest == s && (
        forall|i: int| 0 <= i < token.len() ==> token[i] != ' '),
{
    let keep = other_than(' ');
    let n = leading(s, keep) as int;
    lemma_leading_run(s, keep);
    assert(forall|i: int| 0 <= i < n ==> s.take(n)[i] != ' ');
}

/// The text that stands for `value` between the quotes of a quoted token:
/// `value` with a backslash put before each quote and each backslash.
pub open spec fn escaped(value: Seq<char>) -> Seq<char>
    decreases value.len(),
{
    if value.len() == 0 {
        Seq::empty()
    } else if value[0] == '"' || value[0] == '\\' {
        seq!['\\', value[0]] + escaped(value.skip(1))
    } else {
        seq![value[0]] + escaped(value.skip(1))
    }
}

/// The quoted token that is read as `value`: its escaped form between two quotes.
pub open spec fn in_quotes(value: Seq<char>) -> Seq<char> {
    seq!['"'] + escaped(value) + seq!['"']
}

/// A line that is read as `tokens`: each of them in quotes, with one space
/// between neighbours.
pub open spec fn written(tokens: Seq<Seq<char>>) -> Seq<char>
    decreases tokens.len(),
{
    if tokens.len() == 0 {
        Seq::empty()
    } else if tokens.len() == 1 {
        in_quotes(tokens[0])
    } else {
        in_quotes(tokens[0]) + seq![' '] + written(tokens.skip(1))
    }
}

/// Whether neither a quote nor a backslash occurs in `s`.
pub open spec fn is_plain(s: Seq<char>) -> bool {
    forall|i: int| 0 <= i < s.len() ==> s[i] != '"' && s[i] != '\\'
}

/// Whether `gap` is a separator: one or more spaces and nothing else.
pub open spec fn is_gap(gap: Seq<char>) -> bool {
    gap.len() > 0 && forall|i: int| 0 <= i < gap.len() ==> gap[i] == ' '
}

/// Escaping leaves a text without quotes and backslashes as it is.
pub proof fn lemma_escaped_plain(s: Seq<char>)
    requires
        is_plain(s),
    ensures
        escaped(s) == s,
    decreases s.len(),
{
    if s.len() > 0 {
        assert(is_plain(s.skip(1)));
        lemma_escaped_plain(s.skip(1));
    }
}

/// Reading undoes escaping: after an opening quote, the escaped form of any
/// `value`, a closing quote and then `tail` are read as the token `value`,
/// with `tail` left over.
pub proof fn lemma_quoted_escaped(value: Seq<char>, tail: Seq<char>)
    ensures
        quoted(escaped(value) + seq!['"'] + tail) == Some((value, tail)),
    decreases value.len(),
{
    let text = escaped(value) + seq!['"'] + tail;
    if value.len() > 0 {
        let rest = value.skip(1);
        let next = escaped(rest) + seq!['"'] + tail;
        lemma_quoted_escaped(rest, tail);
        if value[0] == '"' || value[0] == '\\' {
            assert(text.skip(2) == next);
        } else {
            assert(text.skip(1) == next);
        }
    }
}

/// The escape round trip: any `value`, escaped and put between two quotes,
/// is a line whose only token is `value`.
pub proof fn lemma_escaped_round_trip(value: Seq<char>)
    ensures
        tokens_of(in_quotes(value)) == Some(seq![value]),
{
    lemma_quoted_escaped(value, Seq::empty());
    assert(in_quotes(value).skip(1) == escaped(value) + seq!['"'] + Seq::<char>::empty());
}

/// The quoted round trip: a text in which neither a quote nor a backslash
/// occurs, put between two quotes, is a line whose only token is that text,
/// spaces and all.
pub proof fn lemma_quoted_round_trip(s: Seq<char>)
    requires
        is_plain(s),
    ensures
        tokens_of(seq!['"'] + s + seq!['"']) == Some(seq![s]),
{
    lemma_escaped_plain(s);
    lemma_escaped_round_trip(s);
}

/// Without a quote in it, `s` cannot close a quoted token.
pub proof fn lemma_quoted_needs_quote(s: Seq<char>)
    requires
        forall|i: int| 0 <= i < s.len() ==> s[i] != '"',
    ensures
        quoted(s) is None,
    decreases s.len(),
{
    if s.len() == 0 {
    } else if s[0] == '\\' {
        if s.len() >= 2 && is_escape_code(s[1]) {
            assert(forall|i: int| 0 <= i < s.len() - 2 ==> s.skip(2)[i] != '"');
            lemma_quoted_needs_quote(s.skip(2));
        }
    } else {
        assert(forall|i: int| 0 <= i < s.len() - 1 ==> s.skip(1)[i] != '"');
        lemma_quoted_needs_quote(s.skip(1));
    }
}

/// An unterminated quote fails the line: an opening quote with no further
/// quote after it gives no tokens at all.
pub proof fn lemma_unterminated_quote(s: Seq<char>)
    requires
        forall|i: int| 0 <= i < s.len() ==> s[i] != '"',
    ensures
        tokens_of(seq!['"'] + s) is None,
{
    let line = seq!['"'] + s;
    assert(line.skip(1) == s);
    lemma_quoted_needs_quote(s);
}

/// The escaped form of a value never closes a quoted token: the quotes in it
/// are all escaped.
pub proof fn lemma_escaped_stays_open(value: Seq<char>)
    ensures
        quoted(escaped(value)) is None,
    decreases value.len(),
{
    let text = escaped(value);
    if value.len() > 0 {
        lemma_escaped_stays_open(value.skip(1));
        if value[0] == '"' || value[0] == '\\' {
            assert(text.skip(2) == escaped(value.skip(1)));
        } else {
            assert(text.skip(1) == escaped(value.skip(1)));
        }
    }
}

/// An unterminated quote fails the line also where escaped quotes follow:
/// an opening quote and the escaped form of any value, without the closing
/// quote, give no tokens at all.
pub proof fn lemma_unclosed_quote(value: Seq<char>)
    ensures
        tokens_of(seq!['"'] + escaped(value)) is None,
{
    let line = seq!['"'] + escaped(value);
    assert(line.skip(1) == escaped(value));
    lemma_escaped_stays_open(value);
}

/// The tokens of a line whose first token and the text after it are known,
/// where that text is a separator followed by `more`.
proof fn lemma_token_then(line: Seq<char>, token: Seq<char>, gap: Seq<char>, more: Seq<char>)
    requires
        first_token(line) == Some((token, gap + more)),
        is_gap(gap),
        more.len() > 0 ==> more[0] != ' ',
    ensures
        tokens_of(line) == prepend(seq![token], tokens_of(more)),
{
    let rest = gap + more;
    assert(forall|j: int| 0 <= j < gap.len() ==> only(' ')(#[trigger] rest[j]));
    lemma_leading_is(rest, only(' '), gap.len() as int);
    assert(rest.skip(gap.len() as int) == more);
}

/// Failure is of the whole line, and spaces collapse: where a bare `word` is
/// followed by one or more spaces and then by `more`, the line's tokens are
/// `word` and then the tokens of `more`; where `more` cannot be read, neither
/// can the line.
pub proof fn lemma_word_then(word: Seq<char>, gap: Seq<char>, more: Seq<char>)
    requires
        word.len() > 0,
        word[0] != '"',
        forall|i: int| 0 <= i < word.len() ==> word[i] != ' ',
        is_gap(gap),
        more.len() > 0 ==> more[0] != ' ',
    ensures
        tokens_of(word + gap + more) == prepend(seq![word], tokens_of(more)),
{
    let line = word + gap + more;
    let n = word.len() as int;
    assert(forall|j: int| 0 <= j < n ==> other_than(' ')(#[trigger] line[j]));
    lemma_leading_is(line, other_than(' '), n);
    assert(line.take(n) == word);
    assert(line.skip(n) == gap + more);
    lemma_token_then(line, word, gap, more);
}

/// The same for a quoted token: where the quoted form of `value` is followed
/// by one or more spaces and then by `more`, the line's tokens are `value`
/// and then the tokens of `more`; where `more` cannot be read, neither can
/// the line.
pub proof fn lemma_quoted_then(value: Seq<char>, gap: Seq<char>, more: Seq<char>)
    requires
        is_gap(gap),
        more.len() > 0 ==> more[0] != ' ',
    ensures
        tokens_of(in_quotes(value) + gap + more) == prepend(seq![value], tokens_of(more)),
{
    let line = in_quotes(value) + gap + more;
    lemma_quoted_escaped(value, gap + more);
    assert(line.skip(1) == escaped(value) + seq!['"'] + (gap + more));
    lemma_token_then(line, value, gap, more);
}

/// A quoted token ends the list where anything but a space follows its
/// closing quote: what follows is not read.
pub proof fn lemma_quoted_stops(value: Seq<char>, tail: Seq<char>)
    requires
        tail.len() > 0,
        tail[0] != ' ',
    ensures
        tokens_of(in_quotes(value) + tail) == Some(seq![value]),
{
    let line = in_quotes(value) + tail;
    lemma_quoted_escaped(value, tail);
    assert(line.skip(1) == escaped(value) + seq!['"'] + tail);
}

/// Every list of tokens can be written down: the line `written(tokens)` is
/// read as exactly `tokens`, whatever characters they hold.
pub proof fn lemma_written_round_trip(tokens: Seq<Seq<char>>)
    requires
        tokens.len() > 0,
    ensures
        tokens_of(written(tokens)) == Some(tokens),
    decreases tokens.len(),
{
    if tokens.len() == 1 {
        lemma_escaped_round_trip(tokens[0]);
    } else {
        let more = written(tokens.skip(1));
        lemma_written_round_trip(tokens.skip(1));
        assert(more[0] == '"');
        lemma_quoted_then(tokens[0], seq![' '], more);
    }
}

/// A worked example of the laws above: two bare words and two quoted tokens
/// with a space inside give four tokens.
pub proof fn lemma_example_line()
    ensures
        tokens_of("foo bar \"foo bar\" \"a test\""@) == Some(
            seq!["foo"@, "bar"@, "foo bar"@, "a test"@],
        ),
{
    reveal_strlit("foo bar \"foo bar\" \"a test\"");
    reveal_strlit("foo");
    reveal_strlit("bar");
    reveal_strlit("foo bar");
    reveal_strlit("a test");
    let gap = seq![' '];
    let quote = seq!['"'];
    let fourth = quote + "a test"@ + quote;
    let third = quote + "foo bar"@ + quote + gap + fourth;
    let second = "bar"@ + gap + third;
    let line = "foo"@ + gap + second;
    assert(line == "foo bar \"foo bar\" \"a test\""@);
    lemma_quoted_round_trip("a test"@);
    lemma_escaped_plain("foo bar"@);
    lemma_quoted_then("foo bar"@, gap, fourth);
    lemma_word_then("bar"@, gap, third);
    lemma_word_then("foo"@, gap, second);
}

} // verus!
