//! Cleaning the markup of a comment, and reading numbers out of it.

use vstd::prelude::*;
use vstd::string::StrSliceExecFns;

verus! {

/// Why a text could not be cleaned.
#[derive(Debug)]
pub enum DecodeError {
    /// An entity that is not well formed, with the line and column at which
    /// it was found.
    IllFormedEntity(usize, usize),
    /// An entity of an unknown name, with the line, the column and the name.
    UnknownEntity(usize, usize, String),
    /// The text ended inside an entity.
    EOF,
    /// A pattern was not accepted as a regular expression.
    BadPattern,
}

/// A `DecodeError` as a mathematical value.
pub ghost enum DecodeFailure {
    IllFormedEntity(usize, usize),
    UnknownEntity(usize, usize, Seq<char>),
    EOF,
    BadPattern,
}

impl View for DecodeError {
    type V = DecodeFailure;

    open spec fn view(&self) -> DecodeFailure {
        match self {
            DecodeError::IllFormedEntity(line, col) => DecodeFailure::IllFormedEntity(*line, *col),
            DecodeError::UnknownEntity(line, col, name) => DecodeFailure::UnknownEntity(
                *line,
                *col,
                name@,
            ),
            DecodeError::EOF => DecodeFailure::EOF,
            DecodeError::BadPattern => DecodeFailure::BadPattern,
        }
    }
}

/// What `html_entities::decode_html_entities` makes of a text: the text with
/// every entity replaced by the characters it stands for, or the first
/// failure.
pub uninterp spec fn decoded_entities(html: Seq<char>) -> Result<Seq<char>, DecodeFailure>;

/// What `regex::Regex::replace_all` makes of a text under a pattern and a
/// replacement: the text with every match replaced, or nothing where
/// `regex::Regex::new` does not accept the pattern.
pub uninterp spec fn regex_replaced(pattern: Seq<char>, text: Seq<char>, rep: Seq<char>) -> Option<
    Seq<char>,
>;

/// What `regex::Regex::captures_iter` finds in a text under a pattern: for
/// each match, in the order of the text, what group `group` matched, if it
/// took part; or nothing where `regex::Regex::new` does not accept the
/// pattern.
pub uninterp spec fn regex_groups(pattern: Seq<char>, text: Seq<char>, group: usize) -> Option<
    Seq<Option<Seq<char>>>,
>;

/// Calls `html_entities::decode_html_entities`. Trusted: the result is the
/// decoded text that this function gives for `html`, or its error, variant
/// for variant with the same fields.
#[verifier::external_body]
fn decode_entities(html: &str) -> (r: Result<String, DecodeError>)
    ensures
        match r {
            Ok(text) => decoded_entities(html@) == Ok::<Seq<char>, DecodeFailure>(text@),
            Err(e) => decoded_entities(html@) == Err::<Seq<char>, DecodeFailure>(e@),
        },
{
    match html_entities::decode_html_entities(html) {
        Ok(text) => Ok(text),
        Err(html_entities::DecodeError::IllFormedEntity(line, col)) => Err(
            DecodeError::IllFormedEntity(line, col),
        ),
        Err(html_entities::DecodeError::UnknownEntity(line, col, name)) => Err(
            DecodeError::UnknownEntity(line, col, name),
        ),
        Err(html_entities::DecodeError::EOF) => Err(DecodeError::EOF),
    }
}

/// Compiles `pattern` with `regex::Regex::new` and calls
/// `regex::Regex::replace_all` on `text`. Trusted: the result is the text
/// that these give, or nothing where the pattern is not accepted.
#[verifier::external_body]
fn replace_all(pattern: &str, text: &str, rep: &str) -> (r: Option<String>)
    ensures
        match r {
            Some(replaced) => regex_replaced(pattern@, text@, rep@) == Some(replaced@),
            None => regex_replaced(pattern@, text@, rep@) is None,
        },
{
    match regex::Regex::new(pattern) {
        Ok(re) => Some(re.replace_all(text, rep).into_owned()),
        Err(_) => None,
    }
}

/// The captured texts as mathematical values.
pub open spec fn groups_view(groups: Seq<Option<String>>) -> Seq<Option<Seq<char>>> {
    groups.map_values(
        |g: Option<String>|
            match g {
                Some(text) => Some(text@),
                None => None,
            },
    )
}

/// Compiles `pattern` with `regex::Regex::new`, walks the matches that
/// `regex::Regex::captures_iter` finds in `text`, and takes from each what
/// `regex::Captures::get` gives for `group`. Trusted: the result holds these
/// texts in the order of the matches, or is nothing where the pattern is not
/// accepted.
#[verifier::external_body]
fn capture_groups(pattern: &str, text: &str, group: usize) -> (r: Option<Vec<Option<String>>>)
    ensures
        match r {
            Some(groups) => regex_groups(pattern@, text@, group) == Some(groups_view(groups@)),
            None => regex_groups(pattern@, text@, group) is None,
        },
{
    match regex::Regex::new(pattern) {
        Ok(re) => Some(
            re.captures_iter(text).map(|c| c.get(group).map(|m| m.as_str().to_string())).collect(),
        ),
        Err(_) => None,
    }
}

/// The pattern of a line break tag.
pub open spec fn break_pattern() -> Seq<char> {
    "<br\\s*/?>"@
}

/// The pattern of an escaped `>`.
pub open spec fn gt_pattern() -> Seq<char> {
    "&gt;"@
}

/// The pattern of any tag.
pub open spec fn tag_pattern() -> Seq<char> {
    "<[^>]*>"@
}

/// A decoded text without its markup: line break tags become line feeds,
/// escaped `>` that are left become `>`, and every other tag is dropped.
pub open spec fn stripped(decoded: Seq<char>) -> Option<Seq<char>> {
    match regex_replaced(break_pattern(), decoded, "\n"@) {
        None => None,
        Some(broken) => match regex_replaced(gt_pattern(), broken, ">"@) {
            None => None,
            Some(quoted) => regex_replaced(tag_pattern(), quoted, ""@),
        },
    }
}

/// A comment as plain text: its entities decoded, then its markup stripped.
pub open spec fn cleaned(input: Seq<char>) -> Result<Seq<char>, DecodeFailure> {
    match decoded_entities(input) {
        Err(failure) => Err(failure),
        Ok(decoded) => match stripped(decoded) {
            Some(text) => Ok(text),
            None => Err(DecodeFailure::BadPattern),
        },
    }
}

/// Strips the markup of a decoded text.
pub fn strip_markup(decoded: &str) -> (r: Option<String>)
    ensures
        match r {
            Some(text) => stripped(decoded@) == Some(text@),
            None => stripped(decoded@) is None,
        },
{
    match replace_all("<br\\s*/?>", decoded, "\n") {
        None => None,
        Some(broken) => match replace_all("&gt;", broken.as_str(), ">") {
            None => None,
            Some(quoted) => replace_all("<[^>]*>", quoted.as_str(), ""),
        },
    }
}

/// Turns the markup of a comment into plain text.
pub fn remove_html(input: &str) -> (r: Result<String, DecodeError>)
    ensures
        match r {
            Ok(text) => cleaned(input@) == Ok::<Seq<char>, DecodeFailure>(text@),
            Err(e) => cleaned(input@) == Err::<Seq<char>, DecodeFailure>(e@),
        },
{
    match decode_entities(input) {
        Err(e) => Err(e),
        Ok(decoded) => match strip_markup(decoded.as_str()) {
            Some(text) => Ok(text),
            None => Err(DecodeError::BadPattern),
        },
    }
}

/// Whether a character is one of the ten decimal digits.
pub open spec fn is_digit(c: char) -> bool {
    '0' <= c <= '9'
}

/// The value of a digit.
pub open spec fn digit_value(c: char) -> int {
    (c as u32) as int - 48
}

/// Whether a text consists of decimal digits only.
pub open spec fn all_digits(text: Seq<char>) -> bool {
    forall|i: int| 0 <= i < text.len() ==> is_digit(#[trigger] text[i])
}

/// The number that a text of decimal digits denotes.
pub open spec fn digits_value(text: Seq<char>) -> int
    decreases text.len(),
{
    if text.len() == 0 {
        0
    } else {
        digits_value(text.drop_last()) * 10 + digit_value(text.last())
    }
}

/// Whether a text begins with a sign.
pub open spec fn has_sign(text: Seq<char>) -> bool {
    text.len() > 0 && (text[0] == '-' || text[0] == '+')
}

/// The 32-bit number that a text denotes: an optional sign, then at least
/// one decimal digit and nothing else, the value within the range of the
/// type. Any other text denotes nothing.
pub open spec fn parsed_number(text: Seq<char>) -> Option<i32> {
    let body = if has_sign(text) {
        text.skip(1)
    } else {
        text
    };
    let value = if has_sign(text) && text[0] == '-' {
        -digits_value(body)
    } else {
        digits_value(body)
    };
    if body.len() > 0 && all_digits(body) && i32::MIN <= value <= i32::MAX {
        Some(value as i32)
    } else {
        None
    }
}

/// A text of digits is worth at least as much as any of its beginnings, and
/// never less than nothing.
proof fn lemma_digits_value_grows(text: Seq<char>, n: int)
    requires
        all_digits(text),
        0 <= n <= text.len(),
    ensures
        0 <= digits_value(text.take(n)) <= digits_value(text),
    decreases text.len() - n,
{
    lemma_digits_value_nonnegative(text.take(n));
    if n < text.len() {
        lemma_digits_value_grows(text, n + 1);
        assert(text.take(n + 1).drop_last() =~= text.take(n));
        assert(is_digit(text[n]));
        assert(text.take(n + 1).last() == text[n]);
    } else {
        assert(text.take(n) =~= text);
    }
}

proof fn lemma_digits_value_nonnegative(text: Seq<char>)
    requires
        all_digits(text),
    ensures
        0 <= digits_value(text),
    decreases text.len(),
{
    if text.len() > 0 {
        assert(is_digit(text[text.len() - 1]));
        assert forall|i: int| 0 <= i < text.drop_last().len() implies is_digit(
            #[trigger] text.drop_last()[i],
        ) by {
            assert(is_digit(text[i]));
        }
        lemma_digits_value_nonnegative(text.drop_last());
    }
}

/// Reads a 32-bit number in decimal.
pub fn parse_number(text: &str) -> (r: Option<i32>)
    ensures
        r == parsed_number(text@),
{
    if !text.is_ascii() {
        proof {
            let i = choose|i: int|
                0 <= i < text@.len() && !('\0' <= (#[trigger] text@[i]) <= '\u{7f}');
            if has_sign(text@) {
                assert(i > 0);
                assert(text@.skip(1)[i - 1] == text@[i]);
            }
        }
        return None;
    }
    let len = text.unicode_len();
    if len == 0 {
        return None;
    }
    let first = text.get_ascii(0);
    let negative = first == 45;
    let start: usize = if first == 45 || first == 43 {
        1
    } else {
        0
    };
    proof {
        assert(text@[0] as u8 == first);
        assert(has_sign(text@) == (start == 1));
        assert(negative == (has_sign(text@) && text@[0] == '-'));
    }
    let ghost body = text@.skip(start as int);
    if start == len {
        assert(body.len() == 0);
        return None;
    }
    assert(body =~= if has_sign(text@) {
        text@.skip(1)
    } else {
        text@
    });
    let mut value: i64 = 0;
    let mut i: usize = start;
    proof {
        assert(body.take(0) =~= Seq::<char>::empty());
    }
    while i < len
        invariant
            start <= i <= len,
            len == text@.len(),
            text.is_ascii(),
            body == text@.skip(start as int),
            has_sign(text@) == (start == 1),
            negative == (has_sign(text@) && text@[0] == '-'),
            body.len() > 0,
            body == (if has_sign(text@) {
                text@.skip(1)
            } else {
                text@
            }),
            all_digits(body.take(i - start)),
            value == digits_value(body.take(i - start)),
            0 <= value <= 0x8000_0000,
        decreases len - i,
    {
        let b = text.get_ascii(i);
        proof {
            assert(body[i - start] == text@[i as int]);
            assert(body.take(i - start + 1).drop_last() =~= body.take(i - start));
            assert(body.take(i - start + 1).last() == body[i - start]);
        }
        if b < 48 || b > 57 {
            proof {
                assert(!is_digit(body[i - start]));
            }
            return None;
        }
        proof {
            assert(is_digit(body[i - start]));
            assert(digit_value(body[i - start]) == b - 48);
            assert forall|k: int| 0 <= k < body.take(i - start + 1).len() implies is_digit(
                #[trigger] body.take(i - start + 1)[k],
            ) by {
                if k < i - start {
                    assert(body.take(i - start)[k] == body[k]);
                }
            }
        }
        value = value * 10 + (b - 48) as i64;
        assert(value == digits_value(body.take(i - start + 1)));
        if value > 0x8000_0000 {
            proof {
                if all_digits(body) {
                    lemma_digits_value_grows(body, i - start + 1);
                    assert(digits_value(body) > 0x8000_0000);
                }
                assert(parsed_number(text@) is None);
            }
            return None;
        }
        i = i + 1;
    }
    proof {
        assert(body.take(i - start) =~= body);
    }
    if negative {
        Some((0 - value) as i32)
    } else if value > 0x7fff_ffff {
        None
    } else {
        Some(value as i32)
    }
}

/// The pattern of a link to a quoted post; its first group is the number of
/// the post.
pub open spec fn quote_pattern() -> Seq<char> {
    "<a href=\"#p(\\d+)\" class=\"quotelink\">&gt;&gt;\\d+</a>"@
}

/// The numbers that captured texts denote, in their order; nothing where a
/// group took no part in its match or its text denotes no 32-bit number.
pub open spec fn numbers_of(groups: Seq<Option<Seq<char>>>) -> Option<Seq<i32>>
    decreases groups.len(),
{
    if groups.len() == 0 {
        Some(Seq::empty())
    } else {
        match (numbers_of(groups.drop_last()), groups.last()) {
            (Some(before), Some(text)) => match parsed_number(text) {
                Some(n) => Some(before.push(n)),
                None => None,
            },
            _ => None,
        }
    }
}

/// The numbers of the posts that a comment quotes, in the order of the
/// comment; nothing where a quoted number is no 32-bit number.
pub open spec fn quoted(comment: Seq<char>) -> Option<Seq<i32>> {
    match regex_groups(quote_pattern(), comment, 1) {
        Some(groups) => numbers_of(groups),
        None => None,
    }
}

/// Reads the numbers that captured texts denote.
pub fn quote_numbers(groups: &Vec<Option<String>>) -> (r: Option<Vec<i32>>)
    ensures
        match r {
            Some(numbers) => numbers_of(groups_view(groups@)) == Some(numbers@),
            None => numbers_of(groups_view(groups@)) is None,
        },
{
    let ghost texts = groups_view(groups@);
    let mut numbers: Vec<i32> = Vec::new();
    let mut i: usize = 0;
    proof {
        assert(texts.take(0) =~= Seq::<Option<Seq<char>>>::empty());
    }
    while i < groups.len()
        invariant
            i <= groups.len(),
            texts == groups_view(groups@),
            texts.len() == groups@.len(),
            numbers_of(texts.take(i as int)) == Some(numbers@),
        decreases groups.len() - i,
    {
        proof {
            assert(texts.take(i + 1).drop_last() =~= texts.take(i as int));
            assert(texts.take(i + 1).last() == texts[i as int]);
        }
        match &groups[i] {
            None => {
                proof {
                    assert(texts[i as int] is None);
                    lemma_numbers_of_prefix(texts, i + 1);
                }
                return None;
            },
            Some(text) => match parse_number(text.as_str()) {
                None => {
                    proof {
                        assert(texts[i as int] == Some(text@));
                        lemma_numbers_of_prefix(texts, i + 1);
                    }
                    return None;
                },
                Some(n) => {
                    proof {
                        assert(texts[i as int] == Some(text@));
                    }
                    numbers.push(n);
                },
            },
        }
        i = i + 1;
    }
    proof {
        assert(texts.take(i as int) =~= texts);
    }
    Some(numbers)
}

/// Where the beginning of a list of captured texts denotes no numbers, the
/// whole list denotes none.
proof fn lemma_numbers_of_prefix(groups: Seq<Option<Seq<char>>>, n: int)
    requires
        0 <= n <= groups.len(),
        numbers_of(groups.take(n)) is None,
    ensures
        numbers_of(groups) is None,
    decreases groups.len() - n,
{
    if n < groups.len() {
        assert(groups.take(n + 1).drop_last() =~= groups.take(n));
        lemma_numbers_of_prefix(groups, n + 1);
    } else {
        assert(groups.take(n) =~= groups);
    }
}

/// The numbers of the posts that a comment quotes, in the order of the
/// comment.
pub fn quotes_in(comment: &str) -> (r: Option<Vec<i32>>)
    ensures
        match r {
            Some(numbers) => quoted(comment@) == Some(numbers@),
            None => quoted(comment@) is None,
        },
{
    match capture_groups("<a href=\"#p(\\d+)\" class=\"quotelink\">&gt;&gt;\\d+</a>", comment, 1) {
        Some(groups) => quote_numbers(&groups),
        None => None,
    }
}

} // verus!
