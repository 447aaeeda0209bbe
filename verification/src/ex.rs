//! The ex command language: abstract syntax and a verified single-pass parser.
//!
//! Grammar:
//! ```text
//! command   := selector action
//! selector  := locator (',' locator)?
//! locator   := '.' | '%' | '$' | '+' digits | '-' digits | digits | epsilon
//! action    := 'q' | 'y' | "put" | 'p' | 'd' | 'a' | 'e' filename
//!            | 'w' filename? | 'g' action | epsilon
//! filename  := (leading spaces skipped) remainder-of-input
//! ```
//! A locator defaults to `Here` on empty input; an action defaults to `Go`.
//! `digits` is a maximal run of ASCII decimal digits; a run whose value does
//! not fit in `usize` is a parse failure (`IntegerOverflow`), never a panic.
//! Input left over after a complete selector and action is a hard failure
//! (`TrailingInput`); the parser never drops characters silently.
use vstd::prelude::*;

verus! {

/// An abstract reference to one buffer line, relative to the cursor or the
/// buffer bounds.
#[derive(Debug, PartialEq)]
pub enum Locator {
    /// The final buffer line (`$`).
    Last,
    /// The cursor line (`.`).
    Here,
    /// The whole buffer (`%`); meaningful as a selector start only.
    All,
    /// `cursor.line + offset` (`+n`).
    Ahead(usize),
    /// `cursor.line - offset` (`-n`).
    Back(usize),
    /// An absolute 1-based line number.
    Line(usize),
}

/// A pair of locators denoting an addressed range, possibly open-ended.
#[derive(Debug, PartialEq)]
pub struct Selector {
    pub start: Locator,
    pub end: Option<Locator>,
}

/// The operation a command performs once its range is resolved.
#[derive(Debug, PartialEq)]
pub enum Action {
    Append,
    Delete,
    Edit(String),
    /// Apply the inner action independently to every line of the range.
    Global(Box<Action>),
    Go,
    Print,
    Put,
    Quit,
    Write(Option<String>),
    Yank,
}

/// The parser's output: the raw input kept verbatim, plus its structure.
#[derive(Debug, PartialEq)]
pub struct Command {
    pub string: String,
    pub selector: Selector,
    pub action: Action,
}

/// A failure of the parser; always returned, never a panic.
#[derive(Debug, PartialEq)]
pub enum ParseError {
    /// The action character is not in the fixed action set.
    UnknownAction(char),
    /// Unconsumed input remained after a complete selector and action.
    TrailingInput(String),
    /// A digit run does not fit in `usize`.
    IntegerOverflow,
}

/// An ASCII decimal digit, `'0'` through `'9'`.
pub open spec fn is_digit(c: char) -> bool {
    48 <= c as u32 <= 57
}

/// Numeric value of one decimal digit.
pub open spec fn digit_val(c: char) -> int {
    c as u32 - 48
}

/// Length of the maximal run of decimal digits at the front of `s`.
pub open spec fn digits_len(s: Seq<char>) -> nat
    decreases s.len(),
{
    if s.len() == 0 || !is_digit(s[0]) {
        0
    } else {
        1 + digits_len(s.skip(1))
    }
}

/// Value of an all-digit sequence read in base 10, most significant first.
pub open spec fn digits_value(s: Seq<char>) -> int
    decreases s.len(),
{
    if s.len() == 0 {
        0
    } else {
        digits_value(s.take(s.len() - 1)) * 10 + digit_val(s[s.len() - 1])
    }
}

proof fn lemma_digits_len_is(s: Seq<char>, i: int)
    requires
        0 <= i <= s.len(),
        forall|j: int| 0 <= j < i ==> is_digit(s[j]),
        i == s.len() || !is_digit(s[i]),
    ensures
        digits_len(s) == i,
    decreases s.len(),
{
    if i == 0 {
    } else {
        lemma_digits_len_is(s.skip(1), i - 1);
    }
}

proof fn lemma_digits_value_nonneg(s: Seq<char>)
    requires
        forall|j: int| 0 <= j < s.len() ==> is_digit(s[j]),
    ensures
        digits_value(s) >= 0,
    decreases s.len(),
{
    if s.len() > 0 {
        assert(s.take(s.len() - 1) =~= s.subrange(0, s.len() - 1));
        lemma_digits_value_nonneg(s.take(s.len() - 1));
    }
}

/// The value of a digit run only grows as the run extends.
proof fn lemma_digits_value_mono(s: Seq<char>, i: int, j: int)
    requires
        0 <= i <= j <= s.len(),
        forall|m: int| 0 <= m < j ==> is_digit(s[m]),
    ensures
        digits_value(s.take(i)) <= digits_value(s.take(j)),
    decreases j - i,
{
    if i < j {
        lemma_digits_value_mono(s, i, j - 1);
        let t = s.take(j);
        assert(t.take(t.len() - 1) =~= s.take(j - 1));
        lemma_digits_value_nonneg(s.take(j - 1));
    }
}

proof fn lemma_digits_len_props(s: Seq<char>)
    ensures
        digits_len(s) <= s.len(),
        forall|j: int| 0 <= j < digits_len(s) ==> is_digit(s[j]),
    decreases s.len(),
{
    if s.len() == 0 || !is_digit(s[0]) {
    } else {
        lemma_digits_len_props(s.skip(1));
        assert forall|j: int| 0 <= j < digits_len(s) implies is_digit(s[j]) by {
            if j > 0 {
                assert(s.skip(1)[j - 1] == s[j]);
            }
        }
    }
}

proof fn lemma_digits_len_at_least(s: Seq<char>, m: int)
    requires
        0 <= m <= s.len(),
        forall|j: int| 0 <= j < m ==> is_digit(s[j]),
    ensures
        digits_len(s) >= m,
    decreases m,
{
    if m > 0 {
        assert(is_digit(s[0]));
        assert forall|j: int| 0 <= j < m - 1 implies is_digit(s.skip(1)[j]) by {
            assert(s.skip(1)[j] == s[j + 1]);
        }
        lemma_digits_len_at_least(s.skip(1), m - 1);
    }
}

/// True of an ASCII decimal digit character.
fn digit_at(s: &str, i: usize) -> (b: bool)
    requires
        i < s@.len(),
    ensures
        b == is_digit(s@[i as int]),
{
    let c = s.get_char(i);
    let u = c as u32;
    48 <= u && u <= 57
}

/// Parse the maximal run of decimal digits at the front of `input` as an
/// unsigned integer, returning the value and the unconsumed remainder.
/// An empty run parses as zero and consumes nothing; a run whose value does
/// not fit in `usize` fails with `IntegerOverflow`.
pub fn parse_integer<'a>(input: &'a str) -> (r: Result<(usize, &'a str), ParseError>)
    ensures
        ({
            let k = digits_len(input@) as int;
            let v = digits_value(input@.take(k));
            match r {
                Ok(p) => v <= usize::MAX && p.0 == v && p.1@ == input@.skip(k),
                Err(e) => v > usize::MAX && e == ParseError::IntegerOverflow,
            }
        }),
{
    let n = input.unicode_len();
    let mut i: usize = 0;
    let mut acc: usize = 0;
    while i < n && digit_at(input, i)
        invariant
            i <= n,
            n == input@.len(),
            forall|j: int| 0 <= j < i ==> is_digit(input@[j]),
            acc == digits_value(input@.take(i as int)),
        decreases n - i,
    {
        let c = input.get_char(i);
        let d = (c as u32 - 48) as usize;
        proof {
            let s = input@;
            assert(s.take(i + 1).take(i as int) =~= s.take(i as int));
            assert(digits_value(s.take(i + 1)) == acc * 10 + digit_val(s[i as int]));
        }
        if acc > (usize::MAX - d) / 10 {
            proof {
                let s = input@;
                vstd::arithmetic::div_mod::lemma_fundamental_div_mod(
                    usize::MAX as int - d,
                    10,
                );
                assert(acc * 10 + d > usize::MAX);
                lemma_digits_len_props(s);
                lemma_digits_len_at_least(s, i + 1);
                lemma_digits_value_mono(s, i + 1, digits_len(s) as int);
            }
            return Err(ParseError::IntegerOverflow);
        }
        proof {
            vstd::arithmetic::div_mod::lemma_fundamental_div_mod(usize::MAX as int - d, 10);
            assert(acc * 10 + d <= usize::MAX);
        }
        acc = acc * 10 + d;
        i = i + 1;
    }
    proof {
        lemma_digits_len_is(input@, i as int);
        assert(input@.subrange(i as int, n as int) =~= input@.skip(i as int));
    }
    let rest = input.substring_char(i, n);
    Ok((acc, rest))
}

/// What `parse_integer` returns, at the specification level.
pub open spec fn spec_parse_int(s: Seq<char>) -> Result<(usize, Seq<char>), ParseError> {
    let k = digits_len(s) as int;
    if digits_value(s.take(k)) <= usize::MAX {
        Ok((digits_value(s.take(k)) as usize, s.skip(k)))
    } else {
        Err(ParseError::IntegerOverflow)
    }
}

/// What `parse_locator` returns, at the specification level.
pub open spec fn spec_parse_locator(s: Seq<char>) -> Result<(Locator, Seq<char>), ParseError> {
    if s.len() == 0 {
        Ok((Locator::Here, s))
    } else if s[0] == '.' {
        Ok((Locator::Here, s.skip(1)))
    } else if s[0] == '%' {
        Ok((Locator::All, s.skip(1)))
    } else if s[0] == '$' {
        Ok((Locator::Last, s.skip(1)))
    } else if s[0] == '+' && s.len() >= 2 && is_digit(s[1]) {
        match spec_parse_int(s.skip(1)) {
            Ok(p) => Ok((Locator::Ahead(p.0), p.1)),
            Err(e) => Err(e),
        }
    } else if s[0] == '-' && s.len() >= 2 && is_digit(s[1]) {
        match spec_parse_int(s.skip(1)) {
            Ok(p) => Ok((Locator::Back(p.0), p.1)),
            Err(e) => Err(e),
        }
    } else if is_digit(s[0]) {
        match spec_parse_int(s) {
            Ok(p) => Ok((Locator::Line(p.0), p.1)),
            Err(e) => Err(e),
        }
    } else {
        Ok((Locator::Here, s))
    }
}

/// Parse one locator. `+` and `-` are consumed only when digits follow;
/// otherwise the locator defaults to `Here` and consumes nothing, leaving
/// the offending character to fail as an unknown action.
pub fn parse_locator<'a>(input: &'a str) -> (r: Result<(Locator, &'a str), ParseError>)
    ensures
        match r {
            Ok(p) => spec_parse_locator(input@) matches Ok(q) && q.0 == p.0 && q.1 == p.1@,
            Err(e) => spec_parse_locator(input@) == Err::<(Locator, Seq<char>), ParseError>(e),
        },
{
    let n = input.unicode_len();
    if n == 0 {
        return Ok((Locator::Here, input));
    }
    let c = input.get_char(0);
    if c == '.' {
        Ok((Locator::Here, input.substring_char(1, n)))
    } else if c == '%' {
        Ok((Locator::All, input.substring_char(1, n)))
    } else if c == '$' {
        Ok((Locator::Last, input.substring_char(1, n)))
    } else if c == '+' || c == '-' {
        if n >= 2 && digit_at(input, 1) {
            let tail = input.substring_char(1, n);
            proof {
                assert(tail@ =~= input@.skip(1));
            }
            match parse_integer(tail) {
                Ok((v, rest)) => Ok(
                    (if c == '+' { Locator::Ahead(v) } else { Locator::Back(v) }, rest),
                ),
                Err(e) => Err(e),
            }
        } else {
            Ok((Locator::Here, input))
        }
    } else if digit_at(input, 0) {
        match parse_integer(input) {
            Ok((v, rest)) => Ok((Locator::Line(v), rest)),
            Err(e) => Err(e),
        }
    } else {
        Ok((Locator::Here, input))
    }
}

/// What `parse_range` returns, at the specification level.
pub open spec fn spec_parse_selector(s: Seq<char>) -> Result<(Selector, Seq<char>), ParseError> {
    match spec_parse_locator(s) {
        Err(e) => Err(e),
        Ok(p) => if p.1.len() > 0 && p.1[0] == ',' {
            match spec_parse_locator(p.1.skip(1)) {
                Err(e) => Err(e),
                Ok(q) => Ok((Selector { start: p.0, end: Some(q.0) }, q.1)),
            }
        } else {
            Ok((Selector { start: p.0, end: None }, p.1))
        },
    }
}

/// Parse a selector: a locator, optionally followed by a comma and a second
/// locator.
pub fn parse_range<'a>(input: &'a str) -> (r: Result<(Selector, &'a str), ParseError>)
    ensures
        match r {
            Ok(p) => spec_parse_selector(input@) matches Ok(q) && q.0 == p.0 && q.1 == p.1@,
            Err(e) => spec_parse_selector(input@) == Err::<(Selector, Seq<char>), ParseError>(
                e,
            ),
        },
{
    let (start, rest1) = match parse_locator(input) {
        Ok(p) => p,
        Err(e) => {
            return Err(e);
        },
    };
    let n1 = rest1.unicode_len();
    if n1 > 0 && rest1.get_char(0) == ',' {
        let tail = rest1.substring_char(1, n1);
        proof {
            assert(tail@ =~= rest1@.skip(1));
        }
        match parse_locator(tail) {
            Ok((end, rest2)) => Ok((Selector { start, end: Some(end) }, rest2)),
            Err(e) => Err(e),
        }
    } else {
        Ok((Selector { start, end: None }, rest1))
    }
}

/// A filename argument: leading spaces skipped, then the rest of the input.
pub open spec fn spec_skip_spaces(s: Seq<char>) -> Seq<char>
    decreases s.len(),
{
    if s.len() > 0 && s[0] == ' ' {
        spec_skip_spaces(s.skip(1))
    } else {
        s
    }
}

/// Skip leading spaces and take the whole remainder as a filename.
pub fn parse_filename(input: &str) -> (r: String)
    ensures
        r@ == spec_skip_spaces(input@),
{
    let n = input.unicode_len();
    let mut i: usize = 0;
    proof {
        assert(input@.skip(0) =~= input@);
    }
    while i < n && input.get_char(i) == ' '
        invariant
            i <= n,
            n == input@.len(),
            spec_skip_spaces(input@) == spec_skip_spaces(input@.skip(i as int)),
        decreases n - i,
    {
        proof {
            assert(input@.skip(i as int).skip(1) =~= input@.skip(i + 1));
        }
        i = i + 1;
    }
    let rest = input.substring_char(i, n);
    proof {
        assert(rest@ =~= input@.skip(i as int));
    }
    rest.to_owned()
}

/// Relates action input text to the parsed action and the remaining text.
/// The grammar is deterministic: for each input exactly one action and
/// remainder satisfy this predicate.
pub open spec fn parses_action_to(s: Seq<char>, a: Action, rest: Seq<char>) -> bool
    decreases s.len(),
{
    if s.len() == 0 {
        a == Action::Go && rest == s
    } else if s[0] == 'q' {
        a == Action::Quit && rest == s.skip(1)
    } else if s[0] == 'y' {
        a == Action::Yank && rest == s.skip(1)
    } else if s[0] == 'p' && s.len() >= 3 && s[1] == 'u' && s[2] == 't' {
        a == Action::Put && rest == s.skip(3)
    } else if s[0] == 'p' {
        a == Action::Print && rest == s.skip(1)
    } else if s[0] == 'd' {
        a == Action::Delete && rest == s.skip(1)
    } else if s[0] == 'a' {
        a == Action::Append && rest == s.skip(1)
    } else if s[0] == 'e' {
        &&& a matches Action::Edit(f) && f@ == spec_skip_spaces(s.skip(1))
        &&& rest.len() == 0
    } else if s[0] == 'w' {
        let f = spec_skip_spaces(s.skip(1));
        &&& rest.len() == 0
        &&& if f.len() == 0 {
            a == Action::Write(None::<String>)
        } else {
            a matches Action::Write(Some(g)) && g@ == f
        }
    } else if s[0] == 'g' {
        a matches Action::Global(inner) && parses_action_to(s.skip(1), *inner, rest)
    } else {
        false
    }
}

/// Relates action input text to the parse error it produces, if any.
pub open spec fn action_parse_fails_with(s: Seq<char>, e: ParseError) -> bool
    decreases s.len(),
{
    if s.len() == 0 {
        false
    } else if s[0] == 'q' || s[0] == 'y' || s[0] == 'p' || s[0] == 'd' || s[0] == 'a' || s[0]
        == 'e' || s[0] == 'w' {
        false
    } else if s[0] == 'g' {
        action_parse_fails_with(s.skip(1), e)
    } else {
        e == ParseError::UnknownAction(s[0])
    }
}

/// Parse one action. The empty input is `Go`; `g` recurses on the rest of
/// the input; `put` takes precedence over `p` (print); any other leading
/// character fails with `UnknownAction`.
pub fn parse_action<'a>(input: &'a str) -> (r: Result<(Action, &'a str), ParseError>)
    ensures
        match r {
            Ok(p) => parses_action_to(input@, p.0, p.1@),
            Err(e) => action_parse_fails_with(input@, e),
        },
    decreases input@.len(),
{
    let n = input.unicode_len();
    if n == 0 {
        return Ok((Action::Go, input));
    }
    let c = input.get_char(0);
    if c == 'q' {
        Ok((Action::Quit, input.substring_char(1, n)))
    } else if c == 'y' {
        Ok((Action::Yank, input.substring_char(1, n)))
    } else if c == 'p' {
        if n >= 3 && input.get_char(1) == 'u' && input.get_char(2) == 't' {
            Ok((Action::Put, input.substring_char(3, n)))
        } else {
            Ok((Action::Print, input.substring_char(1, n)))
        }
    } else if c == 'd' {
        Ok((Action::Delete, input.substring_char(1, n)))
    } else if c == 'a' {
        Ok((Action::Append, input.substring_char(1, n)))
    } else if c == 'e' {
        let tail = input.substring_char(1, n);
        proof {
            assert(tail@ =~= input@.skip(1));
        }
        let f = parse_filename(tail);
        Ok((Action::Edit(f), input.substring_char(n, n)))
    } else if c == 'w' {
        let tail = input.substring_char(1, n);
        proof {
            assert(tail@ =~= input@.skip(1));
        }
        let f = parse_filename(tail);
        let act = if f.as_str().is_empty() {
            Action::Write(None)
        } else {
            Action::Write(Some(f))
        };
        Ok((act, input.substring_char(n, n)))
    } else if c == 'g' {
        let tail = input.substring_char(1, n);
        proof {
            assert(tail@ =~= input@.skip(1));
        }
        match parse_action(tail) {
            Ok((a, rest)) => Ok((Action::Global(Box::new(a)), rest)),
            Err(e) => Err(e),
        }
    } else {
        Err(ParseError::UnknownAction(c))
    }
}

/// Match `tag` as an exact prefix of `input`; on success return the
/// remainder and the matched prefix.
pub fn tag_str<'a>(input: &'a str, tag: &str) -> (r: Option<(&'a str, &'a str)>)
    ensures
        match r {
            Some(p) => input@.len() >= tag@.len() && p.1@ == tag@ && p.0@ == input@.skip(
                tag@.len() as int,
            ) && input@.take(tag@.len() as int) == tag@,
            None => input@.len() < tag@.len() || input@.take(tag@.len() as int) != tag@,
        },
{
    let taglen = tag.unicode_len();
    let n = input.unicode_len();
    if n < taglen {
        return None;
    }
    let mut i: usize = 0;
    while i < taglen
        invariant
            i <= taglen,
            taglen == tag@.len(),
            n == input@.len(),
            taglen <= n,
            forall|j: int| 0 <= j < i ==> input@[j] == tag@[j],
        decreases taglen - i,
    {
        if input.get_char(i) != tag.get_char(i) {
            proof {
                assert(input@.take(taglen as int)[i as int] == input@[i as int]);
            }
            return None;
        }
        i = i + 1;
    }
    proof {
        assert(input@.take(taglen as int) =~= tag@);
        assert(input@.subrange(taglen as int, n as int) =~= input@.skip(taglen as int));
    }
    Some((input.substring_char(taglen, n), input.substring_char(0, taglen)))
}

/// Law: the action grammar is deterministic: whatever two parses of one
/// input produce, they consume the same amount of it, so the remainder that
/// `TrailingInput` reports is the only possible one.
pub proof fn lemma_action_parse_deterministic(
    s: Seq<char>,
    a1: Action,
    r1: Seq<char>,
    a2: Action,
    r2: Seq<char>,
)
    requires
        parses_action_to(s, a1, r1),
        parses_action_to(s, a2, r2),
    ensures
        r1 == r2,
    decreases s.len(),
{
    if s.len() > 0 && s[0] == 'g' {
        let i1 = a1->Global_0;
        let i2 = a2->Global_0;
        lemma_action_parse_deterministic(s.skip(1), *i1, r1, *i2, r2);
    }
}

/// Law: a selector whose leading digit run does not fit in `usize` fails
/// with `IntegerOverflow`; it is never truncated to a smaller number.
pub proof fn lemma_integer_overflow_rejected(s: Seq<char>)
    requires
        s.len() > 0,
        is_digit(s[0]),
        digits_value(s.take(digits_len(s) as int)) > usize::MAX,
    ensures
        spec_parse_selector(s) == Err::<(Selector, Seq<char>), ParseError>(
            ParseError::IntegerOverflow,
        ),
{
}

/// Parse a whole command: selector, then action, then nothing. Unconsumed
/// trailing characters are a hard failure, never silently dropped.
pub fn parse_command(input: &str) -> (r: Result<Command, ParseError>)
    ensures
        match r {
            Ok(cmd) => {
                &&& cmd.string@ == input@
                &&& spec_parse_selector(input@) matches Ok(p) && cmd.selector == p.0
                    && parses_action_to(p.1, cmd.action, Seq::<char>::empty())
            },
            Err(e) => match spec_parse_selector(input@) {
                Err(e2) => e == e2,
                Ok(p) => {
                    ||| action_parse_fails_with(p.1, e)
                    ||| (e matches ParseError::TrailingInput(t) && t@.len() > 0 && exists|a:
                        Action|
                        parses_action_to(p.1, a, t@))
                },
            },
        },
{
    let (selector, rest1) = match parse_range(input) {
        Ok(p) => p,
        Err(e) => {
            return Err(e);
        },
    };
    let (action, rest2) = match parse_action(rest1) {
        Ok(p) => p,
        Err(e) => {
            return Err(e);
        },
    };
    if !rest2.is_empty() {
        let t = rest2.to_owned();
        proof {
            assert(parses_action_to(rest1@, action, t@));
        }
        return Err(ParseError::TrailingInput(t));
    }
    proof {
        assert(rest2@ =~= Seq::<char>::empty());
    }
    Ok(Command { string: input.to_owned(), selector, action })
}

} // verus!
