//! The Gremlin surface syntax: a tokenizer and a recursive-descent
//! parser from query text to the [`Statement`] form the translator
//! lowers. Only the supported traversal sources, steps and
//! predicates are accepted; anything else is a parse error.

use vstd::prelude::*;
use vstd::string::StrSliceExecFns;
use vstd::string::StringExecFns;

use crate::ast::{
    pred_wf, step_unreserved, step_wf, stmt_unreserved, stmt_wf, ByModifier, FromTo, HasStep,
    OrderModifier, Predicate, PropertyStep, SortOrder, Statement, Step, TraversalSource,
};
use crate::error::Error;
use crate::value::Value;

verus! {

/// One lexical token of a query string.
enum Token {
    /// A bare word: a source or step name, or `true`/`false`.
    Ident(String),
    /// A quoted string.
    StrLit(String),
    /// An integer.
    IntLit(i64),
    /// `.`
    Dot,
    /// `(`
    LParen,
    /// `)`
    RParen,
    /// `,`
    Comma,
}

/// Whether two strings hold the same characters.
pub(crate) fn str_eq(a: &str, b: &str) -> (r: bool)
    ensures
        r == (a@ == b@),
{
    let a_len = a.unicode_len();
    let b_len = b.unicode_len();
    if a_len != b_len {
        proof {
            assert(a@ != b@);
        }
        return false;
    }
    let mut i: usize = 0;
    while i < a_len
        invariant
            i <= a_len,
            a_len == a@.len(),
            a_len == b@.len(),
            forall|j: int| 0 <= j < i ==> a@[j] == b@[j],
        decreases a_len - i,
    {
        if a.get_char(i) != b.get_char(i) {
            proof {
                assert(a@[i as int] != b@[i as int]);
            }
            return false;
        }
        i = i + 1;
    }
    proof {
        assert(a@ =~= b@);
    }
    true
}

/// Whether the character is a decimal digit.
fn char_is_digit(c: char) -> (r: bool)
    ensures
        r == (48 <= c as u32 <= 57),
{
    let d = c as u32;
    48 <= d && d <= 57
}

/// Whether the character may continue an identifier: a letter, a
/// digit or an underscore.
fn char_is_word(c: char) -> (r: bool)
{
    let d = c as u32;
    d >= 65 && d <= 90 || d >= 97 && d <= 122 || d >= 48 && d <= 57 || d == 95
}

/// Whether a name has the reserved anonymous-variable shape:
/// `_v` followed by one or more decimal digits.
fn is_reserved(s: &str) -> (r: bool)
    ensures
        r == crate::ast::reserved_name(s@),
{
    let n = s.unicode_len();
    if n < 3 {
        return false;
    }
    if s.get_char(0) != '_' || s.get_char(1) != 'v' {
        return false;
    }
    let mut i: usize = 2;
    while i < n
        invariant
            2 <= i <= n,
            n == s@.len(),
            s@[0] == '_',
            s@[1] == 'v',
            forall|k: int| 2 <= k < i ==> 48 <= (#[trigger] s@[k]) as u32 <= 57,
        decreases n - i,
    {
        let code = s.get_char(i) as u32;
        if !(48 <= code && code <= 57) {
            return false;
        }
        i = i + 1;
    }
    true
}

/// A parse error with the given message.
fn parse_error(msg: &str) -> (r: Error)
    ensures
        r is Parse,
{
    Error::Parse(msg.to_owned())
}

/// Splits a query string into tokens. Accepts identifiers, integers,
/// single- or double-quoted strings without escapes, and the four
/// punctuation marks; whitespace separates. Yields at most one token
/// per character of input.
fn tokenize(s: &str) -> (r: Result<Vec<Token>, Error>)
    ensures
        r is Ok ==> r->Ok_0@.len() <= s@.len(),
{
    let n = s.unicode_len();
    let mut tokens: Vec<Token> = Vec::new();
    let mut i: usize = 0;
    while i < n
        invariant
            i <= n,
            n == s@.len(),
            tokens@.len() <= i,
        decreases n - i,
    {
        let c = s.get_char(i);
        let code = c as u32;
        if c == ' ' || c == '\t' || c == '\n' || c == '\r' || c == ';' {
            i = i + 1;
        } else if c == '.' {
            tokens.push(Token::Dot);
            i = i + 1;
        } else if c == '(' {
            tokens.push(Token::LParen);
            i = i + 1;
        } else if c == ')' {
            tokens.push(Token::RParen);
            i = i + 1;
        } else if c == ',' {
            tokens.push(Token::Comma);
            i = i + 1;
        } else if c == '\'' || c == '"' {
            let quote = c;
            let start = i + 1;
            let mut j = start;
            while j < n && s.get_char(j) != quote
                invariant
                    start <= j <= n,
                    n == s@.len(),
                decreases n - j,
            {
                j = j + 1;
            }
            if j >= n {
                return Err(parse_error("unterminated string literal"));
            }
            let text = s.substring_char(start, j).to_owned();
            tokens.push(Token::StrLit(text));
            i = j + 1;
        } else if code >= 48 && code <= 57 || c == '-' {
            let negative = c == '-';
            let first_digit_at = i + 1;
            let mut magnitude: u64 = if negative {
                0
            } else {
                (code - 48) as u64
            };
            if negative {
                if !(first_digit_at < n && char_is_digit(s.get_char(first_digit_at))) {
                    return Err(parse_error("expected digits after sign"));
                }
            }
            let mut j = first_digit_at;
            while j < n && char_is_digit(s.get_char(j))
                invariant
                    i < j <= n || j == first_digit_at,
                    first_digit_at == i + 1,
                    n == s@.len(),
                    magnitude <= 0x7fff_ffff_ffff_ffff,
                decreases n - j,
            {
                let d = (s.get_char(j) as u32 - 48) as u64;
                if magnitude > (0x7fff_ffff_ffff_ffff - d) / 10 {
                    return Err(parse_error("integer literal out of range"));
                }
                magnitude = magnitude * 10 + d;
                j = j + 1;
            }
            let value: i64 = if negative {
                -(magnitude as i64)
            } else {
                magnitude as i64
            };
            tokens.push(Token::IntLit(value));
            i = j;
        } else if code >= 65 && code <= 90 || code >= 97 && code <= 122 || c == '_' {
            let start = i;
            let mut j = i + 1;
            while j < n && char_is_word(s.get_char(j))
                invariant
                    start < j <= n,
                    start == i,
                    n == s@.len(),
                decreases n - j,
            {
                j = j + 1;
            }
            let text = s.substring_char(start, j).to_owned();
            tokens.push(Token::Ident(text));
            i = j;
        } else {
            return Err(parse_error("unexpected character in query"));
        }
    }
    Ok(tokens)
}

/// Parses one literal value: a string, an integer, or `true`/
/// `false`.
fn parse_value(tokens: &Vec<Token>, i: usize) -> (r: Result<(Value, usize), Error>)
    requires
        i <= tokens@.len(),
    ensures
        r is Ok ==> i < r->Ok_0.1 <= tokens@.len(),
{
    if i >= tokens.len() {
        return Err(parse_error("expected a value"));
    }
    match &tokens[i] {
        Token::StrLit(s) => Ok((Value::Str(s.clone()), i + 1)),
        Token::IntLit(v) => Ok((Value::Int64(*v), i + 1)),
        Token::Ident(w) => {
            if str_eq(w.as_str(), "true") {
                Ok((Value::Bool(true), i + 1))
            } else if str_eq(w.as_str(), "false") {
                Ok((Value::Bool(false), i + 1))
            } else {
                Err(parse_error("expected a value"))
            }
        },
        _ => Err(parse_error("expected a value")),
    }
}

/// Parses zero or more comma-separated values, stopping before the
/// closing parenthesis.
fn parse_value_list(tokens: &Vec<Token>, i: usize) -> (r: Result<(Vec<Value>, usize), Error>)
    requires
        i <= tokens@.len(),
    ensures
        r is Ok ==> i <= r->Ok_0.1 <= tokens@.len(),
{
    let mut values: Vec<Value> = Vec::new();
    let mut j = i;
    if j < tokens.len() && (match &tokens[j] {
        Token::RParen => true,
        _ => false,
    }) {
        return Ok((values, j));
    }
    loop
        invariant
            i <= j <= tokens@.len(),
        decreases tokens@.len() - j,
    {
        let parsed = match parse_value(tokens, j) {
            Ok(p) => p,
            Err(e) => {
                return Err(e);
            },
        };
        values.push(parsed.0);
        j = parsed.1;
        if j < tokens.len() && (match &tokens[j] {
            Token::Comma => true,
            _ => false,
        }) {
            j = j + 1;
        } else {
            break;
        }
    }
    Ok((values, j))
}

/// Parses zero or more comma-separated quoted strings, stopping
/// before the closing parenthesis.
fn parse_string_list(tokens: &Vec<Token>, i: usize) -> (r: Result<(Vec<String>, usize), Error>)
    requires
        i <= tokens@.len(),
    ensures
        r is Ok ==> i <= r->Ok_0.1 <= tokens@.len(),
{
    let mut strings: Vec<String> = Vec::new();
    let mut j = i;
    loop
        invariant
            i <= j <= tokens@.len(),
        decreases tokens@.len() - j,
    {
        if j >= tokens.len() {
            break;
        }
        match &tokens[j] {
            Token::StrLit(s) => {
                strings.push(s.clone());
                j = j + 1;
            },
            _ => {
                break;
            },
        }
        if j < tokens.len() && (match &tokens[j] {
            Token::Comma => true,
            _ => false,
        }) {
            j = j + 1;
        } else {
            break;
        }
    }
    Ok((strings, j))
}

/// Expects the token at `i` to be a closing parenthesis.
fn expect_rparen(tokens: &Vec<Token>, i: usize) -> (r: Result<usize, Error>)
    requires
        i <= tokens@.len(),
    ensures
        r is Ok ==> r->Ok_0 == i + 1 && i < tokens@.len(),
{
    if i < tokens.len() && (match &tokens[i] {
        Token::RParen => true,
        _ => false,
    }) {
        Ok(i + 1)
    } else {
        Err(parse_error("expected ')'"))
    }
}

/// Parses one predicate, such as `gt(26)` or `and(gte(1), lt(5))`.
/// A parsed predicate is well formed.
fn parse_predicate(tokens: &Vec<Token>, i: usize) -> (r: Result<(Predicate, usize), Error>)
    requires
        i <= tokens@.len(),
    ensures
        r is Ok ==> i < r->Ok_0.1 <= tokens@.len(),
        r is Ok ==> pred_wf(r->Ok_0.0),
    decreases tokens@.len() - i,
{
    if i >= tokens.len() {
        return Err(parse_error("expected a predicate"));
    }
    let name = match &tokens[i] {
        Token::Ident(w) => w.clone(),
        _ => {
            return Err(parse_error("expected a predicate name"));
        },
    };
    let open = i + 1;
    if !(open < tokens.len() && (match &tokens[open] {
        Token::LParen => true,
        _ => false,
    })) {
        return Err(parse_error("expected '(' after predicate name"));
    }
    let args = open + 1;
    if args > tokens.len() {
        return Err(parse_error("predicate is missing its arguments"));
    }
    let n = name.as_str();
    if str_eq(n, "eq") || str_eq(n, "neq") || str_eq(n, "lt") || str_eq(n, "lte") || str_eq(
        n,
        "gt",
    ) || str_eq(n, "gte") {
        let parsed = match parse_value(tokens, args) {
            Ok(p) => p,
            Err(e) => {
                return Err(e);
            },
        };
        let j = match expect_rparen(tokens, parsed.1) {
            Ok(j) => j,
            Err(e) => {
                return Err(e);
            },
        };
        let pred = if str_eq(n, "eq") {
            Predicate::Eq(parsed.0)
        } else if str_eq(n, "neq") {
            Predicate::Neq(parsed.0)
        } else if str_eq(n, "lt") {
            Predicate::Lt(parsed.0)
        } else if str_eq(n, "lte") {
            Predicate::Lte(parsed.0)
        } else if str_eq(n, "gt") {
            Predicate::Gt(parsed.0)
        } else {
            Predicate::Gte(parsed.0)
        };
        Ok((pred, j))
    } else if str_eq(n, "within") || str_eq(n, "without") {
        let parsed = match parse_value_list(tokens, args) {
            Ok(p) => p,
            Err(e) => {
                return Err(e);
            },
        };
        let j = match expect_rparen(tokens, parsed.1) {
            Ok(j) => j,
            Err(e) => {
                return Err(e);
            },
        };
        let pred = if str_eq(n, "within") {
            Predicate::Within(parsed.0)
        } else {
            Predicate::Without(parsed.0)
        };
        Ok((pred, j))
    } else if str_eq(n, "between") {
        let first = match parse_value(tokens, args) {
            Ok(p) => p,
            Err(e) => {
                return Err(e);
            },
        };
        if !(first.1 < tokens.len() && (match &tokens[first.1] {
            Token::Comma => true,
            _ => false,
        })) {
            return Err(parse_error("between takes two values"));
        }
        let second = match parse_value(tokens, first.1 + 1) {
            Ok(p) => p,
            Err(e) => {
                return Err(e);
            },
        };
        let j = match expect_rparen(tokens, second.1) {
            Ok(j) => j,
            Err(e) => {
                return Err(e);
            },
        };
        Ok((Predicate::Between(first.0, second.0), j))
    } else if str_eq(n, "containing") || str_eq(n, "startingWith") || str_eq(n, "endingWith") {
        if !(args < tokens.len()) {
            return Err(parse_error("expected a string argument"));
        }
        let text = match &tokens[args] {
            Token::StrLit(s) => s.clone(),
            _ => {
                return Err(parse_error("expected a string argument"));
            },
        };
        let j = match expect_rparen(tokens, args + 1) {
            Ok(j) => j,
            Err(e) => {
                return Err(e);
            },
        };
        let pred = if str_eq(n, "containing") {
            Predicate::Containing(text)
        } else if str_eq(n, "startingWith") {
            Predicate::StartingWith(text)
        } else {
            Predicate::EndingWith(text)
        };
        Ok((pred, j))
    } else if str_eq(n, "and") || str_eq(n, "or") {
        let mut preds: Vec<Predicate> = Vec::new();
        let first = match parse_predicate(tokens, args) {
            Ok(p) => p,
            Err(e) => {
                return Err(e);
            },
        };
        preds.push(first.0);
        let mut j = first.1;
        loop
            invariant
                args < j <= tokens@.len(),
                args == i + 2,
                preds@.len() >= 1,
                forall|k: int| 0 <= k < preds@.len() ==> pred_wf(#[trigger] preds@[k]),
            decreases tokens@.len() - j,
        {
            if j >= tokens.len() {
                break;
            }
            let more = match &tokens[j] {
                Token::Comma => true,
                _ => false,
            };
            if !more {
                break;
            }
            let next = match parse_predicate(tokens, j + 1) {
                Ok(p) => p,
                Err(e) => {
                    return Err(e);
                },
            };
            preds.push(next.0);
            j = next.1;
        }
        let j2 = match expect_rparen(tokens, j) {
            Ok(j2) => j2,
            Err(e) => {
                return Err(e);
            },
        };
        let pred = if str_eq(n, "and") {
            Predicate::And(preds)
        } else {
            Predicate::Or(preds)
        };
        Ok((pred, j2))
    } else if str_eq(n, "not") {
        let inner = match parse_predicate(tokens, args) {
            Ok(p) => p,
            Err(e) => {
                return Err(e);
            },
        };
        let j = match expect_rparen(tokens, inner.1) {
            Ok(j) => j,
            Err(e) => {
                return Err(e);
            },
        };
        Ok((Predicate::Not(Box::new(inner.0)), j))
    } else {
        Err(parse_error("unsupported predicate"))
    }
}

/// Whether the token opens a predicate: a bare word other than
/// `true`/`false` followed by `(`.
fn looks_like_predicate(tokens: &Vec<Token>, i: usize) -> (r: bool)
    requires
        i <= tokens@.len(),
{
    if i < tokens.len() && i + 1 < tokens.len() {
        let is_word = match &tokens[i] {
            Token::Ident(w) => !str_eq(w.as_str(), "true") && !str_eq(w.as_str(), "false"),
            _ => false,
        };
        let is_open = match &tokens[i + 1] {
            Token::LParen => true,
            _ => false,
        };
        is_word && is_open
    } else {
        false
    }
}

/// Parses one non-negative integer as a count.
fn parse_count(tokens: &Vec<Token>, i: usize) -> (r: Result<(u64, usize), Error>)
    requires
        i <= tokens@.len(),
    ensures
        r is Ok ==> i < r->Ok_0.1 <= tokens@.len(),
{
    if i >= tokens.len() {
        return Err(parse_error("expected a count"));
    }
    match &tokens[i] {
        Token::IntLit(v) => {
            if *v < 0 {
                Err(parse_error("a count cannot be negative"))
            } else {
                Ok((*v as u64, i + 1))
            }
        },
        _ => Err(parse_error("expected a count")),
    }
}

/// Parses the `by(...)` modifiers following an `order()` step.
fn parse_by_modifiers(tokens: &Vec<Token>, i: usize) -> (r: Result<
    (Vec<OrderModifier>, usize),
    Error,
>)
    requires
        i <= tokens@.len(),
    ensures
        r is Ok ==> i <= r->Ok_0.1 <= tokens@.len(),
{
    let mut mods: Vec<OrderModifier> = Vec::new();
    let mut j = i;
    loop
        invariant
            i <= j <= tokens@.len(),
        decreases tokens@.len() - j,
    {
        if !(j < tokens.len() && j + 1 < tokens.len() && j + 2 < tokens.len()) {
            break;
        }
        let is_by = match (&tokens[j], &tokens[j + 1], &tokens[j + 2]) {
            (Token::Dot, Token::Ident(w), Token::LParen) => str_eq(w.as_str(), "by"),
            _ => false,
        };
        if !is_by {
            break;
        }
        let mut k = j + 3;
        let mut by = ByModifier::Identity;
        let mut order = SortOrder::Asc;
        if k < tokens.len() {
            match &tokens[k] {
                Token::StrLit(s) => {
                    by = ByModifier::Key(s.clone());
                    k = k + 1;
                },
                Token::Ident(w) => {
                    if str_eq(w.as_str(), "asc") {
                        order = SortOrder::Asc;
                        k = k + 1;
                    } else if str_eq(w.as_str(), "desc") {
                        order = SortOrder::Desc;
                        k = k + 1;
                    } else if str_eq(w.as_str(), "shuffle") {
                        order = SortOrder::Shuffle;
                        k = k + 1;
                    } else {
                        return Err(parse_error("unsupported by() modifier"));
                    }
                },
                _ => {},
            }
        }
        if k < tokens.len() && (match &tokens[k] {
            Token::Comma => true,
            _ => false,
        }) {
            k = k + 1;
            if k >= tokens.len() {
                return Err(parse_error("expected a sort order"));
            }
            match &tokens[k] {
                Token::Ident(w) => {
                    if str_eq(w.as_str(), "asc") {
                        order = SortOrder::Asc;
                    } else if str_eq(w.as_str(), "desc") {
                        order = SortOrder::Desc;
                    } else if str_eq(w.as_str(), "shuffle") {
                        order = SortOrder::Shuffle;
                    } else {
                        return Err(parse_error("expected a sort order"));
                    }
                    k = k + 1;
                },
                _ => {
                    return Err(parse_error("expected a sort order"));
                },
            }
        }
        let k2 = match expect_rparen(tokens, k) {
            Ok(k2) => k2,
            Err(e) => {
                return Err(e);
            },
        };
        mods.push(OrderModifier { by, order });
        j = k2;
    }
    Ok((mods, j))
}

/// Parses one step: `.name(args...)`, absorbing the `by` modifiers
/// of an `order` step. A parsed step is well formed and spans at
/// least four tokens.
fn parse_step(tokens: &Vec<Token>, i: usize) -> (r: Result<(Step, usize), Error>)
    requires
        i <= tokens@.len(),
    ensures
        r is Ok ==> i + 4 <= r->Ok_0.1 && r->Ok_0.1 <= tokens@.len(),
        r is Ok ==> step_wf(r->Ok_0.0),
        r is Ok ==> step_unreserved(r->Ok_0.0),
{
    if !(i < tokens.len() && (match &tokens[i] {
        Token::Dot => true,
        _ => false,
    })) {
        return Err(parse_error("expected '.' before a step"));
    }
    let name_at = i + 1;
    if name_at >= tokens.len() {
        return Err(parse_error("expected a step name"));
    }
    let name = match &tokens[name_at] {
        Token::Ident(w) => w.clone(),
        _ => {
            return Err(parse_error("expected a step name"));
        },
    };
    let open = name_at + 1;
    if !(open < tokens.len() && (match &tokens[open] {
        Token::LParen => true,
        _ => false,
    })) {
        return Err(parse_error("expected '(' after a step name"));
    }
    let args = open + 1;
    let n = name.as_str();
    if str_eq(n, "out") || str_eq(n, "in") || str_eq(n, "both") || str_eq(n, "outE") || str_eq(
        n,
        "inE",
    ) || str_eq(n, "bothE") || str_eq(n, "hasLabel") || str_eq(n, "dedup") || str_eq(n, "values") {
        let parsed = match parse_string_list(tokens, args) {
            Ok(p) => p,
            Err(e) => {
                return Err(e);
            },
        };
        let j = match expect_rparen(tokens, parsed.1) {
            Ok(j) => j,
            Err(e) => {
                return Err(e);
            },
        };
        let labels = parsed.0;
        let step = if str_eq(n, "out") {
            Step::Out(labels)
        } else if str_eq(n, "in") {
            Step::In(labels)
        } else if str_eq(n, "both") {
            Step::Both(labels)
        } else if str_eq(n, "outE") {
            Step::OutE(labels)
        } else if str_eq(n, "inE") {
            Step::InE(labels)
        } else if str_eq(n, "bothE") {
            Step::BothE(labels)
        } else if str_eq(n, "hasLabel") {
            if labels.len() == 0 {
                return Err(parse_error("hasLabel takes at least one label"));
            }
            Step::HasLabel(labels)
        } else if str_eq(n, "dedup") {
            Step::Dedup(labels)
        } else {
            if labels.len() == 0 {
                return Err(parse_error("values takes at least one key"));
            }
            Step::Values(labels)
        };
        Ok((step, j))
    } else if str_eq(n, "has") {
        if args >= tokens.len() {
            return Err(parse_error("has takes at least one argument"));
        }
        let first = match &tokens[args] {
            Token::StrLit(s) => s.clone(),
            _ => {
                return Err(parse_error("has takes a property key"));
            },
        };
        let after_first = args + 1;
        if after_first < tokens.len() && (match &tokens[after_first] {
            Token::Comma => true,
            _ => false,
        }) {
            let second_at = after_first + 1;
            if looks_like_predicate(tokens, second_at) {
                let parsed = match parse_predicate(tokens, second_at) {
                    Ok(p) => p,
                    Err(e) => {
                        return Err(e);
                    },
                };
                let j = match expect_rparen(tokens, parsed.1) {
                    Ok(j) => j,
                    Err(e) => {
                        return Err(e);
                    },
                };
                Ok((Step::Has(HasStep::KeyPredicate(first, parsed.0)), j))
            } else if second_at < tokens.len() && (match &tokens[second_at] {
                Token::StrLit(_) => true,
                _ => false,
            }) && second_at + 1 < tokens.len() && (match &tokens[second_at + 1] {
                Token::Comma => true,
                _ => false,
            }) {
                // has(label, key, value)
                let key = match &tokens[second_at] {
                    Token::StrLit(s) => s.clone(),
                    _ => {
                        return Err(parse_error("has takes a property key"));
                    },
                };
                let parsed = match parse_value(tokens, second_at + 2) {
                    Ok(p) => p,
                    Err(e) => {
                        return Err(e);
                    },
                };
                let j = match expect_rparen(tokens, parsed.1) {
                    Ok(j) => j,
                    Err(e) => {
                        return Err(e);
                    },
                };
                Ok((Step::Has(HasStep::LabelKeyValue(first, key, parsed.0)), j))
            } else {
                let parsed = match parse_value(tokens, second_at) {
                    Ok(p) => p,
                    Err(e) => {
                        return Err(e);
                    },
                };
                let j = match expect_rparen(tokens, parsed.1) {
                    Ok(j) => j,
                    Err(e) => {
                        return Err(e);
                    },
                };
                Ok((Step::Has(HasStep::KeyValue(first, parsed.0)), j))
            }
        } else {
            let j = match expect_rparen(tokens, after_first) {
                Ok(j) => j,
                Err(e) => {
                    return Err(e);
                },
            };
            Ok((Step::Has(HasStep::Key(first)), j))
        }
    } else if str_eq(n, "hasId") {
        let parsed = match parse_value_list(tokens, args) {
            Ok(p) => p,
            Err(e) => {
                return Err(e);
            },
        };
        let j = match expect_rparen(tokens, parsed.1) {
            Ok(j) => j,
            Err(e) => {
                return Err(e);
            },
        };
        Ok((Step::HasId(parsed.0), j))
    } else if str_eq(n, "hasNot") || str_eq(n, "as") || str_eq(n, "addE") || str_eq(n, "from")
        || str_eq(n, "to") {
        if args >= tokens.len() {
            return Err(parse_error("expected a string argument"));
        }
        let text = match &tokens[args] {
            Token::StrLit(s) => s.clone(),
            _ => {
                return Err(parse_error("expected a string argument"));
            },
        };
        let j = match expect_rparen(tokens, args + 1) {
            Ok(j) => j,
            Err(e) => {
                return Err(e);
            },
        };
        let names_alias = str_eq(n, "as") || str_eq(n, "from") || str_eq(n, "to");
        if names_alias && is_reserved(text.as_str()) {
            return Err(parse_error("alias names of the anonymous '_v<number>' shape are reserved"));
        }
        let step = if str_eq(n, "hasNot") {
            Step::HasNot(text)
        } else if str_eq(n, "as") {
            Step::As(text)
        } else if str_eq(n, "addE") {
            Step::AddE(text)
        } else if str_eq(n, "from") {
            Step::From(FromTo::Label(text))
        } else {
            Step::To(FromTo::Label(text))
        };
        Ok((step, j))
    } else if str_eq(n, "limit") || str_eq(n, "skip") {
        let parsed = match parse_count(tokens, args) {
            Ok(p) => p,
            Err(e) => {
                return Err(e);
            },
        };
        let j = match expect_rparen(tokens, parsed.1) {
            Ok(j) => j,
            Err(e) => {
                return Err(e);
            },
        };
        let step = if str_eq(n, "limit") {
            Step::Limit(parsed.0)
        } else {
            Step::Skip(parsed.0)
        };
        Ok((step, j))
    } else if str_eq(n, "range") {
        let first = match parse_count(tokens, args) {
            Ok(p) => p,
            Err(e) => {
                return Err(e);
            },
        };
        if !(first.1 < tokens.len() && (match &tokens[first.1] {
            Token::Comma => true,
            _ => false,
        })) {
            return Err(parse_error("range takes two counts"));
        }
        let second = match parse_count(tokens, first.1 + 1) {
            Ok(p) => p,
            Err(e) => {
                return Err(e);
            },
        };
        if second.0 < first.0 {
            return Err(parse_error("range end lies before its start"));
        }
        let j = match expect_rparen(tokens, second.1) {
            Ok(j) => j,
            Err(e) => {
                return Err(e);
            },
        };
        Ok((Step::Range(first.0, second.0), j))
    } else if str_eq(n, "property") {
        if args >= tokens.len() {
            return Err(parse_error("property takes a key and a value"));
        }
        let key = match &tokens[args] {
            Token::StrLit(s) => s.clone(),
            _ => {
                return Err(parse_error("property takes a quoted key"));
            },
        };
        if !(args + 1 < tokens.len() && (match &tokens[args + 1] {
            Token::Comma => true,
            _ => false,
        })) {
            return Err(parse_error("property takes a key and a value"));
        }
        let parsed = match parse_value(tokens, args + 2) {
            Ok(p) => p,
            Err(e) => {
                return Err(e);
            },
        };
        let j = match expect_rparen(tokens, parsed.1) {
            Ok(j) => j,
            Err(e) => {
                return Err(e);
            },
        };
        Ok((Step::Property(PropertyStep { key, value: parsed.0 }), j))
    } else if str_eq(n, "addV") {
        if args < tokens.len() && (match &tokens[args] {
            Token::StrLit(_) => true,
            _ => false,
        }) {
            let label = match &tokens[args] {
                Token::StrLit(s) => s.clone(),
                _ => {
                    return Err(parse_error("addV takes a quoted label"));
                },
            };
            let j = match expect_rparen(tokens, args + 1) {
                Ok(j) => j,
                Err(e) => {
                    return Err(e);
                },
            };
            Ok((Step::AddV(Some(label)), j))
        } else {
            let j = match expect_rparen(tokens, args) {
                Ok(j) => j,
                Err(e) => {
                    return Err(e);
                },
            };
            Ok((Step::AddV(None), j))
        }
    } else if str_eq(n, "order") {
        let j = match expect_rparen(tokens, args) {
            Ok(j) => j,
            Err(e) => {
                return Err(e);
            },
        };
        let parsed = match parse_by_modifiers(tokens, j) {
            Ok(p) => p,
            Err(e) => {
                return Err(e);
            },
        };
        Ok((Step::Order(parsed.0), parsed.1))
    } else {
        let j = match expect_rparen(tokens, args) {
            Ok(j) => j,
            Err(e) => {
                return Err(e);
            },
        };
        let step = if str_eq(n, "id") {
            Step::Id
        } else if str_eq(n, "label") {
            Step::Label
        } else if str_eq(n, "count") {
            Step::Count
        } else if str_eq(n, "sum") {
            Step::Sum
        } else if str_eq(n, "mean") {
            Step::Mean
        } else if str_eq(n, "min") {
            Step::Min
        } else if str_eq(n, "max") {
            Step::Max
        } else if str_eq(n, "fold") {
            Step::Fold
        } else if str_eq(n, "drop") {
            Step::Drop
        } else {
            return Err(parse_error("unsupported step"));
        };
        Ok((step, j))
    }
}

/// Parses a whole query: `g` followed by a traversal source and a
/// chain of steps. A parsed statement is well formed, and its step
/// count is at most a quarter of the query's length, since each
/// step spans at least four tokens and each token at least one
/// character.
pub fn parse(query: &str) -> (r: Result<Statement, Error>)
    ensures
        r is Ok ==> stmt_wf(r->Ok_0),
        r is Ok ==> stmt_unreserved(r->Ok_0),
        r is Ok ==> 4 * r->Ok_0.steps@.len() <= query@.len(),
        r is Ok ==> 4 * r->Ok_0.steps@.len() <= usize::MAX,
{
    let tokens = match tokenize(query) {
        Ok(t) => t,
        Err(e) => {
            return Err(e);
        },
    };
    if !(0 < tokens.len() && (match &tokens[0] {
        Token::Ident(w) => str_eq(w.as_str(), "g"),
        _ => false,
    })) {
        return Err(parse_error("a query starts with 'g'"));
    }
    if !(1 < tokens.len() && (match &tokens[1] {
        Token::Dot => true,
        _ => false,
    })) {
        return Err(parse_error("expected '.' after 'g'"));
    }
    if tokens.len() <= 2 {
        return Err(parse_error("expected a traversal source"));
    }
    let source_name = match &tokens[2] {
        Token::Ident(w) => w.clone(),
        _ => {
            return Err(parse_error("expected a traversal source"));
        },
    };
    if !(3 < tokens.len() && (match &tokens[3] {
        Token::LParen => true,
        _ => false,
    })) {
        return Err(parse_error("expected '(' after the traversal source"));
    }
    let args: usize = 4;
    let sn = source_name.as_str();
    let mut i: usize;
    let source: TraversalSource;
    if str_eq(sn, "V") || str_eq(sn, "E") {
        let parsed = match parse_value_list(&tokens, args) {
            Ok(p) => p,
            Err(e) => {
                return Err(e);
            },
        };
        let j = match expect_rparen(&tokens, parsed.1) {
            Ok(j) => j,
            Err(e) => {
                return Err(e);
            },
        };
        let ids = if parsed.0.len() == 0 {
            None
        } else {
            Some(parsed.0)
        };
        source = if str_eq(sn, "V") {
            TraversalSource::V(ids)
        } else {
            TraversalSource::E(ids)
        };
        i = j;
    } else if str_eq(sn, "addV") {
        if args < tokens.len() && (match &tokens[args] {
            Token::StrLit(_) => true,
            _ => false,
        }) {
            let label = match &tokens[args] {
                Token::StrLit(s) => s.clone(),
                _ => {
                    return Err(parse_error("addV takes a quoted label"));
                },
            };
            let j = match expect_rparen(&tokens, args + 1) {
                Ok(j) => j,
                Err(e) => {
                    return Err(e);
                },
            };
            source = TraversalSource::AddV(Some(label));
            i = j;
        } else {
            let j = match expect_rparen(&tokens, args) {
                Ok(j) => j,
                Err(e) => {
                    return Err(e);
                },
            };
            source = TraversalSource::AddV(None);
            i = j;
        }
    } else if str_eq(sn, "addE") {
        if args >= tokens.len() {
            return Err(parse_error("addE takes a quoted edge type"));
        }
        let label = match &tokens[args] {
            Token::StrLit(s) => s.clone(),
            _ => {
                return Err(parse_error("addE takes a quoted edge type"));
            },
        };
        let j = match expect_rparen(&tokens, args + 1) {
            Ok(j) => j,
            Err(e) => {
                return Err(e);
            },
        };
        source = TraversalSource::AddE(label);
        i = j;
    } else {
        return Err(parse_error("unsupported traversal source"));
    }
    let mut steps: Vec<Step> = Vec::new();
    while i < tokens.len()
        invariant
            i <= tokens@.len(),
            4 * steps@.len() <= i,
            forall|k: int| 0 <= k < steps@.len() ==> step_wf(#[trigger] steps@[k]),
            forall|k: int| 0 <= k < steps@.len() ==> step_unreserved(#[trigger] steps@[k]),
        decreases tokens@.len() - i,
    {
        let parsed = match parse_step(&tokens, i) {
            Ok(p) => p,
            Err(e) => {
                return Err(e);
            },
        };
        steps.push(parsed.0);
        i = parsed.1;
    }
    Ok(Statement { source, steps })
}

} // verus!
