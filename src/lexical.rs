use vstd::prelude::*;
use crate::error::ErrorKind;
use crate::token::{ObjectView, TokenView, eof_view};
use crate::token_type::TokenType;

verus! {

pub open spec fn is_digit(c: char) -> bool {
    '0' <= c && c <= '9'
}

pub open spec fn is_alpha(c: char) -> bool {
    ('a' <= c && c <= 'z') || ('A' <= c && c <= 'Z') || c == '_'
}

pub open spec fn is_alpha_numeric(c: char) -> bool {
    is_alpha(c) || is_digit(c)
}

/// Number of newline characters in `s`.
pub open spec fn newlines(s: Seq<char>) -> nat
    decreases s.len(),
{
    if s.len() == 0 {
        0
    } else {
        newlines(s.drop_last()) + if s.last() == '\n' { 1nat } else { 0nat }
    }
}

/// First index at or after `pos` that does not hold a digit.
pub open spec fn digits_end(src: Seq<char>, pos: int) -> int
    decreases src.len() - pos,
{
    if 0 <= pos < src.len() && is_digit(src[pos]) {
        digits_end(src, pos + 1)
    } else {
        pos
    }
}

/// First index at or after `pos` that does not continue an identifier.
pub open spec fn word_end(src: Seq<char>, pos: int) -> int
    decreases src.len() - pos,
{
    if 0 <= pos < src.len() && is_alpha_numeric(src[pos]) {
        word_end(src, pos + 1)
    } else {
        pos
    }
}

/// First index at or after `pos` that holds `c`, or the length of `src`.
pub open spec fn find_char(src: Seq<char>, pos: int, c: char) -> int
    decreases src.len() - pos,
{
    if 0 <= pos < src.len() && src[pos] != c {
        find_char(src, pos + 1, c)
    } else {
        pos
    }
}

/// End of a number literal whose first digit stands at `pos`: the digit run,
/// then a dot and a second digit run only when a digit follows the dot.
pub open spec fn number_end(src: Seq<char>, pos: int) -> int {
    let e = digits_end(src, pos + 1);
    if e + 1 < src.len() && src[e] == '.' && is_digit(src[e + 1]) {
        digits_end(src, e + 1)
    } else {
        e
    }
}

/// Scans the body of a block comment from `pos`, with `depth` levels open.
/// `Ok((next, line))` where the outermost level closes, or `Err(line)` with the
/// line reached at end of input.
pub open spec fn comment_end(src: Seq<char>, pos: int, depth: nat, line: int) -> Result<(int, int), int>
    decreases src.len() - pos,
{
    if pos < 0 || pos >= src.len() {
        Err(line)
    } else if src[pos] == '*' && pos + 1 < src.len() && src[pos + 1] == '/' {
        if depth <= 1 {
            Ok((pos + 2, line))
        } else {
            comment_end(src, pos + 2, (depth - 1) as nat, line)
        }
    } else if src[pos] == '/' && pos + 1 < src.len() && src[pos + 1] == '*' {
        comment_end(src, pos + 2, depth + 1, line)
    } else if src[pos] == '\n' {
        comment_end(src, pos + 1, depth, line + 1)
    } else {
        comment_end(src, pos + 1, depth, line)
    }
}

/// The kind of a word: its keyword, or `Identifier`.
pub open spec fn keyword_of(w: Seq<char>) -> TokenType {
    if w == "and"@ { TokenType::And }
    else if w == "or"@ { TokenType::Or }
    else if w == "true"@ { TokenType::True }
    else if w == "false"@ { TokenType::False }
    else if w == "class"@ { TokenType::Class }
    else if w == "fun"@ { TokenType::Fun }
    else if w == "for"@ { TokenType::For }
    else if w == "var"@ { TokenType::Var }
    else if w == "nil"@ { TokenType::Nil }
    else if w == "if"@ { TokenType::If }
    else if w == "this"@ { TokenType::This }
    else if w == "else"@ { TokenType::Else }
    else if w == "while"@ { TokenType::While }
    else if w == "return"@ { TokenType::Return }
    else if w == "super"@ { TokenType::Super }
    else if w == "print"@ { TokenType::Print }
    else { TokenType::Identifier }
}

/// Kind of the token that a single punctuation character makes by itself.
pub open spec fn single_kind(c: char) -> Option<TokenType> {
    if c == '(' { Some(TokenType::LeftParen) }
    else if c == ')' { Some(TokenType::RightParen) }
    else if c == '{' { Some(TokenType::LeftBrace) }
    else if c == '}' { Some(TokenType::RightBrace) }
    else if c == ',' { Some(TokenType::Comma) }
    else if c == '.' { Some(TokenType::Dot) }
    else if c == '-' { Some(TokenType::Minus) }
    else if c == '+' { Some(TokenType::Plus) }
    else if c == '*' { Some(TokenType::Star) }
    else if c == ';' { Some(TokenType::SemiColon) }
    else { None }
}

/// For `!`, `=`, `<`, `>`: the kind of the one-character operator.
pub open spec fn short_kind(c: char) -> Option<TokenType> {
    if c == '!' { Some(TokenType::Bang) }
    else if c == '=' { Some(TokenType::Assign) }
    else if c == '<' { Some(TokenType::Less) }
    else if c == '>' { Some(TokenType::Greater) }
    else { None }
}

/// For `!`, `=`, `<`, `>`: the kind of the operator with `=` appended.
pub open spec fn long_kind(c: char) -> TokenType {
    if c == '!' { TokenType::BangEqual }
    else if c == '=' { TokenType::Equal }
    else if c == '<' { TokenType::LessEqual }
    else { TokenType::GreaterEqual }
}

/// The outcome of scanning one lexeme.
pub enum Step {
    /// Nothing emitted; scanning resumes at `next` on `line`.
    Skip { next: int, line: int },
    /// `token` emitted; scanning resumes at `next` on `line`.
    Emit { token: TokenView, next: int, line: int },
    /// The scan fails.
    Fail { kind: ErrorKind, line: int },
}

pub open spec fn plain(kind: TokenType, src: Seq<char>, pos: int, next: int, line: int) -> Step {
    Step::Emit {
        token: TokenView { kind, lexeme: src.subrange(pos, next), literal: None, line },
        next,
        line,
    }
}

/// The lexeme that starts at `pos` (with `pos < src.len()`), on `line`.
pub open spec fn step(src: Seq<char>, pos: int, line: int) -> Step {
    let c = src[pos];
    let followed_by = |x: char| pos + 1 < src.len() && src[pos + 1] == x;
    if single_kind(c) is Some {
        plain(single_kind(c)->0, src, pos, pos + 1, line)
    } else if short_kind(c) is Some {
        if followed_by('=') {
            plain(long_kind(c), src, pos, pos + 2, line)
        } else {
            plain(short_kind(c)->0, src, pos, pos + 1, line)
        }
    } else if c == '/' {
        if followed_by('/') {
            Step::Skip { next: find_char(src, pos + 2, '\n'), line }
        } else if followed_by('*') {
            match comment_end(src, pos + 2, 1, line) {
                Ok((next, l)) => Step::Skip { next, line: l },
                Err(l) => Step::Fail { kind: ErrorKind::UnterminatedComment, line: l },
            }
        } else {
            plain(TokenType::Slash, src, pos, pos + 1, line)
        }
    } else if c == ' ' || c == '\r' || c == '\t' {
        Step::Skip { next: pos + 1, line }
    } else if c == '\n' {
        Step::Skip { next: pos + 1, line: line + 1 }
    } else if c == '"' {
        let close = find_char(src, pos + 1, '"');
        let after = line + newlines(src.subrange(pos + 1, close));
        if close >= src.len() {
            Step::Fail { kind: ErrorKind::UnterminatedString, line: after }
        } else {
            Step::Emit {
                token: TokenView {
                    kind: TokenType::String,
                    lexeme: src.subrange(pos, close + 1),
                    literal: Some(ObjectView::Str(src.subrange(pos + 1, close))),
                    line,
                },
                next: close + 1,
                line: after,
            }
        }
    } else if is_digit(c) {
        let e = number_end(src, pos);
        Step::Emit {
            token: TokenView {
                kind: TokenType::Number,
                lexeme: src.subrange(pos, e),
                literal: Some(ObjectView::Num(src.subrange(pos, e))),
                line,
            },
            next: e,
            line,
        }
    } else if is_alpha(c) {
        let e = word_end(src, pos + 1);
        plain(keyword_of(src.subrange(pos, e)), src, pos, e, line)
    } else {
        Step::Fail { kind: ErrorKind::UnexpectedCharacter, line }
    }
}

/// Prefixes `pre` to a successful result; an error passes through.
pub open spec fn prepend(pre: Seq<TokenView>, r: Result<Seq<TokenView>, (ErrorKind, int)>) -> Result<Seq<TokenView>, (ErrorKind, int)> {
    match r {
        Ok(ts) => Ok(pre + ts),
        Err(e) => Err(e),
    }
}

/// The tokens of `src` from index `pos` on, starting on `line`, ended by the
/// end-of-input marker; or the first error as its kind and line.
pub open spec fn scan_from(src: Seq<char>, pos: int, line: int) -> Result<Seq<TokenView>, (ErrorKind, int)>
    decreases src.len() - pos,
{
    if pos < 0 || pos >= src.len() {
        Ok(seq![eof_view(line)])
    } else {
        match step(src, pos, line) {
            Step::Skip { next, line: l } => if pos < next <= src.len() {
                scan_from(src, next, l)
            } else {
                Err((ErrorKind::UnexpectedCharacter, line))
            },
            Step::Emit { token, next, line: l } => if pos < next <= src.len() {
                prepend(seq![token], scan_from(src, next, l))
            } else {
                Err((ErrorKind::UnexpectedCharacter, line))
            },
            Step::Fail { kind, line: l } => Err((kind, l)),
        }
    }
}

/// The result of scanning a whole source text, from line 1.
pub open spec fn scan(src: Seq<char>) -> Result<Seq<TokenView>, (ErrorKind, int)> {
    scan_from(src, 0, 1)
}

pub proof fn lemma_newlines_bound(s: Seq<char>)
    ensures
        newlines(s) <= s.len(),
    decreases s.len(),
{
    if s.len() > 0 {
        lemma_newlines_bound(s.drop_last());
    }
}

pub proof fn lemma_digits_end(src: Seq<char>, pos: int)
    requires
        0 <= pos <= src.len(),
    ensures
        pos <= digits_end(src, pos) <= src.len(),
        forall|i: int| pos <= i < digits_end(src, pos) ==> is_digit(#[trigger] src[i]),
    decreases src.len() - pos,
{
    if pos < src.len() && is_digit(src[pos]) {
        lemma_digits_end(src, pos + 1);
    }
}

pub proof fn lemma_word_end(src: Seq<char>, pos: int)
    requires
        0 <= pos <= src.len(),
    ensures
        pos <= word_end(src, pos) <= src.len(),
        forall|i: int| pos <= i < word_end(src, pos) ==> is_alpha_numeric(#[trigger] src[i]),
    decreases src.len() - pos,
{
    if pos < src.len() && is_alpha_numeric(src[pos]) {
        lemma_word_end(src, pos + 1);
    }
}

pub proof fn lemma_find_char(src: Seq<char>, pos: int, c: char)
    requires
        0 <= pos <= src.len(),
    ensures
        pos <= find_char(src, pos, c) <= src.len(),
        find_char(src, pos, c) < src.len() ==> src[find_char(src, pos, c)] == c,
        forall|i: int| pos <= i < find_char(src, pos, c) ==> #[trigger] src[i] != c,
    decreases src.len() - pos,
{
    if pos < src.len() && src[pos] != c {
        lemma_find_char(src, pos + 1, c);
    }
}

pub proof fn lemma_comment_end(src: Seq<char>, pos: int, depth: nat, line: int)
    requires
        0 <= pos <= src.len(),
    ensures
        match comment_end(src, pos, depth, line) {
            Ok((next, l)) => pos < next <= src.len() && line <= l && l - line <= next - pos,
            Err(l) => line <= l && l - line <= src.len() - pos,
        },
    decreases src.len() - pos,
{
    if pos < src.len() {
        if src[pos] == '*' && pos + 1 < src.len() && src[pos + 1] == '/' {
            if depth > 1 {
                lemma_comment_end(src, pos + 2, (depth - 1) as nat, line);
            }
        } else if src[pos] == '/' && pos + 1 < src.len() && src[pos + 1] == '*' {
            lemma_comment_end(src, pos + 2, depth + 1, line);
        } else if src[pos] == '\n' {
            lemma_comment_end(src, pos + 1, depth, line + 1);
        } else {
            lemma_comment_end(src, pos + 1, depth, line);
        }
    }
}

/// Each lexeme consumes at least one character, stays within the text, and
/// moves the line counter forward by at most the characters it consumes.
pub proof fn lemma_step_bounds(src: Seq<char>, pos: int, line: int)
    requires
        0 <= pos < src.len(),
    ensures
        match step(src, pos, line) {
            Step::Skip { next, line: l } => pos < next <= src.len() && line <= l && l - line <= next - pos,
            Step::Emit { next, line: l, .. } => pos < next <= src.len() && line <= l && l - line <= next - pos,
            Step::Fail { line: l, .. } => line <= l && l - line <= src.len() - pos,
        },
{
    let c = src[pos];
    if c == '/' && pos + 1 < src.len() && src[pos + 1] == '/' {
        lemma_find_char(src, pos + 2, '\n');
    } else if c == '/' && pos + 1 < src.len() && src[pos + 1] == '*' {
        lemma_comment_end(src, pos + 2, 1, line);
    } else if c == '"' {
        let close = find_char(src, pos + 1, '"');
        lemma_find_char(src, pos + 1, '"');
        lemma_newlines_bound(src.subrange(pos + 1, close));
    } else if is_digit(c) {
        lemma_digits_end(src, pos + 1);
        let e = digits_end(src, pos + 1);
        if e + 1 < src.len() {
            lemma_digits_end(src, e + 1);
        }
    } else if is_alpha(c) {
        lemma_word_end(src, pos + 1);
    }
}

} // verus!
