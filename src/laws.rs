use vstd::prelude::*;
use crate::error::ErrorKind;
use crate::lexical::{
    lemma_find_char,
    Step, step, scan, scan_from, comment_end, find_char, newlines, digits_end, word_end,
    number_end, prepend, is_digit, is_alpha_numeric, lemma_step_bounds,
};
use crate::token::{TokenView, eof_view};

verus! {

pub open spec fn is_blank(c: char) -> bool {
    c == ' ' || c == '\r' || c == '\t' || c == '\n'
}

pub proof fn lemma_newlines_concat(x: Seq<char>, y: Seq<char>)
    ensures
        newlines(x + y) == newlines(x) + newlines(y),
    decreases y.len(),
{
    if y.len() == 0 {
        assert(x + y =~= x);
    } else {
        assert((x + y).drop_last() =~= x + y.drop_last());
        lemma_newlines_concat(x, y.drop_last());
    }
}

/// Newlines of `src[pos..end]` split off its first character.
pub proof fn lemma_newlines_front(src: Seq<char>, pos: int, end: int)
    requires
        0 <= pos < end <= src.len(),
    ensures
        newlines(src.subrange(pos, end)) == (if src[pos] == '\n' { 1nat } else { 0nat })
            + newlines(src.subrange(pos + 1, end)),
{
    assert(src.subrange(pos, end) =~= src.subrange(pos, pos + 1) + src.subrange(pos + 1, end));
    lemma_newlines_concat(src.subrange(pos, pos + 1), src.subrange(pos + 1, end));
    let one = src.subrange(pos, pos + 1);
    assert(one.drop_last() =~= Seq::<char>::empty());
    assert(newlines(one.drop_last()) == 0);
    assert(one.last() == src[pos]);
    assert(newlines(one) == newlines(one.drop_last()) + if one.last() == '\n' { 1nat } else { 0nat });
}

proof fn lemma_blank_from(src: Seq<char>, pos: int, line: int)
    requires
        0 <= pos <= src.len(),
        forall|i: int| 0 <= i < src.len() ==> is_blank(#[trigger] src[i]),
    ensures
        scan_from(src, pos, line) == Ok::<Seq<TokenView>, (ErrorKind, int)>(
            seq![eof_view(line + newlines(src.subrange(pos, src.len() as int)))],
        ),
    decreases src.len() - pos,
{
    if pos == src.len() {
        assert(src.subrange(pos, pos) =~= Seq::<char>::empty());
    } else {
        lemma_newlines_front(src, pos, src.len() as int);
        if src[pos] == '\n' {
            lemma_blank_from(src, pos + 1, line + 1);
        } else {
            lemma_blank_from(src, pos + 1, line);
        }
    }
}

/// A text of spaces, tabs, carriage returns and newlines scans to the
/// end-of-input marker alone, on the line after its last newline.
pub proof fn law_blank_text(src: Seq<char>)
    requires
        forall|i: int| 0 <= i < src.len() ==> is_blank(#[trigger] src[i]),
    ensures
        scan(src) == Ok::<Seq<TokenView>, (ErrorKind, int)>(seq![eof_view(1 + newlines(src) as int)]),
{
    lemma_blank_from(src, 0, 1);
    assert(src.subrange(0, src.len() as int) =~= src);
}

proof fn lemma_find_absent(src: Seq<char>, pos: int, c: char)
    requires
        0 <= pos <= src.len(),
        forall|i: int| pos <= i < src.len() ==> #[trigger] src[i] != c,
    ensures
        find_char(src, pos, c) == src.len(),
    decreases src.len() - pos,
{
    if pos < src.len() {
        lemma_find_absent(src, pos + 1, c);
    }
}

/// A quote with no closing quote after it fails the scan as an unterminated
/// string, on the line reached at end of input.
pub proof fn law_unterminated_string(body: Seq<char>)
    requires
        forall|i: int| 0 <= i < body.len() ==> #[trigger] body[i] != '"',
    ensures
        scan(seq!['"'] + body) == Err::<Seq<TokenView>, (ErrorKind, int)>(
            (ErrorKind::UnterminatedString, 1 + newlines(body) as int),
        ),
{
    let src = seq!['"'] + body;
    assert forall|i: int| 1 <= i < src.len() implies #[trigger] src[i] != '"' by {
        assert(src[i] == body[i - 1]);
    }
    lemma_find_absent(src, 1, '"');
    assert(src.subrange(1, src.len() as int) =~= body);
    assert(src[0] == '"');
}

proof fn lemma_comment_open(src: Seq<char>, pos: int, depth: nat, line: int)
    requires
        0 <= pos <= src.len(),
        forall|i: int| pos <= i && i + 1 < src.len() ==> !(#[trigger] src[i] == '*' && src[i + 1] == '/'),
    ensures
        comment_end(src, pos, depth, line) == Err::<(int, int), int>(
            line + newlines(src.subrange(pos, src.len() as int)),
        ),
    decreases src.len() - pos,
{
    if pos == src.len() {
        assert(src.subrange(pos, pos) =~= Seq::<char>::empty());
    } else {
        lemma_newlines_front(src, pos, src.len() as int);
        if src[pos] == '/' && pos + 1 < src.len() && src[pos + 1] == '*' {
            lemma_newlines_front(src, pos + 1, src.len() as int);
            lemma_comment_open(src, pos + 2, depth + 1, line);
        } else if src[pos] == '\n' {
            lemma_comment_open(src, pos + 1, depth, line + 1);
        } else {
            lemma_comment_open(src, pos + 1, depth, line);
        }
    }
}

/// A block comment in which `*/` never occurs fails the scan as an
/// unterminated comment, on the line reached at end of input.
pub proof fn law_unterminated_comment(body: Seq<char>)
    requires
        forall|i: int| 0 <= i && i + 1 < body.len() ==> !(#[trigger] body[i] == '*' && body[i + 1] == '/'),
    ensures
        scan(seq!['/', '*'] + body) == Err::<Seq<TokenView>, (ErrorKind, int)>(
            (ErrorKind::UnterminatedComment, 1 + newlines(body) as int),
        ),
{
    let src = seq!['/', '*'] + body;
    assert forall|i: int| 2 <= i && i + 1 < src.len() implies !(#[trigger] src[i] == '*' && src[i + 1] == '/') by {
        assert(src[i] == body[i - 2]);
        assert(src[i + 1] == body[i - 1]);
    }
    lemma_comment_open(src, 2, 1, 1);
    assert(src.subrange(2, src.len() as int) =~= body);
    assert(src[0] == '/' && src[1] == '*');
}

pub open spec fn shift_token(t: TokenView, d: int) -> TokenView {
    TokenView { line: t.line + d, ..t }
}

/// The tokens with every line moved by `d`.
pub open spec fn shift_tokens(ts: Seq<TokenView>, d: int) -> Seq<TokenView> {
    ts.map_values(|t: TokenView| shift_token(t, d))
}

/// A scan result with every line moved by `d`.
pub open spec fn shift_result(r: Result<Seq<TokenView>, (ErrorKind, int)>, d: int) -> Result<Seq<TokenView>, (ErrorKind, int)> {
    match r {
        Ok(ts) => Ok(shift_tokens(ts, d)),
        Err((k, l)) => Err((k, l + d)),
    }
}

pub open spec fn shift_step(st: Step, d: int) -> Step {
    match st {
        Step::Skip { next, line } => Step::Skip { next, line: line + d },
        Step::Emit { token, next, line } => Step::Emit { token: shift_token(token, d), next, line: line + d },
        Step::Fail { kind, line } => Step::Fail { kind, line: line + d },
    }
}

proof fn lemma_comment_shift(src: Seq<char>, pos: int, depth: nat, line: int, d: int)
    ensures
        comment_end(src, pos, depth, line + d) == match comment_end(src, pos, depth, line) {
            Ok((n, l)) => Ok::<(int, int), int>((n, l + d)),
            Err(l) => Err(l + d),
        },
    decreases src.len() - pos,
{
    if 0 <= pos < src.len() {
        if src[pos] == '*' && pos + 1 < src.len() && src[pos + 1] == '/' {
            if depth > 1 {
                lemma_comment_shift(src, pos + 2, (depth - 1) as nat, line, d);
            }
        } else if src[pos] == '/' && pos + 1 < src.len() && src[pos + 1] == '*' {
            lemma_comment_shift(src, pos + 2, depth + 1, line, d);
        } else if src[pos] == '\n' {
            lemma_comment_shift(src, pos + 1, depth, line + 1, d);
            assert(line + 1 + d == line + d + 1);
        } else {
            lemma_comment_shift(src, pos + 1, depth, line, d);
        }
    }
}

proof fn lemma_step_shift(src: Seq<char>, pos: int, line: int, d: int)
    requires
        0 <= pos < src.len(),
    ensures
        step(src, pos, line + d) == shift_step(step(src, pos, line), d),
{
    lemma_comment_shift(src, pos + 2, 1, line, d);
}

proof fn lemma_scan_shift(src: Seq<char>, pos: int, line: int, d: int)
    ensures
        scan_from(src, pos, line + d) == shift_result(scan_from(src, pos, line), d),
    decreases src.len() - pos,
{
    if pos < 0 || pos >= src.len() {
        assert(shift_tokens(seq![eof_view(line)], d) =~= seq![eof_view(line + d)]);
    } else {
        lemma_step_shift(src, pos, line, d);
        lemma_step_bounds(src, pos, line);
        match step(src, pos, line) {
            Step::Skip { next, line: l } => {
                lemma_scan_shift(src, next, l, d);
            },
            Step::Emit { token, next, line: l } => {
                lemma_scan_shift(src, next, l, d);
                match scan_from(src, next, l) {
                    Ok(ts) => {
                        assert(shift_tokens(seq![token] + ts, d) =~= seq![shift_token(token, d)]
                            + shift_tokens(ts, d));
                    },
                    Err(_) => {},
                }
            },
            Step::Fail { .. } => {},
        }
    }
}

// Scanning inside the second part of a concatenation is scanning that part.

proof fn lemma_digits_suffix(a: Seq<char>, b: Seq<char>, p: int)
    requires
        0 <= p <= b.len(),
    ensures
        digits_end(a + b, a.len() + p) == a.len() + digits_end(b, p),
    decreases b.len() - p,
{
    if p < b.len() {
        assert((a + b)[a.len() + p] == b[p]);
        lemma_digits_suffix(a, b, p + 1);
    }
}

proof fn lemma_word_suffix(a: Seq<char>, b: Seq<char>, p: int)
    requires
        0 <= p <= b.len(),
    ensures
        word_end(a + b, a.len() + p) == a.len() + word_end(b, p),
    decreases b.len() - p,
{
    if p < b.len() {
        assert((a + b)[a.len() + p] == b[p]);
        lemma_word_suffix(a, b, p + 1);
    }
}

proof fn lemma_find_suffix(a: Seq<char>, b: Seq<char>, p: int, c: char)
    requires
        0 <= p <= b.len(),
    ensures
        find_char(a + b, a.len() + p, c) == a.len() + find_char(b, p, c),
    decreases b.len() - p,
{
    if p < b.len() {
        assert((a + b)[a.len() + p] == b[p]);
        lemma_find_suffix(a, b, p + 1, c);
    }
}

proof fn lemma_comment_suffix(a: Seq<char>, b: Seq<char>, p: int, depth: nat, line: int)
    requires
        0 <= p <= b.len(),
    ensures
        comment_end(a + b, a.len() + p, depth, line) == match comment_end(b, p, depth, line) {
            Ok((n, l)) => Ok::<(int, int), int>((a.len() + n, l)),
            Err(l) => Err(l),
        },
    decreases b.len() - p,
{
    let src = a + b;
    let q = a.len() + p;
    if p < b.len() {
        assert(src[q] == b[p]);
        if p + 1 < b.len() {
            assert(src[q + 1] == b[p + 1]);
        }
        if b[p] == '*' && p + 1 < b.len() && b[p + 1] == '/' {
            if depth > 1 {
                lemma_comment_suffix(a, b, p + 2, (depth - 1) as nat, line);
            }
        } else if b[p] == '/' && p + 1 < b.len() && b[p + 1] == '*' {
            lemma_comment_suffix(a, b, p + 2, depth + 1, line);
        } else if b[p] == '\n' {
            lemma_comment_suffix(a, b, p + 1, depth, line + 1);
        } else {
            lemma_comment_suffix(a, b, p + 1, depth, line);
        }
    }
}

pub open spec fn offset_step(st: Step, n: int) -> Step {
    match st {
        Step::Skip { next, line } => Step::Skip { next: next + n, line },
        Step::Emit { token, next, line } => Step::Emit { token, next: next + n, line },
        Step::Fail { kind, line } => Step::Fail { kind, line },
    }
}

proof fn lemma_step_suffix(a: Seq<char>, b: Seq<char>, p: int, line: int)
    requires
        0 <= p < b.len(),
    ensures
        step(a + b, a.len() + p, line) == offset_step(step(b, p, line), a.len() as int),
{
    let src = a + b;
    let n = a.len() as int;
    let q = n + p;
    assert(src[q] == b[p]);
    if p + 1 < b.len() {
        assert(src[q + 1] == b[p + 1]);
    }
    assert forall|x: int, y: int| p <= x <= y <= b.len() implies #[trigger] src.subrange(n + x, n + y)
        == b.subrange(x, y) by {
        assert(src.subrange(n + x, n + y) =~= b.subrange(x, y));
    }
    lemma_find_suffix(a, b, p + 1, '"');
    lemma_find_char(b, p + 1, '"');
    if p + 2 <= b.len() {
        lemma_find_suffix(a, b, p + 2, '\n');
        lemma_comment_suffix(a, b, p + 2, 1, line);
    }
    lemma_digits_suffix(a, b, p + 1);
    crate::lexical::lemma_digits_end(b, p + 1);
    let e = digits_end(b, p + 1);
    if e + 1 <= b.len() {
        lemma_digits_suffix(a, b, e + 1);
        crate::lexical::lemma_digits_end(b, e + 1);
    }
    if e < b.len() {
        assert(src[n + e] == b[e]);
    }
    if e + 1 < b.len() {
        assert(src[n + e + 1] == b[e + 1]);
    }
    crate::lexical::lemma_word_end(b, p + 1);
    lemma_word_suffix(a, b, p + 1);
    let c = b[p];
    if c == '"' {
        let close = find_char(b, p + 1, '"');
        assert(src.subrange(q + 1, n + close) == b.subrange(p + 1, close));
        if close < b.len() {
            assert(src.subrange(q, n + close + 1) == b.subrange(p, close + 1));
        }
    } else if is_digit(c) {
        assert(number_end(src, q) == n + number_end(b, p));
        assert(src.subrange(q, n + number_end(b, p)) == b.subrange(p, number_end(b, p)));
    } else {
        assert(src.subrange(q, q + 1) == b.subrange(p, p + 1));
        if p + 2 <= b.len() {
            assert(src.subrange(q, q + 2) == b.subrange(p, p + 2));
        }
        assert(src.subrange(q, n + word_end(b, p + 1)) == b.subrange(p, word_end(b, p + 1)));
    }
}

proof fn lemma_scan_suffix(a: Seq<char>, b: Seq<char>, p: int, line: int)
    requires
        0 <= p <= b.len(),
    ensures
        scan_from(a + b, a.len() + p, line) == scan_from(b, p, line),
    decreases b.len() - p,
{
    if p < b.len() {
        lemma_step_suffix(a, b, p, line);
        lemma_step_bounds(b, p, line);
        match step(b, p, line) {
            Step::Skip { next, line: l } => {
                lemma_scan_suffix(a, b, next, l);
            },
            Step::Emit { next, line: l, .. } => {
                lemma_scan_suffix(a, b, next, l);
            },
            Step::Fail { .. } => {},
        }
    }
}

// Scanning inside a first part that ends with a newline does not look past it.

proof fn lemma_digits_prefix(a: Seq<char>, b: Seq<char>, p: int)
    requires
        0 <= p < a.len(),
        a.last() == '\n',
    ensures
        digits_end(a + b, p) == digits_end(a, p) < a.len(),
    decreases a.len() - p,
{
    assert((a + b)[p] == a[p]);
    if is_digit(a[p]) {
        lemma_digits_prefix(a, b, p + 1);
    }
}

proof fn lemma_word_prefix(a: Seq<char>, b: Seq<char>, p: int)
    requires
        0 <= p < a.len(),
        a.last() == '\n',
    ensures
        word_end(a + b, p) == word_end(a, p) < a.len(),
    decreases a.len() - p,
{
    assert((a + b)[p] == a[p]);
    if is_alpha_numeric(a[p]) {
        lemma_word_prefix(a, b, p + 1);
    }
}

proof fn lemma_find_prefix(a: Seq<char>, b: Seq<char>, p: int, c: char)
    requires
        0 <= p <= a.len(),
        find_char(a, p, c) < a.len(),
    ensures
        find_char(a + b, p, c) == find_char(a, p, c),
    decreases a.len() - p,
{
    if p < a.len() {
        assert((a + b)[p] == a[p]);
        if a[p] != c {
            lemma_find_prefix(a, b, p + 1, c);
        }
    }
}

proof fn lemma_find_last(a: Seq<char>, p: int, c: char)
    requires
        0 <= p < a.len(),
        a.last() == c,
    ensures
        find_char(a, p, c) < a.len(),
    decreases a.len() - p,
{
    if a[p] != c {
        lemma_find_last(a, p + 1, c);
    }
}

proof fn lemma_comment_prefix(a: Seq<char>, b: Seq<char>, p: int, depth: nat, line: int)
    requires
        0 <= p <= a.len(),
        a.len() > 0,
        a.last() == '\n',
        comment_end(a, p, depth, line) is Ok,
    ensures
        comment_end(a + b, p, depth, line) == comment_end(a, p, depth, line),
    decreases a.len() - p,
{
    let src = a + b;
    if p < a.len() {
        assert(src[p] == a[p]);
        if p + 1 < a.len() {
            assert(src[p + 1] == a[p + 1]);
        }
        if a[p] == '*' && p + 1 < a.len() && a[p + 1] == '/' {
            if depth > 1 {
                lemma_comment_prefix(a, b, p + 2, (depth - 1) as nat, line);
            }
        } else if a[p] == '/' && p + 1 < a.len() && a[p + 1] == '*' {
            lemma_comment_prefix(a, b, p + 2, depth + 1, line);
        } else if a[p] == '\n' {
            lemma_comment_prefix(a, b, p + 1, depth, line + 1);
        } else {
            lemma_comment_prefix(a, b, p + 1, depth, line);
        }
    }
}

proof fn lemma_step_prefix(a: Seq<char>, b: Seq<char>, p: int, line: int)
    requires
        0 <= p < a.len(),
        a.last() == '\n',
        !(step(a, p, line) is Fail),
    ensures
        step(a + b, p, line) == step(a, p, line),
{
    let src = a + b;
    assert(src[p] == a[p]);
    if p + 1 < a.len() {
        assert(src[p + 1] == a[p + 1]);
    }
    assert forall|x: int, y: int| 0 <= x <= y <= a.len() implies #[trigger] src.subrange(x, y)
        == a.subrange(x, y) by {
        assert(src.subrange(x, y) =~= a.subrange(x, y));
    }
    let c = a[p];
    if c != '\n' {
        assert(p + 1 < a.len());
        if c == '/' && a[p + 1] == '/' {
            lemma_find_last(a, p + 2, '\n');
            lemma_find_prefix(a, b, p + 2, '\n');
        } else if c == '/' && a[p + 1] == '*' {
            crate::lexical::lemma_comment_end(a, p + 2, 1, line);
            if comment_end(a, p + 2, 1, line) is Ok {
                lemma_comment_prefix(a, b, p + 2, 1, line);
            }
        } else if c == '"' {
            lemma_find_char(a, p + 1, '"');
            if find_char(a, p + 1, '"') < a.len() {
                lemma_find_prefix(a, b, p + 1, '"');
            }
        } else if is_digit(c) {
            lemma_digits_prefix(a, b, p + 1);
            let e = digits_end(a, p + 1);
            crate::lexical::lemma_digits_end(a, p + 1);
            assert(src[e] == a[e]);
            if a[e] == '.' {
                assert(e + 1 < a.len());
                assert(src[e + 1] == a[e + 1]);
                lemma_digits_prefix(a, b, e + 1);
                crate::lexical::lemma_digits_end(a, e + 1);
            }
            assert(number_end(src, p) == number_end(a, p));
        } else {
            lemma_word_prefix(a, b, p + 1);
            crate::lexical::lemma_word_end(a, p + 1);
        }
    }
}

proof fn lemma_scan_prefix(a: Seq<char>, b: Seq<char>, pos: int, line: int)
    requires
        0 <= pos <= a.len(),
        a.len() == 0 || a.last() == '\n',
        scan_from(a, pos, line) is Ok,
    ensures
        scan_from(a, pos, line)->Ok_0.len() >= 1,
        scan_from(a + b, pos, line) == prepend(
            scan_from(a, pos, line)->Ok_0.drop_last(),
            scan_from(b, 0, scan_from(a, pos, line)->Ok_0.last().line),
        ),
    decreases a.len() - pos,
{
    if pos == a.len() {
        lemma_scan_suffix(a, b, 0, line);
        let ts = scan_from(a, pos, line)->Ok_0;
        assert(ts.drop_last() =~= Seq::<TokenView>::empty());
        match scan_from(b, 0, line) {
            Ok(x) => {
                assert(Seq::<TokenView>::empty() + x =~= x);
            },
            Err(_) => {},
        }
    } else {
        lemma_step_bounds(a, pos, line);
        lemma_step_prefix(a, b, pos, line);
        lemma_step_bounds(a + b, pos, line);
        match step(a, pos, line) {
            Step::Skip { next, line: l } => {
                lemma_scan_prefix(a, b, next, l);
            },
            Step::Emit { token, next, line: l } => {
                lemma_scan_prefix(a, b, next, l);
                let rest = scan_from(a, next, l)->Ok_0;
                let ts = seq![token] + rest;
                assert(ts.drop_last() =~= seq![token] + rest.drop_last());
                assert(ts.last() == rest.last());
                match scan_from(b, 0, rest.last().line) {
                    Ok(x) => {
                        assert(seq![token] + (rest.drop_last() + x) =~= (seq![token]
                            + rest.drop_last()) + x);
                    },
                    Err(_) => {},
                }
            },
            Step::Fail { .. } => {},
        }
    }
}

/// Scanning two units one after the other, the first empty or ending with a
/// newline and scanning without error: the result is the first unit's tokens
/// without their end marker, then the result of scanning the second unit on
/// its own with every line moved down by the lines the first unit spans.
pub proof fn law_concatenation(a: Seq<char>, b: Seq<char>)
    requires
        a.len() == 0 || a.last() == '\n',
        scan(a) is Ok,
    ensures
        scan(a + b) == prepend(
            scan(a)->Ok_0.drop_last(),
            shift_result(scan(b), scan(a)->Ok_0.last().line - 1),
        ),
{
    lemma_scan_prefix(a, b, 0, 1);
    let d = scan(a)->Ok_0.last().line - 1;
    lemma_scan_shift(b, 0, 1, d);
    assert(1 + d == scan(a)->Ok_0.last().line);
}

proof fn lemma_newlines_none(s: Seq<char>)
    requires
        forall|i: int| 0 <= i < s.len() ==> #[trigger] s[i] != '\n',
    ensures
        newlines(s) == 0,
    decreases s.len(),
{
    if s.len() > 0 {
        lemma_newlines_none(s.drop_last());
    }
}

proof fn lemma_newlines_split(src: Seq<char>, x: int, y: int, z: int)
    requires
        0 <= x <= y <= z <= src.len(),
    ensures
        newlines(src.subrange(x, z)) == newlines(src.subrange(x, y)) + newlines(src.subrange(y, z)),
{
    assert(src.subrange(x, z) =~= src.subrange(x, y) + src.subrange(y, z));
    lemma_newlines_concat(src.subrange(x, y), src.subrange(y, z));
}

proof fn lemma_newlines_plain(src: Seq<char>, x: int, y: int)
    requires
        0 <= x <= y <= src.len(),
        forall|i: int| x <= i < y ==> #[trigger] src[i] != '\n',
    ensures
        newlines(src.subrange(x, y)) == 0,
{
    let s = src.subrange(x, y);
    assert forall|i: int| 0 <= i < s.len() implies #[trigger] s[i] != '\n' by {
        assert(s[i] == src[x + i]);
    }
    lemma_newlines_none(s);
}

proof fn lemma_comment_lines(src: Seq<char>, pos: int, depth: nat, line: int)
    requires
        0 <= pos <= src.len(),
    ensures
        comment_end(src, pos, depth, line) matches Ok((n, l)) ==> pos <= n <= src.len() && l == line
            + newlines(src.subrange(pos, n)),
    decreases src.len() - pos,
{
    if pos < src.len() {
        if src[pos] == '*' && pos + 1 < src.len() && src[pos + 1] == '/' {
            lemma_newlines_plain(src, pos, pos + 2);
            if depth > 1 {
                lemma_comment_lines(src, pos + 2, (depth - 1) as nat, line);
                if let Ok((n, l)) = comment_end(src, pos + 2, (depth - 1) as nat, line) {
                    lemma_newlines_split(src, pos, pos + 2, n);
                }
            } else {
            }
        } else if src[pos] == '/' && pos + 1 < src.len() && src[pos + 1] == '*' {
            lemma_newlines_plain(src, pos, pos + 2);
            lemma_comment_lines(src, pos + 2, depth + 1, line);
            if let Ok((n, l)) = comment_end(src, pos + 2, depth + 1, line) {
                lemma_newlines_split(src, pos, pos + 2, n);
            }
        } else {
            let l1 = if src[pos] == '\n' { line + 1 } else { line };
            lemma_comment_lines(src, pos + 1, depth, l1);
            if let Ok((n, l)) = comment_end(src, pos + 1, depth, l1) {
                lemma_newlines_split(src, pos, pos + 1, n);
                lemma_newlines_front(src, pos, pos + 1);
                assert(src.subrange(pos + 1, pos + 1) =~= Seq::<char>::empty());
            }
        }
    }
}

/// A lexeme that scans without error moves the line counter by the newlines
/// it consumes.
proof fn lemma_step_lines(src: Seq<char>, pos: int, line: int)
    requires
        0 <= pos < src.len(),
    ensures
        match step(src, pos, line) {
            Step::Skip { next, line: l } => l == line + newlines(src.subrange(pos, next)),
            Step::Emit { next, line: l, .. } => l == line + newlines(src.subrange(pos, next)),
            Step::Fail { .. } => true,
        },
{
    lemma_step_bounds(src, pos, line);
    let c = src[pos];
    lemma_newlines_front(src, pos, pos + 1);
    assert(src.subrange(pos + 1, pos + 1) =~= Seq::<char>::empty());
    if pos + 2 <= src.len() {
        lemma_newlines_front(src, pos + 1, pos + 2);
        assert(src.subrange(pos + 2, pos + 2) =~= Seq::<char>::empty());
        lemma_newlines_split(src, pos, pos + 1, pos + 2);
    }
    if c == '/' && pos + 1 < src.len() && src[pos + 1] == '/' {
        lemma_find_char(src, pos + 2, '\n');
        lemma_newlines_plain(src, pos, find_char(src, pos + 2, '\n'));
    } else if c == '/' && pos + 1 < src.len() && src[pos + 1] == '*' {
        lemma_comment_lines(src, pos + 2, 1, line);
        if let Ok((n, l)) = comment_end(src, pos + 2, 1, line) {
            lemma_newlines_split(src, pos, pos + 2, n);
        }
    } else if c == '"' {
        let close = find_char(src, pos + 1, '"');
        lemma_find_char(src, pos + 1, '"');
        if close < src.len() {
            lemma_newlines_split(src, pos, pos + 1, close + 1);
            lemma_newlines_split(src, pos + 1, close, close + 1);
            lemma_newlines_front(src, close, close + 1);
            assert(src.subrange(close + 1, close + 1) =~= Seq::<char>::empty());
        }
    } else if is_digit(c) {
        crate::lexical::lemma_digits_end(src, pos + 1);
        let e = digits_end(src, pos + 1);
        if e + 1 < src.len() && src[e] == '.' && is_digit(src[e + 1]) {
            crate::lexical::lemma_digits_end(src, e + 1);
        }
        lemma_newlines_plain(src, pos, number_end(src, pos));
    } else if crate::lexical::is_alpha(c) {
        crate::lexical::lemma_word_end(src, pos + 1);
        lemma_newlines_plain(src, pos, word_end(src, pos + 1));
    }
}

proof fn lemma_scan_lines(src: Seq<char>, pos: int, line: int)
    requires
        0 <= pos <= src.len(),
    ensures
        scan_from(src, pos, line) matches Ok(ts) ==> ts.len() >= 1 && ts.last().line == line
            + newlines(src.subrange(pos, src.len() as int)),
    decreases src.len() - pos,
{
    if pos == src.len() {
        assert(src.subrange(pos, pos) =~= Seq::<char>::empty());
    } else {
        lemma_step_bounds(src, pos, line);
        lemma_step_lines(src, pos, line);
        match step(src, pos, line) {
            Step::Skip { next, line: l } => {
                lemma_scan_lines(src, next, l);
                lemma_newlines_split(src, pos, next, src.len() as int);
            },
            Step::Emit { token, next, line: l } => {
                lemma_scan_lines(src, next, l);
                lemma_newlines_split(src, pos, next, src.len() as int);
                if let Ok(rest) = scan_from(src, next, l) {
                    assert((seq![token] + rest).last() == rest.last());
                }
            },
            Step::Fail { .. } => {},
        }
    }
}

/// A text that scans without error ends with the end-of-input marker on
/// line one plus its number of newlines.
pub proof fn law_end_line(src: Seq<char>)
    requires
        scan(src) is Ok,
    ensures
        scan(src)->Ok_0.len() >= 1,
        scan(src)->Ok_0.last() == eof_view(1 + newlines(src) as int),
{
    lemma_scan_lines(src, 0, 1);
    assert(src.subrange(0, src.len() as int) =~= src);
    lemma_scan_last(src, 0, 1);
}

proof fn lemma_scan_last(src: Seq<char>, pos: int, line: int)
    requires
        0 <= pos <= src.len(),
    ensures
        scan_from(src, pos, line) matches Ok(ts) ==> ts.len() >= 1 && ts.last().kind
            == crate::token_type::TokenType::Eof && ts.last().lexeme == Seq::<char>::empty()
            && ts.last().literal is None,
    decreases src.len() - pos,
{
    if pos < src.len() {
        lemma_step_bounds(src, pos, line);
        match step(src, pos, line) {
            Step::Skip { next, line: l } => {
                lemma_scan_last(src, next, l);
            },
            Step::Emit { token, next, line: l } => {
                lemma_scan_last(src, next, l);
                if let Ok(rest) = scan_from(src, next, l) {
                    assert((seq![token] + rest).last() == rest.last());
                }
            },
            Step::Fail { .. } => {},
        }
    }
}

/// Two units that each scan without error, the first empty or ending with a
/// newline: their concatenation scans to the first unit's tokens without
/// their end marker, then the second unit's tokens with every line moved
/// down by the newlines of the first.
pub proof fn law_concatenation_lines(a: Seq<char>, b: Seq<char>)
    requires
        a.len() == 0 || a.last() == '\n',
        scan(a) is Ok,
        scan(b) is Ok,
    ensures
        scan(a + b) is Ok,
        scan(a + b)->Ok_0 == scan(a)->Ok_0.drop_last() + shift_tokens(scan(b)->Ok_0, newlines(a) as int),
{
    law_concatenation(a, b);
    law_end_line(a);
}

/// `!`, `=`, `<` or `>` followed by `=` is one two-character operator token.
pub proof fn law_two_character_operator(src: Seq<char>, pos: int, line: int)
    requires
        0 <= pos,
        pos + 1 < src.len(),
        crate::lexical::short_kind(src[pos]) is Some,
        src[pos + 1] == '=',
    ensures
        step(src, pos, line) == (Step::Emit {
            token: TokenView {
                kind: crate::lexical::long_kind(src[pos]),
                lexeme: src.subrange(pos, pos + 2),
                literal: None,
                line,
            },
            next: pos + 2,
            line,
        }),
{
}

/// `//` skips up to the next newline, which is left for the following lexeme
/// so that it still counts; nothing is emitted and the line is unchanged.
pub proof fn law_line_comment(src: Seq<char>, pos: int, line: int)
    requires
        0 <= pos,
        pos + 1 < src.len(),
        src[pos] == '/',
        src[pos + 1] == '/',
    ensures
        step(src, pos, line) == (Step::Skip { next: find_char(src, pos + 2, '\n'), line }),
        find_char(src, pos + 2, '\n') == src.len() || src[find_char(src, pos + 2, '\n')] == '\n',
{
    lemma_find_char(src, pos + 2, '\n');
}

/// A word is read to its longest extent and only then looked up: the token
/// covers every letter, digit and underscore that follows, and its kind is a
/// keyword only when the whole word is one.
pub proof fn law_longest_word(src: Seq<char>, pos: int, line: int)
    requires
        0 <= pos < src.len(),
        crate::lexical::is_alpha(src[pos]),
    ensures
        ({
            let e = word_end(src, pos + 1);
            &&& pos < e <= src.len()
            &&& e < src.len() ==> !is_alpha_numeric(src[e])
            &&& step(src, pos, line) == (Step::Emit {
                token: TokenView {
                    kind: crate::lexical::keyword_of(src.subrange(pos, e)),
                    lexeme: src.subrange(pos, e),
                    literal: None,
                    line,
                },
                next: e,
                line,
            })
        }),
{
    crate::lexical::lemma_word_end(src, pos + 1);
    let e = word_end(src, pos + 1);
    if e < src.len() {
        lemma_word_stop(src, pos + 1);
    }
}

proof fn lemma_word_stop(src: Seq<char>, p: int)
    requires
        0 <= p <= src.len(),
        word_end(src, p) < src.len(),
    ensures
        !is_alpha_numeric(src[word_end(src, p)]),
    decreases src.len() - p,
{
    if p < src.len() && is_alpha_numeric(src[p]) {
        lemma_word_stop(src, p + 1);
    }
}

} // verus!
