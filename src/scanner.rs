use vstd::prelude::*;
use crate::error::{CfgError, ErrorKind, kind_message};
use crate::lexical::{scan, Step, step, scan_from, comment_end, digits_end, word_end, find_char, newlines, keyword_of, single_kind, short_kind, long_kind, is_digit, is_alpha, is_alpha_numeric, prepend, lemma_step_bounds, lemma_find_char};
use crate::token::{Object, Token, TokenView, tokens_view, eof_view, literal_view};
use crate::token_type::TokenType;
use crate::text::{char_vec, text_between};

verus! {

/// Single-pass tokenizer over one complete source text.
pub struct Scanner {
    source: Vec<char>,
    tokens: Vec<Token>,
    start: usize,
    current: usize,
    line: usize,
}

/// Mathematical model of a `Scanner`.
pub struct ScannerView {
    pub source: Seq<char>,
    pub tokens: Seq<TokenView>,
    pub start: int,
    pub current: int,
    pub line: int,
}

impl View for Scanner {
    type V = ScannerView;

    closed spec fn view(&self) -> ScannerView {
        ScannerView {
            source: self.source@,
            tokens: tokens_view(self.tokens@),
            start: self.start as int,
            current: self.current as int,
            line: self.line as int,
        }
    }
}

/// `new` is the scanner after `old` performed the lexeme `st`, with result `r`.
pub open spec fn follows(old: ScannerView, new: ScannerView, r: Result<(), CfgError>, st: Step) -> bool {
    match st {
        Step::Skip { next, line } => {
            &&& r is Ok
            &&& new.source == old.source
            &&& new.tokens == old.tokens
            &&& new.current == next
            &&& new.line == line
        },
        Step::Emit { token, next, line } => {
            &&& r is Ok
            &&& new.source == old.source
            &&& new.tokens == old.tokens.push(token)
            &&& new.current == next
            &&& new.line == line
        },
        Step::Fail { kind, line } => {
            &&& r is Err
            &&& r->Err_0.kind == kind
            &&& r->Err_0.line == line
            &&& r->Err_0.message@ == kind_message(kind)
            &&& new.source == old.source
            &&& new.tokens == old.tokens
            &&& new.line == line
            &&& kind != ErrorKind::UnexpectedCharacter ==> new.current == new.source.len()
        },
    }
}

/// Models of what a whole scan hands back.
pub open spec fn result_view(r: Result<Vec<Token>, CfgError>) -> Result<Seq<TokenView>, (ErrorKind, int)> {
    match r {
        Ok(v) => Ok(tokens_view(v@)),
        Err(e) => Err((e.kind, e.line as int)),
    }
}

fn single_char_kind(c: char) -> (r: Option<TokenType>)
    ensures
        r == single_kind(c),
{
    if c == '(' { Some(TokenType::LeftParen) }
    else if c == ')' { Some(TokenType::RightParen) }
    else if c == '{' { Some(TokenType::LeftBrace) }
    else if c == '}' { Some(TokenType::RightBrace) }
    else if c == ',' { Some(TokenType::Comma) }
    else if c == '.' { Some(TokenType::Dot) }
    else if c == '-' { Some(TokenType::Minus) }
    else if c == '+' { Some(TokenType::Plus) }
    else if c == '*' { Some(TokenType::Star) }
    else if c == ';' { Some(TokenType::SemiColon) }
    else { None }
}

fn operator_kind(c: char, with_equal: bool) -> (r: Option<TokenType>)
    ensures
        r == (if short_kind(c) is Some {
            Some(if with_equal { long_kind(c) } else { short_kind(c)->0 })
        } else {
            None
        }),
{
    if c == '!' {
        Some(if with_equal { TokenType::BangEqual } else { TokenType::Bang })
    } else if c == '=' {
        Some(if with_equal { TokenType::Equal } else { TokenType::Assign })
    } else if c == '<' {
        Some(if with_equal { TokenType::LessEqual } else { TokenType::Less })
    } else if c == '>' {
        Some(if with_equal { TokenType::GreaterEqual } else { TokenType::Greater })
    } else {
        None
    }
}

fn word_is(text: &str, w: &str) -> (r: bool)
    ensures
        r == (text@ == w@),
{
    let n = text.unicode_len();
    if n != w.unicode_len() {
        return false;
    }
    let mut i: usize = 0;
    while i < n
        invariant
            n == text@.len() == w@.len(),
            i <= n,
            forall|j: int| 0 <= j < i ==> text@[j] == w@[j],
        decreases n - i,
    {
        if text.get_char(i) != w.get_char(i) {
            return false;
        }
        i += 1;
    }
    assert(text@ =~= w@);
    true
}

impl Scanner {
    /// The scanner's internal invariant.
    pub closed spec fn wf(&self) -> bool {
        &&& self.source@.len() < usize::MAX
        &&& self.start <= self.current <= self.source@.len()
        &&& 1 <= self.line <= self.current + 1
    }

    /// What the internal invariant gives a caller about the model.
    pub proof fn lemma_wf(&self)
        requires
            self.wf(),
        ensures
            self@.source.len() < usize::MAX,
            0 <= self@.start <= self@.current <= self@.source.len(),
            1 <= self@.line <= self@.current + 1,
    {
    }

    pub fn new(source: String) -> (r: Scanner)
        requires
            source@.len() < usize::MAX,
        ensures
            r.wf(),
            r@.source == source@,
            r@.tokens == Seq::<TokenView>::empty(),
            r@.start == 0,
            r@.current == 0,
            r@.line == 1,
    {
        let chars = char_vec(source.as_str());
        let r = Scanner { source: chars, tokens: Vec::new(), start: 0, current: 0, line: 1 };
        assert(r@.tokens =~= Seq::<TokenView>::empty());
        r
    }

    pub fn is_at_end(&self) -> (r: bool)
        ensures
            r == (self@.current >= self@.source.len()),
    {
        self.current >= self.source.len()
    }

    fn peek(&self) -> (r: Option<char>)
        ensures
            r == (if self@.current < self@.source.len() {
                Some(self@.source[self@.current])
            } else {
                None
            }),
    {
        if self.current < self.source.len() {
            Some(self.source[self.current])
        } else {
            None
        }
    }

    fn peek_next(&self) -> (r: Option<char>)
        ensures
            r == (if self@.current + 1 < self@.source.len() {
                Some(self@.source[self@.current + 1])
            } else {
                None
            }),
    {
        if self.current < self.source.len() && self.current + 1 < self.source.len() {
            Some(self.source[self.current + 1])
        } else {
            None
        }
    }

    fn is_digit(ch: Option<char>) -> (r: bool)
        ensures
            r == (ch is Some && is_digit(ch->0)),
    {
        match ch {
            Some(c) => '0' <= c && c <= '9',
            None => false,
        }
    }

    fn is_alpha_numeric(ch: Option<char>) -> (r: bool)
        ensures
            r == (ch is Some && is_alpha_numeric(ch->0)),
    {
        match ch {
            Some(c) => ('a' <= c && c <= 'z') || ('A' <= c && c <= 'Z') || c == '_' || ('0' <= c && c
                <= '9'),
            None => false,
        }
    }

    fn advance(&mut self) -> (r: char)
        requires
            old(self).wf(),
            old(self)@.current < old(self)@.source.len(),
        ensures
            final(self).wf(),
            r == old(self)@.source[old(self)@.current],
            final(self)@ == (ScannerView { current: old(self)@.current + 1, ..old(self)@ }),
    {
        let r = self.source[self.current];
        self.current += 1;
        r
    }

    fn is_match(&mut self, expected: char) -> (r: bool)
        requires
            old(self).wf(),
        ensures
            final(self).wf(),
            r == (old(self)@.current < old(self)@.source.len()
                && old(self)@.source[old(self)@.current] == expected),
            final(self)@ == (ScannerView {
                current: old(self)@.current + if r { 1int } else { 0int },
                ..old(self)@
            }),
    {
        if self.current < self.source.len() && self.source[self.current] == expected {
            self.current += 1;
            true
        } else {
            false
        }
    }

    fn add_token_object(&mut self, ttype: TokenType, literal: Option<Object>)
        requires
            old(self).wf(),
        ensures
            final(self).wf(),
            final(self)@ == (ScannerView {
                tokens: old(self)@.tokens.push(
                    TokenView {
                        kind: ttype,
                        lexeme: old(self)@.source.subrange(old(self)@.start, old(self)@.current),
                        literal: literal_view(literal),
                        line: old(self)@.line,
                    },
                ),
                ..old(self)@
            }),
    {
        let lexname = text_between(&self.source, self.start, self.current);
        let tok = Token::new(ttype, lexname, literal, self.line);
        self.tokens.push(tok);
        assert(tokens_view(self.tokens@) =~= tokens_view(old(self).tokens@).push(tok@));
    }

    fn add_token(&mut self, ttype: TokenType)
        requires
            old(self).wf(),
        ensures
            final(self).wf(),
            final(self)@ == (ScannerView {
                tokens: old(self)@.tokens.push(
                    TokenView {
                        kind: ttype,
                        lexeme: old(self)@.source.subrange(old(self)@.start, old(self)@.current),
                        literal: None,
                        line: old(self)@.line,
                    },
                ),
                ..old(self)@
            }),
    {
        self.add_token_object(ttype, None)
    }

    /// Body of a block comment, after its opening `/*`; nested comments
    /// close at their own level.
    fn scan_comment(&mut self) -> (r: Result<(), CfgError>)
        requires
            old(self).wf(),
            old(self)@.current >= 1,
        ensures
            final(self).wf(),
            final(self)@.source == old(self)@.source,
            final(self)@.tokens == old(self)@.tokens,
            final(self)@.start == old(self)@.start,
            match comment_end(old(self)@.source, old(self)@.current, 1, old(self)@.line) {
                Ok((next, l)) => r is Ok && final(self)@.current == next && final(self)@.line == l,
                Err(l) => r is Err && r->Err_0.kind == ErrorKind::UnterminatedComment
                    && r->Err_0.line == l && r->Err_0.message@ == kind_message(
                    ErrorKind::UnterminatedComment,
                ) && final(self)@.line == l && final(self)@.current == final(self)@.source.len(),
            },
    {
        let ghost src = self@.source;
        let ghost goal = comment_end(src, self@.current, 1, self@.line);
        let mut depth: usize = 1;
        loop
            invariant
                self.wf(),
                src == old(self)@.source,
                goal == comment_end(old(self)@.source, old(self)@.current, 1, old(self)@.line),
                self@.source == src,
                self@.tokens == old(self)@.tokens,
                self@.start == old(self)@.start,
                1 <= depth <= self@.current,
                goal == comment_end(src, self@.current, depth as nat, self@.line),
            decreases src.len() - self@.current,
        {
            match self.peek() {
                Some('*') => {
                    self.advance();
                    if self.is_match('/') {
                        if depth == 1 {
                            return Ok(());
                        }
                        depth -= 1;
                    }
                },
                Some('/') => {
                    self.advance();
                    if self.is_match('*') {
                        depth += 1;
                    }
                },
                Some('\n') => {
                    self.advance();
                    self.line += 1;
                },
                None => {
                    return Err(
                        CfgError::error(
                            self.line,
                            ErrorKind::UnterminatedComment,
                            String::from_str("Unterminated comment."),
                        ),
                    );
                },
                _ => {
                    self.advance();
                },
            }
        }
    }

    /// A string literal, after its opening quote.
    fn string(&mut self) -> (r: Result<(), CfgError>)
        requires
            old(self).wf(),
            old(self)@.current == old(self)@.start + 1,
            old(self)@.source[old(self)@.start] == '"',
        ensures
            follows(old(self)@, final(self)@, r, step(old(self)@.source, old(self)@.start, old(self)@.line)),
            r is Ok ==> final(self).wf(),
    {
        let ghost src = self@.source;
        let ghost p1 = self@.current;
        let mut nl: usize = 0;
        proof {
            lemma_find_char(src, p1, '"');
            assert(src.subrange(p1, p1) =~= Seq::<char>::empty());
        }
        while self.current < self.source.len() && self.source[self.current] != '"'
            invariant
                self.wf(),
                src == old(self)@.source,
                p1 == old(self)@.current,
                self@.source == src,
                self@.tokens == old(self)@.tokens,
                self@.start == old(self)@.start,
                self@.line == old(self)@.line,
                p1 <= self@.current <= find_char(src, p1, '"'),
                find_char(src, p1, '"') == find_char(src, self@.current, '"'),
                nl == newlines(src.subrange(p1, self@.current)),
                nl <= self@.current - p1,
            decreases src.len() - self@.current,
        {
            proof {
                lemma_find_char(src, self@.current + 1, '"');
            }
            let ch = self.advance();
            if ch == '\n' {
                nl += 1;
            }
            assert(src.subrange(p1, self@.current).drop_last() =~= src.subrange(p1, self@.current - 1));
        }
        if self.is_at_end() {
            self.line += nl;
            return Err(
                CfgError::error(
                    self.line,
                    ErrorKind::UnterminatedString,
                    String::from_str("Unterminated string."),
                ),
            );
        }
        self.advance();
        let value = text_between(&self.source, self.start + 1, self.current - 1);
        self.add_token_object(TokenType::String, Some(Object::Str(value)));
        self.line += nl;
        Ok(())
    }

    /// A number literal, after its first digit.
    fn number(&mut self) -> (r: Result<(), CfgError>)
        requires
            old(self).wf(),
            old(self)@.current == old(self)@.start + 1,
            is_digit(old(self)@.source[old(self)@.start]),
        ensures
            follows(old(self)@, final(self)@, r, step(old(self)@.source, old(self)@.start, old(self)@.line)),
            final(self).wf(),
    {
        let ghost src = self@.source;
        let ghost e = digits_end(src, self@.current);
        while Scanner::is_digit(self.peek())
            invariant
                self.wf(),
                src == old(self)@.source,
                self@.source == src,
                self@.tokens == old(self)@.tokens,
                self@.start == old(self)@.start,
                self@.line == old(self)@.line,
                old(self)@.current <= self@.current,
                e == digits_end(src, self@.current),
            decreases src.len() - self@.current,
        {
            self.advance();
        }
        let dot = match self.peek() {
            Some(c) => c == '.',
            None => false,
        };
        if dot && Scanner::is_digit(self.peek_next()) {
            self.advance();
            let ghost e2 = digits_end(src, self@.current);
            while Scanner::is_digit(self.peek())
                invariant
                    self.wf(),
                    self@.source == src,
                    self@.tokens == old(self)@.tokens,
                    self@.start == old(self)@.start,
                    self@.line == old(self)@.line,
                    old(self)@.current <= self@.current,
                    e2 == digits_end(src, self@.current),
                decreases src.len() - self@.current,
            {
                self.advance();
            }
        }
        let value = text_between(&self.source, self.start, self.current);
        self.add_token_object(TokenType::Number, Some(Object::Num(value)));
        Ok(())
    }

    /// The keyword that `word` spells, if any.
    fn keyword(word: &str) -> (r: Option<TokenType>)
        ensures
            r == (if keyword_of(word@) == TokenType::Identifier {
                None
            } else {
                Some(keyword_of(word@))
            }),
    {
        if word_is(word, "and") { Some(TokenType::And) }
        else if word_is(word, "or") { Some(TokenType::Or) }
        else if word_is(word, "true") { Some(TokenType::True) }
        else if word_is(word, "false") { Some(TokenType::False) }
        else if word_is(word, "class") { Some(TokenType::Class) }
        else if word_is(word, "fun") { Some(TokenType::Fun) }
        else if word_is(word, "for") { Some(TokenType::For) }
        else if word_is(word, "var") { Some(TokenType::Var) }
        else if word_is(word, "nil") { Some(TokenType::Nil) }
        else if word_is(word, "if") { Some(TokenType::If) }
        else if word_is(word, "this") { Some(TokenType::This) }
        else if word_is(word, "else") { Some(TokenType::Else) }
        else if word_is(word, "while") { Some(TokenType::While) }
        else if word_is(word, "return") { Some(TokenType::Return) }
        else if word_is(word, "super") { Some(TokenType::Super) }
        else if word_is(word, "print") { Some(TokenType::Print) }
        else { None }
    }

    /// An identifier or keyword, after its first character.
    fn identifier(&mut self)
        requires
            old(self).wf(),
            old(self)@.current == old(self)@.start + 1,
            is_alpha(old(self)@.source[old(self)@.start]),
        ensures
            follows(old(self)@, final(self)@, Ok(()), step(old(self)@.source, old(self)@.start, old(self)@.line)),
            final(self).wf(),
    {
        let ghost src = self@.source;
        let ghost e = word_end(src, self@.current);
        while Scanner::is_alpha_numeric(self.peek())
            invariant
                self.wf(),
                src == old(self)@.source,
                self@.source == src,
                self@.tokens == old(self)@.tokens,
                self@.start == old(self)@.start,
                self@.line == old(self)@.line,
                old(self)@.current <= self@.current,
                e == word_end(src, self@.current),
            decreases src.len() - self@.current,
        {
            self.advance();
        }
        let text = text_between(&self.source, self.start, self.current);
        match Scanner::keyword(text.as_str()) {
            Some(ttype) => self.add_token(ttype),
            None => self.add_token(TokenType::Identifier),
        }
    }

    /// Scans the lexeme that starts at the current position.
    pub fn scan_token(&mut self) -> (r: Result<(), CfgError>)
        requires
            old(self).wf(),
            old(self)@.current < old(self)@.source.len(),
        ensures
            follows(
                old(self)@,
                final(self)@,
                r,
                step(old(self)@.source, old(self)@.current, old(self)@.line),
            ),
            r is Ok ==> final(self).wf(),
    {
        self.start = self.current;
        let c = self.advance();
        let ghost src = self@.source;
        let ghost pos = self@.start;
        if let Some(k) = single_char_kind(c) {
            self.add_token(k);
            return Ok(());
        }
        let two = match self.peek() {
            Some(n) => n == '=',
            None => false,
        };
        if let Some(k) = operator_kind(c, two) {
            if two {
                self.advance();
            }
            self.add_token(k);
            return Ok(());
        }
        if c == '/' {
            if self.is_match('/') {
                proof {
                    lemma_find_char(src, self@.current, '\n');
                }
                while self.current < self.source.len() && self.source[self.current] != '\n'
                    invariant
                        self.wf(),
                        self@.source == src,
                        src == old(self)@.source,
                        pos == old(self)@.current,
                        self@.tokens == old(self)@.tokens,
                        self@.line == old(self)@.line,
                        pos + 2 <= self@.current <= find_char(src, pos + 2, '\n'),
                        find_char(src, pos + 2, '\n') == find_char(src, self@.current, '\n'),
                    decreases src.len() - self@.current,
                {
                    proof {
                        lemma_find_char(src, self@.current + 1, '\n');
                    }
                    self.advance();
                }
                Ok(())
            } else if self.is_match('*') {
                self.scan_comment()
            } else {
                self.add_token(TokenType::Slash);
                Ok(())
            }
        } else if c == ' ' || c == '\r' || c == '\t' {
            Ok(())
        } else if c == '\n' {
            self.line += 1;
            Ok(())
        } else if c == '"' {
            self.string()
        } else if '0' <= c && c <= '9' {
            self.number()
        } else if ('a' <= c && c <= 'z') || ('A' <= c && c <= 'Z') || c == '_' {
            self.identifier();
            Ok(())
        } else {
            Err(
                CfgError::error(
                    self.line,
                    ErrorKind::UnexpectedCharacter,
                    String::from_str("Unexpected character"),
                ),
            )
        }
    }

    /// Scans the rest of the text: the tokens already gathered, then those of
    /// the text from the current position, then the end-of-input marker; or
    /// the first lexical error.
    pub fn scan_tokens(self) -> (r: Result<Vec<Token>, CfgError>)
        requires
            self.wf(),
        ensures
            result_view(r) == prepend(self@.tokens, scan_from(self@.source, self@.current, self@.line)),
            r is Err ==> r->Err_0.message@ == kind_message(r->Err_0.kind),
    {
        let mut this = self;
        let ghost goal = prepend(self@.tokens, scan_from(self@.source, self@.current, self@.line));
        while !this.is_at_end()
            invariant
                this.wf(),
                goal == prepend(self@.tokens, scan_from(self@.source, self@.current, self@.line)),
                goal == prepend(this@.tokens, scan_from(this@.source, this@.current, this@.line)),
            decreases this@.source.len() - this@.current,
        {
            let ghost before = this@;
            proof {
                lemma_step_bounds(before.source, before.current, before.line);
            }
            match this.scan_token() {
                Ok(()) => {
                    assert(goal == prepend(this@.tokens, scan_from(this@.source, this@.current, this@.line))) by {
                        match step(before.source, before.current, before.line) {
                            Step::Emit { token, .. } => {
                                assert(before.tokens.push(token) =~= before.tokens + seq![token]);
                                match scan_from(this@.source, this@.current, this@.line) {
                                    Ok(ts) => {
                                        assert(before.tokens + (seq![token] + ts) =~= (before.tokens + seq![token]) + ts);
                                    },
                                    Err(_) => {},
                                }
                            },
                            _ => {},
                        }
                    }
                },
                Err(e) => {
                    assert(scan_from(before.source, before.current, before.line) == Err::<Seq<TokenView>, (ErrorKind, int)>((e.kind, e.line as int)));
                    return Err(e);
                },
            }
        }
        let ghost pre = this@.tokens;
        let line = this.line;
        let mut tokens = this.tokens;
        tokens.push(Token::eof(line));
        assert(tokens_view(tokens@) =~= pre + seq![eof_view(line as int)]);
        Ok(tokens)
    }
}

/// Scans a complete source text from its first line.
pub fn scan_source(source: String) -> (r: Result<Vec<Token>, CfgError>)
    requires
        source@.len() < usize::MAX,
    ensures
        result_view(r) == scan(source@),
        r is Err ==> r->Err_0.message@ == kind_message(r->Err_0.kind),
{
    let scanner = Scanner::new(source);
    assert(Seq::<TokenView>::empty() + seq![eof_view(1)] =~= seq![eof_view(1)]);
    let r = scanner.scan_tokens();
    proof {
        match scan(source@) {
            Ok(ts) => {
                assert(Seq::<TokenView>::empty() + ts =~= ts);
            },
            Err(_) => {},
        }
    }
    r
}

} // verus!
