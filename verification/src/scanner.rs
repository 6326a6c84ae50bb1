//! The scanner: source text to tokens.
//!
//! A simple deterministic single-pass scanner.  Its promise to the
//! parser is the token-stream interface (`stream_wf`): a finite
//! sequence holding exactly one end-of-input token, at the end, every
//! token carrying its kind, lexeme, literal payload and a 1-based
//! source line, nondecreasing in stream order.  Numeric literals are unsigned digit
//! runs (the language's numbers are machine integers); identifiers are
//! ASCII letters then letters and digits; text it cannot use — an
//! unexpected character, an unterminated string, a numeric literal too
//! large for the number range — yields no token and is reported as a
//! diagnostic in `errors`.
use vstd::prelude::*;

use crate::display::push_char;
use crate::error::ParseError;
use crate::grammar::toks_wf;
use crate::token::Lit;
use crate::token::Token;
use crate::token::TokenType;

verus! {

/// The keyword table: which identifier spellings are reserved words.
pub open spec fn keyword_kind(s: Seq<char>) -> Option<TokenType> {
    if s == "and"@ {
        Some(TokenType::And)
    } else if s == "class"@ {
        Some(TokenType::Class)
    } else if s == "else"@ {
        Some(TokenType::Else)
    } else if s == "false"@ {
        Some(TokenType::False)
    } else if s == "for"@ {
        Some(TokenType::For)
    } else if s == "fun"@ {
        Some(TokenType::Fun)
    } else if s == "if"@ {
        Some(TokenType::If)
    } else if s == "nil"@ {
        Some(TokenType::Nil)
    } else if s == "or"@ {
        Some(TokenType::Or)
    } else if s == "print"@ {
        Some(TokenType::Print)
    } else if s == "return"@ {
        Some(TokenType::Return)
    } else if s == "super"@ {
        Some(TokenType::Super)
    } else if s == "this"@ {
        Some(TokenType::This)
    } else if s == "true"@ {
        Some(TokenType::True)
    } else if s == "var"@ {
        Some(TokenType::Var)
    } else if s == "while"@ {
        Some(TokenType::While)
    } else {
        None
    }
}

/// A complete keyword table: sixteen entries, every one a reserved
/// word with its kind, in dictionary order.
#[verifier::opaque]
pub open spec fn keytable_wf(ks: Seq<(String, TokenType)>) -> bool {
    &&& ks.len() == 16
    &&& (forall|m: int| 0 <= m < 16 ==> keyword_kind((#[trigger] ks[m]).0@) == Some(ks[m].1))
    &&& ks[0].0@ == "and"@ && ks[1].0@ == "class"@ && ks[2].0@ == "else"@ && ks[3].0@ == "false"@
    &&& ks[4].0@ == "for"@ && ks[5].0@ == "fun"@ && ks[6].0@ == "if"@ && ks[7].0@ == "nil"@
    &&& ks[8].0@ == "or"@ && ks[9].0@ == "print"@ && ks[10].0@ == "return"@ && ks[11].0@
        == "super"@
    &&& ks[12].0@ == "this"@ && ks[13].0@ == "true"@ && ks[14].0@ == "var"@ && ks[15].0@
        == "while"@
}

/// Builds the keyword table as an association list: every entry is a
/// reserved word with its kind, and all sixteen reserved words are
/// present, in dictionary order.
pub fn build_keyword_map() -> (r: Vec<(String, TokenType)>)
    ensures
        keytable_wf(r@),
{
    proof {
        broadcast use vstd::string::group_string_axioms;

        reveal_strlit("and");
        reveal_strlit("class");
        reveal_strlit("else");
        reveal_strlit("false");
        reveal_strlit("for");
        reveal_strlit("fun");
        reveal_strlit("if");
        reveal_strlit("nil");
        reveal_strlit("or");
        reveal_strlit("print");
        reveal_strlit("return");
        reveal_strlit("super");
        reveal_strlit("this");
        reveal_strlit("true");
        reveal_strlit("var");
        reveal_strlit("while");
    }
    let mut keywords: Vec<(String, TokenType)> = Vec::new();
    keywords.push(("and".to_owned(), TokenType::And));
    keywords.push(("class".to_owned(), TokenType::Class));
    keywords.push(("else".to_owned(), TokenType::Else));
    keywords.push(("false".to_owned(), TokenType::False));
    keywords.push(("for".to_owned(), TokenType::For));
    keywords.push(("fun".to_owned(), TokenType::Fun));
    keywords.push(("if".to_owned(), TokenType::If));
    keywords.push(("nil".to_owned(), TokenType::Nil));
    keywords.push(("or".to_owned(), TokenType::Or));
    keywords.push(("print".to_owned(), TokenType::Print));
    keywords.push(("return".to_owned(), TokenType::Return));
    keywords.push(("super".to_owned(), TokenType::Super));
    keywords.push(("this".to_owned(), TokenType::This));
    keywords.push(("true".to_owned(), TokenType::True));
    keywords.push(("var".to_owned(), TokenType::Var));
    keywords.push(("while".to_owned(), TokenType::While));
    proof {
        assert(("and"@).len() == 3 && ("and"@)[0] == 'a');
        assert(("class"@).len() == 5 && ("class"@)[0] == 'c');
        assert(("else"@).len() == 4 && ("else"@)[0] == 'e');
        assert(("false"@).len() == 5 && ("false"@)[0] == 'f');
        assert(("for"@).len() == 3 && ("for"@)[0] == 'f' && ("for"@)[1] == 'o');
        assert(("fun"@).len() == 3 && ("fun"@)[0] == 'f' && ("fun"@)[1] == 'u');
        assert(("if"@).len() == 2 && ("if"@)[0] == 'i');
        assert(("nil"@).len() == 3 && ("nil"@)[0] == 'n');
        assert(("or"@).len() == 2 && ("or"@)[0] == 'o');
        assert(("print"@).len() == 5 && ("print"@)[0] == 'p');
        assert(("return"@).len() == 6 && ("return"@)[0] == 'r');
        assert(("super"@).len() == 5 && ("super"@)[0] == 's');
        assert(("this"@).len() == 4 && ("this"@)[1] == 'h');
        assert(("true"@).len() == 4 && ("true"@)[1] == 'r');
        assert(("var"@).len() == 3 && ("var"@)[0] == 'v');
        assert(("while"@).len() == 5 && ("while"@)[0] == 'w');
        assert(keyword_kind("and"@) == Some(TokenType::And));
        assert(keyword_kind("class"@) == Some(TokenType::Class));
        assert(keyword_kind("else"@) == Some(TokenType::Else));
        assert(keyword_kind("false"@) == Some(TokenType::False));
        assert(keyword_kind("for"@) == Some(TokenType::For));
        assert(keyword_kind("fun"@) == Some(TokenType::Fun));
        assert(keyword_kind("if"@) == Some(TokenType::If));
        assert(keyword_kind("nil"@) == Some(TokenType::Nil));
        assert(keyword_kind("or"@) == Some(TokenType::Or));
        assert(keyword_kind("print"@) == Some(TokenType::Print));
        assert(keyword_kind("return"@) == Some(TokenType::Return));
        assert(keyword_kind("super"@) == Some(TokenType::Super));
        assert(keyword_kind("this"@) == Some(TokenType::This));
        assert(keyword_kind("true"@) == Some(TokenType::True));
        assert(keyword_kind("var"@) == Some(TokenType::Var));
        assert(keyword_kind("while"@) == Some(TokenType::While));
        reveal(keytable_wf);
    }
    keywords
}

/// Looks a spelling up in the keyword table.
#[verifier::loop_isolation(false)]
fn lookup_keyword(keywords: &Vec<(String, TokenType)>, text: &String) -> (r: Option<TokenType>)
    requires
        keytable_wf(keywords@),
    ensures
        r == keyword_kind(text@),
{
    proof {
        reveal(keytable_wf);
    }
    let mut m: usize = 0;
    while m < keywords.len()
        invariant
            keywords@.len() == 16,
            m <= 16,
            forall|q: int| 0 <= q < m ==> (#[trigger] keywords@[q].0@) != text@,
        decreases 16 - m,
    {
        let pair = &keywords[m];
        if pair.0.eq(text) {
            proof {
                assert(keyword_kind(keywords@[m as int].0@) == Some(keywords@[m as int].1));
            }
            return Some(pair.1);
        }
        m = m + 1;
    }
    None
}

/// The token-stream interface the parser may assume: nonempty, exactly
/// one end-of-input token and it comes last, and every token carries a
/// 1-based source line, nondecreasing in stream order.
pub open spec fn stream_wf(ts: Seq<Token>) -> bool {
    &&& toks_wf(ts)
    &&& forall|k: int| 0 <= k < ts.len() - 1 ==> (#[trigger] ts[k]).token_type != TokenType::Eof
    &&& forall|k: int| 0 <= k < ts.len() ==> 1 <= (#[trigger] ts[k]).line
    &&& forall|k: int| #![trigger ts[k], ts[k + 1]] 0 <= k < ts.len() - 1 ==> ts[k].line <= ts[k
        + 1].line
}

/// The tokens gathered so far: no end-of-input token yet, 1-based
/// nondecreasing lines, none past the current line.
#[verifier::opaque]
pub open spec fn tokens_in_progress(ts: Seq<Token>, line: int) -> bool {
    &&& forall|k: int| 0 <= k < ts.len() ==> (#[trigger] ts[k]).token_type != TokenType::Eof
    &&& forall|k: int| 0 <= k < ts.len() ==> 1 <= (#[trigger] ts[k]).line
    &&& forall|k: int| #![trigger ts[k], ts[k + 1]] 0 <= k < ts.len() - 1 ==> ts[k].line <= ts[k
        + 1].line
    &&& ts.len() > 0 ==> ts[ts.len() - 1].line <= line
}

/// The diagnostics gathered so far: each names a real, 1-based line.
#[verifier::opaque]
pub open spec fn errors_wf(es: Seq<ParseError>) -> bool {
    forall|k: int| 0 <= k < es.len() ==> 1 <= (#[trigger] es[k]).line
}

/// Relies on `str::chars` from std: the characters of a string slice, in
/// order.
#[verifier::external_body]
fn str_chars_vec(s: &str) -> (v: Vec<char>)
    ensures
        v@ == s@,
{
    s.chars().collect()
}

/// The scanner's cursor state: the source as characters, the tokens so
/// far, the start of the lexeme being scanned, the cursor, and the
/// current line.
#[derive(Debug)]
pub struct Scanner {
    pub source: Vec<char>,
    pub tokens: Vec<Token>,
    pub errors: Vec<ParseError>,
    pub start: usize,
    pub current: usize,
    pub line: usize,
    pub keywords: Vec<(String, TokenType)>,
}

impl Scanner {
    /// The cursor stays within the source; the line counter cannot
    /// overflow because it only grows on newline characters; the
    /// keyword table is the full one.
    pub open spec fn wf(&self) -> bool {
        &&& self.start <= self.current <= self.source@.len()
        &&& 1 <= self.line <= self.current + 1
        &&& tokens_in_progress(self.tokens@, self.line as int)
        &&& errors_wf(self.errors@)
        &&& keytable_wf(self.keywords@)
    }

    /// A scanner over the given source text, at its start.
    pub fn new(source: &str) -> (s: Self)
        ensures
            s.wf(),
            s.tokens@.len() == 0,
    {
        let sc = Scanner {
            source: str_chars_vec(source),
            tokens: Vec::new(),
            errors: Vec::new(),
            start: 0,
            current: 0,
            line: 1,
            keywords: build_keyword_map(),
        };
        proof {
            reveal(tokens_in_progress);
            reveal(errors_wf);
            assert(tokens_in_progress(sc.tokens@, sc.line as int));
            assert(errors_wf(sc.errors@));
        }
        sc
    }

    /// Scans the whole source and returns the token sequence, always
    /// terminated by a single end-of-input token carrying the final
    /// line.
    pub fn scan_tokens(self) -> (r: (Vec<Token>, Vec<ParseError>))
        requires
            self.wf(),
        ensures
            stream_wf(r.0@),
            errors_wf(r.1@),
    {
        let mut sc = self;
        while sc.current < sc.source.len()
            invariant
                sc.wf(),
            decreases sc.source@.len() - sc.current,
        {
            sc.start = sc.current;
            sc.scan_token();
        }
        seal_tokens(sc)
    }

    /// Whether the cursor has passed the last character.
    fn is_at_end(&self) -> (r: bool)
        ensures
            r == (self.current >= self.source@.len()),
    {
        self.current >= self.source.len()
    }

    /// The character under the cursor, or the NUL character at the end.
    fn peek(&self) -> (c: char)
        requires
            self.current <= self.source@.len(),
        ensures
            c == (if self.current < self.source@.len() {
                self.source@[self.current as int]
            } else {
                '\0'
            }),
    {
        if self.is_at_end() {
            '\0'
        } else {
            self.source[self.current]
        }
    }

    /// The character after the cursor, or the NUL character at the end.
    fn peek_next(&self) -> (c: char)
        requires
            self.current <= self.source@.len(),
        ensures
            c == (if self.current + 1 < self.source@.len() {
                self.source@[self.current + 1]
            } else {
                '\0'
            }),
    {
        let n = self.source.len();
        if self.current >= n {
            '\0'
        } else if self.current + 1 >= n {
            '\0'
        } else {
            self.source[self.current + 1]
        }
    }

    /// Consumes and returns the character under the cursor.
    #[verifier::rlimit(100)]
    fn advance(&mut self) -> (c: char)
        requires
            old(self).wf(),
            old(self).current < old(self).source@.len(),
        ensures
            final(self).wf(),
            c == old(self).source@[old(self).current as int],
            final(self).current == old(self).current + 1,
            final(self).source == old(self).source,
            final(self).tokens == old(self).tokens,
            final(self).start == old(self).start,
            final(self).line == old(self).line,
            final(self).keywords == old(self).keywords,
    {
        let n = self.source.len();
        let c = self.source[self.current];
        proof {
            assert(self.current < n);
        }
        self.current = self.current + 1;
        c
    }

    /// Consumes the character under the cursor when it is `expected`.
    #[verifier::rlimit(100)]
    fn match_char(&mut self, expected: char) -> (r: bool)
        requires
            old(self).wf(),
        ensures
            final(self).wf(),
            old(self).current <= final(self).current <= old(self).current + 1,
            final(self).source == old(self).source,
            final(self).tokens == old(self).tokens,
            final(self).start == old(self).start,
            final(self).line == old(self).line,
            final(self).keywords == old(self).keywords,
    {
        let n = self.source.len();
        if self.current >= n {
            false
        } else if self.source[self.current] != expected {
            false
        } else {
            self.current = self.current + 1;
            true
        }
    }

    /// The text of the lexeme spanning `a..b`.
    fn lexeme_text(&self, a: usize, b: usize) -> (s: String)
        requires
            a <= b <= self.source@.len(),
        ensures
            s@ == self.source@.subrange(a as int, b as int),
    {
        let mut s = String::new();
        let mut m = a;
        while m < b
            invariant
                a <= m <= b <= self.source@.len(),
                s@ == self.source@.subrange(a as int, m as int),
            decreases b - m,
        {
            push_char(&mut s, self.source[m]);
            m = m + 1;
            proof {
                assert(s@ =~= self.source@.subrange(a as int, m as int));
            }
        }
        s
    }

    /// Appends a token without a literal payload.
    #[verifier::rlimit(100)]
    fn add_token(&mut self, token_type: TokenType)
        requires
            old(self).wf(),
            token_type != TokenType::Eof,
        ensures
            final(self).wf(),
            final(self).current == old(self).current,
            final(self).source == old(self).source,
            final(self).start == old(self).start,
            final(self).line == old(self).line,
            final(self).keywords == old(self).keywords,
    {
        self.add_token_with_value(token_type, Lit::Nil);
    }

    /// Appends a token whose lexeme spans the current scan window,
    /// carrying the given literal payload.
    #[verifier::rlimit(100)]
    #[verifier::spinoff_prover]
    fn add_token_with_value(&mut self, token_type: TokenType, value: Lit)
        requires
            old(self).wf(),
            token_type != TokenType::Eof,
        ensures
            final(self).wf(),
            final(self).current == old(self).current,
            final(self).source == old(self).source,
            final(self).start == old(self).start,
            final(self).line == old(self).line,
            final(self).keywords == old(self).keywords,
    {
        let text = if self.start <= self.current {
            self.lexeme_text(self.start, self.current)
        } else {
            String::new()
        };
        let line = self.line;
        let ghost before = self.tokens@;
        self.tokens.push(Token { token_type, lexeme: text, literal: value, line });
        proof {
            reveal(tokens_in_progress);
            assert forall|k: int|
                0 <= k < self.tokens@.len() implies (#[trigger] self.tokens@[k]).token_type
                != TokenType::Eof && 1 <= self.tokens@[k].line by {
                if k < self.tokens@.len() - 1 {
                    assert(self.tokens@[k] == before[k]);
                }
            }
            assert forall|k: int|
                0 <= k < self.tokens@.len() - 1 implies (#[trigger] self.tokens@[k]).line
                <= self.tokens@[k + 1].line by {
                assert(self.tokens@[k] == before[k]);
                if k < self.tokens@.len() - 2 {
                    assert(self.tokens@[k + 1] == before[k + 1]);
                }
            }
        }
    }

    /// Records a scan diagnostic at the current line.
    fn note_error(&mut self, message: &str)
        requires
            old(self).wf(),
        ensures
            final(self).wf(),
            final(self).current == old(self).current,
            final(self).source == old(self).source,
            final(self).start == old(self).start,
            final(self).line == old(self).line,
            final(self).tokens == old(self).tokens,
            final(self).keywords == old(self).keywords,
    {
        let line = self.line;
        let ghost before = self.errors@;
        self.errors.push(ParseError { line, message: message.to_owned() });
        proof {
            reveal(errors_wf);
            assert forall|k: int| 0 <= k < self.errors@.len() implies 1 <= (
            #[trigger] self.errors@[k]).line by {
                if k < self.errors@.len() - 1 {
                    assert(self.errors@[k] == before[k]);
                }
            }
        }
    }

    /// Scans one lexeme: consumes at least one character and appends at
    /// most one token; whitespace, comments and unusable text produce
    /// none.
    #[verifier::rlimit(100)]
    fn scan_token(&mut self)
        requires
            old(self).wf(),
            old(self).current < old(self).source@.len(),
        ensures
            final(self).wf(),
            old(self).current < final(self).current,
            final(self).source == old(self).source,
    {
        let c = self.advance();
        if c == '(' {
            self.add_token(TokenType::LeftParen);
        } else if c == ')' {
            self.add_token(TokenType::RightParen);
        } else if c == '{' {
            self.add_token(TokenType::LeftBrace);
        } else if c == '}' {
            self.add_token(TokenType::RightBrace);
        } else if c == ',' {
            self.add_token(TokenType::Comma);
        } else if c == '.' {
            self.add_token(TokenType::Dot);
        } else if c == '-' {
            self.add_token(TokenType::Minus);
        } else if c == '+' {
            self.add_token(TokenType::Plus);
        } else if c == ';' {
            self.add_token(TokenType::Semicolon);
        } else if c == '*' {
            self.add_token(TokenType::Star);
        } else if c == '!' {
            let matched = self.match_char('=');
            self.add_token(
                if matched {
                    TokenType::BangEqual
                } else {
                    TokenType::Bang
                },
            );
        } else if c == '=' {
            let matched = self.match_char('=');
            self.add_token(
                if matched {
                    TokenType::EqualEqual
                } else {
                    TokenType::Equal
                },
            );
        } else if c == '<' {
            let matched = self.match_char('=');
            self.add_token(
                if matched {
                    TokenType::LessEqual
                } else {
                    TokenType::Less
                },
            );
        } else if c == '>' {
            let matched = self.match_char('=');
            self.add_token(
                if matched {
                    TokenType::GreaterEqual
                } else {
                    TokenType::Greater
                },
            );
        } else if c == '/' {
            if self.match_char('/') {
                loop
                    invariant
                        self.wf(),
                        old(self).current < self.current,
                        self.source == old(self).source,
                    decreases self.source@.len() - self.current,
                {
                    if self.is_at_end() {
                        break ;
                    }
                    if self.peek() == '\n' {
                        break ;
                    }
                    let _ = self.advance();
                }
            } else {
                self.add_token(TokenType::Slash);
            }
        } else if c == ' ' || c == '\r' || c == '\t' {
        } else if c == '\n' {
            if self.line < usize::MAX {
                proof {
                    reveal(tokens_in_progress);
                }
                self.line = self.line + 1;
            }
        } else if c == '"' {
            self.string();
        } else if is_digit(c) {
            self.number();
        } else if is_alpha(c) {
            self.identifier();
        } else {
            self.note_error("Unexpected character.");
        }
    }

    /// A string literal: everything up to the closing quote, which may
    /// span lines; an unterminated string produces no token.
    #[verifier::rlimit(100)]
    fn string(&mut self)
        requires
            old(self).wf(),
            old(self).start < old(self).current,
        ensures
            final(self).wf(),
            old(self).current <= final(self).current,
            final(self).source == old(self).source,
    {
        loop
            invariant
                self.wf(),
                old(self).current <= self.current,
                old(self).start == self.start,
                self.start < self.current,
                self.source == old(self).source,
            decreases self.source@.len() - self.current,
        {
            if self.is_at_end() {
                break ;
            }
            if self.peek() == '"' {
                break ;
            }
            let ch = self.advance();
            if ch == '\n' {
                if self.line < usize::MAX {
                    proof {
                        reveal(tokens_in_progress);
                    }
                    self.line = self.line + 1;
                }
            }
        }
        if self.is_at_end() {
            self.note_error("Unterminated string.");
            return ;
        }
        let n = self.source.len();
        proof {
            assert(self.start < self.current <= n);
        }
        let _ = self.advance();
        let value = self.lexeme_text(self.start + 1, self.current - 1);
        self.add_token_with_value(TokenType::Str, Lit::Str(value));
    }

    /// A numeric literal: a run of digits; a value outside the number
    /// range produces no token.
    #[verifier::rlimit(100)]
    fn number(&mut self)
        requires
            old(self).wf(),
            old(self).start < old(self).current,
        ensures
            final(self).wf(),
            old(self).current <= final(self).current,
            final(self).source == old(self).source,
    {
        proof {
            assert(self.current >= 1);
        }
        let first = self.source[self.current - 1];
        if !is_digit(first) {
            return ;
        }
        let mut value: i64 = digit_value(first);
        let mut overflowed = false;
        loop
            invariant
                self.wf(),
                old(self).current <= self.current,
                old(self).start == self.start,
                self.source == old(self).source,
                0 <= value,
            decreases self.source@.len() - self.current,
        {
            let c = self.peek();
            if !is_digit(c) {
                break ;
            }
            let d = digit_value(c);
            if value > (0x7fff_ffff_ffff_ffffi64 - d) / 10 {
                overflowed = true;
            } else {
                value = value * 10 + d;
            }
            let _ = self.advance();
        }
        if !overflowed {
            self.add_token_with_value(TokenType::Num, Lit::Num(value));
        } else {
            self.note_error("Number literal too large.");
        }
    }

    /// An identifier or reserved word: letters then letters and digits.
    #[verifier::rlimit(100)]
    fn identifier(&mut self)
        requires
            old(self).wf(),
            old(self).start < old(self).current,
        ensures
            final(self).wf(),
            old(self).current <= final(self).current,
            final(self).source == old(self).source,
    {
        loop
            invariant
                self.wf(),
                old(self).current <= self.current,
                old(self).start == self.start,
                self.source == old(self).source,
            decreases self.source@.len() - self.current,
        {
            let c = self.peek();
            if !(is_alpha(c) || is_digit(c)) {
                break ;
            }
            let _ = self.advance();
        }
        let text = self.lexeme_text(self.start, self.current);
        match lookup_keyword(&self.keywords, &text) {
            Some(kind) => {
                self.add_token(kind);
            },
            None => {
                self.add_token(TokenType::Identifier);
            },
        }
    }
}

/// Appending the single end-of-input token to gathered tokens makes a
/// well-formed stream.
#[verifier::rlimit(100)]
#[verifier::spinoff_prover]
proof fn lemma_seal(ts: Seq<Token>, t: Token, line: int)
    requires
        tokens_in_progress(ts, line),
        t.token_type == TokenType::Eof,
        t.line == line,
        1 <= line,
    ensures
        stream_wf(ts.push(t)),
{
    reveal(tokens_in_progress);
    let whole = ts.push(t);
    assert forall|k: int| 0 <= k < whole.len() - 1 implies (#[trigger] whole[k]).token_type
        != TokenType::Eof by {
        assert(whole[k] == ts[k]);
    }
    assert forall|k: int| 0 <= k < whole.len() implies 1 <= (#[trigger] whole[k]).line by {
        if k < whole.len() - 1 {
            assert(whole[k] == ts[k]);
        }
    }
    assert forall|k: int| #![trigger whole[k], whole[k + 1]] 0 <= k < whole.len() - 1 implies whole[k].line
        <= whole[k + 1].line by {
        assert(whole[k] == ts[k]);
        if k < whole.len() - 2 {
            assert(whole[k + 1] == ts[k + 1]);
            assert(ts[k].line <= ts[k + 1].line);
        } else {
            assert(ts[ts.len() - 1].line <= line);
        }
    }
}

/// Ends a finished scan: appends the single end-of-input token, which
/// makes the gathered tokens a well-formed stream.
fn seal_tokens(sc: Scanner) -> (r: (Vec<Token>, Vec<ParseError>))
    requires
        sc.wf(),
    ensures
        stream_wf(r.0@),
        errors_wf(r.1@),
{
    let mut sc = sc;
    let line = sc.line;
    let ghost before = sc.tokens@;
    let eof_token = Token {
        token_type: TokenType::Eof,
        lexeme: "".to_owned(),
        literal: Lit::Nil,
        line,
    };
    let ghost gt = eof_token;
    sc.tokens.push(eof_token);
    proof {
        lemma_seal(before, gt, sc.line as int);
        assert(sc.tokens@ == before.push(gt));
    }
    (sc.tokens, sc.errors)
}

/// Whether a character is a decimal digit.
fn is_digit(c: char) -> (r: bool)
    ensures
        r == (48 <= c as u32 && c as u32 <= 57),
{
    let u = c as u32;
    48 <= u && u <= 57
}

/// Whether a character is an ASCII letter.
fn is_alpha(c: char) -> (r: bool)
    ensures
        r == ((65 <= c as u32 && c as u32 <= 90) || (97 <= c as u32 && c as u32 <= 122)),
{
    let u = c as u32;
    (65 <= u && u <= 90) || (97 <= u && u <= 122)
}

/// The numeric value of a digit character.
fn digit_value(c: char) -> (d: i64)
    requires
        48 <= c as u32 <= 57,
    ensures
        d == c as u32 - 48,
        0 <= d <= 9,
{
    (c as u32 - 48) as i64
}

} // verus!
