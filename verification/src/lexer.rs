use vstd::prelude::*;

use crate::parser::{dec_text, ParseError};

verus! {

/// One token of source text. Float literals keep their text: the library
/// never computes on floats, and the text is what the parser and printer
/// care about.
#[derive(Debug, PartialEq)]
pub enum Token {
    Integer(i64),
    Float(String),
    Bool(bool),
    Ident(String),
    Let,
    Eq,
    Semi,
    Plus,
    Minus,
    Star,
    Slash,
    OpenBrace,
    CloseBrace,
}

/// The mathematical shape of a token: texts become character sequences.
pub enum TokenV {
    Integer(i64),
    Float(Seq<char>),
    Bool(bool),
    Ident(Seq<char>),
    Let,
    Eq,
    Semi,
    Plus,
    Minus,
    Star,
    Slash,
    OpenBrace,
    CloseBrace,
}

impl View for Token {
    type V = TokenV;

    open spec fn view(&self) -> TokenV {
        match self {
            Token::Integer(v) => TokenV::Integer(*v),
            Token::Float(t) => TokenV::Float(t@),
            Token::Bool(b) => TokenV::Bool(*b),
            Token::Ident(s) => TokenV::Ident(s@),
            Token::Let => TokenV::Let,
            Token::Eq => TokenV::Eq,
            Token::Semi => TokenV::Semi,
            Token::Plus => TokenV::Plus,
            Token::Minus => TokenV::Minus,
            Token::Star => TokenV::Star,
            Token::Slash => TokenV::Slash,
            Token::OpenBrace => TokenV::OpenBrace,
            Token::CloseBrace => TokenV::CloseBrace,
        }
    }
}

/// The text a token prints as (integers in decimal, everything else as
/// written).
pub open spec fn token_text(t: TokenV) -> Seq<char> {
    match t {
        TokenV::Integer(v) => dec_text(v as int),
        TokenV::Float(s) => s,
        TokenV::Bool(b) => if b {
            "true"@
        } else {
            "false"@
        },
        TokenV::Ident(s) => s,
        TokenV::Let => "let"@,
        TokenV::Eq => "="@,
        TokenV::Semi => ";"@,
        TokenV::Plus => "+"@,
        TokenV::Minus => "-"@,
        TokenV::Star => "*"@,
        TokenV::Slash => "/"@,
        TokenV::OpenBrace => "{"@,
        TokenV::CloseBrace => "}"@,
    }
}

impl Token {
    /// An owned copy, equal to the token it was taken from (text payloads
    /// are strings, whose copies are equal values).
    pub fn dup(&self) -> (r: Token)
        ensures
            r == *self,
    {
        match self {
            Token::Integer(v) => Token::Integer(*v),
            Token::Float(t) => Token::Float(t.clone()),
            Token::Bool(b) => Token::Bool(*b),
            Token::Ident(s) => Token::Ident(s.clone()),
            Token::Let => Token::Let,
            Token::Eq => Token::Eq,
            Token::Semi => Token::Semi,
            Token::Plus => Token::Plus,
            Token::Minus => Token::Minus,
            Token::Star => Token::Star,
            Token::Slash => Token::Slash,
            Token::OpenBrace => Token::OpenBrace,
            Token::CloseBrace => Token::CloseBrace,
        }
    }

    /// Whether two tokens have the same mathematical value (variant and
    /// payload).
    pub fn same_as(&self, other: &Token) -> (r: bool)
        ensures
            r == (self@ == other@),
    {
        match (self, other) {
            (Token::Integer(a), Token::Integer(b)) => *a == *b,
            (Token::Float(a), Token::Float(b)) => *a == *b,
            (Token::Bool(a), Token::Bool(b)) => *a == *b,
            (Token::Ident(a), Token::Ident(b)) => *a == *b,
            (Token::Let, Token::Let) => true,
            (Token::Eq, Token::Eq) => true,
            (Token::Semi, Token::Semi) => true,
            (Token::Plus, Token::Plus) => true,
            (Token::Minus, Token::Minus) => true,
            (Token::Star, Token::Star) => true,
            (Token::Slash, Token::Slash) => true,
            (Token::OpenBrace, Token::OpenBrace) => true,
            (Token::CloseBrace, Token::CloseBrace) => true,
            _ => false,
        }
    }

    /// The token's text, for error messages.
    pub fn to_text(&self) -> (r: String)
        ensures
            r@ == token_text(self@),
    {
        match self {
            Token::Integer(v) => crate::parser::i64_text(*v),
            Token::Float(t) => t.clone(),
            Token::Bool(b) => if *b {
                String::from_str("true")
            } else {
                String::from_str("false")
            },
            Token::Ident(s) => s.clone(),
            Token::Let => String::from_str("let"),
            Token::Eq => String::from_str("="),
            Token::Semi => String::from_str(";"),
            Token::Plus => String::from_str("+"),
            Token::Minus => String::from_str("-"),
            Token::Star => String::from_str("*"),
            Token::Slash => String::from_str("/"),
            Token::OpenBrace => String::from_str("{"),
            Token::CloseBrace => String::from_str("}"),
        }
    }
}

/// Whether `c` is whitespace the lexer discards.
pub open spec fn is_space_char(c: char) -> bool {
    c == ' ' || c == '\t' || c == '\n' || c == '\r'
}

/// Whether `c` is a decimal digit.
pub open spec fn is_digit_char(c: char) -> bool {
    '0' <= c && c <= '9'
}

/// Whether `c` can start an identifier or keyword.
pub open spec fn is_ident_start_char(c: char) -> bool {
    'a' <= c && c <= 'z' || 'A' <= c && c <= 'Z' || c == '_'
}

/// Whether `c` can continue an identifier or keyword.
pub open spec fn is_ident_continue_char(c: char) -> bool {
    is_ident_start_char(c) || is_digit_char(c)
}

/// The first position at or after `j` that does not hold a decimal digit.
pub open spec fn digits_end(s: Seq<char>, j: int) -> int
    decreases s.len() - j,
{
    if 0 <= j < s.len() && is_digit_char(s[j]) {
        digits_end(s, j + 1)
    } else {
        j
    }
}

/// The first position at or after `j` that cannot continue an identifier.
pub open spec fn ident_end(s: Seq<char>, j: int) -> int
    decreases s.len() - j,
{
    if 0 <= j < s.len() && is_ident_continue_char(s[j]) {
        ident_end(s, j + 1)
    } else {
        j
    }
}

/// The numeric value of one digit character.
pub open spec fn digit_val(c: char) -> int {
    (c as u32 - '0' as u32) as int
}

/// The value of the digit run `s[start..end]`, read in decimal.
pub open spec fn digits_val(s: Seq<char>, start: int, end: int) -> int
    decreases end - start,
{
    if end <= start {
        0
    } else {
        digits_val(s, start, end - 1) * 10 + digit_val(s[end - 1])
    }
}

/// Prepend a token to a tokenization that may have failed.
pub open spec fn lex_cons(t: TokenV, rest: Option<Seq<TokenV>>) -> Option<Seq<TokenV>> {
    match rest {
        Some(r) => Some(seq![t] + r),
        None => None,
    }
}

/// What lexing the source from position `i` yields: the token shapes of the
/// rest of the text, or nothing when a character no token starts with is
/// reached or an integer literal does not fit. This is the tokenization as a
/// function of the text; `lex` returns exactly what it says.
pub open spec fn spec_lex(s: Seq<char>, i: int) -> Option<Seq<TokenV>>
    decreases s.len() - i,
{
    if i < 0 || i >= s.len() {
        Some(Seq::empty())
    } else if is_space_char(s[i]) {
        spec_lex(s, i + 1)
    } else if s[i] == ';' {
        lex_cons(TokenV::Semi, spec_lex(s, i + 1))
    } else if s[i] == '=' {
        lex_cons(TokenV::Eq, spec_lex(s, i + 1))
    } else if s[i] == '+' {
        lex_cons(TokenV::Plus, spec_lex(s, i + 1))
    } else if s[i] == '-' {
        lex_cons(TokenV::Minus, spec_lex(s, i + 1))
    } else if s[i] == '*' {
        lex_cons(TokenV::Star, spec_lex(s, i + 1))
    } else if s[i] == '/' {
        lex_cons(TokenV::Slash, spec_lex(s, i + 1))
    } else if s[i] == '{' {
        lex_cons(TokenV::OpenBrace, spec_lex(s, i + 1))
    } else if s[i] == '}' {
        lex_cons(TokenV::CloseBrace, spec_lex(s, i + 1))
    } else if is_digit_char(s[i]) {
        let d1 = digits_end(s, i);
        if d1 <= i || d1 > s.len() {
            None
        } else if d1 < s.len() && s[d1] == '.' && d1 + 1 < s.len() && is_digit_char(s[d1 + 1]) {
            let d2 = digits_end(s, d1 + 1);
            if d2 <= i || d2 > s.len() {
                None
            } else {
                lex_cons(TokenV::Float(s.subrange(i, d2)), spec_lex(s, d2))
            }
        } else {
            let v = digits_val(s, i, d1);
            if v > i64::MAX {
                None
            } else {
                lex_cons(TokenV::Integer(v as i64), spec_lex(s, d1))
            }
        }
    } else if is_ident_start_char(s[i]) {
        let e = ident_end(s, i);
        if e <= i || e > s.len() {
            None
        } else {
            let w = s.subrange(i, e);
            let t = if w == "let"@ {
                TokenV::Let
            } else if w == "true"@ {
                TokenV::Bool(true)
            } else if w == "false"@ {
                TokenV::Bool(false)
            } else {
                TokenV::Ident(w)
            };
            lex_cons(t, spec_lex(s, e))
        }
    } else {
        None
    }
}

/// The views of a token list.
pub open spec fn token_views(toks: Seq<Token>) -> Seq<TokenV> {
    toks.map_values(|t: Token| t@)
}

/// The value of a run of digits is non-negative.
proof fn lemma_digits_val_nonneg(s: Seq<char>, start: int, end: int)
    requires
        forall|k: int| start <= k < end ==> is_digit_char(#[trigger] s[k]),
    ensures
        digits_val(s, start, end) >= 0,
    decreases end - start,
{
    if end > start {
        lemma_digits_val_nonneg(s, start, end - 1);
    }
}

/// Appending one token on the right commutes with taking views.
proof fn lemma_token_views_push(toks: Seq<Token>, t: Token)
    ensures
        token_views(toks.push(t)) =~= token_views(toks).push(t@),
{
}

/// One lexing step: when the tokenization at `i` is `t` followed by the
/// tokenization at `next`, accumulating `t` keeps the whole tokenization.
proof fn lemma_lex_step(s: Seq<char>, i: int, toks_old: Seq<Token>, t: Token, next: int)
    requires
        spec_lex(s, i) == lex_cons(t@, spec_lex(s, next)),
        (match spec_lex(s, i) {
            Some(rest) => spec_lex(s, 0) == Some(token_views(toks_old) + rest),
            None => spec_lex(s, 0) is None,
        }),
    ensures
        (match spec_lex(s, next) {
            Some(rest) => spec_lex(s, 0) == Some(token_views(toks_old.push(t)) + rest),
            None => spec_lex(s, 0) is None,
        }),
{
    lemma_token_views_push(toks_old, t);
    match spec_lex(s, next) {
        Some(r2) => {
            assert(token_views(toks_old) + (seq![t@] + r2) =~= token_views(toks_old).push(t@)
                + r2);
        },
        None => {},
    }
}

/// Whether `c` is a decimal digit.
fn is_digit(c: char) -> (r: bool)
    ensures
        r == ('0' <= c && c <= '9'),
{
    '0' <= c && c <= '9'
}

/// Whether `c` can start an identifier or keyword.
fn is_ident_start(c: char) -> (r: bool)
    ensures
        r == ('a' <= c && c <= 'z' || 'A' <= c && c <= 'Z' || c == '_'),
{
    'a' <= c && c <= 'z' || 'A' <= c && c <= 'Z' || c == '_'
}

/// Whether `c` can continue an identifier or keyword.
fn is_ident_continue(c: char) -> (r: bool)
    ensures
        r == ('a' <= c && c <= 'z' || 'A' <= c && c <= 'Z' || c == '_' || '0' <= c && c <= '9'),
{
    'a' <= c && c <= 'z' || 'A' <= c && c <= 'Z' || c == '_' || '0' <= c && c <= '9'
}

/// Split source text into tokens: integer and float literals, `true` and
/// `false`, identifiers, `let`, and the punctuation the grammar knows.
/// Whitespace separates tokens and is discarded; any other character is a
/// lexing error.
#[verifier::loop_isolation(false)]
pub fn lex(src: &str) -> (res: Result<Vec<Token>, ParseError>)
    ensures
        (match spec_lex(src@, 0) {
            Some(ts) => res matches Ok(toks) && token_views(toks@) == ts,
            None => res is Err,
        }),
        src@.len() == 0 ==> (res matches Ok(toks) && toks@.len() == 0),
        res matches Ok(toks) && toks@.len() == 0 ==> forall|k: int|
            0 <= k < src@.len() ==> is_space_char(#[trigger] src@[k]),
{
    let n = src.unicode_len();
    let mut toks: Vec<Token> = Vec::new();
    let mut i: usize = 0;
    proof {
        assert(token_views(toks@) =~= Seq::<TokenV>::empty());
        match spec_lex(src@, 0) {
            Some(r) => {
                assert(token_views(toks@) + r =~= r);
            },
            None => {},
        }
    }
    while i < n
        invariant
            n == src@.len(),
            i <= n,
            i == 0 ==> toks@.len() == 0,
            toks@.len() == 0 ==> forall|k: int| 0 <= k < i as int ==> is_space_char(#[trigger] src@[k]),
            (match spec_lex(src@, i as int) {
                Some(rest) => spec_lex(src@, 0) == Some(token_views(toks@) + rest),
                None => spec_lex(src@, 0) is None,
            }),
        decreases n - i,
    {
        let ghost i_h = i as int;
        let ghost toks0 = toks@;
        let c = src.get_char(i);
        if c == ' ' || c == '\t' || c == '\n' || c == '\r' {
            i = i + 1;
        } else if c == ';' {
            toks.push(Token::Semi);
            i = i + 1;
            proof {
                lemma_lex_step(src@, i_h, toks0, Token::Semi, i as int);
            }
        } else if c == '=' {
            toks.push(Token::Eq);
            i = i + 1;
            proof {
                lemma_lex_step(src@, i_h, toks0, Token::Eq, i as int);
            }
        } else if c == '+' {
            toks.push(Token::Plus);
            i = i + 1;
            proof {
                lemma_lex_step(src@, i_h, toks0, Token::Plus, i as int);
            }
        } else if c == '-' {
            toks.push(Token::Minus);
            i = i + 1;
            proof {
                lemma_lex_step(src@, i_h, toks0, Token::Minus, i as int);
            }
        } else if c == '*' {
            toks.push(Token::Star);
            i = i + 1;
            proof {
                lemma_lex_step(src@, i_h, toks0, Token::Star, i as int);
            }
        } else if c == '/' {
            toks.push(Token::Slash);
            i = i + 1;
            proof {
                lemma_lex_step(src@, i_h, toks0, Token::Slash, i as int);
            }
        } else if c == '{' {
            toks.push(Token::OpenBrace);
            i = i + 1;
            proof {
                lemma_lex_step(src@, i_h, toks0, Token::OpenBrace, i as int);
            }
        } else if c == '}' {
            toks.push(Token::CloseBrace);
            i = i + 1;
            proof {
                lemma_lex_step(src@, i_h, toks0, Token::CloseBrace, i as int);
            }
        } else if is_digit(c) {
            let start = i;
            let mut value: i64 = 0;
            let mut overflow = false;
            while i < n && is_digit(src.get_char(i))
                invariant
                    start <= i <= n,
                    0 <= value,
                    forall|k: int| start as int <= k < i as int ==> is_digit_char(#[trigger] src@[k]),
                    digits_end(src@, start as int) == digits_end(src@, i as int),
                    !overflow ==> value as int == digits_val(src@, start as int, i as int)
                        && digits_val(src@, start as int, i as int) <= i64::MAX,
                    overflow ==> digits_val(src@, start as int, i as int) > i64::MAX,
                decreases n - i,
            {
                let d = (src.get_char(i) as u32) - ('0' as u32);
                let dd = d as i64;
                proof {
                    assert(dd == digit_val(src@[i as int]));
                    assert(0 <= dd <= 9);
                    assert(digits_val(src@, start as int, i as int + 1) == digits_val(
                        src@,
                        start as int,
                        i as int,
                    ) * 10 + digit_val(src@[i as int]));
                    vstd::arithmetic::div_mod::lemma_fundamental_div_mod(
                        i64::MAX - dd,
                        10,
                    );
                    vstd::arithmetic::div_mod::lemma_mod_bound(i64::MAX - dd, 10);
                    lemma_digits_val_nonneg(src@, start as int, i as int);
                }
                if value > (i64::MAX - dd) / 10 {
                    overflow = true;
                    value = 0;
                } else {
                    value = value * 10 + dd;
                }
                i = i + 1;
            }
            if i < n && src.get_char(i) == '.' && i + 1 < n && is_digit(src.get_char(i + 1)) {
                let ghost d1 = i as int;
                i = i + 1;
                while i < n && is_digit(src.get_char(i))
                    invariant
                        d1 + 1 <= i <= n,
                        digits_end(src@, d1 + 1) == digits_end(src@, i as int),
                    decreases n - i,
                {
                    i = i + 1;
                }
                let text = src.substring_char(start, i);
                toks.push(Token::Float(String::from_str(text)));
                proof {
                    assert(spec_lex(src@, i_h) == lex_cons(
                        TokenV::Float(src@.subrange(i_h, i as int)),
                        spec_lex(src@, i as int),
                    ));
                    lemma_lex_step(
                        src@,
                        i_h,
                        toks0,
                        toks@[toks@.len() - 1],
                        i as int,
                    );
                }
            } else {
                if overflow {
                    proof {
                        assert(spec_lex(src@, i_h) is None);
                        assert(spec_lex(src@, 0) is None);
                    }
                    return Err(ParseError::new("Integer literal does not fit"));
                }
                toks.push(Token::Integer(value));
                proof {
                    assert(spec_lex(src@, i_h) == lex_cons(
                        TokenV::Integer(value),
                        spec_lex(src@, i as int),
                    ));
                    lemma_lex_step(src@, i_h, toks0, toks@[toks@.len() - 1], i as int);
                }
            }
        } else if is_ident_start(c) {
            let start = i;
            while i < n && is_ident_continue(src.get_char(i))
                invariant
                    start <= i <= n,
                    ident_end(src@, start as int) == ident_end(src@, i as int),
                decreases n - i,
            {
                i = i + 1;
            }
            let word = String::from_str(src.substring_char(start, i));
            if word == String::from_str("let") {
                toks.push(Token::Let);
            } else if word == String::from_str("true") {
                toks.push(Token::Bool(true));
            } else if word == String::from_str("false") {
                toks.push(Token::Bool(false));
            } else {
                toks.push(Token::Ident(word));
            }
            proof {
                lemma_lex_step(src@, i_h, toks0, toks@[toks@.len() - 1], i as int);
            }
        } else {
            proof {
                assert(spec_lex(src@, i_h) is None);
                assert(spec_lex(src@, 0) is None);
            }
            return Err(ParseError::new("Unexpected character in input"));
        }
    }
    proof {
        assert(spec_lex(src@, n as int) == Some(Seq::<TokenV>::empty()));
        match spec_lex(src@, 0) {
            Some(ts) => {
                assert(token_views(toks@) + Seq::<TokenV>::empty() =~= token_views(toks@));
            },
            None => {},
        }
    }
    Ok(toks)
}

} // verus!
