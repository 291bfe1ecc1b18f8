use std::rc::Rc;
use vstd::prelude::*;

use crate::lexer::{Token, TokenV};

verus! {

/// A binary operator of the surface language.
#[derive(Debug, Clone, Copy, PartialEq, Eq, Structural)]
pub enum BinOpType {
    Add,
    Sub,
    Mul,
    Div,
}

/// An expression: a literal, a binary operation, or a whole block.
#[derive(Debug, PartialEq)]
pub enum Expr {
    Integer(i64),
    Float(String),
    Bool(bool),
    BinOpExpr(BinOpType, Box<Expr>, Box<Expr>),
    Block(BlockSeq),
}

/// A `let` binding: `let ident = expr;`.
#[derive(Debug, PartialEq)]
pub struct LetStmt {
    pub ident: String,
    pub expr: Expr,
}

/// One declaration of a sequence: a `let` statement, an expression
/// statement, or a nested block.
#[derive(Debug, PartialEq)]
pub enum Decl {
    LetStmt(LetStmt),
    ExprStmt(Expr),
    Block(BlockSeq),
}

/// A program (or block) body: declarations, and an optional trailing
/// expression whose value is the block's value (else the block is unit).
#[derive(Debug, PartialEq)]
pub struct BlockSeq {
    pub decls: Vec<Decl>,
    pub last_expr: Option<Rc<Expr>>,
}

/// What the parser reports when the input does not fit the grammar.
#[derive(Debug, PartialEq)]
pub struct ParseError {
    pub msg: String,
}

impl ParseError {
    pub fn new(err: &str) -> (r: ParseError)
        ensures
            r.msg@ == err@,
    {
        ParseError { msg: String::from_str(err) }
    }

    /// The message, for reporting.
    pub fn message(&self) -> (r: &str)
        ensures
            r@ == self.msg@,
    {
        self.msg.as_str()
    }

    /// The displayed form: the fixed marker, then the message.
    pub fn render(&self) -> (r: String)
        ensures
            r@ == "[ParseError]: "@ + self.msg@,
    {
        let mut s = String::from_str("[ParseError]: ");
        s.append(self.msg.as_str());
        s
    }
}

/// The expressions this grammar can currently produce: literals combined by
/// binary operators — never a block.
pub open spec fn expr_simple(e: Expr) -> bool
    decreases e,
{
    match e {
        Expr::Integer(_) => true,
        Expr::Float(_) => true,
        Expr::Bool(_) => true,
        Expr::BinOpExpr(_, l, r) => expr_simple(*l) && expr_simple(*r),
        Expr::Block(_) => false,
    }
}

pub open spec fn decl_simple(d: Decl) -> bool {
    match d {
        Decl::LetStmt(st) => expr_simple(st.expr),
        Decl::ExprStmt(e) => expr_simple(e),
        Decl::Block(_) => false,
    }
}

pub open spec fn block_seq_simple(b: BlockSeq) -> bool {
    &&& forall|i: int| 0 <= i < b.decls@.len() ==> decl_simple(#[trigger] b.decls@[i])
    &&& match b.last_expr {
        Some(e) => expr_simple(*e),
        None => true,
    }
}

/// Whether a token is a literal an expression can start from.
pub open spec fn literal_token(t: TokenV) -> bool {
    match t {
        TokenV::Integer(_) => true,
        TokenV::Float(_) => true,
        TokenV::Bool(_) => true,
        _ => false,
    }
}

/// Whether a literal expression carries exactly a literal token's value.
pub open spec fn literal_matches(e: Expr, t: TokenV) -> bool {
    match (e, t) {
        (Expr::Integer(v), TokenV::Integer(w)) => v == w,
        (Expr::Float(x), TokenV::Float(y)) => x@ == y,
        (Expr::Bool(a), TokenV::Bool(b)) => a == b,
        _ => false,
    }
}

/// The leftmost literal of an expression (operators associate what follows
/// onto the right, so the first token parsed stays leftmost).
pub open spec fn leftmost_literal(e: Expr) -> Expr
    decreases e,
{
    match e {
        Expr::BinOpExpr(_, l, _) => leftmost_literal(*l),
        _ => e,
    }
}

/// The expression was parsed starting from token `t`: its leftmost literal
/// carries exactly that token's value.
pub open spec fn starts_with_token(e: Expr, t: TokenV) -> bool {
    literal_matches(leftmost_literal(e), t)
}

/// The declaration was parsed starting at token `pos` of `toks`: a literal
/// token begins an expression statement carrying it, `let` begins a binding
/// of the identifier that follows.
pub open spec fn first_decl_from(d: Decl, toks: Seq<Token>, pos: int) -> bool {
    &&& 0 <= pos < toks.len()
    &&& match toks[pos]@ {
        TokenV::Let => d matches Decl::LetStmt(st) && pos + 1 < toks.len() && (toks[pos + 1]@
            matches TokenV::Ident(name) && st.ident@ == name),
        t => literal_token(t) && (d matches Decl::ExprStmt(e) && starts_with_token(e, t)),
    }
}

/// The trailing expression was parsed starting at token `pos` of `toks`
/// (only an expression statement can end a block, so the token is a
/// literal).
pub open spec fn first_expr_from(e: Expr, toks: Seq<Token>, pos: int) -> bool {
    &&& 0 <= pos < toks.len()
    &&& literal_token(toks[pos]@)
    &&& starts_with_token(e, toks[pos]@)
}

/// The first item a parsed block holds was parsed from the block's first
/// token: the head declaration when there is one, else the trailing
/// expression.
pub open spec fn first_item_from(b: BlockSeq, toks: Seq<Token>, pos: int) -> bool {
    if b.decls@.len() > 0 {
        first_decl_from(b.decls@[0], toks, pos)
    } else {
        match b.last_expr {
            Some(e) => first_expr_from(*e, toks, pos),
            None => false,
        }
    }
}

/// The expression a declaration stands for when it ends a block.
pub open spec fn spec_to_expr(d: Decl) -> Expr {
    match d {
        Decl::LetStmt(st) => st.expr,
        Decl::ExprStmt(e) => e,
        Decl::Block(seq) => Expr::Block(seq),
    }
}

/// What one expression parse returns: `(expression, cursor after it)` on
/// success, the error message otherwise. `prev` is the token already
/// consumed, which must be a literal; the operator chain that may follow is
/// [`spec_expr_chain`]. This (and the specifications below) is the grammar
/// as this parser reads it, written as a function of the token stream; each
/// parse function returns exactly what its specification says.
pub open spec fn spec_parse_expr(
    toks: Seq<Token>,
    pos: int,
    prev: Option<Token>,
    min_bp: u8,
) -> Result<(Expr, int), Seq<char>>
    decreases toks.len() - pos, 2int,
{
    match prev {
        None => Err("Expected previous token"@),
        Some(t) => match t {
            Token::Integer(v) => spec_expr_chain(toks, pos, Expr::Integer(v), min_bp),
            Token::Float(tx) => spec_expr_chain(toks, pos, Expr::Float(tx), min_bp),
            Token::Bool(b) => spec_expr_chain(toks, pos, Expr::Bool(b), min_bp),
            _ => Err("Unexpected token - not an expression: '"@ + crate::lexer::token_text(t@) + "'"@),
        },
    }
}

/// The operator chain after a parsed left-hand side: stop before `;`, `}` or
/// the end of input; stop (consuming the operator) when it binds less
/// tightly than the context; otherwise parse the right-hand side with the
/// operator's right binding power and fold it in on the right.
pub open spec fn spec_expr_chain(toks: Seq<Token>, pos: int, lhs: Expr, min_bp: u8) -> Result<
    (Expr, int),
    Seq<char>,
>
    decreases toks.len() - pos, 1int,
{
    if pos >= toks.len() || toks[pos]@ == TokenV::Semi || toks[pos]@ == TokenV::CloseBrace {
        Ok((lhs, pos))
    } else {
        match toks[pos]@ {
            TokenV::Plus | TokenV::Minus | TokenV::Star | TokenV::Slash => {
                let op = match toks[pos]@ {
                    TokenV::Plus => BinOpType::Add,
                    TokenV::Minus => BinOpType::Sub,
                    TokenV::Star => BinOpType::Mul,
                    _ => BinOpType::Div,
                };
                let l_bp: u8 = if op == BinOpType::Add || op == BinOpType::Sub {
                    1
                } else {
                    3
                };
                let r_bp: u8 = if op == BinOpType::Add || op == BinOpType::Sub {
                    2
                } else {
                    4
                };
                if l_bp < min_bp {
                    Ok((lhs, pos + 1))
                } else {
                    let (pos2, prev2) = if pos + 1 < toks.len() {
                        (pos + 2, Some(toks[pos + 1]))
                    } else {
                        (pos + 1, Some(toks[pos]))
                    };
                    match spec_parse_expr(toks, pos2, prev2, r_bp) {
                        Err(m) => Err(m),
                        Ok((rhs, pos3)) => if pos3 <= pos || pos3 > toks.len() {
                            Err(Seq::empty())
                        } else {
                            spec_expr_chain(
                                toks,
                                pos3,
                                Expr::BinOpExpr(op, Box::new(lhs), Box::new(rhs)),
                                min_bp,
                            )
                        },
                    }
                }
            },
            _ => Err("Expected infix operator but got: '"@ + crate::lexer::token_text(toks[pos]@) + "'"@),
        }
    }
}

/// What one `let` parse returns, the `let` token already consumed and the
/// cursor on what should be the identifier.
pub open spec fn spec_parse_let(toks: Seq<Token>, pos: int) -> Result<(Decl, int), Seq<char>>
    decreases toks.len() - pos, 0int,
{
    if pos >= toks.len() || !(toks[pos] matches Token::Ident(_)) {
        Err("Expected identifier"@)
    } else if pos + 1 >= toks.len() || toks[pos + 1]@ != TokenV::Eq {
        Err("Expected '='"@)
    } else {
        let ident = match toks[pos] {
            Token::Ident(s) => s,
            _ => arbitrary(),
        };
        let (pos2, prev2) = if pos + 2 < toks.len() {
            (pos + 3, Some(toks[pos + 2]))
        } else {
            (pos + 2, Some(toks[pos + 1]))
        };
        match spec_parse_decl(toks, pos2, prev2) {
            Err(m) => Err(m),
            Ok((d, pos3)) => match d {
                Decl::LetStmt(_) => Err("Can't assign to a let statement"@),
                _ => if pos3 >= toks.len() || toks[pos3]@ != TokenV::Semi {
                    Err("Expected semicolon after let"@)
                } else {
                    Ok((Decl::LetStmt(LetStmt { ident, expr: spec_to_expr(d) }), pos3))
                },
            },
        }
    }
}

/// What one declaration parse returns: a literal previous token starts an
/// expression, `let` starts a binding, anything else is rejected.
pub open spec fn spec_parse_decl(toks: Seq<Token>, pos: int, prev: Option<Token>) -> Result<
    (Decl, int),
    Seq<char>,
>
    decreases toks.len() - pos, 3int,
{
    match prev {
        None => Err("Expected previous token"@),
        Some(t) => match t {
            Token::Integer(_) | Token::Float(_) | Token::Bool(_) => match spec_parse_expr(
                toks,
                pos,
                prev,
                0,
            ) {
                Ok((e, pos2)) => Ok((Decl::ExprStmt(e), pos2)),
                Err(m) => Err(m),
            },
            Token::Let => spec_parse_let(toks, pos),
            _ => Err("Unexpected token: '"@ + crate::lexer::token_text(t@) + "'"@),
        },
    }
}

/// What a whole sequence parse returns: the `;`-terminated declarations in
/// source order, then the optional trailing expression (present exactly when
/// the last declaration is not followed by `;`), and the final cursor. A
/// declaration followed by anything else is the missing-semicolon error.
pub open spec fn spec_parse_seq(toks: Seq<Token>, pos: int) -> Result<
    (Seq<Decl>, Option<Expr>, int),
    Seq<char>,
>
    decreases toks.len() - pos,
{
    if pos >= toks.len() {
        Ok((Seq::empty(), None, pos))
    } else {
        match spec_parse_decl(toks, pos + 1, Some(toks[pos])) {
            Err(m) => Err(m),
            Ok((d, pos2)) => if pos2 >= toks.len() || toks[pos2]@ == TokenV::CloseBrace {
                Ok((Seq::empty(), Some(spec_to_expr(d)), pos2))
            } else if toks[pos2]@ == TokenV::Semi {
                if pos2 + 1 <= pos {
                    Err(Seq::empty())
                } else {
                    match spec_parse_seq(toks, pos2 + 1) {
                        Err(m) => Err(m),
                        Ok((ds, last, posf)) => Ok((seq![d] + ds, last, posf)),
                    }
                }
            } else {
                Err("Expected semicolon"@)
            },
        }
    }
}

/// The decimal digit characters of `n` (for `n >= 0`), most significant
/// first.
pub open spec fn dec_digits(n: int) -> Seq<char>
    decreases n,
{
    if n < 0 {
        Seq::empty()
    } else if n < 10 {
        seq![digit_char(n)]
    } else {
        dec_digits(n / 10).push(digit_char(n % 10))
    }
}

/// The character for one decimal digit.
pub open spec fn digit_char(d: int) -> char {
    if d == 0 {
        '0'
    } else if d == 1 {
        '1'
    } else if d == 2 {
        '2'
    } else if d == 3 {
        '3'
    } else if d == 4 {
        '4'
    } else if d == 5 {
        '5'
    } else if d == 6 {
        '6'
    } else if d == 7 {
        '7'
    } else if d == 8 {
        '8'
    } else {
        '9'
    }
}

/// The decimal text of an integer: a minus sign for negatives, then the
/// digits.
pub open spec fn dec_text(i: int) -> Seq<char> {
    if i < 0 {
        seq!['-'] + dec_digits(-i)
    } else {
        dec_digits(i)
    }
}

/// Relies on i64's Display: a minus sign for negatives, then the decimal
/// digits, nothing else.
#[verifier::external_body]
pub fn i64_text(i: i64) -> (r: String)
    ensures
        r@ == dec_text(i as int),
{
    format!("{}", i)
}

/// The text a binary operator prints as.
pub open spec fn binop_text(op: BinOpType) -> Seq<char> {
    match op {
        BinOpType::Add => "+"@,
        BinOpType::Sub => "-"@,
        BinOpType::Mul => "*"@,
        BinOpType::Div => "/"@,
    }
}

/// The text an expression prints as (for the block-free expressions the
/// grammar produces).
pub open spec fn expr_text(e: Expr) -> Seq<char>
    decreases e,
{
    match e {
        Expr::Integer(v) => dec_text(v as int),
        Expr::Float(t) => t@,
        Expr::Bool(b) => if b {
            "true"@
        } else {
            "false"@
        },
        Expr::BinOpExpr(op, l, r) => expr_text(*l) + binop_text(op) + expr_text(*r),
        Expr::Block(_) => Seq::empty(),
    }
}

/// The text a declaration prints as.
pub open spec fn decl_text(d: Decl) -> Seq<char> {
    match d {
        Decl::ExprStmt(e) => expr_text(e),
        Decl::LetStmt(st) => "let "@ + st.ident@ + " = "@ + expr_text(st.expr),
        Decl::Block(_) => Seq::empty(),
    }
}

/// The text of a sequence of declarations, each followed by a semicolon.
pub open spec fn decls_text(ds: Seq<Decl>) -> Seq<char>
    decreases ds.len(),
{
    if ds.len() == 0 {
        Seq::empty()
    } else {
        decl_text(ds[0]) + ";"@ + decls_text(ds.drop_first())
    }
}

/// The text a whole block prints as: its declarations, then the trailing
/// expression if there is one.
pub open spec fn block_seq_text(b: BlockSeq) -> Seq<char> {
    decls_text(b.decls@) + match b.last_expr {
        Some(e) => expr_text(*e),
        None => Seq::empty(),
    }
}

impl BinOpType {
    /// The operator's text.
    pub fn to_text(&self) -> (r: String)
        ensures
            r@ == binop_text(*self),
    {
        match self {
            BinOpType::Add => String::from_str("+"),
            BinOpType::Sub => String::from_str("-"),
            BinOpType::Mul => String::from_str("*"),
            BinOpType::Div => String::from_str("/"),
        }
    }
}

impl Expr {
    /// The expression's text.
    pub fn to_text(&self) -> (r: String)
        requires
            expr_simple(*self),
        ensures
            r@ == expr_text(*self),
        decreases *self,
    {
        match self {
            Expr::Integer(v) => i64_text(*v),
            Expr::Float(t) => t.clone(),
            Expr::Bool(b) => if *b {
                String::from_str("true")
            } else {
                String::from_str("false")
            },
            Expr::BinOpExpr(op, l, r) => {
                let mut s = l.to_text();
                s.append(op.to_text().as_str());
                s.append(r.to_text().as_str());
                s
            },
            Expr::Block(_) => String::new(),
        }
    }
}

impl LetStmt {
    /// The statement's text: `let ident = expr`.
    pub fn to_text(&self) -> (r: String)
        requires
            expr_simple(self.expr),
        ensures
            r@ == decl_text(Decl::LetStmt(LetStmt { ident: self.ident, expr: self.expr })),
    {
        let mut s = String::from_str("let ");
        s.append(self.ident.as_str());
        s.append(" = ");
        s.append(self.expr.to_text().as_str());
        s
    }
}

impl Decl {
    /// The expression a declaration stands for when it ends a block: a `let`
    /// contributes its bound expression, an expression statement itself, and
    /// a block becomes a block expression.
    fn to_expr(self) -> (r: Expr)
        ensures
            r == spec_to_expr(self),
            decl_simple(self) ==> expr_simple(r),
    {
        match self {
            Decl::LetStmt(st) => st.expr,
            Decl::ExprStmt(e) => e,
            Decl::Block(seq) => Expr::Block(seq),
        }
    }

    /// The declaration's text.
    pub fn to_text(&self) -> (r: String)
        requires
            decl_simple(*self),
        ensures
            r@ == decl_text(*self),
    {
        match self {
            Decl::ExprStmt(e) => e.to_text(),
            Decl::LetStmt(st) => st.to_text(),
            Decl::Block(_) => String::new(),
        }
    }
}

impl BlockSeq {
    /// The block's text: each declaration with its semicolon, then the
    /// trailing expression if any.
    pub fn to_text(&self) -> (r: String)
        requires
            block_seq_simple(*self),
        ensures
            r@ == block_seq_text(*self),
    {
        let mut s = String::new();
        let n = self.decls.len();
        let mut i: usize = 0;
        proof {
            assert(self.decls@.skip(0) =~= self.decls@);
        }
        while i < n
            invariant
                n == self.decls@.len(),
                i <= n,
                block_seq_simple(*self),
                s@ + decls_text(self.decls@.skip(i as int)) == decls_text(self.decls@),
            decreases n - i,
        {
            proof {
                assert(self.decls@.skip(i as int)[0] == self.decls@[i as int]);
                assert(self.decls@.skip(i as int).drop_first() =~= self.decls@.skip(i as int + 1));
            }
            s.append(self.decls[i].to_text().as_str());
            s.append(";");
            i += 1;
        }
        proof {
            assert(self.decls@.skip(n as int).len() == 0);
            assert(s@ == decls_text(self.decls@));
        }
        match &self.last_expr {
            Some(e) => {
                s.append(e.to_text().as_str());
            },
            None => {},
        }
        s
    }
}

/// The recursive-descent parser: a token stream, a cursor, and the last
/// token consumed.
pub struct Parser {
    pub prev_tok: Option<Token>,
    pub tokens: Vec<Token>,
    pub pos: usize,
}

impl Parser {
    /// The cursor stays inside the token stream.
    pub open spec fn wf(self) -> bool {
        self.pos <= self.tokens@.len()
    }

    pub fn new(tokens: Vec<Token>) -> (p: Parser)
        ensures
            p.wf(),
            p.tokens == tokens,
            p.pos == 0,
            p.prev_tok is None,
    {
        Parser { prev_tok: None, tokens, pos: 0 }
    }

    /// The token the cursor stands on, if any.
    fn peek(&self) -> (r: Option<&Token>)
        ensures
            self.pos < self.tokens@.len() ==> (r matches Some(t) && *t == self.tokens@[self.pos as int]),
            self.pos >= self.tokens@.len() ==> r is None,
    {
        if self.pos < self.tokens.len() {
            Some(&self.tokens[self.pos])
        } else {
            None
        }
    }

    /// Whether the next token is exactly `token`.
    pub fn is_peek_token_type(&self, token: Token) -> (r: bool)
        ensures
            r == (self.pos < self.tokens@.len() && self.tokens@[self.pos as int]@ == token@),
    {
        match self.peek() {
            Some(t) => t.same_as(&token),
            None => false,
        }
    }

    /// Expect the next token to be `token` without consuming it.
    fn expect_token_type(&self, token: Token, expected_msg: &str) -> (res: Result<
        (),
        ParseError,
    >)
        ensures
            (self.pos < self.tokens@.len() && self.tokens@[self.pos as int]@ == token@)
                <==> res is Ok,
            res matches Err(e) ==> e.msg@ == expected_msg@,
    {
        if !self.is_peek_token_type(token) {
            Err(ParseError::new(expected_msg))
        } else {
            Ok(())
        }
    }

    /// Expect the next token to be `token` and consume it.
    fn consume_token_type(&mut self, token: Token, expected_msg: &str) -> (res: Result<
        (),
        ParseError,
    >)
        requires
            old(self).wf(),
        ensures
            final(self).wf(),
            final(self).tokens == old(self).tokens,
            res is Ok ==> old(self).pos < old(self).tokens@.len() && old(self).tokens@[old(self).pos as int]@ == token@ && final(self).pos == old(self).pos + 1 && final(self).prev_tok == Some(old(self).tokens@[old(self).pos as int]),
            res matches Err(e) ==> *final(self) == *old(self) && e.msg@ == expected_msg@,
            res is Err ==> !(old(self).pos < old(self).tokens@.len() && old(self).tokens@[old(self).pos as int]@ == token@),
    {
        if !self.is_peek_token_type(token) {
            Err(ParseError::new(expected_msg))
        } else {
            self.advance();
            Ok(())
        }
    }

    /// Remember the token under the cursor as the previous token and move
    /// past it (nothing happens at the end of the stream).
    fn advance(&mut self)
        requires
            old(self).wf(),
        ensures
            final(self).wf(),
            final(self).tokens == old(self).tokens,
            old(self).pos < old(self).tokens@.len() ==> final(self).pos == old(self).pos + 1
                && final(self).prev_tok == Some(old(self).tokens@[old(self).pos as int]),
            old(self).pos >= old(self).tokens@.len() ==> *final(self) == *old(self),
    {
        if self.pos < self.tokens.len() {
            self.prev_tok = Some(self.tokens[self.pos].dup());
            self.pos = self.pos + 1;
        }
    }

    /// The token most recently consumed, or a parse error when none was.
    fn expect_prev_tok(&self) -> (res: Result<&Token, ParseError>)
        ensures
            self.prev_tok matches Some(p) ==> (res matches Ok(t) && *t == p),
            self.prev_tok is None ==> (res matches Err(e) && e.msg@ == "Expected previous token"@),
    {
        match &self.prev_tok {
            Some(tok) => Ok(tok),
            None => Err(ParseError::new("Expected previous token")),
        }
    }

    /// The identifier's name out of a peeked token.
    fn string_from_ident(token: Option<&Token>) -> (r: String)
        requires
            token matches Some(t) && t@ matches TokenV::Ident(_),
        ensures
            (match token {
                Some(t) => t matches Token::Ident(s) && r == s,
                None => false,
            }),
    {
        match token {
            Some(Token::Ident(s)) => s.clone(),
            _ => String::new(),
        }
    }

    /// Binding powers of an infix operator token (left, right): additive
    /// operators bind (1, 2), multiplicative ones (3, 4); anything else is
    /// rejected, naming the offending token.
    fn get_infix_bp(token: &Token) -> (res: Result<(u8, u8), ParseError>)
        ensures
            match token@ {
                TokenV::Plus | TokenV::Minus => res == Ok::<(u8, u8), ParseError>((1u8, 2u8)),
                TokenV::Star | TokenV::Slash => res == Ok::<(u8, u8), ParseError>((3u8, 4u8)),
                _ => res matches Err(e) && e.msg@ == "Expected infix operator but got: '"@
                    + crate::lexer::token_text(token@) + "'"@,
            },
    {
        match token {
            Token::Plus | Token::Minus => Ok((1, 2)),
            Token::Star | Token::Slash => Ok((3, 4)),
            _ => {
                let mut msg = String::from_str("Expected infix operator but got: '");
                msg.append(token.to_text().as_str());
                msg.append("'");
                Err(ParseError { msg })
            },
        }
    }

    /// Parse a `let` statement: `let ident = expr` (the semicolon stays for
    /// the caller). Assigning a declaration to a name is rejected.
    fn parse_let(&mut self) -> (res: Result<Decl, ParseError>)
        requires
            old(self).wf(),
        ensures
            final(self).wf(),
            final(self).tokens == old(self).tokens,
            final(self).pos >= old(self).pos,
            res matches Ok(d) ==> {
                &&& d matches Decl::LetStmt(st)
                &&& expr_simple(st.expr)
                &&& old(self).pos + 2 < old(self).tokens@.len()
                &&& (old(self).tokens@[old(self).pos as int]@ matches TokenV::Ident(name)
                    && st.ident@ == name)
                &&& starts_with_token(st.expr, old(self).tokens@[old(self).pos as int + 2]@)
                &&& final(self).pos < final(self).tokens@.len()
                &&& final(self).tokens@[final(self).pos as int]@ == TokenV::Semi
            },
            (old(self).pos >= old(self).tokens@.len() || !(old(self).tokens@[old(self).pos as int]@ matches TokenV::Ident(_))) ==> (res matches Err(e) && e.msg@
                == "Expected identifier"@),
            (old(self).pos < old(self).tokens@.len() && (old(self).tokens@[old(self).pos as int]@
                matches TokenV::Ident(_)) && (old(self).pos + 1 >= old(self).tokens@.len() || old(self).tokens@[old(self).pos as int + 1]@ != TokenV::Eq)) ==> (res matches Err(e) && e.msg@
                == "Expected '='"@),
            (match spec_parse_let(old(self).tokens@, old(self).pos as int) {
                Ok((d, p)) => res matches Ok(rd) && rd == d && final(self).pos == p,
                Err(m) => res matches Err(er) && er.msg@ == m,
            }),
        decreases old(self).tokens@.len() - old(self).pos, 0int,
    {
        let ident = match self.peek() {
            Some(t) => match t {
                Token::Ident(_) => Self::string_from_ident(self.peek()),
                _ => {
                    return Err(ParseError::new("Expected identifier"));
                },
            },
            None => {
                return Err(ParseError::new("Expected identifier"));
            },
        };
        proof {
            assert(old(self).tokens@[old(self).pos as int] matches Token::Ident(_));
        }
        self.advance();
        match self.consume_token_type(Token::Eq, "Expected '='") {
            Ok(_) => {},
            Err(e) => {
                proof {
                    let toks = old(self).tokens@;
                    let p0 = old(self).pos as int;
                    assert(p0 + 1 >= toks.len() || toks[p0 + 1]@ != TokenV::Eq);
                    assert(spec_parse_let(toks, p0) == Err::<(Decl, int), Seq<char>>(
                        "Expected '='"@,
                    ));
                }
                return Err(e);
            },
        }
        self.advance();
        let ghost pos2 = self.pos as int;
        let ghost prev2 = self.prev_tok;
        proof {
            let toks = old(self).tokens@;
            let p0 = old(self).pos as int;
            assert(toks[p0 + 1]@ == TokenV::Eq);
            if p0 + 2 < toks.len() {
                assert(pos2 == p0 + 3 && prev2 == Some(toks[p0 + 2]));
            } else {
                assert(pos2 == p0 + 2 && prev2 == Some(toks[p0 + 1]));
            }
        }
        let expr = match self.parse_decl() {
            Ok(d) => d,
            Err(e) => {
                proof {
                    assert(spec_parse_decl(old(self).tokens@, pos2, prev2)
                        == Err::<(Decl, int), Seq<char>>(e.msg@));
                }
                return Err(e);
            },
        };
        match expr {
            Decl::LetStmt(_) => {
                return Err(ParseError::new("Can't assign to a let statement"));
            },
            _ => (),
        }
        self.expect_token_type(Token::Semi, "Expected semicolon after let")?;
        let stmt = LetStmt { ident, expr: expr.to_expr() };
        Ok(Decl::LetStmt(stmt))
    }

    /// Parse an expression with operator-precedence climbing, starting from
    /// the previously consumed token.
    #[verifier::loop_isolation(false)]
    fn parse_expr(&mut self, min_bp: u8) -> (res: Result<Decl, ParseError>)
        requires
            old(self).wf(),
        ensures
            final(self).wf(),
            final(self).tokens == old(self).tokens,
            final(self).pos >= old(self).pos,
            match old(self).prev_tok {
                None => res matches Err(e) && e.msg@ == "Expected previous token"@,
                Some(t) => if literal_token(t@) {
                    res matches Ok(d) ==> (d matches Decl::ExprStmt(e) && expr_simple(e)
                        && starts_with_token(e, t@))
                } else {
                    res matches Err(e) && e.msg@
                        == "Unexpected token - not an expression: '"@ + crate::lexer::token_text(t@) + "'"@
                },
            },
            min_bp == 0 && res is Ok ==> final(self).pos == final(self).tokens@.len() || final(self).tokens@[final(self).pos as int]@ == TokenV::Semi || final(self).tokens@[final(self).pos as int]@ == TokenV::CloseBrace,
            (old(self).prev_tok matches Some(t) && literal_token(t@) && (old(self).pos >= old(self).tokens@.len() || old(self).tokens@[old(self).pos as int]@ == TokenV::Semi || old(self).tokens@[old(self).pos as int]@ == TokenV::CloseBrace)) ==> res is Ok && final(self).pos == old(self).pos,
            (match spec_parse_expr(old(self).tokens@, old(self).pos as int, old(self).prev_tok, min_bp) {
                Ok((e, p)) => res matches Ok(d) && d == Decl::ExprStmt(e) && final(self).pos == p,
                Err(m) => res matches Err(er) && er.msg@ == m,
            }),
        decreases old(self).tokens@.len() - old(self).pos, 2int,
    {
        let mut lhs: Expr = match self.expect_prev_tok()? {
            Token::Integer(val) => Expr::Integer(*val),
            Token::Float(t) => Expr::Float(t.clone()),
            Token::Bool(val) => Expr::Bool(*val),
            tok => {
                let mut msg = String::from_str("Unexpected token - not an expression: '");
                msg.append(tok.to_text().as_str());
                msg.append("'");
                return Err(ParseError { msg });
            },
        };
        let ghost t0 = (match old(self).prev_tok {
            Some(t) => t@,
            None => arbitrary(),
        });
        let ghost target = spec_expr_chain(self.tokens@, self.pos as int, lhs, min_bp);
        proof {
            assert(spec_parse_expr(
                old(self).tokens@,
                old(self).pos as int,
                old(self).prev_tok,
                min_bp,
            ) == target);
        }
        let ghost pos0 = self.pos;
        let ghost mut entered = false;
        let mut stopped = false;
        while !stopped && !(self.pos >= self.tokens.len() || self.is_peek_token_type(Token::Semi)
            || self.is_peek_token_type(Token::CloseBrace))
            invariant
                self.wf(),
                self.tokens == old(self).tokens,
                self.pos >= pos0,
                expr_simple(lhs),
                starts_with_token(lhs, t0),
                min_bp == 0 ==> !stopped,
                !entered ==> self.pos == pos0 && !stopped,
                entered ==> pos0 < self.tokens@.len() && self.tokens@[pos0 as int]@ != TokenV::Semi
                    && self.tokens@[pos0 as int]@ != TokenV::CloseBrace,
                !stopped ==> spec_expr_chain(self.tokens@, self.pos as int, lhs, min_bp) == target,
                stopped ==> target == Ok::<(Expr, int), Seq<char>>((lhs, self.pos as int)),
            decreases self.tokens@.len() - self.pos,
        {
            proof {
                if !entered {
                    assert(self.pos == pos0);
                }
                entered = true;
            }
            let ghost pos_h = self.pos as int;
            let ghost lhs_h = lhs;
            let (l_bp, r_bp) = match Self::get_infix_bp(&self.tokens[self.pos]) {
                Ok(bp) => bp,
                Err(e) => {
                    proof {
                        assert(target == Err::<(Expr, int), Seq<char>>(e.msg@));
                    }
                    return Err(e);
                },
            };
            let op = match &self.tokens[self.pos] {
                Token::Plus => BinOpType::Add,
                Token::Minus => BinOpType::Sub,
                Token::Star => BinOpType::Mul,
                _ => BinOpType::Div,
            };
            self.advance();
            if l_bp < min_bp {
                stopped = true;
            } else {
                self.advance();
                let ghost pos2 = self.pos as int;
                let ghost prev2 = self.prev_tok;
                let rhs = match self.parse_expr(r_bp) {
                    Ok(r) => r,
                    Err(e) => {
                        proof {
                            assert(spec_parse_expr(self.tokens@, pos2, prev2, r_bp)
                                == Err::<(Expr, int), Seq<char>>(e.msg@));
                            assert(target == Err::<(Expr, int), Seq<char>>(e.msg@));
                        }
                        return Err(e);
                    },
                };
                lhs = Expr::BinOpExpr(op, Box::new(lhs), Box::new(rhs.to_expr()));
                proof {
                    assert(spec_expr_chain(self.tokens@, pos_h, lhs_h, min_bp)
                        == spec_expr_chain(self.tokens@, self.pos as int, lhs, min_bp));
                }
            }
        }
        Ok(Decl::ExprStmt(lhs))
    }

    /// Parse one declaration: a literal starts an expression, `let` starts a
    /// binding, anything else is rejected.
    fn parse_decl(&mut self) -> (res: Result<Decl, ParseError>)
        requires
            old(self).wf(),
        ensures
            final(self).wf(),
            final(self).tokens == old(self).tokens,
            final(self).pos >= old(self).pos,
            res matches Ok(d) ==> decl_simple(d) && !(d is Block),
            match old(self).prev_tok {
                None => res matches Err(e) && e.msg@ == "Expected previous token"@,
                Some(t) => if literal_token(t@) {
                    res matches Ok(d) ==> (d matches Decl::ExprStmt(e) && starts_with_token(
                        e,
                        t@,
                    ))
                } else if t@ == TokenV::Let {
                    res matches Ok(d) ==> (d matches Decl::LetStmt(st) && old(self).pos < old(self).tokens@.len() && (old(self).tokens@[old(self).pos as int]@
                        matches TokenV::Ident(name) && st.ident@ == name) && final(self).pos
                        < final(self).tokens@.len() && final(self).tokens@[final(self).pos as int]@
                        == TokenV::Semi)
                } else {
                    res matches Err(e) && e.msg@ == "Unexpected token: '"@
                        + crate::lexer::token_text(t@) + "'"@
                },
            },
            (old(self).prev_tok matches Some(t) && literal_token(t@) && (old(self).pos >= old(self).tokens@.len() || old(self).tokens@[old(self).pos as int]@ == TokenV::Semi || old(self).tokens@[old(self).pos as int]@ == TokenV::CloseBrace)) ==> res is Ok && final(self).pos == old(self).pos,
            (match spec_parse_decl(old(self).tokens@, old(self).pos as int, old(self).prev_tok) {
                Ok((d, p)) => res matches Ok(rd) && rd == d && final(self).pos == p,
                Err(m) => res matches Err(er) && er.msg@ == m,
            }),
        decreases old(self).tokens@.len() - old(self).pos, 3int,
    {
        let is_let = match self.expect_prev_tok()? {
            Token::Integer(_) | Token::Float(_) | Token::Bool(_) => false,
            Token::Let => true,
            tok => {
                let mut msg = String::from_str("Unexpected token: '");
                msg.append(tok.to_text().as_str());
                msg.append("'");
                return Err(ParseError { msg });
            },
        };
        if is_let {
            let res = self.parse_let();
            proof {
                assert(old(self).prev_tok matches Some(t) && t matches Token::Let);
                assert(spec_parse_decl(old(self).tokens@, old(self).pos as int, old(self).prev_tok)
                    == spec_parse_let(old(self).tokens@, old(self).pos as int));
                let sl = spec_parse_let(old(self).tokens@, old(self).pos as int);
                assert(match sl {
                    Ok((d, p)) => res matches Ok(rd) && rd == d && self.pos == p,
                    Err(m) => res matches Err(er) && er.msg@ == m,
                });
            }
            res
        } else {
            let res = self.parse_expr(0);
            proof {
                let sp = spec_parse_expr(
                    old(self).tokens@,
                    old(self).pos as int,
                    old(self).prev_tok,
                    0,
                );
                assert(spec_parse_decl(old(self).tokens@, old(self).pos as int, old(self).prev_tok)
                    == (match sp {
                    Ok((e, p)) => Ok::<(Decl, int), Seq<char>>((Decl::ExprStmt(e), p)),
                    Err(m) => Err(m),
                }));
            }
            res
        }
    }

    /// Parse a whole sequence of declarations with an optional trailing
    /// expression (the value of the program).
    #[verifier::loop_isolation(false)]
    pub fn parse_seq(&mut self) -> (res: Result<BlockSeq, ParseError>)
        requires
            old(self).wf(),
        ensures
            final(self).wf(),
            final(self).tokens == old(self).tokens,
            res matches Ok(b) ==> block_seq_simple(b),
            res is Ok ==> final(self).pos == final(self).tokens@.len()
                || final(self).tokens@[final(self).pos as int]@ == TokenV::CloseBrace,
            old(self).pos >= old(self).tokens@.len() ==> (res matches Ok(b) && b.decls@.len() == 0
                && b.last_expr is None),
            res matches Ok(b) ==> (old(self).pos < old(self).tokens@.len() ==> b.decls@.len() > 0
                || b.last_expr is Some),
            res matches Ok(b) ==> (old(self).pos < old(self).tokens@.len() ==> first_item_from(
                b,
                old(self).tokens@,
                old(self).pos as int,
            )),
            (match spec_parse_seq(old(self).tokens@, old(self).pos as int) {
                Ok((ds, last, p)) => res matches Ok(b) && b.decls@ == ds && final(self).pos == p
                    && (match (b.last_expr, last) {
                    (Some(e), Some(se)) => *e == se,
                    (None, None) => true,
                    _ => false,
                }),
                Err(m) => res matches Err(er) && er.msg@ == m,
            }),
        decreases old(self).tokens@.len() - old(self).pos,
    {
        let mut decls: Vec<Decl> = Vec::new();
        let mut last_expr: Option<Expr> = None;
        let mut finished = false;
        let ghost target = spec_parse_seq(self.tokens@, self.pos as int);
        while !finished && self.pos < self.tokens.len()
            invariant
                self.wf(),
                self.tokens == old(self).tokens,
                !finished ==> (match spec_parse_seq(self.tokens@, self.pos as int) {
                    Ok((ds, l, p)) => target == Ok::<(Seq<Decl>, Option<Expr>, int), Seq<char>>(
                        (decls@ + ds, l, p),
                    ),
                    Err(m) => target == Err::<(Seq<Decl>, Option<Expr>, int), Seq<char>>(m),
                }),
                finished ==> target == Ok::<(Seq<Decl>, Option<Expr>, int), Seq<char>>(
                    (decls@, last_expr, self.pos as int),
                ),
                forall|i: int| 0 <= i < decls@.len() ==> decl_simple(#[trigger] decls@[i]),
                last_expr matches Some(e) ==> expr_simple(e),
                !finished ==> last_expr is None,
                finished ==> last_expr is Some,
                finished ==> self.pos == self.tokens@.len() || self.tokens@[self.pos as int]@
                    == TokenV::CloseBrace,
                decls@.len() == 0 && last_expr is None ==> self.pos == old(self).pos,
                self.pos == old(self).pos || old(self).pos < self.tokens@.len(),
                old(self).pos >= self.tokens@.len() ==> decls@.len() == 0 && last_expr is None,
                decls@.len() > 0 ==> first_decl_from(decls@[0], self.tokens@, old(self).pos as int),
                decls@.len() == 0 ==> (last_expr matches Some(e) ==> first_expr_from(
                    e,
                    self.tokens@,
                    old(self).pos as int,
                )),
            decreases self.tokens@.len() - self.pos,
        {
            let ghost first_iter = decls@.len() == 0;
            let ghost pos_head = self.pos as int;
            let ghost decls_head = decls@;
            self.advance();
            let expr = match self.parse_decl() {
                Ok(d) => d,
                Err(e) => {
                    proof {
                        assert(spec_parse_seq(self.tokens@, pos_head)
                            == Err::<(Seq<Decl>, Option<Expr>, int), Seq<char>>(e.msg@));
                    }
                    return Err(e);
                },
            };
            let ghost expr_g = expr;
            proof {
                if first_iter {
                    assert(pos_head == old(self).pos as int);
                    assert(first_decl_from(expr_g, self.tokens@, old(self).pos as int));
                }
            }
            if self.pos >= self.tokens.len() || self.is_peek_token_type(Token::CloseBrace) {
                last_expr = Some(expr.to_expr());
                finished = true;
                proof {
                    assert(spec_parse_seq(self.tokens@, pos_head)
                        == Ok::<(Seq<Decl>, Option<Expr>, int), Seq<char>>(
                        (Seq::empty(), Some(spec_to_expr(expr_g)), self.pos as int),
                    ));
                    assert(decls_head + Seq::<Decl>::empty() =~= decls_head);
                    if first_iter {
                        // a let cannot end the block: it leaves its semicolon
                        // under the cursor, so this exit cannot fire on it
                        assert(expr_g matches Decl::ExprStmt(_));
                        assert(last_expr matches Some(e) ==> first_expr_from(
                            e,
                            self.tokens@,
                            old(self).pos as int,
                        ));
                    }
                }
            } else if self.is_peek_token_type(Token::Semi) {
                decls.push(expr);
                self.advance();
                proof {
                    assert(spec_parse_seq(self.tokens@, pos_head) == (
                    match spec_parse_seq(self.tokens@, self.pos as int) {
                        Err(m) => Err::<(Seq<Decl>, Option<Expr>, int), Seq<char>>(m),
                        Ok((ds, l, p)) => Ok((seq![expr_g] + ds, l, p)),
                    }));
                    assert(decls@ =~= decls_head.push(expr_g));
                    assert(forall|ds: Seq<Decl>|
                        decls_head + (seq![expr_g] + ds) =~= #[trigger] (decls@ + ds));
                    if first_iter {
                        assert(decls@[0] == expr_g);
                    }
                }
            } else {
                proof {
                    assert(spec_parse_seq(self.tokens@, pos_head)
                        == Err::<(Seq<Decl>, Option<Expr>, int), Seq<char>>(
                        "Expected semicolon"@,
                    ));
                }
                return Err(ParseError::new("Expected semicolon"));
            }
        }
        let b = BlockSeq {
            decls,
            last_expr: match last_expr {
                Some(x) => Some(Rc::new(x)),
                None => None,
            },
        };
        Ok(b)
    }

    /// Parse the implicit top-level block of a program.
    pub fn parse(self) -> (res: Result<BlockSeq, ParseError>)
        requires
            self.wf(),
        ensures
            res matches Ok(b) ==> block_seq_simple(b),
            self.pos >= self.tokens@.len() ==> (res matches Ok(b) && b.decls@.len() == 0
                && b.last_expr is None),
            res matches Ok(b) ==> (self.pos < self.tokens@.len() ==> b.decls@.len() > 0
                || b.last_expr is Some),
            res matches Ok(b) ==> (self.pos < self.tokens@.len() ==> first_item_from(
                b,
                self.tokens@,
                self.pos as int,
            )),
            (match spec_parse_seq(self.tokens@, self.pos as int) {
                Ok((ds, last, _)) => res matches Ok(b) && b.decls@ == ds && (match (
                    b.last_expr,
                    last,
                ) {
                    (Some(e), Some(se)) => *e == se,
                    (None, None) => true,
                    _ => false,
                }),
                Err(m) => res matches Err(er) && er.msg@ == m,
            }),
    {
        let mut parser = self;
        parser.parse_seq()
    }
}

} // verus!
