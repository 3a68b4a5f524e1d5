use vstd::prelude::*;
use vstd::string::StringSliceAdditionalSpecFns;

use crate::compiler::ast::{lemma_view_row_index, lemma_view_rows_index, view_row, view_rows, Expr, ExprV, Function, FunctionV, Op, Program, ProgramV, Stmt, StmtV};
use crate::compiler::lexer::{deep, spec_tokens, tokenize, LexError, LexOut, Token, TokenV};

verus! {

/// A parse error: the construct that was expected and the token actually
/// found (`None` where the input ended).
#[derive(Debug)]
pub enum ParseError {
    /// The lexer rejected the input before parsing began.
    Lex(LexError),
    /// A specific token was expected.
    ExpectedToken(Token, Option<Token>),
    /// A function name was expected after `fn`.
    ExpectedFunctionName(Option<Token>),
    /// A variable name was expected after `let`.
    ExpectedVariableName(Option<Token>),
    /// A statement keyword was expected.
    ExpectedStatement(Option<Token>),
    /// A factor (number, identifier, parenthesis or matrix) was expected.
    ExpectedFactor(Option<Token>),
}

/// How many tokens remain from offset `i` on.
pub open spec fn tok_measure(t: Seq<TokenV>, i: int) -> int {
    if 0 <= i <= t.len() {
        t.len() - i
    } else {
        0
    }
}

/// The factor that starts at `i`, with the number of tokens it takes.
pub open spec fn sp_factor(t: Seq<TokenV>, i: int) -> Option<(ExprV, nat)>
    decreases tok_measure(t, i), 2int,
{
    if i < 0 || i >= t.len() {
        None
    } else {
        match t[i] {
            TokenV::Number(s) => Some((ExprV::Number(s), 1nat)),
            TokenV::Identifier(n) => Some((ExprV::Identifier(n), 1nat)),
            TokenV::LParen => match sp_expr(t, i + 1) {
                Some((e, c)) => {
                    let j = i + 1 + c;
                    if j < t.len() && t[j] is RParen {
                        Some((e, (c + 2) as nat))
                    } else {
                        None
                    }
                },
                None => None,
            },
            TokenV::LBracket => {
                if i + 1 < t.len() && t[i + 1] is LBracket {
                    match sp_rows(t, i + 1) {
                        Some((rows, c)) => {
                            let j = i + 1 + c;
                            if j < t.len() && t[j] is RBracket {
                                Some((ExprV::MatrixLiteral(rows), (c + 2) as nat))
                            } else {
                                None
                            }
                        },
                        None => None,
                    }
                } else {
                    match sp_elems(t, i + 1) {
                        Some((row, c)) => {
                            let j = i + 1 + c;
                            if j < t.len() && t[j] is RBracket {
                                Some((ExprV::MatrixLiteral(seq![row]), (c + 2) as nat))
                            } else {
                                None
                            }
                        },
                        None => None,
                    }
                }
            },
            _ => None,
        }
    }
}

/// The run of `* /` operations that continues `acc` from `i` on.
pub open spec fn sp_term_more(t: Seq<TokenV>, i: int, acc: ExprV) -> Option<(ExprV, nat)>
    decreases tok_measure(t, i), 4int,
{
    if 0 <= i < t.len() && (t[i] is Star || t[i] is Slash) {
        let op = if t[i] is Star {
            Op::Multiply
        } else {
            Op::Divide
        };
        match sp_factor(t, i + 1) {
            Some((r, c)) => match sp_term_more(
                t,
                i + 1 + c,
                ExprV::BinaryOp(Box::new(acc), op, Box::new(r)),
            ) {
                Some((e, c2)) => Some((e, (1 + c + c2) as nat)),
                None => None,
            },
            None => None,
        }
    } else {
        Some((acc, 0nat))
    }
}

/// The term (factor chain under `* /`) that starts at `i`.
pub open spec fn sp_term(t: Seq<TokenV>, i: int) -> Option<(ExprV, nat)>
    decreases tok_measure(t, i), 6int,
{
    if i < 0 || i >= t.len() {
        None
    } else {
        match sp_factor(t, i) {
            Some((l, c)) => match sp_term_more(t, i + c, l) {
                Some((e, c2)) => Some((e, (c + c2) as nat)),
                None => None,
            },
            None => None,
        }
    }
}

/// The run of `+ -` operations that continues `acc` from `i` on.
pub open spec fn sp_expr_more(t: Seq<TokenV>, i: int, acc: ExprV) -> Option<(ExprV, nat)>
    decreases tok_measure(t, i), 8int,
{
    if 0 <= i < t.len() && (t[i] is Plus || t[i] is Minus) {
        let op = if t[i] is Plus {
            Op::Add
        } else {
            Op::Subtract
        };
        match sp_term(t, i + 1) {
            Some((r, c)) => match sp_expr_more(
                t,
                i + 1 + c,
                ExprV::BinaryOp(Box::new(acc), op, Box::new(r)),
            ) {
                Some((e, c2)) => Some((e, (1 + c + c2) as nat)),
                None => None,
            },
            None => None,
        }
    } else {
        Some((acc, 0nat))
    }
}

/// The expression (term chain under `+ -`) that starts at `i`.
pub open spec fn sp_expr(t: Seq<TokenV>, i: int) -> Option<(ExprV, nat)>
    decreases tok_measure(t, i), 10int,
{
    if i < 0 || i >= t.len() {
        None
    } else {
        match sp_term(t, i) {
            Some((l, c)) => match sp_expr_more(t, i + c, l) {
                Some((e, c2)) => Some((e, (c + c2) as nat)),
                None => None,
            },
            None => None,
        }
    }
}

/// The comma-separated expressions from `i` up to a closing bracket, which
/// is not consumed. A trailing comma before the bracket is accepted.
pub open spec fn sp_elems(t: Seq<TokenV>, i: int) -> Option<(Seq<ExprV>, nat)>
    decreases tok_measure(t, i), 12int,
{
    if i < 0 || i >= t.len() {
        None
    } else if t[i] is RBracket {
        Some((Seq::empty(), 0nat))
    } else {
        match sp_expr(t, i) {
            Some((e, c)) => {
                let j = i + c;
                if j < t.len() && t[j] is Comma {
                    match sp_elems(t, j + 1) {
                        Some((es, c2)) => Some((seq![e] + es, (c + 1 + c2) as nat)),
                        None => None,
                    }
                } else {
                    Some((seq![e], c))
                }
            },
            None => None,
        }
    }
}

/// One bracketed row `[ e, ... ]` starting at `i`.
pub open spec fn sp_row(t: Seq<TokenV>, i: int) -> Option<(Seq<ExprV>, nat)>
    decreases tok_measure(t, i), 14int,
{
    if 0 <= i < t.len() && t[i] is LBracket {
        match sp_elems(t, i + 1) {
            Some((es, c)) => {
                let j = i + 1 + c;
                if j < t.len() && t[j] is RBracket {
                    Some((es, (c + 2) as nat))
                } else {
                    None
                }
            },
            None => None,
        }
    } else {
        None
    }
}

/// The comma-separated bracketed rows starting at `i`. A comma that is not
/// followed by another row ends the list after being consumed.
pub open spec fn sp_rows(t: Seq<TokenV>, i: int) -> Option<(Seq<Seq<ExprV>>, nat)>
    decreases tok_measure(t, i), 16int,
{
    if i < 0 || i >= t.len() {
        None
    } else {
        match sp_row(t, i) {
            Some((row, c)) => {
                let j = i + c;
                if j < t.len() && t[j] is Comma {
                    if j + 1 < t.len() && t[j + 1] is LBracket {
                        match sp_rows(t, j + 1) {
                            Some((rs, c2)) => Some((seq![row] + rs, (c + 1 + c2) as nat)),
                            None => None,
                        }
                    } else {
                        Some((seq![row], (c + 1) as nat))
                    }
                } else {
                    Some((seq![row], c))
                }
            },
            None => None,
        }
    }
}

/// The statement whose keyword stands at `i`. The count is the number of
/// tokens taken after the keyword.
pub open spec fn sp_stmt(t: Seq<TokenV>, i: int) -> Option<(StmtV, nat)>
    decreases tok_measure(t, i), 18int,
{
    if i < 0 || i >= t.len() {
        None
    } else {
        match t[i] {
            TokenV::Let => {
                if i + 1 < t.len() && t[i + 1] is Identifier && i + 2 < t.len() && t[i
                    + 2] is Assign {
                    match sp_expr(t, i + 3) {
                        Some((e, c)) => {
                            let j = i + 3 + c;
                            if j < t.len() && t[j] is SemiColon {
                                Some((StmtV::Let(t[i + 1]->Identifier_0, e), (c + 3) as nat))
                            } else {
                                None
                            }
                        },
                        None => None,
                    }
                } else {
                    None
                }
            },
            TokenV::Return => match sp_expr(t, i + 1) {
                Some((e, c)) => {
                    let j = i + 1 + c;
                    if j < t.len() && t[j] is SemiColon {
                        Some((StmtV::Return(e), (c + 1) as nat))
                    } else {
                        None
                    }
                },
                None => None,
            },
            _ => None,
        }
    }
}

/// The statements from `i` up to a closing brace or the end of the input;
/// neither ends up consumed.
pub open spec fn sp_body(t: Seq<TokenV>, i: int) -> Option<(Seq<StmtV>, nat)>
    decreases tok_measure(t, i), 20int,
{
    if i < 0 || i >= t.len() || t[i] is RBrace {
        Some((Seq::empty(), 0nat))
    } else {
        match sp_stmt(t, i) {
            Some((st, c)) => match sp_body(t, i + 1 + c) {
                Some((sts, c2)) => Some((seq![st] + sts, (1 + c + c2) as nat)),
                None => None,
            },
            None => None,
        }
    }
}

/// The function definition whose `fn` keyword stands at `i`. The count is
/// the number of tokens taken after the keyword.
pub open spec fn sp_function(t: Seq<TokenV>, i: int) -> Option<(FunctionV, nat)>
    decreases tok_measure(t, i), 22int,
{
    if 0 <= i && i + 4 < t.len() && t[i] is Fn && t[i + 1] is Identifier && t[i + 2] is LParen
        && t[i + 3] is RParen && t[i + 4] is LBrace {
        match sp_body(t, i + 5) {
            Some((body, c)) => {
                let j = i + 5 + c;
                if j < t.len() && t[j] is RBrace {
                    Some((FunctionV { name: t[i + 1]->Identifier_0, body }, (c + 5) as nat))
                } else {
                    None
                }
            },
            None => None,
        }
    } else {
        None
    }
}

/// The functions from `i` to the end of the input.
pub open spec fn sp_program(t: Seq<TokenV>, i: int) -> Option<Seq<FunctionV>>
    decreases tok_measure(t, i), 24int,
{
    if i < 0 || i >= t.len() {
        Some(Seq::empty())
    } else {
        match sp_function(t, i) {
            Some((f, c)) => match sp_program(t, i + 1 + c) {
                Some(fs) => Some(seq![f] + fs),
                None => None,
            },
            None => None,
        }
    }
}

/// The program that a token sequence parses to, if any.
pub open spec fn spec_parse_program(t: Seq<TokenV>) -> Option<ProgramV> {
    match sp_program(t, 0) {
        Some(fs) => Some(ProgramV { functions: fs }),
        None => None,
    }
}

/// The program that source bytes lex and parse to, if any.
pub open spec fn spec_compile_source_front(s: Seq<u8>) -> Option<ProgramV> {
    match spec_tokens(s, 0) {
        LexOut::Toks(toks) => spec_parse_program(toks),
        LexOut::Stuck(_) => None,
    }
}

impl Clone for Token {
    /// Cloning a token keeps its model.
    fn clone(&self) -> (r: Token)
        ensures
            r@ == self@,
    {
        match self {
            Token::Let => Token::Let,
            Token::Return => Token::Return,
            Token::Fn => Token::Fn,
            Token::Plus => Token::Plus,
            Token::Minus => Token::Minus,
            Token::Star => Token::Star,
            Token::Slash => Token::Slash,
            Token::Assign => Token::Assign,
            Token::SemiColon => Token::SemiColon,
            Token::LBracket => Token::LBracket,
            Token::RBracket => Token::RBracket,
            Token::LParen => Token::LParen,
            Token::RParen => Token::RParen,
            Token::LBrace => Token::LBrace,
            Token::RBrace => Token::RBrace,
            Token::Comma => Token::Comma,
            Token::Identifier(s) => Token::Identifier(s.clone()),
            Token::Number(s) => Token::Number(s.clone()),
        }
    }
}

impl PartialEq for Token {
    #[verifier::rlimit(60)]
    fn eq(&self, other: &Token) -> (r: bool) {
        match (self, other) {
            (Token::Let, Token::Let) => true,
            (Token::Return, Token::Return) => true,
            (Token::Fn, Token::Fn) => true,
            (Token::Plus, Token::Plus) => true,
            (Token::Minus, Token::Minus) => true,
            (Token::Star, Token::Star) => true,
            (Token::Slash, Token::Slash) => true,
            (Token::Assign, Token::Assign) => true,
            (Token::SemiColon, Token::SemiColon) => true,
            (Token::LBracket, Token::LBracket) => true,
            (Token::RBracket, Token::RBracket) => true,
            (Token::LParen, Token::LParen) => true,
            (Token::RParen, Token::RParen) => true,
            (Token::LBrace, Token::LBrace) => true,
            (Token::RBrace, Token::RBrace) => true,
            (Token::Comma, Token::Comma) => true,
            (Token::Identifier(a), Token::Identifier(b)) => *a == *b,
            (Token::Number(a), Token::Number(b)) => *a == *b,
            _ => false,
        }
    }
}

impl vstd::std_specs::cmp::PartialEqSpecImpl for Token {
    open spec fn obeys_eq_spec() -> bool {
        true
    }

    open spec fn eq_spec(&self, other: &Token) -> bool {
        match (self, other) {
            (Token::Let, Token::Let) => true,
            (Token::Return, Token::Return) => true,
            (Token::Fn, Token::Fn) => true,
            (Token::Plus, Token::Plus) => true,
            (Token::Minus, Token::Minus) => true,
            (Token::Star, Token::Star) => true,
            (Token::Slash, Token::Slash) => true,
            (Token::Assign, Token::Assign) => true,
            (Token::SemiColon, Token::SemiColon) => true,
            (Token::LBracket, Token::LBracket) => true,
            (Token::RBracket, Token::RBracket) => true,
            (Token::LParen, Token::LParen) => true,
            (Token::RParen, Token::RParen) => true,
            (Token::LBrace, Token::LBrace) => true,
            (Token::RBrace, Token::RBrace) => true,
            (Token::Comma, Token::Comma) => true,
            (Token::Identifier(a), Token::Identifier(b)) => a@ == b@,
            (Token::Number(a), Token::Number(b)) => a@ == b@,
            _ => false,
        }
    }
}

/// The parser: the token sequence and the current position.
pub struct Parser {
    tokens: Vec<Token>,
    pos: usize,
}

impl Parser {
    /// The token models still governed by the parser.
    pub closed spec fn toks(self) -> Seq<TokenV> {
        deep(self.tokens@)
    }

    /// The cursor may rest anywhere up to just past the last token.
    pub closed spec fn wf(self) -> bool {
        self.pos <= self.tokens@.len()
    }

    pub closed spec fn spec_pos(self) -> int {
        self.pos as int
    }

    /// Creates a parser over the tokens of `input`, or reports the lexical
    /// error that prevents tokenization.
    pub fn new(input: &str) -> (r: Result<Parser, ParseError>)
        ensures
            match r {
                Ok(p) => spec_tokens(input.spec_bytes(), 0) == LexOut::Toks(p.toks()) && p.wf()
                    && p.spec_pos() == 0,
                Err(_) => spec_tokens(input.spec_bytes(), 0) is Stuck,
            },
    {
        let bytes = input.as_bytes();
        match tokenize(bytes) {
            Ok(tokens) => Ok(Parser { tokens, pos: 0 }),
            Err(e) => Err(ParseError::Lex(e)),
        }
    }

    /// Peeks at the current token.
    fn peek(&self) -> (r: Option<&Token>)
        ensures
            match r {
                Some(t) => self.spec_pos() < self.toks().len() && t@ == self.toks()[self.spec_pos()],
                None => self.spec_pos() >= self.toks().len(),
            },
    {
        if self.pos < self.tokens.len() {
            Some(&self.tokens[self.pos])
        } else {
            None
        }
    }

    /// Advances to the next token and returns the one passed over.
    fn advance(&mut self) -> (r: Option<Token>)
        requires
            old(self).wf(),
        ensures
            final(self).tokens == old(self).tokens,
            final(self).wf(),
            match r {
                Some(t) => old(self).spec_pos() < old(self).toks().len() && t@ == old(
                    self,
                ).toks()[old(self).spec_pos()] && final(self).spec_pos() == old(self).spec_pos()
                    + 1,
                None => old(self).spec_pos() >= old(self).toks().len() && final(self).spec_pos()
                    == old(self).spec_pos(),
            },
    {
        if self.pos < self.tokens.len() {
            let t = self.tokens[self.pos].clone();
            self.pos = self.pos + 1;
            Some(t)
        } else {
            None
        }
    }

    /// Checks whether the current token matches and advances if so.
    fn match_token(&mut self, expected: &Token) -> (r: bool)
        requires
            old(self).wf(),
        ensures
            final(self).tokens == old(self).tokens,
            final(self).wf(),
            r == (old(self).spec_pos() < old(self).toks().len() && old(self).toks()[old(
                self,
            ).spec_pos()] == expected@),
            r ==> final(self).spec_pos() == old(self).spec_pos() + 1,
            !r ==> final(self).spec_pos() == old(self).spec_pos(),
    {
        if self.pos < self.tokens.len() {
            if self.tokens[self.pos] == *expected {
                self.pos = self.pos + 1;
                return true;
            }
        }
        false
    }

    /// Requires a specific token, reporting what was found otherwise.
    fn expect(&mut self, expected: Token) -> (r: Result<(), ParseError>)
        requires
            old(self).wf(),
        ensures
            final(self).tokens == old(self).tokens,
            final(self).wf(),
            r is Ok <==> (old(self).spec_pos() < old(self).toks().len() && old(self).toks()[old(
                self,
            ).spec_pos()] == expected@),
            r is Ok ==> final(self).spec_pos() == old(self).spec_pos() + 1,
            r is Err ==> final(self).spec_pos() == old(self).spec_pos(),
    {
        if self.match_token(&expected) {
            Ok(())
        } else {
            let found = match self.peek() {
                Some(t) => Some(t.clone()),
                None => None,
            };
            Err(ParseError::ExpectedToken(expected, found))
        }
    }
}


impl Parser {
    /// Clones the current token for an error report.
    fn found(&self) -> Option<Token> {
        match self.peek() {
            Some(t) => Some(t.clone()),
            None => None,
        }
    }

    /// Parses a factor: a number, an identifier, a parenthesized expression
    /// or a matrix literal.
    fn parse_factor(&mut self) -> (r: Result<Expr, ParseError>)
        requires
            old(self).wf(),
        ensures
            final(self).tokens == old(self).tokens,
            final(self).wf(),
            match r {
                Ok(e) => old(self).spec_pos() <= final(self).spec_pos() && sp_factor(
                    old(self).toks(),
                    old(self).spec_pos(),
                ) == Some((e@, (final(self).spec_pos() - old(self).spec_pos()) as nat)),
                Err(_) => sp_factor(old(self).toks(), old(self).spec_pos()) is None,
            },
        decreases tok_measure(old(self).toks(), old(self).spec_pos()), 2int,
    {
        match self.advance() {
            Some(Token::Number(s)) => Ok(Expr::Number(s)),
            Some(Token::Identifier(name)) => Ok(Expr::Identifier(name)),
            Some(Token::LParen) => {
                let e = match self.parse_expr() {
                    Ok(e) => e,
                    Err(err) => {
                        return Err(err);
                    },
                };
                match self.expect(Token::RParen) {
                    Ok(()) => Ok(e),
                    Err(err) => Err(err),
                }
            },
            Some(Token::LBracket) => {
                let nested = match self.peek() {
                    Some(Token::LBracket) => true,
                    _ => false,
                };
                if nested {
                    let mut rows: Vec<Vec<Expr>> = Vec::new();
                    match self.parse_rows(&mut rows) {
                        Ok(()) => {},
                        Err(err) => {
                            return Err(err);
                        },
                    }
                    proof {
                        assert(view_rows(Seq::<Vec<Expr>>::empty()) + sp_rows(
                            old(self).toks(),
                            old(self).spec_pos() + 1,
                        )->Some_0.0 =~= sp_rows(old(self).toks(), old(self).spec_pos() + 1)->Some_0.0);
                    }
                    match self.expect(Token::RBracket) {
                        Ok(()) => Ok(Expr::MatrixLiteral(rows)),
                        Err(err) => Err(err),
                    }
                } else {
                    let mut row: Vec<Expr> = Vec::new();
                    match self.parse_elems(&mut row) {
                        Ok(()) => {},
                        Err(err) => {
                            return Err(err);
                        },
                    }
                    proof {
                        assert(view_row(Seq::<Expr>::empty()) + sp_elems(
                            old(self).toks(),
                            old(self).spec_pos() + 1,
                        )->Some_0.0 =~= sp_elems(old(self).toks(), old(self).spec_pos() + 1)->Some_0.0);
                    }
                    match self.expect(Token::RBracket) {
                        Ok(()) => {
                            let mut rows: Vec<Vec<Expr>> = Vec::new();
                            rows.push(row);
                            proof {
                                lemma_view_rows_index(rows@);
                                assert(view_rows(rows@) =~= seq![view_row(row@)]);
                            }
                            Ok(Expr::MatrixLiteral(rows))
                        },
                        Err(err) => Err(err),
                    }
                }
            },
            t => Err(ParseError::ExpectedFactor(t)),
        }
    }

    /// Parses the comma-separated expressions of one row onto `es`, up to
    /// but not including the closing bracket.
    fn parse_elems(&mut self, es: &mut Vec<Expr>) -> (r: Result<(), ParseError>)
        requires
            old(self).wf(),
        ensures
            final(self).tokens == old(self).tokens,
            final(self).wf(),
            match r {
                Ok(_) => old(self).spec_pos() <= final(self).spec_pos() && sp_elems(
                    old(self).toks(),
                    old(self).spec_pos(),
                ) is Some && view_row(final(es)@) == view_row(old(es)@) + sp_elems(
                    old(self).toks(),
                    old(self).spec_pos(),
                )->Some_0.0 && sp_elems(old(self).toks(), old(self).spec_pos())->Some_0.1 == (
                final(self).spec_pos() - old(self).spec_pos()) as nat,
                Err(_) => sp_elems(old(self).toks(), old(self).spec_pos()) is None,
            },
        decreases tok_measure(old(self).toks(), old(self).spec_pos()), 12int,
    {
        let done = match self.peek() {
            Some(Token::RBracket) => true,
            _ => false,
        };
        if done {
            proof {
                assert(view_row(es@) + Seq::<ExprV>::empty() =~= view_row(es@));
            }
            return Ok(());
        }
        let ghost es0 = es@;
        let e = match self.parse_expr() {
            Ok(e) => e,
            Err(err) => {
                return Err(err);
            },
        };
        es.push(e);
        proof {
            lemma_view_row_index(es0);
            lemma_view_row_index(es@);
            assert(view_row(es@) =~= view_row(es0).push(e@));
        }
        if self.match_token(&Token::Comma) {
            let ghost es1 = es@;
            match self.parse_elems(es) {
                Ok(()) => {
                    proof {
                        let tail = sp_elems(old(self).toks(), self.spec_pos())->Some_0.0;
                        assert(view_row(es0) + (seq![e@] + tail) =~= (view_row(es0).push(e@))
                            + tail);
                    }
                    Ok(())
                },
                Err(err) => Err(err),
            }
        } else {
            proof {
                assert(view_row(es0) + seq![e@] =~= view_row(es0).push(e@));
            }
            Ok(())
        }
    }

    /// Parses one bracketed row `[ e, ... ]` onto a fresh vector.
    fn parse_row(&mut self) -> (r: Result<Vec<Expr>, ParseError>)
        requires
            old(self).wf(),
        ensures
            final(self).tokens == old(self).tokens,
            final(self).wf(),
            match r {
                Ok(es) => old(self).spec_pos() <= final(self).spec_pos() && sp_row(
                    old(self).toks(),
                    old(self).spec_pos(),
                ) == Some((view_row(es@), (final(self).spec_pos() - old(self).spec_pos()) as nat)),
                Err(_) => sp_row(old(self).toks(), old(self).spec_pos()) is None,
            },
        decreases tok_measure(old(self).toks(), old(self).spec_pos()), 14int,
    {
        match self.expect(Token::LBracket) {
            Ok(()) => {},
            Err(err) => {
                return Err(err);
            },
        }
        let mut es: Vec<Expr> = Vec::new();
        match self.parse_elems(&mut es) {
            Ok(()) => {},
            Err(err) => {
                return Err(err);
            },
        }
        proof {
            assert(view_row(Seq::<Expr>::empty()) + sp_elems(
                old(self).toks(),
                old(self).spec_pos() + 1,
            )->Some_0.0 =~= sp_elems(old(self).toks(), old(self).spec_pos() + 1)->Some_0.0);
        }
        match self.expect(Token::RBracket) {
            Ok(()) => Ok(es),
            Err(err) => Err(err),
        }
    }

    /// Parses the remaining bracketed rows of a nested matrix literal onto
    /// `rows`. The next token is the `[` of the first remaining row.
    fn parse_rows(&mut self, rows: &mut Vec<Vec<Expr>>) -> (r: Result<(), ParseError>)
        requires
            old(self).wf(),
        ensures
            final(self).tokens == old(self).tokens,
            final(self).wf(),
            match r {
                Ok(_) => old(self).spec_pos() <= final(self).spec_pos() && sp_rows(
                    old(self).toks(),
                    old(self).spec_pos(),
                ) is Some && view_rows(final(rows)@) == view_rows(old(rows)@) + sp_rows(
                    old(self).toks(),
                    old(self).spec_pos(),
                )->Some_0.0 && sp_rows(old(self).toks(), old(self).spec_pos())->Some_0.1 == (
                final(self).spec_pos() - old(self).spec_pos()) as nat,
                Err(_) => sp_rows(old(self).toks(), old(self).spec_pos()) is None,
            },
        decreases tok_measure(old(self).toks(), old(self).spec_pos()), 16int,
    {
        let ghost rows0 = rows@;
        let row = match self.parse_row() {
            Ok(row) => row,
            Err(err) => {
                return Err(err);
            },
        };
        rows.push(row);
        proof {
            lemma_view_rows_index(rows0);
            lemma_view_rows_index(rows@);
            assert(view_rows(rows@) =~= view_rows(rows0).push(view_row(row@)));
        }
        if self.match_token(&Token::Comma) {
            let more = match self.peek() {
                Some(Token::LBracket) => true,
                _ => false,
            };
            if more {
                match self.parse_rows(rows) {
                    Ok(()) => {
                        proof {
                            let tail = sp_rows(old(self).toks(), self.spec_pos())->Some_0.0;
                            assert(view_rows(rows0) + (seq![view_row(row@)] + tail) =~= (view_rows(
                                rows0,
                            ).push(view_row(row@))) + tail);
                        }
                        Ok(())
                    },
                    Err(err) => Err(err),
                }
            } else {
                proof {
                    assert(view_rows(rows0) + seq![view_row(row@)] =~= view_rows(rows0).push(
                        view_row(row@),
                    ));
                }
                Ok(())
            }
        } else {
            proof {
                assert(view_rows(rows0) + seq![view_row(row@)] =~= view_rows(rows0).push(
                    view_row(row@),
                ));
            }
            Ok(())
        }
    }

    /// Parses the `* /` continuation of `left`.
    fn parse_term_more(&mut self, left: Expr) -> (r: Result<Expr, ParseError>)
        requires
            old(self).wf(),
        ensures
            final(self).tokens == old(self).tokens,
            final(self).wf(),
            match r {
                Ok(e) => old(self).spec_pos() <= final(self).spec_pos() && sp_term_more(
                    old(self).toks(),
                    old(self).spec_pos(),
                    left@,
                ) == Some((e@, (final(self).spec_pos() - old(self).spec_pos()) as nat)),
                Err(_) => sp_term_more(old(self).toks(), old(self).spec_pos(), left@) is None,
            },
        decreases tok_measure(old(self).toks(), old(self).spec_pos()), 4int,
    {
        let op = match self.peek() {
            Some(Token::Star) => Op::Multiply,
            Some(Token::Slash) => Op::Divide,
            _ => {
                return Ok(left);
            },
        };
        self.advance();
        let right = match self.parse_factor() {
            Ok(e) => e,
            Err(err) => {
                return Err(err);
            },
        };
        let combined = Expr::BinaryOp(Box::new(left), op, Box::new(right));
        self.parse_term_more(combined)
    }

    /// Parses a term: factors under `*` and `/`.
    fn parse_term(&mut self) -> (r: Result<Expr, ParseError>)
        requires
            old(self).wf(),
        ensures
            final(self).tokens == old(self).tokens,
            final(self).wf(),
            match r {
                Ok(e) => old(self).spec_pos() <= final(self).spec_pos() && sp_term(
                    old(self).toks(),
                    old(self).spec_pos(),
                ) == Some((e@, (final(self).spec_pos() - old(self).spec_pos()) as nat)),
                Err(_) => sp_term(old(self).toks(), old(self).spec_pos()) is None,
            },
        decreases tok_measure(old(self).toks(), old(self).spec_pos()), 6int,
    {
        if self.pos >= self.tokens.len() {
            return Err(ParseError::ExpectedFactor(None));
        }
        let left = match self.parse_factor() {
            Ok(e) => e,
            Err(err) => {
                return Err(err);
            },
        };
        self.parse_term_more(left)
    }

    /// Parses the `+ -` continuation of `left`.
    fn parse_expr_more(&mut self, left: Expr) -> (r: Result<Expr, ParseError>)
        requires
            old(self).wf(),
        ensures
            final(self).tokens == old(self).tokens,
            final(self).wf(),
            match r {
                Ok(e) => old(self).spec_pos() <= final(self).spec_pos() && sp_expr_more(
                    old(self).toks(),
                    old(self).spec_pos(),
                    left@,
                ) == Some((e@, (final(self).spec_pos() - old(self).spec_pos()) as nat)),
                Err(_) => sp_expr_more(old(self).toks(), old(self).spec_pos(), left@) is None,
            },
        decreases tok_measure(old(self).toks(), old(self).spec_pos()), 8int,
    {
        let op = match self.peek() {
            Some(Token::Plus) => Op::Add,
            Some(Token::Minus) => Op::Subtract,
            _ => {
                return Ok(left);
            },
        };
        self.advance();
        let right = match self.parse_term() {
            Ok(e) => e,
            Err(err) => {
                return Err(err);
            },
        };
        let combined = Expr::BinaryOp(Box::new(left), op, Box::new(right));
        self.parse_expr_more(combined)
    }

    /// Parses an expression: terms under `+` and `-`.
    fn parse_expr(&mut self) -> (r: Result<Expr, ParseError>)
        requires
            old(self).wf(),
        ensures
            final(self).tokens == old(self).tokens,
            final(self).wf(),
            match r {
                Ok(e) => old(self).spec_pos() <= final(self).spec_pos() && sp_expr(
                    old(self).toks(),
                    old(self).spec_pos(),
                ) == Some((e@, (final(self).spec_pos() - old(self).spec_pos()) as nat)),
                Err(_) => sp_expr(old(self).toks(), old(self).spec_pos()) is None,
            },
        decreases tok_measure(old(self).toks(), old(self).spec_pos()), 10int,
    {
        if self.pos >= self.tokens.len() {
            return Err(ParseError::ExpectedFactor(None));
        }
        let left = match self.parse_term() {
            Ok(e) => e,
            Err(err) => {
                return Err(err);
            },
        };
        self.parse_expr_more(left)
    }

    /// Parses a statement: a `let` binding or a `return`.
    fn parse_stmt(&mut self) -> (r: Result<Stmt, ParseError>)
        requires
            old(self).wf(),
        ensures
            final(self).tokens == old(self).tokens,
            final(self).wf(),
            match r {
                Ok(st) => old(self).spec_pos() < final(self).spec_pos() && sp_stmt(
                    old(self).toks(),
                    old(self).spec_pos(),
                ) == Some((st@, (final(self).spec_pos() - old(self).spec_pos() - 1) as nat)),
                Err(_) => sp_stmt(old(self).toks(), old(self).spec_pos()) is None,
            },
    {
        let keyword = match self.peek() {
            Some(Token::Let) => true,
            Some(Token::Return) => false,
            _ => {
                return Err(ParseError::ExpectedStatement(self.found()));
            },
        };
        self.advance();
        if keyword {
            let name = match self.advance() {
                Some(Token::Identifier(n)) => n,
                t => {
                    return Err(ParseError::ExpectedVariableName(t));
                },
            };
            match self.expect(Token::Assign) {
                Ok(()) => {},
                Err(err) => {
                    return Err(err);
                },
            }
            let e = match self.parse_expr() {
                Ok(e) => e,
                Err(err) => {
                    return Err(err);
                },
            };
            match self.expect(Token::SemiColon) {
                Ok(()) => Ok(Stmt::Let(name, e)),
                Err(err) => Err(err),
            }
        } else {
            let e = match self.parse_expr() {
                Ok(e) => e,
                Err(err) => {
                    return Err(err);
                },
            };
            match self.expect(Token::SemiColon) {
                Ok(()) => Ok(Stmt::Return(e)),
                Err(err) => Err(err),
            }
        }
    }

    /// Parses the statements of a function body onto `body`, up to but not
    /// including the closing brace.
    #[verifier::rlimit(100)]
    #[verifier::spinoff_prover]
    fn parse_body(&mut self, body: &mut Vec<Stmt>) -> (r: Result<(), ParseError>)
        requires
            old(self).wf(),
        ensures
            final(self).tokens == old(self).tokens,
            final(self).wf(),
            match r {
                Ok(_) => old(self).spec_pos() <= final(self).spec_pos() && sp_body(
                    old(self).toks(),
                    old(self).spec_pos(),
                ) is Some && final(body)@.map_values(|st: Stmt| st@) == old(body)@.map_values(
                    |st: Stmt| st@,
                ) + sp_body(old(self).toks(), old(self).spec_pos())->Some_0.0 && sp_body(
                    old(self).toks(),
                    old(self).spec_pos(),
                )->Some_0.1 == (final(self).spec_pos() - old(self).spec_pos()) as nat,
                Err(_) => sp_body(old(self).toks(), old(self).spec_pos()) is None,
            },
        decreases tok_measure(old(self).toks(), old(self).spec_pos()), 20int,
    {
        let done = match self.peek() {
            Some(Token::RBrace) => true,
            None => true,
            _ => false,
        };
        if done {
            proof {
                assert(body@.map_values(|st: Stmt| st@) + Seq::<StmtV>::empty() =~= body@.map_values(
                    |st: Stmt| st@,
                ));
            }
            return Ok(());
        }
        let ghost b0 = body@;
        let st = match self.parse_stmt() {
            Ok(st) => st,
            Err(err) => {
                return Err(err);
            },
        };
        body.push(st);
        proof {
            assert(body@.map_values(|s2: Stmt| s2@) =~= b0.map_values(|s2: Stmt| s2@).push(st@));
        }
        match self.parse_body(body) {
            Ok(()) => {
                proof {
                    let tail = sp_body(old(self).toks(), self.spec_pos())->Some_0.0;
                    assert(b0.map_values(|s2: Stmt| s2@) + (seq![st@] + tail) =~= (b0.map_values(
                        |s2: Stmt| s2@,
                    ).push(st@)) + tail);
                }
                Ok(())
            },
            Err(err) => Err(err),
        }
    }

    /// Parses a function definition `fn name() { ... }`.
    fn parse_function(&mut self) -> (r: Result<Function, ParseError>)
        requires
            old(self).wf(),
        ensures
            final(self).tokens == old(self).tokens,
            final(self).wf(),
            match r {
                Ok(f) => old(self).spec_pos() < final(self).spec_pos() && sp_function(
                    old(self).toks(),
                    old(self).spec_pos(),
                ) == Some((f@, (final(self).spec_pos() - old(self).spec_pos() - 1) as nat)),
                Err(_) => sp_function(old(self).toks(), old(self).spec_pos()) is None,
            },
        decreases tok_measure(old(self).toks(), old(self).spec_pos()), 22int,
    {
        match self.expect(Token::Fn) {
            Ok(()) => {},
            Err(err) => {
                return Err(err);
            },
        }
        let name = match self.advance() {
            Some(Token::Identifier(n)) => n,
            t => {
                return Err(ParseError::ExpectedFunctionName(t));
            },
        };
        match self.expect(Token::LParen) {
            Ok(()) => {},
            Err(err) => {
                return Err(err);
            },
        }
        match self.expect(Token::RParen) {
            Ok(()) => {},
            Err(err) => {
                return Err(err);
            },
        }
        match self.expect(Token::LBrace) {
            Ok(()) => {},
            Err(err) => {
                return Err(err);
            },
        }
        let mut body: Vec<Stmt> = Vec::new();
        match self.parse_body(&mut body) {
            Ok(()) => {},
            Err(err) => {
                return Err(err);
            },
        }
        proof {
            assert(Seq::<StmtV>::empty() + sp_body(
                old(self).toks(),
                old(self).spec_pos() + 5,
            )->Some_0.0 =~= sp_body(old(self).toks(), old(self).spec_pos() + 5)->Some_0.0);
        }
        match self.expect(Token::RBrace) {
            Ok(()) => Ok(Function { name, body }),
            Err(err) => Err(err),
        }
    }

    /// Parses the remaining function definitions onto `fs`.
    #[verifier::rlimit(100)]
    #[verifier::spinoff_prover]
    fn parse_functions(&mut self, fs: &mut Vec<Function>) -> (r: Result<(), ParseError>)
        requires
            old(self).wf(),
        ensures
            final(self).tokens == old(self).tokens,
            final(self).wf(),
            match r {
                Ok(_) => sp_program(old(self).toks(), old(self).spec_pos()) is Some && final(
                    fs
                )@.map_values(|f: Function| f@) == old(fs)@.map_values(|f: Function| f@)
                    + sp_program(old(self).toks(), old(self).spec_pos())->Some_0,
                Err(_) => sp_program(old(self).toks(), old(self).spec_pos()) is None,
            },
        decreases tok_measure(old(self).toks(), old(self).spec_pos()), 24int,
    {
        let done = match self.peek() {
            None => true,
            _ => false,
        };
        if done {
            proof {
                assert(fs@.map_values(|f: Function| f@) + Seq::<FunctionV>::empty()
                    =~= fs@.map_values(|f: Function| f@));
            }
            return Ok(());
        }
        let ghost fs0 = fs@;
        let f = match self.parse_function() {
            Ok(f) => f,
            Err(err) => {
                return Err(err);
            },
        };
        fs.push(f);
        proof {
            assert(fs@.map_values(|f2: Function| f2@) =~= fs0.map_values(|f2: Function| f2@).push(
                f@,
            ));
        }
        match self.parse_functions(fs) {
            Ok(()) => {
                proof {
                    let tail = sp_program(old(self).toks(), self.spec_pos())->Some_0;
                    assert(fs0.map_values(|f2: Function| f2@) + (seq![f@] + tail) =~= (
                    fs0.map_values(|f2: Function| f2@).push(f@)) + tail);
                }
                Ok(())
            },
            Err(err) => Err(err),
        }
    }

    /// Parses the entire program: functions until the input ends.
    pub fn parse_program(&mut self) -> (r: Result<Program, ParseError>)
        requires
            old(self).wf(),
        ensures
            final(self).toks() == old(self).toks(),
            final(self).wf(),
            match r {
                Ok(p) => sp_program(old(self).toks(), old(self).spec_pos()) == Some(p@.functions),
                Err(_) => sp_program(old(self).toks(), old(self).spec_pos()) is None,
            },
    {
        let mut functions: Vec<Function> = Vec::new();
        match self.parse_functions(&mut functions) {
            Ok(()) => {
                proof {
                    assert(Seq::<FunctionV>::empty() + sp_program(
                        old(self).toks(),
                        old(self).spec_pos(),
                    )->Some_0 =~= sp_program(old(self).toks(), old(self).spec_pos())->Some_0);
                }
                Ok(Program { functions })
            },
            Err(err) => Err(err),
        }
    }
}

} // verus!
