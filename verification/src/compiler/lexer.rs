use vstd::prelude::*;

verus! {

/// A token of the MatrixScript language.
///
/// A numeric literal keeps its source text; it is converted to a native
/// double only by the execution backend.
#[derive(Debug)]
pub enum Token {
    /// The `let` keyword.
    Let,
    /// The `return` keyword.
    Return,
    /// The `fn` keyword.
    Fn,
    /// The `+` operator.
    Plus,
    /// The `-` operator.
    Minus,
    /// The `*` operator.
    Star,
    /// The `/` operator.
    Slash,
    /// The `=` assignment operator.
    Assign,
    /// The `;` statement terminator.
    SemiColon,
    /// The `[` symbol.
    LBracket,
    /// The `]` symbol.
    RBracket,
    /// The `(` symbol.
    LParen,
    /// The `)` symbol.
    RParen,
    /// The `{` symbol.
    LBrace,
    /// The `}` symbol.
    RBrace,
    /// The `,` symbol.
    Comma,
    /// An identifier.
    Identifier(String),
    /// A numeric literal, by its source text.
    Number(String),
}

/// The mathematical model of a token.
#[verifier::ext_equal]
pub enum TokenV {
    Let,
    Return,
    Fn,
    Plus,
    Minus,
    Star,
    Slash,
    Assign,
    SemiColon,
    LBracket,
    RBracket,
    LParen,
    RParen,
    LBrace,
    RBrace,
    Comma,
    Identifier(Seq<char>),
    Number(Seq<char>),
}

impl View for Token {
    type V = TokenV;

    open spec fn view(&self) -> TokenV {
        match self {
            Token::Let => TokenV::Let,
            Token::Return => TokenV::Return,
            Token::Fn => TokenV::Fn,
            Token::Plus => TokenV::Plus,
            Token::Minus => TokenV::Minus,
            Token::Star => TokenV::Star,
            Token::Slash => TokenV::Slash,
            Token::Assign => TokenV::Assign,
            Token::SemiColon => TokenV::SemiColon,
            Token::LBracket => TokenV::LBracket,
            Token::RBracket => TokenV::RBracket,
            Token::LParen => TokenV::LParen,
            Token::RParen => TokenV::RParen,
            Token::LBrace => TokenV::LBrace,
            Token::RBrace => TokenV::RBrace,
            Token::Comma => TokenV::Comma,
            Token::Identifier(s) => TokenV::Identifier(s@),
            Token::Number(s) => TokenV::Number(s@),
        }
    }
}

/// A lexical error: the byte offset of the first unrecognized character.
#[derive(Debug, Clone, Copy, PartialEq, Eq, Structural)]
pub struct LexError {
    pub pos: usize,
}

/// Whitespace skipped by the lexer: space, tab, newline, form feed.
pub open spec fn is_space(b: u8) -> bool {
    b == 32 || b == 9 || b == 10 || b == 12
}

/// An ASCII decimal digit.
pub open spec fn is_digit(b: u8) -> bool {
    48 <= b <= 57
}

/// A byte that may start an identifier: a letter or an underscore.
pub open spec fn is_ident_start(b: u8) -> bool {
    (65 <= b <= 90) || (97 <= b <= 122) || b == 95
}

/// A byte that may continue an identifier.
pub open spec fn is_ident_cont(b: u8) -> bool {
    is_ident_start(b) || is_digit(b)
}

/// The end of the digit run that starts at `i`.
pub open spec fn digits_end(s: Seq<u8>, i: int) -> int
    decreases s.len() - i,
{
    if i < s.len() && is_digit(s[i]) {
        digits_end(s, i + 1)
    } else {
        i
    }
}

/// The end of the identifier run that starts at `i`.
pub open spec fn ident_end(s: Seq<u8>, i: int) -> int
    decreases s.len() - i,
{
    if i < s.len() && is_ident_cont(s[i]) {
        ident_end(s, i + 1)
    } else {
        i
    }
}

/// The end of the numeric literal that starts at `i` (a digit): digits,
/// optionally followed by a point and at least one more digit.
pub open spec fn number_end(s: Seq<u8>, i: int) -> int {
    let d = digits_end(s, i);
    if d + 1 < s.len() && s[d] == 46 && is_digit(s[d + 1]) {
        digits_end(s, d + 2)
    } else {
        d
    }
}

/// The characters that a run of ASCII bytes stands for.
pub open spec fn chars_of(s: Seq<u8>) -> Seq<char> {
    s.map_values(|b: u8| b as char)
}

pub open spec fn let_bytes() -> Seq<u8> {
    seq![108u8, 101u8, 116u8]
}

pub open spec fn return_bytes() -> Seq<u8> {
    seq![114u8, 101u8, 116u8, 117u8, 114u8, 110u8]
}

pub open spec fn fn_bytes() -> Seq<u8> {
    seq![102u8, 110u8]
}

/// The token that a word (an identifier-shaped run of bytes) stands for:
/// a keyword where it is one, an identifier otherwise.
pub open spec fn word_token(w: Seq<u8>) -> TokenV {
    if w == let_bytes() {
        TokenV::Let
    } else if w == return_bytes() {
        TokenV::Return
    } else if w == fn_bytes() {
        TokenV::Fn
    } else {
        TokenV::Identifier(chars_of(w))
    }
}

/// The token that a single punctuation byte stands for, if any.
pub open spec fn punct_token(b: u8) -> Option<TokenV> {
    if b == 43 {
        Some(TokenV::Plus)
    } else if b == 45 {
        Some(TokenV::Minus)
    } else if b == 42 {
        Some(TokenV::Star)
    } else if b == 47 {
        Some(TokenV::Slash)
    } else if b == 61 {
        Some(TokenV::Assign)
    } else if b == 59 {
        Some(TokenV::SemiColon)
    } else if b == 91 {
        Some(TokenV::LBracket)
    } else if b == 93 {
        Some(TokenV::RBracket)
    } else if b == 40 {
        Some(TokenV::LParen)
    } else if b == 41 {
        Some(TokenV::RParen)
    } else if b == 123 {
        Some(TokenV::LBrace)
    } else if b == 125 {
        Some(TokenV::RBrace)
    } else if b == 44 {
        Some(TokenV::Comma)
    } else {
        None
    }
}

/// The outcome of lexing: the token sequence, or the offset of the first
/// unrecognized character.
#[verifier::ext_equal]
pub enum LexOut {
    Toks(Seq<TokenV>),
    Stuck(int),
}

/// `digits_end` stays between its start and the end of the input.
pub proof fn lemma_digits_end_bounds(s: Seq<u8>, i: int)
    requires
        i <= s.len(),
    ensures
        i <= digits_end(s, i) <= s.len(),
    decreases s.len() - i,
{
    if i < s.len() && is_digit(s[i]) {
        lemma_digits_end_bounds(s, i + 1);
    }
}

/// `ident_end` stays between its start and the end of the input.
pub proof fn lemma_ident_end_bounds(s: Seq<u8>, i: int)
    requires
        i <= s.len(),
    ensures
        i <= ident_end(s, i) <= s.len(),
    decreases s.len() - i,
{
    if i < s.len() && is_ident_cont(s[i]) {
        lemma_ident_end_bounds(s, i + 1);
    }
}

/// Every byte before `ident_end` continues an identifier.
pub proof fn lemma_ident_end_chars(s: Seq<u8>, i: int)
    ensures
        forall|m: int| i <= m < ident_end(s, i) ==> is_ident_cont(#[trigger] s[m]),
    decreases s.len() - i,
{
    if i < s.len() && is_ident_cont(s[i]) {
        lemma_ident_end_chars(s, i + 1);
        lemma_ident_end_bounds(s, i + 1);
    }
}

/// Every byte before `digits_end` is a digit.
pub proof fn lemma_digits_end_chars(s: Seq<u8>, i: int)
    ensures
        forall|m: int| i <= m < digits_end(s, i) ==> is_digit(#[trigger] s[m]),
    decreases s.len() - i,
{
    if i < s.len() && is_digit(s[i]) {
        lemma_digits_end_chars(s, i + 1);
        lemma_digits_end_bounds(s, i + 1);
    }
}

/// `number_end` moves strictly forward from a digit and stays in the input.
pub proof fn lemma_number_end_bounds(s: Seq<u8>, i: int)
    requires
        0 <= i < s.len(),
        is_digit(s[i]),
    ensures
        i < number_end(s, i) <= s.len(),
{
    lemma_digits_end_bounds(s, i + 1);
    let d = digits_end(s, i);
    if d + 1 < s.len() && s[d] == 46 && is_digit(s[d + 1]) {
        lemma_digits_end_bounds(s, d + 2);
    }
}

/// The tokens of `s` from offset `i` on, or where lexing gets stuck.
pub open spec fn spec_tokens(s: Seq<u8>, i: int) -> LexOut
    decreases s.len() - i,
{
    if i < 0 || i >= s.len() {
        LexOut::Toks(Seq::empty())
    } else if is_space(s[i]) {
        spec_tokens(s, i + 1)
    } else if punct_token(s[i]) is Some {
        match spec_tokens(s, i + 1) {
            LexOut::Toks(rest) => LexOut::Toks(seq![punct_token(s[i])->Some_0] + rest),
            LexOut::Stuck(p) => LexOut::Stuck(p),
        }
    } else if is_ident_start(s[i]) {
        let j = ident_end(s, i + 1);
        proof {
            lemma_ident_end_bounds(s, i + 1);
        }
        match spec_tokens(s, j) {
            LexOut::Toks(rest) => LexOut::Toks(seq![word_token(s.subrange(i, j))] + rest),
            LexOut::Stuck(p) => LexOut::Stuck(p),
        }
    } else if is_digit(s[i]) {
        let j = number_end(s, i);
        proof {
            lemma_number_end_bounds(s, i);
        }
        match spec_tokens(s, j) {
            LexOut::Toks(rest) => LexOut::Toks(
                seq![TokenV::Number(chars_of(s.subrange(i, j)))] + rest,
            ),
            LexOut::Stuck(p) => LexOut::Stuck(p),
        }
    } else {
        LexOut::Stuck(i)
    }
}

/// Relies on `String::from_utf8`: a buffer of bytes below 128 decodes to the
/// string of exactly those characters.
#[verifier::external_body]
fn ascii_string(bytes: Vec<u8>) -> (r: String)
    requires
        forall|i: int| 0 <= i < bytes@.len() ==> bytes@[i] < 128,
    ensures
        r@ == chars_of(bytes@),
{
    String::from_utf8(bytes).unwrap_or_default()
}

/// Maps a punctuation byte to its token.
fn punct(b: u8) -> (t: Option<Token>)
    ensures
        match t {
            Some(tok) => punct_token(b) == Some(tok@),
            None => punct_token(b) is None,
        },
{
    if b == 43 {
        Some(Token::Plus)
    } else if b == 45 {
        Some(Token::Minus)
    } else if b == 42 {
        Some(Token::Star)
    } else if b == 47 {
        Some(Token::Slash)
    } else if b == 61 {
        Some(Token::Assign)
    } else if b == 59 {
        Some(Token::SemiColon)
    } else if b == 91 {
        Some(Token::LBracket)
    } else if b == 93 {
        Some(Token::RBracket)
    } else if b == 40 {
        Some(Token::LParen)
    } else if b == 41 {
        Some(Token::RParen)
    } else if b == 123 {
        Some(Token::LBrace)
    } else if b == 125 {
        Some(Token::RBrace)
    } else if b == 44 {
        Some(Token::Comma)
    } else {
        None
    }
}

/// True of a byte that may continue an identifier.
fn ident_cont(b: u8) -> (r: bool)
    ensures
        r == is_ident_cont(b),
{
    (65 <= b && b <= 90) || (97 <= b && b <= 122) || b == 95 || (48 <= b && b <= 57)
}

/// True of an ASCII digit byte.
fn digit(b: u8) -> (r: bool)
    ensures
        r == is_digit(b),
{
    48 <= b && b <= 57
}

/// The sequence of token models behind a token vector.
pub open spec fn deep(ts: Seq<Token>) -> Seq<TokenV> {
    ts.map_values(|t: Token| t@)
}

/// Scans a run of identifier bytes starting at `j`, appending them to `buf`.
fn scan_ident(s: &[u8], buf: &mut Vec<u8>, j: usize) -> (r: usize)
    requires
        j <= s@.len(),
    ensures
        r as int == ident_end(s@, j as int),
        final(buf)@ == old(buf)@ + s@.subrange(j as int, r as int),
{
    let mut k = j;
    let ghost b0 = buf@;
    while k < s.len() && ident_cont(s[k])
        invariant
            j <= k <= s@.len(),
            ident_end(s@, j as int) == ident_end(s@, k as int),
            buf@ == b0 + s@.subrange(j as int, k as int),
        decreases s@.len() - k,
    {
        buf.push(s[k]);
        proof {
            assert(b0 + s@.subrange(j as int, k + 1 as int) =~= (b0 + s@.subrange(
                j as int,
                k as int,
            )).push(s@[k as int]));
        }
        k = k + 1;
    }
    k
}

/// Scans a run of digit bytes starting at `j`, appending them to `buf`.
fn scan_digits(s: &[u8], buf: &mut Vec<u8>, j: usize) -> (r: usize)
    requires
        j <= s@.len(),
    ensures
        r as int == digits_end(s@, j as int),
        final(buf)@ == old(buf)@ + s@.subrange(j as int, r as int),
{
    let mut k = j;
    let ghost b0 = buf@;
    while k < s.len() && digit(s[k])
        invariant
            j <= k <= s@.len(),
            digits_end(s@, j as int) == digits_end(s@, k as int),
            buf@ == b0 + s@.subrange(j as int, k as int),
        decreases s@.len() - k,
    {
        buf.push(s[k]);
        proof {
            assert(b0 + s@.subrange(j as int, k + 1 as int) =~= (b0 + s@.subrange(
                j as int,
                k as int,
            )).push(s@[k as int]));
        }
        k = k + 1;
    }
    k
}

/// Turns a scanned word into a keyword token or an identifier.
fn word(buf: Vec<u8>) -> (t: Token)
    requires
        forall|k: int| 0 <= k < buf@.len() ==> is_ident_cont(#[trigger] buf@[k]),
    ensures
        t@ == word_token(buf@),
{
    if buf.len() == 3 && buf[0] == 108 && buf[1] == 101 && buf[2] == 116 {
        proof {
            assert(buf@ =~= let_bytes());
        }
        Token::Let
    } else if buf.len() == 6 && buf[0] == 114 && buf[1] == 101 && buf[2] == 116 && buf[3] == 117
        && buf[4] == 114 && buf[5] == 110 {
        proof {
            assert(buf@ =~= return_bytes());
        }
        Token::Return
    } else if buf.len() == 2 && buf[0] == 102 && buf[1] == 110 {
        proof {
            assert(buf@ =~= fn_bytes());
        }
        Token::Fn
    } else {
        proof {
            assert(buf@ != let_bytes());
            assert(buf@ != return_bytes());
            assert(buf@ != fn_bytes());
            assert(forall|k: int| 0 <= k < buf@.len() ==> buf@[k] < 128);
        }
        Token::Identifier(ascii_string(buf))
    }
}

/// Converts source bytes into the token sequence, or reports the offset of
/// the first unrecognized character.
pub fn tokenize(s: &[u8]) -> (r: Result<Vec<Token>, LexError>)
    ensures
        match r {
            Ok(toks) => spec_tokens(s@, 0) == LexOut::Toks(deep(toks@)),
            Err(e) => spec_tokens(s@, 0) == LexOut::Stuck(e.pos as int),
        },
{
    let ghost sv = s@;
    let mut toks: Vec<Token> = Vec::new();
    let mut i: usize = 0;
    while i < s.len()
        invariant
            i <= sv.len(),
            sv == s@,
            match spec_tokens(sv, i as int) {
                LexOut::Toks(rest) => spec_tokens(sv, 0) == LexOut::Toks(deep(toks@) + rest),
                LexOut::Stuck(p) => spec_tokens(sv, 0) == LexOut::Stuck(p),
            },
        decreases sv.len() - i,
    {
        let b = s[i];
        if b == 32 || b == 9 || b == 10 || b == 12 {
            i = i + 1;
        } else {
            let p = punct(b);
            if let Some(tok) = p {
                let ghost prev = toks@;
                toks.push(tok);
                proof {
                    assert(deep(toks@) =~= deep(prev).push(tok@));
                    if spec_tokens(sv, i + 1) is Toks {
                        let rest = spec_tokens(sv, i + 1)->Toks_0;
                        assert(deep(prev) + (seq![tok@] + rest) =~= deep(toks@) + rest);
                    }
                }
                i = i + 1;
            } else if (65 <= b && b <= 90) || (97 <= b && b <= 122) || b == 95 {
                let ghost start = i as int;
                let mut buf: Vec<u8> = Vec::new();
                buf.push(b);
                let j = scan_ident(s, &mut buf, i + 1);
                proof {
                    lemma_ident_end_bounds(sv, start + 1);
                    lemma_ident_end_chars(sv, start + 1);
                    assert(buf@ =~= sv.subrange(start, j as int));
                    assert(forall|k: int|
                        0 <= k < buf@.len() ==> is_ident_cont(#[trigger] buf@[k]));
                }
                let tok = word(buf);
                let ghost prev = toks@;
                toks.push(tok);
                proof {
                    assert(deep(toks@) =~= deep(prev).push(tok@));
                    if spec_tokens(sv, j as int) is Toks {
                        let rest = spec_tokens(sv, j as int)->Toks_0;
                        assert(deep(prev) + (seq![tok@] + rest) =~= deep(toks@) + rest);
                    }
                }
                i = j;
            } else if 48 <= b && b <= 57 {
                let ghost start = i as int;
                let mut buf: Vec<u8> = Vec::new();
                buf.push(b);
                let d = scan_digits(s, &mut buf, i + 1);
                proof {
                    lemma_digits_end_bounds(sv, start + 1);
                    lemma_digits_end_chars(sv, start + 1);
                    assert(digits_end(sv, start) == digits_end(sv, start + 1));
                    assert(d as int == digits_end(sv, start));
                    assert(buf@ =~= sv.subrange(start, d as int));
                }
                let mut j = d;
                if d < s.len() && d + 1 < s.len() && s[d] == 46 && digit(s[d + 1]) {
                    buf.push(46);
                    buf.push(s[d + 1]);
                    proof {
                        assert(buf@ =~= sv.subrange(start, d + 2 as int));
                    }
                    j = scan_digits(s, &mut buf, d + 2);
                    proof {
                        lemma_digits_end_bounds(sv, d + 2);
                        lemma_digits_end_chars(sv, d + 2);
                        assert(buf@ =~= sv.subrange(start, j as int));
                        assert(j as int == number_end(sv, start));
                    }
                } else {
                    proof {
                        assert(buf@ =~= sv.subrange(start, j as int));
                        assert(j as int == number_end(sv, start));
                    }
                }
                proof {
                    assert(forall|k: int| 0 <= k < buf@.len() ==> buf@[k] < 128);
                }
                let tok = Token::Number(ascii_string(buf));
                let ghost prev = toks@;
                toks.push(tok);
                proof {
                    assert(deep(toks@) =~= deep(prev).push(tok@));
                    if spec_tokens(sv, j as int) is Toks {
                        let rest = spec_tokens(sv, j as int)->Toks_0;
                        assert(deep(prev) + (seq![tok@] + rest) =~= deep(toks@) + rest);
                    }
                }
                i = j;
            } else {
                return Err(LexError { pos: i });
            }
        }
    }
    proof {
        assert(deep(toks@) + Seq::<TokenV>::empty() =~= deep(toks@));
    }
    Ok(toks)
}

} // verus!
