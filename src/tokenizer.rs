use vstd::prelude::*;

use crate::error::CalcError;
use crate::operator::Operator;

verus! {

/// A token of an arithmetic line. A number keeps the characters of its literal.
#[derive(Debug)]
pub enum Token {
    Add,
    Deduct,
    Multiply,
    Divide,
    Num(Vec<char>),
    LeftParen,
    RightParen,
    Power,
    EOF,
}

/// The mathematical model of a token.
pub enum Tok {
    Op(Operator),
    Num(Seq<char>),
    LeftParen,
    RightParen,
    End,
}

impl View for Token {
    type V = Tok;

    open spec fn view(&self) -> Tok {
        match self {
            Token::Add => Tok::Op(Operator::Add),
            Token::Deduct => Tok::Op(Operator::Deduct),
            Token::Multiply => Tok::Op(Operator::Multiply),
            Token::Divide => Tok::Op(Operator::Divide),
            Token::Power => Tok::Op(Operator::Power),
            Token::Num(d) => Tok::Num(d@),
            Token::LeftParen => Tok::LeftParen,
            Token::RightParen => Tok::RightParen,
            Token::EOF => Tok::End,
        }
    }
}

impl Token {
    /// The operator that an operator token stands for.
    pub fn token_to_operator(&self) -> (r: Option<Operator>)
        ensures
            (self@ is Op) ==> r == Some(self@->Op_0),
            !(self@ is Op) ==> r is None,
    {
        match self {
            Token::Add => Some(Operator::Add),
            Token::Deduct => Some(Operator::Deduct),
            Token::Multiply => Some(Operator::Multiply),
            Token::Divide => Some(Operator::Divide),
            Token::Power => Some(Operator::Power),
            _ => None,
        }
    }
}

/// Unicode `White_Space`: the characters that `char::is_whitespace` accepts.
pub open spec fn is_blank_spec(c: char) -> bool {
    let u = c as u32;
    (0x9 <= u && u <= 0xd) || u == 0x20 || u == 0x85 || u == 0xa0 || u == 0x1680 || (0x2000
        <= u && u <= 0x200a) || u == 0x2028 || u == 0x2029 || u == 0x202f || u == 0x205f || u
        == 0x3000
}

pub open spec fn is_digit_spec(c: char) -> bool {
    '0' <= c && c <= '9'
}

/// A character that may continue a numeric literal.
pub open spec fn is_literal_char(c: char) -> bool {
    is_digit_spec(c) || c == '.'
}

/// The first position at or after `i` that holds no blank.
pub open spec fn skip_blank(s: Seq<char>, i: int) -> int
    decreases s.len() - i,
{
    if 0 <= i < s.len() && is_blank_spec(s[i]) {
        skip_blank(s, i + 1)
    } else {
        i
    }
}

/// The first position at or after `i` that cannot continue a numeric literal.
pub open spec fn literal_end(s: Seq<char>, i: int) -> int
    decreases s.len() - i,
{
    if 0 <= i < s.len() && is_literal_char(s[i]) {
        literal_end(s, i + 1)
    } else {
        i
    }
}

/// The number of decimal points in `t`.
pub open spec fn count_dots(t: Seq<char>) -> nat
    decreases t.len(),
{
    if t.len() == 0 {
        0
    } else {
        count_dots(t.drop_last()) + if t.last() == '.' {
            1nat
        } else {
            0nat
        }
    }
}

/// The operator token that a single character stands for, if any.
pub open spec fn operator_char(c: char) -> Option<Operator> {
    if c == '+' {
        Some(Operator::Add)
    } else if c == '-' {
        Some(Operator::Deduct)
    } else if c == '*' || c == 'x' {
        Some(Operator::Multiply)
    } else if c == '/' {
        Some(Operator::Divide)
    } else if c == '^' {
        Some(Operator::Power)
    } else {
        None
    }
}

/// The token that starts at position `i` of `s` once one run of blanks is
/// skipped, with the position just after it; or the error found there.
pub open spec fn scan(s: Seq<char>, i: int) -> Result<(Tok, int), CalcError> {
    let j = skip_blank(s, i);
    if j >= s.len() {
        Ok((Tok::End, j))
    } else {
        let c = s[j];
        if operator_char(c) is Some {
            Ok((Tok::Op(operator_char(c)->Some_0), j + 1))
        } else if c == '(' {
            Ok((Tok::LeftParen, j + 1))
        } else if c == ')' {
            Ok((Tok::RightParen, j + 1))
        } else if is_digit_spec(c) {
            let e = literal_end(s, j + 1);
            if count_dots(s.subrange(j, e)) > 1 {
                Err(CalcError::MalformedNumber)
            } else {
                Ok((Tok::Num(s.subrange(j, e)), e))
            }
        } else {
            Err(CalcError::Lexical { ch: c, pos: j as usize })
        }
    }
}

/// The tokens of `s` from position `i` up to the end of the line (not
/// included), and whether the line ended cleanly or at a lexical error.
pub open spec fn lex_from(s: Seq<char>, i: int) -> (Seq<Tok>, Result<(), CalcError>)
    decreases s.len() - i,
    via lex_from_decreases
{
    match scan(s, i) {
        Err(e) => (Seq::empty(), Err(e)),
        Ok((t, j)) => if t is End {
            (Seq::empty(), Ok(()))
        } else {
            let rest = lex_from(s, j);
            (seq![t] + rest.0, rest.1)
        },
    }
}

/// The tokens of a whole line, and how the line ended.
pub open spec fn lex(s: Seq<char>) -> (Seq<Tok>, Result<(), CalcError>) {
    lex_from(s, 0)
}

proof fn lemma_skip_blank(s: Seq<char>, i: int)
    ensures
        skip_blank(s, i) >= i,
        0 <= i <= s.len() ==> skip_blank(s, i) <= s.len(),
    decreases s.len() - i,
{
    if 0 <= i < s.len() && is_blank_spec(s[i]) {
        lemma_skip_blank(s, i + 1);
    }
}

proof fn lemma_literal_end(s: Seq<char>, i: int)
    ensures
        literal_end(s, i) >= i,
        0 <= i <= s.len() ==> literal_end(s, i) <= s.len(),
    decreases s.len() - i,
{
    if 0 <= i < s.len() && is_literal_char(s[i]) {
        lemma_literal_end(s, i + 1);
    }
}

/// A token other than the end moves the position forward, and stays in the line.
pub proof fn lemma_scan_advances(s: Seq<char>, i: int)
    ensures
        scan(s, i) matches Ok((t, j)) ==> (!(t is End) ==> i < j <= s.len() && i < s.len()),
        0 <= i <= s.len() ==> (scan(s, i) matches Ok((t, j)) ==> i <= j <= s.len()),
{
    lemma_skip_blank(s, i);
    let j = skip_blank(s, i);
    if j < s.len() {
        lemma_literal_end(s, j + 1);
    }
}

/// The scan of a line never ends in `Internal`.
pub proof fn lemma_lex_never_internal(s: Seq<char>, i: int)
    ensures
        lex_from(s, i).1 != Err::<(), CalcError>(CalcError::Internal),
    decreases s.len() - i,
{
    lemma_scan_advances(s, i);
    if let Ok((t, j)) = scan(s, i) {
        if !(t is End) {
            lemma_lex_never_internal(s, j);
        }
    }
}

/// The scan of a line lists no end token: the end is told apart by the second part.
pub proof fn lemma_lex_has_no_end(s: Seq<char>, i: int)
    ensures
        forall|p: int| 0 <= p < lex_from(s, i).0.len() ==> !(#[trigger] lex_from(s, i).0[p] is End),
    decreases s.len() - i,
{
    lemma_scan_advances(s, i);
    if let Ok((t, j)) = scan(s, i) {
        if !(t is End) {
            lemma_lex_has_no_end(s, j);
            let rest = lex_from(s, j).0;
            assert forall|p: int| 0 <= p < lex_from(s, i).0.len() implies !(
            #[trigger] lex_from(s, i).0[p] is End) by {
                if p > 0 {
                    assert(lex_from(s, i).0[p] == rest[p - 1]);
                }
            }
        }
    }
}

#[via_fn]
proof fn lex_from_decreases(s: Seq<char>, i: int) {
    lemma_scan_advances(s, i);
}

fn is_blank(c: char) -> (r: bool)
    ensures
        r == is_blank_spec(c),
{
    let u = c as u32;
    (0x9 <= u && u <= 0xd) || u == 0x20 || u == 0x85 || u == 0xa0 || u == 0x1680 || (0x2000
        <= u && u <= 0x200a) || u == 0x2028 || u == 0x2029 || u == 0x202f || u == 0x205f || u
        == 0x3000
}

/// The models of a sequence of tokens.
pub open spec fn views(v: Seq<Token>) -> Seq<Tok> {
    v.map_values(|t: Token| t@)
}

/// Scans a line into tokens, one at a time.
pub struct Tokenizer {
    chars: Vec<char>,
    pos: usize,
}

impl Tokenizer {
    /// The characters of the line.
    pub closed spec fn text(&self) -> Seq<char> {
        self.chars@
    }

    /// The position of the next character to scan.
    pub closed spec fn position(&self) -> int {
        self.pos as int
    }

    pub closed spec fn wf(&self) -> bool {
        self.pos <= self.chars@.len()
    }

    /// A tokenizer at the start of `inp_expr`.
    pub fn new_tokenizer(inp_expr: &str) -> (r: Self)
        ensures
            r.wf(),
            r.text() == inp_expr@,
            r.position() == 0,
    {
        let n = inp_expr.unicode_len();
        let mut chars: Vec<char> = Vec::new();
        let mut i: usize = 0;
        while i < n
            invariant
                n == inp_expr@.len(),
                i <= n,
                chars@ == inp_expr@.subrange(0, i as int),
            decreases n - i,
        {
            chars.push(inp_expr.get_char(i));
            i = i + 1;
        }
        assert(chars@ =~= inp_expr@);
        Tokenizer { chars, pos: 0 }
    }

    /// Scans the next token. At the end of the line it yields `EOF`, and keeps
    /// yielding it; on an error the position does not move.
    pub fn next(&mut self) -> (r: Result<Token, CalcError>)
        requires
            old(self).wf(),
        ensures
            final(self).wf(),
            final(self).text() == old(self).text(),
            match scan(old(self).text(), old(self).position()) {
                Ok((t, j)) => r is Ok && r->Ok_0@ == t && final(self).position() == j,
                Err(e) => r == Err::<Token, CalcError>(e) && final(self).position()
                    == old(self).position(),
            },
    {
        let ghost s = self.chars@;
        let n = self.chars.len();
        let mut j = self.pos;
        while j < n && is_blank(self.chars[j])
            invariant
                s == self.chars@,
                n == s.len(),
                self.pos <= j <= n,
                skip_blank(s, self.pos as int) == skip_blank(s, j as int),
            decreases n - j,
        {
            j = j + 1;
        }
        if j >= n {
            self.pos = j;
            return Ok(Token::EOF);
        }
        let c = self.chars[j];
        let tok = if c == '+' {
            Token::Add
        } else if c == '-' {
            Token::Deduct
        } else if c == '*' || c == 'x' {
            Token::Multiply
        } else if c == '/' {
            Token::Divide
        } else if c == '^' {
            Token::Power
        } else if c == '(' {
            Token::LeftParen
        } else if c == ')' {
            Token::RightParen
        } else if '0' <= c && c <= '9' {
            let mut lit: Vec<char> = Vec::new();
            lit.push(c);
            let mut k: usize = j + 1;
            let mut dots: usize = 0;
            proof {
                assert(lit@.drop_last() =~= Seq::<char>::empty());
                assert(count_dots(lit@.drop_last()) == 0);
                assert(lit@ =~= s.subrange(j as int, k as int));
            }
            while k < n && (self.chars[k] == '.' || ('0' <= self.chars[k] && self.chars[k] <= '9'))
                invariant
                    s == self.chars@,
                    n == s.len(),
                    j < k <= n,
                    lit@ == s.subrange(j as int, k as int),
                    literal_end(s, j + 1) == literal_end(s, k as int),
                    dots as nat == count_dots(lit@),
                    dots <= k - j,
                decreases n - k,
            {
                let d = self.chars[k];
                if d == '.' {
                    dots = dots + 1;
                }
                let ghost before = lit@;
                lit.push(d);
                proof {
                    assert(lit@.drop_last() =~= before);
                    assert(lit@ =~= s.subrange(j as int, k + 1));
                }
                k = k + 1;
            }
            if dots > 1 {
                return Err(CalcError::MalformedNumber);
            }
            self.pos = k;
            return Ok(Token::Num(lit));
        } else {
            return Err(CalcError::Lexical { ch: c, pos: j });
        };
        self.pos = j + 1;
        Ok(tok)
    }

    /// Scans the rest of the line: the tokens up to the end of the line (not
    /// included), then `Ok` where the line ended cleanly or the lexical error
    /// that stopped the scan.
    pub fn tokens(&mut self) -> (r: (Vec<Token>, Result<(), CalcError>))
        requires
            old(self).wf(),
        ensures
            views(r.0@) == lex_from(old(self).text(), old(self).position()).0,
            r.1 == lex_from(old(self).text(), old(self).position()).1,
    {
        let ghost s = self.text();
        let ghost p0 = self.position();
        let mut out: Vec<Token> = Vec::new();
        assert(views(out@) =~= Seq::<Tok>::empty());
        loop
            invariant
                self.wf(),
                self.text() == s,
                s == old(self).text(),
                p0 == old(self).position(),
                0 <= self.position() <= s.len(),
                lex_from(s, p0).0 == views(out@) + lex_from(s, self.position()).0,
                lex_from(s, p0).1 == lex_from(s, self.position()).1,
            decreases s.len() - self.position(),
        {
            let ghost p = self.position();
            proof {
                lemma_scan_advances(s, p);
            }
            match self.next() {
                Err(e) => {
                    assert(lex_from(s, p).0 =~= Seq::<Tok>::empty());
                    assert(views(out@) + Seq::<Tok>::empty() =~= views(out@));
                    return (out, Err(e));
                },
                Ok(Token::EOF) => {
                    assert(views(out@) + Seq::<Tok>::empty() =~= views(out@));
                    return (out, Ok(()));
                },
                Ok(t) => {
                    let ghost before = out@;
                    let ghost rest = lex_from(s, self.position()).0;
                    out.push(t);
                    proof {
                        assert(views(out@) =~= views(before).push(t@));
                        assert(views(before) + (seq![t@] + rest) =~= views(out@) + rest);
                    }
                },
            }
        }
    }
}

} // verus!
