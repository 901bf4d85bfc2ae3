use vstd::prelude::*;

use crate::ast::{oper, Expr, AST};
use crate::error::CalcError;
use crate::operator::{tier_of, Operator};
use crate::tokenizer::{lemma_lex_never_internal, lex, views, Tok, Token, Tokenizer};

verus! {

/// The token at index `i`; past the last token, the end of the line or the
/// lexical error that ended the scan.
pub open spec fn tok_at(ts: Seq<Tok>, stop: Result<(), CalcError>, i: int) -> Result<Tok, CalcError> {
    if 0 <= i < ts.len() {
        Ok(ts[i])
    } else {
        match stop {
            Ok(_) => Ok(Tok::End),
            Err(e) => Err(e),
        }
    }
}

/// Parses, from token `i`, a chain of operands joined by operators of tier
/// `k` (1 to 3), grouped from the left; at `k == 4`, a single operand: a
/// number or a parenthesised group. `group` tells whether the chain stands
/// inside parentheses, `lead` whether it begins a (sub)expression. The result
/// is the tree and the index of the first token not consumed.
pub open spec fn parse_chain(
    ts: Seq<Tok>,
    stop: Result<(), CalcError>,
    i: int,
    k: int,
    group: bool,
    lead: bool,
) -> Result<(Expr, int), CalcError>
    decreases ts.len() - i, 5 - k, 1int,
{
    if k >= 4 {
        match tok_at(ts, stop, i) {
            Err(e) => Err(e),
            Ok(Tok::Num(d)) => Ok((Expr::Num(d), i + 1)),
            Ok(Tok::LeftParen) => match parse_chain(ts, stop, i + 1, 1, true, true) {
                Err(e) => Err(e),
                Ok((t, j)) => if i < j <= ts.len() {
                    close_group(ts, stop, t, j)
                } else {
                    Err(CalcError::Internal)
                },
            },
            Ok(Tok::Op(_)) => if lead {
                Err(CalcError::LeadingOperator)
            } else {
                Err(CalcError::MissingOperand)
            },
            Ok(Tok::RightParen) => if group {
                Err(CalcError::MissingOperand)
            } else {
                Err(CalcError::UnmatchedRightParen)
            },
            Ok(Tok::End) => if group {
                Err(CalcError::UnclosedGroup)
            } else {
                Err(CalcError::MissingOperand)
            },
        }
    } else if k < 1 {
        Err(CalcError::Internal)
    } else {
        match parse_chain(ts, stop, i, k + 1, group, lead) {
            Err(e) => Err(e),
            Ok((t, j)) => if i <= j <= ts.len() {
                parse_rest(ts, stop, j, k, group, t)
            } else {
                Err(CalcError::Internal)
            },
        }
    }
}

/// Extends the tree `acc` with each further operator of tier `k` and the
/// operand of tier `k + 1` that follows it, from the left.
pub open spec fn parse_rest(
    ts: Seq<Tok>,
    stop: Result<(), CalcError>,
    j: int,
    k: int,
    group: bool,
    acc: Expr,
) -> Result<(Expr, int), CalcError>
    decreases ts.len() - j, 0int, 0int,
{
    match tok_at(ts, stop, j) {
        Ok(Tok::Op(op)) => if tier_of(op) == k && 1 <= k <= 3 {
            match parse_chain(ts, stop, j + 1, k + 1, group, false) {
                Err(e) => Err(e),
                Ok((t, j2)) => if j < j2 <= ts.len() {
                    parse_rest(ts, stop, j2, k, group, oper(op, acc, t))
                } else {
                    Err(CalcError::Internal)
                },
            }
        } else {
            Ok((acc, j))
        },
        _ => Ok((acc, j)),
    }
}

/// What follows a parenthesised group's contents `t`, which end before token `j`.
pub open spec fn close_group(ts: Seq<Tok>, stop: Result<(), CalcError>, t: Expr, j: int) -> Result<
    (Expr, int),
    CalcError,
> {
    match tok_at(ts, stop, j) {
        Err(e) => Err(e),
        Ok(Tok::RightParen) => Ok((t, j + 1)),
        Ok(Tok::End) => Err(CalcError::UnclosedGroup),
        Ok(_) => Err(CalcError::UnexpectedOperand),
    }
}

/// The tree of a whole line's tokens, or the first error met.
pub open spec fn parse_tokens(ts: Seq<Tok>, stop: Result<(), CalcError>) -> Result<Expr, CalcError> {
    match parse_chain(ts, stop, 0, 1, false, true) {
        Err(e) => Err(e),
        Ok((t, j)) => match tok_at(ts, stop, j) {
            Err(e) => Err(e),
            Ok(Tok::End) => Ok(t),
            Ok(Tok::RightParen) => Err(CalcError::UnmatchedRightParen),
            Ok(_) => Err(CalcError::UnexpectedOperand),
        },
    }
}

/// The tree of a line of text, or the first error met.
pub open spec fn parse_line(s: Seq<char>) -> Result<Expr, CalcError> {
    parse_tokens(lex(s).0, lex(s).1)
}

proof fn lemma_chain_sound(
    ts: Seq<Tok>,
    stop: Result<(), CalcError>,
    i: int,
    k: int,
    group: bool,
    lead: bool,
)
    requires
        0 <= i <= ts.len(),
        1 <= k <= 4,
        stop != Err::<(), CalcError>(CalcError::Internal),
    ensures
        parse_chain(ts, stop, i, k, group, lead) != Err::<(Expr, int), CalcError>(
            CalcError::Internal,
        ),
        parse_chain(ts, stop, i, k, group, lead) matches Ok((_, j)) ==> i < j <= ts.len(),
    decreases ts.len() - i, 5 - k, 1int,
{
    if k >= 4 {
        if tok_at(ts, stop, i) == Ok::<Tok, CalcError>(Tok::LeftParen) {
            lemma_chain_sound(ts, stop, i + 1, 1, true, true);
        }
    } else {
        lemma_chain_sound(ts, stop, i, k + 1, group, lead);
        if let Ok((t, j)) = parse_chain(ts, stop, i, k + 1, group, lead) {
            lemma_rest_sound(ts, stop, j, k, group, t);
        }
    }
}

proof fn lemma_rest_sound(
    ts: Seq<Tok>,
    stop: Result<(), CalcError>,
    j: int,
    k: int,
    group: bool,
    acc: Expr,
)
    requires
        0 <= j <= ts.len(),
        1 <= k <= 3,
        stop != Err::<(), CalcError>(CalcError::Internal),
    ensures
        parse_rest(ts, stop, j, k, group, acc) != Err::<(Expr, int), CalcError>(
            CalcError::Internal,
        ),
        parse_rest(ts, stop, j, k, group, acc) matches Ok((_, j2)) ==> j <= j2 <= ts.len(),
    decreases ts.len() - j, 0int, 0int,
{
    if let Ok(Tok::Op(op)) = tok_at(ts, stop, j) {
        if tier_of(op) == k {
            lemma_chain_sound(ts, stop, j + 1, k + 1, group, false);
            if let Ok((t, j2)) = parse_chain(ts, stop, j + 1, k + 1, group, false) {
                lemma_rest_sound(ts, stop, j2, k, group, oper(op, acc, t));
            }
        }
    }
}

/// The tree builder never loses its position: on any line, its only errors
/// are lexical and syntax errors, never `Internal`.
pub proof fn parse_line_never_internal(s: Seq<char>)
    ensures
        parse_line(s) != Err::<Expr, CalcError>(CalcError::Internal),
{
    lemma_lex_never_internal(s, 0);
    lemma_chain_sound(lex(s).0, lex(s).1, 0, 1, false, true);
}

/// The model of a parse result.
pub open spec fn result_view(r: Result<AST, CalcError>) -> Result<Expr, CalcError> {
    match r {
        Ok(t) => Ok(t@),
        Err(e) => Err(e),
    }
}

/// The model of a partial parse result: a tree and the next token index.
pub open spec fn step_view(r: Result<(AST, usize), CalcError>) -> Result<(Expr, int), CalcError> {
    match r {
        Ok((t, j)) => Ok((t@, j as int)),
        Err(e) => Err(e),
    }
}

fn copy_literal(d: &Vec<char>) -> (r: Vec<char>)
    ensures
        r@ == d@,
{
    let mut r: Vec<char> = Vec::new();
    let mut i: usize = 0;
    while i < d.len()
        invariant
            i <= d@.len(),
            r@ == d@.subrange(0, i as int),
        decreases d@.len() - i,
    {
        r.push(d[i]);
        i = i + 1;
    }
    assert(r@ =~= d@);
    r
}

/// Builds the expression tree of one line.
pub struct Parser {
    tokens: Vec<Token>,
    stop: Result<(), CalcError>,
    text: Ghost<Seq<char>>,
}

impl Parser {
    /// The line being parsed.
    pub closed spec fn text(&self) -> Seq<char> {
        self.text@
    }

    pub closed spec fn wf(&self) -> bool {
        &&& views(self.tokens@) == lex(self.text@).0
        &&& self.stop == lex(self.text@).1
    }

    closed spec fn ts(&self) -> Seq<Tok> {
        views(self.tokens@)
    }

    /// A parser for `inp_expr`.
    pub fn new_parser(inp_expr: &str) -> (r: Self)
        ensures
            r.wf(),
            r.text() == inp_expr@,
    {
        let mut tokenizer = Tokenizer::new_tokenizer(inp_expr);
        let (tokens, stop) = tokenizer.tokens();
        Parser { tokens, stop, text: Ghost(inp_expr@) }
    }

    fn at(&self, i: usize) -> (r: Result<Option<&Token>, CalcError>)
        ensures
            match tok_at(self.ts(), self.stop, i as int) {
                Err(e) => r == Err::<Option<&Token>, CalcError>(e),
                Ok(t) => r is Ok && match r->Ok_0 {
                    Some(tok) => i < self.tokens.len() && tok@ == t,
                    None => t is End,
                },
            },
    {
        if i < self.tokens.len() {
            Ok(Some(&self.tokens[i]))
        } else {
            match self.stop {
                Ok(_) => Ok(None),
                Err(e) => Err(e),
            }
        }
    }

    fn chain(&self, i: usize, k: u8, group: bool, lead: bool) -> (r: Result<(AST, usize), CalcError>)
        requires
            1 <= k <= 4,
            i <= self.tokens@.len(),
        ensures
            step_view(r) == parse_chain(self.ts(), self.stop, i as int, k as int, group, lead),
        decreases self.tokens@.len() - i, 5 - k, 1int,
    {
        let ghost ts = self.ts();
        let n = self.tokens.len();
        if k >= 4 {
            match self.at(i) {
                Err(e) => Err(e),
                Ok(None) => if group {
                    Err(CalcError::UnclosedGroup)
                } else {
                    Err(CalcError::MissingOperand)
                },
                Ok(Some(tok)) => match tok {
                    Token::Num(d) => Ok((AST::Num(copy_literal(d)), i + 1)),
                    Token::LeftParen => match self.chain(i + 1, 1, true, true) {
                        Err(e) => Err(e),
                        Ok((t, j)) => if i < j && j <= n {
                            self.close_group(t, j)
                        } else {
                            Err(CalcError::Internal)
                        },
                    },
                    Token::RightParen => if group {
                        Err(CalcError::MissingOperand)
                    } else {
                        Err(CalcError::UnmatchedRightParen)
                    },
                    Token::EOF => if group {
                        Err(CalcError::UnclosedGroup)
                    } else {
                        Err(CalcError::MissingOperand)
                    },
                    _ => if lead {
                        Err(CalcError::LeadingOperator)
                    } else {
                        Err(CalcError::MissingOperand)
                    },
                },
            }
        } else {
            match self.chain(i, k + 1, group, lead) {
                Err(e) => Err(e),
                Ok((t, j)) => if i <= j && j <= n {
                    self.rest(j, k, group, t)
                } else {
                    Err(CalcError::Internal)
                },
            }
        }
    }

    fn rest(&self, j: usize, k: u8, group: bool, acc: AST) -> (r: Result<(AST, usize), CalcError>)
        requires
            1 <= k <= 3,
            j <= self.tokens@.len(),
        ensures
            step_view(r) == parse_rest(self.ts(), self.stop, j as int, k as int, group, acc@),
        decreases self.tokens@.len() - j, 0int, 0int,
    {
        let n = self.tokens.len();
        let op = match self.at(j) {
            Ok(Some(tok)) => match tok.token_to_operator() {
                Some(op) => op,
                None => {
                    return Ok((acc, j));
                },
            },
            _ => {
                return Ok((acc, j));
            },
        };
        if op.tier() != k {
            return Ok((acc, j));
        }
        match self.chain(j + 1, k + 1, group, false) {
            Err(e) => Err(e),
            Ok((t, j2)) => if j < j2 && j2 <= n {
                let node = AST::Oper(op, Box::new(acc), Box::new(t));
                proof {
                    assert(node@ == oper(op, acc@, t@));
                }
                self.rest(j2, k, group, node)
            } else {
                Err(CalcError::Internal)
            },
        }
    }

    fn close_group(&self, t: AST, j: usize) -> (r: Result<(AST, usize), CalcError>)
        requires
            j <= self.tokens@.len(),
        ensures
            step_view(r) == close_group(self.ts(), self.stop, t@, j as int),
    {
        match self.at(j) {
            Err(e) => Err(e),
            Ok(None) => Err(CalcError::UnclosedGroup),
            Ok(Some(tok)) => match tok {
                Token::RightParen => Ok((t, j + 1)),
                Token::EOF => Err(CalcError::UnclosedGroup),
                _ => Err(CalcError::UnexpectedOperand),
            },
        }
    }

    /// The expression tree of the whole line, or the first error met.
    pub fn parse(&self) -> (r: Result<AST, CalcError>)
        requires
            self.wf(),
        ensures
            result_view(r) == parse_line(self.text()),
    {
        match self.chain(0, 1, false, true) {
            Err(e) => Err(e),
            Ok((t, j)) => {
                match self.at(j) {
                    Err(e) => Err(e),
                    Ok(None) => Ok(t),
                    Ok(Some(Token::EOF)) => Ok(t),
                    Ok(Some(Token::RightParen)) => Err(CalcError::UnmatchedRightParen),
                    Ok(Some(_)) => Err(CalcError::UnexpectedOperand),
                }
            },
        }
    }
}

} // verus!
