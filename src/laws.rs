use vstd::prelude::*;

use crate::ast::{oper, Expr};
use crate::error::CalcError;
use crate::operator::{tier_of, Operator};
use crate::parser::{parse_chain, parse_line, parse_rest, parse_tokens, tok_at};
use crate::tokenizer::{lemma_lex_has_no_end, lex, Tok};

verus! {

/// A chain `a op1 b op2 c` of two operators of one tier groups from the
/// left, as `(a op1 b) op2 c`.
pub proof fn equal_tier_chain_groups_left(
    a: Seq<char>,
    b: Seq<char>,
    c: Seq<char>,
    op1: Operator,
    op2: Operator,
)
    requires
        tier_of(op1) == tier_of(op2),
    ensures
        parse_tokens(
            seq![Tok::Num(a), Tok::Op(op1), Tok::Num(b), Tok::Op(op2), Tok::Num(c)],
            Ok(()),
        ) == Ok::<Expr, CalcError>(oper(op2, oper(op1, Expr::Num(a), Expr::Num(b)), Expr::Num(c))),
{
    let ts = seq![Tok::Num(a), Tok::Op(op1), Tok::Num(b), Tok::Op(op2), Tok::Num(c)];
    let stop = Ok::<(), CalcError>(());
    let k = tier_of(op1);
    assert(ts[1] == Tok::Op(op1) && ts[3] == Tok::Op(op2));
    let ab = oper(op1, Expr::Num(a), Expr::Num(b));
    let abc = oper(op2, ab, Expr::Num(c));
    lemma_number_alone(ts, stop, 0, k + 1, false, true);
    lemma_number_alone(ts, stop, 2, k + 1, false, false);
    lemma_number_alone(ts, stop, 4, k + 1, false, false);
    assert(tok_at(ts, stop, 5) == Ok::<Tok, CalcError>(Tok::End));
    assert(parse_rest(ts, stop, 5, k, false, abc) == Ok::<(Expr, int), CalcError>((abc, 5)));
    assert(parse_rest(ts, stop, 3, k, false, ab) == Ok::<(Expr, int), CalcError>((abc, 5)));
    assert(parse_rest(ts, stop, 1, k, false, Expr::Num(a)) == Ok::<(Expr, int), CalcError>(
        (abc, 5),
    ));
    assert(parse_chain(ts, stop, 0, k, false, true) == Ok::<(Expr, int), CalcError>((abc, 5)));
    lemma_chain_to_end(ts, stop, 0, k, 1, false, true, abc);
}

/// In `a op1 b op2 c` where `op2` is of a higher tier than `op1`, `op2`
/// binds first: the tree is `a op1 (b op2 c)`.
pub proof fn higher_tier_binds_tighter(
    a: Seq<char>,
    b: Seq<char>,
    c: Seq<char>,
    op1: Operator,
    op2: Operator,
)
    requires
        tier_of(op1) < tier_of(op2),
    ensures
        parse_tokens(
            seq![Tok::Num(a), Tok::Op(op1), Tok::Num(b), Tok::Op(op2), Tok::Num(c)],
            Ok(()),
        ) == Ok::<Expr, CalcError>(oper(op1, Expr::Num(a), oper(op2, Expr::Num(b), Expr::Num(c)))),
{
    let ts = seq![Tok::Num(a), Tok::Op(op1), Tok::Num(b), Tok::Op(op2), Tok::Num(c)];
    let stop = Ok::<(), CalcError>(());
    let k1 = tier_of(op1);
    let k2 = tier_of(op2);
    assert(ts[1] == Tok::Op(op1) && ts[3] == Tok::Op(op2));
    let bc = oper(op2, Expr::Num(b), Expr::Num(c));
    let abc = oper(op1, Expr::Num(a), bc);
    lemma_number_alone(ts, stop, 0, k1 + 1, false, true);
    lemma_number_alone(ts, stop, 2, k2 + 1, false, false);
    lemma_number_alone(ts, stop, 4, k2 + 1, false, false);
    assert(tok_at(ts, stop, 5) == Ok::<Tok, CalcError>(Tok::End));
    assert(parse_rest(ts, stop, 5, k2, false, bc) == Ok::<(Expr, int), CalcError>((bc, 5)));
    assert(parse_rest(ts, stop, 3, k2, false, Expr::Num(b)) == Ok::<(Expr, int), CalcError>(
        (bc, 5),
    ));
    assert(parse_chain(ts, stop, 2, k2, false, false) == Ok::<(Expr, int), CalcError>((bc, 5)));
    lemma_chain_to_end(ts, stop, 2, k2, k1 + 1, false, false, bc);
    assert(parse_rest(ts, stop, 5, k1, false, abc) == Ok::<(Expr, int), CalcError>((abc, 5)));
    assert(parse_rest(ts, stop, 1, k1, false, Expr::Num(a)) == Ok::<(Expr, int), CalcError>(
        (abc, 5),
    ));
    assert(parse_chain(ts, stop, 0, k1, false, true) == Ok::<(Expr, int), CalcError>((abc, 5)));
    lemma_chain_to_end(ts, stop, 0, k1, 1, false, true, abc);
}

/// A number followed by no operator of tier `m` or above stands alone at tier `m`.
proof fn lemma_number_alone(
    ts: Seq<Tok>,
    stop: Result<(), CalcError>,
    i: int,
    m: int,
    group: bool,
    lead: bool,
)
    requires
        0 <= i < ts.len(),
        ts[i] is Num,
        1 <= m <= 4,
        (i + 1 < ts.len() && ts[i + 1] is Op) ==> tier_of(ts[i + 1]->Op_0) < m,
    ensures
        parse_chain(ts, stop, i, m, group, lead) == Ok::<(Expr, int), CalcError>(
            (Expr::Num(ts[i]->Num_0), i + 1),
        ),
    decreases 4 - m,
{
    if m < 4 {
        lemma_number_alone(ts, stop, i, m + 1, group, lead);
        let leaf = Expr::Num(ts[i]->Num_0);
        assert(parse_rest(ts, stop, i + 1, m, group, leaf) == Ok::<(Expr, int), CalcError>(
            (leaf, i + 1),
        ));
    }
}

/// A chain that reaches the end of a cleanly ended line at tier `m` does so
/// at every lower tier, and at tier 1 it is the line's tree.
proof fn lemma_chain_to_end(
    ts: Seq<Tok>,
    stop: Result<(), CalcError>,
    i: int,
    m: int,
    lo: int,
    group: bool,
    lead: bool,
    t: Expr,
)
    requires
        1 <= lo <= m <= 3,
        0 <= i <= ts.len(),
        stop == Ok::<(), CalcError>(()),
        parse_chain(ts, stop, i, m, group, lead) == Ok::<(Expr, int), CalcError>((t, ts.len() as int)),
    ensures
        parse_chain(ts, stop, i, lo, group, lead) == Ok::<(Expr, int), CalcError>((t, ts.len() as int)),
        (lo == 1 && i == 0 && !group && lead) ==> parse_tokens(ts, stop) == Ok::<Expr, CalcError>(t),
    decreases m - lo,
{
    let n = ts.len() as int;
    assert(tok_at(ts, stop, n) == Ok::<Tok, CalcError>(Tok::End));
    if lo < m {
        lemma_chain_to_end(ts, stop, i, m, lo + 1, group, lead, t);
        assert(parse_rest(ts, stop, n, lo, group, t) == Ok::<(Expr, int), CalcError>((t, n)));
    }
}

/// Parsing a line keeps no state between runs: two runs on the same line
/// give the same tree, or the same error.
pub proof fn parse_is_repeatable(
    line: Seq<char>,
    first: Result<Expr, CalcError>,
    second: Result<Expr, CalcError>,
)
    requires
        first == parse_line(line),
        second == parse_line(line),
    ensures
        first == second,
{
}

/// A line whose first token is an operator fails with `LeadingOperator`.
pub proof fn leading_operator_fails(ts: Seq<Tok>, stop: Result<(), CalcError>)
    requires
        ts.len() > 0,
        ts[0] is Op,
    ensures
        parse_tokens(ts, stop) == Err::<Expr, CalcError>(CalcError::LeadingOperator),
{
    lemma_first_operand_fails(ts, stop, 1, CalcError::LeadingOperator);
}

/// A line whose first token is `)` fails with `UnmatchedRightParen`.
pub proof fn leading_right_paren_fails(ts: Seq<Tok>, stop: Result<(), CalcError>)
    requires
        ts.len() > 0,
        ts[0] is RightParen,
    ensures
        parse_tokens(ts, stop) == Err::<Expr, CalcError>(CalcError::UnmatchedRightParen),
{
    lemma_first_operand_fails(ts, stop, 1, CalcError::UnmatchedRightParen);
}

/// A line that begins with two numbers fails with `UnexpectedOperand`.
pub proof fn adjacent_numbers_fail(ts: Seq<Tok>, stop: Result<(), CalcError>)
    requires
        ts.len() > 1,
        ts[0] is Num,
        ts[1] is Num,
    ensures
        parse_tokens(ts, stop) == Err::<Expr, CalcError>(CalcError::UnexpectedOperand),
{
    let leaf = Expr::Num(ts[0]->Num_0);
    assert(parse_chain(ts, stop, 0, 4, false, true) == Ok::<(Expr, int), CalcError>((leaf, 1)));
    assert(parse_rest(ts, stop, 1, 3, false, leaf) == Ok::<(Expr, int), CalcError>((leaf, 1)));
    assert(parse_chain(ts, stop, 0, 3, false, true) == Ok::<(Expr, int), CalcError>((leaf, 1)));
    assert(parse_rest(ts, stop, 1, 2, false, leaf) == Ok::<(Expr, int), CalcError>((leaf, 1)));
    assert(parse_chain(ts, stop, 0, 2, false, true) == Ok::<(Expr, int), CalcError>((leaf, 1)));
    assert(parse_rest(ts, stop, 1, 1, false, leaf) == Ok::<(Expr, int), CalcError>((leaf, 1)));
    assert(parse_chain(ts, stop, 0, 1, false, true) == Ok::<(Expr, int), CalcError>((leaf, 1)));
}

/// When the operand at token 0 of a top-level line fails, every tier from
/// `k` up fails the same way.
proof fn lemma_first_operand_fails(ts: Seq<Tok>, stop: Result<(), CalcError>, k: int, e: CalcError)
    requires
        1 <= k <= 4,
        parse_chain(ts, stop, 0, 4, false, true) == Err::<(Expr, int), CalcError>(e),
    ensures
        parse_chain(ts, stop, 0, k, false, true) == Err::<(Expr, int), CalcError>(e),
        k == 1 ==> parse_tokens(ts, stop) == Err::<Expr, CalcError>(e),
    decreases 4 - k,
{
    if k < 4 {
        lemma_first_operand_fails(ts, stop, k + 1, e);
    }
}

/// The numbers and operators of a tree, listed from left to right.
pub open spec fn in_order(t: Expr) -> Seq<Tok>
    decreases t,
{
    match t {
        Expr::Num(d) => seq![Tok::Num(d)],
        Expr::Oper(op, l, r) => in_order(*l) + seq![Tok::Op(op)] + in_order(*r),
    }
}

/// The tokens of `ts` without the parentheses.
pub open spec fn strip_parens(ts: Seq<Tok>) -> Seq<Tok>
    decreases ts.len(),
{
    if ts.len() == 0 {
        ts
    } else {
        let last = ts.last();
        let rest = strip_parens(ts.drop_last());
        if last is LeftParen || last is RightParen {
            rest
        } else {
            rest.push(last)
        }
    }
}

proof fn lemma_strip_concat(a: Seq<Tok>, b: Seq<Tok>)
    ensures
        strip_parens(a + b) == strip_parens(a) + strip_parens(b),
    decreases b.len(),
{
    if b.len() == 0 {
        assert(a + b =~= a);
        assert(strip_parens(a) + strip_parens(b) =~= strip_parens(a));
    } else {
        lemma_strip_concat(a, b.drop_last());
        assert((a + b).drop_last() =~= a + b.drop_last());
        assert((a + b).last() == b.last());
        if !(b.last() is LeftParen || b.last() is RightParen) {
            assert(strip_parens(a) + strip_parens(b.drop_last()).push(b.last()) =~= (
            strip_parens(a) + strip_parens(b.drop_last())).push(b.last()));
        }
    }
}

proof fn lemma_strip_split(ts: Seq<Tok>, i: int, m: int, j: int)
    requires
        0 <= i <= m <= j <= ts.len(),
    ensures
        strip_parens(ts.subrange(i, j)) == strip_parens(ts.subrange(i, m)) + strip_parens(
            ts.subrange(m, j),
        ),
{
    assert(ts.subrange(i, j) =~= ts.subrange(i, m) + ts.subrange(m, j));
    lemma_strip_concat(ts.subrange(i, m), ts.subrange(m, j));
}

proof fn lemma_strip_one(ts: Seq<Tok>, i: int)
    requires
        0 <= i < ts.len(),
    ensures
        strip_parens(ts.subrange(i, i + 1)) == if ts[i] is LeftParen || ts[i] is RightParen {
            Seq::<Tok>::empty()
        } else {
            seq![ts[i]]
        },
{
    let one = ts.subrange(i, i + 1);
    assert(one.drop_last() =~= Seq::<Tok>::empty());
    assert(strip_parens(one.drop_last()) == Seq::<Tok>::empty());
    assert(Seq::<Tok>::empty().push(ts[i]) =~= seq![ts[i]]);
}

proof fn lemma_chain_in_order(
    ts: Seq<Tok>,
    stop: Result<(), CalcError>,
    i: int,
    k: int,
    group: bool,
    lead: bool,
)
    requires
        0 <= i <= ts.len(),
        1 <= k <= 4,
    ensures
        parse_chain(ts, stop, i, k, group, lead) matches Ok((t, j)) ==> i <= j <= ts.len()
            && in_order(t) == strip_parens(ts.subrange(i, j)),
    decreases ts.len() - i, 5 - k, 1int,
{
    if k >= 4 {
        if let Ok(Tok::Num(d)) = tok_at(ts, stop, i) {
            lemma_strip_one(ts, i);
        } else if tok_at(ts, stop, i) == Ok::<Tok, CalcError>(Tok::LeftParen) {
            lemma_chain_in_order(ts, stop, i + 1, 1, true, true);
            if let Ok((t, j)) = parse_chain(ts, stop, i + 1, 1, true, true) {
                if i < j <= ts.len() && tok_at(ts, stop, j) == Ok::<Tok, CalcError>(
                    Tok::RightParen,
                ) {
                    lemma_strip_one(ts, i);
                    lemma_strip_one(ts, j);
                    lemma_strip_split(ts, i, i + 1, j + 1);
                    lemma_strip_split(ts, i + 1, j, j + 1);
                    assert(Seq::<Tok>::empty() + (in_order(t) + Seq::<Tok>::empty()) =~= in_order(
                        t,
                    ));
                }
            }
        }
    } else {
        lemma_chain_in_order(ts, stop, i, k + 1, group, lead);
        if let Ok((t, j)) = parse_chain(ts, stop, i, k + 1, group, lead) {
            lemma_rest_in_order(ts, stop, j, k, group, t);
            if let Ok((t2, j2)) = parse_rest(ts, stop, j, k, group, t) {
                lemma_strip_split(ts, i, j, j2);
            }
        }
    }
}

proof fn lemma_rest_in_order(
    ts: Seq<Tok>,
    stop: Result<(), CalcError>,
    j: int,
    k: int,
    group: bool,
    acc: Expr,
)
    requires
        0 <= j <= ts.len(),
        1 <= k <= 3,
    ensures
        parse_rest(ts, stop, j, k, group, acc) matches Ok((t, j2)) ==> j <= j2 <= ts.len()
            && in_order(t) == in_order(acc) + strip_parens(ts.subrange(j, j2)),
    decreases ts.len() - j, 0int, 0int,
{
    assert(ts.subrange(j, j) =~= Seq::<Tok>::empty());
    assert(in_order(acc) + Seq::<Tok>::empty() =~= in_order(acc));
    if let Ok(Tok::Op(op)) = tok_at(ts, stop, j) {
        if tier_of(op) == k {
            lemma_chain_in_order(ts, stop, j + 1, k + 1, group, false);
            if let Ok((t, j2)) = parse_chain(ts, stop, j + 1, k + 1, group, false) {
                if j < j2 <= ts.len() {
                    let node = oper(op, acc, t);
                    lemma_rest_in_order(ts, stop, j2, k, group, node);
                    if let Ok((t3, j3)) = parse_rest(ts, stop, j2, k, group, node) {
                        lemma_strip_one(ts, j);
                        lemma_strip_split(ts, j, j + 1, j2);
                        lemma_strip_split(ts, j, j2, j3);
                        assert(in_order(node) == in_order(acc) + seq![Tok::Op(op)] + in_order(t));
                        assert(in_order(node) + strip_parens(ts.subrange(j2, j3)) =~= in_order(acc)
                            + (seq![Tok::Op(op)] + strip_parens(ts.subrange(j + 1, j2))
                            + strip_parens(ts.subrange(j2, j3))));
                    }
                }
            }
        }
    }
}

/// Building the tree keeps every number and operator of the line, in their
/// order: the tree, listed from left to right, is the line's tokens with the
/// parentheses left out.
pub proof fn tree_keeps_tokens_in_order(ts: Seq<Tok>, stop: Result<(), CalcError>)
    requires
        forall|p: int| 0 <= p < ts.len() ==> !(#[trigger] ts[p] is End),
    ensures
        parse_tokens(ts, stop) matches Ok(t) ==> in_order(t) == strip_parens(ts),
{
    lemma_chain_in_order(ts, stop, 0, 1, false, true);
    if let Ok((t, j)) = parse_chain(ts, stop, 0, 1, false, true) {
        if parse_tokens(ts, stop) is Ok {
            if j < ts.len() {
                assert(tok_at(ts, stop, j) == Ok::<Tok, CalcError>(ts[j]));
            }
            assert(ts.subrange(0, j) =~= ts);
        }
    }
}

/// On a whole line: the tree, listed from left to right, is the line's
/// tokens with the parentheses left out.
pub proof fn line_tree_keeps_tokens_in_order(s: Seq<char>)
    ensures
        parse_line(s) matches Ok(t) ==> in_order(t) == strip_parens(lex(s).0),
{
    lemma_lex_has_no_end(s, 0);
    tree_keeps_tokens_in_order(lex(s).0, lex(s).1);
}

} // verus!
