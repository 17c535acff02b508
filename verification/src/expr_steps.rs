//! The grammar of parametric expressions (sums of products of factors; a
//! factor is a number, a name with an optional unit, or a negated factor)
//! as the sequence of steps an evaluator takes, in the order it takes them,
//! with the syntax error that stops it, if any.
use vstd::prelude::*;
use crate::error::{fault, result_view, CadError, ErrorKind, Fault};
use crate::param_expr::{token_views, Token, TokenView};

verus! {

/// One step of evaluating an expression on a value stack.
#[derive(Debug, Clone, Copy, PartialEq, Eq, Structural)]
pub enum EvalStep {
    /// Push the value of the number token at this index.
    Number(usize),
    /// Push the value of the name token at `name`, converted from the unit
    /// named by the token at `unit` where there is one.
    Load { name: usize, unit: Option<usize> },
    /// Negate the top value.
    Negate,
    /// Replace the top two values by their sum.
    Add,
    /// Replace the top two values by their difference.
    Subtract,
    /// Replace the top two values by their product.
    Multiply,
    /// Replace the top two values by their quotient (a divisor near zero is
    /// an error when the step is taken).
    Divide,
}

/// Steps taken, and where parsing went on (a token index) or the syntax
/// error that stopped it.
pub struct Parsed {
    pub steps: Seq<EvalStep>,
    pub end: Result<int, Fault>,
}

pub open spec fn syntax(message: Seq<char>) -> Fault {
    fault(ErrorKind::InvalidExpression, message)
}

/// A factor starting at token `i`.
pub open spec fn factor(ts: Seq<TokenView>, i: int) -> Parsed
    decreases ts.len() - i,
{
    if i < 0 || i >= ts.len() {
        Parsed { steps: Seq::empty(), end: Err(syntax("empty expression"@)) }
    } else {
        match ts[i] {
            TokenView::Number { .. } => Parsed { steps: seq![EvalStep::Number(i as usize)], end: Ok(i + 1) },
            TokenView::Ident(_) => if i + 1 < ts.len() && ts[i + 1] is Ident {
                Parsed {
                    steps: seq![EvalStep::Load { name: i as usize, unit: Some((i + 1) as usize) }],
                    end: Ok(i + 2),
                }
            } else {
                Parsed { steps: seq![EvalStep::Load { name: i as usize, unit: None }], end: Ok(i + 1) }
            },
            TokenView::Minus => {
                let inner = factor(ts, i + 1);
                match inner.end {
                    Ok(j) => Parsed { steps: inner.steps.push(EvalStep::Negate), end: Ok(j) },
                    Err(f) => inner,
                }
            },
            _ => Parsed { steps: Seq::empty(), end: Err(syntax("invalid factor"@)) },
        }
    }
}

/// The step a multiplicative operator token stands for.
pub open spec fn product_step(t: TokenView) -> Option<EvalStep> {
    match t {
        TokenView::Star => Some(EvalStep::Multiply),
        TokenView::Slash => Some(EvalStep::Divide),
        _ => None,
    }
}

/// The step an additive operator token stands for.
pub open spec fn sum_step(t: TokenView) -> Option<EvalStep> {
    match t {
        TokenView::Plus => Some(EvalStep::Add),
        TokenView::Minus => Some(EvalStep::Subtract),
        _ => None,
    }
}

/// Further factors of a term from token `j`: each `*` or `/` and the
/// factor after it.
pub open spec fn term_rest(ts: Seq<TokenView>, j: int) -> Parsed
    decreases ts.len() - j,
{
    if 0 <= j < ts.len() && product_step(ts[j]) is Some {
        let rhs = factor(ts, j + 1);
        match rhs.end {
            Err(f) => rhs,
            Ok(k) => if j < k <= ts.len() {
                let rest = term_rest(ts, k);
                Parsed { steps: rhs.steps.push(product_step(ts[j])->0) + rest.steps, end: rest.end }
            } else {
                Parsed { steps: rhs.steps.push(product_step(ts[j])->0), end: Ok(k) }
            },
        }
    } else {
        Parsed { steps: Seq::empty(), end: Ok(j) }
    }
}

/// A term from token `i`: a factor, then further factors.
pub open spec fn term(ts: Seq<TokenView>, i: int) -> Parsed {
    let first = factor(ts, i);
    match first.end {
        Err(f) => first,
        Ok(j) => {
            let rest = term_rest(ts, j);
            Parsed { steps: first.steps + rest.steps, end: rest.end }
        },
    }
}

/// Further terms of an expression from token `j`: each `+` or `-` and the
/// term after it.
pub open spec fn expr_rest(ts: Seq<TokenView>, j: int) -> Parsed
    decreases ts.len() - j,
{
    if 0 <= j < ts.len() && sum_step(ts[j]) is Some {
        let rhs = term(ts, j + 1);
        match rhs.end {
            Err(f) => rhs,
            Ok(k) => if j < k <= ts.len() {
                let rest = expr_rest(ts, k);
                Parsed { steps: rhs.steps.push(sum_step(ts[j])->0) + rest.steps, end: rest.end }
            } else {
                Parsed { steps: rhs.steps.push(sum_step(ts[j])->0), end: Ok(k) }
            },
        }
    } else {
        Parsed { steps: Seq::empty(), end: Ok(j) }
    }
}

/// An expression from token `i`: a term, then further terms.
pub open spec fn expression(ts: Seq<TokenView>, i: int) -> Parsed {
    let first = term(ts, i);
    match first.end {
        Err(f) => first,
        Ok(j) => {
            let rest = expr_rest(ts, j);
            Parsed { steps: first.steps + rest.steps, end: rest.end }
        },
    }
}

/// The steps of evaluating the whole token list, and the syntax error that
/// stops evaluation after them, if any: tokens left over after the
/// expression are an error naming the expression's text.
pub open spec fn program(ts: Seq<TokenView>, text: Seq<char>) -> (Seq<EvalStep>, Result<(), Fault>) {
    let whole = expression(ts, 0);
    match whole.end {
        Err(f) => (whole.steps, Err(f)),
        Ok(j) => if j < ts.len() {
            (whole.steps, Err(syntax(text)))
        } else {
            (whole.steps, Ok(()))
        },
    }
}

proof fn lemma_factor_advances(ts: Seq<TokenView>, i: int)
    ensures
        factor(ts, i).end matches Ok(j) ==> i < j <= ts.len(),
    decreases ts.len() - i,
{
    if 0 <= i < ts.len() && ts[i] is Minus {
        lemma_factor_advances(ts, i + 1);
    }
}

proof fn lemma_term_rest_advances(ts: Seq<TokenView>, j: int)
    requires
        0 <= j <= ts.len(),
    ensures
        term_rest(ts, j).end matches Ok(k) ==> j <= k <= ts.len(),
    decreases ts.len() - j,
{
    if 0 <= j < ts.len() && product_step(ts[j]) is Some {
        lemma_factor_advances(ts, j + 1);
        if let Ok(k) = factor(ts, j + 1).end {
            lemma_term_rest_advances(ts, k);
        }
    }
}

proof fn lemma_term_advances(ts: Seq<TokenView>, i: int)
    ensures
        term(ts, i).end matches Ok(j) ==> i < j <= ts.len(),
{
    lemma_factor_advances(ts, i);
    if let Ok(j) = factor(ts, i).end {
        lemma_term_rest_advances(ts, j);
    }
}

proof fn lemma_expr_rest_advances(ts: Seq<TokenView>, j: int)
    requires
        0 <= j <= ts.len(),
    ensures
        expr_rest(ts, j).end matches Ok(k) ==> j <= k <= ts.len(),
    decreases ts.len() - j,
{
    if 0 <= j < ts.len() && sum_step(ts[j]) is Some {
        lemma_term_advances(ts, j + 1);
        if let Ok(k) = term(ts, j + 1).end {
            lemma_expr_rest_advances(ts, k);
        }
    }
}

fn parse_factor(ts: &[Token], i: usize, steps: &mut Vec<EvalStep>) -> (end: Result<usize, CadError>)
    requires
        i <= ts.len(),
    ensures
        final(steps)@ == old(steps)@ + factor(token_views(ts@), i as int).steps,
        result_view(end) == (match factor(token_views(ts@), i as int).end {
            Ok(j) => Ok(j as usize),
            Err(f) => Err::<usize, Fault>(f),
        }),
        end matches Ok(j) ==> i < j <= ts.len(),
        factor(token_views(ts@), i as int).end matches Ok(j) ==> i < j <= ts.len(),
    decreases ts.len() - i,
{
    let ghost v = token_views(ts@);
    proof {
        lemma_factor_advances(v, i as int);
    }
    if i >= ts.len() {
        assert(steps@ =~= old(steps)@ + Seq::<EvalStep>::empty());
        return Err(CadError::InvalidExpression("empty expression".to_owned()));
    }
    assert(v[i as int] == ts@[i as int]@);
    match &ts[i] {
        Token::Number { .. } => {
            steps.push(EvalStep::Number(i));
            Ok(i + 1)
        },
        Token::Ident(_) => {
            let with_unit = i + 1 < ts.len() && match &ts[i + 1] {
                Token::Ident(_) => true,
                _ => false,
            };
            if i + 1 < ts.len() {
                assert(v[i + 1] == ts@[i + 1]@);
            }
            if with_unit {
                steps.push(EvalStep::Load { name: i, unit: Some(i + 1) });
                Ok(i + 2)
            } else {
                steps.push(EvalStep::Load { name: i, unit: None });
                Ok(i + 1)
            }
        },
        Token::Minus => {
            let end = parse_factor(ts, i + 1, steps);
            match end {
                Ok(j) => {
                    steps.push(EvalStep::Negate);
                    Ok(j)
                },
                Err(e) => Err(e),
            }
        },
        _ => {
            assert(steps@ =~= old(steps)@ + Seq::<EvalStep>::empty());
            Err(CadError::InvalidExpression("invalid factor".to_owned()))
        },
    }
}

pub open spec fn end_view(e: Result<int, Fault>) -> Result<usize, Fault> {
    match e {
        Ok(j) => Ok(j as usize),
        Err(f) => Err(f),
    }
}

fn product_op(t: &Token) -> (op: Option<EvalStep>)
    ensures
        op == product_step(t@),
{
    match t {
        Token::Star => Some(EvalStep::Multiply),
        Token::Slash => Some(EvalStep::Divide),
        _ => None,
    }
}

fn sum_op(t: &Token) -> (op: Option<EvalStep>)
    ensures
        op == sum_step(t@),
{
    match t {
        Token::Plus => Some(EvalStep::Add),
        Token::Minus => Some(EvalStep::Subtract),
        _ => None,
    }
}

fn parse_term_rest(ts: &[Token], j: usize, steps: &mut Vec<EvalStep>) -> (end: Result<usize, CadError>)
    requires
        j <= ts.len(),
    ensures
        final(steps)@ == old(steps)@ + term_rest(token_views(ts@), j as int).steps,
        result_view(end) == end_view(term_rest(token_views(ts@), j as int).end),
        end matches Ok(k) ==> j <= k <= ts.len(),
        term_rest(token_views(ts@), j as int).end matches Ok(k) ==> j <= k <= ts.len(),
    decreases ts.len() - j,
{
    let ghost v = token_views(ts@);
    proof {
        lemma_term_rest_advances(v, j as int);
    }
    if j < ts.len() {
        assert(v[j as int] == ts@[j as int]@);
        match product_op(&ts[j]) {
            Some(op) => {
                let ghost before = steps@;
                let rhs = parse_factor(ts, j + 1, steps);
                match rhs {
                    Err(e) => {
                        return Err(e);
                    },
                    Ok(k) => {
                        steps.push(op);
                        let ghost mid = steps@;
                        let end = parse_term_rest(ts, k, steps);
                        proof {
                            assert(steps@ =~= before + (factor(v, j + 1).steps.push(op) + term_rest(v, k as int).steps));
                        }
                        return end;
                    },
                }
            },
            None => {},
        }
    }
    assert(steps@ =~= old(steps)@ + Seq::<EvalStep>::empty());
    Ok(j)
}

fn parse_term(ts: &[Token], i: usize, steps: &mut Vec<EvalStep>) -> (end: Result<usize, CadError>)
    requires
        i <= ts.len(),
    ensures
        final(steps)@ == old(steps)@ + term(token_views(ts@), i as int).steps,
        result_view(end) == end_view(term(token_views(ts@), i as int).end),
        end matches Ok(k) ==> i < k <= ts.len(),
        term(token_views(ts@), i as int).end matches Ok(k) ==> i < k <= ts.len(),
{
    let ghost v = token_views(ts@);
    let ghost before = steps@;
    proof {
        lemma_term_advances(v, i as int);
    }
    match parse_factor(ts, i, steps) {
        Err(e) => Err(e),
        Ok(j) => {
            let end = parse_term_rest(ts, j, steps);
            assert(steps@ =~= before + (factor(v, i as int).steps + term_rest(v, j as int).steps));
            end
        },
    }
}

fn parse_expr_rest(ts: &[Token], j: usize, steps: &mut Vec<EvalStep>) -> (end: Result<usize, CadError>)
    requires
        j <= ts.len(),
    ensures
        final(steps)@ == old(steps)@ + expr_rest(token_views(ts@), j as int).steps,
        result_view(end) == end_view(expr_rest(token_views(ts@), j as int).end),
        end matches Ok(k) ==> j <= k <= ts.len(),
        expr_rest(token_views(ts@), j as int).end matches Ok(k) ==> j <= k <= ts.len(),
    decreases ts.len() - j,
{
    let ghost v = token_views(ts@);
    proof {
        lemma_expr_rest_advances(v, j as int);
    }
    if j < ts.len() {
        assert(v[j as int] == ts@[j as int]@);
        match sum_op(&ts[j]) {
            Some(op) => {
                let ghost before = steps@;
                let rhs = parse_term(ts, j + 1, steps);
                match rhs {
                    Err(e) => {
                        return Err(e);
                    },
                    Ok(k) => {
                        steps.push(op);
                        let end = parse_expr_rest(ts, k, steps);
                        proof {
                            assert(steps@ =~= before + (term(v, j + 1).steps.push(op) + expr_rest(v, k as int).steps));
                        }
                        return end;
                    },
                }
            },
            None => {},
        }
    }
    assert(steps@ =~= old(steps)@ + Seq::<EvalStep>::empty());
    Ok(j)
}

/// The steps of evaluating `tokens` (the tokens of `text`), in the order an
/// evaluator takes them, and the syntax error that stops it after them.
pub fn evaluation_steps(tokens: &[Token], text: &str) -> (r: (Vec<EvalStep>, Result<(), CadError>))
    ensures
        r.0@ == program(token_views(tokens@), text@).0,
        result_view(r.1) == program(token_views(tokens@), text@).1,
{
    let ghost v = token_views(tokens@);
    let mut steps: Vec<EvalStep> = Vec::new();
    let end = match parse_term(tokens, 0, &mut steps) {
        Err(e) => Err(e),
        Ok(j) => {
            let ghost first = steps@;
            let end = parse_expr_rest(tokens, j, &mut steps);
            end
        },
    };
    assert(steps@ =~= expression(v, 0).steps);
    match end {
        Err(e) => (steps, Err(e)),
        Ok(j) => {
            if j < tokens.len() {
                (steps, Err(CadError::InvalidExpression(text.to_owned())))
            } else {
                (steps, Ok(()))
            }
        },
    }
}

// ---------------------------------------------------------------------------
// Laws
// ---------------------------------------------------------------------------

/// The stack depth after one step from depth `d`, or `None` where the step
/// finds too few values.
pub open spec fn step_depth(step: EvalStep, d: int) -> Option<int> {
    match step {
        EvalStep::Number(_) => Some(d + 1),
        EvalStep::Load { .. } => Some(d + 1),
        EvalStep::Negate => if d >= 1 {
            Some(d)
        } else {
            None
        },
        _ => if d >= 2 {
            Some(d - 1)
        } else {
            None
        },
    }
}

/// The stack depth after running the steps from depth `d`, or `None` where
/// one of them finds too few values.
pub open spec fn run_depth(steps: Seq<EvalStep>, d: int) -> Option<int>
    decreases steps.len(),
{
    if steps.len() == 0 {
        Some(d)
    } else {
        match step_depth(steps[0], d) {
            None => None,
            Some(e) => run_depth(steps.drop_first(), e),
        }
    }
}

proof fn lemma_run_concat(p: Seq<EvalStep>, q: Seq<EvalStep>, d: int)
    ensures
        run_depth(p + q, d) == (match run_depth(p, d) {
            None => None,
            Some(e) => run_depth(q, e),
        }),
    decreases p.len(),
{
    if p.len() > 0 {
        assert((p + q).drop_first() =~= p.drop_first() + q);
        assert((p + q)[0] == p[0]);
        if let Some(e) = step_depth(p[0], d) {
            lemma_run_concat(p.drop_first(), q, e);
        }
    } else {
        assert(p + q =~= q);
    }
}

proof fn lemma_run_one(step: EvalStep, d: int)
    ensures
        run_depth(seq![step], d) == step_depth(step, d),
{
    let one = seq![step];
    assert(one.drop_first() =~= Seq::<EvalStep>::empty());
    assert(one[0] == step);
    if let Some(e) = step_depth(step, d) {
        assert(run_depth(one.drop_first(), e) == Some(e));
    }
}

/// Running a parse's steps from depth `d`: never short of values, one more
/// value when the parse went on (`grows`), at least as many otherwise.
pub open spec fn runs_from(p: Parsed, d: int, grows: int) -> bool {
    &&& run_depth(p.steps, d) matches Some(e) && e >= d
    &&& p.end is Ok ==> run_depth(p.steps, d) == Some(d + grows)
}

proof fn lemma_factor_runs(ts: Seq<TokenView>, i: int, d: int)
    requires
        d >= 0,
    ensures
        runs_from(factor(ts, i), d, 1),
    decreases ts.len() - i,
{
    let f = factor(ts, i);
    if 0 <= i < ts.len() {
        match ts[i] {
            TokenView::Number { .. } => lemma_run_one(f.steps[0], d),
            TokenView::Ident(_) => {
                assert(f.steps =~= seq![f.steps[0]]);
                lemma_run_one(f.steps[0], d);
            },
            TokenView::Minus => {
                let inner = factor(ts, i + 1);
                lemma_factor_runs(ts, i + 1, d);
                if inner.end is Ok {
                    lemma_run_concat(inner.steps, seq![EvalStep::Negate], d);
                    lemma_run_one(EvalStep::Negate, d + 1);
                    assert(inner.steps.push(EvalStep::Negate) =~= inner.steps + seq![EvalStep::Negate]);
                }
            },
            _ => {},
        }
    }
}

proof fn lemma_term_rest_runs(ts: Seq<TokenView>, j: int, d: int)
    requires
        d >= 1,
    ensures
        runs_from(term_rest(ts, j), d, 0),
    decreases ts.len() - j,
{
    if 0 <= j < ts.len() && product_step(ts[j]) is Some {
        let op = product_step(ts[j])->0;
        let rhs = factor(ts, j + 1);
        lemma_factor_runs(ts, j + 1, d);
        if let Ok(k) = rhs.end {
            lemma_run_concat(rhs.steps, seq![op], d);
            lemma_run_one(op, d + 1);
            assert(rhs.steps.push(op) =~= rhs.steps + seq![op]);
            if j < k <= ts.len() {
                let rest = term_rest(ts, k);
                lemma_term_rest_runs(ts, k, d);
                lemma_run_concat(rhs.steps.push(op), rest.steps, d);
            }
        }
    } else {
        assert(term_rest(ts, j).steps =~= Seq::<EvalStep>::empty());
    }
}

proof fn lemma_term_runs(ts: Seq<TokenView>, i: int, d: int)
    requires
        d >= 0,
    ensures
        runs_from(term(ts, i), d, 1),
{
    let first = factor(ts, i);
    lemma_factor_runs(ts, i, d);
    if let Ok(j) = first.end {
        lemma_term_rest_runs(ts, j, d + 1);
        lemma_run_concat(first.steps, term_rest(ts, j).steps, d);
    }
}

proof fn lemma_expr_rest_runs(ts: Seq<TokenView>, j: int, d: int)
    requires
        d >= 1,
    ensures
        runs_from(expr_rest(ts, j), d, 0),
    decreases ts.len() - j,
{
    if 0 <= j < ts.len() && sum_step(ts[j]) is Some {
        let op = sum_step(ts[j])->0;
        let rhs = term(ts, j + 1);
        lemma_term_runs(ts, j + 1, d);
        if let Ok(k) = rhs.end {
            lemma_run_concat(rhs.steps, seq![op], d);
            lemma_run_one(op, d + 1);
            assert(rhs.steps.push(op) =~= rhs.steps + seq![op]);
            if j < k <= ts.len() {
                let rest = expr_rest(ts, k);
                lemma_expr_rest_runs(ts, k, d);
                lemma_run_concat(rhs.steps.push(op), rest.steps, d);
            }
        }
    } else {
        assert(expr_rest(ts, j).steps =~= Seq::<EvalStep>::empty());
    }
}

/// An evaluator that runs the steps on a value stack never finds too few
/// values, whether or not a syntax error follows the steps; without one, a
/// single value is left: the expression's.
pub proof fn law_steps_never_run_short(ts: Seq<TokenView>, text: Seq<char>)
    ensures
        run_depth(program(ts, text).0, 0) is Some,
        program(ts, text).1 is Ok ==> run_depth(program(ts, text).0, 0) == Some(1int),
{
    let first = term(ts, 0);
    lemma_term_runs(ts, 0, 0);
    if let Ok(j) = first.end {
        lemma_expr_rest_runs(ts, j, 1);
        lemma_run_concat(first.steps, expr_rest(ts, j).steps, 0);
    }
}

/// The expression a run of steps builds: numbers and names at the leaves.
pub enum Tree {
    Number(usize),
    Load(usize, Option<usize>),
    Neg(Box<Tree>),
    Bin(EvalStep, Box<Tree>, Box<Tree>),
}

/// One step on a stack of expressions, or `None` where it finds too few.
pub open spec fn tree_step(step: EvalStep, st: Seq<Tree>) -> Option<Seq<Tree>> {
    match step {
        EvalStep::Number(i) => Some(st.push(Tree::Number(i))),
        EvalStep::Load { name, unit } => Some(st.push(Tree::Load(name, unit))),
        EvalStep::Negate => if st.len() >= 1 {
            Some(st.drop_last().push(Tree::Neg(Box::new(st.last()))))
        } else {
            None
        },
        _ => if st.len() >= 2 {
            Some(
                st.drop_last().drop_last().push(
                    Tree::Bin(step, Box::new(st[st.len() - 2]), Box::new(st.last())),
                ),
            )
        } else {
            None
        },
    }
}

/// The stack of expressions after running the steps on `st`.
pub open spec fn run_tree(steps: Seq<EvalStep>, st: Seq<Tree>) -> Option<Seq<Tree>>
    decreases steps.len(),
{
    if steps.len() == 0 {
        Some(st)
    } else {
        match tree_step(steps[0], st) {
            None => None,
            Some(st2) => run_tree(steps.drop_first(), st2),
        }
    }
}

/// A number, a name, or a negated one of these.
pub open spec fn is_atom(t: Tree) -> bool
    decreases t,
{
    match t {
        Tree::Number(_) => true,
        Tree::Load(_, _) => true,
        Tree::Neg(inner) => is_atom(*inner),
        Tree::Bin(_, _, _) => false,
    }
}

/// An atom, or a product or quotient whose left operand is a product and
/// whose right operand is an atom: products associate to the left.
pub open spec fn is_product(t: Tree) -> bool
    decreases t,
{
    match t {
        Tree::Bin(op, l, r) => (op == EvalStep::Multiply || op == EvalStep::Divide) && is_product(*l)
            && is_atom(*r),
        _ => is_atom(t),
    }
}

/// A product, or a sum or difference whose left operand is a sum and whose
/// right operand is a product: sums associate to the left and bind looser
/// than products.
pub open spec fn is_sum(t: Tree) -> bool
    decreases t,
{
    match t {
        Tree::Bin(op, l, r) => if op == EvalStep::Add || op == EvalStep::Subtract {
            is_sum(*l) && is_product(*r)
        } else {
            is_product(t)
        },
        _ => is_product(t),
    }
}

proof fn lemma_run_tree_concat(p: Seq<EvalStep>, q: Seq<EvalStep>, st: Seq<Tree>)
    ensures
        run_tree(p + q, st) == (match run_tree(p, st) {
            None => None,
            Some(st2) => run_tree(q, st2),
        }),
    decreases p.len(),
{
    if p.len() > 0 {
        assert((p + q).drop_first() =~= p.drop_first() + q);
        assert((p + q)[0] == p[0]);
        if let Some(st2) = tree_step(p[0], st) {
            lemma_run_tree_concat(p.drop_first(), q, st2);
        }
    } else {
        assert(p + q =~= q);
    }
}

proof fn lemma_run_tree_one(step: EvalStep, st: Seq<Tree>)
    ensures
        run_tree(seq![step], st) == tree_step(step, st),
{
    let one = seq![step];
    assert(one.drop_first() =~= Seq::<EvalStep>::empty());
    assert(one[0] == step);
    if let Some(st2) = tree_step(step, st) {
        assert(run_tree(one.drop_first(), st2) == Some(st2));
    }
}

proof fn lemma_factor_tree(ts: Seq<TokenView>, i: int, st: Seq<Tree>)
    ensures
        factor(ts, i).end is Ok ==> exists|t: Tree|
            #[trigger] is_atom(t) && run_tree(factor(ts, i).steps, st) == Some(st.push(t)),
    decreases ts.len() - i,
{
    let f = factor(ts, i);
    if 0 <= i < ts.len() {
        match ts[i] {
            TokenView::Number { .. } => {
                lemma_run_tree_one(f.steps[0], st);
                assert(f.steps =~= seq![f.steps[0]]);
                assert(is_atom(Tree::Number(i as usize)));
            },
            TokenView::Ident(_) => {
                assert(f.steps =~= seq![f.steps[0]]);
                lemma_run_tree_one(f.steps[0], st);
                if let EvalStep::Load { name, unit } = f.steps[0] {
                    assert(is_atom(Tree::Load(name, unit)));
                }
            },
            TokenView::Minus => {
                let inner = factor(ts, i + 1);
                lemma_factor_tree(ts, i + 1, st);
                if inner.end is Ok {
                    let t = choose|t: Tree| #[trigger] is_atom(t) && run_tree(inner.steps, st) == Some(st.push(t));
                    lemma_run_tree_concat(inner.steps, seq![EvalStep::Negate], st);
                    lemma_run_tree_one(EvalStep::Negate, st.push(t));
                    assert(inner.steps.push(EvalStep::Negate) =~= inner.steps + seq![EvalStep::Negate]);
                    assert(st.push(t).drop_last() =~= st);
                    let n = Tree::Neg(Box::new(t));
                    assert(is_atom(n));
                    assert(run_tree(f.steps, st) == Some(st.push(n)));
                }
            },
            _ => {},
        }
    }
}

proof fn lemma_term_rest_tree(ts: Seq<TokenView>, j: int, st: Seq<Tree>, l: Tree)
    requires
        is_product(l),
    ensures
        term_rest(ts, j).end is Ok ==> exists|t: Tree|
            #[trigger] is_product(t) && run_tree(term_rest(ts, j).steps, st.push(l)) == Some(st.push(t)),
    decreases ts.len() - j,
{
    if 0 <= j < ts.len() && product_step(ts[j]) is Some {
        let op = product_step(ts[j])->0;
        let rhs = factor(ts, j + 1);
        lemma_factor_tree(ts, j + 1, st.push(l));
        if let Ok(k) = rhs.end {
            let r = choose|r: Tree| #[trigger] is_atom(r) && run_tree(rhs.steps, st.push(l)) == Some(st.push(l).push(r));
            lemma_run_tree_concat(rhs.steps, seq![op], st.push(l));
            lemma_run_tree_one(op, st.push(l).push(r));
            assert(rhs.steps.push(op) =~= rhs.steps + seq![op]);
            let st2 = st.push(l).push(r);
            assert(st2.drop_last().drop_last() =~= st);
            assert(st2[st2.len() - 2] == l);
            let b = Tree::Bin(op, Box::new(l), Box::new(r));
            assert(is_product(b));
            assert(run_tree(rhs.steps.push(op), st.push(l)) == Some(st.push(b)));
            if j < k <= ts.len() {
                let rest = term_rest(ts, k);
                lemma_term_rest_tree(ts, k, st, b);
                lemma_run_tree_concat(rhs.steps.push(op), rest.steps, st.push(l));
            }
        }
    } else {
        assert(term_rest(ts, j).steps =~= Seq::<EvalStep>::empty());
        assert(run_tree(Seq::<EvalStep>::empty(), st.push(l)) == Some(st.push(l)));
    }
}

proof fn lemma_term_tree(ts: Seq<TokenView>, i: int, st: Seq<Tree>)
    ensures
        term(ts, i).end is Ok ==> exists|t: Tree|
            #[trigger] is_product(t) && run_tree(term(ts, i).steps, st) == Some(st.push(t)),
{
    let first = factor(ts, i);
    lemma_factor_tree(ts, i, st);
    if let Ok(j) = first.end {
        let a = choose|a: Tree| #[trigger] is_atom(a) && run_tree(first.steps, st) == Some(st.push(a));
        assert(is_product(a)) by {
            match a {
                Tree::Bin(_, _, _) => {},
                _ => {},
            }
        }
        lemma_term_rest_tree(ts, j, st, a);
        lemma_run_tree_concat(first.steps, term_rest(ts, j).steps, st);
    }
}

proof fn lemma_product_is_sum(t: Tree)
    requires
        is_product(t),
    ensures
        is_sum(t),
{
    match t {
        Tree::Bin(op, l, r) => {},
        _ => {},
    }
}

proof fn lemma_expr_rest_tree(ts: Seq<TokenView>, j: int, st: Seq<Tree>, l: Tree)
    requires
        is_sum(l),
    ensures
        expr_rest(ts, j).end is Ok ==> exists|t: Tree|
            #[trigger] is_sum(t) && run_tree(expr_rest(ts, j).steps, st.push(l)) == Some(st.push(t)),
    decreases ts.len() - j,
{
    if 0 <= j < ts.len() && sum_step(ts[j]) is Some {
        let op = sum_step(ts[j])->0;
        let rhs = term(ts, j + 1);
        lemma_term_tree(ts, j + 1, st.push(l));
        if let Ok(k) = rhs.end {
            let r = choose|r: Tree| #[trigger] is_product(r) && run_tree(rhs.steps, st.push(l)) == Some(st.push(l).push(r));
            lemma_run_tree_concat(rhs.steps, seq![op], st.push(l));
            lemma_run_tree_one(op, st.push(l).push(r));
            assert(rhs.steps.push(op) =~= rhs.steps + seq![op]);
            let st2 = st.push(l).push(r);
            assert(st2.drop_last().drop_last() =~= st);
            assert(st2[st2.len() - 2] == l);
            let b = Tree::Bin(op, Box::new(l), Box::new(r));
            assert(is_sum(b));
            assert(run_tree(rhs.steps.push(op), st.push(l)) == Some(st.push(b)));
            if j < k <= ts.len() {
                let rest = expr_rest(ts, k);
                lemma_expr_rest_tree(ts, k, st, b);
                lemma_run_tree_concat(rhs.steps.push(op), rest.steps, st.push(l));
            }
        }
    } else {
        assert(expr_rest(ts, j).steps =~= Seq::<EvalStep>::empty());
        assert(run_tree(Seq::<EvalStep>::empty(), st.push(l)) == Some(st.push(l)));
    }
}

/// The steps of an expression without syntax errors build one expression
/// in which products and quotients bind tighter than sums and differences,
/// and both associate to the left: an operator's right operand is never an
/// operator of its own level (`w / 2 / 2` is `(w / 2) / 2`).
pub proof fn law_operators_associate_left(ts: Seq<TokenView>, text: Seq<char>)
    ensures
        program(ts, text).1 is Ok ==> exists|t: Tree|
            #[trigger] is_sum(t) && run_tree(program(ts, text).0, Seq::empty()) == Some(seq![t]),
{
    let st = Seq::<Tree>::empty();
    let first = term(ts, 0);
    lemma_term_tree(ts, 0, st);
    if let Ok(j) = first.end {
        let a = choose|a: Tree| #[trigger] is_product(a) && run_tree(first.steps, st) == Some(st.push(a));
        lemma_product_is_sum(a);
        lemma_expr_rest_tree(ts, j, st, a);
        lemma_run_tree_concat(first.steps, expr_rest(ts, j).steps, st);
        if program(ts, text).1 is Ok {
            let t = choose|t: Tree| #[trigger] is_sum(t) && run_tree(expr_rest(ts, j).steps, st.push(a)) == Some(st.push(t));
            assert(st.push(t) =~= seq![t]);
        }
    }
}

/// The token a step reads an operand from, if it reads one.
pub open spec fn operand_token(step: EvalStep) -> Option<int> {
    match step {
        EvalStep::Number(i) => Some(i as int),
        EvalStep::Load { name, .. } => Some(name as int),
        _ => None,
    }
}

/// The steps read their operands from tokens `lo..hi`, left to right: a
/// number from a number token, a name from a name token, and a name's unit
/// from the name token right after it.
pub open spec fn reads_left_to_right(ts: Seq<TokenView>, steps: Seq<EvalStep>, lo: int, hi: int) -> bool {
    &&& forall|k: int|
        0 <= k < steps.len() ==> match #[trigger] steps[k] {
            EvalStep::Number(i) => lo <= i < hi && i < ts.len() && ts[i as int] is Number,
            EvalStep::Load { name, unit } => lo <= name < hi && name < ts.len() && ts[name as int] is Ident
                && match unit {
                Some(u) => u == name + 1 && u < hi && u < ts.len() && ts[u as int] is Ident,
                None => true,
            },
            _ => true,
        }
    &&& forall|a: int, b: int|
        0 <= a < b < steps.len() && operand_token(#[trigger] steps[a]) is Some && operand_token(
            #[trigger] steps[b],
        ) is Some ==> operand_token(steps[a])->0 < operand_token(steps[b])->0
}

/// Where parsing stopped: the token it went on from, or the end on an error.
pub open spec fn reach(ts: Seq<TokenView>, p: Parsed) -> int {
    match p.end {
        Ok(j) => j,
        Err(_) => ts.len() as int,
    }
}

proof fn lemma_reads_concat(ts: Seq<TokenView>, p: Seq<EvalStep>, q: Seq<EvalStep>, lo: int, mid: int, hi: int)
    requires
        reads_left_to_right(ts, p, lo, mid),
        reads_left_to_right(ts, q, mid, hi),
        lo <= mid <= hi,
    ensures
        reads_left_to_right(ts, p + q, lo, hi),
{
    let r = p + q;
    assert forall|k: int| 0 <= k < r.len() implies match #[trigger] r[k] {
        EvalStep::Number(i) => lo <= i < hi && i < ts.len() && ts[i as int] is Number,
        EvalStep::Load { name, unit } => lo <= name < hi && name < ts.len() && ts[name as int] is Ident
            && match unit {
            Some(u) => u == name + 1 && u < hi && u < ts.len() && ts[u as int] is Ident,
            None => true,
        },
        _ => true,
    } by {
        if k < p.len() {
            assert(r[k] == p[k]);
        } else {
            assert(r[k] == q[k - p.len()]);
        }
    }
    assert forall|a: int, b: int|
        0 <= a < b < r.len() && operand_token(#[trigger] r[a]) is Some && operand_token(#[trigger] r[b])
            is Some implies operand_token(r[a])->0 < operand_token(r[b])->0 by {
        if b < p.len() {
            assert(r[a] == p[a] && r[b] == p[b]);
        } else if a >= p.len() {
            assert(r[a] == q[a - p.len()] && r[b] == q[b - p.len()]);
        } else {
            assert(r[a] == p[a] && r[b] == q[b - p.len()]);
            let pa = p[a];
            let qb = q[b - p.len()];
            assert(operand_token(pa)->0 < mid);
            assert(operand_token(qb)->0 >= mid);
        }
    }
}

proof fn lemma_reads_op(ts: Seq<TokenView>, p: Seq<EvalStep>, op: EvalStep, lo: int, hi: int)
    requires
        reads_left_to_right(ts, p, lo, hi),
        operand_token(op) is None,
    ensures
        reads_left_to_right(ts, p.push(op), lo, hi),
{
    let r = p.push(op);
    assert forall|k: int| 0 <= k < r.len() && k < p.len() implies r[k] == p[k] by {}
    assert(r[p.len() as int] == op);
    assert forall|a: int, b: int|
        0 <= a < b < r.len() && operand_token(#[trigger] r[a]) is Some && operand_token(#[trigger] r[b])
            is Some implies operand_token(r[a])->0 < operand_token(r[b])->0 by {
        assert(r[a] == p[a] && r[b] == p[b]);
    }
}

proof fn lemma_reads_empty(ts: Seq<TokenView>, lo: int, hi: int)
    ensures
        reads_left_to_right(ts, Seq::empty(), lo, hi),
{
}

proof fn lemma_reads_widen(ts: Seq<TokenView>, p: Seq<EvalStep>, lo: int, hi: int, lo2: int, hi2: int)
    requires
        reads_left_to_right(ts, p, lo, hi),
        lo2 <= lo,
        hi <= hi2,
    ensures
        reads_left_to_right(ts, p, lo2, hi2),
{
    assert forall|k: int| 0 <= k < p.len() implies match #[trigger] p[k] {
        EvalStep::Number(i) => lo2 <= i < hi2 && i < ts.len() && ts[i as int] is Number,
        EvalStep::Load { name, unit } => lo2 <= name < hi2 && name < ts.len() && ts[name as int] is Ident
            && match unit {
            Some(u) => u == name + 1 && u < hi2 && u < ts.len() && ts[u as int] is Ident,
            None => true,
        },
        _ => true,
    } by {}
}

proof fn lemma_factor_reads(ts: Seq<TokenView>, i: int)
    requires
        0 <= i,
        ts.len() <= usize::MAX,
    ensures
        reads_left_to_right(ts, factor(ts, i).steps, i, reach(ts, factor(ts, i))),
        reach(ts, factor(ts, i)) <= ts.len(),
    decreases ts.len() - i,
{
    lemma_factor_advances(ts, i);
    let f = factor(ts, i);
    if i < ts.len() {
        match ts[i] {
            TokenView::Minus => {
                lemma_factor_reads(ts, i + 1);
                let inner = factor(ts, i + 1);
                if inner.end is Ok {
                    lemma_reads_op(ts, inner.steps, EvalStep::Negate, i + 1, reach(ts, inner));
                    lemma_reads_widen(ts, f.steps, i + 1, reach(ts, inner), i, reach(ts, inner));
                } else {
                    lemma_reads_widen(ts, f.steps, i + 1, reach(ts, inner), i, reach(ts, inner));
                }
            },
            TokenView::Number { .. } => {
                assert(f.steps[0] == EvalStep::Number(i as usize));
                assert(f.steps.len() == 1);
                assert(((i as usize) as int) == i);
                assert forall|k: int| 0 <= k < f.steps.len() implies #[trigger] f.steps[k] == EvalStep::Number(
                    i as usize,
                ) by {}
            },
            TokenView::Ident(_) => {
                assert(f.steps.len() == 1);
                if i + 1 < ts.len() && ts[i + 1] is Ident {
                    assert(f.steps[0] == EvalStep::Load { name: i as usize, unit: Some((i + 1) as usize) });
                } else {
                    assert(f.steps[0] == EvalStep::Load { name: i as usize, unit: None });
                }
            },
            _ => {},
        }
    }
}

proof fn lemma_term_rest_reads(ts: Seq<TokenView>, j: int)
    requires
        0 <= j <= ts.len(),
        ts.len() <= usize::MAX,
    ensures
        reads_left_to_right(ts, term_rest(ts, j).steps, j, reach(ts, term_rest(ts, j))),
        j <= reach(ts, term_rest(ts, j)) <= ts.len(),
    decreases ts.len() - j,
{
    lemma_term_rest_advances(ts, j);
    if 0 <= j < ts.len() && product_step(ts[j]) is Some {
        let op = product_step(ts[j])->0;
        let rhs = factor(ts, j + 1);
        lemma_factor_reads(ts, j + 1);
        lemma_factor_advances(ts, j + 1);
        if let Ok(k) = rhs.end {
            lemma_reads_op(ts, rhs.steps, op, j + 1, k);
            if j < k <= ts.len() {
                lemma_term_rest_reads(ts, k);
                lemma_reads_concat(ts, rhs.steps.push(op), term_rest(ts, k).steps, j + 1, k, reach(ts, term_rest(ts, k)));
                lemma_reads_widen(ts, term_rest(ts, j).steps, j + 1, reach(ts, term_rest(ts, k)), j, reach(ts, term_rest(ts, j)));
            } else {
                lemma_reads_widen(ts, term_rest(ts, j).steps, j + 1, k, j, reach(ts, term_rest(ts, j)));
            }
        } else {
            lemma_reads_widen(ts, term_rest(ts, j).steps, j + 1, reach(ts, rhs), j, reach(ts, term_rest(ts, j)));
        }
    }
}

proof fn lemma_term_reads(ts: Seq<TokenView>, i: int)
    requires
        0 <= i,
        ts.len() <= usize::MAX,
    ensures
        reads_left_to_right(ts, term(ts, i).steps, i, reach(ts, term(ts, i))),
        reach(ts, term(ts, i)) <= ts.len(),
{
    lemma_factor_reads(ts, i);
    lemma_factor_advances(ts, i);
    if let Ok(j) = factor(ts, i).end {
        lemma_term_rest_reads(ts, j);
        lemma_reads_concat(ts, factor(ts, i).steps, term_rest(ts, j).steps, i, j, reach(ts, term_rest(ts, j)));
    }
}

proof fn lemma_expr_rest_reads(ts: Seq<TokenView>, j: int)
    requires
        0 <= j <= ts.len(),
        ts.len() <= usize::MAX,
    ensures
        reads_left_to_right(ts, expr_rest(ts, j).steps, j, reach(ts, expr_rest(ts, j))),
        j <= reach(ts, expr_rest(ts, j)) <= ts.len(),
    decreases ts.len() - j,
{
    lemma_expr_rest_advances(ts, j);
    if 0 <= j < ts.len() && sum_step(ts[j]) is Some {
        let op = sum_step(ts[j])->0;
        let rhs = term(ts, j + 1);
        lemma_term_reads(ts, j + 1);
        lemma_term_advances(ts, j + 1);
        if let Ok(k) = rhs.end {
            lemma_reads_op(ts, rhs.steps, op, j + 1, k);
            if j < k <= ts.len() {
                lemma_expr_rest_reads(ts, k);
                lemma_reads_concat(ts, rhs.steps.push(op), expr_rest(ts, k).steps, j + 1, k, reach(ts, expr_rest(ts, k)));
                lemma_reads_widen(ts, expr_rest(ts, j).steps, j + 1, reach(ts, expr_rest(ts, k)), j, reach(ts, expr_rest(ts, j)));
            } else {
                lemma_reads_widen(ts, expr_rest(ts, j).steps, j + 1, k, j, reach(ts, expr_rest(ts, j)));
            }
        } else {
            lemma_reads_widen(ts, expr_rest(ts, j).steps, j + 1, reach(ts, rhs), j, reach(ts, expr_rest(ts, j)));
        }
    }
}

/// The evaluator reads its operands left to right, each from a token of its
/// kind: numbers from number tokens, names from name tokens, a name's unit
/// from the name token right after it.
pub proof fn law_operands_are_read_left_to_right(ts: Seq<TokenView>, text: Seq<char>)
    requires
        ts.len() <= usize::MAX,
    ensures
        reads_left_to_right(ts, program(ts, text).0, 0, ts.len() as int),
{
    lemma_term_reads(ts, 0);
    lemma_term_advances(ts, 0);
    let first = term(ts, 0);
    if let Ok(j) = first.end {
        lemma_expr_rest_reads(ts, j);
        lemma_reads_concat(ts, first.steps, expr_rest(ts, j).steps, 0, j, reach(ts, expr_rest(ts, j)));
        lemma_reads_widen(ts, program(ts, text).0, 0, reach(ts, expr_rest(ts, j)), 0, ts.len() as int);
    } else {
        lemma_reads_widen(ts, program(ts, text).0, 0, reach(ts, first), 0, ts.len() as int);
    }
}

} // verus!
