//! What a program means, and that the machine computes it.
use crate::chunk::{encode, lemma_decode_encode, OpCode, Operator, MAX_CONSTANTS};
use crate::compiler::{converted, yields};
use crate::rules::lemma_compiled_literals;
use crate::syntax::{code_of, compiled, lemma_code_lines, literals, Expr};
use crate::vm::runs_to;
use vstd::prelude::*;

verus! {

/// Whether `e` can have the value `value`, where its numerals stand for the
/// constants from number `base` on and the host's `binary` and `negate` do
/// the arithmetic: operands are evaluated first, the left one before the right
/// one.
pub open spec fn evaluates<V, B: Fn(Operator, V, V) -> V, N: Fn(V) -> V>(
    e: Expr,
    constants: Seq<V>,
    base: int,
    binary: B,
    negate: N,
    value: V,
) -> bool
    decreases e,
{
    match e {
        Expr::Number { .. } => value == constants[base],
        Expr::Negate { operand, .. } => exists|x: V|
            evaluates(*operand, constants, base, binary, negate, x) && #[trigger] call_ensures(
                negate,
                (x,),
                value,
            ),
        Expr::Binary { op, left, right, .. } => exists|x: V, y: V|
            evaluates(*left, constants, base, binary, negate, x) && evaluates(
                *right,
                constants,
                base + literals(*left).len(),
                binary,
                negate,
                y,
            ) && #[trigger] call_ensures(binary, (op, x, y), value),
    }
}

/// The value of `e` where `apply` and `minus` are the arithmetic.
pub open spec fn value_of<V>(
    e: Expr,
    constants: Seq<V>,
    base: int,
    apply: spec_fn(Operator, V, V) -> V,
    minus: spec_fn(V) -> V,
) -> V
    decreases e,
{
    match e {
        Expr::Number { .. } => constants[base],
        Expr::Negate { operand, .. } => minus(value_of(*operand, constants, base, apply, minus)),
        Expr::Binary { op, left, right, .. } => apply(
            op,
            value_of(*left, constants, base, apply, minus),
            value_of(*right, constants, base + literals(*left).len(), apply, minus),
        ),
    }
}

/// The host's arithmetic is the functions `apply` and `minus`: whatever a
/// call returns is what the function gives.
pub open spec fn computes_by<V, B: Fn(Operator, V, V) -> V, N: Fn(V) -> V>(
    binary: B,
    negate: N,
    apply: spec_fn(Operator, V, V) -> V,
    minus: spec_fn(V) -> V,
) -> bool {
    &&& forall|op: Operator, x: V, y: V, value: V| #[trigger]
        call_ensures(binary, (op, x, y), value) ==> value == apply(op, x, y)
    &&& forall|x: V, value: V| #[trigger] call_ensures(negate, (x,), value) ==> value == minus(x)
}

/// Where the host's arithmetic is a function, an expression has one value.
pub proof fn lemma_evaluates_value<V, B: Fn(Operator, V, V) -> V, N: Fn(V) -> V>(
    e: Expr,
    constants: Seq<V>,
    base: int,
    binary: B,
    negate: N,
    apply: spec_fn(Operator, V, V) -> V,
    minus: spec_fn(V) -> V,
    value: V,
)
    requires
        computes_by(binary, negate, apply, minus),
        evaluates(e, constants, base, binary, negate, value),
    ensures
        value == value_of(e, constants, base, apply, minus),
    decreases e,
{
    match e {
        Expr::Number { .. } => {},
        Expr::Negate { operand, .. } => {
            let x = choose|x: V|
                evaluates(*operand, constants, base, binary, negate, x) && #[trigger] call_ensures(
                    negate,
                    (x,),
                    value,
                );
            lemma_evaluates_value(*operand, constants, base, binary, negate, apply, minus, x);
        },
        Expr::Binary { op, left, right, .. } => {
            let (x, y) = choose|x: V, y: V|
                evaluates(*left, constants, base, binary, negate, x) && evaluates(
                    *right,
                    constants,
                    base + literals(*left).len(),
                    binary,
                    negate,
                    y,
                ) && #[trigger] call_ensures(binary, (op, x, y), value);
            lemma_evaluates_value(*left, constants, base, binary, negate, apply, minus, x);
            lemma_evaluates_value(
                *right,
                constants,
                base + literals(*left).len(),
                binary,
                negate,
                apply,
                minus,
                y,
            );
        },
    }
}

/// Running the code of an expression leaves the value of the expression on
/// the stack, on top of what was there: a run that passes through the code of
/// `e`, which stands in `code` at `ip`, goes on behind it with a value of `e`
/// pushed.
pub proof fn lemma_runs_expression<V, B: Fn(Operator, V, V) -> V, N: Fn(V) -> V>(
    e: Expr,
    base: int,
    code: Seq<u8>,
    constants: Seq<V>,
    binary: B,
    negate: N,
    ip: int,
    stack: Seq<V>,
    outcome: Option<V>,
) -> (value: V)
    requires
        0 <= ip,
        ip + code_of(e, base).len() <= code.len(),
        code.subrange(ip, ip + code_of(e, base).len()) == code_of(e, base),
        0 <= base,
        base + literals(e).len() <= constants.len() <= MAX_CONSTANTS,
        runs_to(code, constants, binary, negate, ip, stack, outcome),
    ensures
        evaluates(e, constants, base, binary, negate, value),
        runs_to(code, constants, binary, negate, ip + code_of(e, base).len(), stack.push(value), outcome),
    decreases e,
{
    let mine = code_of(e, base);
    let end = ip + mine.len();
    assert(forall|i: int| 0 <= i < mine.len() ==> code[ip + i] == mine[i]);
    match e {
        Expr::Number { .. } => {
            constants[base]
        },
        Expr::Negate { operand, .. } => {
            let inner = code_of(*operand, base);
            lemma_code_lines(*operand, base);
            assert(code.subrange(ip, ip + inner.len()) =~= inner) by {
                assert forall|i: int| 0 <= i < inner.len() implies code[ip + i] == inner[i] by {
                    assert(mine[i] == inner[i]);
                }
            }
            let x = lemma_runs_expression(*operand, base, code, constants, binary, negate, ip, stack, outcome);
            let then = ip + inner.len();
            assert(code[then] == mine[inner.len() as int]);
            let after = stack.push(x);
            let value = choose|value: V| #[trigger]
                call_ensures(negate, (after.last(),), value) && runs_to(
                    code,
                    constants,
                    binary,
                    negate,
                    then + 1,
                    after.drop_last().push(value),
                    outcome,
                );
            assert(after.drop_last() =~= stack);
            value
        },
        Expr::Binary { op, left, right, .. } => {
            let first = code_of(*left, base);
            let second = code_of(*right, base + literals(*left).len());
            lemma_code_lines(*left, base);
            lemma_code_lines(*right, base + literals(*left).len());
            assert(code.subrange(ip, ip + first.len()) =~= first) by {
                assert forall|i: int| 0 <= i < first.len() implies code[ip + i] == first[i] by {
                    assert(mine[i] == first[i]);
                }
            }
            let x = lemma_runs_expression(*left, base, code, constants, binary, negate, ip, stack, outcome);
            let middle = ip + first.len();
            assert(code.subrange(middle, middle + second.len()) =~= second) by {
                assert forall|i: int| 0 <= i < second.len() implies code[middle + i] == second[i] by {
                    assert(mine[first.len() + i] == second[i]);
                }
            }
            let y = lemma_runs_expression(
                *right,
                base + literals(*left).len(),
                code,
                constants,
                binary,
                negate,
                middle,
                stack.push(x),
                outcome,
            );
            let then = middle + second.len();
            assert(code[then] == mine[(first.len() + second.len()) as int]);
            lemma_decode_encode(op.opcode(), code[then]);
            let after = stack.push(x).push(y);
            let value = choose|value: V| #[trigger]
                call_ensures(binary, (op, after[after.len() - 2], after.last()), value) && runs_to(
                    code,
                    constants,
                    binary,
                    negate,
                    then + 1,
                    after.drop_last().drop_last().push(value),
                    outcome,
                );
            assert(after.drop_last().drop_last() =~= stack);
            value
        },
    }
}

/// The machine computes what the source means. Where `src` compiles, every
/// run of its code, with a pool that holds one constant for each numeral, ends in
/// `Return`, and what it returns is a value of the expression that `src`
/// denotes.
pub proof fn lemma_run_evaluates<V, B: Fn(Operator, V, V) -> V, N: Fn(V) -> V>(
    src: Seq<char>,
    reads: Set<Seq<char>>,
    constants: Seq<V>,
    binary: B,
    negate: N,
    outcome: Option<V>,
)
    requires
        compiled(src, reads) is Ok,
        constants.len() == compiled(src, reads)->Ok_0.literals.len(),
        runs_to(compiled(src, reads)->Ok_0.code, constants, binary, negate, 0, Seq::empty(), outcome),
    ensures
        outcome matches Some(value) && evaluates(
            compiled(src, reads)->Ok_0.expression,
            constants,
            0,
            binary,
            negate,
            value,
        ),
{
    let program = compiled(src, reads)->Ok_0;
    let e = program.expression;
    lemma_compiled_literals(src, reads);
    assert(program.code.subrange(0, code_of(e, 0).len() as int) =~= code_of(e, 0));
    let value = lemma_runs_expression(
        e,
        0,
        program.code,
        constants,
        binary,
        negate,
        0,
        Seq::empty(),
        outcome,
    );
}

/// `read` is what the host's conversion makes of a numeral.
pub open spec fn reads_by<V, P: Fn(&str) -> Option<V>>(number: P, read: spec_fn(Seq<char>) -> V) -> bool {
    forall|text: &str, value: V| #[trigger] call_ensures(number, (text,), Some(value)) ==> value == read(text@)
}

/// The value of the expression that a source text denotes, where `read` gives
/// the number that a numeral stands for and `apply` and `minus` are the
/// arithmetic.
pub open spec fn meaning<V>(
    src: Seq<char>,
    reads: Set<Seq<char>>,
    read: spec_fn(Seq<char>) -> V,
    apply: spec_fn(Operator, V, V) -> V,
    minus: spec_fn(V) -> V,
) -> V {
    value_of(
        compiled(src, reads)->Ok_0.expression,
        compiled(src, reads)->Ok_0.literals.map_values(read),
        0,
        apply,
        minus,
    )
}

/// Where the host's conversion and arithmetic are functions, the machine's
/// result for a source that compiles is the value of its expression under
/// those functions.
pub proof fn lemma_run_computes_meaning<V, P: Fn(&str) -> Option<V>, B: Fn(Operator, V, V) -> V, N: Fn(V) -> V>(
    src: Seq<char>,
    reads: Set<Seq<char>>,
    constants: Seq<V>,
    number: P,
    binary: B,
    negate: N,
    read: spec_fn(Seq<char>) -> V,
    apply: spec_fn(Operator, V, V) -> V,
    minus: spec_fn(V) -> V,
    outcome: Option<V>,
)
    requires
        compiled(src, reads) is Ok,
        converted(number, compiled(src, reads)->Ok_0.literals, constants),
        runs_to(compiled(src, reads)->Ok_0.code, constants, binary, negate, 0, Seq::empty(), outcome),
        reads_by(number, read),
        computes_by(binary, negate, apply, minus),
    ensures
        outcome == Some(meaning(src, reads, read, apply, minus)),
{
    let program = compiled(src, reads)->Ok_0;
    lemma_run_evaluates(src, reads, constants, binary, negate, outcome);
    lemma_evaluates_value(program.expression, constants, 0, binary, negate, apply, minus, outcome->Some_0);
    assert(constants =~= program.literals.map_values(read));
}

} // verus!
