//! The virtual machine: a stack machine that runs a chunk.
use crate::chunk::{decode, Chunk, OpCode, Operator};
use crate::compiler::{compile, converted, decides, readable, reads_numerals, wavers};
use crate::semantics::{evaluates, lemma_run_evaluates};
use crate::syntax::{compiled, Diagnostic, DiagnosticView, Program};
use vstd::prelude::*;

verus! {

/// How a call of `interpret` ended.
#[derive(Debug)]
pub enum InterpretResult<V> {
    /// The code ran to its `Return`, which gave this value.
    Success(V),
    /// The source did not compile; this was reported.
    CompileError(Diagnostic),
    /// The code could not be run to its end.
    RuntimeError,
}

impl<V> InterpretResult<V> {
    /// What a run ended in: the value it returned, or nothing if it failed.
    pub open spec fn outcome(self) -> Option<V> {
        match self {
            InterpretResult::Success(value) => Some(value),
            _ => None,
        }
    }
}

/// The host's arithmetic can be applied to any operands.
pub open spec fn computes<V, B: Fn(Operator, V, V) -> V, N: Fn(V) -> V>(binary: B, negate: N) -> bool {
    &&& forall|op: Operator, left: V, right: V| call_requires(binary, (op, left, right))
    &&& forall|operand: V| call_requires(negate, (operand,))
}

/// Whether running `code` from instruction `ip` on with `stack` can end in
/// `outcome`: `Some` of the value that `Return` pops, or `None` where the
/// machine stops with a runtime error. That happens at a byte that is no
/// instruction, at a missing or wrong operand, where an operand is missing on
/// the stack, and where the code ends without `Return`.
///
/// The host's `binary` and `negate` do the arithmetic. What they may return is
/// known only by their contracts, so this is a relation: it holds of every
/// outcome that those allow.
pub open spec fn runs_to<V, B: Fn(Operator, V, V) -> V, N: Fn(V) -> V>(
    code: Seq<u8>,
    constants: Seq<V>,
    binary: B,
    negate: N,
    ip: int,
    stack: Seq<V>,
    outcome: Option<V>,
) -> bool
    decreases code.len() - ip,
{
    if ip < 0 || ip >= code.len() {
        outcome is None
    } else {
        match decode(code[ip]) {
            None => outcome is None,
            Some(OpCode::Constant) => if ip + 1 < code.len() && code[ip + 1] < constants.len() {
                runs_to(
                    code,
                    constants,
                    binary,
                    negate,
                    ip + 2,
                    stack.push(constants[code[ip + 1] as int]),
                    outcome,
                )
            } else {
                outcome is None
            },
            Some(OpCode::Negate) => if stack.len() >= 1 {
                exists|value: V|
                    #[trigger] call_ensures(negate, (stack.last(),), value) && runs_to(
                        code,
                        constants,
                        binary,
                        negate,
                        ip + 1,
                        stack.drop_last().push(value),
                        outcome,
                    )
            } else {
                outcome is None
            },
            Some(OpCode::Return) => if stack.len() >= 1 {
                outcome == Some(stack.last())
            } else {
                outcome is None
            },
            Some(op) => if stack.len() >= 2 {
                exists|value: V|
                    #[trigger] call_ensures(
                        binary,
                        (op.operator()->Some_0, stack[stack.len() - 2], stack.last()),
                        value,
                    ) && runs_to(
                        code,
                        constants,
                        binary,
                        negate,
                        ip + 1,
                        stack.drop_last().drop_last().push(value),
                        outcome,
                    )
            } else {
                outcome is None
            },
        }
    }
}

/// One step of the machine at a binary instruction: where the host's
/// arithmetic can return `value`, the run can go on from the stack that holds
/// `value` in place of the two operands.
pub proof fn lemma_binary_step<V, B: Fn(Operator, V, V) -> V, N: Fn(V) -> V>(
    code: Seq<u8>,
    constants: Seq<V>,
    binary: B,
    negate: N,
    ip: int,
    stack: Seq<V>,
    value: V,
    outcome: Option<V>,
)
    requires
        0 <= ip < code.len(),
        decode(code[ip]) matches Some(op) && op.operator() is Some,
        stack.len() >= 2,
        call_ensures(
            binary,
            (decode(code[ip])->Some_0.operator()->Some_0, stack[stack.len() - 2], stack.last()),
            value,
        ),
        runs_to(code, constants, binary, negate, ip + 1, stack.drop_last().drop_last().push(value), outcome),
    ensures
        runs_to(code, constants, binary, negate, ip, stack, outcome),
{
}

/// One step of the machine at `Negate`.
pub proof fn lemma_negate_step<V, B: Fn(Operator, V, V) -> V, N: Fn(V) -> V>(
    code: Seq<u8>,
    constants: Seq<V>,
    binary: B,
    negate: N,
    ip: int,
    stack: Seq<V>,
    value: V,
    outcome: Option<V>,
)
    requires
        0 <= ip < code.len(),
        decode(code[ip]) == Some(OpCode::Negate),
        stack.len() >= 1,
        call_ensures(negate, (stack.last(),), value),
        runs_to(code, constants, binary, negate, ip + 1, stack.drop_last().push(value), outcome),
    ensures
        runs_to(code, constants, binary, negate, ip, stack, outcome),
{
}

/// The machine: an instruction pointer and an operand stack.
pub struct VM<V> {
    ip: usize,
    stack: Vec<V>,
}

impl<V: Copy> VM<V> {
    /// The operand stack, bottom first.
    pub closed spec fn stack(&self) -> Seq<V> {
        self.stack@
    }

    /// The offset of the next instruction.
    pub closed spec fn ip(&self) -> int {
        self.ip as int
    }

    pub fn new() -> (vm: VM<V>)
        ensures
            vm.ip() == 0,
            vm.stack() == Seq::<V>::empty(),
    {
        VM { ip: 0, stack: Vec::new() }
    }

    /// Compiles `source` and runs the code. `number` converts the numerals
    /// of the source; `binary` and `negate` do the arithmetic.
    ///
    /// A compile error leaves the machine untouched, and is the error of
    /// the source unless the host's conversion has wavered. A source that
    /// compiles gives a value of its expression: its code never fails.
    pub fn interpret<P: Fn(&str) -> Option<V>, B: Fn(Operator, V, V) -> V, N: Fn(V) -> V>(
        &mut self,
        source: Vec<char>,
        number: &P,
        binary: &B,
        negate: &N,
    ) -> (result: InterpretResult<V>)
        requires
            source@.len() < i32::MAX,
            reads_numerals(*number),
            computes(*binary, *negate),
        ensures
            match result {
                InterpretResult::CompileError(reported) => {
                    &&& final(self).ip() == old(self).ip()
                    &&& final(self).stack() == old(self).stack()
                    &&& compiled(source@, readable(*number)) == Err::<Program, DiagnosticView>(reported@)
                        || wavers(*number, reported@)
                    &&& decides(*number) ==> compiled(source@, readable(*number)) == Err::<
                        Program,
                        DiagnosticView,
                    >(reported@)
                },
                InterpretResult::Success(value) => {
                    &&& final(self).ip() == 0
                    &&& final(self).stack() == Seq::<V>::empty()
                    &&& compiled(source@, readable(*number)) matches Ok(program)
                    &&& exists|constants: Seq<V>|
                        {
                            &&& #[trigger] converted(*number, program.literals, constants)
                            &&& runs_to(
                                program.code,
                                constants,
                                *binary,
                                *negate,
                                0,
                                Seq::empty(),
                                Some(value),
                            )
                            &&& evaluates(program.expression, constants, 0, *binary, *negate, value)
                        }
                },
                InterpretResult::RuntimeError => false,
            },
    {
        match compile(&source, number) {
            Ok(chunk) => {
                let result = self.run(&chunk, binary, negate);
                proof {
                    lemma_run_evaluates(
                        source@,
                        readable(*number),
                        chunk.constants@,
                        *binary,
                        *negate,
                        result.outcome(),
                    );
                }
                result
            },
            Err(reported) => InterpretResult::CompileError(reported),
        }
    }

    /// Runs the code of `chunk` from its first instruction on an empty
    /// stack, until `Return` or an error. The state of a run belongs to that
    /// run: what the machine held before is discarded when the run begins, and
    /// what the run leaves behind when it ends.
    pub fn run<B: Fn(Operator, V, V) -> V, N: Fn(V) -> V>(
        &mut self,
        chunk: &Chunk<V>,
        binary: &B,
        negate: &N,
    ) -> (result: InterpretResult<V>)
        requires
            computes(*binary, *negate),
        ensures
            !(result is CompileError),
            runs_to(chunk.code@, chunk.constants@, *binary, *negate, 0, Seq::empty(), result.outcome()),
            final(self).ip() == 0,
            final(self).stack() == Seq::<V>::empty(),
    {
        self.reset();
        let result = self.execute(chunk, binary, negate);
        self.reset();
        result
    }

    /// Discards the state of a run.
    fn reset(&mut self)
        ensures
            final(self).ip == 0,
            final(self).stack@ == Seq::<V>::empty(),
    {
        self.ip = 0;
        self.stack.clear();
    }

    /// The fetch, decode and execute loop.
    fn execute<B: Fn(Operator, V, V) -> V, N: Fn(V) -> V>(
        &mut self,
        chunk: &Chunk<V>,
        binary: &B,
        negate: &N,
    ) -> (result: InterpretResult<V>)
        requires
            computes(*binary, *negate),
            old(self).ip == 0,
            old(self).stack@ == Seq::<V>::empty(),
        ensures
            !(result is CompileError),
            runs_to(chunk.code@, chunk.constants@, *binary, *negate, 0, Seq::empty(), result.outcome()),
    {
        let ghost code = chunk.code@;
        let ghost constants = chunk.constants@;
        loop
            invariant
                computes(*binary, *negate),
                code == chunk.code@,
                constants == chunk.constants@,
                self.ip <= code.len(),
                forall|outcome: Option<V>| #[trigger]
                    runs_to(code, constants, *binary, *negate, self.ip as int, self.stack@, outcome)
                        ==> runs_to(code, constants, *binary, *negate, 0, Seq::empty(), outcome),
            decreases code.len() - self.ip,
        {
            let ghost at = self.ip as int;
            let ghost before = self.stack@;
            // Every way in which this step can fail ends the run with an error.
            let ghost fails = runs_to(code, constants, *binary, *negate, at, before, None);
            if self.ip >= chunk.code.len() {
                assert(fails);
                return InterpretResult::RuntimeError;
            }
            let instruction = OpCode::from_u8(self.read_byte(chunk));
            match instruction {
                Some(OpCode::Constant) => {
                    if self.ip >= chunk.code.len() {
                        assert(fails);
                        return InterpretResult::RuntimeError;
                    }
                    let index = self.read_byte(chunk);
                    if index as usize >= chunk.constants.len() {
                        assert(fails);
                        return InterpretResult::RuntimeError;
                    }
                    let constant = chunk.read_constant(index);
                    self.push(constant);
                    assert forall|outcome: Option<V>| #[trigger]
                        runs_to(
                            code,
                            constants,
                            *binary,
                            *negate,
                            self.ip as int,
                            self.stack@,
                            outcome,
                        ) implies runs_to(code, constants, *binary, *negate, 0, Seq::empty(), outcome) by {
                        assert(runs_to(code, constants, *binary, *negate, at, before, outcome));
                    }
                },
                Some(OpCode::Negate) => {
                    match self.pop() {
                        Some(operand) => {
                            let value = negate(operand);
                            self.push(value);
                            assert forall|outcome: Option<V>| #[trigger]
                                runs_to(
                                    code,
                                    constants,
                                    *binary,
                                    *negate,
                                    self.ip as int,
                                    self.stack@,
                                    outcome,
                                ) implies runs_to(
                                    code,
                                    constants,
                                    *binary,
                                    *negate,
                                    0,
                                    Seq::empty(),
                                    outcome,
                                ) by {
                                lemma_negate_step(
                                    code,
                                    constants,
                                    *binary,
                                    *negate,
                                    at,
                                    before,
                                    value,
                                    outcome,
                                );
                            }
                        },
                        None => {
                            assert(fails);
                            return InterpretResult::RuntimeError;
                        },
                    }
                },
                Some(OpCode::Return) => {
                    match self.pop() {
                        Some(value) => {
                            assert(runs_to(code, constants, *binary, *negate, at, before, Some(value)));
                            return InterpretResult::Success(value);
                        },
                        None => {
                            assert(fails);
                            return InterpretResult::RuntimeError;
                        },
                    }
                },
                Some(op) => {
                    let operator = match op {
                        OpCode::Add => Operator::Add,
                        OpCode::Subtract => Operator::Subtract,
                        OpCode::Multiply => Operator::Multiply,
                        _ => Operator::Divide,
                    };
                    match self.binary_op(operator, binary) {
                        Some(value) => {
                            assert forall|outcome: Option<V>| #[trigger]
                                runs_to(
                                    code,
                                    constants,
                                    *binary,
                                    *negate,
                                    self.ip as int,
                                    self.stack@,
                                    outcome,
                                ) implies runs_to(
                                    code,
                                    constants,
                                    *binary,
                                    *negate,
                                    0,
                                    Seq::empty(),
                                    outcome,
                                ) by {
                                lemma_binary_step(
                                    code,
                                    constants,
                                    *binary,
                                    *negate,
                                    at,
                                    before,
                                    value,
                                    outcome,
                                );
                            }
                        },
                        None => {
                            assert(fails);
                            return InterpretResult::RuntimeError;
                        },
                    }
                },
                None => {
                    assert(fails);
                    return InterpretResult::RuntimeError;
                },
            }
        }
    }

    /// Pops the right operand, then the left one, and pushes what `binary`
    /// makes of them: that value is returned. Where the stack holds fewer than
    /// two values it stays as it is, and nothing is returned.
    fn binary_op<B: Fn(Operator, V, V) -> V>(&mut self, op: Operator, binary: &B) -> (pushed: Option<V>)
        requires
            forall|op: Operator, left: V, right: V| call_requires(*binary, (op, left, right)),
        ensures
            final(self).ip == old(self).ip,
            pushed is Some == (old(self).stack@.len() >= 2),
            pushed is None ==> final(self).stack@ == old(self).stack@,
            pushed matches Some(value) ==> {
                &&& call_ensures(
                    *binary,
                    (op, old(self).stack@[old(self).stack@.len() - 2], old(self).stack@.last()),
                    value,
                )
                &&& final(self).stack@ == old(self).stack@.drop_last().drop_last().push(value)
            },
    {
        if self.stack.len() < 2 {
            return None;
        }
        let right = self.stack.pop().unwrap();
        let left = self.stack.pop().unwrap();
        let value = binary(op, left, right);
        self.push(value);
        Some(value)
    }

    pub fn push(&mut self, value: V)
        ensures
            final(self).ip() == old(self).ip(),
            final(self).stack() == old(self).stack().push(value),
    {
        self.stack.push(value);
    }

    /// Takes the top value off the stack; there is none on an empty stack.
    pub fn pop(&mut self) -> (value: Option<V>)
        ensures
            final(self).ip() == old(self).ip(),
            old(self).stack().len() > 0 ==> value == Some(old(self).stack().last()) && final(self).stack()
                == old(self).stack().drop_last(),
            old(self).stack().len() == 0 ==> value.is_none() && final(self).stack() == old(self).stack(),
    {
        self.stack.pop()
    }

    fn read_byte(&mut self, chunk: &Chunk<V>) -> (byte: u8)
        requires
            old(self).ip < chunk.code.len(),
        ensures
            final(self).ip == old(self).ip + 1,
            final(self).stack == old(self).stack,
            byte == chunk.code@[old(self).ip as int],
    {
        let byte: u8 = chunk.code[self.ip];
        self.ip += 1;
        byte
    }
}

} // verus!
