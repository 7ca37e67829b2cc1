use crate::chunk::{Chunk, OpCode};
use crate::compiler::compile;
use crate::error::InterpretError;
use crate::table::Table;
use crate::value::{Value, ValueModel};
use std::rc::Rc;
use vstd::prelude::*;

verus! {

/// What one executed instruction asks of the dispatch loop: go on, or halt
/// normally.
#[allow(non_camel_case_types)]
#[derive(PartialEq, Eq, Structural, Clone, Copy, Debug)]
pub enum InterpretOk {
    INTERPRET_CONTINUE,
    INTERPRET_OK,
}

/// The most instructions one run may execute. Execution is bounded so that
/// the dispatch loop provably ends; a program still running when the
/// budget is spent is reported as a runtime error. A host that accepts
/// untrusted programs is expected to bound them itself.
pub const EXECUTION_BUDGET: u64 = 0xFFFF_FFFF_FFFF;

/// The string content of an object model; empty for the other kinds.
pub open spec fn model_str(m: ValueModel) -> Seq<char> {
    match m {
        ValueModel::Str(s) => s,
        _ => Seq::empty(),
    }
}

/// The number carried by a number model; zero for the other kinds.
pub open spec fn model_num(m: ValueModel) -> int {
    match m {
        ValueModel::Number(n) => n,
        _ => 0,
    }
}

/// Truncated signed division, as the division instruction computes it.
pub open spec fn div_trunc(a: int, b: int) -> int {
    let ma = if a < 0 {
        -a
    } else {
        a
    };
    let mb = if b < 0 {
        -b
    } else {
        b
    };
    if (a < 0) != (b < 0) {
        -(ma / mb)
    } else {
        ma / mb
    }
}

/// The virtual machine: the chunk being executed, the instruction pointer,
/// the operand stack, the global-variable table, the registry of live heap
/// objects, and the lines the program has printed, in order.
#[allow(non_snake_case)]
pub struct VM {
    pub chunk: Chunk,
    /// instruction pointer, points at the bytecode about to be executed
    pub ip: usize,
    pub stack: Vec<Value>,
    pub table: Table,
    pub objects: Vec<Rc<String>>,
    pub printed: Vec<String>,
}

impl Default for VM {
    fn default() -> (vm: Self)
        ensures
            vm.wf(),
            vm.ip == 0,
            vm.stack@.len() == 0,
            vm.chunk.code@.len() == 0,
            vm.table.contents() == Map::<Seq<char>, Value>::empty(),
            vm.objects@.len() == 0,
            vm.printed@.len() == 0,
    {
        VM {
            chunk: Chunk::default(),
            ip: 0,
            stack: Vec::new(),
            table: Table::new(),
            objects: Vec::new(),
            printed: Vec::new(),
        }
    }
}

impl VM {
    pub open spec fn wf(&self) -> bool {
        &&& self.chunk.wf()
        &&& self.table.inv()
    }

    /// nil and false are falsey and every other value behaves like true.
    pub open spec fn falsey(m: ValueModel) -> bool {
        m == ValueModel::Nil || m == ValueModel::Bool(false)
    }

    pub fn is_falsey(value: Value) -> (r: bool)
        ensures
            r == VM::falsey(value@),
    {
        match value {
            Value::Nil => true,
            Value::Bool(b) => !b,
            _ => false,
        }
    }

    fn push(&mut self, value: Value)
        ensures
            final(self).stack@ == old(self).stack@.push(value),
            final(self).chunk == old(self).chunk,
            final(self).ip == old(self).ip,
            final(self).table == old(self).table,
            final(self).objects == old(self).objects,
            final(self).printed == old(self).printed,
    {
        self.stack.push(value);
    }

    fn pop(&mut self) -> (r: Option<Value>)
        ensures
            final(self).chunk == old(self).chunk,
            final(self).ip == old(self).ip,
            final(self).table == old(self).table,
            final(self).objects == old(self).objects,
            final(self).printed == old(self).printed,
            old(self).stack@.len() == 0 ==> r is None && final(self).stack@ == old(self).stack@,
            old(self).stack@.len() > 0 ==> r == Some(old(self).stack@.last())
                && final(self).stack@ == old(self).stack@.drop_last(),
    {
        self.stack.pop()
    }

    fn peek(&self, from_top: usize) -> (r: Option<&Value>)
        ensures
            from_top < self.stack@.len() ==> r == Some(
                &self.stack@[self.stack@.len() - from_top - 1],
            ),
            from_top >= self.stack@.len() ==> r is None,
    {
        let len = self.stack.len();
        if from_top >= len {
            return None;
        }
        Some(&self.stack[len - from_top - 1])
    }

    /// Registers a freshly allocated object so the end-of-session sweep can
    /// release it.
    fn track_object(&mut self, val: &Value)
        requires
            *val is Obj,
        ensures
            final(self).objects@.len() == old(self).objects@.len() + 1,
            match *val {
                Value::Obj(o) => final(self).objects@ == old(self).objects@.push(o),
                _ => true,
            },
            final(self).chunk == old(self).chunk,
            final(self).ip == old(self).ip,
            final(self).stack == old(self).stack,
            final(self).table == old(self).table,
            final(self).printed == old(self).printed,
    {
        match val.as_obj() {
            Ok(rc) => self.objects.push(rc),
            Err(_) => {},
        }
    }

    /// Pops the top two values, joins their text, and pushes the result.
    fn concatenate(&mut self)
        requires
            old(self).stack@.len() >= 2,
            old(self).stack@[old(self).stack@.len() - 1] is Obj,
            old(self).stack@[old(self).stack@.len() - 2] is Obj,
        ensures
            final(self).chunk == old(self).chunk,
            final(self).ip == old(self).ip,
            final(self).table == old(self).table,
            final(self).printed == old(self).printed,
            final(self).stack@.len() == old(self).stack@.len() - 1,
            final(self).stack@.drop_last() == old(self).stack@.drop_last().drop_last(),
            final(self).stack@.last()@ == ValueModel::Str(
                model_str(old(self).stack@[old(self).stack@.len() - 2]@) + model_str(
                    old(self).stack@[old(self).stack@.len() - 1]@,
                ),
            ),
            final(self).objects@.len() == old(self).objects@.len() + 1,
            final(self).objects@.drop_last() == old(self).objects@,
            final(self).objects@.last()@ == model_str(
                old(self).stack@[old(self).stack@.len() - 2]@,
            ) + model_str(old(self).stack@[old(self).stack@.len() - 1]@),
    {
        let b = self.pop();
        let a = self.pop();
        let bs = match b {
            Some(v) => match v.as_string() {
                Ok(s) => s,
                Err(_) => String::new(),
            },
            None => String::new(),
        };
        let a_s = match a {
            Some(v) => match v.as_string() {
                Ok(s) => s,
                Err(_) => String::new(),
            },
            None => String::new(),
        };
        let cat = a_s.concat(bs.as_str());
        let obj = Value::Obj(Rc::new(cat));
        self.track_object(&obj);
        self.push(obj);
        proof {
            assert(final(self).stack@.drop_last() =~= old(self).stack@.drop_last().drop_last());
            assert(final(self).objects@.drop_last() =~= old(self).objects@);
        }
    }

    fn read_byte(&mut self) -> (op: OpCode)
        requires
            old(self).ip < old(self).chunk.code@.len(),
        ensures
            op == old(self).chunk.code@[old(self).ip as int],
            final(self).ip == old(self).ip + 1,
            final(self).chunk == old(self).chunk,
            final(self).stack == old(self).stack,
            final(self).table == old(self).table,
            final(self).objects == old(self).objects,
            final(self).printed == old(self).printed,
    {
        let n = self.chunk.code.len();
        let instruction = self.chunk.code[self.ip];
        self.ip = self.ip + 1;
        instruction
    }

    /// Reads the string a constant-pool slot names; a runtime error when
    /// the slot does not hold a string.
    fn constant_name(&self, index: usize) -> (r: Result<String, InterpretError>)
        requires
            index < self.chunk.constants@.len(),
        ensures
            match r {
                Ok(s) => self.chunk.constants@[index as int] is Obj && s@ == model_str(
                    self.chunk.constants@[index as int]@,
                ),
                Err(e) => !(self.chunk.constants@[index as int] is Obj) && e
                    == InterpretError::RUNTIME_ERROR,
            },
    {
        match &self.chunk.constants[index] {
            Value::Obj(o) => Ok((**o).clone()),
            _ => Err(InterpretError::RUNTIME_ERROR),
        }
    }

    /// Executes the instruction under the instruction pointer: the exact
    /// effect of each opcode on the stack, the globals and the printed
    /// lines, and which errors it can raise.
    fn step(&mut self) -> (r: Result<(InterpretOk, Option<Value>), InterpretError>)
        requires
            old(self).wf(),
            old(self).ip < old(self).chunk.code@.len(),
        ensures
            final(self).wf(),
            final(self).chunk == old(self).chunk,
            step_post(*old(self), *final(self), r),
    {
        proof {
            assert(crate::chunk::op_wf(
                self.chunk.code@[self.ip as int],
                self.chunk.constants@.len() as int,
                self.chunk.code@.len() as int,
                self.ip as int,
            ));
        }
        let code_len = self.chunk.code.len();
        let instruction = self.read_byte();
        match instruction {
            OpCode::OP_RETURN => {
                //changed in the global variable chapter
                match self.pop() {
                    Some(v) => Ok((InterpretOk::INTERPRET_OK, Some(v))),
                    None => Ok((InterpretOk::INTERPRET_OK, None)),
                }
            },
            OpCode::OP_CONSTANT(index) => {
                let value = self.chunk.constants[index].clone();
                self.push(value);
                Ok((InterpretOk::INTERPRET_CONTINUE, None))
            },
            OpCode::OP_NEGATE => {
                let ok = match self.peek(0) {
                    Some(v) => v.is_number(),
                    None => false,
                };
                if !ok {
                    // Operand must be a number.
                    return Err(InterpretError::RUNTIME_ERROR);
                }
                match self.pop() {
                    Some(v) => {
                        let number = match v.as_number() {
                            Ok(n) => n,
                            Err(_) => 0,
                        };
                        self.push(Value::number_value((0i64).wrapping_sub(number)));
                        proof {
                            assert(self.stack@.drop_last() =~= old(self).stack@.drop_last());
                        }
                        Ok((InterpretOk::INTERPRET_CONTINUE, None))
                    },
                    None => Err(InterpretError::RUNTIME_ERROR),
                }
            },
            OpCode::OP_NOT => {
                match self.pop() {
                    Some(v) => {
                        let falsey = VM::is_falsey(v);
                        self.push(Value::bool_val(falsey));
                        Ok((InterpretOk::INTERPRET_CONTINUE, None))
                    },
                    None => Err(InterpretError::RUNTIME_ERROR),
                }
            },
            OpCode::OP_NIL => {
                self.push(Value::nil_value());
                Ok((InterpretOk::INTERPRET_CONTINUE, None))
            },
            OpCode::OP_TRUE => {
                self.push(Value::bool_val(true));
                Ok((InterpretOk::INTERPRET_CONTINUE, None))
            },
            OpCode::OP_FALSE => {
                self.push(Value::bool_val(false));
                Ok((InterpretOk::INTERPRET_CONTINUE, None))
            },
            OpCode::OP_EQUAL => {
                let a = match self.pop() {
                    Some(v) => v,
                    None => {
                        return Err(InterpretError::RUNTIME_ERROR);
                    },
                };
                let b = match self.pop() {
                    Some(v) => v,
                    None => {
                        return Err(InterpretError::RUNTIME_ERROR);
                    },
                };
                let eq = Value::values_equal(a, b);
                self.push(Value::bool_val(eq));
                Ok((InterpretOk::INTERPRET_CONTINUE, None))
            },
            OpCode::OP_POP => {
                match self.pop() {
                    Some(_) => Ok((InterpretOk::INTERPRET_CONTINUE, None)),
                    None => Err(InterpretError::RUNTIME_ERROR),
                }
            },
            OpCode::OP_DEFINE_GLOBAL(index) => {
                let name = match self.constant_name(index) {
                    Ok(n) => n,
                    Err(e) => {
                        return Err(e);
                    },
                };
                let value = match self.pop() {
                    Some(v) => v,
                    None => {
                        return Err(InterpretError::RUNTIME_ERROR);
                    },
                };
                match self.table.insert(name.as_str(), value) {
                    Ok(_) => Ok((InterpretOk::INTERPRET_CONTINUE, None)),
                    Err(_) => Err(InterpretError::RUNTIME_ERROR),
                }
            },
            OpCode::OP_GET_GLOBAL(index) => {
                let key = match self.constant_name(index) {
                    Ok(n) => n,
                    Err(e) => {
                        return Err(e);
                    },
                };
                let stack_value = match self.table.get(key.as_str()) {
                    Some(value) => value.clone(),
                    None => {
                        // Undefined variable.
                        return Err(InterpretError::RUNTIME_UNRECOGNIZED_VARIABLE_ERROR);
                    },
                };
                self.push(stack_value);
                Ok((InterpretOk::INTERPRET_CONTINUE, None))
            },
            OpCode::OP_SET_GLOBAL(index) => {
                let key = match self.constant_name(index) {
                    Ok(n) => n,
                    Err(e) => {
                        return Err(e);
                    },
                };
                let updated_value = match self.peek(0) {
                    Some(v) => v.clone(),
                    None => {
                        return Err(InterpretError::RUNTIME_ERROR);
                    },
                };
                let defined = match self.table.get(key.as_str()) {
                    Some(_) => true,
                    None => false,
                };
                if !defined {
                    // Undefined variable.
                    return Err(InterpretError::RUNTIME_UNRECOGNIZED_VARIABLE_ERROR);
                }
                match self.table.insert(key.as_str(), updated_value) {
                    Ok(_) => Ok((InterpretOk::INTERPRET_CONTINUE, None)),
                    Err(_) => Err(InterpretError::RUNTIME_ERROR),
                }
            },
            // Loads the value from the local's stack slot and pushes it on
            // top, where later instructions can find it.
            OpCode::OP_GET_LOCAL(index) => {
                if index >= self.stack.len() {
                    return Err(InterpretError::RUNTIME_ERROR);
                }
                let local = self.stack[index].clone();
                self.push(local);
                Ok((InterpretOk::INTERPRET_CONTINUE, None))
            },
            // Stores the top of the stack into the local's slot, leaving
            // the value on top.
            OpCode::OP_SET_LOCAL(index) => {
                let updated_value = match self.peek(0) {
                    Some(v) => v.clone(),
                    None => {
                        return Err(InterpretError::RUNTIME_ERROR);
                    },
                };
                if index >= self.stack.len() {
                    return Err(InterpretError::RUNTIME_ERROR);
                }
                self.stack[index] = updated_value;
                Ok((InterpretOk::INTERPRET_CONTINUE, None))
            },
            OpCode::OP_GREATER => {
                match binary_operator(self, '>') {
                    Ok(_) => Ok((InterpretOk::INTERPRET_CONTINUE, None)),
                    Err(e) => Err(e),
                }
            },
            OpCode::OP_LESS => {
                match binary_operator(self, '<') {
                    Ok(_) => Ok((InterpretOk::INTERPRET_CONTINUE, None)),
                    Err(e) => Err(e),
                }
            },
            OpCode::OP_ADD => {
                let both_strings = {
                    let top_is = match self.peek(0) {
                        Some(v) => Value::is_string(v),
                        None => false,
                    };
                    let under_is = match self.peek(1) {
                        Some(v) => Value::is_string(v),
                        None => false,
                    };
                    top_is && under_is
                };
                if both_strings {
                    self.concatenate();
                    Ok((InterpretOk::INTERPRET_CONTINUE, None))
                } else {
                    match binary_operator(self, '+') {
                        Ok(_) => Ok((InterpretOk::INTERPRET_CONTINUE, None)),
                        Err(_) => {
                            // Operands must be two numbers or two strings.
                            Err(InterpretError::RUNTIME_ERROR)
                        },
                    }
                }
            },
            OpCode::OP_SUBTRACT => {
                match binary_operator(self, '-') {
                    Ok(_) => Ok((InterpretOk::INTERPRET_CONTINUE, None)),
                    Err(e) => Err(e),
                }
            },
            OpCode::OP_MULTIPLY => {
                match binary_operator(self, '*') {
                    Ok(_) => Ok((InterpretOk::INTERPRET_CONTINUE, None)),
                    Err(e) => Err(e),
                }
            },
            OpCode::OP_DIVIDE => {
                match binary_operator(self, '/') {
                    Ok(_) => Ok((InterpretOk::INTERPRET_CONTINUE, None)),
                    Err(e) => Err(e),
                }
            },
            OpCode::OP_DEBUG => {
                // An instruction the machine has no behaviour for.
                Err(InterpretError::RUNTIME_ERROR)
            },
            OpCode::OP_ASSERT_EQ => {
                let a = match self.pop() {
                    Some(v) => v,
                    None => {
                        return Err(InterpretError::RUNTIME_ERROR);
                    },
                };
                let b = match self.pop() {
                    Some(v) => v,
                    None => {
                        return Err(InterpretError::RUNTIME_ERROR);
                    },
                };
                if a.kind() != b.kind() {
                    // Only values of one kind compare.
                    Err(InterpretError::RUNTIME_ERROR)
                } else if !Value::values_equal(a, b) {
                    // The asserted values are not equal.
                    Err(InterpretError::RUNTIME_ASSERT_ERROR)
                } else {
                    Ok((InterpretOk::INTERPRET_CONTINUE, None))
                }
            },
            OpCode::OP_PRINT => {
                match self.pop() {
                    Some(v) => {
                        let line = v.render();
                        self.printed.push(line);
                        proof {
                            assert(self.printed@.drop_last() =~= old(self).printed@);
                        }
                        Ok((InterpretOk::INTERPRET_CONTINUE, None))
                    },
                    None => Err(InterpretError::RUNTIME_ERROR),
                }
            },
            OpCode::OP_JUMP(offset) => {
                self.ip = self.ip + offset;
                Ok((InterpretOk::INTERPRET_CONTINUE, None))
            },
            OpCode::OP_JUMP_IF_FALSE(offset) => {
                let falsey = match self.peek(0) {
                    Some(v) => VM::is_falsey(v.clone()),
                    None => {
                        return Err(InterpretError::RUNTIME_ERROR);
                    },
                };
                if falsey {
                    self.ip = self.ip + offset;
                }
                Ok((InterpretOk::INTERPRET_CONTINUE, None))
            },
            OpCode::OP_LOOP(offset) => {
                self.ip = self.ip - 1 - offset;
                Ok((InterpretOk::INTERPRET_CONTINUE, None))
            },
        }
    }

    /// The fetch-decode-execute loop: reads and dispatches instructions
    /// until a return yields the program's result or a runtime error
    /// aborts it. The result is exactly what the chain of per-instruction
    /// steps from the starting state gives.
    pub fn run(&mut self) -> (r: Result<Option<Value>, InterpretError>)
        requires
            old(self).wf(),
        ensures
            final(self).wf(),
            final(self).chunk == old(self).chunk,
            final(self).printed@.len() >= old(self).printed@.len(),
            final(self).printed@.subrange(0, old(self).printed@.len() as int) == old(
                self,
            ).printed@,
            run_post(*old(self), *final(self), r),
            r matches Err(e) ==> e != InterpretError::COMPILE_ERROR,
    {
        let mut fuel: u64 = EXECUTION_BUDGET;
        let ghost mut trace: Seq<VM> = seq![*old(self)];
        proof {
            assert(self.printed@.subrange(0, old(self).printed@.len() as int)
                =~= old(self).printed@);
        }
        loop
            invariant
                self.wf(),
                self.chunk == old(self).chunk,
                self.printed@.len() >= old(self).printed@.len(),
                self.printed@.subrange(0, old(self).printed@.len() as int) == old(self).printed@,
                run_trace(*old(self), trace),
                trace.last() == *self,
                trace.len() == EXECUTION_BUDGET - fuel + 1,
                fuel <= EXECUTION_BUDGET,
            decreases fuel,
        {
            if fuel == 0 {
                proof {
                    assert(trace.len() > EXECUTION_BUDGET);
                    assert(run_post(
                        *old(self),
                        *self,
                        Err::<Option<Value>, InterpretError>(InterpretError::RUNTIME_ERROR),
                    ));
                }
                return Err(InterpretError::RUNTIME_ERROR);
            }
            fuel = fuel - 1;
            if self.ip >= self.chunk.code.len() {
                // Running off the end of the chunk is abnormal; compiled
                // chunks always halt at their final return.
                proof {
                    assert(run_post(
                        *old(self),
                        *self,
                        Err::<Option<Value>, InterpretError>(InterpretError::RUNTIME_ERROR),
                    ));
                }
                return Err(InterpretError::RUNTIME_ERROR);
            }
            let ghost pre = *self;
            let ghost printed_before = self.printed@;
            let result = self.step();
            proof {
                assert(self.printed@.subrange(0, old(self).printed@.len() as int)
                    =~= printed_before.subrange(0, old(self).printed@.len() as int));
            }
            match result {
                Ok((InterpretOk::INTERPRET_OK, v)) => {
                    proof {
                        assert(run_post(
                            *old(self),
                            *self,
                            Ok::<Option<Value>, InterpretError>(v),
                        ));
                    }
                    return Ok(v);
                },
                Ok((InterpretOk::INTERPRET_CONTINUE, _)) => {
                    proof {
                        assert(result == Ok::<(InterpretOk, Option<Value>), InterpretError>(
                            (InterpretOk::INTERPRET_CONTINUE, None),
                        ));
                        let t2 = trace.push(*self);
                        assert(t2.last() == *self);
                        assert(t2.first() == *old(self));
                        assert forall|i: int| 0 <= i < t2.len() - 1 implies ((
                        #[trigger] t2[i]).ip < t2[i].chunk.code@.len() && step_post(
                            t2[i],
                            t2[i + 1],
                            Ok((InterpretOk::INTERPRET_CONTINUE, None)),
                        )) by {
                            if i < trace.len() - 1 {
                                assert(t2[i] == trace[i]);
                                assert(t2[i + 1] == trace[i + 1]);
                            } else {
                                assert(t2[i] == pre);
                                assert(t2[i + 1] == *self);
                            }
                        }
                        trace = t2;
                    }
                },
                Err(e) => {
                    proof {
                        assert(e != InterpretError::COMPILE_ERROR);
                        assert(run_post(
                            *old(self),
                            *self,
                            Err::<Option<Value>, InterpretError>(e),
                        ));
                    }
                    return Err(e);
                },
            }
        }
    }

    /// Compiles the source and, on success, executes it from the start.
    /// The one entry point a host calls per input. A compile failure
    /// leaves the machine untouched; otherwise the result is a whole run
    /// of some well-formed compiled chunk. Anything the program printed
    /// waits in `printed`, which only ever grows.
    pub fn interpret(&mut self, source: &String) -> (r: Result<Option<Value>, InterpretError>)
        requires
            old(self).wf(),
            source@.len() < usize::MAX / 8,
        ensures
            final(self).wf(),
            final(self).printed@.len() >= old(self).printed@.len(),
            final(self).printed@.subrange(0, old(self).printed@.len() as int) == old(
                self,
            ).printed@,
            r matches Err(e) && e == InterpretError::COMPILE_ERROR ==> *final(self) == *old(self),
            !(r matches Err(e) && e == InterpretError::COMPILE_ERROR) ==> compiled_run(
                *old(self),
                *final(self),
                r,
            ),
    {
        proof {
            assert(self.printed@.subrange(0, old(self).printed@.len() as int)
                =~= old(self).printed@);
        }
        let result = compile(source);
        match result {
            Err(e) => Err(e),
            Ok(chunk) => {
                let ghost gc = chunk;
                self.chunk = chunk;
                self.ip = 0;

                let r = self.run();
                proof {
                    assert(gc.wf() && gc.code@.len() > 0 && gc.code@.last() == OpCode::OP_RETURN
                        && run_post(start_state(*old(self), gc), *final(self), r));
                }
                r
            },
        }
    }

    /// The end-of-session sweep: releases every tracked heap object.
    pub fn free_objects(self) {
        let mut vm = self;
        loop
            decreases vm.objects@.len(),
        {
            match vm.objects.pop() {
                None => {
                    break ;
                },
                Some(_obj) => {},
            }
        }
    }

    pub fn with_chunk(self, chunk: Chunk) -> (vm: Self)
        ensures
            vm.chunk == chunk,
            vm.ip == self.ip,
            vm.stack == self.stack,
            vm.table == self.table,
    {
        let mut vm = self;
        vm.chunk = chunk;
        vm
    }
}

/// The value an arithmetic or comparison instruction leaves for two number
/// operands: wrapping 64-bit arithmetic, truncated division, and exact
/// comparison.
pub open spec fn arith_result(op: char, a: i64, b: i64) -> ValueModel {
    if op == '+' {
        ValueModel::Number(vstd::wrapping::i64_specs::wrapping_add(a, b) as int)
    } else if op == '-' {
        ValueModel::Number(vstd::wrapping::i64_specs::wrapping_sub(a, b) as int)
    } else if op == '*' {
        ValueModel::Number(vstd::wrapping::i64_specs::wrapping_mul(a, b) as int)
    } else if op == '/' {
        if a == i64::MIN && b == -1 {
            ValueModel::Number(i64::MIN as int)
        } else {
            ValueModel::Number(div_trunc(a as int, b as int))
        }
    } else if op == '>' {
        ValueModel::Bool(a > b)
    } else {
        ValueModel::Bool(a < b)
    }
}

/// Truncated division through unsigned magnitudes, with the one wrapping
/// case ruled out by the caller.
fn div_i64(a: i64, b: i64) -> (q: i64)
    requires
        b != 0,
        !(a == i64::MIN && b == -1),
    ensures
        q as int == div_trunc(a as int, b as int),
{
    let ma: u64 = if a == i64::MIN {
        9223372036854775808u64
    } else if a < 0 {
        (-a) as u64
    } else {
        a as u64
    };
    let mb: u64 = if b == i64::MIN {
        9223372036854775808u64
    } else if b < 0 {
        (-b) as u64
    } else {
        b as u64
    };
    let mq: u64 = ma / mb;
    let neg = (a < 0) != (b < 0);
    if neg {
        if mq == 9223372036854775808u64 {
            i64::MIN
        } else {
            proof {
                assert(mq < 0x8000000000000000);
            }
            -(mq as i64)
        }
    } else {
        proof {
            if mq >= 0x8000000000000000 {
                vstd::arithmetic::div_mod::lemma_fundamental_div_mod(ma as int, mb as int);
                assert(ma as int == mb as int * (ma as int / mb as int) + (ma as int % mb as int));
                assert(mb as int * (ma as int / mb as int) >= mb as int * 0x8000000000000000)
                    by (nonlinear_arith)
                    requires
                        ma as int / mb as int >= 0x8000000000000000,
                        mb >= 1,
                ;
                assert(mb == 1);
                assert(false);
            }
        }
        mq as i64
    }
}

/// Pops two number operands, applies the operator, and pushes the result;
/// a runtime error when an operand is not a number, or on division by
/// zero, in which case the stack is untouched.
fn binary_operator(vm: &mut VM, op: char) -> (r: Result<(), InterpretError>)
    requires
        op == '+' || op == '-' || op == '*' || op == '/' || op == '>' || op == '<',
    ensures
        final(vm).chunk == old(vm).chunk,
        final(vm).ip == old(vm).ip,
        final(vm).table == old(vm).table,
        final(vm).objects == old(vm).objects,
        final(vm).printed == old(vm).printed,
        ({
            let s0 = old(vm).stack@;
            if s0.len() < 2 || !(s0[s0.len() - 1] is Number) || !(s0[s0.len() - 2] is Number)
                || (op == '/' && model_num(s0[s0.len() - 1]@) == 0) {
                r == Err::<(), InterpretError>(InterpretError::RUNTIME_ERROR) && final(vm).stack@
                    == s0
            } else {
                &&& r == Ok::<(), InterpretError>(())
                &&& final(vm).stack@.len() == s0.len() - 1
                &&& final(vm).stack@.drop_last() == s0.drop_last().drop_last()
                &&& final(vm).stack@.last()@ == arith_result(
                    op,
                    model_num(s0[s0.len() - 2]@) as i64,
                    model_num(s0[s0.len() - 1]@) as i64,
                )
            }
        }),
{
    let ok = {
        let top_is = match vm.peek(0) {
            Some(v) => v.is_number(),
            None => false,
        };
        let under_is = match vm.peek(1) {
            Some(v) => v.is_number(),
            None => false,
        };
        top_is && under_is
    };
    if !ok {
        // Operands must be numbers.
        return Err(InterpretError::RUNTIME_ERROR);
    }
    if op == '/' {
        let zero = match vm.peek(0) {
            Some(v) => match v.as_number() {
                Ok(n) => n == 0,
                Err(_) => false,
            },
            None => false,
        };
        if zero {
            // Division by zero.
            return Err(InterpretError::RUNTIME_ERROR);
        }
    }
    let b = match vm.pop() {
        Some(v) => match v.as_number() {
            Ok(n) => n,
            Err(_) => 0,
        },
        None => 0,
    };
    let a = match vm.pop() {
        Some(v) => match v.as_number() {
            Ok(n) => n,
            Err(_) => 0,
        },
        None => 0,
    };
    if op == '+' {
        vm.push(Value::number_value(a.wrapping_add(b)));
    } else if op == '-' {
        vm.push(Value::number_value(a.wrapping_sub(b)));
    } else if op == '*' {
        vm.push(Value::number_value(a.wrapping_mul(b)));
    } else if op == '/' {
        let q = if a == i64::MIN && b == -1 {
            i64::MIN
        } else {
            div_i64(a, b)
        };
        vm.push(Value::number_value(q));
    } else if op == '>' {
        vm.push(Value::bool_val(a > b));
    } else {
        vm.push(Value::bool_val(a < b));
    }
    proof {
        assert(final(vm).stack@.drop_last() =~= old(vm).stack@.drop_last().drop_last());
    }
    Ok(())
}

/// What one step does, for each instruction: how the stack, the globals,
/// the printed lines and the instruction pointer move, and which errors
/// arise.
pub open spec fn step_post(
    o: VM,
    n: VM,
    r: Result<(InterpretOk, Option<Value>), InterpretError>,
) -> bool {
    let op = o.chunk.code@[o.ip as int];
    let s0 = o.stack@;
    let t0 = o.table.contents();
    match op {
        OpCode::OP_RETURN => {
            &&& r == Ok::<(InterpretOk, Option<Value>), InterpretError>(
                (
                    InterpretOk::INTERPRET_OK,
                    if s0.len() > 0 {
                        Some(s0.last())
                    } else {
                        None
                    },
                ),
            )
            &&& n.stack@ == (if s0.len() > 0 {
                s0.drop_last()
            } else {
                s0
            })
            &&& n.table == o.table
            &&& n.printed == o.printed && n.objects == o.objects
            &&& n.objects == o.objects
        },
        OpCode::OP_CONSTANT(i) => {
            &&& r == Ok::<(InterpretOk, Option<Value>), InterpretError>(
                (InterpretOk::INTERPRET_CONTINUE, None),
            )
            &&& n.ip == o.ip + 1
            &&& n.stack@ == s0.push(o.chunk.constants@[i as int])
            &&& n.table == o.table
            &&& n.printed == o.printed && n.objects == o.objects
            &&& n.objects == o.objects
        },
        OpCode::OP_NEGATE => {
            if s0.len() == 0 || !(s0.last() is Number) {
                r == Err::<(InterpretOk, Option<Value>), InterpretError>(
                    InterpretError::RUNTIME_ERROR,
                ) && n.stack@ == s0 && n.table == o.table && n.printed == o.printed && n.objects == o.objects
            } else {
                &&& r == Ok::<(InterpretOk, Option<Value>), InterpretError>(
                (InterpretOk::INTERPRET_CONTINUE, None),
            )
                &&& n.ip == o.ip + 1
                &&& n.stack@.len() == s0.len()
                &&& n.stack@.drop_last() == s0.drop_last()
                &&& n.stack@.last()@ == ValueModel::Number(
                    vstd::wrapping::i64_specs::wrapping_sub(
                        0,
                        model_num(s0.last()@) as i64,
                    ) as int,
                )
                &&& n.table == o.table
                &&& n.printed == o.printed && n.objects == o.objects
            &&& n.objects == o.objects
            }
        },
        OpCode::OP_NOT => {
            if s0.len() == 0 {
                r == Err::<(InterpretOk, Option<Value>), InterpretError>(
                    InterpretError::RUNTIME_ERROR,
                ) && n.stack@ == s0 && n.table == o.table && n.printed == o.printed && n.objects == o.objects
            } else {
                &&& r == Ok::<(InterpretOk, Option<Value>), InterpretError>(
                (InterpretOk::INTERPRET_CONTINUE, None),
            )
                &&& n.ip == o.ip + 1
                &&& n.stack@ == s0.drop_last().push(
                    Value::Bool(VM::falsey(s0.last()@)),
                )
                &&& n.table == o.table
                &&& n.printed == o.printed && n.objects == o.objects
            &&& n.objects == o.objects
            }
        },
        OpCode::OP_NIL => {
            &&& r == Ok::<(InterpretOk, Option<Value>), InterpretError>(
                (InterpretOk::INTERPRET_CONTINUE, None),
            )
            &&& n.ip == o.ip + 1
            &&& n.stack@ == s0.push(Value::Nil)
            &&& n.table == o.table
            &&& n.printed == o.printed && n.objects == o.objects
            &&& n.objects == o.objects
        },
        OpCode::OP_TRUE => {
            &&& r == Ok::<(InterpretOk, Option<Value>), InterpretError>(
                (InterpretOk::INTERPRET_CONTINUE, None),
            )
            &&& n.ip == o.ip + 1
            &&& n.stack@ == s0.push(Value::Bool(true))
            &&& n.table == o.table
            &&& n.printed == o.printed && n.objects == o.objects
            &&& n.objects == o.objects
        },
        OpCode::OP_FALSE => {
            &&& r == Ok::<(InterpretOk, Option<Value>), InterpretError>(
                (InterpretOk::INTERPRET_CONTINUE, None),
            )
            &&& n.ip == o.ip + 1
            &&& n.stack@ == s0.push(Value::Bool(false))
            &&& n.table == o.table
            &&& n.printed == o.printed && n.objects == o.objects
            &&& n.objects == o.objects
        },
        OpCode::OP_EQUAL => {
            if s0.len() < 2 {
                r == Err::<(InterpretOk, Option<Value>), InterpretError>(
                    InterpretError::RUNTIME_ERROR,
                ) && n.table == o.table && n.printed == o.printed && n.objects == o.objects
            } else {
                &&& r == Ok::<(InterpretOk, Option<Value>), InterpretError>(
                (InterpretOk::INTERPRET_CONTINUE, None),
            )
                &&& n.ip == o.ip + 1
                &&& n.stack@ == s0.drop_last().drop_last().push(
                    Value::Bool(s0[s0.len() - 1]@ == s0[s0.len() - 2]@),
                )
                &&& n.table == o.table
                &&& n.printed == o.printed && n.objects == o.objects
            &&& n.objects == o.objects
            }
        },
        OpCode::OP_POP => {
            if s0.len() == 0 {
                r == Err::<(InterpretOk, Option<Value>), InterpretError>(
                    InterpretError::RUNTIME_ERROR,
                ) && n.stack@ == s0 && n.table == o.table && n.printed == o.printed && n.objects == o.objects
            } else {
                &&& r == Ok::<(InterpretOk, Option<Value>), InterpretError>(
                (InterpretOk::INTERPRET_CONTINUE, None),
            )
                &&& n.ip == o.ip + 1
                &&& n.stack@ == s0.drop_last()
                &&& n.table == o.table
                &&& n.printed == o.printed && n.objects == o.objects
            &&& n.objects == o.objects
            }
        },
        OpCode::OP_DEFINE_GLOBAL(i) => {
            if !(o.chunk.constants@[i as int] is Obj) || s0.len() == 0 {
                &&& r matches Err(e) && e == InterpretError::RUNTIME_ERROR
                &&& n.printed == o.printed && n.objects == o.objects
            &&& n.objects == o.objects
            } else {
                let name = model_str(o.chunk.constants@[i as int]@);
                &&& (r is Ok ==> r == Ok::<(InterpretOk, Option<Value>), InterpretError>(
                    (InterpretOk::INTERPRET_CONTINUE, None),
                ))
                &&& (r is Ok ==> {
                    &&& n.ip == o.ip + 1
                    &&& n.stack@ == s0.drop_last()
                    &&& n.table.contents() == t0.insert(name, s0.last())
                })
                &&& (r matches Err(e) ==> e == InterpretError::RUNTIME_ERROR)
                &&& n.printed == o.printed && n.objects == o.objects
            &&& n.objects == o.objects
            }
        },
        OpCode::OP_GET_GLOBAL(i) => {
            if !(o.chunk.constants@[i as int] is Obj) {
                r matches Err(e) && e == InterpretError::RUNTIME_ERROR && n.printed == o.printed && n.objects == o.objects
            } else {
                let name = model_str(o.chunk.constants@[i as int]@);
                if !t0.contains_key(name) {
                    &&& r matches Err(e) && e
                        == InterpretError::RUNTIME_UNRECOGNIZED_VARIABLE_ERROR
                    &&& n.stack@ == s0
                    &&& n.table == o.table
                    &&& n.printed == o.printed && n.objects == o.objects
            &&& n.objects == o.objects
                } else {
                    &&& r == Ok::<(InterpretOk, Option<Value>), InterpretError>(
                (InterpretOk::INTERPRET_CONTINUE, None),
            )
                    &&& n.ip == o.ip + 1
                    &&& n.stack@ == s0.push(t0[name])
                    &&& n.table == o.table
                    &&& n.printed == o.printed && n.objects == o.objects
            &&& n.objects == o.objects
                }
            }
        },
        OpCode::OP_SET_GLOBAL(i) => {
            if !(o.chunk.constants@[i as int] is Obj) || s0.len() == 0 {
                r matches Err(e) && e == InterpretError::RUNTIME_ERROR && n.printed == o.printed && n.objects == o.objects
            } else {
                let name = model_str(o.chunk.constants@[i as int]@);
                if !t0.contains_key(name) {
                    &&& r matches Err(e) && e
                        == InterpretError::RUNTIME_UNRECOGNIZED_VARIABLE_ERROR
                    &&& n.stack@ == s0
                    &&& n.table == o.table
                    &&& n.printed == o.printed && n.objects == o.objects
            &&& n.objects == o.objects
                } else {
                    &&& (r is Ok ==> r == Ok::<(InterpretOk, Option<Value>), InterpretError>(
                        (InterpretOk::INTERPRET_CONTINUE, None),
                    ))
                    &&& (r is Ok ==> {
                        &&& n.ip == o.ip + 1
                        &&& n.stack@ == s0
                        &&& n.table.contents() == t0.insert(name, s0.last())
                    })
                    &&& (r matches Err(e) ==> e == InterpretError::RUNTIME_ERROR)
                    &&& n.printed == o.printed && n.objects == o.objects
            &&& n.objects == o.objects
                }
            }
        },
        OpCode::OP_GET_LOCAL(slot) => {
            if slot >= s0.len() {
                r matches Err(e) && e == InterpretError::RUNTIME_ERROR && n.stack@ == s0
                    && n.table == o.table && n.printed == o.printed && n.objects == o.objects
            } else {
                &&& r == Ok::<(InterpretOk, Option<Value>), InterpretError>(
                (InterpretOk::INTERPRET_CONTINUE, None),
            )
                &&& n.ip == o.ip + 1
                &&& n.stack@ == s0.push(s0[slot as int])
                &&& n.table == o.table
                &&& n.printed == o.printed && n.objects == o.objects
            &&& n.objects == o.objects
            }
        },
        OpCode::OP_SET_LOCAL(slot) => {
            if s0.len() == 0 || slot >= s0.len() {
                r matches Err(e) && e == InterpretError::RUNTIME_ERROR && n.stack@ == s0
                    && n.table == o.table && n.printed == o.printed && n.objects == o.objects
            } else {
                &&& r == Ok::<(InterpretOk, Option<Value>), InterpretError>(
                (InterpretOk::INTERPRET_CONTINUE, None),
            )
                &&& n.ip == o.ip + 1
                &&& n.stack@ == s0.update(slot as int, s0.last())
                &&& n.table == o.table
                &&& n.printed == o.printed && n.objects == o.objects
            &&& n.objects == o.objects
            }
        },
        OpCode::OP_GREATER => binary_step_post(o, n, r, '>'),
        OpCode::OP_LESS => binary_step_post(o, n, r, '<'),
        OpCode::OP_SUBTRACT => binary_step_post(o, n, r, '-'),
        OpCode::OP_MULTIPLY => binary_step_post(o, n, r, '*'),
        OpCode::OP_DIVIDE => binary_step_post(o, n, r, '/'),
        OpCode::OP_ADD => {
            if s0.len() >= 2 && s0[s0.len() - 1] is Obj && s0[s0.len() - 2] is Obj {
                &&& r == Ok::<(InterpretOk, Option<Value>), InterpretError>(
                (InterpretOk::INTERPRET_CONTINUE, None),
            )
                &&& n.ip == o.ip + 1
                &&& n.stack@.len() == s0.len() - 1
                &&& n.stack@.drop_last() == s0.drop_last().drop_last()
                &&& n.stack@.last()@ == ValueModel::Str(
                    model_str(s0[s0.len() - 2]@) + model_str(s0[s0.len() - 1]@),
                )
                &&& n.table == o.table
                &&& n.printed == o.printed
                &&& n.objects@.len() == o.objects@.len() + 1
                &&& n.objects@.drop_last() == o.objects@
                &&& n.objects@.last()@ == model_str(s0[s0.len() - 2]@) + model_str(
                    s0[s0.len() - 1]@,
                )
            } else {
                binary_step_post(o, n, r, '+')
            }
        },
        OpCode::OP_DEBUG => {
            r matches Err(e) && e == InterpretError::RUNTIME_ERROR && n.stack@ == s0 && n.table
                == o.table && n.printed == o.printed && n.objects == o.objects
        },
        OpCode::OP_ASSERT_EQ => {
            if s0.len() < 2 {
                r matches Err(e) && e == InterpretError::RUNTIME_ERROR && n.table == o.table
                    && n.printed == o.printed && n.objects == o.objects
            } else {
                let a = s0[s0.len() - 1];
                let b = s0[s0.len() - 2];
                &&& n.stack@ == s0.drop_last().drop_last()
                &&& n.table == o.table
                &&& n.printed == o.printed && n.objects == o.objects
            &&& n.objects == o.objects
                &&& r == (if a.kind_spec() != b.kind_spec() {
                    Err::<(InterpretOk, Option<Value>), InterpretError>(
                        InterpretError::RUNTIME_ERROR,
                    )
                } else if a@ != b@ {
                    Err::<(InterpretOk, Option<Value>), InterpretError>(
                        InterpretError::RUNTIME_ASSERT_ERROR,
                    )
                } else {
                    Ok::<(InterpretOk, Option<Value>), InterpretError>(
                        (InterpretOk::INTERPRET_CONTINUE, None),
                    )
                })
            }
        },
        OpCode::OP_PRINT => {
            if s0.len() == 0 {
                r matches Err(e) && e == InterpretError::RUNTIME_ERROR && n.stack@ == s0
                    && n.table == o.table && n.printed == o.printed && n.objects == o.objects
            } else {
                &&& r == Ok::<(InterpretOk, Option<Value>), InterpretError>(
                (InterpretOk::INTERPRET_CONTINUE, None),
            )
                &&& n.ip == o.ip + 1
                &&& n.stack@ == s0.drop_last()
                &&& n.table == o.table
                &&& n.printed@.len() == o.printed@.len() + 1
                &&& n.printed@.drop_last() == o.printed@
                &&& n.printed@.last()@ == Value::render_spec(s0.last()@)
            }
        },
        OpCode::OP_JUMP(off) => {
            &&& r == Ok::<(InterpretOk, Option<Value>), InterpretError>(
                (InterpretOk::INTERPRET_CONTINUE, None),
            )
            &&& n.ip == o.ip + 1 + off
            &&& n.stack@ == s0
            &&& n.table == o.table
            &&& n.printed == o.printed && n.objects == o.objects
            &&& n.objects == o.objects
        },
        OpCode::OP_JUMP_IF_FALSE(off) => {
            if s0.len() == 0 {
                r matches Err(e) && e == InterpretError::RUNTIME_ERROR && n.stack@ == s0
                    && n.table == o.table && n.printed == o.printed && n.objects == o.objects
            } else {
                &&& r == Ok::<(InterpretOk, Option<Value>), InterpretError>(
                (InterpretOk::INTERPRET_CONTINUE, None),
            )
                &&& n.ip == (if VM::falsey(s0.last()@) {
                    o.ip + 1 + off
                } else {
                    o.ip + 1
                })
                &&& n.stack@ == s0
                &&& n.table == o.table
                &&& n.printed == o.printed && n.objects == o.objects
            &&& n.objects == o.objects
            }
        },
        OpCode::OP_LOOP(off) => {
            &&& r == Ok::<(InterpretOk, Option<Value>), InterpretError>(
                (InterpretOk::INTERPRET_CONTINUE, None),
            )
            &&& n.ip == o.ip - off
            &&& n.stack@ == s0
            &&& n.table == o.table
            &&& n.printed == o.printed && n.objects == o.objects
            &&& n.objects == o.objects
        },
    }
}

/// A chain of machine states each one executed instruction apart: every
/// consecutive pair is one dispatch step whose outcome was to go on.
pub open spec fn run_trace(v0: VM, trace: Seq<VM>) -> bool {
    &&& trace.len() >= 1
    &&& trace.first() == v0
    &&& forall|i: int|
        0 <= i < trace.len() - 1 ==> ((#[trigger] trace[i]).ip < trace[i].chunk.code@.len()
            && step_post(
            trace[i],
            trace[i + 1],
            Ok((InterpretOk::INTERPRET_CONTINUE, None)),
        ))
}

/// What a whole run means: a chain of continuing steps from the start
/// state, and then the outcome — a return step yielding the result, a step
/// raising the error, the instruction pointer running off the code, or
/// the instruction budget running out (which takes a chain longer than the
/// budget itself).
pub open spec fn run_post(v0: VM, vn: VM, r: Result<Option<Value>, InterpretError>) -> bool {
    exists|trace: Seq<VM>|
        #[trigger] run_trace(v0, trace) && ({
            let last = trace.last();
            match r {
                Ok(v) => last.ip < last.chunk.code@.len() && step_post(
                    last,
                    vn,
                    Ok((InterpretOk::INTERPRET_OK, v)),
                ),
                Err(e) => (last.ip < last.chunk.code@.len() && step_post(last, vn, Err(e))) || (e
                    == InterpretError::RUNTIME_ERROR && vn == last && last.ip
                    >= last.chunk.code@.len()) || (e == InterpretError::RUNTIME_ERROR && vn == last
                    && trace.len() > EXECUTION_BUDGET),
            }
        })
}

/// The machine a fresh run starts from: the compiled chunk, the
/// instruction pointer at zero, and everything else as it was.
pub open spec fn start_state(v: VM, c: Chunk) -> VM {
    VM { chunk: c, ip: 0, ..v }
}

/// What interpreting a source means once compilation succeeded: some
/// well-formed compiled chunk ending in a return, run from its start.
pub open spec fn compiled_run(v0: VM, vn: VM, r: Result<Option<Value>, InterpretError>) -> bool {
    exists|c: Chunk|
        (#[trigger] c.wf()) && c.code@.len() > 0 && c.code@.last() == OpCode::OP_RETURN
            && run_post(start_state(v0, c), vn, r)
}

/// The step relation of the five numeric binary instructions.
pub open spec fn binary_step_post(
    o: VM,
    n: VM,
    r: Result<(InterpretOk, Option<Value>), InterpretError>,
    op: char,
) -> bool {
    let s0 = o.stack@;
    &&& n.table == o.table
    &&& n.printed == o.printed && n.objects == o.objects
            &&& n.objects == o.objects
    &&& if s0.len() < 2 || !(s0[s0.len() - 1] is Number) || !(s0[s0.len() - 2] is Number) || (op
        == '/' && model_num(s0[s0.len() - 1]@) == 0) {
        r matches Err(e) && e == InterpretError::RUNTIME_ERROR && n.stack@ == s0
    } else {
        &&& r == Ok::<(InterpretOk, Option<Value>), InterpretError>(
                (InterpretOk::INTERPRET_CONTINUE, None),
            )
        &&& n.ip == o.ip + 1
        &&& n.stack@.len() == s0.len() - 1
        &&& n.stack@.drop_last() == s0.drop_last().drop_last()
        &&& n.stack@.last()@ == arith_result(
            op,
            model_num(s0[s0.len() - 2]@) as i64,
            model_num(s0[s0.len() - 1]@) as i64,
        )
    }
}

} // verus!
