use crate::chunk::{code_wf, op_wf, Chunk, OpCode};
use crate::error::InterpretError;
use crate::scanner::{Scanner, Token, TokenKind};
use crate::value::{allocate_object, Value, ValueModel};
use vstd::prelude::*;
use vstd::string::StrSliceExecFns;

verus! {

/// The most locals one compilation keeps in scope at once.
pub const MAX_LOCALS: usize = 256;

/// Precedence levels of the operator-precedence parser, weakest first.
#[allow(non_camel_case_types)]
#[derive(Debug, Clone, Copy, PartialEq, Eq, Structural)]
pub enum Precedence {
    PREC_NONE,
    PREC_ASSIGNMENT,
    PREC_OR,
    PREC_AND,
    PREC_EQUALITY,
    PREC_COMPARISON,
    PREC_TERM,
    PREC_FACTOR,
    PREC_UNARY,
    PREC_CALL,
    PREC_PRIMARY,
}

impl Precedence {
    /// The numeric strength of a level.
    pub open spec fn level_spec(&self) -> int {
        match self {
            Precedence::PREC_NONE => 0,
            Precedence::PREC_ASSIGNMENT => 1,
            Precedence::PREC_OR => 2,
            Precedence::PREC_AND => 3,
            Precedence::PREC_EQUALITY => 4,
            Precedence::PREC_COMPARISON => 5,
            Precedence::PREC_TERM => 6,
            Precedence::PREC_FACTOR => 7,
            Precedence::PREC_UNARY => 8,
            Precedence::PREC_CALL => 9,
            Precedence::PREC_PRIMARY => 10,
        }
    }

    pub fn level(&self) -> (n: u8)
        ensures
            n as int == self.level_spec(),
    {
        match self {
            Precedence::PREC_NONE => 0,
            Precedence::PREC_ASSIGNMENT => 1,
            Precedence::PREC_OR => 2,
            Precedence::PREC_AND => 3,
            Precedence::PREC_EQUALITY => 4,
            Precedence::PREC_COMPARISON => 5,
            Precedence::PREC_TERM => 6,
            Precedence::PREC_FACTOR => 7,
            Precedence::PREC_UNARY => 8,
            Precedence::PREC_CALL => 9,
            Precedence::PREC_PRIMARY => 10,
        }
    }

    /// The level for a numeric strength, saturating at the strongest.
    pub fn get_enum(prec: usize) -> (p: Self)
        ensures
            p.level_spec() == if prec >= 10 {
                10int
            } else {
                prec as int
            },
    {
        match prec {
            0 => Precedence::PREC_NONE,
            1 => Precedence::PREC_ASSIGNMENT,
            2 => Precedence::PREC_OR,
            3 => Precedence::PREC_AND,
            4 => Precedence::PREC_EQUALITY,
            5 => Precedence::PREC_COMPARISON,
            6 => Precedence::PREC_TERM,
            7 => Precedence::PREC_FACTOR,
            8 => Precedence::PREC_UNARY,
            9 => Precedence::PREC_CALL,
            _ => Precedence::PREC_PRIMARY,
        }
    }
}

/// The token kinds a statement may begin with: where error recovery can
/// pick parsing back up.
pub open spec fn is_statement_boundary(kind: TokenKind) -> bool {
    match kind {
        TokenKind::TOKEN_CLASS => true,
        TokenKind::TOKEN_FUN => true,
        TokenKind::TOKEN_VAR => true,
        TokenKind::TOKEN_FOR => true,
        TokenKind::TOKEN_IF => true,
        TokenKind::TOKEN_WHILE => true,
        TokenKind::TOKEN_PRINT => true,
        TokenKind::TOKEN_RETURN => true,
        TokenKind::TOKEN_ASSERT_EQ => true,
        _ => false,
    }
}

/// Which position an error is reported at.
enum ErrorAt {
    Current,
    Before,
}

/// The prefix handlers of the parse table, as tags the parser dispatches on.
#[derive(Debug, Clone, Copy, PartialEq, Eq, Structural)]
pub enum PrefixFn {
    Grouping,
    Number,
    StringLit,
    Literal,
    Unary,
    Variable,
    Printing,
}

/// The infix handlers of the parse table.
#[derive(Debug, Clone, Copy, PartialEq, Eq, Structural)]
pub enum InfixFn {
    Binary,
    And,
    Or,
}

/// One row of the parse table: how a token may begin an expression, how it
/// may continue one, and how strongly it binds.
pub struct ParseRule {
    pub prefix: Option<PrefixFn>,
    pub infix: Option<InfixFn>,
    pub precedence: Precedence,
}

/// The parse table as a function.
pub open spec fn rule_spec(kind: TokenKind) -> ParseRule {
    match kind {
        TokenKind::TOKEN_LEFT_PAREN => ParseRule {
            prefix: Some(PrefixFn::Grouping),
            infix: None,
            precedence: Precedence::PREC_NONE,
        },
        TokenKind::TOKEN_MINUS => ParseRule {
            prefix: Some(PrefixFn::Unary),
            infix: Some(InfixFn::Binary),
            precedence: Precedence::PREC_TERM,
        },
        TokenKind::TOKEN_PLUS => ParseRule {
            prefix: None,
            infix: Some(InfixFn::Binary),
            precedence: Precedence::PREC_TERM,
        },
        TokenKind::TOKEN_SLASH => ParseRule {
            prefix: None,
            infix: Some(InfixFn::Binary),
            precedence: Precedence::PREC_FACTOR,
        },
        TokenKind::TOKEN_STAR => ParseRule {
            prefix: None,
            infix: Some(InfixFn::Binary),
            precedence: Precedence::PREC_FACTOR,
        },
        TokenKind::TOKEN_BANG => ParseRule {
            prefix: Some(PrefixFn::Unary),
            infix: None,
            precedence: Precedence::PREC_NONE,
        },
        TokenKind::TOKEN_BANG_EQUAL => ParseRule {
            prefix: None,
            infix: Some(InfixFn::Binary),
            precedence: Precedence::PREC_EQUALITY,
        },
        TokenKind::TOKEN_EQUAL_EQUAL => ParseRule {
            prefix: None,
            infix: Some(InfixFn::Binary),
            precedence: Precedence::PREC_EQUALITY,
        },
        TokenKind::TOKEN_GREATER => ParseRule {
            prefix: None,
            infix: Some(InfixFn::Binary),
            precedence: Precedence::PREC_COMPARISON,
        },
        TokenKind::TOKEN_GREATER_EQUAL => ParseRule {
            prefix: None,
            infix: Some(InfixFn::Binary),
            precedence: Precedence::PREC_COMPARISON,
        },
        TokenKind::TOKEN_LESS => ParseRule {
            prefix: None,
            infix: Some(InfixFn::Binary),
            precedence: Precedence::PREC_COMPARISON,
        },
        TokenKind::TOKEN_LESS_EQUAL => ParseRule {
            prefix: None,
            infix: Some(InfixFn::Binary),
            precedence: Precedence::PREC_COMPARISON,
        },
        TokenKind::TOKEN_IDENTIFIER => ParseRule {
            prefix: Some(PrefixFn::Variable),
            infix: None,
            precedence: Precedence::PREC_NONE,
        },
        TokenKind::TOKEN_STRING => ParseRule {
            prefix: Some(PrefixFn::StringLit),
            infix: None,
            precedence: Precedence::PREC_NONE,
        },
        TokenKind::TOKEN_NUMBER => ParseRule {
            prefix: Some(PrefixFn::Number),
            infix: None,
            precedence: Precedence::PREC_NONE,
        },
        TokenKind::TOKEN_AND => ParseRule {
            prefix: None,
            infix: Some(InfixFn::And),
            precedence: Precedence::PREC_AND,
        },
        TokenKind::TOKEN_FALSE => ParseRule {
            prefix: Some(PrefixFn::Literal),
            infix: None,
            precedence: Precedence::PREC_NONE,
        },
        TokenKind::TOKEN_NIL => ParseRule {
            prefix: Some(PrefixFn::Literal),
            infix: None,
            precedence: Precedence::PREC_NONE,
        },
        TokenKind::TOKEN_OR => ParseRule {
            prefix: None,
            infix: Some(InfixFn::Or),
            precedence: Precedence::PREC_OR,
        },
        TokenKind::TOKEN_PRINT => ParseRule {
            prefix: Some(PrefixFn::Printing),
            infix: None,
            precedence: Precedence::PREC_NONE,
        },
        TokenKind::TOKEN_TRUE => ParseRule {
            prefix: Some(PrefixFn::Literal),
            infix: None,
            precedence: Precedence::PREC_NONE,
        },
        _ => ParseRule { prefix: None, infix: None, precedence: Precedence::PREC_NONE },
    }
}

/// Looks a token kind up in the parse table.
pub(crate) fn get_rule(kind: TokenKind) -> (r: ParseRule)
    ensures
        r == rule_spec(kind),
{
    match kind {
        TokenKind::TOKEN_LEFT_PAREN => ParseRule {
            prefix: Some(PrefixFn::Grouping),
            infix: None,
            precedence: Precedence::PREC_NONE,
        },
        TokenKind::TOKEN_MINUS => ParseRule {
            prefix: Some(PrefixFn::Unary),
            infix: Some(InfixFn::Binary),
            precedence: Precedence::PREC_TERM,
        },
        TokenKind::TOKEN_PLUS => ParseRule {
            prefix: None,
            infix: Some(InfixFn::Binary),
            precedence: Precedence::PREC_TERM,
        },
        TokenKind::TOKEN_SLASH => ParseRule {
            prefix: None,
            infix: Some(InfixFn::Binary),
            precedence: Precedence::PREC_FACTOR,
        },
        TokenKind::TOKEN_STAR => ParseRule {
            prefix: None,
            infix: Some(InfixFn::Binary),
            precedence: Precedence::PREC_FACTOR,
        },
        TokenKind::TOKEN_BANG => ParseRule {
            prefix: Some(PrefixFn::Unary),
            infix: None,
            precedence: Precedence::PREC_NONE,
        },
        TokenKind::TOKEN_BANG_EQUAL => ParseRule {
            prefix: None,
            infix: Some(InfixFn::Binary),
            precedence: Precedence::PREC_EQUALITY,
        },
        TokenKind::TOKEN_EQUAL_EQUAL => ParseRule {
            prefix: None,
            infix: Some(InfixFn::Binary),
            precedence: Precedence::PREC_EQUALITY,
        },
        TokenKind::TOKEN_GREATER => ParseRule {
            prefix: None,
            infix: Some(InfixFn::Binary),
            precedence: Precedence::PREC_COMPARISON,
        },
        TokenKind::TOKEN_GREATER_EQUAL => ParseRule {
            prefix: None,
            infix: Some(InfixFn::Binary),
            precedence: Precedence::PREC_COMPARISON,
        },
        TokenKind::TOKEN_LESS => ParseRule {
            prefix: None,
            infix: Some(InfixFn::Binary),
            precedence: Precedence::PREC_COMPARISON,
        },
        TokenKind::TOKEN_LESS_EQUAL => ParseRule {
            prefix: None,
            infix: Some(InfixFn::Binary),
            precedence: Precedence::PREC_COMPARISON,
        },
        TokenKind::TOKEN_IDENTIFIER => ParseRule {
            prefix: Some(PrefixFn::Variable),
            infix: None,
            precedence: Precedence::PREC_NONE,
        },
        TokenKind::TOKEN_STRING => ParseRule {
            prefix: Some(PrefixFn::StringLit),
            infix: None,
            precedence: Precedence::PREC_NONE,
        },
        TokenKind::TOKEN_NUMBER => ParseRule {
            prefix: Some(PrefixFn::Number),
            infix: None,
            precedence: Precedence::PREC_NONE,
        },
        TokenKind::TOKEN_AND => ParseRule {
            prefix: None,
            infix: Some(InfixFn::And),
            precedence: Precedence::PREC_AND,
        },
        TokenKind::TOKEN_FALSE => ParseRule {
            prefix: Some(PrefixFn::Literal),
            infix: None,
            precedence: Precedence::PREC_NONE,
        },
        TokenKind::TOKEN_NIL => ParseRule {
            prefix: Some(PrefixFn::Literal),
            infix: None,
            precedence: Precedence::PREC_NONE,
        },
        TokenKind::TOKEN_OR => ParseRule {
            prefix: None,
            infix: Some(InfixFn::Or),
            precedence: Precedence::PREC_OR,
        },
        TokenKind::TOKEN_PRINT => ParseRule {
            prefix: Some(PrefixFn::Printing),
            infix: None,
            precedence: Precedence::PREC_NONE,
        },
        TokenKind::TOKEN_TRUE => ParseRule {
            prefix: Some(PrefixFn::Literal),
            infix: None,
            precedence: Precedence::PREC_NONE,
        },
        _ => ParseRule { prefix: None, infix: None, precedence: Precedence::PREC_NONE },
    }
}

/// A local variable the compiler is tracking: its name, its lexical depth,
/// whether its initializer has finished, and its runtime stack slot.
pub struct Local {
    pub name: String,
    pub depth: usize,
    pub initialized: bool,
    pub index: Option<usize>,
}

impl Local {
    pub fn new(name: String, depth: usize, i: usize) -> (l: Self)
        ensures
            l.name == name,
            l.depth == depth,
            !l.initialized,
            l.index == Some(i),
    {
        Local { name, depth, initialized: false, index: Some(i) }
    }

    /// Marks the local usable, once its initializer has compiled.
    pub fn initialize(&mut self)
        requires
            !old(self).initialized,
        ensures
            final(self).initialized,
            final(self).name == old(self).name,
            final(self).depth == old(self).depth,
            final(self).index == old(self).index,
    {
        self.initialized = true;
    }
}

/// The runtime stack slot a local's value lives in; the local's own list
/// position stands in if no slot was recorded.
pub open spec fn local_slot(l: Local, fallback: usize) -> usize {
    match l.index {
        Some(s) => s,
        None => fallback,
    }
}

/// How many locals sit deeper than `depth` at the end of the list: the pops
/// a scope exit owes.
pub open spec fn pops_needed(locals: Seq<Local>, depth: int) -> int
    decreases locals.len(),
{
    if locals.len() == 0 {
        0
    } else if locals.last().depth > depth {
        1 + pops_needed(locals.drop_last(), depth)
    } else {
        0
    }
}

/// How many locals live exactly at `depth`.
pub open spec fn count_at_depth(locals: Seq<Local>, depth: int) -> int
    decreases locals.len(),
{
    if locals.len() == 0 {
        0
    } else {
        (if locals.last().depth == depth {
            1int
        } else {
            0int
        }) + count_at_depth(locals.drop_last(), depth)
    }
}

/// The lexical-scope state of one compilation: the in-scope locals, in
/// declaration order, the current block depth, and how many values
/// top-level expression statements have already left on the operand stack
/// beneath any locals.
pub struct Compiler {
    pub locals: Vec<Local>,
    pub scope_depth: usize,
    pub stack_height: usize,
}

impl Compiler {
    /// Locals are stacked: depths ascend along the list, stay within the
    /// current depth and above zero, and the list stays within the fixed
    /// capacity.
    pub open spec fn wf(&self) -> bool {
        &&& forall|i: int|
            0 <= i < self.locals@.len() ==> 1 <= (#[trigger] self.locals@[i]).depth
                <= self.scope_depth
        &&& forall|i: int, j: int|
            0 <= i < j < self.locals@.len() ==> (#[trigger] self.locals@[i]).depth <= (
            #[trigger] self.locals@[j]).depth
        &&& self.locals@.len() <= MAX_LOCALS
    }

    pub fn new() -> (c: Self)
        ensures
            c.wf(),
            c.locals@.len() == 0,
            c.scope_depth == 0,
            c.stack_height == 0,
    {
        Compiler { locals: Vec::new(), scope_depth: 0, stack_height: 0 }
    }

    pub fn begin_scope(&mut self)
        requires
            old(self).wf(),
            old(self).scope_depth < usize::MAX,
        ensures
            final(self).wf(),
            final(self).scope_depth == old(self).scope_depth + 1,
            final(self).locals == old(self).locals,
            final(self).stack_height == old(self).stack_height,
    {
        self.scope_depth = self.scope_depth + 1;
    }

    /// Records that a top-level expression statement left its value on the
    /// stack; locals declared later live above it.
    pub fn note_leak(&mut self)
        requires
            old(self).wf(),
        ensures
            final(self).wf(),
            final(self).locals == old(self).locals,
            final(self).scope_depth == old(self).scope_depth,
    {
        if self.stack_height < usize::MAX {
            self.stack_height = self.stack_height + 1;
        }
    }

    /// Law (scope exit): leaving a block emits exactly one pop per local the
    /// block introduced, in reverse declaration order, and discards those
    /// locals; every outer local survives.
    pub fn end_scope(&mut self, parser: &mut Parser)
        requires
            old(self).wf(),
            old(self).scope_depth >= 1,
            old(parser).wf(),
        ensures
            final(self).wf(),
            final(parser).wf(),
            final(self).scope_depth == old(self).scope_depth - 1,
            final(self).stack_height == old(self).stack_height,
            ({
                let n = pops_needed(old(self).locals@, old(self).scope_depth - 1);
                &&& final(self).locals@ == old(self).locals@.subrange(
                    0,
                    old(self).locals@.len() - n,
                )
                &&& final(parser).chunk.code@ == old(parser).chunk.code@ + Seq::new(
                    n as nat,
                    |i: int| OpCode::OP_POP,
                )
            }),
            final(parser).chunk.constants == old(parser).chunk.constants,
            final(parser).current == old(parser).current,
            final(parser).previous == old(parser).previous,
            final(parser).had_error == old(parser).had_error,
            final(parser).panic_mode == old(parser).panic_mode,
    {
        self.scope_depth = self.scope_depth - 1;
        let ghost locals0 = self.locals@;
        let ghost code0 = parser.chunk.code@;
        let ghost n = pops_needed(locals0, self.scope_depth as int);
        let mut pop_count: usize = 0;
        proof {
            lemma_pops_needed_bounds(locals0, self.scope_depth as int);
            assert(code0 + Seq::new(0nat, |i: int| OpCode::OP_POP) =~= code0);
            assert(locals0.subrange(0, locals0.len() as int) =~= locals0);
        }
        loop
            invariant_except_break
                forall|i: int|
                    0 <= i < self.locals@.len() ==> 1 <= (#[trigger] self.locals@[i]).depth <= old(
                        self,
                    ).scope_depth,
                forall|i: int, j: int|
                    0 <= i < j < self.locals@.len() ==> (#[trigger] self.locals@[i]).depth <= (
                    #[trigger] self.locals@[j]).depth,
                self.locals@.len() <= MAX_LOCALS,
                self.stack_height == old(self).stack_height,
                parser.wf(),
                0 <= n <= locals0.len(),
                n <= MAX_LOCALS,
                pop_count <= n,
                self.scope_depth == old(self).scope_depth - 1,
                self.locals@ == locals0.subrange(0, locals0.len() - pop_count),
                pops_needed(locals0, self.scope_depth as int) == n,
                pops_needed(self.locals@, self.scope_depth as int) == n - pop_count,
                parser.chunk.code@ == code0 + Seq::new(pop_count as nat, |i: int| OpCode::OP_POP),
                parser.chunk.constants == old(parser).chunk.constants,
                parser.current == old(parser).current,
                parser.previous == old(parser).previous,
                parser.had_error == old(parser).had_error,
                parser.panic_mode == old(parser).panic_mode,
            ensures
                self.wf(),
                parser.wf(),
                self.scope_depth == old(self).scope_depth - 1,
                self.stack_height == old(self).stack_height,
                self.locals@ == locals0.subrange(0, locals0.len() - n),
                parser.chunk.code@ == code0 + Seq::new(n as nat, |i: int| OpCode::OP_POP),
                parser.chunk.constants == old(parser).chunk.constants,
                parser.current == old(parser).current,
                parser.previous == old(parser).previous,
                parser.had_error == old(parser).had_error,
                parser.panic_mode == old(parser).panic_mode,
            decreases self.locals@.len(),
        {
            let more = match self.locals.last() {
                Some(l) => l.depth > self.scope_depth,
                None => false,
            };
            if !more {
                proof {
                    assert(pops_needed(self.locals@, self.scope_depth as int) == 0);
                    assert(pop_count == n);
                    assert forall|i: int| 0 <= i < self.locals@.len() implies (
                    #[trigger] self.locals@[i]).depth <= self.scope_depth by {
                        assert(self.locals@[i].depth <= self.locals@.last().depth);
                        assert(self.locals@.last().depth <= self.scope_depth);
                    }
                }
                break ;
            }
            proof {
                lemma_pops_needed_bounds(self.locals@.drop_last(), self.scope_depth as int);
                assert(pops_needed(self.locals@, self.scope_depth as int) >= 1);
                assert(pop_count < n);
                assert(self.locals@.drop_last() =~= locals0.subrange(
                    0,
                    locals0.len() - (pop_count + 1),
                ));
                assert((parser.chunk.code@ + Seq::new(pop_count as nat, |i: int| OpCode::OP_POP))
                    =~= parser.chunk.code@ + Seq::new(pop_count as nat, |i: int| OpCode::OP_POP));
            }
            parser.emit_byte(OpCode::OP_POP);
            proof {
                assert(parser.chunk.code@ =~= code0 + Seq::new(
                    (pop_count + 1) as nat,
                    |i: int| OpCode::OP_POP,
                ));
            }
            self.locals.pop();
            pop_count = pop_count + 1;
        }
    }

    /// Appends a new, uninitialized local for the current depth, recording
    /// the runtime stack slot its value will live in.
    pub fn add_local(&mut self, name: &str, i: usize)
        requires
            old(self).wf(),
            old(self).locals@.len() < MAX_LOCALS,
            old(self).scope_depth >= 1,
        ensures
            final(self).wf(),
            final(self).scope_depth == old(self).scope_depth,
            final(self).stack_height == old(self).stack_height,
            final(self).locals@.len() == old(self).locals@.len() + 1,
            final(self).locals@.drop_last() == old(self).locals@,
            final(self).locals@.last().name@ == name@,
            final(self).locals@.last().depth == old(self).scope_depth,
            final(self).locals@.last().index == Some(i),
            !final(self).locals@.last().initialized,
    {
        let depth = self.scope_depth;
        let local = Local::new(name.to_owned(), depth, i);
        self.locals.push(local);
        proof {
            assert(self.locals@.drop_last() =~= old(self).locals@);
        }
    }

    /// Which stack slot an in-scope, initialized local of this name
    /// resolves to, innermost first.
    pub open spec fn resolve_spec(locals: Seq<Local>, name: Seq<char>) -> int
        decreases locals.len(),
    {
        if locals.len() == 0 {
            usize::MAX as int
        } else if locals.last().initialized && locals.last().name@ == name {
            match locals.last().index {
                Some(j) => j as int,
                None => usize::MAX as int,
            }
        } else {
            Self::resolve_spec(locals.drop_last(), name)
        }
    }

    /// Walks the locals innermost-out; the slot of the first initialized
    /// local with this name, or the not-found sentinel.
    pub fn resolve_local(&self, name: &str) -> (r: usize)
        requires
            self.wf(),
        ensures
            r as int == Self::resolve_spec(self.locals@, name@),
    {
        let ghost locals0 = self.locals@;
        let mut i = self.locals.len();
        proof {
            assert(locals0.subrange(0, locals0.len() as int) =~= locals0);
        }
        while i > 0
            invariant
                self.wf(),
                locals0 == self.locals@,
                i <= self.locals@.len(),
                Self::resolve_spec(locals0, name@) == Self::resolve_spec(
                    locals0.subrange(0, i as int),
                    name@,
                ),
            decreases i,
        {
            i = i - 1;
            let l = &self.locals[i];
            proof {
                assert(locals0.subrange(0, i as int + 1).last() == locals0[i as int]);
                assert(locals0.subrange(0, i as int + 1).drop_last() =~= locals0.subrange(
                    0,
                    i as int,
                ));
            }
            if l.initialized && crate::util::str_eq(l.name.as_str(), name) {
                match l.index {
                    Some(j) => {
                        return j;
                    },
                    None => {
                        return usize::MAX;
                    },
                }
            }
        }
        proof {
            assert(locals0.subrange(0, 0) =~= Seq::<Local>::empty());
        }
        usize::MAX
    }

    /// Marks the most recently added local usable.
    pub fn initialize_new_variable(&mut self)
        requires
            old(self).wf(),
        ensures
            final(self).wf(),
            final(self).scope_depth == old(self).scope_depth,
            final(self).stack_height == old(self).stack_height,
            final(self).locals@.len() == old(self).locals@.len(),
            old(self).locals@.len() > 0 ==> final(self).locals@ == old(self).locals@.update(
                old(self).locals@.len() - 1,
                Local {
                    initialized: true,
                    ..old(self).locals@.last()
                },
            ),
            old(self).locals@.len() == 0 ==> final(self).locals == old(self).locals,
    {
        let len = self.locals.len();
        if len > 0 {
            let ghost l0 = self.locals@;
            let name = self.locals[len - 1].name.clone();
            let depth = self.locals[len - 1].depth;
            let index = self.locals[len - 1].index;
            self.locals[len - 1] = Local { name, depth, initialized: true, index };
            proof {
                assert(self.locals@ =~= l0.update(
                    l0.len() - 1,
                    Local { initialized: true, ..l0.last() },
                ));
            }
        }
    }

    /// Marks the local in slot `j` usable again, after a same-depth
    /// shadowing declaration re-used its slot.
    pub fn mark_initialized(&mut self, j: usize)
        requires
            old(self).wf(),
            j < old(self).locals@.len(),
        ensures
            final(self).wf(),
            final(self).scope_depth == old(self).scope_depth,
            final(self).stack_height == old(self).stack_height,
            final(self).locals@ == old(self).locals@.update(
                j as int,
                Local {
                    initialized: true,
                    ..old(self).locals@[j as int]
                },
            ),
    {
        let name = self.locals[j].name.clone();
        let depth = self.locals[j].depth;
        let index = self.locals[j].index;
        self.locals[j] = Local { name, depth, initialized: true, index };
    }

    /// Marks the local in slot `j` unusable while its new initializer
    /// compiles.
    fn mark_uninitialized(&mut self, j: usize)
        requires
            old(self).wf(),
            j < old(self).locals@.len(),
        ensures
            final(self).wf(),
            final(self).scope_depth == old(self).scope_depth,
            final(self).stack_height == old(self).stack_height,
            final(self).locals@ == old(self).locals@.update(
                j as int,
                Local {
                    initialized: false,
                    ..old(self).locals@[j as int]
                },
            ),
    {
        let name = self.locals[j].name.clone();
        let depth = self.locals[j].depth;
        let index = self.locals[j].index;
        self.locals[j] = Local { name, depth, initialized: false, index };
    }
}

/// Reads the previous and current token and generates opcodes into the
/// chunk it is building.
pub struct Parser {
    pub current: Token,
    pub previous: Token,
    pub had_error: bool,
    pub panic_mode: bool,
    pub chunk: Chunk,
    /// The error reports of this pass, collected for the host to print.
    pub reports: Vec<String>,
}

impl Parser {
    /// The chunk under construction is well formed, and panic mode never
    /// outlives the error that entered it.
    pub open spec fn wf(&self) -> bool {
        &&& self.chunk.wf()
        &&& (self.panic_mode ==> self.had_error)
    }

    pub fn new() -> (p: Self)
        ensures
            p.wf(),
            !p.had_error,
            !p.panic_mode,
            p.chunk.code@.len() == 0,
            p.chunk.constants@.len() == 0,
            p.reports@.len() == 0,
    {
        Parser {
            current: Token::new(TokenKind::TOKEN_ERROR, String::new(), 1),
            previous: Token::new(TokenKind::TOKEN_ERROR, String::new(), 1),
            had_error: false,
            panic_mode: false,
            chunk: Chunk::default(),
            reports: Vec::new(),
        }
    }

    /// Appends one instruction, filed under the previous token's line.
    pub(crate) fn emit_byte(&mut self, opcode: OpCode)
        requires
            old(self).wf(),
            op_wf(
                opcode,
                old(self).chunk.constants@.len() as int,
                old(self).chunk.code@.len() as int + 1,
                old(self).chunk.code@.len() as int,
            ),
        ensures
            final(self).wf(),
            final(self).chunk.code@ == old(self).chunk.code@.push(opcode),
            final(self).chunk.constants == old(self).chunk.constants,
            final(self).current == old(self).current,
            final(self).previous == old(self).previous,
            final(self).had_error == old(self).had_error,
            final(self).panic_mode == old(self).panic_mode,
    {
        let line = self.previous.line;
        proof {
            lemma_code_wf_push(
                self.chunk.code@,
                opcode,
                self.chunk.constants@.len() as int,
            );
        }
        self.chunk.write_chunk(opcode, line);
    }

    pub(crate) fn emit_bytes(&mut self, opcode1: OpCode, opcode2: OpCode)
        requires
            old(self).wf(),
            op_wf(
                opcode1,
                old(self).chunk.constants@.len() as int,
                old(self).chunk.code@.len() as int + 1,
                old(self).chunk.code@.len() as int,
            ),
            op_wf(
                opcode2,
                old(self).chunk.constants@.len() as int,
                old(self).chunk.code@.len() as int + 2,
                old(self).chunk.code@.len() as int + 1,
            ),
        ensures
            final(self).wf(),
            final(self).chunk.code@ == old(self).chunk.code@.push(opcode1).push(opcode2),
            final(self).chunk.constants == old(self).chunk.constants,
            final(self).current == old(self).current,
            final(self).previous == old(self).previous,
            final(self).had_error == old(self).had_error,
            final(self).panic_mode == old(self).panic_mode,
    {
        self.emit_byte(opcode1);
        self.emit_byte(opcode2);
    }

    pub(crate) fn emit_return(&mut self)
        requires
            old(self).wf(),
        ensures
            final(self).wf(),
            final(self).chunk.code@ == old(self).chunk.code@.push(OpCode::OP_RETURN),
            final(self).chunk.constants == old(self).chunk.constants,
            final(self).current == old(self).current,
            final(self).previous == old(self).previous,
            final(self).had_error == old(self).had_error,
            final(self).panic_mode == old(self).panic_mode,
    {
        self.emit_byte(OpCode::OP_RETURN);
    }

    /// Adds a constant to the pool and emits the instruction that pushes
    /// it.
    pub(crate) fn emit_constant(&mut self, value: Value)
        requires
            old(self).wf(),
        ensures
            final(self).wf(),
            final(self).chunk.constants@ == old(self).chunk.constants@.push(value),
            final(self).chunk.code@ == old(self).chunk.code@.push(
                OpCode::OP_CONSTANT(old(self).chunk.constants@.len() as usize),
            ),
            final(self).current == old(self).current,
            final(self).previous == old(self).previous,
            final(self).had_error == old(self).had_error,
            final(self).panic_mode == old(self).panic_mode,
    {
        proof {
            lemma_code_wf_more_consts(
                self.chunk.code@,
                self.chunk.constants@.len() as int,
                self.chunk.constants@.len() as int + 1,
            );
        }
        let index = self.chunk.add_constant(value);
        self.emit_byte(OpCode::OP_CONSTANT(index));
    }

    /// Interns the previous token's text in the constant pool and answers
    /// its index.
    pub(crate) fn identifier_constant_prev(&mut self) -> (idx: usize)
        requires
            old(self).wf(),
        ensures
            final(self).wf(),
            idx as int == old(self).chunk.constants@.len(),
            final(self).chunk.constants@.len() == old(self).chunk.constants@.len() + 1,
            final(self).chunk.constants@.drop_last() == old(self).chunk.constants@,
            final(self).chunk.constants@.last()@ == ValueModel::Str(old(self).previous.slice@),
            final(self).chunk.code == old(self).chunk.code,
            final(self).chunk.lines == old(self).chunk.lines,
            final(self).current == old(self).current,
            final(self).previous == old(self).previous,
            final(self).had_error == old(self).had_error,
            final(self).panic_mode == old(self).panic_mode,
    {
        let value = allocate_object(self.previous.slice.clone());
        proof {
            lemma_code_wf_more_consts(
                self.chunk.code@,
                self.chunk.constants@.len() as int,
                self.chunk.constants@.len() as int + 1,
            );
        }
        let idx = self.chunk.add_constant(value);
        proof {
            assert(self.chunk.constants@.drop_last() =~= old(self).chunk.constants@);
        }
        idx
    }

    /// Emits a conditional jump with a placeholder distance and answers its
    /// position for later backpatching.
    pub(crate) fn emit_jump_if_false(&mut self) -> (at: usize)
        requires
            old(self).wf(),
        ensures
            final(self).wf(),
            at as int == old(self).chunk.code@.len(),
            final(self).chunk.code@ == old(self).chunk.code@.push(OpCode::OP_JUMP_IF_FALSE(0)),
            final(self).chunk.constants == old(self).chunk.constants,
            final(self).current == old(self).current,
            final(self).previous == old(self).previous,
            final(self).had_error == old(self).had_error,
            final(self).panic_mode == old(self).panic_mode,
    {
        let at = self.chunk.code.len();
        self.emit_byte(OpCode::OP_JUMP_IF_FALSE(0));
        at
    }

    /// Emits an unconditional jump with a placeholder distance and answers
    /// its position.
    pub(crate) fn emit_jump(&mut self) -> (at: usize)
        requires
            old(self).wf(),
        ensures
            final(self).wf(),
            at as int == old(self).chunk.code@.len(),
            final(self).chunk.code@ == old(self).chunk.code@.push(OpCode::OP_JUMP(0)),
            final(self).chunk.constants == old(self).chunk.constants,
            final(self).current == old(self).current,
            final(self).previous == old(self).previous,
            final(self).had_error == old(self).had_error,
            final(self).panic_mode == old(self).panic_mode,
    {
        let at = self.chunk.code.len();
        self.emit_byte(OpCode::OP_JUMP(0));
        at
    }

    /// Emits the backward jump that closes a loop body, back to
    /// `loop_start`.
    pub(crate) fn emit_loop(&mut self, loop_start: usize)
        requires
            old(self).wf(),
            loop_start <= old(self).chunk.code@.len(),
        ensures
            final(self).wf(),
            final(self).chunk.code@ == old(self).chunk.code@.push(
                OpCode::OP_LOOP((old(self).chunk.code@.len() - loop_start) as usize),
            ),
            final(self).chunk.constants == old(self).chunk.constants,
            final(self).current == old(self).current,
            final(self).previous == old(self).previous,
            final(self).had_error == old(self).had_error,
            final(self).panic_mode == old(self).panic_mode,
    {
        let offset = self.chunk.code.len() - loop_start;
        self.emit_byte(OpCode::OP_LOOP(offset));
    }

    /// Goes back to a placeholder jump and writes the now-known distance to
    /// the present end of the code.
    pub(crate) fn patch_jump(&mut self, offset: usize)
        requires
            old(self).wf(),
            offset < old(self).chunk.code@.len(),
            old(self).chunk.code@[offset as int] is OP_JUMP_IF_FALSE || old(
                self,
            ).chunk.code@[offset as int] is OP_JUMP,
        ensures
            final(self).wf(),
            final(self).chunk.code@ == old(self).chunk.code@.update(
                offset as int,
                if old(self).chunk.code@[offset as int] is OP_JUMP_IF_FALSE {
                    OpCode::OP_JUMP_IF_FALSE((old(self).chunk.code@.len() - offset - 1) as usize)
                } else {
                    OpCode::OP_JUMP((old(self).chunk.code@.len() - offset - 1) as usize)
                },
            ),
            final(self).chunk.constants == old(self).chunk.constants,
            final(self).chunk.lines == old(self).chunk.lines,
            final(self).current == old(self).current,
            final(self).previous == old(self).previous,
            final(self).had_error == old(self).had_error,
            final(self).panic_mode == old(self).panic_mode,
    {
        let jump = self.chunk.code.len() - offset - 1;
        let instr = self.chunk.code[offset];
        let ghost code0 = self.chunk.code@;
        let ghost nc = self.chunk.constants@.len() as int;
        match instr {
            OpCode::OP_JUMP_IF_FALSE(_) => {
                self.chunk.code[offset] = OpCode::OP_JUMP_IF_FALSE(jump);
            },
            OpCode::OP_JUMP(_) => {
                self.chunk.code[offset] = OpCode::OP_JUMP(jump);
            },
            _ => {
                proof {
                    assert(false);
                }
            },
        }
        proof {
            assert forall|i: int| 0 <= i < self.chunk.code@.len() implies op_wf(
                #[trigger] self.chunk.code@[i],
                nc,
                self.chunk.code@.len() as int,
                i,
            ) by {
                if i != offset as int {
                    assert(self.chunk.code@[i] == code0[i]);
                }
            }
        }
    }

    /// Records an error at the given token, keeps its report for the host
    /// to print, and enters panic mode; while in panic mode further
    /// reports are suppressed.
    fn error_at(&mut self, error_at: ErrorAt, message: &str)
        ensures
            final(self).chunk == old(self).chunk,
            final(self).current == old(self).current,
            final(self).previous == old(self).previous,
            old(self).panic_mode ==> *final(self) == *old(self),
            !old(self).panic_mode ==> final(self).panic_mode && final(self).had_error,
            final(self).reports@.len() >= old(self).reports@.len(),
    {
        if self.panic_mode {
            return ;
        }
        self.panic_mode = true;
        let token = match error_at {
            ErrorAt::Current => &self.current,
            ErrorAt::Before => &self.previous,
        };
        let mut report = String::new();
        report.append("[line ");
        let line = crate::util::u64_to_string(token.line as u64);
        report.append(line.as_str());
        if token.kind == TokenKind::TOKEN_EOF {
            report.append("] Error at end");
        } else {
            report.append("] Error at '");
            report.append(token.slice.as_str());
            report.append("'");
        }
        if !message.is_empty() {
            report.append(": ");
            report.append(message);
        }
        self.reports.push(report);
        self.had_error = true;
    }

    fn check(&self, kind: TokenKind) -> (r: bool)
        ensures
            r == (self.current.kind == kind),
    {
        self.current.kind == kind
    }

    /// Reads tokens until one that is not an error token, reporting each
    /// error token met. Steps the scanner past punctuation, whose
    /// characters the scanner itself leaves unconsumed.
    pub(crate) fn advance(&mut self, scanner: &mut Scanner)
        requires
            old(self).wf(),
            old(scanner).wf(),
        ensures
            final(self).wf(),
            final(scanner).wf(),
            final(scanner).source == old(scanner).source,
            final(scanner).source_length == old(scanner).source_length,
            final(scanner).current >= old(scanner).current,
            final(self).chunk == old(self).chunk,
            final(self).previous == old(self).current,
            old(scanner).current >= old(scanner).source_length ==> (final(self).had_error == old(self).had_error
                && final(self).panic_mode == old(self).panic_mode
                && final(self).current.kind == TokenKind::TOKEN_EOF),
            final(self).current.kind == TokenKind::TOKEN_EOF || final(scanner).current > old(
                scanner,
            ).current,
            final(scanner).current > old(scanner).current
                || final(scanner).current >= final(scanner).source_length,
            old(self).had_error ==> final(self).had_error,
    {
        core::mem::swap(&mut self.previous, &mut self.current);
        let ghost src = old(scanner).source@;
        loop
            invariant
                self.wf(),
                scanner.wf(),
                scanner.source@ == src,
                scanner.source == old(scanner).source,
                scanner.source_length == old(scanner).source_length,
                scanner.current >= old(scanner).current,
                self.chunk == old(self).chunk,
                self.previous == old(self).current,
                old(self).had_error ==> self.had_error,
                old(scanner).current >= old(scanner).source_length ==> (self.had_error == old(self).had_error
                    && self.panic_mode == old(self).panic_mode),
            decreases scanner.source_length - scanner.current,
        {
            let ghost cur_before = scanner.current;
            let ghost line_before = scanner.line;
            let token = scanner.scan_token();
            proof {
                crate::scanner::lemma_skip_ws_bounds(src, cur_before as int, line_before as int);
                let p = crate::scanner::skip_ws(src, cur_before as int, line_before as int).0;
                if p < src.len() {
                    crate::scanner::lemma_ident_end_bounds(src, p);
                    crate::scanner::lemma_number_end_bounds(src, p);
                    crate::scanner::lemma_string_end_bounds(src, p + 1);
                    crate::scanner::lemma_scan_progress(src, p);
                }
            }
            let is_literalish = match token.kind {
                TokenKind::TOKEN_NUMBER => true,
                TokenKind::TOKEN_STRING => true,
                TokenKind::TOKEN_IDENTIFIER => true,
                TokenKind::TOKEN_NIL => true,
                TokenKind::TOKEN_TRUE => true,
                TokenKind::TOKEN_FALSE => true,
                TokenKind::TOKEN_ASSERT_EQ => true,
                _ => false,
            };
            if !is_literalish {
                scanner.advance();
            }
            let is_err = token.kind == TokenKind::TOKEN_ERROR;
            self.current = token;
            if !is_err {
                return ;
            }
            self.error_at(ErrorAt::Current, "");
            if scanner.is_at_end() {
                // An unterminated string ends the input; close with the end
                // marker.
                self.current = Token::new(TokenKind::TOKEN_EOF, String::new(), scanner.line);
                return ;
            }
        }
    }

    fn match_token(&mut self, kind: TokenKind, scanner: &mut Scanner) -> (r: bool)
        requires
            old(self).wf(),
            old(scanner).wf(),
        ensures
            final(self).wf(),
            final(scanner).wf(),
            final(scanner).source == old(scanner).source,
            final(scanner).source_length == old(scanner).source_length,
            final(scanner).current >= old(scanner).current,
            final(self).chunk == old(self).chunk,
            r == (old(self).current.kind == kind),
            r ==> final(self).previous == old(self).current,
            !r ==> *final(self) == *old(self),
            (old(scanner).current >= old(scanner).source_length && old(self).current.kind
                == TokenKind::TOKEN_EOF) ==> (final(self).had_error == old(self).had_error
                && final(self).current.kind == TokenKind::TOKEN_EOF),
            old(self).had_error ==> final(self).had_error,
    {
        if !self.check(kind) {
            return false;
        }
        self.advance(scanner);
        true
    }

    /// Steps past the current token when it has the expected kind, else
    /// reports an error at it.
    fn consume(&mut self, kind: TokenKind, message: &str, scanner: &mut Scanner)
        requires
            old(self).wf(),
            old(scanner).wf(),
        ensures
            final(self).wf(),
            final(scanner).wf(),
            final(scanner).source == old(scanner).source,
            final(scanner).source_length == old(scanner).source_length,
            final(scanner).current >= old(scanner).current,
            final(self).chunk == old(self).chunk,
            old(self).had_error ==> final(self).had_error,
            final(scanner).current > old(scanner).current
                || final(scanner).current >= final(scanner).source_length
                || final(self).had_error,
    {
        if self.current.kind == kind {
            self.advance(scanner);
        } else {
            self.error_at(ErrorAt::Current, message);
        }
    }
}

impl Parser {
    /// Parses an expression.
    pub(crate) fn expression(&mut self, scanner: &mut Scanner, current: &mut Compiler, fuel: u64)
        requires
            old(self).wf(),
            old(scanner).wf(),
            old(current).wf(),
        ensures
            parse_step(
                *old(self),
                *final(self),
                *old(scanner),
                *final(scanner),
                *old(current),
                *final(current),
            ),
            final(scanner).current > old(scanner).current
                || final(scanner).current >= final(scanner).source_length
                || final(self).had_error,
            final(current).locals == old(current).locals,
        decreases fuel,
    {
        if fuel == 0 {
            self.had_error = true;
            return ;
        }
        self.parse_precedence(Precedence::PREC_ASSIGNMENT, scanner, current, fuel - 1);
    }

    /// The core of the Pratt parser: one prefix construct, then every infix
    /// operator that binds at least as strongly as the caller's threshold.
    pub(crate) fn parse_precedence(
        &mut self,
        precedence: Precedence,
        scanner: &mut Scanner,
        current: &mut Compiler,
        fuel: u64,
    )
        requires
            old(self).wf(),
            old(scanner).wf(),
            old(current).wf(),
            precedence.level_spec() >= 1,
        ensures
            parse_step(
                *old(self),
                *final(self),
                *old(scanner),
                *final(scanner),
                *old(current),
                *final(current),
            ),
            final(scanner).current > old(scanner).current
                || final(scanner).current >= final(scanner).source_length
                || final(self).had_error,
            final(current).locals == old(current).locals,
        decreases fuel,
    {
        if fuel == 0 {
            self.had_error = true;
            return ;
        }
        self.advance(scanner);
        let rule = get_rule(self.previous.kind);
        match rule.prefix {
            None => {
                // A token with no prefix role is passed over, as stray
                // semicolons between statements are.
                return ;
            },
            Some(prefix_rule) => {
                let can_assign = precedence.level() <= 1;
                let ghost pd = *self;
                let ghost sd = *scanner;
                let ghost cd = *current;
                match prefix_rule {
                    PrefixFn::Grouping => grouping(self, scanner, current, can_assign, fuel - 1),
                    PrefixFn::Number => number(self, scanner, current, can_assign),
                    PrefixFn::StringLit => string(self, scanner, current, can_assign),
                    PrefixFn::Literal => literal(self, scanner, current, can_assign),
                    PrefixFn::Unary => unary(self, scanner, current, can_assign, fuel - 1),
                    PrefixFn::Variable => variable(self, scanner, current, can_assign, fuel - 1),
                    PrefixFn::Printing => printing(self, scanner, current, can_assign, fuel - 1),
                }
                proof {
                    assert(parse_step(pd, *self, sd, *scanner, cd, *current));
                    assert(parse_step(
                        *old(self),
                        *self,
                        *old(scanner),
                        *scanner,
                        *old(current),
                        *current,
                    ));
                }
                let mut f = fuel;
                loop
                    invariant
                        parse_step(
                            *old(self),
                            *self,
                            *old(scanner),
                            *scanner,
                            *old(current),
                            *current,
                        ),
                        current.locals == old(current).locals,
                        f <= fuel,
                        scanner.current > old(scanner).current || scanner.current
                            >= scanner.source_length || self.had_error,
                    decreases f,
                {
                    if f == 0 {
                        self.had_error = true;
                        break ;
                    }
                    f = f - 1;
                    let rp = get_rule(self.current.kind).precedence;
                    if precedence.level() <= rp.level() {
                        let ghost pa = *self;
                        let ghost sa = *scanner;
                        let ghost ca = *current;
                        self.advance(scanner);
                        let infix_rule = get_rule(self.previous.kind).infix;
                        match infix_rule {
                            Some(InfixFn::Binary) => binary(self, scanner, current, can_assign, f),
                            Some(InfixFn::And) => and_(self, scanner, current, can_assign, f),
                            Some(InfixFn::Or) => or_(self, scanner, current, can_assign, f),
                            None => {},
                        }
                        if can_assign && self.match_token(TokenKind::TOKEN_EQUAL, scanner) {
                            // an invalid assignment target; the equals sign
                            // is consumed and parsing goes on
                        }
                        proof {
                            lemma_parse_step_trans(
                                *old(self),
                                pa,
                                *self,
                                *old(scanner),
                                sa,
                                *scanner,
                                *old(current),
                                ca,
                                *current,
                            );
                        }
                    } else {
                        break ;
                    }
                }
            },
        }
    }

    /// An expression in statement position. Inside a block its value is
    /// popped; at the top level it stays on the stack, where a final
    /// return can yield it.
    pub(crate) fn expression_statement(&mut self, scanner: &mut Scanner, current: &mut Compiler, fuel: u64)
        requires
            old(self).wf(),
            old(scanner).wf(),
            old(current).wf(),
        ensures
            parse_step(
                *old(self),
                *final(self),
                *old(scanner),
                *final(scanner),
                *old(current),
                *final(current),
            ),
            final(scanner).current > old(scanner).current
                || final(scanner).current >= final(scanner).source_length
                || final(self).had_error,
            (final(self).chunk.code@.len() > old(self).chunk.code@.len() && old(
                current,
            ).scope_depth > 0) ==> final(self).chunk.code@.last() == OpCode::OP_POP,
            final(current).locals == old(current).locals,
        decreases fuel,
    {
        if fuel == 0 {
            self.had_error = true;
            return ;
        }
        let ghost pa = *self;
        let ghost sa = *scanner;
        let ghost ca = *current;
        let before = self.chunk.code.len();
        self.expression(scanner, current, fuel - 1);
        let after = self.chunk.code.len();
        if after == before {
            // Nothing was parsed, as for a stray semicolon: there is no
            // value to account for.
            return ;
        }
        if current.scope_depth > 0 {
            self.emit_byte(OpCode::OP_POP);
        } else {
            current.note_leak();
        }
        proof {
            assert(self.chunk.code@.subrange(0, pa.chunk.code@.len() as int)
                =~= self.chunk.code@.subrange(0, pa.chunk.code@.len() as int));
        }
    }

    pub(crate) fn print_statement(&mut self, scanner: &mut Scanner, current: &mut Compiler, fuel: u64)
        requires
            old(self).wf(),
            old(scanner).wf(),
            old(current).wf(),
        ensures
            parse_step(
                *old(self),
                *final(self),
                *old(scanner),
                *final(scanner),
                *old(current),
                *final(current),
            ),
            final(scanner).current > old(scanner).current
                || final(scanner).current >= final(scanner).source_length
                || final(self).had_error,
            fuel > 0 ==> (final(self).chunk.code@.len() > old(self).chunk.code@.len()
                && final(self).chunk.code@.last() == OpCode::OP_PRINT),
        decreases fuel,
    {
        if fuel == 0 {
            self.had_error = true;
            return ;
        }
        self.expression(scanner, current, fuel - 1);
        self.consume(TokenKind::TOKEN_SEMICOLON, "Expect ';' after value.", scanner);
        self.emit_byte(OpCode::OP_PRINT);
        proof {
            assert(self.chunk.code@.subrange(0, old(self).chunk.code@.len() as int)
                =~= old(self).chunk.code@);
        }
    }

    /// The language's primitive test construct: two expressions whose
    /// values the running program must find equal.
    pub(crate) fn assert_eq_statement(&mut self, scanner: &mut Scanner, current: &mut Compiler, fuel: u64)
        requires
            old(self).wf(),
            old(scanner).wf(),
            old(current).wf(),
        ensures
            parse_step(
                *old(self),
                *final(self),
                *old(scanner),
                *final(scanner),
                *old(current),
                *final(current),
            ),
            final(scanner).current > old(scanner).current
                || final(scanner).current >= final(scanner).source_length
                || final(self).had_error,
            fuel > 0 ==> (final(self).chunk.code@.len() > old(self).chunk.code@.len()
                && final(self).chunk.code@.last() == OpCode::OP_ASSERT_EQ),
        decreases fuel,
    {
        if fuel == 0 {
            self.had_error = true;
            return ;
        }
        self.consume(TokenKind::TOKEN_LEFT_PAREN, "Expect '(' after assert statement.", scanner);
        // Left side of the assert.
        self.expression(scanner, current, fuel - 1);
        self.consume(TokenKind::TOKEN_COMMA, "Expect ',' after expression.", scanner);
        let ghost pa = *self;
        let ghost sa = *scanner;
        let ghost ca = *current;
        // Right side of the assert.
        self.expression(scanner, current, fuel - 1);
        self.consume(TokenKind::TOKEN_RIGHT_PAREN, "Expect ')' after statement.", scanner);
        self.consume(TokenKind::TOKEN_SEMICOLON, "Expect ';' after statement.", scanner);
        self.emit_byte(OpCode::OP_ASSERT_EQ);
        proof {
            assert(self.chunk.code@.subrange(0, pa.chunk.code@.len() as int)
                =~= pa.chunk.code@);
            lemma_parse_step_trans(
                *old(self),
                pa,
                *self,
                *old(scanner),
                sa,
                *scanner,
                *old(current),
                ca,
                *current,
            );
        }
    }

    pub(crate) fn while_statement(&mut self, scanner: &mut Scanner, current: &mut Compiler, fuel: u64)
        requires
            old(self).wf(),
            old(scanner).wf(),
            old(current).wf(),
            old(current).scope_depth + fuel <= usize::MAX,
        ensures
            parse_step(
                *old(self),
                *final(self),
                *old(scanner),
                *final(scanner),
                *old(current),
                *final(current),
            ),
            final(scanner).current > old(scanner).current
                || final(scanner).current >= final(scanner).source_length
                || final(self).had_error,
            fuel > 0 ==> final(self).chunk.code@.len() >= old(self).chunk.code@.len() + 4
                && final(self).chunk.code@.last() == OpCode::OP_POP,
        decreases fuel,
    {
        if fuel == 0 {
            self.had_error = true;
            return ;
        }
        let loop_start = self.chunk.code.len();
        self.consume(TokenKind::TOKEN_LEFT_PAREN, "Expect '(' after 'while'.", scanner);
        self.expression(scanner, current, fuel - 1);
        self.consume(TokenKind::TOKEN_RIGHT_PAREN, "Expect ')' after 'while'.", scanner);
        let ghost pa = *self;
        let exit_jump = self.emit_jump_if_false();
        self.emit_byte(OpCode::OP_POP);
        let ghost pb = *self;
        self.statement(scanner, current, fuel - 1);
        let ghost pc = *self;
        proof {
            assert(pc.chunk.code@[exit_jump as int] == pb.chunk.code@[exit_jump as int]);
            assert(pc.chunk.code@[exit_jump as int] is OP_JUMP_IF_FALSE);
        }
        // loop construct
        self.emit_loop(loop_start);
        self.patch_jump(exit_jump);
        self.emit_byte(OpCode::OP_POP);
        proof {
            assert forall|i: int| 0 <= i < old(self).chunk.code@.len() implies
                self.chunk.code@[i] == old(self).chunk.code@[i] by {
                assert(pc.chunk.code@[i] == pb.chunk.code@[i]);
                assert(pb.chunk.code@[i] == pa.chunk.code@[i]);
                assert(pa.chunk.code@[i] == old(self).chunk.code@[i]);
            }
            assert(self.chunk.code@.subrange(0, old(self).chunk.code@.len() as int)
                =~= old(self).chunk.code@);
        }
    }

    pub(crate) fn if_statement(&mut self, scanner: &mut Scanner, current: &mut Compiler, fuel: u64)
        requires
            old(self).wf(),
            old(scanner).wf(),
            old(current).wf(),
            old(current).scope_depth + fuel <= usize::MAX,
        ensures
            parse_step(
                *old(self),
                *final(self),
                *old(scanner),
                *final(scanner),
                *old(current),
                *final(current),
            ),
            final(scanner).current > old(scanner).current
                || final(scanner).current >= final(scanner).source_length
                || final(self).had_error,
            fuel > 0 ==> final(self).chunk.code@.len() >= old(self).chunk.code@.len() + 4,
        decreases fuel,
    {
        if fuel == 0 {
            self.had_error = true;
            return ;
        }
        self.consume(TokenKind::TOKEN_LEFT_PAREN, "Expect '(' after 'if'.", scanner);
        self.expression(scanner, current, fuel - 1);
        self.consume(TokenKind::TOKEN_RIGHT_PAREN, "Expect ')' after condition", scanner);

        let ghost pa = *self;
        let then_jump = self.emit_jump_if_false();
        self.emit_byte(OpCode::OP_POP);
        let ghost pb = *self;

        self.statement(scanner, current, fuel - 1);
        let ghost pc = *self;

        let else_jump = self.emit_jump();
        let ghost pd = *self;
        proof {
            assert(pd.chunk.code@[then_jump as int] == pc.chunk.code@[then_jump as int]);
            assert(pc.chunk.code@[then_jump as int] == pb.chunk.code@[then_jump as int]);
        }
        self.patch_jump(then_jump);
        self.emit_byte(OpCode::OP_POP);
        let ghost pe = *self;

        if self.match_token(TokenKind::TOKEN_ELSE, scanner) {
            self.statement(scanner, current, fuel - 1);
        }
        let ghost pf = *self;
        proof {
            assert(pf.chunk.code@[else_jump as int] == pe.chunk.code@[else_jump as int]);
            assert(pe.chunk.code@[else_jump as int] == pd.chunk.code@[else_jump as int]);
            assert(pf.chunk.code@[else_jump as int] is OP_JUMP);
        }
        self.patch_jump(else_jump);
        proof {
            assert forall|i: int| 0 <= i < old(self).chunk.code@.len() implies
                self.chunk.code@[i] == old(self).chunk.code@[i] by {
                assert(pf.chunk.code@[i] == pe.chunk.code@[i]);
                assert(pe.chunk.code@[i] == pd.chunk.code@[i]);
                assert(pd.chunk.code@[i] == pc.chunk.code@[i]);
                assert(pc.chunk.code@[i] == pb.chunk.code@[i]);
                assert(pb.chunk.code@[i] == pa.chunk.code@[i]);
                assert(pa.chunk.code@[i] == old(self).chunk.code@[i]);
            }
            assert(self.chunk.code@.subrange(0, old(self).chunk.code@.len() as int)
                =~= old(self).chunk.code@);
        }
    }

    pub(crate) fn block(&mut self, scanner: &mut Scanner, current: &mut Compiler, fuel: u64)
        requires
            old(self).wf(),
            old(scanner).wf(),
            old(current).wf(),
            old(current).scope_depth + fuel <= usize::MAX,
        ensures
            parse_step(
                *old(self),
                *final(self),
                *old(scanner),
                *final(scanner),
                *old(current),
                *final(current),
            ),
            final(scanner).current > old(scanner).current
                || final(scanner).current >= final(scanner).source_length
                || final(self).had_error,
        decreases fuel,
    {
        let mut f = fuel;
        loop
            invariant
                parse_step(*old(self), *self, *old(scanner), *scanner, *old(current), *current),
                current.scope_depth + f <= usize::MAX,
                f <= fuel,
            decreases f,
        {
            if f == 0 {
                self.had_error = true;
                break ;
            }
            f = f - 1;
            if !self.check(TokenKind::TOKEN_RIGHT_BRACE) && !self.check(TokenKind::TOKEN_EOF) {
                let ghost pa = *self;
                let ghost sa = *scanner;
                let ghost ca = *current;
                self.declaration(scanner, current, f);
                proof {
                    lemma_parse_step_trans(
                        *old(self),
                        pa,
                        *self,
                        *old(scanner),
                        sa,
                        *scanner,
                        *old(current),
                        ca,
                        *current,
                    );
                }
            } else {
                break ;
            }
        }
        self.consume(TokenKind::TOKEN_RIGHT_BRACE, "Expect '}' after block.", scanner);
    }

    #[verifier::rlimit(60)]
    pub(crate) fn for_statement(&mut self, scanner: &mut Scanner, current: &mut Compiler, fuel: u64)
        requires
            old(self).wf(),
            old(scanner).wf(),
            old(current).wf(),
            old(current).scope_depth + fuel <= usize::MAX,
        ensures
            parse_step(
                *old(self),
                *final(self),
                *old(scanner),
                *final(scanner),
                *old(current),
                *final(current),
            ),
            final(scanner).current > old(scanner).current
                || final(scanner).current >= final(scanner).source_length
                || final(self).had_error,
            fuel > 0 ==> final(self).chunk.code@.len() > old(self).chunk.code@.len(),
        decreases fuel,
    {
        if fuel == 0 {
            self.had_error = true;
            return ;
        }
        current.begin_scope();
        self.consume(TokenKind::TOKEN_LEFT_PAREN, "Expect '(' after 'for'.", scanner);
        if self.match_token(TokenKind::TOKEN_SEMICOLON, scanner) {
            // No initializer
        } else if self.match_token(TokenKind::TOKEN_VAR, scanner) {
            self.var_declaration(scanner, current, fuel - 1)
        } else {
            self.expression_statement(scanner, current, fuel - 1)
        }
        let ghost pa = *self;
        let ghost sa = *scanner;
        let ghost ca = *current;

        let mut loop_start = self.chunk.code.len();
        // The exit jump exists only when the loop has a condition clause.
        let mut exit_jump: Option<usize> = None;
        if !self.match_token(TokenKind::TOKEN_SEMICOLON, scanner) {
            self.expression(scanner, current, fuel - 1);
            self.consume(TokenKind::TOKEN_SEMICOLON, "Expect ';' after loop condition.", scanner);

            // Jump out of the loop if the condition is false.
            exit_jump = Some(self.emit_jump_if_false());
            self.emit_byte(OpCode::OP_POP);
        }
        let ghost pb = *self;
        let ghost sb = *scanner;
        let ghost cb = *current;
        proof {
            assert(parse_step(pa, pb, sa, sb, ca, cb));
            match exit_jump {
                Some(e) => {
                    assert(pb.chunk.code@[e as int] is OP_JUMP_IF_FALSE);
                },
                None => {},
            }
        }

        if !self.match_token(TokenKind::TOKEN_RIGHT_PAREN, scanner) {
            let body_jump = self.emit_jump();
            let increment_start = self.chunk.code.len();
            let ghost pc = *self;
            self.expression(scanner, current, fuel - 1);
            self.emit_byte(OpCode::OP_POP);
            self.consume(TokenKind::TOKEN_RIGHT_PAREN, "Expect ')' after for clauses.", scanner);
            let ghost pd = *self;

            self.emit_loop(loop_start);
            loop_start = increment_start;
            let ghost pe = *self;
            proof {
                assert(pe.chunk.code@[body_jump as int] == pd.chunk.code@[body_jump as int]);
                assert(pd.chunk.code@[body_jump as int] == pc.chunk.code@[body_jump as int]);
                assert(pe.chunk.code@[body_jump as int] is OP_JUMP);
            }
            self.patch_jump(body_jump);
            proof {
                assert forall|i: int| 0 <= i < pb.chunk.code@.len() implies
                    self.chunk.code@[i] == pb.chunk.code@[i] by {
                    assert(self.chunk.code@[i] == pe.chunk.code@[i]);
                    assert(pe.chunk.code@[i] == pd.chunk.code@[i]);
                    assert(pd.chunk.code@[i] == pc.chunk.code@[i]);
                    assert(pc.chunk.code@[i] == pb.chunk.code@[i]);
                }
                assert(self.chunk.code@.subrange(0, pb.chunk.code@.len() as int)
                    =~= pb.chunk.code@);
            }
        }
        let ghost pf = *self;
        let ghost sf = *scanner;
        let ghost cf = *current;
        proof {
            assert(parse_step(pb, pf, sb, sf, cb, cf));
        }

        self.statement(scanner, current, fuel - 1);
        self.emit_loop(loop_start);
        let ghost pg = *self;
        proof {
            assert forall|i: int| 0 <= i < pb.chunk.code@.len() implies pg.chunk.code@[i]
                == pb.chunk.code@[i] by {
                assert(pg.chunk.code@[i] == self.chunk.code@[i]);
                assert(self.chunk.code@[i] == pf.chunk.code@[i]);
                assert(pf.chunk.code@[i] == pb.chunk.code@[i]);
            }
        }

        match exit_jump {
            Some(e) => {
                proof {
                    assert(pg.chunk.code@[e as int] == pb.chunk.code@[e as int]);
                }
                self.patch_jump(e);
                self.emit_byte(OpCode::OP_POP);  // Condition
            },
            None => {},
        }
        let ghost ph = *self;

        current.end_scope(self);
        proof {
            assert forall|i: int| 0 <= i < old(self).chunk.code@.len() implies
                self.chunk.code@[i] == old(self).chunk.code@[i] by {
                assert(self.chunk.code@[i] == ph.chunk.code@[i]);
                assert(ph.chunk.code@[i] == pg.chunk.code@[i]);
                assert(pg.chunk.code@[i] == pb.chunk.code@[i]);
                assert(pb.chunk.code@[i] == pa.chunk.code@[i]);
                assert(pa.chunk.code@[i] == old(self).chunk.code@[i]);
            }
            assert(self.chunk.code@.subrange(0, old(self).chunk.code@.len() as int)
                =~= old(self).chunk.code@);
        }
    }

    pub(crate) fn declaration(&mut self, scanner: &mut Scanner, current: &mut Compiler, fuel: u64)
        requires
            old(self).wf(),
            old(scanner).wf(),
            old(current).wf(),
            old(current).scope_depth + fuel <= usize::MAX,
        ensures
            parse_step(
                *old(self),
                *final(self),
                *old(scanner),
                *final(scanner),
                *old(current),
                *final(current),
            ),
            final(scanner).current > old(scanner).current
                || final(scanner).current >= final(scanner).source_length
                || final(self).had_error,
            (fuel >= 3 && old(self).current.kind == TokenKind::TOKEN_PRINT) ==> (
            final(self).chunk.code@.len() > old(self).chunk.code@.len()
                && final(self).chunk.code@.last() == OpCode::OP_PRINT),
            (fuel >= 3 && old(self).current.kind == TokenKind::TOKEN_ASSERT_EQ) ==> (
            final(self).chunk.code@.len() > old(self).chunk.code@.len()
                && final(self).chunk.code@.last() == OpCode::OP_ASSERT_EQ),
        decreases fuel,
    {
        if fuel == 0 {
            self.had_error = true;
            return ;
        }
        if self.match_token(TokenKind::TOKEN_VAR, scanner) {
            self.var_declaration(scanner, current, fuel - 1);
        } else {
            self.statement(scanner, current, fuel - 1);
        }

        if self.panic_mode {
            self.synchronize(scanner);
        }
    }

    pub(crate) fn var_declaration(&mut self, scanner: &mut Scanner, current: &mut Compiler, fuel: u64)
        requires
            old(self).wf(),
            old(scanner).wf(),
            old(current).wf(),
        ensures
            parse_step(
                *old(self),
                *final(self),
                *old(scanner),
                *final(scanner),
                *old(current),
                *final(current),
            ),
            final(scanner).current > old(scanner).current
                || final(scanner).current >= final(scanner).source_length
                || final(self).had_error,
            (fuel > 0 && old(current).scope_depth == 0) ==> (final(self).chunk.code@.len()
                > old(self).chunk.code@.len() && final(self).chunk.code@.last()
                is OP_DEFINE_GLOBAL),
        decreases fuel,
    {
        if fuel == 0 {
            self.had_error = true;
            return ;
        }
        let parsed = self.parse_variable("Expect variable name.", scanner, current);
        let chunk_val_index = parsed.0;
        let shadow = parsed.1;
        let ghost pa = *self;
        let ghost sa = *scanner;
        let ghost ca = *current;

        if self.match_token(TokenKind::TOKEN_EQUAL, scanner) {
            self.expression(scanner, current, fuel - 1);
        } else {
            self.emit_byte(OpCode::OP_NIL);
            proof {
                assert(self.chunk.code@.subrange(0, pa.chunk.code@.len() as int)
                    =~= pa.chunk.code@);
            }
        }
        self.consume(TokenKind::TOKEN_SEMICOLON, "Expect ';' after variable declaration.", scanner);

        self.define_variable(chunk_val_index, shadow, current);
        proof {
            lemma_parse_step_trans(
                *old(self),
                pa,
                *self,
                *old(scanner),
                sa,
                *scanner,
                *old(current),
                ca,
                *current,
            );
        }
    }

    /// Skips tokens until a statement boundary, then leaves panic mode:
    /// the parser's error recovery. Reports stay suppressed while the
    /// skipping runs, so one malformed statement does not cascade.
    pub(crate) fn synchronize(&mut self, scanner: &mut Scanner)
        requires
            old(self).wf(),
            old(scanner).wf(),
        ensures
            final(self).wf(),
            final(scanner).wf(),
            final(scanner).source == old(scanner).source,
            final(scanner).source_length == old(scanner).source_length,
            final(scanner).current >= old(scanner).current,
            final(self).chunk == old(self).chunk,
            old(self).had_error ==> final(self).had_error,
            !final(self).panic_mode,
            final(self).current.kind == TokenKind::TOKEN_EOF || is_statement_boundary(
                final(self).current.kind,
            ),
    {
        loop
            invariant_except_break
                self.wf(),
                scanner.wf(),
                scanner.source == old(scanner).source,
                scanner.source_length == old(scanner).source_length,
                scanner.current >= old(scanner).current,
                self.chunk == old(self).chunk,
                old(self).had_error ==> self.had_error,
            ensures
                self.wf(),
                scanner.wf(),
                scanner.source == old(scanner).source,
                scanner.source_length == old(scanner).source_length,
                scanner.current >= old(scanner).current,
                self.chunk == old(self).chunk,
                old(self).had_error ==> self.had_error,
                self.current.kind == TokenKind::TOKEN_EOF || is_statement_boundary(
                    self.current.kind,
                ),
            decreases
                    2 * (scanner.source_length - scanner.current) + (
                    if self.current.kind == TokenKind::TOKEN_EOF {
                        0int
                    } else {
                        1int
                    }),
        {
            let stop = match self.current.kind {
                TokenKind::TOKEN_EOF => true,
                TokenKind::TOKEN_CLASS => true,
                TokenKind::TOKEN_FUN => true,
                TokenKind::TOKEN_VAR => true,
                TokenKind::TOKEN_FOR => true,
                TokenKind::TOKEN_IF => true,
                TokenKind::TOKEN_WHILE => true,
                TokenKind::TOKEN_PRINT => true,
                TokenKind::TOKEN_RETURN => true,
                TokenKind::TOKEN_ASSERT_EQ => true,
                _ => false,
            };
            if stop {
                break ;
            }
            self.advance(scanner);
        }
        self.panic_mode = false;
    }

    pub(crate) fn statement(&mut self, scanner: &mut Scanner, current: &mut Compiler, fuel: u64)
        requires
            old(self).wf(),
            old(scanner).wf(),
            old(current).wf(),
            old(current).scope_depth + fuel <= usize::MAX,
        ensures
            parse_step(
                *old(self),
                *final(self),
                *old(scanner),
                *final(scanner),
                *old(current),
                *final(current),
            ),
            final(scanner).current > old(scanner).current
                || final(scanner).current >= final(scanner).source_length
                || final(self).had_error,
            (fuel >= 2 && old(self).current.kind == TokenKind::TOKEN_PRINT) ==> (
            final(self).chunk.code@.len() > old(self).chunk.code@.len()
                && final(self).chunk.code@.last() == OpCode::OP_PRINT),
            (fuel >= 2 && old(self).current.kind == TokenKind::TOKEN_ASSERT_EQ) ==> (
            final(self).chunk.code@.len() > old(self).chunk.code@.len()
                && final(self).chunk.code@.last() == OpCode::OP_ASSERT_EQ),
            (fuel >= 2 && old(self).current.kind == TokenKind::TOKEN_WHILE) ==> (
            final(self).chunk.code@.len() >= old(self).chunk.code@.len() + 4),
            (fuel >= 2 && old(self).current.kind == TokenKind::TOKEN_IF) ==> (
            final(self).chunk.code@.len() >= old(self).chunk.code@.len() + 4),
        decreases fuel,
    {
        if fuel == 0 {
            self.had_error = true;
            return ;
        }
        let k = self.current.kind;
        match k {
            TokenKind::TOKEN_PRINT => {
                self.print_statement(scanner, current, fuel - 1);
            },
            TokenKind::TOKEN_IF => {
                self.advance(scanner);
                self.if_statement(scanner, current, fuel - 1);
            },
            TokenKind::TOKEN_ASSERT_EQ => {
                self.advance(scanner);
                self.assert_eq_statement(scanner, current, fuel - 1);
            },
            TokenKind::TOKEN_LEFT_BRACE => {
                self.advance(scanner);
                current.begin_scope();
                let ghost pa = *self;
                self.block(scanner, current, fuel - 1);
                let ghost pb = *self;
                current.end_scope(self);
                proof {
                    assert forall|i: int| 0 <= i < old(self).chunk.code@.len() implies
                        self.chunk.code@[i] == old(self).chunk.code@[i] by {
                        assert(self.chunk.code@[i] == pb.chunk.code@[i]);
                        assert(pb.chunk.code@[i] == pa.chunk.code@[i]);
                        assert(pa.chunk.code@[i] == old(self).chunk.code@[i]);
                    }
                    assert(self.chunk.code@.subrange(0, old(self).chunk.code@.len() as int)
                        =~= old(self).chunk.code@);
                }
            },
            TokenKind::TOKEN_WHILE => {
                self.advance(scanner);
                self.while_statement(scanner, current, fuel - 1);
            },
            TokenKind::TOKEN_FOR => {
                self.advance(scanner);
                self.for_statement(scanner, current, fuel - 1);
            },
            _ => {
                self.expression_statement(scanner, current, fuel - 1);
            },
        }
    }

    /// Declares the variable named by the previous token. In a local scope
    /// this tracks the name; a declaration that shadows a same-depth local
    /// re-uses that local's slot, which is answered for the definition to
    /// store into.
    pub fn declare_variable(&mut self, current: &mut Compiler) -> (shadow: Option<usize>)
        requires
            old(self).wf(),
            old(current).wf(),
        ensures
            final(self).wf(),
            final(current).wf(),
            final(self).chunk == old(self).chunk,
            final(self).current == old(self).current,
            final(self).previous == old(self).previous,
            old(self).had_error ==> final(self).had_error,
            final(current).scope_depth == old(current).scope_depth,
            final(current).stack_height == old(current).stack_height,
            old(current).scope_depth == 0 ==> shadow is None && *final(current) == *old(current),
            shadow matches Some(j) ==> {
                &&& (j as int) < old(current).locals@.len()
                &&& old(current).locals@[j as int].name@ == old(self).previous.slice@
                &&& old(current).locals@[j as int].depth == old(current).scope_depth
                &&& final(current).locals@ == old(current).locals@.update(
                    j as int,
                    Local {
                        initialized: false,
                        ..old(current).locals@[j as int]
                    },
                )
            },
            (old(current).scope_depth > 0 && shadow is None) ==> ((final(current).locals
                == old(current).locals && (final(self).had_error || old(self).panic_mode)) || {
                &&& final(current).locals@.len() == old(current).locals@.len() + 1
                &&& final(current).locals@.drop_last() == old(current).locals@
                &&& final(current).locals@.last().name@ == old(self).previous.slice@
                &&& final(current).locals@.last().depth == old(current).scope_depth
                &&& !final(current).locals@.last().initialized
                &&& final(current).locals@.last().index == Some(
                    (old(current).stack_height + old(current).locals@.len()) as usize,
                )
            }),
    {
        // look for global variables, instead of local variables
        if current.scope_depth == 0 {
            return None;
        }

        let prev_name = self.previous.slice.clone();

        // Walk the locals of the current depth, innermost first: a match
        // re-uses its slot (the shadowing effect); otherwise the name is a
        // fresh local.
        let mut i = current.locals.len();
        let mut found: Option<usize> = None;
        loop
            invariant_except_break
                current.wf(),
                i <= current.locals@.len(),
                found is None,
                prev_name@ == old(self).previous.slice@,
            ensures
                current.wf(),
                found matches Some(j) ==> {
                    &&& (j as int) < current.locals@.len()
                    &&& current.locals@[j as int].name@ == old(self).previous.slice@
                    &&& current.locals@[j as int].depth == current.scope_depth
                },
            decreases i,
        {
            if i == 0 {
                break ;
            }
            i = i - 1;
            let stop = {
                let l = &current.locals[i];
                if l.depth < current.scope_depth {
                    true
                } else if crate::util::str_eq(l.name.as_str(), prev_name.as_str()) {
                    found = Some(i);
                    true
                } else {
                    false
                }
            };
            if stop {
                break ;
            }
        }

        match found {
            Some(j) => {
                // The new declaration re-uses the shadowed local's slot; it
                // becomes usable again once its initializer has compiled.
                current.mark_uninitialized(j);
                Some(j)
            },
            None => {
                if current.locals.len() < MAX_LOCALS {
                    let len = current.locals.len();
                    if current.stack_height <= usize::MAX - len {
                        // The local's value will land above the existing
                        // locals and any values top-level statements left.
                        let slot = current.stack_height + len;
                        current.add_local(prev_name.as_str(), slot);
                        None
                    } else {
                        self.error_at(ErrorAt::Before, "Too many values in scope.");
                        None
                    }
                } else {
                    self.error_at(ErrorAt::Before, "Too many local variables in a function.");
                    None
                }
            },
        }
    }

    /// Consumes a variable name and declares it; answers the constant-pool
    /// index of the name for globals, and the shadowed slot if any.
    pub(crate) fn parse_variable(
        &mut self,
        error_message: &str,
        scanner: &mut Scanner,
        current: &mut Compiler,
    ) -> (r: (usize, Option<usize>))
        requires
            old(self).wf(),
            old(scanner).wf(),
            old(current).wf(),
        ensures
            final(self).wf(),
            final(scanner).wf(),
            final(current).wf(),
            final(scanner).source == old(scanner).source,
            final(scanner).source_length == old(scanner).source_length,
            final(scanner).current >= old(scanner).current,
            final(current).scope_depth == old(current).scope_depth,
            final(self).chunk.code == old(self).chunk.code,
            final(self).chunk.constants@.len() >= old(self).chunk.constants@.len(),
            old(self).had_error ==> final(self).had_error,
            final(scanner).current > old(scanner).current
                || final(scanner).current >= final(scanner).source_length
                || final(self).had_error,
            old(current).scope_depth == 0 ==> {
                &&& (r.0 as int) < final(self).chunk.constants@.len()
                &&& r.0 as int == old(self).chunk.constants@.len()
                &&& final(self).chunk.constants@.len() == old(self).chunk.constants@.len() + 1
                &&& final(self).chunk.constants@.last()@ == ValueModel::Str(
                    final(self).previous.slice@,
                )
                &&& *final(current) == *old(current)
            },
            old(current).scope_depth > 0 ==> final(self).chunk.constants == old(
                self,
            ).chunk.constants,
            r.1 matches Some(j) ==> (j as int) < final(current).locals@.len(),
    {
        self.consume(TokenKind::TOKEN_IDENTIFIER, error_message, scanner);

        let shadow = self.declare_variable(current);
        if current.scope_depth > 0 {
            return (0, shadow);
        }

        (self.identifier_constant_prev(), None)
    }

    /// Emits what makes the just-declared variable live: globals get their
    /// defining instruction; a fresh local's value already sits in its
    /// slot; a shadowing local stores its value into the re-used slot.
    pub(crate) fn define_variable(
        &mut self,
        index: usize,
        shadow: Option<usize>,
        current: &mut Compiler,
    )
        requires
            old(self).wf(),
            old(current).wf(),
            old(current).scope_depth == 0 ==> (index as int) < old(self).chunk.constants@.len(),
            shadow matches Some(j) ==> (j as int) < old(current).locals@.len(),
        ensures
            final(self).wf(),
            final(current).wf(),
            final(current).scope_depth == old(current).scope_depth,
            final(self).chunk.code@.len() >= old(self).chunk.code@.len(),
            final(self).chunk.code@.subrange(0, old(self).chunk.code@.len() as int) == old(
                self,
            ).chunk.code@,
            final(self).chunk.constants == old(self).chunk.constants,
            final(self).had_error == old(self).had_error,
            final(self).panic_mode == old(self).panic_mode,
            final(self).current == old(self).current,
            final(self).previous == old(self).previous,
            old(current).scope_depth == 0 ==> (final(self).chunk.code@ == old(
                self,
            ).chunk.code@.push(OpCode::OP_DEFINE_GLOBAL(index)) && *final(current) == *old(
                current,
            )),
            shadow matches Some(j) ==> (old(current).scope_depth > 0 ==> {
                &&& final(self).chunk.code@ == old(self).chunk.code@.push(
                    OpCode::OP_SET_LOCAL(local_slot(old(current).locals@[j as int], j)),
                ).push(OpCode::OP_POP)
                &&& final(current).locals@ == old(current).locals@.update(
                    j as int,
                    Local {
                        initialized: true,
                        ..old(current).locals@[j as int]
                    },
                )
            }),
            (old(current).scope_depth > 0 && shadow is None) ==> {
                &&& final(self).chunk.code == old(self).chunk.code
                &&& final(current).locals@ == if old(current).locals@.len() > 0 {
                    old(current).locals@.update(
                        old(current).locals@.len() - 1,
                        Local {
                            initialized: true,
                            ..old(current).locals@.last()
                        },
                    )
                } else {
                    old(current).locals@
                }
            },
    {
        if current.scope_depth > 0 {
            match shadow {
                Some(j) => {
                    // The initializer's value moves into the re-used slot,
                    // recorded on the shadowed local itself.
                    let slot = match current.locals[j].index {
                        Some(s) => s,
                        None => j,
                    };
                    self.emit_byte(OpCode::OP_SET_LOCAL(slot));
                    self.emit_byte(OpCode::OP_POP);
                    current.mark_initialized(j);
                    proof {
                        assert(self.chunk.code@.subrange(0, old(self).chunk.code@.len() as int)
                            =~= old(self).chunk.code@);
                    }
                },
                None => {
                    current.initialize_new_variable();
                    proof {
                        assert(self.chunk.code@.subrange(0, old(self).chunk.code@.len() as int)
                            =~= old(self).chunk.code@);
                    }
                },
            }
            return ;
        }

        self.emit_byte(OpCode::OP_DEFINE_GLOBAL(index));
        proof {
            assert(self.chunk.code@.subrange(0, old(self).chunk.code@.len() as int) =~= old(
                self,
            ).chunk.code@);
        }
    }

    pub(crate) fn end_compiler(&mut self)
        requires
            old(self).wf(),
        ensures
            final(self).wf(),
            final(self).chunk.code@ == old(self).chunk.code@.push(OpCode::OP_RETURN),
            final(self).chunk.constants == old(self).chunk.constants,
            final(self).had_error == old(self).had_error,
    {
        self.emit_return()
    }
}

// ########################################################################
// The parse handlers the table dispatches to
// ########################################################################
/// ParseRule for parenthesis.
fn grouping(
    parser: &mut Parser,
    scanner: &mut Scanner,
    current: &mut Compiler,
    _can_assign: bool,
    fuel: u64,
)
    requires
        old(parser).wf(),
        old(scanner).wf(),
        old(current).wf(),
    ensures
        parse_step(
            *old(parser),
            *final(parser),
            *old(scanner),
            *final(scanner),
            *old(current),
            *final(current),
        ),
        final(current).locals == old(current).locals,
    decreases fuel,
{
    if fuel == 0 {
        parser.had_error = true;
        return ;
    }
    parser.expression(scanner, current, fuel - 1);
    parser.consume(TokenKind::TOKEN_RIGHT_PAREN, "Expect ')' after expression.", scanner);
}

/// Parse rule for print statement.
fn printing(
    parser: &mut Parser,
    scanner: &mut Scanner,
    current: &mut Compiler,
    _can_assign: bool,
    fuel: u64,
)
    requires
        old(parser).wf(),
        old(scanner).wf(),
        old(current).wf(),
    ensures
        parse_step(
            *old(parser),
            *final(parser),
            *old(scanner),
            *final(scanner),
            *old(current),
            *final(current),
        ),
        final(current).locals == old(current).locals,
    decreases fuel,
{
    if fuel == 0 {
        parser.had_error = true;
        return ;
    }
    parser.expression(scanner, current, fuel - 1);
}

/// Parse rule for numbers.
fn number(
    parser: &mut Parser,
    _scanner: &mut Scanner,
    _current: &mut Compiler,
    _can_assign: bool,
)
    requires
        old(parser).wf(),
    ensures
        final(parser).wf(),
        final(parser).chunk.code@.len() >= old(parser).chunk.code@.len(),
        final(parser).chunk.code@.subrange(0, old(parser).chunk.code@.len() as int) == old(
            parser,
        ).chunk.code@,
        final(parser).chunk.constants@.len() >= old(parser).chunk.constants@.len(),
        *final(_scanner) == *old(_scanner),
        *final(_current) == *old(_current),
        old(parser).had_error ==> final(parser).had_error,
{
    let parsed = parse_number(parser.previous.slice.as_str());
    let token_len = parser.previous.slice.as_str().unicode_len();
    match parsed.0 {
        Some(n) => {
            if parsed.1 < token_len {
                // The token carries a fractional part; the machine's
                // numbers are whole, so the literal is refused rather
                // than silently rounded.
                parser.error_at(ErrorAt::Before, "Fractional number literals are not supported.");
                proof {
                    assert(final(parser).chunk.code@.subrange(
                        0,
                        old(parser).chunk.code@.len() as int,
                    ) =~= old(parser).chunk.code@);
                }
                return ;
            }
            parser.emit_constant(Value::number_value(n));
            proof {
                assert(final(parser).chunk.code@.subrange(
                    0,
                    old(parser).chunk.code@.len() as int,
                ) =~= old(parser).chunk.code@);
            }
        },
        None => {
            parser.error_at(ErrorAt::Before, "Number literal does not fit.");
            proof {
                assert(final(parser).chunk.code@.subrange(
                    0,
                    old(parser).chunk.code@.len() as int,
                ) =~= old(parser).chunk.code@);
            }
        },
    }
}

/// Parse rule for strings: the quotes come off and the content is interned.
fn string(
    parser: &mut Parser,
    _scanner: &mut Scanner,
    _current: &mut Compiler,
    _can_assign: bool,
)
    requires
        old(parser).wf(),
    ensures
        final(parser).wf(),
        final(parser).chunk.code@.len() >= old(parser).chunk.code@.len(),
        final(parser).chunk.code@.subrange(0, old(parser).chunk.code@.len() as int) == old(
            parser,
        ).chunk.code@,
        final(parser).chunk.constants@.len() >= old(parser).chunk.constants@.len(),
        *final(_scanner) == *old(_scanner),
        *final(_current) == *old(_current),
        old(parser).had_error ==> final(parser).had_error,
{
    let len = parser.previous.slice.as_str().unicode_len();
    if len < 2 {
        parser.error_at(ErrorAt::Before, "Invalid string literal.");
        proof {
            assert(final(parser).chunk.code@.subrange(0, old(parser).chunk.code@.len() as int)
                =~= old(parser).chunk.code@);
        }
        return ;
    }
    let inner = parser.previous.slice.as_str().substring_char(1, len - 1).to_owned();
    let string_obj = allocate_object(inner);
    parser.emit_constant(string_obj);
    proof {
        assert(final(parser).chunk.code@.subrange(0, old(parser).chunk.code@.len() as int)
            =~= old(parser).chunk.code@);
    }
}

/// Parse rule for binary operations: the right operand binds one level
/// tighter, giving left associativity.
fn binary(
    parser: &mut Parser,
    scanner: &mut Scanner,
    current: &mut Compiler,
    _can_assign: bool,
    fuel: u64,
)
    requires
        old(parser).wf(),
        old(scanner).wf(),
        old(current).wf(),
    ensures
        parse_step(
            *old(parser),
            *final(parser),
            *old(scanner),
            *final(scanner),
            *old(current),
            *final(current),
        ),
        final(current).locals == old(current).locals,
    decreases fuel,
{
    if fuel == 0 {
        parser.had_error = true;
        return ;
    }
    let operator_type = parser.previous.kind;
    let rule = get_rule(operator_type);
    let prec = rule.precedence.level();
    parser.parse_precedence(
        Precedence::get_enum(prec as usize + 1),
        scanner,
        current,
        fuel - 1,
    );

    let ghost pa = *parser;
    let ghost sa = *scanner;
    let ghost ca = *current;
    match operator_type {
        TokenKind::TOKEN_BANG_EQUAL => parser.emit_bytes(OpCode::OP_EQUAL, OpCode::OP_NOT),
        TokenKind::TOKEN_EQUAL_EQUAL => parser.emit_byte(OpCode::OP_EQUAL),
        TokenKind::TOKEN_GREATER => parser.emit_byte(OpCode::OP_GREATER),
        TokenKind::TOKEN_GREATER_EQUAL => parser.emit_bytes(OpCode::OP_LESS, OpCode::OP_NOT),
        TokenKind::TOKEN_LESS => parser.emit_byte(OpCode::OP_LESS),
        TokenKind::TOKEN_LESS_EQUAL => parser.emit_bytes(OpCode::OP_GREATER, OpCode::OP_NOT),
        TokenKind::TOKEN_PLUS => parser.emit_byte(OpCode::OP_ADD),
        TokenKind::TOKEN_MINUS => parser.emit_byte(OpCode::OP_SUBTRACT),
        TokenKind::TOKEN_STAR => parser.emit_byte(OpCode::OP_MULTIPLY),
        TokenKind::TOKEN_SLASH => parser.emit_byte(OpCode::OP_DIVIDE),
        _ => {},
    }
    proof {
        assert(parser.chunk.code@.subrange(0, pa.chunk.code@.len() as int) =~= pa.chunk.code@);
        lemma_parse_step_trans(
            *old(parser),
            pa,
            *parser,
            *old(scanner),
            sa,
            *scanner,
            *old(current),
            ca,
            *current,
        );
    }
}

/// Parse rule for literals.
fn literal(
    parser: &mut Parser,
    _scanner: &mut Scanner,
    _current: &mut Compiler,
    _can_assign: bool,
)
    requires
        old(parser).wf(),
    ensures
        final(parser).wf(),
        final(parser).chunk.code@.len() >= old(parser).chunk.code@.len(),
        final(parser).chunk.code@.subrange(0, old(parser).chunk.code@.len() as int) == old(
            parser,
        ).chunk.code@,
        final(parser).chunk.constants == old(parser).chunk.constants,
        *final(_scanner) == *old(_scanner),
        *final(_current) == *old(_current),
        old(parser).had_error ==> final(parser).had_error,
{
    match parser.previous.kind {
        TokenKind::TOKEN_TRUE => parser.emit_byte(OpCode::OP_TRUE),
        TokenKind::TOKEN_FALSE => parser.emit_byte(OpCode::OP_FALSE),
        TokenKind::TOKEN_NIL => parser.emit_byte(OpCode::OP_NIL),
        _ => {},  // unreachable
    }
    proof {
        assert(final(parser).chunk.code@.subrange(0, old(parser).chunk.code@.len() as int)
            =~= old(parser).chunk.code@);
    }
}

/// Parse rule for unary operations.
fn unary(
    parser: &mut Parser,
    scanner: &mut Scanner,
    current: &mut Compiler,
    _can_assign: bool,
    fuel: u64,
)
    requires
        old(parser).wf(),
        old(scanner).wf(),
        old(current).wf(),
    ensures
        parse_step(
            *old(parser),
            *final(parser),
            *old(scanner),
            *final(scanner),
            *old(current),
            *final(current),
        ),
        final(current).locals == old(current).locals,
    decreases fuel,
{
    if fuel == 0 {
        parser.had_error = true;
        return ;
    }
    let operator_type = parser.previous.kind;

    // Compile the operand
    parser.parse_precedence(Precedence::PREC_UNARY, scanner, current, fuel - 1);

    let ghost pa = *parser;
    let ghost sa = *scanner;
    let ghost ca = *current;
    // Emit the operator instruction
    match operator_type {
        TokenKind::TOKEN_MINUS => {
            parser.emit_byte(OpCode::OP_NEGATE);
        },
        TokenKind::TOKEN_BANG => {
            parser.emit_byte(OpCode::OP_NOT);
        },
        _ => {},
    }
    proof {
        assert(parser.chunk.code@.subrange(0, pa.chunk.code@.len() as int) =~= pa.chunk.code@);
        lemma_parse_step_trans(
            *old(parser),
            pa,
            *parser,
            *old(scanner),
            sa,
            *scanner,
            *old(current),
            ca,
            *current,
        );
    }
}

/// Parse rule for variables: a local resolves to its stack slot at compile
/// time; any other name is a global, looked up by name at run time.
fn variable(
    parser: &mut Parser,
    scanner: &mut Scanner,
    current: &mut Compiler,
    can_assign: bool,
    fuel: u64,
)
    requires
        old(parser).wf(),
        old(scanner).wf(),
        old(current).wf(),
    ensures
        parse_step(
            *old(parser),
            *final(parser),
            *old(scanner),
            *final(scanner),
            *old(current),
            *final(current),
        ),
        final(current).locals == old(current).locals,
    decreases fuel,
{
    if fuel == 0 {
        parser.had_error = true;
        return ;
    }
    let prev_word = parser.previous.slice.clone();
    let idx = current.resolve_local(prev_word.as_str());
    if idx != usize::MAX {
        // Set variable
        if can_assign && parser.match_token(TokenKind::TOKEN_EQUAL, scanner) {
            let ghost pa = *parser;
            let ghost sa = *scanner;
            let ghost ca = *current;
            parser.expression(scanner, current, fuel - 1);
            parser.emit_byte(OpCode::OP_SET_LOCAL(idx));
            proof {
                assert(parser.chunk.code@.subrange(0, pa.chunk.code@.len() as int)
                    =~= parser.chunk.code@.subrange(0, pa.chunk.code@.len() as int));
                lemma_parse_step_trans(
                    *old(parser),
                    pa,
                    *parser,
                    *old(scanner),
                    sa,
                    *scanner,
                    *old(current),
                    ca,
                    *current,
                );
            }
        } else {
            // Get variable
            parser.emit_byte(OpCode::OP_GET_LOCAL(idx));
            proof {
                assert(parser.chunk.code@.subrange(0, old(parser).chunk.code@.len() as int)
                    =~= old(parser).chunk.code@);
            }
        }
    } else {
        let cidx = parser.identifier_constant_prev();
        if can_assign && parser.match_token(TokenKind::TOKEN_EQUAL, scanner) {
            let ghost pa = *parser;
            let ghost sa = *scanner;
            let ghost ca = *current;
            parser.expression(scanner, current, fuel - 1);
            parser.emit_byte(OpCode::OP_SET_GLOBAL(cidx));
            proof {
                lemma_parse_step_trans(
                    *old(parser),
                    pa,
                    *parser,
                    *old(scanner),
                    sa,
                    *scanner,
                    *old(current),
                    ca,
                    *current,
                );
            }
        } else {
            parser.emit_byte(OpCode::OP_GET_GLOBAL(cidx));
            proof {
                assert(parser.chunk.code@.subrange(0, old(parser).chunk.code@.len() as int)
                    =~= old(parser).chunk.code@);
            }
        }
    }
}

/// Parse rule for the `and` logical operator: short-circuiting by a
/// conditional jump over the right operand.
fn and_(
    parser: &mut Parser,
    scanner: &mut Scanner,
    current: &mut Compiler,
    _can_assign: bool,
    fuel: u64,
)
    requires
        old(parser).wf(),
        old(scanner).wf(),
        old(current).wf(),
    ensures
        parse_step(
            *old(parser),
            *final(parser),
            *old(scanner),
            *final(scanner),
            *old(current),
            *final(current),
        ),
        final(current).locals == old(current).locals,
    decreases fuel,
{
    if fuel == 0 {
        parser.had_error = true;
        return ;
    }
    let end_jump = parser.emit_jump_if_false();
    parser.emit_byte(OpCode::OP_POP);
    let ghost pa = *parser;
    parser.parse_precedence(Precedence::PREC_AND, scanner, current, fuel - 1);
    let ghost pp = *parser;
    proof {
        assert(pp.chunk.code@[end_jump as int] == pa.chunk.code@[end_jump as int]);
        assert(pp.chunk.code@[end_jump as int] is OP_JUMP_IF_FALSE);
    }
    parser.patch_jump(end_jump);
    proof {
        assert forall|i: int| 0 <= i < old(parser).chunk.code@.len() implies
            parser.chunk.code@[i] == old(parser).chunk.code@[i] by {
            assert(parser.chunk.code@[i] == pp.chunk.code@[i]);
            assert(pp.chunk.code@[i] == pa.chunk.code@[i]);
            assert(pa.chunk.code@[i] == old(parser).chunk.code@[i]);
        }
        assert(parser.chunk.code@.subrange(0, old(parser).chunk.code@.len() as int)
            =~= old(parser).chunk.code@);
    }
}

/// Parse rule for the `or` logical operator.
fn or_(
    parser: &mut Parser,
    scanner: &mut Scanner,
    current: &mut Compiler,
    _can_assign: bool,
    fuel: u64,
)
    requires
        old(parser).wf(),
        old(scanner).wf(),
        old(current).wf(),
    ensures
        parse_step(
            *old(parser),
            *final(parser),
            *old(scanner),
            *final(scanner),
            *old(current),
            *final(current),
        ),
        final(current).locals == old(current).locals,
    decreases fuel,
{
    if fuel == 0 {
        parser.had_error = true;
        return ;
    }
    let else_jump = parser.emit_jump_if_false();
    let end_jump = parser.emit_jump();
    parser.patch_jump(else_jump);
    parser.emit_byte(OpCode::OP_POP);
    let ghost pa = *parser;
    parser.parse_precedence(Precedence::PREC_OR, scanner, current, fuel - 1);
    let ghost pp = *parser;
    proof {
        assert(pp.chunk.code@[end_jump as int] == pa.chunk.code@[end_jump as int]);
        assert(pp.chunk.code@[end_jump as int] is OP_JUMP);
    }
    parser.patch_jump(end_jump);
    proof {
        assert forall|i: int| 0 <= i < old(parser).chunk.code@.len() implies
            parser.chunk.code@[i] == old(parser).chunk.code@[i] by {
            assert(parser.chunk.code@[i] == pp.chunk.code@[i]);
            assert(pp.chunk.code@[i] == pa.chunk.code@[i]);
            assert(pa.chunk.code@[i] == old(parser).chunk.code@[i]);
        }
        assert(parser.chunk.code@.subrange(0, old(parser).chunk.code@.len() as int)
            =~= old(parser).chunk.code@);
    }
}

// ########################################################################
// Number literals
// ########################################################################
/// The numeric value of one digit character.
pub open spec fn digit_val(c: char) -> int {
    (c as u32) - ('0' as u32)
}

/// The value of the first `i` characters read as decimal digits.
pub open spec fn dec_val(s: Seq<char>, i: int) -> int
    decreases i,
{
    if i <= 0 {
        0
    } else {
        dec_val(s, i - 1) * 10 + digit_val(s[i - 1])
    }
}

proof fn lemma_dec_val_nonneg(s: Seq<char>, i: int)
    requires
        forall|k: int| 0 <= k < i ==> crate::util::is_digit_char(#[trigger] s[k]),
        i <= s.len(),
    ensures
        dec_val(s, i) >= 0,
    decreases i,
{
    if i > 0 {
        lemma_dec_val_nonneg(s, i - 1);
    }
}

proof fn lemma_dec_val_mono(s: Seq<char>, i: int, j: int)
    requires
        0 <= i <= j <= s.len(),
        forall|k: int| 0 <= k < j ==> crate::util::is_digit_char(#[trigger] s[k]),
    ensures
        dec_val(s, i) <= dec_val(s, j),
    decreases j - i,
{
    if i < j {
        lemma_dec_val_nonneg(s, j - 1);
        lemma_dec_val_mono(s, i, j - 1);
    }
}

/// Reads the integer part of a numeric literal: the leading run of digits,
/// as a number, together with how many characters that run covers. No
/// number comes back when no digit leads, or the value would not fit.
fn parse_number(s: &str) -> (r: (Option<i64>, usize))
    ensures
        ({
            let e = crate::scanner::digits_end(s@, 0);
            &&& (r.0 is Some <==> (e > 0 && dec_val(s@, e) <= i64::MAX))
            &&& (r.0 matches Some(v) ==> v as int == dec_val(s@, e) && r.1 as int == e)
        }),
{
    let n = s.unicode_len();
    let ghost e = crate::scanner::digits_end(s@, 0);
    proof {
        crate::scanner::lemma_digits_end_bounds(s@, 0);
    }
    let mut i: usize = 0;
    let mut acc: i64 = 0;
    let mut any = false;
    loop
        invariant_except_break
            n == s@.len(),
            i <= n,
            0 <= e <= n,
            e == crate::scanner::digits_end(s@, 0),
            i as int <= e,
            forall|k: int| 0 <= k < i ==> crate::util::is_digit_char(#[trigger] s@[k]),
            crate::scanner::digits_end(s@, i as int) == e,
            acc as int == dec_val(s@, i as int),
            acc >= 0,
            any == (i > 0),
        ensures
            i as int == e,
            any == (e > 0),
            acc as int == dec_val(s@, e),
            forall|k: int| 0 <= k < e ==> crate::util::is_digit_char(#[trigger] s@[k]),
        decreases n - i,
    {
        if i >= n {
            break ;
        }
        let c = s.get_char(i);
        if !crate::util::is_digit(c) {
            break ;
        }
        let d64: u32 = (c as u32) - ('0' as u32);
        let d: i64 = d64 as i64;
        proof {
            assert(0 <= d <= 9);
            crate::scanner::lemma_digits_end_bounds(s@, i as int);
            assert(crate::scanner::digits_end(s@, i as int) == crate::scanner::digits_end(
                s@,
                i as int + 1,
            ));
            crate::scanner::lemma_digits_end_bounds(s@, i as int + 1);
        }
        if acc > (i64::MAX - d) / 10 {
            // The literal does not fit.
            proof {
                lemma_dec_val_overflow(s@, i as int, e, acc as int, d as int);
            }
            return (None, i);
        }
        proof {
            assert(acc * 10 <= ((i64::MAX - d) / 10) * 10) by (nonlinear_arith)
                requires
                    acc <= (i64::MAX - d) / 10,
                    acc >= 0,
            ;
            assert(((i64::MAX - d) / 10) * 10 <= i64::MAX - d) by {
                vstd::arithmetic::div_mod::lemma_fundamental_div_mod(i64::MAX - d, 10);
            }
        }
        acc = acc * 10 + d;
        any = true;
        i = i + 1;
    }
    if any {
        (Some(acc), i)
    } else {
        (None, i)
    }
}

proof fn lemma_dec_val_overflow(s: Seq<char>, i: int, e: int, acc: int, d: int)
    requires
        0 <= i < e <= s.len(),
        forall|k: int| 0 <= k < i ==> crate::util::is_digit_char(#[trigger] s[k]),
        forall|k: int| i <= k < e ==> crate::util::is_digit_char(#[trigger] s[k]),
        acc == dec_val(s, i),
        d == digit_val(s[i]),
        0 <= d <= 9,
        acc > (i64::MAX - d) / 10,
        acc >= 0,
    ensures
        dec_val(s, e) > i64::MAX,
{
    assert(forall|k: int| 0 <= k < e ==> crate::util::is_digit_char(#[trigger] s[k]));
    assert(dec_val(s, i + 1) == acc * 10 + d);
    assert(acc >= (i64::MAX - d) / 10 + 1);
    assert(acc * 10 >= ((i64::MAX - d) / 10 + 1) * 10) by (nonlinear_arith)
        requires
            acc >= (i64::MAX - d) / 10 + 1,
    ;
    assert(((i64::MAX - d) / 10) * 10 + 10 > i64::MAX - d) by {
        vstd::arithmetic::div_mod::lemma_fundamental_div_mod(i64::MAX - d, 10);
    }
    assert(dec_val(s, i + 1) > i64::MAX);
    lemma_dec_val_mono(s, i + 1, e);
}

/// For a given source text, scans each token and parses what was scanned,
/// checking the grammar and precedence rules and emitting bytecode as it
/// goes, and collects the pass's error reports for the host to print. A
/// well-formed chunk that ends in a return comes back unless any error was
/// reported. The source must sit well under the machine's address range,
/// which anything actually read from a file or a terminal does.
pub fn compile_with_diagnostics(source: &String) -> (r: (
    Result<Chunk, InterpretError>,
    Vec<String>,
))
    requires
        source@.len() < usize::MAX / 8,
    ensures
        match r.0 {
            Ok(chunk) => chunk.wf() && chunk.code@.len() > 0 && chunk.code@.last()
                == OpCode::OP_RETURN,
            Err(e) => e == InterpretError::COMPILE_ERROR,
        },
        source@.len() == 0 ==> r.0 is Ok,
{
    let mut scanner = Scanner::new(source);
    let mut parser = Parser::new();
    let mut current = Compiler::new();
    // Enough fuel that genuine programs never run out: the parser consumes
    // source characters as it descends.
    let fuel0: u64 = (scanner.source_length as u64) * 4 + 64;
    parser.advance(&mut scanner);
    let ghost empty_and_clean = source@.len() == 0 && !parser.had_error && parser.current.kind
        == TokenKind::TOKEN_EOF;
    proof {
        if source@.len() == 0 {
            assert(empty_and_clean);
        }
    }
    let mut f = fuel0;
    loop
        invariant_except_break
            parser.wf(),
            scanner.wf(),
            current.wf(),
            current.scope_depth + f <= usize::MAX,
            empty_and_clean ==> (!parser.had_error && parser.current.kind == TokenKind::TOKEN_EOF
                && scanner.current >= scanner.source_length),
        ensures
            parser.wf(),
            empty_and_clean ==> !parser.had_error,
        decreases f,
    {
        if parser.match_token(TokenKind::TOKEN_EOF, &mut scanner) {
            break ;
        }
        if f == 0 {
            parser.had_error = true;
            break ;
        }
        f = f - 1;
        parser.declaration(&mut scanner, &mut current, f);
    }
    parser.end_compiler();
    match parser.had_error {
        true => (Err(InterpretError::COMPILE_ERROR), parser.reports),
        false => (Ok(parser.chunk), parser.reports),
    }
}

/// Compiles a source text; the error reports, if any, are dropped.
pub fn compile(source: &String) -> (r: Result<Chunk, InterpretError>)
    requires
        source@.len() < usize::MAX / 8,
    ensures
        match r {
            Ok(chunk) => chunk.wf() && chunk.code@.len() > 0 && chunk.code@.last()
                == OpCode::OP_RETURN,
            Err(e) => e == InterpretError::COMPILE_ERROR,
        },
        source@.len() == 0 ==> r is Ok,
{
    let compiled = compile_with_diagnostics(source);
    compiled.0
}

/// What every parsing step preserves: well-formedness of all three
/// machines, the source, forward-only scanning, balanced scopes, and a
/// chunk that grows by appending (earlier instructions stay as they were).
pub open spec fn parse_step(
    p0: Parser,
    p1: Parser,
    s0: Scanner,
    s1: Scanner,
    c0: Compiler,
    c1: Compiler,
) -> bool {
    &&& p1.wf()
    &&& s1.wf()
    &&& c1.wf()
    &&& s1.source == s0.source
    &&& s1.source_length == s0.source_length
    &&& s1.current >= s0.current
    &&& c1.scope_depth == c0.scope_depth
    &&& p1.chunk.code@.len() >= p0.chunk.code@.len()
    &&& p1.chunk.code@.subrange(0, p0.chunk.code@.len() as int) =~= p0.chunk.code@
    &&& p1.chunk.constants@.len() >= p0.chunk.constants@.len()
    &&& (p0.had_error ==> p1.had_error)
}

pub proof fn lemma_parse_step_trans(
    pa: Parser,
    pb: Parser,
    pc: Parser,
    sa: Scanner,
    sb: Scanner,
    sc: Scanner,
    ca: Compiler,
    cb: Compiler,
    cc: Compiler,
)
    requires
        parse_step(pa, pb, sa, sb, ca, cb),
        parse_step(pb, pc, sb, sc, cb, cc),
    ensures
        parse_step(pa, pc, sa, sc, ca, cc),
{
    assert(pc.chunk.code@.subrange(0, pa.chunk.code@.len() as int) =~= pb.chunk.code@.subrange(
        0,
        pa.chunk.code@.len() as int,
    ));
}

proof fn lemma_op_wf_grow(op: OpCode, nc: int, nc2: int, n_code: int, n_code2: int, at: int)
    requires
        op_wf(op, nc, n_code, at),
        nc2 >= nc,
        n_code2 >= n_code,
    ensures
        op_wf(op, nc2, n_code2, at),
{
}

proof fn lemma_code_wf_push(code: Seq<OpCode>, op: OpCode, nc: int)
    requires
        code_wf(code, nc),
        op_wf(op, nc, code.len() as int + 1, code.len() as int),
    ensures
        code_wf(code.push(op), nc),
{
    assert forall|i: int| 0 <= i < code.push(op).len() implies op_wf(
        #[trigger] code.push(op)[i],
        nc,
        code.push(op).len() as int,
        i,
    ) by {
        if i < code.len() {
            assert(code.push(op)[i] == code[i]);
            assert(op_wf(code[i], nc, code.len() as int, i));
            lemma_op_wf_grow(code[i], nc, nc, code.len() as int, code.len() as int + 1, i);
        } else {
            assert(code.push(op)[i] == op);
        }
    }
}

proof fn lemma_code_wf_more_consts(code: Seq<OpCode>, nc: int, nc2: int)
    requires
        code_wf(code, nc),
        nc2 >= nc,
    ensures
        code_wf(code, nc2),
{
    assert forall|i: int| 0 <= i < code.len() implies op_wf(
        #[trigger] code[i],
        nc2,
        code.len() as int,
        i,
    ) by {
        assert(op_wf(code[i], nc, code.len() as int, i));
        lemma_op_wf_grow(code[i], nc, nc2, code.len() as int, code.len() as int, i);
    }
}

proof fn lemma_pops_needed_bounds(locals: Seq<Local>, depth: int)
    ensures
        0 <= pops_needed(locals, depth) <= locals.len(),
    decreases locals.len(),
{
    if locals.len() > 0 {
        lemma_pops_needed_bounds(locals.drop_last(), depth);
    }
}

/// Law (scope exit): under the compiler's stacking discipline, the pops a
/// scope exit owes are exactly the locals that the closing depth
/// introduced.
pub proof fn lemma_scope_exit_pops(locals: Seq<Local>, depth: int)
    requires
        forall|i: int| 0 <= i < locals.len() ==> 1 <= (#[trigger] locals[i]).depth <= depth,
        forall|i: int, j: int|
            0 <= i < j < locals.len() ==> (#[trigger] locals[i]).depth <= (
            #[trigger] locals[j]).depth,
        depth >= 1,
    ensures
        pops_needed(locals, depth - 1) == count_at_depth(locals, depth),
    decreases locals.len(),
{
    if locals.len() == 0 {
    } else if locals.last().depth > depth - 1 {
        assert(locals.last().depth == depth);
        assert forall|i: int, j: int|
            0 <= i < j < locals.drop_last().len() implies (#[trigger] locals.drop_last()[i]).depth
            <= (#[trigger] locals.drop_last()[j]).depth by {
            assert(locals.drop_last()[i] == locals[i]);
            assert(locals.drop_last()[j] == locals[j]);
        }
        lemma_scope_exit_pops(locals.drop_last(), depth);
    } else {
        assert(locals.last().depth < depth);
        lemma_count_at_depth_none(locals, depth);
    }
}

/// No local of a sorted list sits at `depth` when even the last one sits
/// below it.
proof fn lemma_count_at_depth_none(locals: Seq<Local>, depth: int)
    requires
        forall|i: int, j: int|
            0 <= i < j < locals.len() ==> (#[trigger] locals[i]).depth <= (
            #[trigger] locals[j]).depth,
        locals.len() > 0 ==> locals.last().depth < depth,
    ensures
        count_at_depth(locals, depth) == 0,
    decreases locals.len(),
{
    if locals.len() > 0 {
        assert forall|i: int, j: int|
            0 <= i < j < locals.drop_last().len() implies (#[trigger] locals.drop_last()[i]).depth
            <= (#[trigger] locals.drop_last()[j]).depth by {
            assert(locals.drop_last()[i] == locals[i]);
            assert(locals.drop_last()[j] == locals[j]);
        }
        if locals.len() > 1 {
            assert(locals.drop_last().last() == locals[locals.len() - 2]);
            assert(locals[locals.len() - 2].depth <= locals.last().depth);
        }
        lemma_count_at_depth_none(locals.drop_last(), depth);
    }
}

} // verus!
