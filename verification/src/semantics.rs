//! The meaning of one step of the interpreter, as mathematics.
//!
//! A machine state holds the instruction pointer, the program, the value stack,
//! the return stack, the labels, the variables and the names of the custom
//! instructions that the host provides. One step executes the instruction under
//! the instruction pointer: `trap` says when it stops the program with an error,
//! and `next` what state and what effect on the outside world it leads to otherwise.
use vstd::prelude::*;
use crate::parser::Instr;
use crate::value::Val;
use crate::text::{trim, decimal_i32, trunc_div};
use vstd::utf8::encode_utf8;

verus! {

/// A state of the interpreter.
#[verifier::ext_equal]
pub struct Machine {
    pub ip: usize,
    pub insts: Seq<Instr>,
    pub stack: Seq<Val>,
    pub rets: Seq<usize>,
    pub labels: Map<Seq<char>, usize>,
    pub vars: Map<Seq<char>, Val>,
    pub funcs: Set<Seq<char>>,
}

/// What a step asks of the outside world.
pub enum Effect {
    /// nothing
    Continue,
    /// print the value
    Print(Val),
    /// end the line
    Newline,
    /// read a line of input and hand it back
    ReadLine,
    /// print the value stack
    Dump,
    /// run the custom instruction of that name
    Call(Seq<char>),
}

/// The instructions whose error messages name them.
#[derive(PartialEq, Eq, Structural, Clone, Copy, Debug)]
pub enum Site {
    Add,
    Sub,
    Mul,
    Vswap,
    Vpop,
    WriteVar,
    Strat,
    Strlen,
    Strjoin,
    Put,
    Cmp,
    Vslen,
}

/// The arithmetic operations.
#[derive(PartialEq, Eq, Structural, Clone, Copy, Debug)]
pub enum ArithOp {
    Add,
    Sub,
    Mul,
    Div,
}

/// Why a step stops the program.
pub enum FaultView {
    StackUnderflow(Site),
    IncorrectArguments(Site),
    Overflow(ArithOp),
    DivideByZero,
    DupUnderflow,
    JmpUnderflow,
    JzUnderflow,
    JnzUnderflow,
    S2nUnderflow,
    ReturnStackUnderflow,
    PopUnderflow,
    NoEntry,
    NotAVStack(Site, Val),
    VStackUnderflow,
    UnknownVariable(Seq<char>),
    JumpToString,
    NumberToNumber,
    VStackToNumber,
    InvalidNumber,
    IndexOutOfBounds,
    CompareStringNumber,
    CompareStringVStack,
    CompareNumberString,
    CompareNumberVStack,
    CompareVStack,
}

/// Whether the machine has an instruction to execute.
pub open spec fn running(m: Machine) -> bool {
    m.ip < m.insts.len()
}

/// The value on top of the stack.
pub open spec fn top(m: Machine) -> Val {
    m.stack[m.stack.len() - 1]
}

/// The value under the top of the stack.
pub open spec fn second(m: Machine) -> Val {
    m.stack[m.stack.len() - 2]
}

/// The exact result of an arithmetic operation on `x` (the top) and `y`.
pub open spec fn arith(op: ArithOp, x: int, y: int) -> int {
    match op {
        ArithOp::Add => x + y,
        ArithOp::Sub => x - y,
        ArithOp::Mul => x * y,
        ArithOp::Div => trunc_div(x, y),
    }
}

pub open spec fn fits_i32(v: int) -> bool {
    i32::MIN <= v <= i32::MAX
}

/// Why `add`, `sub`, `mul` or `div` stops the program, if it does.
pub open spec fn arith_trap(m: Machine, site: Site, op: ArithOp) -> Option<FaultView> {
    if m.stack.len() < 2 {
        Some(FaultView::StackUnderflow(site))
    } else if !(top(m) is Num) || !(second(m) is Num) {
        Some(FaultView::IncorrectArguments(site))
    } else if op == ArithOp::Div && second(m)->Num_0 == 0 {
        Some(FaultView::DivideByZero)
    } else if !fits_i32(arith(op, top(m)->Num_0 as int, second(m)->Num_0 as int)) {
        Some(FaultView::Overflow(op))
    } else {
        None
    }
}

/// Why an instruction on the value stack named on top of the stack stops the
/// program, if it does.
pub open spec fn vstack_trap(m: Machine, site: Site) -> Option<FaultView> {
    if m.stack.len() < 1 {
        Some(FaultView::StackUnderflow(site))
    } else if !(top(m) is Str) {
        Some(FaultView::IncorrectArguments(site))
    } else if !m.vars.contains_key(top(m)->Str_0) {
        Some(FaultView::NoEntry)
    } else if !(m.vars[top(m)->Str_0] is Stack) {
        Some(FaultView::NotAVStack(site, m.vars[top(m)->Str_0]))
    } else {
        None
    }
}

/// Why `cmp` stops the program, if it does.
pub open spec fn compare_trap(m: Machine) -> Option<FaultView> {
    if m.stack.len() < 2 {
        Some(FaultView::StackUnderflow(Site::Cmp))
    } else {
        match (top(m), second(m)) {
            (Val::Str(_), Val::Str(_)) => None,
            (Val::Str(_), Val::Num(_)) => Some(FaultView::CompareStringNumber),
            (Val::Str(_), Val::Stack(_)) => Some(FaultView::CompareStringVStack),
            (Val::Num(x), Val::Num(y)) => if fits_i32(x - y) {
                None
            } else {
                Some(FaultView::Overflow(ArithOp::Sub))
            },
            (Val::Num(_), Val::Str(_)) => Some(FaultView::CompareNumberString),
            (Val::Num(_), Val::Stack(_)) => Some(FaultView::CompareNumberVStack),
            (Val::Stack(_), _) => Some(FaultView::CompareVStack),
        }
    }
}

/// Why a conditional jump stops the program, if it does.
pub open spec fn cond_jump_trap(m: Machine, underflow: FaultView) -> Option<FaultView> {
    if m.stack.len() < 2 {
        Some(underflow)
    } else if !(top(m) is Num) {
        Some(FaultView::JumpToString)
    } else {
        None
    }
}

/// Why the instruction under the instruction pointer stops the program, if it does.
pub open spec fn trap(m: Machine) -> Option<FaultView> {
    trap_of(m, m.insts[m.ip as int])
}

/// Why executing `inst` in state `m` stops the program, if it does.
pub open spec fn trap_of(m: Machine, inst: Instr) -> Option<FaultView> {
    let n = m.stack.len();
    match inst {
        Instr::Add => arith_trap(m, Site::Add, ArithOp::Add),
        Instr::Sub => arith_trap(m, Site::Sub, ArithOp::Sub),
        Instr::Mul => arith_trap(m, Site::Mul, ArithOp::Mul),
        Instr::Div => arith_trap(m, Site::Mul, ArithOp::Div),
        Instr::Dup => if n == 0 {
            Some(FaultView::DupUnderflow)
        } else {
            None
        },
        Instr::VSwap => vstack_trap(m, Site::Vswap),
        Instr::VPop => vstack_trap(m, Site::Vpop),
        Instr::VStacklen => vstack_trap(m, Site::Vslen),
        Instr::Ret => if m.rets.len() == 0 {
            Some(FaultView::ReturnStackUnderflow)
        } else {
            None
        },
        Instr::Pop => if n == 0 {
            Some(FaultView::PopUnderflow)
        } else {
            None
        },
        Instr::ReadVar(name) => if !m.vars.contains_key(name) {
            Some(FaultView::UnknownVariable(name))
        } else if m.vars[name] is Stack && m.vars[name]->Stack_0.len() == 0 {
            Some(FaultView::VStackUnderflow)
        } else {
            None
        },
        Instr::WriteVar(name) => if n < 1 {
            Some(FaultView::StackUnderflow(Site::WriteVar))
        } else if !m.vars.contains_key(name) {
            Some(FaultView::UnknownVariable(name))
        } else {
            None
        },
        Instr::Jmp => if n == 0 {
            Some(FaultView::JmpUnderflow)
        } else if !(top(m) is Num) {
            Some(FaultView::JumpToString)
        } else {
            None
        },
        Instr::Jz => cond_jump_trap(m, FaultView::JzUnderflow),
        Instr::Jnz => cond_jump_trap(m, FaultView::JnzUnderflow),
        Instr::Str2num => if n == 0 {
            Some(FaultView::S2nUnderflow)
        } else {
            match top(m) {
                Val::Num(_) => Some(FaultView::NumberToNumber),
                Val::Stack(_) => Some(FaultView::VStackToNumber),
                Val::Str(t) => if decimal_i32(trim(t)) is None {
                    Some(FaultView::InvalidNumber)
                } else {
                    None
                },
            }
        },
        Instr::Strat => if n < 2 {
            Some(FaultView::StackUnderflow(Site::Strat))
        } else if !(top(m) is Num) || !(second(m) is Str) {
            Some(FaultView::IncorrectArguments(Site::Strat))
        } else if (top(m)->Num_0 as usize) >= second(m)->Str_0.len() {
            Some(FaultView::IndexOutOfBounds)
        } else {
            None
        },
        Instr::Strlen => if n < 1 {
            Some(FaultView::StackUnderflow(Site::Strlen))
        } else if !(top(m) is Str) {
            Some(FaultView::IncorrectArguments(Site::Strlen))
        } else {
            None
        },
        Instr::Strjoin => if n < 2 {
            Some(FaultView::StackUnderflow(Site::Strjoin))
        } else if !(top(m) is Str) || !(second(m) is Str) {
            Some(FaultView::IncorrectArguments(Site::Strjoin))
        } else {
            None
        },
        Instr::Put => if n < 1 {
            Some(FaultView::StackUnderflow(Site::Put))
        } else {
            None
        },
        Instr::Cmp => compare_trap(m),
        Instr::LabelAddress(name) => if !m.labels.contains_key(name) {
            Some(FaultView::NoEntry)
        } else {
            None
        },
        Instr::CustomInstruction(name) => if !m.funcs.contains(name) && !m.labels.contains_key(
            name,
        ) {
            Some(FaultView::NoEntry)
        } else {
            None
        },
        _ => None,
    }
}

/// `m` with `v` pushed on the value stack.
pub open spec fn push(m: Machine, v: Val) -> Machine {
    Machine { stack: m.stack.push(v), ..m }
}

/// `m` with `k` values popped from the value stack.
pub open spec fn pop(m: Machine, k: int) -> Machine {
    Machine { stack: m.stack.subrange(0, m.stack.len() - k), ..m }
}

/// A jump target: an `i32` address as the instruction pointer takes it.
pub open spec fn target(a: i32) -> usize {
    a as usize
}

/// What executing `inst` does when it does not stop the program; `m` is the state
/// with the instruction pointer already past the instruction.
pub open spec fn next_from(m: Machine, inst: Instr) -> (Machine, Effect) {
    let m1 = m;
    let s = m.stack;
    let n = s.len();
    match inst {
        Instr::LoadString(t) => (push(m1, Val::Str(t)), Effect::Continue),
        Instr::LoadNumber(k) => (push(m1, Val::Num(k)), Effect::Continue),
        Instr::Add => (
            push(pop(m1, 2), Val::Num(arith(ArithOp::Add, top(m)->Num_0 as int, second(m)->Num_0 as int) as i32)),
            Effect::Continue,
        ),
        Instr::Sub => (
            push(pop(m1, 2), Val::Num(arith(ArithOp::Sub, top(m)->Num_0 as int, second(m)->Num_0 as int) as i32)),
            Effect::Continue,
        ),
        Instr::Mul => (
            push(pop(m1, 2), Val::Num(arith(ArithOp::Mul, top(m)->Num_0 as int, second(m)->Num_0 as int) as i32)),
            Effect::Continue,
        ),
        Instr::Div => (
            push(pop(m1, 2), Val::Num(arith(ArithOp::Div, top(m)->Num_0 as int, second(m)->Num_0 as int) as i32)),
            Effect::Continue,
        ),
        Instr::Dup => (push(m1, top(m)), Effect::Continue),
        Instr::Swap => (Machine { stack: s.reverse(), ..m1 }, Effect::Continue),
        Instr::VSwap => {
            let name = top(m)->Str_0;
            let vs = m.vars[name]->Stack_0;
            (
                Machine { vars: m.vars.insert(name, Val::Stack(vs.reverse())), ..pop(m1, 1) },
                Effect::Continue,
            )
        },
        Instr::VPop => {
            let name = top(m)->Str_0;
            let vs = m.vars[name]->Stack_0;
            let rest = if vs.len() > 0 {
                vs.drop_last()
            } else {
                vs
            };
            (Machine { vars: m.vars.insert(name, Val::Stack(rest)), ..pop(m1, 1) }, Effect::Continue)
        },
        Instr::VStacklen => {
            let vs = m.vars[top(m)->Str_0]->Stack_0;
            (push(pop(m1, 1), Val::Num(vs.len() as i32)), Effect::Continue)
        },
        Instr::Ret => (
            Machine { ip: m.rets.last(), rets: m.rets.drop_last(), ..m1 },
            Effect::Continue,
        ),
        Instr::Pop => (pop(m1, 1), Effect::Continue),
        Instr::DefineVar(name) => (
            Machine { vars: m.vars.insert(name, Val::Num(0)), ..m1 },
            Effect::Continue,
        ),
        Instr::DefineVStack(name) => (
            Machine { vars: m.vars.insert(name, Val::Stack(seq![])), ..m1 },
            Effect::Continue,
        ),
        Instr::ReadVar(name) => match m.vars[name] {
            Val::Stack(vs) => (
                Machine {
                    stack: s.push(vs.last()),
                    vars: m.vars.insert(name, Val::Stack(vs.drop_last())),
                    ..m1
                },
                Effect::Continue,
            ),
            v => (push(m1, v), Effect::Continue),
        },
        Instr::WriteVar(name) => {
            let v = top(m);
            let stored = match m.vars[name] {
                Val::Stack(vs) => Val::Stack(vs.push(v)),
                _ => v,
            };
            (Machine { vars: m.vars.insert(name, stored), ..pop(m1, 1) }, Effect::Continue)
        },
        Instr::Jmp => (Machine { ip: target(top(m)->Num_0), ..pop(m1, 1) }, Effect::Continue),
        Instr::Jz => {
            let m2 = pop(m1, 2);
            if second(m) is Num && second(m)->Num_0 == 0 {
                (Machine { ip: target(top(m)->Num_0), ..m2 }, Effect::Continue)
            } else {
                (m2, Effect::Continue)
            }
        },
        Instr::Jnz => {
            let m2 = pop(m1, 2);
            if second(m) is Num && second(m)->Num_0 != 0 {
                (Machine { ip: target(top(m)->Num_0), ..m2 }, Effect::Continue)
            } else {
                (m2, Effect::Continue)
            }
        },
        Instr::Str2num => (
            push(pop(m1, 1), Val::Num(decimal_i32(trim(top(m)->Str_0))->0)),
            Effect::Continue,
        ),
        Instr::Strat => {
            let t = second(m)->Str_0;
            let i = top(m)->Num_0 as usize;
            (push(pop(m1, 2), Val::Str(seq![t[i as int]])), Effect::Continue)
        },
        Instr::Strlen => (
            push(pop(m1, 1), Val::Num((encode_utf8(top(m)->Str_0).len() as usize) as i32)),
            Effect::Continue,
        ),
        Instr::Strjoin => (
            push(pop(m1, 2), Val::Str(second(m)->Str_0 + top(m)->Str_0)),
            Effect::Continue,
        ),
        Instr::Put => (pop(m1, 1), Effect::Print(top(m))),
        Instr::Endl => (m1, Effect::Newline),
        Instr::In => (m1, Effect::ReadLine),
        Instr::Cmp => {
            let r = match (top(m), second(m)) {
                (Val::Str(x), Val::Str(y)) => if x == y {
                    0i32
                } else {
                    1i32
                },
                (Val::Num(x), Val::Num(y)) => (x - y) as i32,
                _ => 0i32,
            };
            (push(pop(m1, 2), Val::Num(r)), Effect::Continue)
        },
        Instr::Stackdmp => (m1, Effect::Dump),
        Instr::Stacklen => (push(m1, Val::Num(n as i32)), Effect::Continue),
        Instr::LabelAddress(name) => (push(m1, Val::Num(m.labels[name] as i32)), Effect::Continue),
        Instr::CustomInstruction(name) => if m.funcs.contains(name) {
            (m1, Effect::Call(name))
        } else {
            (Machine { ip: m.labels[name], rets: m.rets.push(m1.ip), ..m1 }, Effect::Continue)
        },
        _ => (m1, Effect::Continue),
    }
}

/// The state after a step that does not stop the program, and what it asks of the
/// outside world.
pub open spec fn next(m: Machine) -> (Machine, Effect) {
    next_from(Machine { ip: (m.ip + 1) as usize, ..m }, m.insts[m.ip as int])
}

/// How a run of steps ends.
pub enum Stop {
    /// the instruction pointer left the program
    Finished,
    /// the allowed number of steps was taken
    OutOfFuel,
    /// a step stopped the program, leaving the state as it was
    Faulted(FaultView),
    /// a step asked something of the outside world
    Acted(Effect),
}

/// At most `fuel` steps from `m`, going on while steps ask nothing of the outside
/// world: the state reached and why the run ended.
pub open spec fn run(m: Machine, fuel: nat) -> (Machine, Stop)
    decreases fuel,
{
    if !running(m) {
        (m, Stop::Finished)
    } else if fuel == 0 {
        (m, Stop::OutOfFuel)
    } else {
        match trap(m) {
            Some(f) => (m, Stop::Faulted(f)),
            None => if next(m).1 is Continue {
                run(next(m).0, (fuel - 1) as nat)
            } else {
                (next(m).0, Stop::Acted(next(m).1))
            },
        }
    }
}

} // verus!
