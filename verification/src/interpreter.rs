//! The interpreter: its state, and the execution of one instruction.
//!
//! A step either stops the program with a `Fault` (checked first, without changing
//! anything) or executes the instruction and returns the `Action` that the host must
//! carry out: printing, reading a line, or running a custom instruction.
use vstd::prelude::*;
use crate::parser::{Inst, Instr};
use crate::value::{
    MValue, Val, models, copy_value, reverse_vec, lemma_models, lemma_models_push,
    lemma_models_drop_last, lemma_models_reverse,
};
use crate::names::NameTable;
use crate::semantics::{
    arith_trap, vstack_trap, compare_trap, Machine, Effect, FaultView, Site, ArithOp, running, push,
    trap, trap_of, next, next_from, pop, top, run, Stop,
};
use crate::text::{
    chars_of, trimmed, parse_decimal_i32, string_from_chars, string_of_char, div_i32, trim,
    trunc_div,
};

verus! {

/// What the host must do after a step.
#[derive(Debug)]
pub enum Action {
    /// nothing
    Continue,
    /// print the value
    Print(MValue),
    /// end the line
    Newline,
    /// read a line and hand it back with `push_input`
    ReadLine,
    /// print the value stack
    DumpStack,
    /// run the custom instruction of that name
    Call(String),
}

impl View for Action {
    type V = Effect;

    open spec fn view(&self) -> Effect {
        match self {
            Action::Continue => Effect::Continue,
            Action::Print(v) => Effect::Print(v.model()),
            Action::Newline => Effect::Newline,
            Action::ReadLine => Effect::ReadLine,
            Action::DumpStack => Effect::Dump,
            Action::Call(name) => Effect::Call(name@),
        }
    }
}

/// Why a step stops the program.
#[derive(Debug)]
pub enum Fault {
    StackUnderflow(Site),
    IncorrectArguments(Site),
    Overflow(ArithOp),
    DivideByZero,
    DupUnderflow,
    JmpUnderflow,
    JzUnderflow,
    JnzUnderflow,
    S2nUnderflow,
    ReturnStackUnderflow,
    PopUnderflow,
    NoEntry,
    NotAVStack(Site, MValue),
    VStackUnderflow,
    UnknownVariable(String),
    JumpToString,
    NumberToNumber,
    VStackToNumber,
    InvalidNumber,
    IndexOutOfBounds,
    CompareStringNumber,
    CompareStringVStack,
    CompareNumberString,
    CompareNumberVStack,
    CompareVStack,
}

impl View for Fault {
    type V = FaultView;

    open spec fn view(&self) -> FaultView {
        match self {
            Fault::StackUnderflow(s) => FaultView::StackUnderflow(*s),
            Fault::IncorrectArguments(s) => FaultView::IncorrectArguments(*s),
            Fault::Overflow(op) => FaultView::Overflow(*op),
            Fault::DivideByZero => FaultView::DivideByZero,
            Fault::DupUnderflow => FaultView::DupUnderflow,
            Fault::JmpUnderflow => FaultView::JmpUnderflow,
            Fault::JzUnderflow => FaultView::JzUnderflow,
            Fault::JnzUnderflow => FaultView::JnzUnderflow,
            Fault::S2nUnderflow => FaultView::S2nUnderflow,
            Fault::ReturnStackUnderflow => FaultView::ReturnStackUnderflow,
            Fault::PopUnderflow => FaultView::PopUnderflow,
            Fault::NoEntry => FaultView::NoEntry,
            Fault::NotAVStack(s, v) => FaultView::NotAVStack(*s, v.model()),
            Fault::VStackUnderflow => FaultView::VStackUnderflow,
            Fault::UnknownVariable(name) => FaultView::UnknownVariable(name@),
            Fault::JumpToString => FaultView::JumpToString,
            Fault::NumberToNumber => FaultView::NumberToNumber,
            Fault::VStackToNumber => FaultView::VStackToNumber,
            Fault::InvalidNumber => FaultView::InvalidNumber,
            Fault::IndexOutOfBounds => FaultView::IndexOutOfBounds,
            Fault::CompareStringNumber => FaultView::CompareStringNumber,
            Fault::CompareStringVStack => FaultView::CompareStringVStack,
            Fault::CompareNumberString => FaultView::CompareNumberString,
            Fault::CompareNumberVStack => FaultView::CompareNumberVStack,
            Fault::CompareVStack => FaultView::CompareVStack,
        }
    }
}

/// How `Interpreter::run` ends.
#[derive(Debug)]
pub enum RunEnd {
    /// the instruction pointer left the program
    Finished,
    /// the allowed number of steps was taken
    OutOfFuel,
    /// the next instruction would stop the program; nothing was changed by it
    Faulted(Fault),
    /// a step asks something of the host
    Acted(Action),
}

impl View for RunEnd {
    type V = Stop;

    open spec fn view(&self) -> Stop {
        match self {
            RunEnd::Finished => Stop::Finished,
            RunEnd::OutOfFuel => Stop::OutOfFuel,
            RunEnd::Faulted(f) => Stop::Faulted(f@),
            RunEnd::Acted(a) => Stop::Acted(a@),
        }
    }
}

/// The labels that scanning the instructions at positions `lo..n` adds to `base`:
/// each label maps to the position just after it, later labels of a name replacing
/// earlier ones.
pub open spec fn label_scan(base: Map<Seq<char>, usize>, insts: Seq<Instr>, lo: int, n: int) -> Map<
    Seq<char>,
    usize,
>
    decreases n - lo,
{
    if n <= lo {
        base
    } else {
        let m = label_scan(base, insts, lo, n - 1);
        match insts[n - 1] {
            Instr::Label(name) => m.insert(name, n as usize),
            _ => m,
        }
    }
}

/// The name of the entry point.
pub open spec fn main_name() -> Seq<char> {
    seq!['m', 'a', 'i', 'n']
}

/// The interpreter's state.
pub struct Interpreter {
    ip: usize,
    insts: Vec<Inst>,
    /// The value stack, top last.
    pub stack: Vec<MValue>,
    return_stack: Vec<usize>,
    labels: NameTable<usize>,
    variables: NameTable<MValue>,
    functions: NameTable<()>,
}

/// A copy of an instruction.
pub fn copy_inst(i: &Inst) -> (r: Inst)
    ensures
        r@ == i@,
{
    match i {
        Inst::Add => Inst::Add,
        Inst::Sub => Inst::Sub,
        Inst::Mul => Inst::Mul,
        Inst::Div => Inst::Div,
        Inst::Dup => Inst::Dup,
        Inst::Swap => Inst::Swap,
        Inst::VSwap => Inst::VSwap,
        Inst::Pop => Inst::Pop,
        Inst::VPop => Inst::VPop,
        Inst::Stacklen => Inst::Stacklen,
        Inst::VStacklen => Inst::VStacklen,
        Inst::Jmp => Inst::Jmp,
        Inst::Jz => Inst::Jz,
        Inst::Jnz => Inst::Jnz,
        Inst::Ret => Inst::Ret,
        Inst::Str2num => Inst::Str2num,
        Inst::Strat => Inst::Strat,
        Inst::Strlen => Inst::Strlen,
        Inst::Strjoin => Inst::Strjoin,
        Inst::Put => Inst::Put,
        Inst::Endl => Inst::Endl,
        Inst::In => Inst::In,
        Inst::Cmp => Inst::Cmp,
        Inst::Eof => Inst::Eof,
        Inst::Stackdmp => Inst::Stackdmp,
        Inst::CustomInstruction(s) => Inst::CustomInstruction(s.clone()),
        Inst::Label(s) => Inst::Label(s.clone()),
        Inst::LabelAddress(s) => Inst::LabelAddress(s.clone()),
        Inst::DefineVStack(s) => Inst::DefineVStack(s.clone()),
        Inst::DefineVar(s) => Inst::DefineVar(s.clone()),
        Inst::ReadVar(s) => Inst::ReadVar(s.clone()),
        Inst::WriteVar(s) => Inst::WriteVar(s.clone()),
        Inst::LoadString(s) => Inst::LoadString(s.clone()),
        Inst::LoadNumber(n) => Inst::LoadNumber(*n),
    }
}

/// The one quotient of two `i32` that does not fit an `i32`.
proof fn lemma_div_overflow()
    ensures
        trunc_div(i32::MIN as int, -1) == 2147483648,
{
    assert(2147483648int / 1int == 2147483648int);
}

/// Pops the top value of a non-empty stack.
fn pop_top(stack: &mut Vec<MValue>) -> (v: MValue)
    requires
        old(stack)@.len() > 0,
    ensures
        models(final(stack)@) == models(old(stack)@).drop_last(),
        v.model() == models(old(stack)@).last(),
        final(stack)@.len() == old(stack)@.len() - 1,
{
    proof {
        lemma_models_drop_last(stack@);
    }
    match stack.pop() {
        Some(v) => v,
        None => MValue::Number(0),
    }
}

/// Pushes a value.
fn push_value(stack: &mut Vec<MValue>, v: MValue)
    ensures
        models(final(stack)@) == models(old(stack)@).push(v.model()),
        final(stack)@.len() == old(stack)@.len() + 1,
{
    proof {
        lemma_models_push(stack@, v);
    }
    stack.push(v);
}

/// The number in a value that holds one.
fn number_of(v: MValue) -> (r: i32)
    requires
        v.model() is Num,
    ensures
        r == v.model()->Num_0,
{
    match v {
        MValue::Number(n) => n,
        _ => 0,
    }
}

/// The string in a value that holds one.
fn string_in(v: MValue) -> (r: String)
    requires
        v.model() is Str,
    ensures
        r@ == v.model()->Str_0,
{
    match v {
        MValue::String(s) => s,
        _ => String::new(),
    }
}

impl Interpreter {
    /// The interpreter's state as a mathematical object.
    pub closed spec fn machine(&self) -> Machine {
        Machine {
            ip: self.ip,
            insts: self.insts@.map_values(|i: Inst| i@),
            stack: models(self.stack@),
            rets: self.return_stack@,
            labels: self.labels.map(),
            vars: self.variables.map().map_values(|v: MValue| v.model()),
            funcs: self.functions.map().dom(),
        }
    }

    /// The tables of the interpreter are well formed.
    pub closed spec fn wf(&self) -> bool {
        &&& self.labels.wf()
        &&& self.variables.wf()
        &&& self.functions.wf()
    }

    /// An interpreter for the program `insts`, at its first instruction, with empty
    /// stacks and no labels, variables or custom instructions.
    pub fn new(insts: Vec<Inst>) -> (r: Interpreter)
        ensures
            r.wf(),
            r.machine() == (Machine {
                ip: 0,
                insts: insts@.map_values(|i: Inst| i@),
                stack: seq![],
                rets: seq![],
                labels: Map::empty(),
                vars: Map::empty(),
                funcs: Set::empty(),
            }),
    {
        let r = Interpreter {
            ip: 0,
            stack: Vec::new(),
            return_stack: Vec::new(),
            labels: NameTable::new(),
            insts,
            variables: NameTable::new(),
            functions: NameTable::new(),
        };
        proof {
            lemma_models(r.stack@);
            assert(models(r.stack@) =~= seq![]);
            assert(r.variables.map().map_values(|v: MValue| v.model()) =~= Map::empty());
            assert(r.functions.map().dom() =~= Set::empty());
        }
        r
    }

    /// Makes `name` a custom instruction that the host provides.
    pub fn add_function(&mut self, name: &str)
        requires
            old(self).wf(),
        ensures
            final(self).wf(),
            final(self).machine() == (Machine {
                funcs: old(self).machine().funcs.insert(name@),
                ..old(self).machine()
            }),
    {
        let key = name.to_owned();
        self.functions.insert(key, ());
        assert(self.functions.map().dom() =~= old(self).functions.map().dom().insert(name@));
    }

    /// Records every label from the instruction pointer to the end of the program:
    /// the position after the label, under its name; the instruction pointer is then
    /// left at the start.
    pub fn find_labels(&mut self)
        requires
            old(self).wf(),
        ensures
            final(self).wf(),
            final(self).machine() == (Machine {
                ip: 0,
                labels: label_scan(
                    old(self).machine().labels,
                    old(self).machine().insts,
                    old(self).machine().ip as int,
                    old(self).machine().insts.len() as int,
                ),
                ..old(self).machine()
            }),
    {
        let ghost m = self.machine();
        let mut i: usize = self.ip;
        while i < self.insts.len()
            invariant
                m.ip <= i,
                i <= self.insts@.len() || i == m.ip,
                self.wf(),
                self.machine() == (Machine {
                    labels: label_scan(m.labels, m.insts, m.ip as int, i as int),
                    ip: self.ip,
                    ..m
                }),
            decreases self.insts@.len() - i,
        {
            let ghost before = self.machine();
            match &self.insts[i] {
                Inst::Label(name) => {
                    let key = name.clone();
                    self.labels.insert(key, i + 1);
                },
                _ => {},
            }
            i = i + 1;
            proof {
                assert(self.machine() =~= (Machine {
                    labels: label_scan(m.labels, m.insts, m.ip as int, i as int),
                    ip: self.ip,
                    ..m
                }));
            }
        }
        self.ip = 0;
        proof {
            assert(self.machine() =~= (Machine {
                ip: 0,
                labels: label_scan(m.labels, m.insts, m.ip as int, m.insts.len() as int),
                ..m
            }));
        }
    }

    /// Gets ready to run: records the labels and, when there is a label `main`,
    /// jumps to it with the start of the program as return address. Returns whether
    /// `main` was found; without it the program cannot run.
    pub fn start(&mut self) -> (found: bool)
        requires
            old(self).wf(),
        ensures
            final(self).wf(),
            ({
                let m = old(self).machine();
                let labels = label_scan(m.labels, m.insts, m.ip as int, m.insts.len() as int);
                &&& found == labels.contains_key(main_name())
                &&& found ==> final(self).machine() == (Machine {
                    ip: labels[main_name()],
                    rets: m.rets.push(0),
                    labels,
                    ..m
                })
                &&& !found ==> final(self).machine() == (Machine { ip: 0, labels, ..m })
            }),
    {
        self.find_labels();
        let key = "main".to_owned();
        proof {
            reveal_strlit("main");
        }
        assert(key@ == main_name());
        match self.labels.find(&key) {
            Some(i) => {
                let addr = *self.labels.value_at(i);
                self.return_stack.push(self.ip);
                self.ip = addr;
                true
            },
            None => false,
        }
    }

    /// Whether there is an instruction to execute.
    pub fn running(&self) -> (r: bool)
        ensures
            r == running(self.machine()),
    {
        self.ip < self.insts.len()
    }

    /// The position of the next instruction.
    pub fn ip(&self) -> (r: usize)
        ensures
            r == self.machine().ip,
    {
        self.ip
    }

    /// The program.
    pub fn instructions(&self) -> (r: &Vec<Inst>)
        ensures
            r@.map_values(|i: Inst| i@) == self.machine().insts,
    {
        &self.insts
    }

    /// Hands a line of input to the program: pushes it, without leading and trailing
    /// white space, as a string.
    pub fn push_input(&mut self, line: &str)
        requires
            old(self).wf(),
        ensures
            final(self).wf(),
            final(self).machine() == push(old(self).machine(), Val::Str(trim(line@))),
    {
        let c = chars_of(line);
        let t = trimmed(&c);
        let s = string_from_chars(&t, 0, t.len());
        assert(t@.subrange(0, t@.len() as int) =~= t@);
        push_value(&mut self.stack, MValue::String(s));
        assert(self.machine() =~= push(old(self).machine(), Val::Str(trim(line@))));
    }
    /// Executes an instruction that only works on the value stack or asks the host
    /// for something.
    fn exec_basic(&mut self, inst: Inst) -> (a: Action)
        requires
            old(self).wf(),
            trap_of(old(self).machine(), inst@) is None,
            inst is LoadString || inst is LoadNumber || inst is Dup || inst is Swap || inst is Pop
                || inst is Stacklen || inst is Put || inst is Endl || inst is In || inst is Stackdmp
                || inst is Label || inst is Eof,
        ensures
            final(self).wf(),
            final(self).machine() == next_from(old(self).machine(), inst@).0,
            a@ == next_from(old(self).machine(), inst@).1,
    {
        let ghost m = self.machine();
        proof {
            lemma_models(self.stack@);
        }
        match inst {
            Inst::LoadString(s) => {
                push_value(&mut self.stack, MValue::String(s));
                assert(self.machine() =~= next_from(m, inst@).0);
                Action::Continue
            },
            Inst::LoadNumber(n) => {
                push_value(&mut self.stack, MValue::Number(n));
                assert(self.machine() =~= next_from(m, inst@).0);
                Action::Continue
            },
            Inst::Dup => {
                let n = self.stack.len();
                let v = copy_value(&self.stack[n - 1]);
                push_value(&mut self.stack, v);
                assert(self.machine() =~= next_from(m, inst@).0);
                Action::Continue
            },
            Inst::Swap => {
                proof {
                    lemma_models_reverse(self.stack@);
                }
                reverse_vec(&mut self.stack);
                assert(self.machine() =~= next_from(m, inst@).0);
                Action::Continue
            },
            Inst::Pop => {
                pop_top(&mut self.stack);
                assert(m.stack.subrange(0, m.stack.len() - 1) =~= m.stack.drop_last());
                assert(self.machine() =~= next_from(m, inst@).0);
                Action::Continue
            },
            Inst::Stacklen => {
                let n = self.stack.len() as i32;
                push_value(&mut self.stack, MValue::Number(n));
                assert(self.machine() =~= next_from(m, inst@).0);
                Action::Continue
            },
            Inst::Put => {
                let v = pop_top(&mut self.stack);
                assert(m.stack.subrange(0, m.stack.len() - 1) =~= m.stack.drop_last());
                assert(self.machine() =~= next_from(m, inst@).0);
                Action::Print(v)
            },
            Inst::Endl => Action::Newline,
            Inst::In => Action::ReadLine,
            Inst::Stackdmp => Action::DumpStack,
            _ => Action::Continue,
        }
    }
    /// Executes `add`, `sub`, `mul`, `div` or `cmp`.
    fn exec_arith(&mut self, inst: Inst) -> (a: Action)
        requires
            old(self).wf(),
            trap_of(old(self).machine(), inst@) is None,
            inst is Add || inst is Sub || inst is Mul || inst is Div || inst is Cmp,
        ensures
            final(self).wf(),
            final(self).machine() == next_from(old(self).machine(), inst@).0,
            a@ == next_from(old(self).machine(), inst@).1,
    {
        let ghost m = self.machine();
        proof {
            lemma_models(self.stack@);
        }
        let x = pop_top(&mut self.stack);
        let y = pop_top(&mut self.stack);
        assert(m.stack.subrange(0, m.stack.len() - 2) =~= m.stack.drop_last().drop_last());
        let r: i32 = match inst {
            Inst::Add => {
                let a = number_of(x);
                let b = number_of(y);
                a + b
            },
            Inst::Sub => {
                let a = number_of(x);
                let b = number_of(y);
                a - b
            },
            Inst::Mul => {
                let a = number_of(x);
                let b = number_of(y);
                a * b
            },
            Inst::Div => {
                let a = number_of(x);
                let b = number_of(y);
                proof {
                    lemma_div_overflow();
                }
                div_i32(a, b)
            },
            _ => match (x, y) {
                (MValue::String(a), MValue::String(b)) => if a == b {
                    0
                } else {
                    1
                },
                (MValue::Number(a), MValue::Number(b)) => a - b,
                _ => 0,
            },
        };
        push_value(&mut self.stack, MValue::Number(r));
        assert(self.machine() =~= next_from(m, inst@).0);
        Action::Continue
    }
    /// Executes an instruction on variables: `$`, `%`, `>`, `<`, `vswap`, `vpop`,
    /// `vslen`.
    fn exec_vars(&mut self, inst: Inst) -> (a: Action)
        requires
            old(self).wf(),
            trap_of(old(self).machine(), inst@) is None,
            inst is DefineVar || inst is DefineVStack || inst is ReadVar || inst is WriteVar
                || inst is VSwap || inst is VPop || inst is VStacklen,
        ensures
            final(self).wf(),
            final(self).machine() == next_from(old(self).machine(), inst@).0,
            a@ == next_from(old(self).machine(), inst@).1,
    {
        let ghost m = self.machine();
        proof {
            lemma_models(self.stack@);
        }
        match inst {
            Inst::DefineVar(name) => {
                self.variables.insert(name, MValue::Number(0));
            },
            Inst::DefineVStack(name) => {
                let empty: Vec<MValue> = Vec::new();
                proof {
                    lemma_models(empty@);
                    assert(models(empty@) =~= seq![]);
                }
                self.variables.insert(name, MValue::VStack(empty));
            },
            Inst::ReadVar(name) => {
                proof {
                    assert(m.vars.contains_key(name@));
                }
                match self.variables.find(&name) {
                    Some(i) => {
                        let is_stack = match self.variables.value_at(i) {
                            MValue::VStack(_) => true,
                            _ => false,
                        };
                        if is_stack {
                            let held = self.variables.replace_at(i, MValue::Number(0));
                            match held {
                                MValue::VStack(mut items) => {
                                    proof {
                                        lemma_models(items@);
                                    }
                                    let v = pop_top(&mut items);
                                    self.variables.replace_at(i, MValue::VStack(items));
                                    push_value(&mut self.stack, v);
                                },
                                _ => {},
                            }
                        } else {
                            let v = copy_value(self.variables.value_at(i));
                            push_value(&mut self.stack, v);
                        }
                    },
                    None => {},
                }
            },
            Inst::WriteVar(name) => {
                let v = pop_top(&mut self.stack);
                assert(m.stack.subrange(0, m.stack.len() - 1) =~= m.stack.drop_last());
                proof {
                    assert(m.vars.contains_key(name@));
                }
                match self.variables.find(&name) {
                    Some(i) => {
                        let is_stack = match self.variables.value_at(i) {
                            MValue::VStack(_) => true,
                            _ => false,
                        };
                        if is_stack {
                            let held = self.variables.replace_at(i, MValue::Number(0));
                            match held {
                                MValue::VStack(mut items) => {
                                    push_value(&mut items, v);
                                    self.variables.replace_at(i, MValue::VStack(items));
                                },
                                _ => {},
                            }
                        } else {
                            self.variables.replace_at(i, v);
                        }
                    },
                    None => {},
                }
            },
            _ => {
                let name = string_in(pop_top(&mut self.stack));
                assert(m.stack.subrange(0, m.stack.len() - 1) =~= m.stack.drop_last());
                proof {
                    assert(m.vars.contains_key(name@));
                }
                match self.variables.find(&name) {
                    Some(i) => {
                        if let Inst::VStacklen = inst {
                            let len = match self.variables.value_at(i) {
                                MValue::VStack(items) => {
                                    proof {
                                        lemma_models(items@);
                                    }
                                    items.len() as i32
                                },
                                _ => 0,
                            };
                            push_value(&mut self.stack, MValue::Number(len));
                        } else {
                            let held = self.variables.replace_at(i, MValue::Number(0));
                            match held {
                                MValue::VStack(mut items) => {
                                    proof {
                                        lemma_models(items@);
                                        lemma_models_reverse(items@);
                                        if items@.len() > 0 {
                                            lemma_models_drop_last(items@);
                                        }
                                    }
                                    if let Inst::VSwap = inst {
                                        reverse_vec(&mut items);
                                    } else {
                                        items.pop();
                                    }
                                    self.variables.replace_at(i, MValue::VStack(items));
                                },
                                _ => {},
                            }
                        }
                    },
                    None => {},
                }
            },
        }
        assert(self.machine() =~= next_from(m, inst@).0);
        Action::Continue
    }
    /// Executes a jump, a return, a label address or a custom instruction.
    fn exec_flow(&mut self, inst: Inst) -> (a: Action)
        requires
            old(self).wf(),
            trap_of(old(self).machine(), inst@) is None,
            inst is Jmp || inst is Jz || inst is Jnz || inst is Ret || inst is LabelAddress
                || inst is CustomInstruction,
        ensures
            final(self).wf(),
            final(self).machine() == next_from(old(self).machine(), inst@).0,
            a@ == next_from(old(self).machine(), inst@).1,
    {
        let ghost m = self.machine();
        proof {
            lemma_models(self.stack@);
        }
        match inst {
            Inst::Jmp => {
                let addr = number_of(pop_top(&mut self.stack));
                assert(m.stack.subrange(0, m.stack.len() - 1) =~= m.stack.drop_last());
                self.ip = addr as usize;
                assert(self.machine() =~= next_from(m, inst@).0);
                Action::Continue
            },
            Inst::Jz | Inst::Jnz => {
                let addr = number_of(pop_top(&mut self.stack));
                let flag = pop_top(&mut self.stack);
                assert(m.stack.subrange(0, m.stack.len() - 2) =~= m.stack.drop_last().drop_last());
                let jump = match flag {
                    MValue::Number(f) => if let Inst::Jz = inst {
                        f == 0
                    } else {
                        f != 0
                    },
                    _ => false,
                };
                if jump {
                    self.ip = addr as usize;
                }
                assert(self.machine() =~= next_from(m, inst@).0);
                Action::Continue
            },
            Inst::Ret => {
                match self.return_stack.pop() {
                    Some(address) => {
                        self.ip = address;
                    },
                    None => {},
                }
                assert(self.machine() =~= next_from(m, inst@).0);
                Action::Continue
            },
            Inst::LabelAddress(name) => {
                match self.labels.find(&name) {
                    Some(i) => {
                        let addr = *self.labels.value_at(i);
                        push_value(&mut self.stack, MValue::Number(addr as i32));
                    },
                    None => {},
                }
                assert(self.machine() =~= next_from(m, inst@).0);
                Action::Continue
            },
            Inst::CustomInstruction(name) => {
                if self.functions.find(&name).is_some() {
                    return Action::Call(name);
                }
                match self.labels.find(&name) {
                    Some(i) => {
                        let addr = *self.labels.value_at(i);
                        self.return_stack.push(self.ip);
                        self.ip = addr;
                    },
                    None => {},
                }
                assert(self.machine() =~= next_from(m, inst@).0);
                Action::Continue
            },
            _ => Action::Continue,
        }
    }

    /// Executes `s2n`, `strat`, `strlen` or `strjoin`.
    fn exec_strings(&mut self, inst: Inst) -> (a: Action)
        requires
            old(self).wf(),
            trap_of(old(self).machine(), inst@) is None,
            inst is Str2num || inst is Strat || inst is Strlen || inst is Strjoin,
        ensures
            final(self).wf(),
            final(self).machine() == next_from(old(self).machine(), inst@).0,
            a@ == next_from(old(self).machine(), inst@).1,
    {
        let ghost m = self.machine();
        proof {
            lemma_models(self.stack@);
        }
        let x = pop_top(&mut self.stack);
        assert(m.stack.subrange(0, m.stack.len() - 1) =~= m.stack.drop_last());
        let r = match inst {
            Inst::Str2num => {
                let s = string_in(x);
                let c = chars_of(s.as_str());
                let t = trimmed(&c);
                match parse_decimal_i32(&t) {
                    Some(n) => MValue::Number(n),
                    None => MValue::Number(0),
                }
            },
            Inst::Strlen => {
                let s = string_in(x);
                MValue::Number(s.as_str().len() as i32)
            },
            Inst::Strat => {
                let index = number_of(x);
                let s = string_in(pop_top(&mut self.stack));
                assert(m.stack.subrange(0, m.stack.len() - 2) =~= m.stack.drop_last().drop_last());
                let c = chars_of(s.as_str());
                let i = index as usize;
                if i < c.len() {
                    MValue::String(string_of_char(c[i]))
                } else {
                    MValue::Number(0)
                }
            },
            _ => {
                let top_string = string_in(x);
                let under = string_in(pop_top(&mut self.stack));
                assert(m.stack.subrange(0, m.stack.len() - 2) =~= m.stack.drop_last().drop_last());
                MValue::String(under.concat(top_string.as_str()))
            },
        };
        push_value(&mut self.stack, r);
        assert(self.machine() =~= next_from(m, inst@).0);
        Action::Continue
    }
    /// Why `add`, `sub`, `mul` or `div` would stop the program.
    fn check_arith(&self, site: Site, op: ArithOp) -> (r: Option<Fault>)
        ensures
            match (r, arith_trap(self.machine(), site, op)) {
                (None, None) => true,
                (Some(f), Some(g)) => f@ == g,
                _ => false,
            },
    {
        proof {
            lemma_models(self.stack@);
        }
        let n = self.stack.len();
        if n < 2 {
            return Some(Fault::StackUnderflow(site));
        }
        match (&self.stack[n - 1], &self.stack[n - 2]) {
            (MValue::Number(x), MValue::Number(y)) => {
                let x = *x;
                let y = *y;
                let v: i64 = match op {
                    ArithOp::Add => x as i64 + y as i64,
                    ArithOp::Sub => x as i64 - y as i64,
                    ArithOp::Mul => {
                        assert((x as i64) * (y as i64) <= 0x4000_0000_0000_0000) by (nonlinear_arith)
                            requires
                                i32::MIN <= x <= i32::MAX,
                                i32::MIN <= y <= i32::MAX,
                        ;
                        assert((x as i64) * (y as i64) >= -0x4000_0000_0000_0000) by (nonlinear_arith)
                            requires
                                i32::MIN <= x <= i32::MAX,
                                i32::MIN <= y <= i32::MAX,
                        ;
                        x as i64 * y as i64
                    },
                    ArithOp::Div => {
                        if y == 0 {
                            return Some(Fault::DivideByZero);
                        }
                        if x == i32::MIN && y == -1 {
                            proof {
                                lemma_div_overflow();
                            }
                            return Some(Fault::Overflow(op));
                        }
                        div_i32(x, y) as i64
                    },
                };
                if v < i32::MIN as i64 || v > i32::MAX as i64 {
                    Some(Fault::Overflow(op))
                } else {
                    None
                }
            },
            _ => Some(Fault::IncorrectArguments(site)),
        }
    }

    /// Why an instruction on the value stack named on top of the stack would stop
    /// the program.
    fn check_vstack(&self, site: Site) -> (r: Option<Fault>)
        requires
            self.wf(),
        ensures
            match (r, vstack_trap(self.machine(), site)) {
                (None, None) => true,
                (Some(f), Some(g)) => f@ == g,
                _ => false,
            },
    {
        proof {
            lemma_models(self.stack@);
        }
        let n = self.stack.len();
        if n < 1 {
            return Some(Fault::StackUnderflow(site));
        }
        match &self.stack[n - 1] {
            MValue::String(name) => match self.variables.find(name) {
                None => Some(Fault::NoEntry),
                Some(i) => match self.variables.value_at(i) {
                    MValue::VStack(_) => None,
                    v => Some(Fault::NotAVStack(site, copy_value(v))),
                },
            },
            _ => Some(Fault::IncorrectArguments(site)),
        }
    }

    /// Why `cmp` would stop the program.
    fn check_compare(&self) -> (r: Option<Fault>)
        ensures
            match (r, compare_trap(self.machine())) {
                (None, None) => true,
                (Some(f), Some(g)) => f@ == g,
                _ => false,
            },
    {
        proof {
            lemma_models(self.stack@);
        }
        let n = self.stack.len();
        if n < 2 {
            return Some(Fault::StackUnderflow(Site::Cmp));
        }
        match (&self.stack[n - 1], &self.stack[n - 2]) {
            (MValue::String(_), MValue::String(_)) => None,
            (MValue::String(_), MValue::Number(_)) => Some(Fault::CompareStringNumber),
            (MValue::String(_), MValue::VStack(_)) => Some(Fault::CompareStringVStack),
            (MValue::Number(x), MValue::Number(y)) => {
                let d = *x as i64 - *y as i64;
                if d < i32::MIN as i64 || d > i32::MAX as i64 {
                    Some(Fault::Overflow(ArithOp::Sub))
                } else {
                    None
                }
            },
            (MValue::Number(_), MValue::String(_)) => Some(Fault::CompareNumberString),
            (MValue::Number(_), MValue::VStack(_)) => Some(Fault::CompareNumberVStack),
            (MValue::VStack(_), _) => Some(Fault::CompareVStack),
        }
    }

    /// Why executing `inst` would stop the program.
    fn check_inst(&self, inst: &Inst) -> (r: Option<Fault>)
        requires
            self.wf(),
        ensures
            match (r, trap_of(self.machine(), inst@)) {
                (None, None) => true,
                (Some(f), Some(g)) => f@ == g,
                _ => false,
            },
    {
        proof {
            lemma_models(self.stack@);
        }
        let n = self.stack.len();
        match inst {
            Inst::Add => self.check_arith(Site::Add, ArithOp::Add),
            Inst::Sub => self.check_arith(Site::Sub, ArithOp::Sub),
            Inst::Mul => self.check_arith(Site::Mul, ArithOp::Mul),
            Inst::Div => self.check_arith(Site::Mul, ArithOp::Div),
            Inst::Dup => if n == 0 {
                Some(Fault::DupUnderflow)
            } else {
                None
            },
            Inst::VSwap => self.check_vstack(Site::Vswap),
            Inst::VPop => self.check_vstack(Site::Vpop),
            Inst::VStacklen => self.check_vstack(Site::Vslen),
            Inst::Ret => if self.return_stack.len() == 0 {
                Some(Fault::ReturnStackUnderflow)
            } else {
                None
            },
            Inst::Pop => if n == 0 {
                Some(Fault::PopUnderflow)
            } else {
                None
            },
            Inst::ReadVar(name) => match self.variables.find(name) {
                None => Some(Fault::UnknownVariable(name.clone())),
                Some(i) => match self.variables.value_at(i) {
                    MValue::VStack(items) => {
                        proof {
                            lemma_models(items@);
                        }
                        if items.len() == 0 {
                            Some(Fault::VStackUnderflow)
                        } else {
                            None
                        }
                    },
                    _ => None,
                },
            },
            Inst::WriteVar(name) => if n < 1 {
                Some(Fault::StackUnderflow(Site::WriteVar))
            } else if self.variables.find(name).is_none() {
                Some(Fault::UnknownVariable(name.clone()))
            } else {
                None
            },
            Inst::Jmp => if n == 0 {
                Some(Fault::JmpUnderflow)
            } else {
                match &self.stack[n - 1] {
                    MValue::Number(_) => None,
                    _ => Some(Fault::JumpToString),
                }
            },
            Inst::Jz | Inst::Jnz => if n < 2 {
                if let Inst::Jz = inst {
                    Some(Fault::JzUnderflow)
                } else {
                    Some(Fault::JnzUnderflow)
                }
            } else {
                match &self.stack[n - 1] {
                    MValue::Number(_) => None,
                    _ => Some(Fault::JumpToString),
                }
            },
            Inst::Str2num => if n == 0 {
                Some(Fault::S2nUnderflow)
            } else {
                match &self.stack[n - 1] {
                    MValue::Number(_) => Some(Fault::NumberToNumber),
                    MValue::VStack(_) => Some(Fault::VStackToNumber),
                    MValue::String(s) => {
                        let c = chars_of(s.as_str());
                        let t = trimmed(&c);
                        if parse_decimal_i32(&t).is_none() {
                            Some(Fault::InvalidNumber)
                        } else {
                            None
                        }
                    },
                }
            },
            Inst::Strat => if n < 2 {
                Some(Fault::StackUnderflow(Site::Strat))
            } else {
                match (&self.stack[n - 1], &self.stack[n - 2]) {
                    (MValue::Number(i), MValue::String(s)) => {
                        let c = chars_of(s.as_str());
                        if (*i as usize) >= c.len() {
                            Some(Fault::IndexOutOfBounds)
                        } else {
                            None
                        }
                    },
                    _ => Some(Fault::IncorrectArguments(Site::Strat)),
                }
            },
            Inst::Strlen => if n < 1 {
                Some(Fault::StackUnderflow(Site::Strlen))
            } else {
                match &self.stack[n - 1] {
                    MValue::String(_) => None,
                    _ => Some(Fault::IncorrectArguments(Site::Strlen)),
                }
            },
            Inst::Strjoin => if n < 2 {
                Some(Fault::StackUnderflow(Site::Strjoin))
            } else {
                match (&self.stack[n - 1], &self.stack[n - 2]) {
                    (MValue::String(_), MValue::String(_)) => None,
                    _ => Some(Fault::IncorrectArguments(Site::Strjoin)),
                }
            },
            Inst::Put => if n < 1 {
                Some(Fault::StackUnderflow(Site::Put))
            } else {
                None
            },
            Inst::Cmp => self.check_compare(),
            Inst::LabelAddress(name) => if self.labels.find(name).is_none() {
                Some(Fault::NoEntry)
            } else {
                None
            },
            Inst::CustomInstruction(name) => if self.functions.find(name).is_none()
                && self.labels.find(name).is_none() {
                Some(Fault::NoEntry)
            } else {
                None
            },
            _ => None,
        }
    }

    /// Why executing the next instruction would stop the program, if it would.
    pub fn check(&self) -> (r: Option<Fault>)
        requires
            self.wf(),
            running(self.machine()),
        ensures
            match (r, trap(self.machine())) {
                (None, None) => true,
                (Some(f), Some(g)) => f@ == g,
                _ => false,
            },
    {
        self.check_inst(&self.insts[self.ip])
    }

    /// Executes the next instruction, which must not stop the program, and returns
    /// what the host must do.
    pub fn execute_instruction(&mut self) -> (a: Action)
        requires
            old(self).wf(),
            running(old(self).machine()),
            trap(old(self).machine()) is None,
        ensures
            final(self).wf(),
            final(self).machine() == next(old(self).machine()).0,
            a@ == next(old(self).machine()).1,
    {
        let ghost m = self.machine();
        let count = self.insts.len();
        assert(self.ip < count);
        let inst = copy_inst(&self.insts[self.ip]);
        self.ip = self.ip + 1;
        assert(self.machine() =~= (Machine { ip: (m.ip + 1) as usize, ..m }));
        assert(inst@ == m.insts[m.ip as int]);
        match inst {
            Inst::Add | Inst::Sub | Inst::Mul | Inst::Div | Inst::Cmp => self.exec_arith(inst),
            Inst::DefineVar(_) | Inst::DefineVStack(_) | Inst::ReadVar(_) | Inst::WriteVar(_)
            | Inst::VSwap | Inst::VPop | Inst::VStacklen => self.exec_vars(inst),
            Inst::Jmp | Inst::Jz | Inst::Jnz | Inst::Ret | Inst::LabelAddress(_)
            | Inst::CustomInstruction(_) => self.exec_flow(inst),
            Inst::Str2num | Inst::Strat | Inst::Strlen | Inst::Strjoin => self.exec_strings(inst),
            _ => self.exec_basic(inst),
        }
    }

    /// One step: stops with the fault where the next instruction would stop the
    /// program, leaving the state as it was; executes it otherwise.
    pub fn step(&mut self) -> (r: Result<Action, Fault>)
        requires
            old(self).wf(),
            running(old(self).machine()),
        ensures
            final(self).wf(),
            match (r, trap(old(self).machine())) {
                (Err(f), Some(g)) => f@ == g && final(self).machine() == old(self).machine(),
                (Ok(a), None) => final(self).machine() == next(old(self).machine()).0 && a@ == next(
                    old(self).machine(),
                ).1,
                _ => false,
            },
    {
        match self.check() {
            Some(f) => Err(f),
            None => Ok(self.execute_instruction()),
        }
    }

    /// The value stack (the field `stack`), bottom first; its models are the
    /// model's value stack.
    pub fn stack_values(&self) -> (r: &Vec<MValue>)
        ensures
            models(r@) == self.machine().stack,
    {
        &self.stack
    }

    /// Pushes a value on the value stack.
    pub fn push_stack(&mut self, v: MValue)
        requires
            old(self).wf(),
        ensures
            final(self).wf(),
            final(self).machine() == push(old(self).machine(), v.model()),
    {
        push_value(&mut self.stack, v);
        assert(self.machine() =~= push(old(self).machine(), v.model()));
    }

    /// Pops the value on top of the value stack; `None`, changing nothing, when the
    /// stack is empty.
    pub fn pop_stack(&mut self) -> (r: Option<MValue>)
        requires
            old(self).wf(),
        ensures
            final(self).wf(),
            old(self).machine().stack.len() == 0 ==> r is None && final(self).machine() == old(
                self,
            ).machine(),
            old(self).machine().stack.len() > 0 ==> (r matches Some(v) && v.model() == top(
                old(self).machine(),
            ) && final(self).machine() == pop(old(self).machine(), 1)),
    {
        proof {
            lemma_models(self.stack@);
        }
        if self.stack.len() == 0 {
            return None;
        }
        let ghost m = self.machine();
        let v = pop_top(&mut self.stack);
        assert(m.stack.subrange(0, m.stack.len() - 1) =~= m.stack.drop_last());
        assert(self.machine() =~= pop(m, 1));
        Some(v)
    }

    /// Takes steps, at most `fuel` of them, while they ask nothing of the host: ends
    /// when the program is left, a step would stop it (without taking that step), a
    /// step asks something of the host (after taking it), or the steps run out.
    pub fn run(&mut self, fuel: usize) -> (r: RunEnd)
        requires
            old(self).wf(),
        ensures
            final(self).wf(),
            final(self).machine() == run(old(self).machine(), fuel as nat).0,
            r@ == run(old(self).machine(), fuel as nat).1,
    {
        let ghost m0 = self.machine();
        let mut left = fuel;
        loop
            invariant
                self.wf(),
                m0 == old(self).machine(),
                run(m0, fuel as nat) == run(self.machine(), left as nat),
            decreases left,
        {
            if !self.running() {
                return RunEnd::Finished;
            }
            if left == 0 {
                return RunEnd::OutOfFuel;
            }
            match self.step() {
                Err(f) => {
                    return RunEnd::Faulted(f);
                },
                Ok(Action::Continue) => {
                    left = left - 1;
                },
                Ok(a) => {
                    return RunEnd::Acted(a);
                },
            }
        }
    }
}

} // verus!
