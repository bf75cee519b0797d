//! What each instruction does to the machine, stated over the values it reads and
//! the state it leaves, one law per instruction or family of instructions.
use vstd::prelude::*;
use crate::parser::Instr;
use crate::semantics::{Machine, Effect, FaultView, ArithOp, Site, Stop, next, trap, running, run};
use crate::value::Val;
use crate::text::{
    is_white_space, trim, trim_start, trim_end, lemma_trim_start_skip, lemma_trim_end_cut,
    digits_value,
};
use vstd::utf8::encode_utf8;
use crate::lexer::{
    Token, next_lexeme, scan_at, lemma_run_end, lemma_scan_at, CharClass, in_class,
    run_end, include_len, include_word, Scan,
};

verus! {

/// The program, the return stack, the labels, the variables and the host's
/// functions are the same in `a` and `b`.
pub open spec fn same_tables(a: Machine, b: Machine) -> bool {
    &&& a.insts == b.insts
    &&& a.rets == b.rets
    &&& a.labels == b.labels
    &&& a.vars == b.vars
    &&& a.funcs == b.funcs
}

/// The value stack of `m` without its top `k` values.
pub open spec fn below(m: Machine, k: int) -> Seq<Val> {
    m.stack.subrange(0, m.stack.len() - k)
}

/// A step from `m` goes on to the next instruction, asks nothing of the host, and
/// leaves the program, return stack, labels, variables and host functions alone.
pub open spec fn plain_step(m: Machine) -> bool {
    &&& trap(m) is None
    &&& next(m).1 is Continue
    &&& next(m).0.ip == m.ip + 1
    &&& same_tables(m, next(m).0)
}

/// A conditional jump pops the address `a` (on top) and the flag under it. `jnz`
/// jumps to `a` exactly when the flag is a number other than zero, negative ones
/// included; `jz` exactly when it is the number zero. Otherwise the program goes
/// on with the next instruction.
pub proof fn law_conditional_jump(m: Machine, a: i32, flag: Val)
    requires
        running(m),
        m.insts.len() <= usize::MAX,
        m.insts[m.ip as int] == Instr::Jnz || m.insts[m.ip as int] == Instr::Jz,
        m.stack.len() >= 2,
        m.stack[m.stack.len() - 1] == Val::Num(a),
        m.stack[m.stack.len() - 2] == flag,
    ensures
        trap(m) is None,
        next(m).1 is Continue,
        next(m).0.stack == below(m, 2),
        same_tables(m, next(m).0),
        m.insts[m.ip as int] == Instr::Jnz ==> {
            &&& (flag matches Val::Num(f) && f != 0) ==> next(m).0.ip == a as usize
            &&& !(flag matches Val::Num(f) && f != 0) ==> next(m).0.ip == m.ip + 1
        },
        m.insts[m.ip as int] == Instr::Jz ==> {
            &&& flag == Val::Num(0) ==> next(m).0.ip == a as usize
            &&& flag != Val::Num(0) ==> next(m).0.ip == m.ip + 1
        },
{
}

/// Comparing two strings pops them and pushes 0 when they are the same text, every
/// character compared, and 1 when they differ anywhere.
pub proof fn law_compare_strings(m: Machine, x: Seq<char>, y: Seq<char>)
    requires
        running(m),
        m.insts.len() <= usize::MAX,
        m.insts[m.ip as int] == Instr::Cmp,
        m.stack.len() >= 2,
        m.stack[m.stack.len() - 1] == Val::Str(x),
        m.stack[m.stack.len() - 2] == Val::Str(y),
    ensures
        plain_step(m),
        next(m).0.stack.len() == m.stack.len() - 1,
        next(m).0.stack.subrange(0, m.stack.len() - 2) == below(m, 2),
        next(m).0.stack[m.stack.len() - 2] == Val::Num(0) || next(m).0.stack[m.stack.len() - 2]
            == Val::Num(1),
        next(m).0.stack[m.stack.len() - 2] == Val::Num(0) <==> (x.len() == y.len() && forall|
            k: int,
        | 0 <= k < x.len() ==> x[k] == y[k]),
{
    let r = next(m).0.stack[m.stack.len() - 2];
    assert(next(m).0.stack.subrange(0, m.stack.len() - 2) =~= below(m, 2));
    if x.len() == y.len() && forall|k: int| 0 <= k < x.len() ==> x[k] == y[k] {
        assert(x =~= y);
    }
}

/// `vswap` pops the name of a value stack variable and reverses that value stack:
/// its `i`-th value from the bottom becomes its `i`-th from the top. Nothing else
/// changes.
pub proof fn law_vswap_reverses(m: Machine, name: Seq<char>, vs: Seq<Val>)
    requires
        running(m),
        m.insts.len() <= usize::MAX,
        m.insts[m.ip as int] == Instr::VSwap,
        m.stack.len() >= 1,
        m.stack[m.stack.len() - 1] == Val::Str(name),
        m.vars.contains_key(name),
        m.vars[name] == Val::Stack(vs),
    ensures
        trap(m) is None,
        next(m).1 is Continue,
        next(m).0.ip == m.ip + 1,
        next(m).0.stack == below(m, 1),
        next(m).0.insts == m.insts && next(m).0.rets == m.rets && next(m).0.labels == m.labels
            && next(m).0.funcs == m.funcs,
        next(m).0.vars.dom() == m.vars.dom(),
        forall|k: Seq<char>| k != name && m.vars.contains_key(k) ==> #[trigger] next(m).0.vars[k]
            == m.vars[k],
        next(m).0.vars[name] is Stack,
        next(m).0.vars[name]->Stack_0.len() == vs.len(),
        forall|i: int|
            0 <= i < vs.len() ==> #[trigger] next(m).0.vars[name]->Stack_0[i] == vs[vs.len() - 1
                - i],
{
    assert(next(m).0.vars.dom() =~= m.vars.dom());
}

/// `strjoin` pops two strings and pushes the one under the top followed by the
/// top one: all the characters of each, in order, nothing dropped or added.
pub proof fn law_strjoin(m: Machine, x: Seq<char>, y: Seq<char>)
    requires
        running(m),
        m.insts.len() <= usize::MAX,
        m.insts[m.ip as int] == Instr::Strjoin,
        m.stack.len() >= 2,
        m.stack[m.stack.len() - 1] == Val::Str(x),
        m.stack[m.stack.len() - 2] == Val::Str(y),
    ensures
        plain_step(m),
        next(m).0.stack.len() == m.stack.len() - 1,
        next(m).0.stack.subrange(0, m.stack.len() - 2) == below(m, 2),
        next(m).0.stack[m.stack.len() - 2] is Str,
        next(m).0.stack[m.stack.len() - 2]->Str_0.len() == y.len() + x.len(),
        forall|k: int|
            0 <= k < y.len() ==> #[trigger] next(m).0.stack[m.stack.len() - 2]->Str_0[k] == y[k],
        forall|k: int|
            0 <= k < x.len() ==> #[trigger] next(m).0.stack[m.stack.len() - 2]->Str_0[y.len() + k]
                == x[k],
{
    assert(next(m).0.stack.subrange(0, m.stack.len() - 2) =~= below(m, 2));
}

/// A letter (either case) or a digit.
pub open spec fn word_char(ch: char) -> bool {
    ('a' <= ch && ch <= 'z') || ('A' <= ch && ch <= 'Z') || ('0' <= ch && ch <= '9')
}

/// A letter or digit never starts an error: the lexer reads a word there, up to
/// the last letter or digit of the run; with a `:` right after the run it is a
/// label that takes the colon too, else an identifier.
pub proof fn law_words_are_tokens(c: Seq<char>, i: int)
    requires
        0 <= i < c.len(),
        word_char(c[i]),
    ensures
        next_lexeme(c, i) matches Some((Ok(t), s, e)) && s == i && {
            let w = if t == Token::Label {
                e - 1
            } else {
                e
            };
            &&& t == Token::Ident || t == Token::Label
            &&& i < w <= c.len()
            &&& forall|k: int| i <= k < w ==> word_char(#[trigger] c[k])
            &&& w == c.len() || !word_char(c[w])
            &&& t == Token::Label <==> (w < c.len() && c[w] == ':')
        },
{
    lemma_scan_at(c, i);
    lemma_run_end(c, i + 1, CharClass::Alnum);
}

/// `add`, `sub` and `mul` pop the number `x` on top and the number `y` under it and
/// push `x + y`, `x - y` or `x * y` (the top is the left operand); a result outside
/// the `i32` range stops the program with an overflow instead.
pub proof fn law_arithmetic(m: Machine, x: i32, y: i32)
    requires
        running(m),
        m.insts.len() <= usize::MAX,
        m.insts[m.ip as int] == Instr::Add || m.insts[m.ip as int] == Instr::Sub
            || m.insts[m.ip as int] == Instr::Mul,
        m.stack.len() >= 2,
        m.stack[m.stack.len() - 1] == Val::Num(x),
        m.stack[m.stack.len() - 2] == Val::Num(y),
    ensures
        ({
            let exact = if m.insts[m.ip as int] == Instr::Add {
                x + y
            } else if m.insts[m.ip as int] == Instr::Sub {
                x - y
            } else {
                x * y
            };
            let op = if m.insts[m.ip as int] == Instr::Add {
                ArithOp::Add
            } else if m.insts[m.ip as int] == Instr::Sub {
                ArithOp::Sub
            } else {
                ArithOp::Mul
            };
            &&& i32::MIN <= exact <= i32::MAX ==> {
                &&& plain_step(m)
                &&& next(m).0.stack.len() == m.stack.len() - 1
                &&& next(m).0.stack.subrange(0, m.stack.len() - 2) == below(m, 2)
                &&& next(m).0.stack[m.stack.len() - 2] matches Val::Num(r) && r == exact
            }
            &&& !(i32::MIN <= exact <= i32::MAX) ==> trap(m) == Some(FaultView::Overflow(op))
        }),
{
    assert(next(m).0.stack.subrange(0, m.stack.len() - 2) =~= below(m, 2));
}

/// Truncating division: the remainder `x - q * y` is smaller than the divisor in
/// size and is zero or has the sign of `x`.
pub open spec fn truncated_quotient(x: int, y: int, q: int) -> bool {
    let rem = x - q * y;
    &&& (if rem >= 0 { rem } else { -rem }) < (if y >= 0 { y } else { -y })
    &&& rem == 0 || (rem > 0) == (x > 0)
}

proof fn lemma_trunc_div(x: int, y: int)
    requires
        y != 0,
    ensures
        truncated_quotient(x, y, crate::text::trunc_div(x, y)),
{
    let ax = if x >= 0 { x } else { -x };
    let ay = if y >= 0 { y } else { -y };
    vstd::arithmetic::div_mod::lemma_fundamental_div_mod(ax, ay);
    vstd::arithmetic::div_mod::lemma_mod_pos_bound(ax, ay);
    let q0 = ax / ay;
    let r0 = ax % ay;
    assert(ax == ay * q0 + r0);
    let q = crate::text::trunc_div(x, y);
    if x >= 0 && y > 0 {
        assert(q == q0);
        assert(x - q * y == r0) by (nonlinear_arith)
            requires x == ay * q0 + r0, ay == y, q == q0;
    } else if x < 0 && y < 0 {
        assert(q == q0);
        assert(x - q * y == -r0) by (nonlinear_arith)
            requires -x == ay * q0 + r0, ay == -y, q == q0;
    } else if x == 0 {
        assert(ax == 0);
        vstd::arithmetic::div_mod::lemma_div_of0(ay);
        assert(q == 0);
        assert(x - q * y == 0) by (nonlinear_arith)
            requires x == 0, q == 0;
    } else if x >= 0 {
        assert(q == -q0);
        assert(x - q * y == r0) by (nonlinear_arith)
            requires x == ay * q0 + r0, ay == -y, q == -q0;
    } else {
        assert(q == -q0);
        assert(x - q * y == -r0) by (nonlinear_arith)
            requires -x == ay * q0 + r0, ay == y, q == -q0;
    }
}

/// `div` pops the number `x` on top and the number `y` under it and pushes `x / y`
/// rounded toward zero; dividing by zero, or `i32::MIN` by `-1`, stops the program.
pub proof fn law_division(m: Machine, x: i32, y: i32)
    requires
        running(m),
        m.insts.len() <= usize::MAX,
        m.insts[m.ip as int] == Instr::Div,
        m.stack.len() >= 2,
        m.stack[m.stack.len() - 1] == Val::Num(x),
        m.stack[m.stack.len() - 2] == Val::Num(y),
    ensures
        y == 0 ==> trap(m) == Some(FaultView::DivideByZero),
        x == i32::MIN && y == -1 ==> trap(m) == Some(FaultView::Overflow(ArithOp::Div)),
        y != 0 && !(x == i32::MIN && y == -1) ==> {
            &&& plain_step(m)
            &&& next(m).0.stack.len() == m.stack.len() - 1
            &&& next(m).0.stack.subrange(0, m.stack.len() - 2) == below(m, 2)
            &&& next(m).0.stack[m.stack.len() - 2] matches Val::Num(q) && truncated_quotient(
                x as int,
                y as int,
                q as int,
            )
        },
{
    assert(next(m).0.stack.subrange(0, m.stack.len() - 2) =~= below(m, 2));
    if y != 0 {
        lemma_trunc_div(x as int, y as int);
        let t = crate::text::trunc_div(x as int, y as int);
        if !(x == i32::MIN && y == -1) {
            lemma_trunc_div_fits(x, y);
        } else {
            assert(t == 0x8000_0000) by {
                vstd::arithmetic::div_mod::lemma_div_by_self(0x8000_0000);
            }
        }
    }
}

proof fn lemma_trunc_div_fits(x: i32, y: i32)
    requires
        y != 0,
        !(x == i32::MIN && y == -1),
    ensures
        i32::MIN <= crate::text::trunc_div(x as int, y as int) <= i32::MAX,
{
    let ax: int = if x >= 0 { x as int } else { -(x as int) };
    let ay: int = if y >= 0 { y as int } else { -(y as int) };
    vstd::arithmetic::div_mod::lemma_div_basics_5(ax, ay);
    if ay > 1 && ax > 0 {
        vstd::arithmetic::div_mod::lemma_div_is_strictly_smaller(ax, ay);
    }
    if ay == 1 {
        vstd::arithmetic::div_mod::lemma_div_basics(ax);
    }
}

/// `jmp` pops the number `a` on top and continues at instruction `a`.
pub proof fn law_jump(m: Machine, a: i32)
    requires
        running(m),
        m.insts.len() <= usize::MAX,
        m.insts[m.ip as int] == Instr::Jmp,
        m.stack.len() >= 1,
        m.stack[m.stack.len() - 1] == Val::Num(a),
    ensures
        trap(m) is None,
        next(m).1 is Continue,
        next(m).0.ip == a as usize,
        next(m).0.stack == below(m, 1),
        same_tables(m, next(m).0),
{
}

/// `dup` pushes a copy of the top; `pop` drops it; `swap` reverses the whole
/// value stack, its `i`-th value from the bottom becoming its `i`-th from the top.
pub proof fn law_stack_shuffles(m: Machine)
    requires
        running(m),
        m.insts.len() <= usize::MAX,
        m.stack.len() >= 1,
    ensures
        m.insts[m.ip as int] == Instr::Dup ==> plain_step(m) && next(m).0.stack == m.stack.push(
            m.stack[m.stack.len() - 1],
        ),
        m.insts[m.ip as int] == Instr::Pop ==> plain_step(m) && next(m).0.stack == below(m, 1),
        m.insts[m.ip as int] == Instr::Swap ==> {
            &&& plain_step(m)
            &&& next(m).0.stack.len() == m.stack.len()
            &&& forall|i: int|
                0 <= i < m.stack.len() ==> #[trigger] next(m).0.stack[i] == m.stack[m.stack.len()
                    - 1 - i]
        },
{
}

/// `vpop` pops the name of a value stack variable and drops that value stack's top
/// value, if it has one; `vslen` pops the name and pushes how many values the
/// value stack holds.
pub proof fn law_vpop_and_vslen(m: Machine, name: Seq<char>, vs: Seq<Val>)
    requires
        running(m),
        m.insts.len() <= usize::MAX,
        m.stack.len() >= 1,
        m.stack[m.stack.len() - 1] == Val::Str(name),
        m.vars.contains_key(name),
        m.vars[name] == Val::Stack(vs),
        vs.len() <= i32::MAX,
    ensures
        m.insts[m.ip as int] == Instr::VPop ==> {
            &&& trap(m) is None
            &&& next(m).1 is Continue
            &&& next(m).0.ip == m.ip + 1
            &&& next(m).0.stack == below(m, 1)
            &&& next(m).0.vars == m.vars.insert(
                name,
                Val::Stack(if vs.len() == 0 { vs } else { vs.subrange(0, vs.len() - 1) }),
            )
        },
        m.insts[m.ip as int] == Instr::VStacklen ==> {
            &&& plain_step(m)
            &&& next(m).0.stack == below(m, 1).push(Val::Num(vs.len() as i32))
            &&& next(m).0.stack.last() matches Val::Num(k) && k == vs.len()
        },
{
}

/// `stacklen` pushes how many values the value stack held; a label address pushes
/// the position that the label maps to; loading pushes the literal.
pub proof fn law_pushes(m: Machine, name: Seq<char>, k: i32, t: Seq<char>)
    requires
        running(m),
        m.insts.len() <= usize::MAX,
    ensures
        m.insts[m.ip as int] == Instr::Stacklen && m.stack.len() <= i32::MAX ==> plain_step(m)
            && next(m).0.stack.len() == m.stack.len() + 1 && next(m).0.stack.subrange(
            0,
            m.stack.len() as int,
        ) == m.stack && next(m).0.stack.last() is Num && next(m).0.stack.last()->Num_0
            == m.stack.len(),
        m.insts[m.ip as int] == Instr::LabelAddress(name) && m.labels.contains_key(name)
            && m.labels[name] <= i32::MAX ==> plain_step(m) && next(m).0.stack.len() == m.stack.len()
            + 1 && next(m).0.stack.subrange(0, m.stack.len() as int) == m.stack && next(
            m,
        ).0.stack.last() is Num && next(m).0.stack.last()->Num_0 == m.labels[name],
        m.insts[m.ip as int] == Instr::LoadNumber(k) ==> plain_step(m) && next(m).0.stack
            == m.stack.push(Val::Num(k)),
        m.insts[m.ip as int] == Instr::LoadString(t) ==> plain_step(m) && next(m).0.stack
            == m.stack.push(Val::Str(t)),
{
    assert(m.stack.push(Val::Num(0)).subrange(0, m.stack.len() as int) =~= m.stack);
    if m.insts[m.ip as int] == Instr::LabelAddress(name) {
        assert(next(m).0.stack.subrange(0, m.stack.len() as int) =~= m.stack);
    }
    if m.insts[m.ip as int] == Instr::Stacklen {
        assert(next(m).0.stack.subrange(0, m.stack.len() as int) =~= m.stack);
    }
}

/// `ret` continues at the address on top of the return stack and pops it; a call
/// of a custom instruction defined by a label pushes the address after the call
/// and continues at the label; one that the host provides is handed to the host.
pub proof fn law_calls_and_returns(m: Machine, name: Seq<char>)
    requires
        running(m),
        m.insts.len() <= usize::MAX,
    ensures
        m.insts[m.ip as int] == Instr::Ret && m.rets.len() > 0 ==> {
            &&& trap(m) is None
            &&& next(m).1 is Continue
            &&& next(m).0.ip == m.rets[m.rets.len() - 1]
            &&& next(m).0.rets == m.rets.subrange(0, m.rets.len() - 1)
            &&& next(m).0.stack == m.stack && next(m).0.vars == m.vars
        },
        m.insts[m.ip as int] == Instr::Ret && m.rets.len() == 0 ==> trap(m) == Some(
            FaultView::ReturnStackUnderflow,
        ),
        m.insts[m.ip as int] == Instr::CustomInstruction(name) && !m.funcs.contains(name)
            && m.labels.contains_key(name) ==> {
            &&& trap(m) is None
            &&& next(m).1 is Continue
            &&& next(m).0.ip == m.labels[name]
            &&& next(m).0.rets == m.rets.push((m.ip + 1) as usize)
            &&& next(m).0.stack == m.stack && next(m).0.vars == m.vars
        },
        m.insts[m.ip as int] == Instr::CustomInstruction(name) && m.funcs.contains(name) ==> {
            &&& trap(m) is None
            &&& next(m).1 == Effect::Call(name)
            &&& next(m).0.ip == m.ip + 1
            &&& same_tables(m, next(m).0) && next(m).0.stack == m.stack
        },
        m.insts[m.ip as int] == Instr::CustomInstruction(name) && !m.funcs.contains(name)
            && !m.labels.contains_key(name) ==> trap(m) == Some(FaultView::NoEntry),
{
}

/// `put` pops the top and hands it to the host to print; `endl`, `in` and
/// `stackdmp` ask the host to end the line, read a line, and print the stack.
pub proof fn law_host_requests(m: Machine)
    requires
        running(m),
        m.insts.len() <= usize::MAX,
    ensures
        m.insts[m.ip as int] == Instr::Put && m.stack.len() >= 1 ==> {
            &&& trap(m) is None
            &&& next(m).1 == Effect::Print(m.stack[m.stack.len() - 1])
            &&& next(m).0.ip == m.ip + 1
            &&& next(m).0.stack == below(m, 1) && same_tables(m, next(m).0)
        },
        m.insts[m.ip as int] == Instr::Put && m.stack.len() == 0 ==> trap(m) is Some,
        m.insts[m.ip as int] == Instr::Endl ==> trap(m) is None && next(m).1 == Effect::Newline
            && next(m).0 == (Machine { ip: (m.ip + 1) as usize, ..m }),
        m.insts[m.ip as int] == Instr::In ==> trap(m) is None && next(m).1 == Effect::ReadLine
            && next(m).0 == (Machine { ip: (m.ip + 1) as usize, ..m }),
        m.insts[m.ip as int] == Instr::Stackdmp ==> trap(m) is None && next(m).1 == Effect::Dump
            && next(m).0 == (Machine { ip: (m.ip + 1) as usize, ..m }),
{
}

/// `strat` pops the number `i` on top and the string under it and pushes the
/// string made of the string's `i`-th character alone.
pub proof fn law_strat(m: Machine, i: i32, t: Seq<char>)
    requires
        running(m),
        m.insts.len() <= usize::MAX,
        m.insts[m.ip as int] == Instr::Strat,
        m.stack.len() >= 2,
        m.stack[m.stack.len() - 1] == Val::Num(i),
        m.stack[m.stack.len() - 2] == Val::Str(t),
        0 <= i,
    ensures
        i < t.len() ==> {
            &&& plain_step(m)
            &&& next(m).0.stack.len() == m.stack.len() - 1
            &&& next(m).0.stack.subrange(0, m.stack.len() - 2) == below(m, 2)
            &&& next(m).0.stack[m.stack.len() - 2] matches Val::Str(w) && w.len() == 1 && w[0]
                == t[i as int]
        },
        i >= t.len() ==> trap(m) == Some(FaultView::IndexOutOfBounds),
{
    assert(next(m).0.stack.subrange(0, m.stack.len() - 2) =~= below(m, 2));
}

/// Declaring a variable gives it the number 0; declaring a value stack gives it an
/// empty one. Writing stores the popped top in a plain variable and pushes it onto
/// a value stack.
pub proof fn law_declare_and_write(m: Machine, name: Seq<char>)
    requires
        running(m),
        m.insts.len() <= usize::MAX,
    ensures
        m.insts[m.ip as int] == Instr::DefineVar(name) ==> trap(m) is None && next(m).0 == (
        Machine { ip: (m.ip + 1) as usize, vars: m.vars.insert(name, Val::Num(0)), ..m }),
        m.insts[m.ip as int] == Instr::DefineVStack(name) ==> trap(m) is None && next(m).0
            == (Machine {
            ip: (m.ip + 1) as usize,
            vars: m.vars.insert(name, Val::Stack(Seq::empty())),
            ..m
        }),
        m.insts[m.ip as int] == Instr::WriteVar(name) && m.stack.len() >= 1
            && m.vars.contains_key(name) ==> {
            &&& trap(m) is None
            &&& next(m).1 is Continue
            &&& next(m).0.stack == below(m, 1)
            &&& !(m.vars[name] is Stack) ==> next(m).0.vars == m.vars.insert(
                name,
                m.stack[m.stack.len() - 1],
            )
            &&& m.vars[name] matches Val::Stack(vs) ==> next(m).0.vars == m.vars.insert(
                name,
                Val::Stack(vs.push(m.stack[m.stack.len() - 1])),
            )
        },
        m.insts[m.ip as int] == Instr::ReadVar(name) && m.vars.contains_key(name) ==> {
            &&& !(m.vars[name] is Stack) ==> trap(m) is None && next(m).0.stack == m.stack.push(
                m.vars[name],
            ) && next(m).0.vars == m.vars
            &&& m.vars[name] is Stack && m.vars[name]->Stack_0.len() > 0 ==> {
                let vs = m.vars[name]->Stack_0;
                &&& trap(m) is None
                &&& next(m).0.stack == m.stack.push(vs[vs.len() - 1])
                &&& next(m).0.vars == m.vars.insert(name, Val::Stack(vs.subrange(0, vs.len() - 1)))
            }
            &&& m.vars[name] is Stack && m.vars[name]->Stack_0.len() == 0 ==> trap(m) == Some(
                FaultView::VStackUnderflow,
            )
        },
{
}

proof fn lemma_run_end_is(c: Seq<char>, i: int, class: CharClass, j: int)
    requires
        0 <= i <= j <= c.len(),
        forall|k: int| i <= k < j ==> in_class(class, #[trigger] c[k]),
        j == c.len() || !in_class(class, c[j]),
    ensures
        run_end(c, i, class) == j,
    decreases j - i,
{
    if i < j {
        lemma_run_end_is(c, i + 1, class, j);
    }
}

/// Each of `$`, `%`, `>` and `<` is a token of one character.
pub proof fn law_lexer_sigils(c: Seq<char>, i: int)
    requires
        0 <= i < c.len(),
    ensures
        c[i] == '$' ==> next_lexeme(c, i) == Some((Ok::<Token, ()>(Token::Dollar), i, i + 1)),
        c[i] == '%' ==> next_lexeme(c, i) == Some((Ok::<Token, ()>(Token::Percent), i, i + 1)),
        c[i] == '>' ==> next_lexeme(c, i) == Some((Ok::<Token, ()>(Token::Greater), i, i + 1)),
        c[i] == '<' ==> next_lexeme(c, i) == Some((Ok::<Token, ()>(Token::Less), i, i + 1)),
{
    lemma_scan_at(c, i);
}

/// `@` before a letter or digit starts a label address that takes the whole run of
/// letters and digits after it.
pub proof fn law_lexer_label_address(c: Seq<char>, i: int)
    requires
        0 <= i < c.len(),
        c[i] == '@',
        i + 1 < c.len(),
        word_char(c[i + 1]),
    ensures
        next_lexeme(c, i) matches Some((Ok(Token::LabelAdress), s, e)) && s == i && i + 2 <= e
            <= c.len() && (forall|k: int| i + 1 <= k < e ==> word_char(#[trigger] c[k])) && (e
            == c.len() || !word_char(c[e])),
{
    lemma_scan_at(c, i);
    lemma_run_end(c, i + 2, CharClass::Alnum);
}

/// `#` before a character from `0` to `f` starts a number that takes the whole run
/// of such characters.
pub proof fn law_lexer_number(c: Seq<char>, i: int)
    requires
        0 <= i < c.len(),
        c[i] == '#',
        i + 1 < c.len(),
        '0' <= c[i + 1] && c[i + 1] <= 'f',
    ensures
        next_lexeme(c, i) matches Some((Ok(Token::Number), s, e)) && s == i && i + 2 <= e
            <= c.len() && (forall|k: int| i + 1 <= k < e ==> '0' <= #[trigger] c[k] && c[k] <= 'f')
            && (e == c.len() || !('0' <= c[e] && c[e] <= 'f')),
{
    lemma_scan_at(c, i);
    lemma_run_end(c, i + 2, CharClass::NumberChar);
}

/// `#include` is the include token.
pub proof fn law_lexer_include(c: Seq<char>, i: int)
    requires
        0 <= i,
        i + 8 <= c.len(),
        c[i] == '#',
        c.subrange(i + 1, i + 8) == seq!['i', 'n', 'c', 'l', 'u', 'd', 'e'],
    ensures
        next_lexeme(c, i) == Some((Ok::<Token, ()>(Token::Include), i, i + 8)),
{
    lemma_scan_at(c, i);
    assert(c[i + 1] == c.subrange(i + 1, i + 8)[0]);
    lemma_include_is(c, i + 1);
}

/// A double quote starts a string that ends at the next double quote.
pub proof fn law_lexer_string(c: Seq<char>, i: int, q: int)
    requires
        0 <= i < q < c.len(),
        c[i] == '"',
        c[q] == '"',
        forall|k: int| i < k < q ==> #[trigger] c[k] != '"',
    ensures
        next_lexeme(c, i) == Some((Ok::<Token, ()>(Token::String), i, q + 1)),
{
    lemma_scan_at(c, i);
    lemma_run_end_is(c, i + 1, CharClass::NotQuote, q);
}

/// A blank (space, tab, newline or form feed) is skipped.
pub proof fn law_lexer_blank(c: Seq<char>, i: int)
    requires
        0 <= i < c.len(),
        c[i] == ' ' || c[i] == '\t' || c[i] == '\n' || c[i] == '\u{c}',
    ensures
        next_lexeme(c, i) == next_lexeme(c, i + 1),
{
    lemma_scan_at(c, i);
    lemma_run_end(c, i + 1, CharClass::Blank);
    if i + 1 < c.len() {
        lemma_scan_at(c, i + 1);
        if in_class(CharClass::Blank, c[i + 1]) {
            assert(run_end(c, i + 1, CharClass::Blank) == run_end(c, i + 2, CharClass::Blank));
        } else {
            assert(run_end(c, i + 1, CharClass::Blank) == i + 1);
        }
    }
}

/// `//` skips the rest of the line: reading goes on at the next newline, or finds
/// nothing more when there is none.
pub proof fn law_lexer_comment(c: Seq<char>, i: int, j: int)
    requires
        0 <= i,
        i + 2 <= j <= c.len(),
        c[i] == '/',
        c[i + 1] == '/',
        j == c.len() || c[j] == '\n',
        forall|k: int| i + 2 <= k < j ==> #[trigger] c[k] != '\n',
    ensures
        next_lexeme(c, i) == next_lexeme(c, j),
        j == c.len() ==> next_lexeme(c, i) is None,
{
    lemma_scan_at(c, i);
    lemma_run_end_is(c, i + 2, CharClass::NotNewline, j);
    assert(scan_at(c, i) == (Scan::Skip, j));
}

/// A `/` that does not start `//` is an error of one character.
pub proof fn law_lexer_lone_slash(c: Seq<char>, i: int)
    requires
        0 <= i < c.len(),
        c[i] == '/',
        !(i + 1 < c.len() && c[i + 1] == '/'),
    ensures
        next_lexeme(c, i) == Some((Err::<Token, ()>(()), i, i + 1)),
{
    lemma_scan_at(c, i);
}

proof fn lemma_include_is(c: Seq<char>, i: int)
    requires
        0 <= i,
        i + 7 <= c.len(),
        c.subrange(i, i + 7) == include_word(),
    ensures
        include_len(c, i, 0) == 7,
{
    assert(c[i] == c.subrange(i, i + 7)[0]);
    assert(c[i + 1] == c.subrange(i, i + 7)[1]);
    assert(c[i + 2] == c.subrange(i, i + 7)[2]);
    assert(c[i + 3] == c.subrange(i, i + 7)[3]);
    assert(c[i + 4] == c.subrange(i, i + 7)[4]);
    assert(c[i + 5] == c.subrange(i, i + 7)[5]);
    assert(c[i + 6] == c.subrange(i, i + 7)[6]);
    assert(include_len(c, i, 7) == 7);
    assert(include_len(c, i, 6) == 7);
    assert(include_len(c, i, 5) == 7);
    assert(include_len(c, i, 4) == 7);
    assert(include_len(c, i, 3) == 7);
    assert(include_len(c, i, 2) == 7);
    assert(include_len(c, i, 1) == 7);
}

/// How many bytes the UTF-8 encoding of `ch` takes.
pub open spec fn utf8_width(ch: char) -> int {
    if (ch as u32) < 0x80 {
        1
    } else if (ch as u32) < 0x800 {
        2
    } else if (ch as u32) < 0x10000 {
        3
    } else {
        4
    }
}

/// How many bytes the UTF-8 encoding of `t` takes.
pub open spec fn utf8_length(t: Seq<char>) -> int
    decreases t.len(),
{
    if t.len() == 0 {
        0
    } else {
        utf8_width(t[0]) + utf8_length(t.drop_first())
    }
}

proof fn lemma_utf8_length(t: Seq<char>)
    ensures
        encode_utf8(t).len() == utf8_length(t),
    decreases t.len(),
{
    if t.len() > 0 {
        lemma_utf8_length(t.drop_first());
        vstd::utf8::char_is_scalar(t[0]);
        let v = t[0] as u32;
        assert(vstd::utf8::encode_scalar(v).len() == utf8_width(t[0]));
        assert(encode_utf8(t) == vstd::utf8::encode_scalar(v) + encode_utf8(t.drop_first()));
    }
}

/// `strlen` pops a string and pushes the number of bytes of its UTF-8 encoding:
/// one for each character below `0x80`, two below `0x800`, three below `0x10000`
/// and four for the others.
pub proof fn law_strlen(m: Machine, t: Seq<char>)
    requires
        running(m),
        m.insts.len() <= usize::MAX,
        m.insts[m.ip as int] == Instr::Strlen,
        m.stack.len() >= 1,
        m.stack[m.stack.len() - 1] == Val::Str(t),
        utf8_length(t) <= i32::MAX,
    ensures
        plain_step(m),
        next(m).0.stack.len() == m.stack.len(),
        next(m).0.stack.subrange(0, m.stack.len() - 1) == below(m, 1),
        next(m).0.stack[m.stack.len() - 1] is Num,
        next(m).0.stack[m.stack.len() - 1]->Num_0 == utf8_length(t),
{
    lemma_utf8_length(t);
    assert(next(m).0.stack.subrange(0, m.stack.len() - 1) =~= below(m, 1));
}

/// Whether `ch` is a decimal digit.
pub open spec fn is_decimal_char(ch: char) -> bool {
    '0' <= ch && ch <= '9'
}

/// The number that the decimal digits `d` write, most significant first.
pub open spec fn decimal_value(d: Seq<char>) -> int
    decreases d.len(),
{
    if d.len() == 0 {
        0
    } else {
        10 * decimal_value(d.drop_last()) + (d.last() as int - 48)
    }
}

proof fn lemma_decimal_value(d: Seq<char>)
    ensures
        (forall|k: int| 0 <= k < d.len() ==> is_decimal_char(#[trigger] d[k])) ==> digits_value(
            d,
            10,
        ) == Some(decimal_value(d)),
        (exists|k: int| 0 <= k < d.len() && !is_decimal_char(#[trigger] d[k])) ==> digits_value(
            d,
            10,
        ) is None,
    decreases d.len(),
{
    if d.len() > 0 {
        lemma_decimal_value(d.drop_last());
        assert forall|k: int| 0 <= k < d.len() - 1 implies d.drop_last()[k] == #[trigger] d[k] by {}
        if exists|k: int| 0 <= k < d.len() && !is_decimal_char(#[trigger] d[k]) {
            let k = choose|k: int| 0 <= k < d.len() && !is_decimal_char(#[trigger] d[k]);
            if k < d.len() - 1 {
                assert(!is_decimal_char(d.drop_last()[k]));
            }
        }
    }
}


/// Cutting white space from both ends of `t` leaves `t[a..b]` when all of `t`
/// before `a` and from `b` on is white space and `t[a..b]` is empty or starts and
/// ends with a character that is not.
pub proof fn law_trim(t: Seq<char>, a: int, b: int)
    requires
        0 <= a <= b <= t.len(),
        forall|k: int| 0 <= k < a ==> is_white_space(#[trigger] t[k]),
        forall|k: int| b <= k < t.len() ==> is_white_space(#[trigger] t[k]),
        a < b ==> !is_white_space(t[a]) && !is_white_space(t[b - 1]),
    ensures
        trim(t) == t.subrange(a, b),
{
    let u = t.subrange(a, b);
    lemma_trim_start_skip(t, a);
    let rest = t.subrange(a, t.len() as int);
    if a < b {
        assert(rest[0] == t[a]);
        assert(trim_start(rest) == rest);
    } else {
        lemma_trim_start_skip(rest, rest.len() as int);
        assert(rest.subrange(rest.len() as int, rest.len() as int) =~= Seq::<char>::empty());
    }
    assert forall|k: int| b - a <= k < rest.len() implies is_white_space(#[trigger] rest[k]) by {
        assert(rest[k] == t[a + k]);
    }
    lemma_trim_end_cut(rest, b - a);
    assert(rest.subrange(0, b - a) =~= u);
    if a < b {
        assert(u.last() == t[b - 1]);
        assert(trim_end(u) == u);
    } else {
        assert(u =~= Seq::<char>::empty());
        assert(trim_start(rest) =~= Seq::<char>::empty());
    }
    assert(trim(t) == u);
}

/// The digits of `u`, after an optional `+` or `-`.
pub open spec fn decimal_digits(u: Seq<char>) -> Seq<char> {
    if u.len() > 0 && (u[0] == '+' || u[0] == '-') {
        u.subrange(1, u.len() as int)
    } else {
        u
    }
}

/// Whether every character of `d` is a decimal digit.
pub open spec fn all_decimal(d: Seq<char>) -> bool {
    forall|k: int| 0 <= k < d.len() ==> is_decimal_char(#[trigger] d[k])
}

/// The value that `u` writes: an optional `+` or `-`, then one or more decimal
/// digits, the value within the `i32` range; `None` for any other text.
pub open spec fn signed_decimal(u: Seq<char>) -> Option<int> {
    let d = decimal_digits(u);
    let value = if u.len() > 0 && u[0] == '-' {
        -decimal_value(d)
    } else {
        decimal_value(d)
    };
    if d.len() > 0 && all_decimal(d) && i32::MIN <= value <= i32::MAX {
        Some(value)
    } else {
        None
    }
}

/// `s2n` pops a string and pushes the number it writes in decimal, once white space
/// is cut from both ends: an optional `+` or `-`, then one or more decimal digits,
/// the value within the `i32` range. Any other text stops the program. Here the
/// string is `t`, and `t[a..b]` is what is left after cutting white space.
pub proof fn law_str2num(m: Machine, t: Seq<char>, a: int, b: int)
    requires
        running(m),
        m.insts.len() <= usize::MAX,
        m.insts[m.ip as int] == Instr::Str2num,
        m.stack.len() >= 1,
        m.stack[m.stack.len() - 1] == Val::Str(t),
        0 <= a <= b <= t.len(),
        forall|k: int| 0 <= k < a ==> is_white_space(#[trigger] t[k]),
        forall|k: int| b <= k < t.len() ==> is_white_space(#[trigger] t[k]),
        a < b ==> !is_white_space(t[a]) && !is_white_space(t[b - 1]),
    ensures
        signed_decimal(t.subrange(a, b)) matches Some(value) ==> {
            &&& plain_step(m)
            &&& next(m).0.stack.len() == m.stack.len()
            &&& next(m).0.stack.subrange(0, m.stack.len() - 1) == below(m, 1)
            &&& next(m).0.stack[m.stack.len() - 1] is Num
            &&& next(m).0.stack[m.stack.len() - 1]->Num_0 == value
        },
        signed_decimal(t.subrange(a, b)) is None ==> trap(m) == Some(FaultView::InvalidNumber),
{
    let u = t.subrange(a, b);
    law_trim(t, a, b);
    let digits = decimal_digits(u);
    assert(u.len() > 0 && (u[0] == '+' || u[0] == '-') ==> u.drop_first() =~= digits);
    lemma_decimal_value(digits);
    assert(next(m).0.stack.subrange(0, m.stack.len() - 1) =~= below(m, 1));
    if !all_decimal(digits) {
        let k = choose|k: int| 0 <= k < digits.len() && !is_decimal_char(#[trigger] digits[k]);
        assert(!is_decimal_char(digits[k]));
    }
}

/// When a step stops the program, and with which fault: too few values, values of
/// the wrong kind, unknown names, and indexes out of range.
pub proof fn law_faults(m: Machine, name: Seq<char>)
    requires
        running(m),
    ensures
        ({
            let i = m.insts[m.ip as int];
            let n = m.stack.len();
            &&& i == Instr::Add && n < 2 ==> trap(m) == Some(FaultView::StackUnderflow(Site::Add))
            &&& i == Instr::Sub && n < 2 ==> trap(m) == Some(FaultView::StackUnderflow(Site::Sub))
            &&& i == Instr::Mul && n < 2 ==> trap(m) == Some(FaultView::StackUnderflow(Site::Mul))
            &&& i == Instr::Div && n < 2 ==> trap(m) == Some(FaultView::StackUnderflow(Site::Mul))
            &&& (i == Instr::Add || i == Instr::Sub || i == Instr::Mul || i == Instr::Div) && n >= 2
                && (!(m.stack[n - 1] is Num) || !(m.stack[n - 2] is Num)) ==> trap(m) is Some
                && trap(m)->0 is IncorrectArguments
            &&& i == Instr::Dup && n == 0 ==> trap(m) == Some(FaultView::DupUnderflow)
            &&& i == Instr::Pop && n == 0 ==> trap(m) == Some(FaultView::PopUnderflow)
            &&& i == Instr::Jmp && n == 0 ==> trap(m) == Some(FaultView::JmpUnderflow)
            &&& i == Instr::Jz && n < 2 ==> trap(m) == Some(FaultView::JzUnderflow)
            &&& i == Instr::Jnz && n < 2 ==> trap(m) == Some(FaultView::JnzUnderflow)
            &&& (i == Instr::Jmp && n >= 1 || (i == Instr::Jz || i == Instr::Jnz) && n >= 2) && !(
            m.stack[n - 1] is Num) ==> trap(m) == Some(FaultView::JumpToString)
            &&& i == Instr::Str2num && n == 0 ==> trap(m) == Some(FaultView::S2nUnderflow)
            &&& i == Instr::Str2num && n > 0 && m.stack[n - 1] is Num ==> trap(m) == Some(
                FaultView::NumberToNumber,
            )
            &&& i == Instr::Str2num && n > 0 && m.stack[n - 1] is Stack ==> trap(m) == Some(
                FaultView::VStackToNumber,
            )
            &&& (i == Instr::Strat || i == Instr::Strjoin) && n < 2 ==> trap(m) is Some && trap(
                m,
            )->0 is StackUnderflow
            &&& i == Instr::Strat && n >= 2 && (!(m.stack[n - 1] is Num) || !(m.stack[n - 2] is Str))
                ==> trap(m) == Some(FaultView::IncorrectArguments(Site::Strat))
            &&& i == Instr::Strjoin && n >= 2 && (!(m.stack[n - 1] is Str) || !(m.stack[n
                - 2] is Str)) ==> trap(m) == Some(FaultView::IncorrectArguments(Site::Strjoin))
            &&& i == Instr::Strlen && n == 0 ==> trap(m) == Some(
                FaultView::StackUnderflow(Site::Strlen),
            )
            &&& i == Instr::Strlen && n > 0 && !(m.stack[n - 1] is Str) ==> trap(m) == Some(
                FaultView::IncorrectArguments(Site::Strlen),
            )
            &&& i == Instr::Put && n == 0 ==> trap(m) == Some(FaultView::StackUnderflow(Site::Put))
            &&& i == Instr::Cmp && n < 2 ==> trap(m) == Some(FaultView::StackUnderflow(Site::Cmp))
            &&& i == Instr::Cmp && n >= 2 && m.stack[n - 1] is Str && m.stack[n - 2] is Num
                ==> trap(m) == Some(FaultView::CompareStringNumber)
            &&& i == Instr::Cmp && n >= 2 && m.stack[n - 1] is Num && m.stack[n - 2] is Str
                ==> trap(m) == Some(FaultView::CompareNumberString)
            &&& i == Instr::Cmp && n >= 2 && m.stack[n - 1] is Stack ==> trap(m) == Some(
                FaultView::CompareVStack,
            )
            &&& (i == Instr::VSwap || i == Instr::VPop || i == Instr::VStacklen) && n >= 1
                && m.stack[n - 1] == Val::Str(name) && !m.vars.contains_key(name) ==> trap(m)
                == Some(FaultView::NoEntry)
            &&& (i == Instr::VSwap || i == Instr::VPop || i == Instr::VStacklen) && n >= 1
                && m.stack[n - 1] == Val::Str(name) && m.vars.contains_key(name) && !(
            m.vars[name] is Stack) ==> trap(m) is Some && trap(m)->0 is NotAVStack
            &&& i == Instr::ReadVar(name) && !m.vars.contains_key(name) ==> trap(m) == Some(
                FaultView::UnknownVariable(name),
            )
            &&& i == Instr::WriteVar(name) && n >= 1 && !m.vars.contains_key(name) ==> trap(m)
                == Some(FaultView::UnknownVariable(name))
            &&& i == Instr::WriteVar(name) && n == 0 ==> trap(m) == Some(
                FaultView::StackUnderflow(Site::WriteVar),
            )
            &&& i == Instr::LabelAddress(name) && !m.labels.contains_key(name) ==> trap(m) == Some(
                FaultView::NoEntry,
            )
        }),
{
}

/// Comparing two numbers pops the number `x` on top and the number `y` under it
/// and pushes `x - y`; a difference outside the `i32` range stops the program.
pub proof fn law_compare_numbers(m: Machine, x: i32, y: i32)
    requires
        running(m),
        m.insts.len() <= usize::MAX,
        m.insts[m.ip as int] == Instr::Cmp,
        m.stack.len() >= 2,
        m.stack[m.stack.len() - 1] == Val::Num(x),
        m.stack[m.stack.len() - 2] == Val::Num(y),
    ensures
        i32::MIN <= x - y <= i32::MAX ==> {
            &&& plain_step(m)
            &&& next(m).0.stack.len() == m.stack.len() - 1
            &&& next(m).0.stack.subrange(0, m.stack.len() - 2) == below(m, 2)
            &&& next(m).0.stack[m.stack.len() - 2] is Num
            &&& next(m).0.stack[m.stack.len() - 2]->Num_0 == x - y
        },
        !(i32::MIN <= x - y <= i32::MAX) ==> trap(m) == Some(FaultView::Overflow(ArithOp::Sub)),
{
    assert(next(m).0.stack.subrange(0, m.stack.len() - 2) =~= below(m, 2));
}

/// How a run of steps ends: it finishes only once the instruction pointer has left
/// the program; it stops at a fault with the faulting instruction still to run and
/// the state as it was; it hands the host only requests that are not plain
/// continuations; it runs out of steps only with an instruction left to run; and a
/// step that asks nothing of the host is followed by the rest of the run.
pub proof fn law_run_ends(m: Machine, fuel: nat)
    ensures
        run(m, fuel).1 is Finished ==> !running(run(m, fuel).0),
        run(m, fuel).1 is OutOfFuel ==> running(run(m, fuel).0),
        run(m, fuel).1 matches Stop::Faulted(f) ==> running(run(m, fuel).0) && trap(
            run(m, fuel).0,
        ) == Some(f),
        run(m, fuel).1 matches Stop::Acted(e) ==> !(e is Continue),
        !running(m) ==> run(m, fuel) == (m, Stop::Finished),
        running(m) && fuel == 0 ==> run(m, fuel) == (m, Stop::OutOfFuel),
        running(m) && fuel > 0 && trap(m) is None && next(m).1 is Continue ==> run(m, fuel) == run(
            next(m).0,
            (fuel - 1) as nat,
        ),
        running(m) && fuel > 0 && trap(m) is None && !(next(m).1 is Continue) ==> run(m, fuel) == (
            next(m).0,
            Stop::Acted(next(m).1),
        ),
    decreases fuel,
{
    if running(m) && fuel > 0 && trap(m) is None && next(m).1 is Continue {
        law_run_ends(next(m).0, (fuel - 1) as nat);
    }
}

} // verus!
