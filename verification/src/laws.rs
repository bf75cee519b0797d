//! Properties of the language that span several steps or every program.
use vstd::prelude::*;
use crate::parser::{Instr, parse_from, parse_step, Parsed, lemma_parse_step};
use crate::semantics::{Machine, Effect, Stop, next, trap, top, running, run};
use crate::value::Val;
use crate::interpreter::label_scan;
use crate::lexer::{
    Token, CharClass, Scan, in_class, is_alnum, include_word, next_lexeme, scan_at, lemma_next_lexeme,
    lemma_run_end, lemma_include_len, lemma_scan_at,
};

verus! {

/// Reading a variable right after writing it gives back the value written, and
/// leaves the value stack as it was before the write. This holds for a variable
/// that holds no value stack, when the value written is no value stack itself.
pub proof fn law_read_after_write(m: Machine, name: Seq<char>)
    requires
        m.insts.len() <= usize::MAX,
        m.ip + 1 < m.insts.len(),
        m.insts[m.ip as int] == Instr::WriteVar(name),
        m.insts[m.ip + 1] == Instr::ReadVar(name),
        m.vars.contains_key(name),
        !(m.vars[name] is Stack),
        m.stack.len() > 0,
        !(top(m) is Stack),
    ensures
        trap(m) is None,
        running(next(m).0),
        trap(next(m).0) is None,
        next(next(m).0).0.stack == m.stack,
        next(next(m).0).0.vars == m.vars.insert(name, top(m)),
        next(next(m).0).0.ip == m.ip + 2,
{
    let m1 = next(m).0;
    assert(m1.stack =~= m.stack.drop_last());
    assert(m1.insts == m.insts && m1.ip == m.ip + 1);
    assert(m1.insts[m1.ip as int] == Instr::ReadVar(name));
    assert(m1.vars[name] == top(m));
    let m2 = next(m1).0;
    assert(m2.stack =~= m.stack);
}

/// A value stack variable is last in, first out: writing a value to it and reading
/// it back gives that value, and leaves the variable and the value stack as they
/// were.
pub proof fn law_vstack_last_in_first_out(m: Machine, name: Seq<char>)
    requires
        m.insts.len() <= usize::MAX,
        m.ip + 1 < m.insts.len(),
        m.insts[m.ip as int] == Instr::WriteVar(name),
        m.insts[m.ip + 1] == Instr::ReadVar(name),
        m.vars.contains_key(name),
        m.vars[name] is Stack,
        m.stack.len() > 0,
    ensures
        trap(m) is None,
        trap(next(m).0) is None,
        next(next(m).0).0.stack == m.stack,
        next(next(m).0).0.vars == m.vars,
        next(next(m).0).0.ip == m.ip + 2,
{
    let m1 = next(m).0;
    let vs = m.vars[name]->Stack_0;
    assert(m1.insts == m.insts && m1.ip == m.ip + 1);
    assert(m1.insts[m1.ip as int] == Instr::ReadVar(name));
    assert(m1.stack =~= m.stack.drop_last());
    assert(m1.vars[name] == Val::Stack(vs.push(top(m))));
    let m2 = next(m1).0;
    assert(vs.push(top(m)).drop_last() =~= vs);
    assert(m2.stack =~= m.stack);
    assert(m2.vars =~= m.vars);
}

/// A variable just declared with `$` reads as the number 0.
pub proof fn law_declared_variable_reads_zero(m: Machine, name: Seq<char>)
    requires
        m.insts.len() <= usize::MAX,
        m.ip + 1 < m.insts.len(),
        m.insts[m.ip as int] == Instr::DefineVar(name),
        m.insts[m.ip + 1] == Instr::ReadVar(name),
    ensures
        trap(m) is None,
        trap(next(m).0) is None,
        next(next(m).0).0.stack == m.stack.push(Val::Num(0)),
{
    let m1 = next(m).0;
    assert(m1.insts == m.insts && m1.ip == m.ip + 1);
    assert(m1.insts[m1.ip as int] == Instr::ReadVar(name));
    assert(m1.vars[name] == Val::Num(0));
}

/// Calling a custom instruction that the program defines by a label, when the
/// instruction at that label returns at once, comes back to the instruction after
/// the call with both stacks as they were.
pub proof fn law_call_then_return(m: Machine, name: Seq<char>)
    requires
        m.insts.len() <= usize::MAX,
        m.ip < m.insts.len(),
        m.insts[m.ip as int] == Instr::CustomInstruction(name),
        !m.funcs.contains(name),
        m.labels.contains_key(name),
        m.labels[name] < m.insts.len(),
        m.insts[m.labels[name] as int] == Instr::Ret,
    ensures
        trap(m) is None,
        next(m).0.ip == m.labels[name],
        trap(next(m).0) is None,
        next(next(m).0).0.ip == m.ip + 1,
        next(next(m).0).0.rets == m.rets,
        next(next(m).0).0.stack == m.stack,
{
    let m1 = next(m).0;
    assert(m1.insts == m.insts);
    assert(m1.insts[m1.ip as int] == Instr::Ret);
    assert(m1.rets.last() == m.ip + 1);
    assert(m1.rets.drop_last() =~= m.rets);
}

/// A custom instruction that the host provides is handed to the host, whatever
/// labels the program has, and nothing else changes but the instruction pointer.
pub proof fn law_host_function_called(m: Machine, name: Seq<char>)
    requires
        m.insts.len() <= usize::MAX,
        m.ip < m.insts.len(),
        m.insts[m.ip as int] == Instr::CustomInstruction(name),
        m.funcs.contains(name),
    ensures
        trap(m) is None,
        next(m).1 == Effect::Call(name),
        next(m).0 == (Machine { ip: (m.ip + 1) as usize, ..m }),
{
}

/// Pushing a label's address and jumping to it goes to the instruction after the
/// label, with the value stack as it was.
pub proof fn law_jump_to_label(m: Machine, name: Seq<char>)
    requires
        m.insts.len() <= usize::MAX,
        m.ip + 1 < m.insts.len(),
        m.insts[m.ip as int] == Instr::LabelAddress(name),
        m.insts[m.ip + 1] == Instr::Jmp,
        m.labels.contains_key(name),
        m.labels[name] <= i32::MAX,
    ensures
        trap(m) is None,
        trap(next(m).0) is None,
        next(next(m).0).0.ip == m.labels[name],
        next(next(m).0).0.stack == m.stack,
{
    let m1 = next(m).0;
    assert(m1.insts == m.insts && m1.ip == m.ip + 1);
    assert(m1.insts[m1.ip as int] == Instr::Jmp);
    assert(top(m1) == Val::Num(m.labels[name] as i32));
    assert(m1.stack.subrange(0, m1.stack.len() - 1) =~= m.stack);
}

/// `swap` twice leaves the value stack as it was.
pub proof fn law_swap_twice(m: Machine)
    requires
        m.insts.len() <= usize::MAX,
        m.ip + 1 < m.insts.len(),
        m.insts[m.ip as int] == Instr::Swap,
        m.insts[m.ip + 1] == Instr::Swap,
    ensures
        trap(m) is None,
        trap(next(m).0) is None,
        next(next(m).0).0.stack == m.stack,
{
    let m1 = next(m).0;
    assert(m1.insts == m.insts && m1.ip == m.ip + 1);
    assert(m1.insts[m1.ip as int] == Instr::Swap);
    assert(m.stack.reverse().reverse() =~= m.stack);
}

/// Pushing a value and popping it leaves the value stack as it was.
pub proof fn law_push_then_pop(m: Machine, inst: Instr)
    requires
        m.insts.len() <= usize::MAX,
        m.ip + 1 < m.insts.len(),
        inst is LoadNumber || inst is LoadString || (inst is Dup && m.stack.len() > 0),
        m.insts[m.ip as int] == inst,
        m.insts[m.ip + 1] == Instr::Pop,
    ensures
        trap(m) is None,
        trap(next(m).0) is None,
        next(next(m).0).0.stack == m.stack,
{
    let m1 = next(m).0;
    assert(m1.insts == m.insts && m1.ip == m.ip + 1);
    assert(m1.insts[m1.ip as int] == Instr::Pop);
    assert(m1.stack.subrange(0, m1.stack.len() - 1) =~= m.stack);
}

/// Running never changes the program, the labels or the set of custom instructions
/// that the host provides: a step that does not stop the program keeps them.
pub proof fn law_step_keeps_program(m: Machine)
    requires
        m.insts.len() <= usize::MAX,
        running(m),
        trap(m) is None,
    ensures
        next(m).0.insts == m.insts,
        next(m).0.labels == m.labels,
        next(m).0.funcs == m.funcs,
{
}

/// A run that used up its steps can be resumed: running `a` steps and then `b` more
/// from where it stopped is running `a + b` steps at once.
pub proof fn law_run_resumes(m: Machine, a: nat, b: nat)
    requires
        run(m, a).1 == Stop::OutOfFuel,
    ensures
        run(m, a + b) == run(run(m, a).0, b),
    decreases a,
{
    if running(m) && a > 0 {
        law_run_resumes(next(m).0, (a - 1) as nat, b);
        assert((a - 1) as nat + b == (a + b - 1) as nat);
    }
}

/// Where the label scan puts a label: a label at position `i` between `lo` and `n`,
/// whose name is not written as a label again before `n`, maps its name to `i + 1`.
pub proof fn law_labels(base: Map<Seq<char>, usize>, insts: Seq<Instr>, lo: int, n: int, i: int)
    requires
        0 <= lo <= i < n <= insts.len(),
        insts.len() <= usize::MAX,
        insts[i] is Label,
        forall|j: int| i < j < n ==> insts[j] != insts[i],
    ensures
        label_scan(base, insts, lo, n).contains_key(insts[i]->Label_0),
        label_scan(base, insts, lo, n)[insts[i]->Label_0] == i + 1,
    decreases n - lo,
{
    if i < n - 1 {
        assert(insts[n - 1] != insts[i]);
        law_labels(base, insts, lo, n - 1, i);
    }
}

/// A name not written as a label between `lo` and `n` keeps what `base` gave it,
/// or stays unmapped.
pub proof fn law_labels_untouched(
    base: Map<Seq<char>, usize>,
    insts: Seq<Instr>,
    lo: int,
    n: int,
    name: Seq<char>,
)
    requires
        0 <= lo,
        n <= insts.len(),
        forall|i: int| lo <= i < n ==> insts[i] != Instr::Label(name),
    ensures
        label_scan(base, insts, lo, n).contains_key(name) == base.contains_key(name),
        base.contains_key(name) ==> label_scan(base, insts, lo, n)[name] == base[name],
    decreases n - lo,
{
    if n > lo {
        assert(insts[n - 1] != Instr::Label(name));
        law_labels_untouched(base, insts, lo, n - 1, name);
    }
}

/// The text that a token pattern matches.
pub open spec fn token_text(t: Token, w: Seq<char>) -> bool {
    match t {
        Token::Dollar => w == seq!['$'],
        Token::Percent => w == seq!['%'],
        Token::Greater => w == seq!['>'],
        Token::Less => w == seq!['<'],
        Token::Include => w == seq!['#'] + include_word(),
        Token::Number => w.len() >= 2 && w[0] == '#' && forall|k: int|
            1 <= k < w.len() ==> in_class(CharClass::NumberChar, #[trigger] w[k]),
        Token::Ident => w.len() >= 1 && forall|k: int| 0 <= k < w.len() ==> is_alnum(#[trigger] w[k]),
        Token::Label => w.len() >= 2 && w[w.len() - 1] == ':' && forall|k: int|
            0 <= k < w.len() - 1 ==> is_alnum(#[trigger] w[k]),
        Token::LabelAdress => w.len() >= 2 && w[0] == '@' && forall|k: int|
            1 <= k < w.len() ==> is_alnum(#[trigger] w[k]),
        Token::String => w.len() >= 2 && w[0] == '"' && w[w.len() - 1] == '"' && forall|k: int|
            1 <= k < w.len() - 1 ==> #[trigger] w[k] != '"',
        Token::Comment => false,
    }
}

/// Every token the lexer reports is text that its pattern matches, and it is the
/// longest such text: a word, a number or a label address is not followed by a
/// character that would extend it; a string ends at the first closing quote; a
/// label is the whole run of letters and digits before its colon.
pub proof fn law_tokens_match_patterns(c: Seq<char>, i: int)
    requires
        0 <= i <= c.len(),
    ensures
        next_lexeme(c, i) matches Some((Ok(t), s, e)) ==> token_text(t, c.subrange(s, e)),
        next_lexeme(c, i) matches Some((Ok(Token::Ident), s, e)) ==> e == c.len() || !(is_alnum(
            c[e],
        ) || c[e] == ':'),
        next_lexeme(c, i) matches Some((Ok(Token::Number), s, e)) ==> e == c.len() || !in_class(
            CharClass::NumberChar,
            c[e],
        ),
        next_lexeme(c, i) matches Some((Ok(Token::LabelAdress), s, e)) ==> e == c.len()
            || !is_alnum(c[e]),
        next_lexeme(c, i) matches Some((Ok(Token::String), s, e)) ==> c[e - 1] == '"' && forall|
            k: int,
        | s < k < e - 1 ==> #[trigger] c[k] != '"',
        next_lexeme(c, i) matches Some((Ok(Token::Label), s, e)) ==> c[e - 1] == ':' && forall|
            k: int,
        | s <= k < e - 1 ==> is_alnum(#[trigger] c[k]),
{
    lemma_next_lexeme(c, i);
    if let Some((Ok(t), s, e)) = next_lexeme(c, i) {
        let w = c.subrange(s, e);
        lemma_run_end(c, s + 1, CharClass::Alnum);
        lemma_run_end(c, s + 1, CharClass::NotQuote);
        lemma_include_len(c, s + 1, 0);
        if s + 2 <= c.len() {
            lemma_run_end(c, s + 2, CharClass::NumberChar);
            lemma_run_end(c, s + 2, CharClass::Alnum);
        }
        assert(scan_at(c, s).0 == Scan::Tok(t));
        match t {
            Token::Include => {
                assert(w =~= seq!['#'] + include_word());
            },
            Token::Dollar => {
                assert(w =~= seq!['$']);
            },
            Token::Percent => {
                assert(w =~= seq!['%']);
            },
            Token::Greater => {
                assert(w =~= seq!['>']);
            },
            Token::Less => {
                assert(w =~= seq!['<']);
            },
            _ => {},
        }
    }
}

/// The text that an error covers: an unclosed string runs to the end of the text;
/// after `#`, an error covers the part of `include` that follows and stops where
/// the next character does not continue it; any other error is one character.
pub proof fn law_error_spans(c: Seq<char>, i: int)
    requires
        0 <= i <= c.len(),
    ensures
        next_lexeme(c, i) matches Some((Err(_), s, e)) ==> {
            &&& c[s] == '"' ==> e == c.len() && forall|k: int| s < k < e ==> #[trigger] c[k] != '"'
            &&& c[s] == '#' ==> {
                &&& s + 1 <= e < s + 8
                &&& c.subrange(s + 1, e) == include_word().take(e - s - 1)
                &&& e == c.len() || c[e] != include_word()[e - s - 1]
                &&& e == c.len() || !in_class(CharClass::NumberChar, c[s + 1])
            }
            &&& c[s] != '"' && c[s] != '#' ==> e == s + 1
        },
{
    lemma_next_lexeme(c, i);
    if let Some((Err(_), s, e)) = next_lexeme(c, i) {
        lemma_run_end(c, s + 1, CharClass::NotQuote);
        lemma_include_len(c, s + 1, 0);
        lemma_scan_at(c, s);
        assert(scan_at(c, s).0 == Scan::Error);
        if c[s] == '#' {
            assert(c.subrange(s + 1, e) =~= include_word().take(e - s - 1));
        }
    }
}

/// Parsing never yields the end-of-input marker as an instruction.
pub proof fn law_parse_has_no_eof(c: Seq<char>, pos: int)
    requires
        0 <= pos <= c.len(),
    ensures
        parse_from(c, pos) matches Some(s) ==> forall|i: int| 0 <= i < s.len() ==> s[i] != Instr::Eof,
    decreases c.len() - pos,
{
    lemma_parse_step(c, pos);
    match parse_step(c, pos) {
        Parsed::Next(o, p) => {
            if o != Some(Instr::Eof) && pos < p <= c.len() {
                law_parse_has_no_eof(c, p);
                if let Some(s) = parse_from(c, pos) {
                    let rest = parse_from(c, p)->0;
                    assert forall|i: int| 0 <= i < s.len() implies s[i] != Instr::Eof by {
                        if o is Some {
                            assert(s == seq![o->0] + rest);
                            if i > 0 {
                                assert(s[i] == rest[i - 1]);
                            }
                        }
                    }
                }
            }
        },
        _ => {},
    }
}

} // verus!
