//! What the parser makes of each kind of token, stated over the token's text.
use vstd::prelude::*;
use crate::parser::{Instr, Parsed, parse_step, parse_from, rejected_from, lemma_parse_step};
use crate::preprocessor::{includes_from, concat_all};
use crate::lexer::{Token, CharClass, next_lexeme, lemma_next_lexeme, lemma_scan_at, lemma_run_end};
use crate::text::{digits_value, hex_digit};

verus! {

/// The value of one hexadecimal digit, `0`-`9`, `a`-`f` or `A`-`F`.
pub open spec fn hex_char_value(ch: char) -> int {
    if '0' <= ch && ch <= '9' {
        ch as int - 48
    } else if 'a' <= ch && ch <= 'f' {
        ch as int - 87
    } else {
        ch as int - 55
    }
}

/// Whether `ch` is a hexadecimal digit.
pub open spec fn is_hex_char(ch: char) -> bool {
    ('0' <= ch && ch <= '9') || ('a' <= ch && ch <= 'f') || ('A' <= ch && ch <= 'F')
}

/// The number that the hexadecimal digits `d` write, most significant first.
pub open spec fn hex_value(d: Seq<char>) -> int
    decreases d.len(),
{
    if d.len() == 0 {
        0
    } else {
        16 * hex_value(d.drop_last()) + hex_char_value(d.last())
    }
}

proof fn lemma_hex_value(d: Seq<char>)
    ensures
        (forall|k: int| 0 <= k < d.len() ==> is_hex_char(#[trigger] d[k])) ==> digits_value(d, 16)
            == Some(hex_value(d)),
        (exists|k: int| 0 <= k < d.len() && !is_hex_char(#[trigger] d[k])) ==> digits_value(d, 16)
            is None,
        (forall|k: int| 0 <= k < d.len() ==> is_hex_char(#[trigger] d[k])) ==> hex_value(d) >= 0,
    decreases d.len(),
{
    if d.len() > 0 {
        lemma_hex_value(d.drop_last());
        assert forall|k: int| 0 <= k < d.len() - 1 implies d.drop_last()[k] == #[trigger] d[k] by {}
        if exists|k: int| 0 <= k < d.len() && !is_hex_char(#[trigger] d[k]) {
            let k = choose|k: int| 0 <= k < d.len() && !is_hex_char(#[trigger] d[k]);
            if k < d.len() - 1 {
                assert(!is_hex_char(d.drop_last()[k]));
            } else {
                assert(hex_digit(d.last()) is None);
            }
        }
    }
}

/// What one read of the parser gives for each kind of token: a string token
/// loads the text between its quotes; a label token is a label named by the text
/// before its colon; a label address names the text after its `@`; a number token
/// loads the value of its hexadecimal digits when every character after `#` is one
/// and the value is at most `i32::MAX`, and is passed over otherwise; an error
/// token and `#include` are passed over; at the end of the text the parser gives
/// the end marker.
pub proof fn law_parse_tokens(c: Seq<char>, pos: int)
    requires
        0 <= pos <= c.len(),
    ensures
        next_lexeme(c, pos) is None ==> parse_step(c, pos) == Parsed::Next(
            Some(Instr::Eof),
            c.len() as int,
        ),
        next_lexeme(c, pos) matches Some((Err(_), s, e)) ==> parse_step(c, pos) == Parsed::Next(
            None,
            e,
        ),
        next_lexeme(c, pos) matches Some((Ok(Token::String), s, e)) ==> parse_step(c, pos)
            == Parsed::Next(Some(Instr::LoadString(c.subrange(s + 1, e - 1))), e),
        next_lexeme(c, pos) matches Some((Ok(Token::Label), s, e)) ==> parse_step(c, pos)
            == Parsed::Next(Some(Instr::Label(c.subrange(s, e - 1))), e),
        next_lexeme(c, pos) matches Some((Ok(Token::LabelAdress), s, e)) ==> parse_step(c, pos)
            == Parsed::Next(Some(Instr::LabelAddress(c.subrange(s + 1, e))), e),
        next_lexeme(c, pos) matches Some((Ok(Token::Include), s, e)) ==> parse_step(c, pos)
            == Parsed::Next(None, e),
        next_lexeme(c, pos) matches Some((Ok(Token::Number), s, e)) ==> {
            let d = c.subrange(s + 1, e);
            &&& (forall|k: int| 0 <= k < d.len() ==> is_hex_char(#[trigger] d[k])) && hex_value(d)
                <= i32::MAX ==> (parse_step(c, pos) matches Parsed::Next(Some(Instr::LoadNumber(n)), p)
                && p == e && n == hex_value(d))
            &&& !((forall|k: int| 0 <= k < d.len() ==> is_hex_char(#[trigger] d[k])) && hex_value(d)
                <= i32::MAX) ==> parse_step(c, pos) == Parsed::Next(None, e)
        },
{
    lemma_next_lexeme(c, pos);
    if let Some((Ok(Token::Number), s, e)) = next_lexeme(c, pos) {
        let d = c.subrange(s + 1, e);
        lemma_hex_value(d);
        lemma_scan_at(c, s);
        if s + 2 <= c.len() {
            lemma_run_end(c, s + 2, CharClass::NumberChar);
        }
        assert(d.len() >= 1);
    }
}

/// `$`, `%`, `>` and `<` take the next word as the name of a variable to declare, a
/// value stack to declare, a variable to read and a variable to write; reading
/// fails when no word follows.
pub proof fn law_parse_sigils(c: Seq<char>, pos: int, t: Token, s: int, e: int)
    requires
        0 <= pos <= c.len(),
        next_lexeme(c, pos) == Some((Ok::<Token, ()>(t), s, e)),
        t == Token::Dollar || t == Token::Percent || t == Token::Greater || t == Token::Less,
    ensures
        forall|s2: int, e2: int|
            next_lexeme(c, e) == Some((Ok::<Token, ()>(Token::Ident), s2, e2)) ==> #[trigger] parse_step(
                c,
                pos,
            ) == Parsed::Next(
                Some(
                    if t == Token::Dollar {
                        Instr::DefineVar(c.subrange(s2, e2))
                    } else if t == Token::Percent {
                        Instr::DefineVStack(c.subrange(s2, e2))
                    } else if t == Token::Greater {
                        Instr::ReadVar(c.subrange(s2, e2))
                    } else {
                        Instr::WriteVar(c.subrange(s2, e2))
                    },
                ),
                e2,
            ),
        !(next_lexeme(c, e) matches Some((Ok(Token::Ident), _, _))) ==> parse_step(c, pos) is Fails,
{
}

/// The words that name built-in instructions.
pub open spec fn builtin_words() -> Set<Seq<char>> {
    set![
        seq!['a', 'd', 'd'],
        seq!['s', 'u', 'b'],
        seq!['m', 'u', 'l'],
        seq!['d', 'i', 'v'],
        seq!['d', 'u', 'p'],
        seq!['s', 'w', 'a', 'p'],
        seq!['v', 's', 'w', 'a', 'p'],
        seq!['p', 'o', 'p'],
        seq!['v', 'p', 'o', 'p'],
        seq!['s', 'l', 'e', 'n'],
        seq!['v', 's', 'l', 'e', 'n'],
        seq!['s', '2', 'n'],
        seq!['s', 't', 'r', 'a', 't'],
        seq!['s', 't', 'r', 'l', 'e', 'n'],
        seq!['s', 't', 'r', 'j', 'o', 'i', 'n'],
        seq!['p', 'u', 't'],
        seq!['p', 'u', 't', 's'],
        seq!['e', 'n', 'd', 'l'],
        seq!['i', 'n'],
        seq!['j', 'm', 'p'],
        seq!['j', 'z'],
        seq!['j', 'n', 'z'],
        seq!['r', 'e', 't'],
        seq!['c', 'm', 'p'],
        seq!['s', 't', 'a', 'c', 'k', 'd', 'm', 'p'],
    ]
}

/// A word is the built-in instruction it names: `add`, `sub`, `mul`, `div`, `dup`,
/// `swap`, `vswap`, `pop`, `vpop`, `slen` (stack length), `vslen`, `s2n`, `strat`,
/// `strlen`, `strjoin`, `put` and `puts`, `endl`, `in`, `jmp`, `jz`, `jnz`, `ret`,
/// `cmp` and `stackdmp`; any other word calls the custom instruction of that name.
pub proof fn law_parse_words(c: Seq<char>, pos: int, s: int, e: int)
    requires
        0 <= pos <= c.len(),
        next_lexeme(c, pos) == Some((Ok::<Token, ()>(Token::Ident), s, e)),
    ensures
        c.subrange(s, e) == seq!['a', 'd', 'd'] ==> parse_step(c, pos) == Parsed::Next(Some(Instr::Add), e),
        c.subrange(s, e) == seq!['s', 'u', 'b'] ==> parse_step(c, pos) == Parsed::Next(Some(Instr::Sub), e),
        c.subrange(s, e) == seq!['m', 'u', 'l'] ==> parse_step(c, pos) == Parsed::Next(Some(Instr::Mul), e),
        c.subrange(s, e) == seq!['d', 'i', 'v'] ==> parse_step(c, pos) == Parsed::Next(Some(Instr::Div), e),
        c.subrange(s, e) == seq!['d', 'u', 'p'] ==> parse_step(c, pos) == Parsed::Next(Some(Instr::Dup), e),
        c.subrange(s, e) == seq!['s', 'w', 'a', 'p'] ==> parse_step(c, pos) == Parsed::Next(Some(Instr::Swap), e),
        c.subrange(s, e) == seq!['v', 's', 'w', 'a', 'p'] ==> parse_step(c, pos) == Parsed::Next(Some(Instr::VSwap), e),
        c.subrange(s, e) == seq!['p', 'o', 'p'] ==> parse_step(c, pos) == Parsed::Next(Some(Instr::Pop), e),
        c.subrange(s, e) == seq!['v', 'p', 'o', 'p'] ==> parse_step(c, pos) == Parsed::Next(Some(Instr::VPop), e),
        c.subrange(s, e) == seq!['s', 'l', 'e', 'n'] ==> parse_step(c, pos) == Parsed::Next(Some(Instr::Stacklen), e),
        c.subrange(s, e) == seq!['v', 's', 'l', 'e', 'n'] ==> parse_step(c, pos) == Parsed::Next(Some(Instr::VStacklen), e),
        c.subrange(s, e) == seq!['s', '2', 'n'] ==> parse_step(c, pos) == Parsed::Next(Some(Instr::Str2num), e),
        c.subrange(s, e) == seq!['s', 't', 'r', 'a', 't'] ==> parse_step(c, pos) == Parsed::Next(Some(Instr::Strat), e),
        c.subrange(s, e) == seq!['s', 't', 'r', 'l', 'e', 'n'] ==> parse_step(c, pos) == Parsed::Next(Some(Instr::Strlen), e),
        c.subrange(s, e) == seq!['s', 't', 'r', 'j', 'o', 'i', 'n'] ==> parse_step(c, pos) == Parsed::Next(Some(Instr::Strjoin), e),
        c.subrange(s, e) == seq!['p', 'u', 't'] ==> parse_step(c, pos) == Parsed::Next(Some(Instr::Put), e),
        c.subrange(s, e) == seq!['p', 'u', 't', 's'] ==> parse_step(c, pos) == Parsed::Next(Some(Instr::Put), e),
        c.subrange(s, e) == seq!['e', 'n', 'd', 'l'] ==> parse_step(c, pos) == Parsed::Next(Some(Instr::Endl), e),
        c.subrange(s, e) == seq!['i', 'n'] ==> parse_step(c, pos) == Parsed::Next(Some(Instr::In), e),
        c.subrange(s, e) == seq!['j', 'm', 'p'] ==> parse_step(c, pos) == Parsed::Next(Some(Instr::Jmp), e),
        c.subrange(s, e) == seq!['j', 'z'] ==> parse_step(c, pos) == Parsed::Next(Some(Instr::Jz), e),
        c.subrange(s, e) == seq!['j', 'n', 'z'] ==> parse_step(c, pos) == Parsed::Next(Some(Instr::Jnz), e),
        c.subrange(s, e) == seq!['r', 'e', 't'] ==> parse_step(c, pos) == Parsed::Next(Some(Instr::Ret), e),
        c.subrange(s, e) == seq!['c', 'm', 'p'] ==> parse_step(c, pos) == Parsed::Next(Some(Instr::Cmp), e),
        c.subrange(s, e) == seq!['s', 't', 'a', 'c', 'k', 'd', 'm', 'p'] ==> parse_step(c, pos) == Parsed::Next(Some(Instr::Stackdmp), e),
        !builtin_words().contains(c.subrange(s, e)) ==> parse_step(c, pos) == Parsed::Next(
            Some(Instr::CustomInstruction(c.subrange(s, e))),
            e,
        ),
{
}

/// How the include scan reads the text: at the end it has found every name; an
/// `#include` followed by a string contributes the text between the quotes, in
/// front of the names found after the string; an `#include` followed by anything
/// else ends the scan as incomplete; any other token or error is passed over.
pub proof fn law_includes(c: Seq<char>, pos: int, r: Result<Token, ()>, s: int, e: int)
    requires
        0 <= pos <= c.len(),
        next_lexeme(c, pos) == Some((r, s, e)),
    ensures
        r == Ok::<Token, ()>(Token::Include) ==> {
            &&& next_lexeme(c, e) matches Some((Ok(Token::String), s2, e2)) ==> includes_from(c, pos)
                == (seq![c.subrange(s2 + 1, e2 - 1)] + includes_from(c, e2).0, includes_from(
                c,
                e2,
            ).1)
            &&& !(next_lexeme(c, e) matches Some((Ok(Token::String), _, _))) ==> includes_from(
                c,
                pos,
            ) == (Seq::<Seq<char>>::empty(), false)
        },
        r != Ok::<Token, ()>(Token::Include) ==> includes_from(c, pos) == includes_from(c, e),
{
    lemma_next_lexeme(c, pos);
    lemma_next_lexeme(c, e);
}

/// At the end of the text the include scan has found nothing more, and is complete.
pub proof fn law_includes_at_end(c: Seq<char>, pos: int)
    requires
        0 <= pos <= c.len(),
        next_lexeme(c, pos) is None,
    ensures
        includes_from(c, pos) == (Seq::<Seq<char>>::empty(), true),
{
}

/// Where the `i`-th part starts in the parts put one after the other.
pub open spec fn part_start(parts: Seq<Seq<char>>, i: int) -> int
    decreases i,
{
    if i <= 0 {
        0
    } else {
        part_start(parts, i - 1) + parts[i - 1].len()
    }
}

/// Putting texts one after the other keeps each whole and in order: the `i`-th
/// text stands at the sum of the lengths of those before it, and the result is as
/// long as all of them together.
pub proof fn law_concat_layout(parts: Seq<Seq<char>>)
    ensures
        concat_all(parts).len() == part_start(parts, parts.len() as int),
        forall|i: int|
            0 <= i < parts.len() ==> #[trigger] concat_all(parts).subrange(
                part_start(parts, i),
                part_start(parts, i) + parts[i].len(),
            ) == parts[i],
    decreases parts.len(),
{
    if parts.len() > 0 {
        let init = parts.drop_last();
        law_concat_layout(init);
        assert forall|i: int| 0 <= i <= init.len() implies #[trigger] part_start(init, i)
            == part_start(parts, i) by {
            lemma_part_start_prefix(parts, i);
        }
        let whole = concat_all(parts);
        assert(whole == concat_all(init) + parts.last());
        assert forall|i: int| 0 <= i < parts.len() implies #[trigger] concat_all(parts).subrange(
            part_start(parts, i),
            part_start(parts, i) + parts[i].len(),
        ) == parts[i] by {
            lemma_part_start_mono(parts, i);
            if i < parts.len() - 1 {
                assert(init[i] == parts[i]);
                lemma_part_start_mono(init, i);
                assert(part_start(init, i) + init[i].len() <= part_start(init, init.len() as int))
                    by {
                    lemma_part_start_le(init, i + 1, init.len() as int);
                }
                assert(whole.subrange(part_start(parts, i), part_start(parts, i) + parts[i].len())
                    =~= concat_all(init).subrange(part_start(init, i), part_start(init, i)
                    + init[i].len()));
            } else {
                assert(whole.subrange(part_start(parts, i), part_start(parts, i) + parts[i].len())
                    =~= parts.last());
            }
        }
    }
}

proof fn lemma_part_start_prefix(parts: Seq<Seq<char>>, i: int)
    requires
        parts.len() > 0,
        0 <= i <= parts.len() - 1,
    ensures
        part_start(parts.drop_last(), i) == part_start(parts, i),
    decreases i,
{
    if i > 0 {
        lemma_part_start_prefix(parts, i - 1);
    }
}

proof fn lemma_part_start_mono(parts: Seq<Seq<char>>, i: int)
    requires
        0 <= i,
    ensures
        part_start(parts, i) >= 0,
    decreases i,
{
    if i > 0 {
        lemma_part_start_mono(parts, i - 1);
    }
}

proof fn lemma_part_start_le(parts: Seq<Seq<char>>, i: int, j: int)
    requires
        0 <= i <= j,
    ensures
        part_start(parts, i) <= part_start(parts, j),
    decreases j - i,
{
    if i < j {
        lemma_part_start_le(parts, i, j - 1);
    }
}

/// A read that fails makes reading the rest fail, with nothing reported; the end
/// marker ends the reading with no more instructions.
pub proof fn law_parse_sequence_ends(c: Seq<char>, pos: int)
    requires
        0 <= pos <= c.len(),
    ensures
        parse_step(c, pos) is Fails ==> parse_from(c, pos) is None && rejected_from(c, pos)
            =~= Seq::<Seq<char>>::empty(),
        parse_step(c, pos) matches Parsed::Next(Some(Instr::Eof), _) ==> parse_from(c, pos)
            == Some(Seq::<Instr>::empty()),
{
}

/// Reading all instructions reads them one after the other, in the order of the
/// text: an instruction read at `pos` comes first, then those read after it; what
/// is passed over adds nothing; a failure later makes the whole reading fail.
/// Number tokens passed over because they do not give an `i32` are reported in the
/// same order, with their full text.
pub proof fn law_parse_sequence(c: Seq<char>, pos: int, o: Option<Instr>, p: int)
    requires
        0 <= pos <= c.len(),
        parse_step(c, pos) == Parsed::Next(o, p),
        o != Some(Instr::Eof),
    ensures
        parse_from(c, p) is None ==> parse_from(c, pos) is None,
        o is Some && parse_from(c, p) is Some ==> parse_from(c, pos) == Some(
            seq![o->0] + parse_from(c, p)->0,
        ),
        o is None ==> parse_from(c, pos) == parse_from(c, p),
        next_lexeme(c, pos) matches Some((Ok(Token::Number), s, e)) ==> (o is None ==> rejected_from(
            c,
            pos,
        ) == seq![c.subrange(s, e)] + rejected_from(c, p)),
        !(o is None && (next_lexeme(c, pos) matches Some((Ok(Token::Number), _, _))))
            ==> rejected_from(c, pos) == rejected_from(c, p),
{
    lemma_parse_step(c, pos);
    lemma_next_lexeme(c, pos);
}

} // verus!
