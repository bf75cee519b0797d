//! Instructions and the parser that reads them from source text.
use vstd::prelude::*;
use crate::lexer::{Token, next_lexeme, lex_next, lemma_next_lexeme, lemma_scan_at};
use crate::text::{string_from_chars, text_is, parse_hex_i32, hex_i32, chars_of};

verus! {

/// An instruction of the language.
#[derive(PartialEq, Debug)]
pub enum Inst {
    //Math & stack
    Add,
    Sub,
    Mul,
    Div,
    Dup,
    Swap,
    VSwap,
    Pop,
    VPop,
    Stacklen,
    VStacklen,
    //Flow
    Jmp,
    Jz,
    Jnz,
    Ret,
    //Converts And string manipulations
    Str2num,
    Strat,
    Strlen,
    Strjoin,
    //IO
    Put,
    Endl,
    In,
    //Compares
    Cmp,
    Eof,
    //Debug stack
    Stackdmp,
    //Types & Loaders
    CustomInstruction(String),
    Label(String),
    LabelAddress(String),
    DefineVStack(String),
    DefineVar(String),
    ReadVar(String),
    WriteVar(String),
    LoadString(String),
    LoadNumber(i32),
}

/// An instruction as a mathematical value: names and strings are sequences of
/// characters.
pub enum Instr {
    Add,
    Sub,
    Mul,
    Div,
    Dup,
    Swap,
    VSwap,
    Pop,
    VPop,
    Stacklen,
    VStacklen,
    Jmp,
    Jz,
    Jnz,
    Ret,
    Str2num,
    Strat,
    Strlen,
    Strjoin,
    Put,
    Endl,
    In,
    Cmp,
    Eof,
    Stackdmp,
    CustomInstruction(Seq<char>),
    Label(Seq<char>),
    LabelAddress(Seq<char>),
    DefineVStack(Seq<char>),
    DefineVar(Seq<char>),
    ReadVar(Seq<char>),
    WriteVar(Seq<char>),
    LoadString(Seq<char>),
    LoadNumber(i32),
}

impl View for Inst {
    type V = Instr;

    open spec fn view(&self) -> Instr {
        match self {
            Inst::Add => Instr::Add,
            Inst::Sub => Instr::Sub,
            Inst::Mul => Instr::Mul,
            Inst::Div => Instr::Div,
            Inst::Dup => Instr::Dup,
            Inst::Swap => Instr::Swap,
            Inst::VSwap => Instr::VSwap,
            Inst::Pop => Instr::Pop,
            Inst::VPop => Instr::VPop,
            Inst::Stacklen => Instr::Stacklen,
            Inst::VStacklen => Instr::VStacklen,
            Inst::Jmp => Instr::Jmp,
            Inst::Jz => Instr::Jz,
            Inst::Jnz => Instr::Jnz,
            Inst::Ret => Instr::Ret,
            Inst::Str2num => Instr::Str2num,
            Inst::Strat => Instr::Strat,
            Inst::Strlen => Instr::Strlen,
            Inst::Strjoin => Instr::Strjoin,
            Inst::Put => Instr::Put,
            Inst::Endl => Instr::Endl,
            Inst::In => Instr::In,
            Inst::Cmp => Instr::Cmp,
            Inst::Eof => Instr::Eof,
            Inst::Stackdmp => Instr::Stackdmp,
            Inst::CustomInstruction(s) => Instr::CustomInstruction(s@),
            Inst::Label(s) => Instr::Label(s@),
            Inst::LabelAddress(s) => Instr::LabelAddress(s@),
            Inst::DefineVStack(s) => Instr::DefineVStack(s@),
            Inst::DefineVar(s) => Instr::DefineVar(s@),
            Inst::ReadVar(s) => Instr::ReadVar(s@),
            Inst::WriteVar(s) => Instr::WriteVar(s@),
            Inst::LoadString(s) => Instr::LoadString(s@),
            Inst::LoadNumber(n) => Instr::LoadNumber(*n),
        }
    }
}

/// The instruction that a word names: a built-in one, or else a call of a custom
/// instruction of that name. `put` and `puts` both name the instruction that prints
/// the value on top of the stack.
pub open spec fn keyword(t: Seq<char>) -> Instr {
    if t == seq!['a', 'd', 'd'] {
        Instr::Add
    } else if t == seq!['s', 'u', 'b'] {
        Instr::Sub
    } else if t == seq!['m', 'u', 'l'] {
        Instr::Mul
    } else if t == seq!['d', 'i', 'v'] {
        Instr::Div
    } else if t == seq!['d', 'u', 'p'] {
        Instr::Dup
    } else if t == seq!['s', 'w', 'a', 'p'] {
        Instr::Swap
    } else if t == seq!['v', 's', 'w', 'a', 'p'] {
        Instr::VSwap
    } else if t == seq!['p', 'o', 'p'] {
        Instr::Pop
    } else if t == seq!['v', 'p', 'o', 'p'] {
        Instr::VPop
    } else if t == seq!['s', 'l', 'e', 'n'] {
        Instr::Stacklen
    } else if t == seq!['v', 's', 'l', 'e', 'n'] {
        Instr::VStacklen
    } else if t == seq!['s', '2', 'n'] {
        Instr::Str2num
    } else if t == seq!['s', 't', 'r', 'a', 't'] {
        Instr::Strat
    } else if t == seq!['s', 't', 'r', 'l', 'e', 'n'] {
        Instr::Strlen
    } else if t == seq!['s', 't', 'r', 'j', 'o', 'i', 'n'] {
        Instr::Strjoin
    } else if t == seq!['p', 'u', 't'] {
        Instr::Put
    } else if t == seq!['p', 'u', 't', 's'] {
        Instr::Put
    } else if t == seq!['e', 'n', 'd', 'l'] {
        Instr::Endl
    } else if t == seq!['i', 'n'] {
        Instr::In
    } else if t == seq!['j', 'm', 'p'] {
        Instr::Jmp
    } else if t == seq!['j', 'z'] {
        Instr::Jz
    } else if t == seq!['j', 'n', 'z'] {
        Instr::Jnz
    } else if t == seq!['r', 'e', 't'] {
        Instr::Ret
    } else if t == seq!['c', 'm', 'p'] {
        Instr::Cmp
    } else if t == seq!['s', 't', 'a', 'c', 'k', 'd', 'm', 'p'] {
        Instr::Stackdmp
    } else {
        Instr::CustomInstruction(t)
    }
}

/// The instruction that the word `c[s..e]` names.
fn keyword_inst(c: &Vec<char>, s: usize, e: usize) -> (r: Inst)
    requires
        s <= e <= c@.len(),
    ensures
        r@ == keyword(c@.subrange(s as int, e as int)),
{
    if text_is(c, s, e, &['a', 'd', 'd']) {
        Inst::Add
    } else if text_is(c, s, e, &['s', 'u', 'b']) {
        Inst::Sub
    } else if text_is(c, s, e, &['m', 'u', 'l']) {
        Inst::Mul
    } else if text_is(c, s, e, &['d', 'i', 'v']) {
        Inst::Div
    } else if text_is(c, s, e, &['d', 'u', 'p']) {
        Inst::Dup
    } else if text_is(c, s, e, &['s', 'w', 'a', 'p']) {
        Inst::Swap
    } else if text_is(c, s, e, &['v', 's', 'w', 'a', 'p']) {
        Inst::VSwap
    } else if text_is(c, s, e, &['p', 'o', 'p']) {
        Inst::Pop
    } else if text_is(c, s, e, &['v', 'p', 'o', 'p']) {
        Inst::VPop
    } else if text_is(c, s, e, &['s', 'l', 'e', 'n']) {
        Inst::Stacklen
    } else if text_is(c, s, e, &['v', 's', 'l', 'e', 'n']) {
        Inst::VStacklen
    } else if text_is(c, s, e, &['s', '2', 'n']) {
        Inst::Str2num
    } else if text_is(c, s, e, &['s', 't', 'r', 'a', 't']) {
        Inst::Strat
    } else if text_is(c, s, e, &['s', 't', 'r', 'l', 'e', 'n']) {
        Inst::Strlen
    } else if text_is(c, s, e, &['s', 't', 'r', 'j', 'o', 'i', 'n']) {
        Inst::Strjoin
    } else if text_is(c, s, e, &['p', 'u', 't']) {
        Inst::Put
    } else if text_is(c, s, e, &['p', 'u', 't', 's']) {
        Inst::Put
    } else if text_is(c, s, e, &['e', 'n', 'd', 'l']) {
        Inst::Endl
    } else if text_is(c, s, e, &['i', 'n']) {
        Inst::In
    } else if text_is(c, s, e, &['j', 'm', 'p']) {
        Inst::Jmp
    } else if text_is(c, s, e, &['j', 'z']) {
        Inst::Jz
    } else if text_is(c, s, e, &['j', 'n', 'z']) {
        Inst::Jnz
    } else if text_is(c, s, e, &['r', 'e', 't']) {
        Inst::Ret
    } else if text_is(c, s, e, &['c', 'm', 'p']) {
        Inst::Cmp
    } else if text_is(c, s, e, &['s', 't', 'a', 'c', 'k', 'd', 'm', 'p']) {
        Inst::Stackdmp
    } else {
        Inst::CustomInstruction(string_from_chars(c, s, e))
    }
}

/// What reading one instruction at a position gives: either reading fails (`Fails`:
/// a `$`, `%`, `>` or `<` without a word after it), or it yields an instruction, or
/// nothing (an error token, an `#include`, or a number that does not fit), and the
/// position after it.
pub enum Parsed {
    Fails,
    Next(Option<Instr>, int),
}

/// Reading one instruction of `c` at position `pos`.
pub open spec fn parse_step(c: Seq<char>, pos: int) -> Parsed {
    match next_lexeme(c, pos) {
        None => Parsed::Next(Some(Instr::Eof), c.len() as int),
        Some((Err(_), _, e)) => Parsed::Next(None, e),
        Some((Ok(t), s, e)) => match t {
            Token::Ident => Parsed::Next(Some(keyword(c.subrange(s, e))), e),
            Token::Number => match hex_i32(c.subrange(s + 1, e)) {
                Some(n) => Parsed::Next(Some(Instr::LoadNumber(n)), e),
                None => Parsed::Next(None, e),
            },
            Token::String => Parsed::Next(Some(Instr::LoadString(c.subrange(s + 1, e - 1))), e),
            Token::Label => Parsed::Next(Some(Instr::Label(c.subrange(s, e - 1))), e),
            Token::LabelAdress => Parsed::Next(Some(Instr::LabelAddress(c.subrange(s + 1, e))), e),
            Token::Dollar | Token::Percent | Token::Greater | Token::Less => match next_lexeme(
                c,
                e,
            ) {
                Some((Ok(Token::Ident), s2, e2)) => {
                    let name = c.subrange(s2, e2);
                    Parsed::Next(
                        Some(
                            match t {
                                Token::Dollar => Instr::DefineVar(name),
                                Token::Percent => Instr::DefineVStack(name),
                                Token::Greater => Instr::ReadVar(name),
                                _ => Instr::WriteVar(name),
                            },
                        ),
                        e2,
                    )
                },
                _ => Parsed::Fails,
            },
            Token::Comment => Parsed::Fails,
            Token::Include => Parsed::Next(None, e),
        },
    }
}

/// All the instructions of `c` from position `pos` to the end, or `None` where
/// reading them stops with a panic.
pub open spec fn parse_from(c: Seq<char>, pos: int) -> Option<Seq<Instr>>
    decreases c.len() - pos,
{
    match parse_step(c, pos) {
        Parsed::Fails => None,
        Parsed::Next(Some(Instr::Eof), _) => Some(seq![]),
        Parsed::Next(o, p) => if pos < p <= c.len() {
            match parse_from(c, p) {
                Some(rest) => match o {
                    Some(i) => Some(seq![i] + rest),
                    None => Some(rest),
                },
                None => None,
            }
        } else {
            None
        },
    }
}

/// The text of the number token at `pos`, where it is one whose digits do not give
/// an `i32`.
pub open spec fn rejected_number(c: Seq<char>, pos: int) -> Option<Seq<char>> {
    match next_lexeme(c, pos) {
        Some((Ok(Token::Number), s, e)) => match hex_i32(c.subrange(s + 1, e)) {
            None => Some(c.subrange(s, e)),
            Some(_) => None,
        },
        _ => None,
    }
}

/// The texts of the number tokens that reading `c` from `pos` passes over because
/// they do not give an `i32`, in order, up to the end or to where reading stops.
pub open spec fn rejected_from(c: Seq<char>, pos: int) -> Seq<Seq<char>>
    decreases c.len() - pos,
{
    match parse_step(c, pos) {
        Parsed::Fails => seq![],
        Parsed::Next(Some(Instr::Eof), _) => seq![],
        Parsed::Next(_, p) => if pos < p <= c.len() {
            match rejected_number(c, pos) {
                Some(t) => seq![t] + rejected_from(c, p),
                None => rejected_from(c, p),
            }
        } else {
            seq![]
        },
    }
}

/// Reading moves forward, except at the end.
pub proof fn lemma_parse_step(c: Seq<char>, pos: int)
    requires
        0 <= pos <= c.len(),
    ensures
        parse_step(c, pos) matches Parsed::Next(o, p) ==> (o == Some(Instr::Eof) || pos < p
            <= c.len()),
        parse_step(c, pos) matches Parsed::Next(o, p) ==> p <= c.len(),
{
    lemma_next_lexeme(c, pos);
    if let Some((Ok(t), s, e)) = next_lexeme(c, pos) {
        lemma_next_lexeme(c, e);
    }
}

/// Reads instructions from the tokens of a source text.
pub struct Parser {
    chars: Vec<char>,
    pos: usize,
}

impl Parser {
    /// The source text.
    pub closed spec fn text(&self) -> Seq<char> {
        self.chars@
    }

    /// The position of the next token to read.
    pub closed spec fn position(&self) -> int {
        self.pos as int
    }

    #[verifier::type_invariant]
    spec fn inv(&self) -> bool {
        self.pos <= self.chars@.len()
    }

    /// A parser at the start of `source`.
    pub fn new(source: &str) -> (r: Parser)
        ensures
            r.text() == source@,
            r.position() == 0,
    {
        Parser { chars: chars_of(source), pos: 0 }
    }

    /// Reads one instruction, with the text of the number token passed over where it
    /// does not give an `i32`; `Err` where reading it would stop with a panic.
    fn next_instruction(&mut self) -> (r: Result<(Option<Inst>, Option<String>), ()>)
        ensures
            final(self).text() == old(self).text(),
            match parse_step(old(self).text(), old(self).position()) {
                Parsed::Fails => r is Err,
                Parsed::Next(o, p) => final(self).position() == p && match r {
                    Ok((x, rej)) => {
                        &&& match (x, o) {
                            (Some(i), Some(j)) => i@ == j,
                            (None, None) => true,
                            _ => false,
                        }
                        &&& match (rej, rejected_number(old(self).text(), old(self).position())) {
                            (Some(t), Some(u)) => t@ == u,
                            (None, None) => true,
                            _ => false,
                        }
                    },
                    Err(_) => false,
                },
            },
    {
        proof {
            use_type_invariant(&*self);
            lemma_parse_step(self.chars@, self.pos as int);
            lemma_next_lexeme(self.chars@, self.pos as int);
        }
        match lex_next(&self.chars, self.pos) {
            None => {
                self.pos = self.chars.len();
                Ok((Some(Inst::Eof), None))
            },
            Some((Err(_), _, e)) => {
                self.pos = e;
                Ok((None, None))
            },
            Some((Ok(t), s, e)) => {
                proof {
                    lemma_next_lexeme(self.chars@, e as int);
                    lemma_scan_at(self.chars@, s as int);
                }
                match t {
                    Token::Ident => {
                        self.pos = e;
                        Ok((Some(keyword_inst(&self.chars, s, e)), None))
                    },
                    Token::Number => {
                        self.pos = e;
                        match parse_hex_i32(&self.chars, s + 1, e) {
                            Some(n) => Ok((Some(Inst::LoadNumber(n)), None)),
                            None => Ok((None, Some(string_from_chars(&self.chars, s, e)))),
                        }
                    },
                    Token::String => {
                        self.pos = e;
                        Ok((Some(Inst::LoadString(string_from_chars(&self.chars, s + 1, e - 1))), None))
                    },
                    Token::Label => {
                        self.pos = e;
                        Ok((Some(Inst::Label(string_from_chars(&self.chars, s, e - 1))), None))
                    },
                    Token::LabelAdress => {
                        self.pos = e;
                        Ok((Some(Inst::LabelAddress(string_from_chars(&self.chars, s + 1, e))), None))
                    },
                    Token::Dollar | Token::Percent | Token::Greater | Token::Less => {
                        match lex_next(&self.chars, e) {
                            Some((Ok(Token::Ident), s2, e2)) => {
                                self.pos = e2;
                                let name = string_from_chars(&self.chars, s2, e2);
                                Ok(
                                    (
                                        Some(
                                            match t {
                                                Token::Dollar => Inst::DefineVar(name),
                                                Token::Percent => Inst::DefineVStack(name),
                                                Token::Greater => Inst::ReadVar(name),
                                                _ => Inst::WriteVar(name),
                                            },
                                        ),
                                        None,
                                    ),
                                )
                            },
                            _ => Err(()),
                        }
                    },
                    Token::Comment => Err(()),
                    Token::Include => {
                        self.pos = e;
                        Ok((None, None))
                    },
                }
            },
        }
    }

    /// Reads one instruction: `Some(Inst::Eof)` at the end of the text, `None` for
    /// an error token, an `#include` or a number that does not fit an `i32`.
    pub fn parse_instruction(&mut self) -> (r: Option<Inst>)
        requires
            !(parse_step(old(self).text(), old(self).position()) is Fails),
        ensures
            final(self).text() == old(self).text(),
            match parse_step(old(self).text(), old(self).position()) {
                Parsed::Next(o, p) => final(self).position() == p && match (r, o) {
                    (Some(i), Some(j)) => i@ == j,
                    (None, None) => true,
                    _ => false,
                },
                Parsed::Fails => false,
            },
    {
        match self.next_instruction() {
            Ok((r, _)) => r,
            Err(_) => None,
        }
    }

    /// Reads the next token, which must be a word, and returns its text.
    pub fn expect_ident(&mut self) -> (r: String)
        requires
            next_lexeme(old(self).text(), old(self).position()) matches Some((Ok(Token::Ident), _, _)),
        ensures
            final(self).text() == old(self).text(),
            next_lexeme(old(self).text(), old(self).position()) matches Some((_, s, e))
                && r@ == old(self).text().subrange(s, e) && final(self).position() == e,
    {
        proof {
            use_type_invariant(&*self);
        }
        match lex_next(&self.chars, self.pos) {
            Some((_, s, e)) => {
                self.pos = e;
                string_from_chars(&self.chars, s, e)
            },
            None => String::new(),
        }
    }

    /// Reads the next token and tells whether it is of kind `token`.
    pub fn expect(&mut self, token: Token) -> (r: bool)
        requires
            next_lexeme(old(self).text(), old(self).position()) matches Some((Ok(_), _, _)),
        ensures
            final(self).text() == old(self).text(),
            next_lexeme(old(self).text(), old(self).position()) matches Some((Ok(t), _, e))
                && r == (t == token) && final(self).position() == e,
    {
        proof {
            use_type_invariant(&*self);
        }
        match lex_next(&self.chars, self.pos) {
            Some((Ok(t), _, e)) => {
                self.pos = e;
                t == token
            },
            _ => false,
        }
    }

    /// Reads all the remaining instructions, and gives with them the texts of the
    /// number tokens passed over because they do not give an `i32`. The instructions
    /// are `None` where reading them would stop with a panic (a `$`, `%`, `>` or `<`
    /// without a word after it); the texts are then those met before that point.
    pub fn parse_reporting(&mut self) -> (r: (Option<Vec<Inst>>, Vec<String>))
        ensures
            final(self).text() == old(self).text(),
            match (r.0, parse_from(old(self).text(), old(self).position())) {
                (Some(v), Some(s)) => v@.map_values(|i: Inst| i@) == s,
                (None, None) => true,
                _ => false,
            },
            r.1@.map_values(|t: String| t@) == rejected_from(old(self).text(), old(self).position()),
            r.0 is Some ==> final(self).position() == final(self).text().len(),
    {
        let ghost c = self.text();
        let ghost start = self.position();
        let mut insts: Vec<Inst> = Vec::new();
        let mut rejected: Vec<String> = Vec::new();
        proof {
            use_type_invariant(&*self);
        }
        loop
            invariant
                self.text() == c,
                c == old(self).text(),
                start == old(self).position(),
                0 <= self.position() <= c.len(),
                parse_from(c, start) == match parse_from(c, self.position()) {
                    Some(rest) => Some(insts@.map_values(|i: Inst| i@) + rest),
                    None => None,
                },
                rejected_from(c, start) == rejected@.map_values(|t: String| t@) + rejected_from(
                    c,
                    self.position(),
                ),
            decreases c.len() - self.position(),
        {
            let ghost before = self.position();
            proof {
                use_type_invariant(&*self);
                lemma_parse_step(c, before);
            }
            let ghost old_rejected = rejected@;
            match self.next_instruction() {
                Err(_) => {
                    assert(rejected@.map_values(|t: String| t@) + seq![] =~= rejected@.map_values(
                        |t: String| t@,
                    ));
                    return (None, rejected);
                },
                Ok((Some(Inst::Eof), _)) => {
                    assert(insts@.map_values(|i: Inst| i@) + seq![] =~= insts@.map_values(
                        |i: Inst| i@,
                    ));
                    assert(rejected@.map_values(|t: String| t@) + seq![] =~= rejected@.map_values(
                        |t: String| t@,
                    ));
                    return (Some(insts), rejected);
                },
                Ok((x, rej)) => {
                    match rej {
                        Some(t) => {
                            rejected.push(t);
                            proof {
                                assert(rejected@.map_values(|t: String| t@) =~= old_rejected.map_values(
                                    |t: String| t@,
                                ).push(t@));
                                assert(old_rejected.map_values(|t: String| t@) + (seq![t@]
                                    + rejected_from(c, self.position())) =~= rejected@.map_values(
                                    |t: String| t@,
                                ) + rejected_from(c, self.position()));
                            }
                        },
                        None => {},
                    }
                    match x {
                        Some(inst) => {
                            let ghost old_insts = insts@;
                            insts.push(inst);
                            proof {
                                assert(insts@.map_values(|i: Inst| i@) =~= old_insts.map_values(
                                    |i: Inst| i@,
                                ).push(inst@));
                                if let Some(rest) = parse_from(c, self.position()) {
                                    assert(old_insts.map_values(|i: Inst| i@) + (seq![inst@] + rest)
                                        =~= insts@.map_values(|i: Inst| i@) + rest);
                                }
                            }
                        },
                        None => {},
                    }
                },
            }
        }
    }

    /// Reads all the remaining instructions; `None` where reading them would stop
    /// with a panic (a `$`, `%`, `>` or `<` without a word after it).
    pub fn try_parse(&mut self) -> (r: Option<Vec<Inst>>)
        ensures
            final(self).text() == old(self).text(),
            match (r, parse_from(old(self).text(), old(self).position())) {
                (Some(v), Some(s)) => v@.map_values(|i: Inst| i@) == s,
                (None, None) => true,
                _ => false,
            },
            r is Some ==> final(self).position() == final(self).text().len(),
    {
        self.parse_reporting().0
    }

    /// Reads all the remaining instructions, up to the end of the text.
    pub fn parse(&mut self) -> (r: Vec<Inst>)
        requires
            parse_from(old(self).text(), old(self).position()) is Some,
        ensures
            final(self).text() == old(self).text(),
            r@.map_values(|i: Inst| i@) == parse_from(old(self).text(), old(self).position())->0,
            final(self).position() == final(self).text().len(),
    {
        match self.try_parse() {
            Some(v) => v,
            None => Vec::new(),
        }
    }
}

} // verus!
