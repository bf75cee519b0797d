//! The tokens of the language and the lexer that cuts source text into them.
//!
//! The lexer works on the characters of the source. At each position it takes the
//! longest text that one token pattern matches; blanks (space, tab, newline, form
//! feed) and `//` comments up to the end of the line are skipped. Where no pattern
//! matches, it reports an error that covers the text read before the match failed
//! (at least one character), and goes on after it.
use vstd::prelude::*;

verus! {

/// The kinds of token.
#[derive(Debug, PartialEq, Eq, Structural, Clone, Copy)]
pub enum Token {
    /// `$`
    Dollar,
    /// `%`
    Percent,
    /// `>`
    Greater,
    /// `<`
    Less,
    /// `#include`
    Include,
    /// `#` followed by characters from `0` to `f`
    Number,
    /// letters and digits
    Ident,
    /// letters and digits followed by `:`
    Label,
    /// `@` followed by letters and digits
    LabelAdress,
    /// text between double quotes
    String,
    /// `//` up to the end of the line; never reported, it is skipped
    Comment,
}

/// The character classes that runs of a token are made of.
#[derive(PartialEq, Eq, Structural, Clone, Copy)]
pub enum CharClass {
    /// `[a-zA-Z0-9]`
    Alnum,
    /// `[ \t\n\f]`
    Blank,
    /// `[0-f]`, the characters from `0` to `f`
    NumberChar,
    /// any character but a newline
    NotNewline,
    /// any character but a double quote
    NotQuote,
}

pub open spec fn is_alnum(ch: char) -> bool {
    ('a' <= ch <= 'z') || ('A' <= ch <= 'Z') || ('0' <= ch <= '9')
}

pub open spec fn in_class(class: CharClass, ch: char) -> bool {
    match class {
        CharClass::Alnum => is_alnum(ch),
        CharClass::Blank => ch == ' ' || ch == '\t' || ch == '\n' || ch == '\u{c}',
        CharClass::NumberChar => '0' <= ch <= 'f',
        CharClass::NotNewline => ch != '\n',
        CharClass::NotQuote => ch != '"',
    }
}

/// The end of the run of `class` characters that starts at `i`.
pub open spec fn run_end(c: Seq<char>, i: int, class: CharClass) -> int
    decreases c.len() - i,
{
    if 0 <= i < c.len() && in_class(class, c[i]) {
        run_end(c, i + 1, class)
    } else {
        i
    }
}

/// The word after `#` in `#include`.
pub open spec fn include_word() -> Seq<char> {
    seq!['i', 'n', 'c', 'l', 'u', 'd', 'e']
}

/// How many characters of `include_word()` follow position `i`, from the `k`-th on.
pub open spec fn include_len(c: Seq<char>, i: int, k: int) -> int
    decreases 7 - k,
{
    if 0 <= k < 7 && 0 <= i + k < c.len() && c[i + k] == include_word()[k] {
        include_len(c, i, k + 1)
    } else {
        k
    }
}

/// What the text at position `i` is: a skipped blank or comment, a token, or an
/// error; with the position where it ends.
pub enum Scan {
    Skip,
    Tok(Token),
    Error,
}

pub open spec fn scan_at(c: Seq<char>, i: int) -> (Scan, int) {
    let ch = c[i];
    let next_is = |class: CharClass| i + 1 < c.len() && in_class(class, c[i + 1]);
    if in_class(CharClass::Blank, ch) {
        (Scan::Skip, run_end(c, i + 1, CharClass::Blank))
    } else if ch == '/' {
        if i + 1 < c.len() && c[i + 1] == '/' {
            (Scan::Skip, run_end(c, i + 2, CharClass::NotNewline))
        } else {
            (Scan::Error, i + 1)
        }
    } else if ch == '$' {
        (Scan::Tok(Token::Dollar), i + 1)
    } else if ch == '%' {
        (Scan::Tok(Token::Percent), i + 1)
    } else if ch == '>' {
        (Scan::Tok(Token::Greater), i + 1)
    } else if ch == '<' {
        (Scan::Tok(Token::Less), i + 1)
    } else if ch == '#' {
        if next_is(CharClass::NumberChar) {
            (Scan::Tok(Token::Number), run_end(c, i + 2, CharClass::NumberChar))
        } else if include_len(c, i + 1, 0) == 7 {
            (Scan::Tok(Token::Include), i + 8)
        } else {
            (Scan::Error, i + 1 + include_len(c, i + 1, 0))
        }
    } else if ch == '"' {
        let q = run_end(c, i + 1, CharClass::NotQuote);
        if q < c.len() {
            (Scan::Tok(Token::String), q + 1)
        } else {
            (Scan::Error, c.len() as int)
        }
    } else if ch == '@' {
        if next_is(CharClass::Alnum) {
            (Scan::Tok(Token::LabelAdress), run_end(c, i + 2, CharClass::Alnum))
        } else {
            (Scan::Error, i + 1)
        }
    } else if is_alnum(ch) {
        let e = run_end(c, i + 1, CharClass::Alnum);
        if e < c.len() && c[e] == ':' {
            (Scan::Tok(Token::Label), e + 1)
        } else {
            (Scan::Tok(Token::Ident), e)
        }
    } else {
        (Scan::Error, i + 1)
    }
}

pub proof fn lemma_run_end(c: Seq<char>, i: int, class: CharClass)
    requires
        0 <= i <= c.len(),
    ensures
        i <= run_end(c, i, class) <= c.len(),
        forall|j: int| i <= j < run_end(c, i, class) ==> in_class(class, #[trigger] c[j]),
        run_end(c, i, class) < c.len() ==> !in_class(class, c[run_end(c, i, class)]),
    decreases c.len() - i,
{
    if i < c.len() && in_class(class, c[i]) {
        lemma_run_end(c, i + 1, class);
    }
}

pub proof fn lemma_include_len(c: Seq<char>, i: int, k: int)
    requires
        0 <= k <= 7,
        0 <= i,
        i + k <= c.len(),
    ensures
        k <= include_len(c, i, k) <= 7,
        i + include_len(c, i, k) <= c.len(),
        forall|j: int| k <= j < include_len(c, i, k) ==> c[i + j] == #[trigger] include_word()[j],
        include_len(c, i, k) < 7 ==> (i + include_len(c, i, k) == c.len() || c[i + include_len(
            c,
            i,
            k,
        )] != include_word()[include_len(c, i, k)]),
    decreases 7 - k,
{
    if k < 7 && i + k < c.len() && c[i + k] == include_word()[k] {
        lemma_include_len(c, i, k + 1);
    }
}

/// Every scan moves forward and stays within the text.
pub proof fn lemma_scan_at(c: Seq<char>, i: int)
    requires
        0 <= i < c.len(),
    ensures
        i < scan_at(c, i).1 <= c.len(),
        scan_at(c, i).0 == Scan::Tok(Token::String) ==> i + 2 <= scan_at(c, i).1,
{
    lemma_run_end(c, i + 1, CharClass::Blank);
    lemma_run_end(c, i + 1, CharClass::NotQuote);
    lemma_run_end(c, i + 1, CharClass::Alnum);
    if i + 2 <= c.len() {
        lemma_run_end(c, i + 2, CharClass::NotNewline);
        lemma_run_end(c, i + 2, CharClass::NumberChar);
        lemma_run_end(c, i + 2, CharClass::Alnum);
    }
    lemma_include_len(c, i + 1, 0);
}

/// The next token from position `i` on, blanks and comments skipped: `None` at the
/// end of the text, else the token (or an error) with its start and end.
pub open spec fn next_lexeme(c: Seq<char>, i: int) -> Option<(Result<Token, ()>, int, int)>
    decreases c.len() - i,
{
    if i < 0 || i >= c.len() {
        None
    } else {
        let (kind, e) = scan_at(c, i);
        match kind {
            Scan::Skip => if i < e <= c.len() {
                next_lexeme(c, e)
            } else {
                None
            },
            Scan::Tok(t) => Some((Ok(t), i, e)),
            Scan::Error => Some((Err(()), i, e)),
        }
    }
}

pub proof fn lemma_next_lexeme(c: Seq<char>, i: int)
    requires
        0 <= i <= c.len(),
    ensures
        next_lexeme(c, i) matches Some((_, s, e)) ==> i <= s < e <= c.len() && e == scan_at(
            c,
            s,
        ).1,
        next_lexeme(c, i) matches Some((Ok(t), s, e)) ==> scan_at(c, s).0 == Scan::Tok(t),
        next_lexeme(c, i) matches Some((Err(_), s, e)) ==> scan_at(c, s).0 == Scan::Error,
    decreases c.len() - i,
{
    if i < c.len() {
        lemma_scan_at(c, i);
        if scan_at(c, i).0 is Skip {
            lemma_next_lexeme(c, scan_at(c, i).1);
        }
    }
}

/// The end of the run of `class` characters that starts at `i`.
pub fn class_end(c: &Vec<char>, i: usize, class: CharClass) -> (r: usize)
    requires
        i <= c@.len(),
    ensures
        r == run_end(c@, i as int, class),
{
    proof {
        lemma_run_end(c@, i as int, class);
    }
    let mut j = i;
    while j < c.len() && in_class_exec(class, c[j])
        invariant
            i <= j <= c@.len(),
            run_end(c@, j as int, class) == run_end(c@, i as int, class),
        decreases c@.len() - j,
    {
        j = j + 1;
    }
    j
}

fn in_class_exec(class: CharClass, ch: char) -> (r: bool)
    ensures
        r == in_class(class, ch),
{
    match class {
        CharClass::Alnum => alnum(ch),
        CharClass::Blank => ch == ' ' || ch == '\t' || ch == '\n' || ch == '\u{c}',
        CharClass::NumberChar => '0' <= ch && ch <= 'f',
        CharClass::NotNewline => ch != '\n',
        CharClass::NotQuote => ch != '"',
    }
}

fn alnum(ch: char) -> (r: bool)
    ensures
        r == is_alnum(ch),
{
    ('a' <= ch && ch <= 'z') || ('A' <= ch && ch <= 'Z') || ('0' <= ch && ch <= '9')
}

/// How many characters of `include` follow position `i`.
fn include_prefix(c: &Vec<char>, i: usize) -> (r: usize)
    requires
        i <= c@.len(),
    ensures
        r == include_len(c@, i as int, 0),
{
    let word = ['i', 'n', 'c', 'l', 'u', 'd', 'e'];
    assert(word@ == include_word());
    let mut k: usize = 0;
    while k < 7 && k < c.len() - i && c[i + k] == word[k]
        invariant
            0 <= k <= 7,
            i <= c@.len(),
            word@ == include_word(),
            include_len(c@, i as int, k as int) == include_len(c@, i as int, 0),
        decreases 7 - k,
    {
        k = k + 1;
    }
    k
}

/// What the text at position `i` is, and where it ends.
fn scan(c: &Vec<char>, i: usize) -> (r: (Scan, usize))
    requires
        i < c@.len(),
    ensures
        r.0 == scan_at(c@, i as int).0,
        r.1 == scan_at(c@, i as int).1,
{
    proof {
        lemma_scan_at(c@, i as int);
    }
    let ch = c[i];
    let n = c.len();
    if in_class_exec(CharClass::Blank, ch) {
        (Scan::Skip, class_end(c, i + 1, CharClass::Blank))
    } else if ch == '/' {
        if i + 1 < n && c[i + 1] == '/' {
            (Scan::Skip, class_end(c, i + 2, CharClass::NotNewline))
        } else {
            (Scan::Error, i + 1)
        }
    } else if ch == '$' {
        (Scan::Tok(Token::Dollar), i + 1)
    } else if ch == '%' {
        (Scan::Tok(Token::Percent), i + 1)
    } else if ch == '>' {
        (Scan::Tok(Token::Greater), i + 1)
    } else if ch == '<' {
        (Scan::Tok(Token::Less), i + 1)
    } else if ch == '#' {
        if i + 1 < n && in_class_exec(CharClass::NumberChar, c[i + 1]) {
            (Scan::Tok(Token::Number), class_end(c, i + 2, CharClass::NumberChar))
        } else {
            let k = include_prefix(c, i + 1);
            if k == 7 {
                (Scan::Tok(Token::Include), i + 8)
            } else {
                (Scan::Error, i + 1 + k)
            }
        }
    } else if ch == '"' {
        let q = class_end(c, i + 1, CharClass::NotQuote);
        if q < n {
            (Scan::Tok(Token::String), q + 1)
        } else {
            (Scan::Error, n)
        }
    } else if ch == '@' {
        if i + 1 < n && alnum(c[i + 1]) {
            (Scan::Tok(Token::LabelAdress), class_end(c, i + 2, CharClass::Alnum))
        } else {
            (Scan::Error, i + 1)
        }
    } else if alnum(ch) {
        let e = class_end(c, i + 1, CharClass::Alnum);
        if e < n && c[e] == ':' {
            (Scan::Tok(Token::Label), e + 1)
        } else {
            (Scan::Tok(Token::Ident), e)
        }
    } else {
        (Scan::Error, i + 1)
    }
}

/// The next token of `c` from position `pos` on, with its start and end; `None` at
/// the end of the text. Blanks and comments before it are skipped.
pub fn lex_next(c: &Vec<char>, pos: usize) -> (r: Option<(Result<Token, ()>, usize, usize)>)
    requires
        pos <= c@.len(),
    ensures
        match (r, next_lexeme(c@, pos as int)) {
            (None, None) => true,
            (Some((t, s, e)), Some((t2, s2, e2))) => t == t2 && s == s2 && e == e2,
            _ => false,
        },
        r matches Some((_, s, e)) ==> pos <= s < e <= c@.len(),
{
    let mut i = pos;
    proof {
        lemma_next_lexeme(c@, pos as int);
    }
    while i < c.len()
        invariant
            pos <= i <= c@.len(),
            next_lexeme(c@, i as int) == next_lexeme(c@, pos as int),
        decreases c@.len() - i,
    {
        proof {
            lemma_scan_at(c@, i as int);
            lemma_next_lexeme(c@, i as int);
        }
        let (kind, e) = scan(c, i);
        match kind {
            Scan::Skip => {
                i = e;
            },
            Scan::Tok(t) => {
                return Some((Ok(t), i, e));
            },
            Scan::Error => {
                return Some((Err(()), i, e));
            },
        }
    }
    None
}

} // verus!
