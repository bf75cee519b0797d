//! Include handling: which files a source text includes, and how the texts of the
//! included files are put in front of it.
use vstd::prelude::*;
use crate::lexer::{Token, next_lexeme, lex_next, lemma_next_lexeme, lemma_scan_at};
use crate::text::{string_from_chars, chars_of};

verus! {

/// The file names written after `#include` in `c` from position `pos` on, in order,
/// and whether every `#include` there is followed by a string. Where one is not,
/// the names are those before it and the flag is `false`.
pub open spec fn includes_from(c: Seq<char>, pos: int) -> (Seq<Seq<char>>, bool)
    decreases c.len() - pos,
{
    match next_lexeme(c, pos) {
        None => (seq![], true),
        Some((Ok(Token::Include), _, e)) => match next_lexeme(c, e) {
            Some((Ok(Token::String), s2, e2)) => if pos < e2 <= c.len() {
                let rest = includes_from(c, e2);
                (seq![c.subrange(s2 + 1, e2 - 1)] + rest.0, rest.1)
            } else {
                (seq![], false)
            },
            _ => (seq![], false),
        },
        Some((_, _, e)) => if pos < e <= c.len() {
            includes_from(c, e)
        } else {
            (seq![], true)
        },
    }
}

/// The file names written after `#include` in `source`, and whether every
/// `#include` there is followed by a string (the names are then all of them).
pub fn include_files(source: &str) -> (r: (Vec<String>, bool))
    ensures
        r.0@.map_values(|s: String| s@) == includes_from(source@, 0).0,
        r.1 == includes_from(source@, 0).1,
{
    let c = chars_of(source);
    let mut names: Vec<String> = Vec::new();
    let mut pos: usize = 0;
    loop
        invariant
            c@ == source@,
            pos <= c@.len(),
            includes_from(c@, 0).0 == names@.map_values(|s: String| s@) + includes_from(
                c@,
                pos as int,
            ).0,
            includes_from(c@, 0).1 == includes_from(c@, pos as int).1,
        decreases c@.len() - pos,
    {
        proof {
            lemma_next_lexeme(c@, pos as int);
        }
        match lex_next(&c, pos) {
            None => {
                assert(names@.map_values(|s: String| s@) + seq![] =~= names@.map_values(
                    |s: String| s@,
                ));
                return (names, true);
            },
            Some((Ok(Token::Include), _, e)) => {
                proof {
                    lemma_next_lexeme(c@, e as int);
                }
                match expect_string(&c, e) {
                    Some((name, e2)) => {
                        let ghost old_names = names@;
                        names.push(name);
                        proof {
                            assert(names@.map_values(|s: String| s@) =~= old_names.map_values(
                                |s: String| s@,
                            ).push(name@));
                            assert(old_names.map_values(|s: String| s@) + (seq![name@]
                                + includes_from(c@, e2 as int).0) =~= names@.map_values(
                                |s: String| s@,
                            ) + includes_from(c@, e2 as int).0);
                        }
                        pos = e2;
                    },
                    None => {
                        assert(names@.map_values(|s: String| s@) + seq![] =~= names@.map_values(
                            |s: String| s@,
                        ));
                        return (names, false);
                    },
                }
            },
            Some((_, _, e)) => {
                pos = e;
            },
        }
    }
}

/// The string token at position `pos`, without its quotes, and the position after
/// it; `None` when the next token is no string.
fn expect_string(c: &Vec<char>, pos: usize) -> (r: Option<(String, usize)>)
    requires
        pos <= c@.len(),
    ensures
        match (r, next_lexeme(c@, pos as int)) {
            (Some((name, e)), Some((Ok(Token::String), s2, e2))) => name@ == c@.subrange(
                s2 + 1,
                e2 - 1,
            ) && e == e2,
            (None, Some((Ok(Token::String), _, _))) => false,
            (None, _) => true,
            _ => false,
        },
{
    match lex_next(c, pos) {
        Some((Ok(Token::String), s, e)) => {
            proof {
                lemma_next_lexeme(c@, pos as int);
                lemma_scan_at(c@, s as int);
            }
            Some((string_from_chars(c, s + 1, e - 1), e))
        },
        _ => None,
    }
}

/// The texts `parts`, one after the other.
pub open spec fn concat_all(parts: Seq<Seq<char>>) -> Seq<char>
    decreases parts.len(),
{
    if parts.len() == 0 {
        seq![]
    } else {
        concat_all(parts.drop_last()) + parts.last()
    }
}

/// The preprocessed text: the (preprocessed) texts of the included files in order,
/// a newline, then the source itself.
pub fn assemble(included: &Vec<String>, source: &str) -> (r: String)
    ensures
        r@ == concat_all(included@.map_values(|s: String| s@)) + seq!['\n'] + source@,
{
    let mut out = String::new();
    let mut i: usize = 0;
    while i < included.len()
        invariant
            i <= included@.len(),
            out@ == concat_all(included@.map_values(|s: String| s@).take(i as int)),
        decreases included@.len() - i,
    {
        out = out.concat(included[i].as_str());
        proof {
            let parts = included@.map_values(|s: String| s@);
            assert(parts.take(i + 1).drop_last() =~= parts.take(i as int));
        }
        i = i + 1;
    }
    proof {
        let parts = included@.map_values(|s: String| s@);
        assert(parts.take(included@.len() as int) =~= parts);
    }
    out = out.concat("\n");
    proof {
        reveal_strlit("\n");
    }
    out.concat(source)
}

} // verus!
