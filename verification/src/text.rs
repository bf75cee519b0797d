//! Character-level helpers shared by the lexer, the parser and the interpreter:
//! turning strings into character vectors and back, trimming Unicode white space,
//! and reading decimal and hexadecimal `i32` literals.
use vstd::prelude::*;

verus! {

/// The characters of `s`, in order.
pub fn chars_of(s: &str) -> (r: Vec<char>)
    ensures
        r@ == s@,
{
    let mut r: Vec<char> = Vec::new();
    for c in it: s.chars()
        invariant
            r@ == it.seq().take(it.index() as int),
    {
        r.push(c);
    }
    r
}

/// Trusted: calls `String::push`, which std documents as appending the character
/// to the end of the string; the contract says exactly that of the string's
/// characters.
#[verifier::external_body]
fn push_char(s: &mut String, c: char)
    ensures
        final(s)@ == old(s)@.push(c),
{
    s.push(c);
}

/// The string made of `c[start..end]`.
pub fn string_from_chars(c: &Vec<char>, start: usize, end: usize) -> (r: String)
    requires
        start <= end <= c@.len(),
    ensures
        r@ == c@.subrange(start as int, end as int),
{
    let mut r = String::new();
    let mut i = start;
    while i < end
        invariant
            start <= i <= end <= c@.len(),
            r@ == c@.subrange(start as int, i as int),
        decreases end - i,
    {
        push_char(&mut r, c[i]);
        i = i + 1;
    }
    r
}

/// A string holding the single character `c`.
pub fn string_of_char(c: char) -> (r: String)
    ensures
        r@ == seq![c],
{
    let mut r = String::new();
    push_char(&mut r, c);
    r
}

/// Unicode `White_Space`, the property that `char::is_whitespace` tests.
pub open spec fn is_white_space(c: char) -> bool {
    ||| '\u{9}' <= c <= '\u{d}'
    ||| c == ' '
    ||| c == '\u{85}'
    ||| c == '\u{a0}'
    ||| c == '\u{1680}'
    ||| '\u{2000}' <= c <= '\u{200a}'
    ||| c == '\u{2028}'
    ||| c == '\u{2029}'
    ||| c == '\u{202f}'
    ||| c == '\u{205f}'
    ||| c == '\u{3000}'
}

pub fn white_space(c: char) -> (r: bool)
    ensures
        r == is_white_space(c),
{
    ('\u{9}' <= c && c <= '\u{d}') || c == ' ' || c == '\u{85}' || c == '\u{a0}' || c
        == '\u{1680}' || ('\u{2000}' <= c && c <= '\u{200a}') || c == '\u{2028}' || c
        == '\u{2029}' || c == '\u{202f}' || c == '\u{205f}' || c == '\u{3000}'
}

/// `s` without its leading white space.
pub open spec fn trim_start(s: Seq<char>) -> Seq<char>
    decreases s.len(),
{
    if s.len() > 0 && is_white_space(s[0]) {
        trim_start(s.drop_first())
    } else {
        s
    }
}

/// `s` without its trailing white space.
pub open spec fn trim_end(s: Seq<char>) -> Seq<char>
    decreases s.len(),
{
    if s.len() > 0 && is_white_space(s.last()) {
        trim_end(s.drop_last())
    } else {
        s
    }
}

/// `str::trim`: `s` without leading and trailing white space.
pub open spec fn trim(s: Seq<char>) -> Seq<char> {
    trim_end(trim_start(s))
}

/// Leading white space can be cut before trimming the start.
pub proof fn lemma_trim_start_skip(s: Seq<char>, i: int)
    requires
        0 <= i <= s.len(),
        forall|j: int| 0 <= j < i ==> is_white_space(#[trigger] s[j]),
    ensures
        trim_start(s) == trim_start(s.subrange(i, s.len() as int)),
    decreases i,
{
    if i > 0 {
        assert(s.drop_first().subrange(i - 1, s.drop_first().len() as int) =~= s.subrange(
            i,
            s.len() as int,
        ));
        lemma_trim_start_skip(s.drop_first(), i - 1);
    } else {
        assert(s.subrange(0, s.len() as int) =~= s);
    }
}

/// Trailing white space can be cut before trimming the end.
pub proof fn lemma_trim_end_cut(s: Seq<char>, k: int)
    requires
        0 <= k <= s.len(),
        forall|j: int| k <= j < s.len() ==> is_white_space(#[trigger] s[j]),
    ensures
        trim_end(s) == trim_end(s.subrange(0, k)),
    decreases s.len() - k,
{
    if k < s.len() {
        assert(s.drop_last().subrange(0, k) =~= s.subrange(0, k));
        lemma_trim_end_cut(s.drop_last(), k);
    } else {
        assert(s.subrange(0, k) =~= s);
    }
}

/// The characters of `c` with leading and trailing white space removed.
pub fn trimmed(c: &Vec<char>) -> (r: Vec<char>)
    ensures
        r@ == trim(c@),
{
    let mut i: usize = 0;
    while i < c.len() && white_space(c[i])
        invariant
            0 <= i <= c@.len(),
            forall|j: int| 0 <= j < i ==> is_white_space(#[trigger] c@[j]),
        decreases c@.len() - i,
    {
        i = i + 1;
    }
    proof {
        lemma_trim_start_skip(c@, i as int);
    }
    let ghost rest = c@.subrange(i as int, c@.len() as int);
    assert(trim_start(rest) == rest);
    let mut k: usize = c.len();
    while k > i && white_space(c[k - 1])
        invariant
            i <= k <= c@.len(),
            forall|j: int| k <= j < c@.len() ==> is_white_space(#[trigger] c@[j]),
        decreases k,
    {
        k = k - 1;
    }
    proof {
        lemma_trim_end_cut(rest, k - i);
        assert(rest.subrange(0, k - i) =~= c@.subrange(i as int, k as int));
    }
    let mut r: Vec<char> = Vec::new();
    let mut j = i;
    while j < k
        invariant
            i <= j <= k <= c@.len(),
            r@ == c@.subrange(i as int, j as int),
        decreases k - j,
    {
        r.push(c[j]);
        j = j + 1;
    }
    r
}

/// The value of a decimal digit.
pub open spec fn dec_digit(c: char) -> Option<int> {
    if '0' <= c <= '9' {
        Some(c as int - '0' as int)
    } else {
        None
    }
}

/// The value of a hexadecimal digit, in either case.
pub open spec fn hex_digit(c: char) -> Option<int> {
    if '0' <= c <= '9' {
        Some(c as int - '0' as int)
    } else if 'a' <= c <= 'f' {
        Some(c as int - 'a' as int + 10)
    } else if 'A' <= c <= 'F' {
        Some(c as int - 'A' as int + 10)
    } else {
        None
    }
}

/// The number that the digits `s` write in base `radix` (10 or 16), or `None` when
/// one of them is no digit of that base.
pub open spec fn digits_value(s: Seq<char>, radix: int) -> Option<int>
    decreases s.len(),
{
    if s.len() == 0 {
        Some(0)
    } else {
        let d = if radix == 16 {
            hex_digit(s.last())
        } else {
            dec_digit(s.last())
        };
        match (digits_value(s.drop_last(), radix), d) {
            (Some(v), Some(d)) => Some(v * radix + d),
            _ => None,
        }
    }
}

/// `i32::from_str_radix(s, 16)` on text without a sign, as a number token holds it.
pub open spec fn hex_i32(s: Seq<char>) -> Option<i32> {
    if s.len() == 0 {
        None
    } else {
        match digits_value(s, 16) {
            Some(v) => if v <= i32::MAX {
                Some(v as i32)
            } else {
                None
            },
            None => None,
        }
    }
}

/// `str::parse::<i32>`: an optional `+` or `-`, then at least one decimal digit,
/// the value within the range of `i32`.
pub open spec fn decimal_i32(s: Seq<char>) -> Option<i32> {
    let neg = s.len() > 0 && s[0] == '-';
    let signed = s.len() > 0 && (s[0] == '-' || s[0] == '+');
    let digits = if signed {
        s.drop_first()
    } else {
        s
    };
    if digits.len() == 0 {
        None
    } else {
        match digits_value(digits, 10) {
            Some(v) => {
                let n = if neg {
                    -v
                } else {
                    v
                };
                if i32::MIN <= n <= i32::MAX {
                    Some(n as i32)
                } else {
                    None
                }
            },
            None => None,
        }
    }
}

proof fn lemma_digits_nonneg(s: Seq<char>, radix: int)
    requires
        radix == 10 || radix == 16,
    ensures
        digits_value(s, radix) matches Some(v) ==> v >= 0,
    decreases s.len(),
{
    if s.len() > 0 {
        lemma_digits_nonneg(s.drop_last(), radix);
    }
}

/// A longer run of digits is worth at least as much as its first part.
proof fn lemma_digits_grow(s: Seq<char>, k: int, radix: int)
    requires
        radix == 10 || radix == 16,
        0 <= k <= s.len(),
    ensures
        digits_value(s, radix) matches Some(v) ==> digits_value(s.subrange(0, k), radix) matches Some(
            w,
        ) && w <= v,
    decreases s.len() - k,
{
    if k == s.len() {
        assert(s.subrange(0, k) =~= s);
    } else {
        lemma_digits_nonneg(s.drop_last(), radix);
        lemma_digits_grow(s.drop_last(), k, radix);
        assert(s.drop_last().subrange(0, k) =~= s.subrange(0, k));
        if let Some(v) = digits_value(s, radix) {
            let w0 = digits_value(s.drop_last(), radix).unwrap();
            assert(w0 <= v) by (nonlinear_arith)
                requires
                    w0 >= 0,
                    v >= w0 * radix,
                    radix >= 10,
            ;
        }
    }
}

/// The value of the digit `c` in base `radix`, if it is one.
fn digit_of(c: char, radix: u32) -> (r: Option<u32>)
    requires
        radix == 10 || radix == 16,
    ensures
        match (r, if radix == 16 {
            hex_digit(c)
        } else {
            dec_digit(c)
        }) {
            (Some(a), Some(b)) => a == b && a < radix,
            (None, None) => true,
            _ => false,
        },
{
    if '0' <= c && c <= '9' {
        Some((c as u32) - ('0' as u32))
    } else if radix == 16 && 'a' <= c && c <= 'f' {
        Some((c as u32) - ('a' as u32) + 10)
    } else if radix == 16 && 'A' <= c && c <= 'F' {
        Some((c as u32) - ('A' as u32) + 10)
    } else {
        None
    }
}

/// The value of the digits `c[start..end]` in base `radix` when it is at most `limit`;
/// `None` when a character is no digit or the value exceeds `limit`.
fn digits_up_to(c: &Vec<char>, start: usize, end: usize, radix: u32, limit: u64) -> (r: Option<
    u64,
>)
    requires
        start <= end <= c@.len(),
        radix == 10 || radix == 16,
        limit <= u32::MAX,
    ensures
        match digits_value(c@.subrange(start as int, end as int), radix as int) {
            Some(v) => if v <= limit {
                r == Some(v as u64)
            } else {
                r is None
            },
            None => r is None,
        },
        r matches Some(w) ==> w <= limit && digits_value(
            c@.subrange(start as int, end as int),
            radix as int,
        ) == Some(w as int),
{
    let ghost s = c@.subrange(start as int, end as int);
    let mut acc: u64 = 0;
    let mut i = start;
    assert(s.subrange(0, 0) =~= seq![]);
    while i < end
        invariant
            start <= i <= end <= c@.len(),
            s == c@.subrange(start as int, end as int),
            radix == 10 || radix == 16,
            limit <= u32::MAX,
            digits_value(s.subrange(0, i - start), radix as int) == Some(acc as int),
            acc <= limit,
        decreases end - i,
    {
        let d = digit_of(c[i], radix);
        assert(s.subrange(0, i + 1 - start).drop_last() =~= s.subrange(0, i - start));
        assert(s.subrange(0, i + 1 - start).last() == c@[i as int]);
        match d {
            None => {
                proof {
                    lemma_digits_grow(s, i + 1 - start, radix as int);
                }
                return None;
            },
            Some(d) => {
                assert(acc * radix + d <= u32::MAX * 16 + 16) by (nonlinear_arith)
                    requires
                        acc <= u32::MAX,
                        radix <= 16,
                        d < 16,
                ;
                let next = acc * (radix as u64) + (d as u64);
                if next > limit {
                    proof {
                        lemma_digits_grow(s, i + 1 - start, radix as int);
                    }
                    return None;
                }
                acc = next;
            },
        }
        i = i + 1;
    }
    assert(s.subrange(0, end - start) =~= s);
    Some(acc)
}

/// `i32::from_str_radix(text, 16)` for the digits `c[start..end]`.
pub fn parse_hex_i32(c: &Vec<char>, start: usize, end: usize) -> (r: Option<i32>)
    requires
        start <= end <= c@.len(),
    ensures
        r == hex_i32(c@.subrange(start as int, end as int)),
{
    if start == end {
        return None;
    }
    match digits_up_to(c, start, end, 16, i32::MAX as u64) {
        Some(v) => Some(v as i32),
        None => None,
    }
}

/// `str::parse::<i32>` for the characters `c`.
pub fn parse_decimal_i32(c: &Vec<char>) -> (r: Option<i32>)
    ensures
        r == decimal_i32(c@),
{
    let n = c.len();
    let neg = n > 0 && c[0] == '-';
    let signed = n > 0 && (c[0] == '-' || c[0] == '+');
    let start: usize = if signed {
        1
    } else {
        0
    };
    assert(start == 1 ==> c@.subrange(1, n as int) =~= c@.drop_first());
    assert(start == 0 ==> c@.subrange(0, n as int) =~= c@);
    if start == n {
        return None;
    }
    let limit: u64 = if neg {
        2147483648
    } else {
        2147483647
    };
    match digits_up_to(c, start, n, 10, limit) {
        Some(v) => {
            if neg {
                Some((-(v as i64)) as i32)
            } else {
                Some(v as i32)
            }
        },
        None => None,
    }
}

/// `i32` division as Rust computes it: the quotient rounded toward zero.
pub open spec fn trunc_div(x: int, y: int) -> int {
    let ax = if x >= 0 {
        x
    } else {
        -x
    };
    let ay = if y >= 0 {
        y
    } else {
        -y
    };
    if (x >= 0) == (y > 0) || x == 0 {
        ax / ay
    } else {
        -(ax / ay)
    }
}

/// `x / y` on `i32`.
pub fn div_i32(x: i32, y: i32) -> (r: i32)
    requires
        y != 0,
        !(x == i32::MIN && y == -1),
    ensures
        r as int == trunc_div(x as int, y as int),
{
    let ax: u32 = if x >= 0 {
        x as u32
    } else {
        (-(x as i64)) as u32
    };
    let ay: u32 = if y >= 0 {
        y as u32
    } else {
        (-(y as i64)) as u32
    };
    let q: u32 = ax / ay;
    assert(q <= ax) by (nonlinear_arith)
        requires
            q == ax / ay,
            ay >= 1,
    ;
    assert(ay >= 2 ==> q <= ax / 2) by (nonlinear_arith)
        requires
            q == ax / ay,
            ay >= 1,
    ;
    if (x >= 0) == (y > 0) || x == 0 {
        q as i32
    } else {
        (-(q as i64)) as i32
    }
}


/// Whether `c[s..e]` is the text `word`.
pub fn text_is(c: &Vec<char>, s: usize, e: usize, word: &[char]) -> (r: bool)
    requires
        s <= e <= c@.len(),
    ensures
        r == (c@.subrange(s as int, e as int) == word@),
{
    if e - s != word.len() {
        return false;
    }
    let mut k: usize = 0;
    while k < word.len()
        invariant
            s <= e <= c@.len(),
            e - s == word@.len(),
            k <= word@.len(),
            forall|j: int| 0 <= j < k ==> c@[s + j] == word@[j],
        decreases word@.len() - k,
    {
        if c[s + k] != word[k] {
            return false;
        }
        k = k + 1;
    }
    assert(c@.subrange(s as int, e as int) =~= word@);
    true
}

} // verus!
