//! Field text: trimming, and reading decimal integers from trimmed text.
use vstd::prelude::*;

verus! {

/// Whether `str::trim` counts `c` as white space (the Unicode `White_Space`
/// property).
pub uninterp spec fn white_space(c: char) -> bool;

/// `s` without its leading white space.
pub open spec fn trim_start(s: Seq<char>) -> Seq<char>
    decreases s.len(),
{
    if s.len() > 0 && white_space(s[0]) {
        trim_start(s.drop_first())
    } else {
        s
    }
}

/// `s` without its trailing white space.
pub open spec fn trim_end(s: Seq<char>) -> Seq<char>
    decreases s.len(),
{
    if s.len() > 0 && white_space(s.last()) {
        trim_end(s.drop_last())
    } else {
        s
    }
}

/// `s` without white space at either end.
pub open spec fn trimmed(s: Seq<char>) -> Seq<char> {
    trim_end(trim_start(s))
}

/// Relies on `str::trim`: the text with leading and trailing white space
/// removed.
#[verifier::external_body]
pub(crate) fn trim_text(s: &str) -> (r: String)
    ensures
        r@ == trimmed(s@),
        r@.len() > 0 ==> !white_space(r@[0]) && !white_space(r@.last()),
{
    s.trim().to_string()
}

pub open spec fn is_digit(c: char) -> bool {
    '0' <= c && c <= '9'
}

/// A non-empty run of ASCII decimal digits.
pub open spec fn all_digits(s: Seq<char>) -> bool {
    s.len() > 0 && forall|i: int| 0 <= i < s.len() ==> is_digit(#[trigger] s[i])
}

pub open spec fn digit_value(c: char) -> nat {
    (c as u32 - '0' as u32) as nat
}

/// The number that the digits of `s` write in base ten.
pub open spec fn digits_value(s: Seq<char>) -> nat
    decreases s.len(),
{
    if s.len() == 0 {
        0
    } else {
        digits_value(s.drop_last()) * 10 + digit_value(s.last())
    }
}

/// The integer that `s` writes: digits with an optional `+` or `-` in front.
pub open spec fn signed_literal(s: Seq<char>) -> Option<int> {
    if s.len() > 0 && s[0] == '-' && all_digits(s.drop_first()) {
        Some(-(digits_value(s.drop_first()) as int))
    } else if s.len() > 0 && s[0] == '+' && all_digits(s.drop_first()) {
        Some(digits_value(s.drop_first()) as int)
    } else if all_digits(s) {
        Some(digits_value(s) as int)
    } else {
        None
    }
}

/// The natural number that `s` writes: digits with an optional `+` in front.
pub open spec fn unsigned_literal(s: Seq<char>) -> Option<int> {
    if s.len() > 0 && s[0] == '+' && all_digits(s.drop_first()) {
        Some(digits_value(s.drop_first()) as int)
    } else if all_digits(s) {
        Some(digits_value(s) as int)
    } else {
        None
    }
}

/// The `i32` that `s` writes, or 0 where it writes none.
pub open spec fn i32_or_zero(s: Seq<char>) -> int {
    let v = signed_literal(s);
    if v is Some && i32::MIN <= v->0 <= i32::MAX {
        v->0
    } else {
        0
    }
}

/// The `usize` that `s` writes, or 99 where it writes none.
pub open spec fn usize_or_99(s: Seq<char>) -> int {
    let v = unsigned_literal(s);
    if v is Some && v->0 <= usize::MAX {
        v->0
    } else {
        99
    }
}

/// The life delta that a field gives: the `i32` it writes once trimmed, or 0
/// where it is empty, not a number, or out of range.
pub open spec fn life_delta_of(field: Seq<char>) -> int {
    i32_or_zero(trimmed(field))
}

/// The selection that an input line gives: the `usize` it writes once
/// trimmed, or 99 where it is not one.
pub open spec fn selection_of(line: Seq<char>) -> int {
    usize_or_99(trimmed(line))
}

/// Reads the digits of `s` from `from` to its end, as a number no larger than
/// `bound`.
fn digits_up_to(s: &str, from: usize, bound: u64) -> (r: Option<u64>)
    requires
        from <= s@.len(),
    ensures
        r == (if all_digits(s@.subrange(from as int, s@.len() as int)) && digits_value(
            s@.subrange(from as int, s@.len() as int),
        ) <= bound {
            Some(digits_value(s@.subrange(from as int, s@.len() as int)) as u64)
        } else {
            None
        }),
{
    let len = s.unicode_len();
    if from == len {
        return None;
    }
    let mut acc: u64 = 0;
    let mut over = false;
    let mut i: usize = from;
    while i < len
        invariant
            from <= i <= len,
            len == s@.len(),
            forall|k: int| from <= k < i ==> is_digit(#[trigger] s@[k]),
            over ==> digits_value(s@.subrange(from as int, i as int)) > bound,
            !over ==> acc == digits_value(s@.subrange(from as int, i as int)) && acc <= bound,
        decreases len - i,
    {
        let c = s.get_char(i);
        if !('0' <= c && c <= '9') {
            proof {
                let t = s@.subrange(from as int, len as int);
                assert(t[i - from] == c);
            }
            return None;
        }
        let d = (c as u32 - '0' as u32) as u64;
        let ghost prev = s@.subrange(from as int, i as int);
        let ghost next = s@.subrange(from as int, i + 1);
        assert(next.drop_last() =~= prev);
        assert(next.last() == c);
        assert(digits_value(next) == digits_value(prev) * 10 + d);
        if !over {
            if d > bound || acc > (bound - d) / 10 {
                over = true;
                assert(digits_value(next) > bound) by (nonlinear_arith)
                    requires
                        digits_value(next) == acc * 10 + d,
                        d > bound || acc > (bound - d) / 10,
                        d <= 9,
                ;
            } else {
                assert(acc * 10 + d <= bound) by (nonlinear_arith)
                    requires
                        d <= bound,
                        acc <= (bound - d) / 10,
                ;
                acc = acc * 10 + d;
            }
        } else {
            assert(digits_value(next) > bound) by (nonlinear_arith)
                requires
                    digits_value(next) == digits_value(prev) * 10 + d,
                    digits_value(prev) > bound,
            ;
        }
        i = i + 1;
    }
    assert(s@.subrange(from as int, i as int) =~= s@.subrange(from as int, len as int));
    if over {
        None
    } else {
        Some(acc)
    }
}

/// Reads the `i32` that `s` writes, with no white space around it; 0 where
/// it writes none.
pub fn read_i32_or_zero(s: &str) -> (r: i32)
    ensures
        r == i32_or_zero(s@),
{
    let ghost v = s@;
    let len = s.unicode_len();
    if len > 0 && s.get_char(0) == '-' {
        assert(s@.subrange(1, len as int) =~= v.drop_first());
        match digits_up_to(s, 1, 2147483648) {
            Some(n) => (0 - n as i64) as i32,
            None => 0,
        }
    } else if len > 0 && s.get_char(0) == '+' {
        assert(s@.subrange(1, len as int) =~= v.drop_first());
        match digits_up_to(s, 1, 2147483647) {
            Some(n) => n as i32,
            None => 0,
        }
    } else {
        assert(s@.subrange(0, len as int) =~= v);
        match digits_up_to(s, 0, 2147483647) {
            Some(n) => n as i32,
            None => 0,
        }
    }
}

/// Reads the `usize` that `s` writes, with no white space around it; 99
/// where it writes none.
pub fn read_usize_or_99(s: &str) -> (r: usize)
    ensures
        r == usize_or_99(s@),
{
    let ghost v = s@;
    let len = s.unicode_len();
    let found = if len > 0 && s.get_char(0) == '+' {
        assert(s@.subrange(1, len as int) =~= v.drop_first());
        digits_up_to(s, 1, usize::MAX as u64)
    } else {
        assert(s@.subrange(0, len as int) =~= v);
        digits_up_to(s, 0, usize::MAX as u64)
    };
    match found {
        Some(n) => n as usize,
        None => 99,
    }
}

/// Reads a life delta from a field: the `i32` the trimmed field writes, or 0
/// where it writes none.
pub fn parse_life_delta(field: &str) -> (r: i32)
    ensures
        r == life_delta_of(field@),
{
    let t = trim_text(field);
    read_i32_or_zero(t.as_str())
}

/// Reads a selection from an input line: the `usize` the trimmed line writes,
/// or 99 where it writes none.
pub fn parse_selection(line: &str) -> (r: usize)
    ensures
        r == selection_of(line@),
{
    let t = trim_text(line);
    read_usize_or_99(t.as_str())
}

} // verus!
