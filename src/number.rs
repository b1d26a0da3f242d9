//! Numeric attribute values. A number is kept as the decimal text it was read
//! from, so writing it back reproduces exactly the value that was read.
use crate::text::{eq_ignore_case, str_eq_ignore_case, copy_string};
use vstd::prelude::*;

verus! {

pub open spec fn is_digit(c: char) -> bool {
    '0' <= c && c <= '9'
}

/// Number of consecutive decimal digits in `s` from position `i`.
pub open spec fn digit_run(s: Seq<char>, i: int) -> int
    decreases s.len() - i,
{
    if 0 <= i < s.len() && is_digit(s[i]) {
        1 + digit_run(s, i + 1)
    } else {
        0
    }
}

/// Length (0 or 1) of an optional `+` or `-` at position `i`.
pub open spec fn sign_len(s: Seq<char>, i: int) -> int {
    if 0 <= i < s.len() && (s[i] == '+' || s[i] == '-') {
        1
    } else {
        0
    }
}

/// End of a decimal mantissa (`12`, `12.`, `12.5`, `.5`) that starts at `i`,
/// or `-1` when none starts there.
pub open spec fn mantissa_end(s: Seq<char>, i: int) -> int {
    let n1 = digit_run(s, i);
    if 0 <= i + n1 < s.len() && s[i + n1] == '.' {
        let n2 = digit_run(s, i + n1 + 1);
        if n1 + n2 > 0 {
            i + n1 + 1 + n2
        } else {
            -1
        }
    } else if n1 > 0 {
        i + n1
    } else {
        -1
    }
}

/// The text from `m` on is empty or an exponent: `e` or `E`, an optional sign, digits.
pub open spec fn exponent_ok(s: Seq<char>, m: int) -> bool {
    ||| m == s.len()
    ||| {
        &&& 0 <= m < s.len()
        &&& (s[m] == 'e' || s[m] == 'E')
        &&& digit_run(s, m + 1 + sign_len(s, m + 1)) > 0
        &&& m + 1 + sign_len(s, m + 1) + digit_run(s, m + 1 + sign_len(s, m + 1)) == s.len()
    }
}

/// `inf`, `infinity` or `nan`, in any ASCII case.
pub open spec fn is_special(t: Seq<char>) -> bool {
    ||| eq_ignore_case(t, seq!['i', 'n', 'f'])
    ||| eq_ignore_case(t, seq!['i', 'n', 'f', 'i', 'n', 'i', 't', 'y'])
    ||| eq_ignore_case(t, seq!['n', 'a', 'n'])
}

/// The text of a 64-bit floating-point number: an optional sign, then a
/// decimal mantissa with an optional exponent, or a special value.
pub open spec fn is_number_text(s: Seq<char>) -> bool {
    let i = sign_len(s, 0);
    ||| is_special(s.subrange(i, s.len() as int))
    ||| (mantissa_end(s, i) >= 0 && exponent_ok(s, mantissa_end(s, i)))
}

/// A 64-bit floating-point value of the format, held as its decimal text.
/// Lengths are numbers in meters.
#[derive(Debug, PartialEq)]
pub struct Number {
    pub text: String,
}

impl View for Number {
    type V = Seq<char>;

    open spec fn view(&self) -> Seq<char> {
        self.text@
    }
}

fn digit_run_exec(s: &str, i: usize) -> (r: usize)
    requires
        i <= s@.len(),
    ensures
        r == digit_run(s@, i as int),
        i + r <= s@.len(),
{
    let n = s.unicode_len();
    let mut j: usize = i;
    while j < n && '0' <= s.get_char(j) && s.get_char(j) <= '9'
        invariant
            n == s@.len(),
            i <= j <= n,
            digit_run(s@, i as int) == (j - i) + digit_run(s@, j as int),
        decreases n - j,
    {
        j = j + 1;
    }
    j - i
}

fn sign_len_exec(s: &str, i: usize) -> (r: usize)
    requires
        i <= s@.len(),
    ensures
        r == sign_len(s@, i as int),
{
    if i < s.unicode_len() && (s.get_char(i) == '+' || s.get_char(i) == '-') {
        1
    } else {
        0
    }
}

fn mantissa_end_exec(s: &str, i: usize) -> (r: Option<usize>)
    requires
        i <= s@.len(),
    ensures
        match r {
            Some(m) => m == mantissa_end(s@, i as int) && i <= m <= s@.len(),
            None => mantissa_end(s@, i as int) == -1,
        },
{
    let n = s.unicode_len();
    let n1 = digit_run_exec(s, i);
    if i + n1 < n && s.get_char(i + n1) == '.' {
        let n2 = digit_run_exec(s, i + n1 + 1);
        if n1 + n2 > 0 {
            Some(i + n1 + 1 + n2)
        } else {
            None
        }
    } else if n1 > 0 {
        Some(i + n1)
    } else {
        None
    }
}

fn exponent_ok_exec(s: &str, m: usize) -> (r: bool)
    requires
        m <= s@.len(),
    ensures
        r == exponent_ok(s@, m as int),
{
    let n = s.unicode_len();
    if m == n {
        return true;
    }
    if s.get_char(m) != 'e' && s.get_char(m) != 'E' {
        return false;
    }
    let p = m + 1 + sign_len_exec(s, m + 1);
    if p > n {
        return false;
    }
    let d = digit_run_exec(s, p);
    d > 0 && p + d == n
}

/// Decides whether `s` is the text of a floating-point number.
pub fn is_number_text_exec(s: &str) -> (r: bool)
    ensures
        r == is_number_text(s@),
{
    let i = sign_len_exec(s, 0);
    let rest = s.substring_char(i, s.unicode_len());
    proof {
        reveal_strlit("inf");
        reveal_strlit("infinity");
        reveal_strlit("nan");
    }
    if str_eq_ignore_case(rest, "inf") || str_eq_ignore_case(rest, "infinity")
        || str_eq_ignore_case(rest, "nan") {
        return true;
    }
    match mantissa_end_exec(s, i) {
        Some(m) => exponent_ok_exec(s, m),
        None => false,
    }
}

impl Number {
    /// Well-formed: the text is a number.
    pub open spec fn wf(&self) -> bool {
        is_number_text(self@)
    }

    /// Reads a number; `None` when the text is not one.
    pub fn parse(s: &str) -> (r: Option<Number>)
        ensures
            r is Some <==> is_number_text(s@),
            r is Some ==> r->0@ == s@ && r->0.wf(),
    {
        if is_number_text_exec(s) {
            Some(Number { text: s.to_owned() })
        } else {
            None
        }
    }

    /// The text written for this number: exactly the text it was read from.
    pub fn to_text(&self) -> (r: String)
        ensures
            r@ == self@,
    {
        copy_string(&self.text)
    }

    /// A copy of this number.
    pub fn copy(&self) -> (r: Number)
        ensures
            r@ == self@,
    {
        Number { text: copy_string(&self.text) }
    }
}

} // verus!
