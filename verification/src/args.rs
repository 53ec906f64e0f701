//! Formatter arguments and the textual parsers for their values: unsigned
//! integers, booleans, and decimal fixed-point numbers.

use vstd::prelude::*;
use vstd::string::StrSliceExecFns;
use crate::fixed::{Fixed, pow10, SCALE};

verus! {

/// One `key=value` argument of a format specification.
#[derive(Debug, Clone)]
pub struct Arg {
    pub key: String,
    pub val: String,
}

/// Whether a character is a decimal digit.
pub open spec fn is_digit(c: char) -> bool {
    48 <= c as u32 <= 57
}

/// The numeric value of a digit character.
pub open spec fn digit_val(c: char) -> int {
    c as u32 - 48
}

/// Whether every character of the sequence is a decimal digit.
pub open spec fn all_digits(s: Seq<char>) -> bool {
    forall|i: int| 0 <= i < s.len() ==> is_digit(#[trigger] s[i])
}

/// The value of a sequence of decimal digits, most significant first.
pub open spec fn digits_val(s: Seq<char>) -> int
    decreases s.len(),
{
    if s.len() == 0 {
        0
    } else {
        digits_val(s.drop_last()) * 10 + digit_val(s.last())
    }
}

/// A digit string's value is nonnegative and below ten to its length.
pub proof fn lemma_digits_val_bounds(s: Seq<char>)
    requires
        all_digits(s),
    ensures
        0 <= digits_val(s) < pow10(s.len()),
    decreases s.len(),
{
    if s.len() > 0 {
        assert(all_digits(s.drop_last())) by {
            assert(forall|i: int|
                0 <= i < s.len() - 1 ==> s.drop_last()[i] == #[trigger] s[i]);
        }
        lemma_digits_val_bounds(s.drop_last());
        assert(pow10(s.len()) == 10 * pow10((s.len() - 1) as nat));
        assert(is_digit(s.last()));
    }
}

/// Extending a digit string to the right never lowers its value.
pub proof fn lemma_digits_prefix_le(s: Seq<char>, j: int)
    requires
        all_digits(s),
        0 <= j <= s.len(),
    ensures
        digits_val(s.take(j)) <= digits_val(s),
    decreases s.len() - j,
{
    if j == s.len() {
        assert(s.take(j) =~= s);
    } else {
        assert(all_digits(s.drop_last())) by {
            assert(forall|i: int|
                0 <= i < s.len() - 1 ==> s.drop_last()[i] == #[trigger] s[i]);
        }
        lemma_digits_prefix_le(s.drop_last(), j);
        assert(s.drop_last().take(j) =~= s.take(j));
        lemma_digits_val_bounds(s.drop_last());
        assert(is_digit(s.last()));
    }
}

/// The digits of an unsigned numeral: everything after an optional leading
/// plus sign.
pub open spec fn uint_body(s: Seq<char>) -> Seq<char> {
    if s.len() > 0 && s[0] == '+' {
        s.drop_first()
    } else {
        s
    }
}

/// Whether a string is an unsigned decimal numeral (optional `+`, then
/// one or more digits).
pub open spec fn is_uint_str(s: Seq<char>) -> bool {
    uint_body(s).len() > 0 && all_digits(uint_body(s))
}

/// The value of an unsigned decimal numeral.
pub open spec fn uint_val(s: Seq<char>) -> int {
    digits_val(uint_body(s))
}

/// Parse an unsigned integer: succeeds exactly on unsigned decimal numerals
/// whose value fits the machine word.
pub fn parse_usize(s: &str) -> (r: Option<usize>)
    ensures
        r matches Some(n) ==> is_uint_str(s@) && n as int == uint_val(s@),
        r is None ==> !(is_uint_str(s@) && uint_val(s@) <= usize::MAX as int),
{
    let n = s.unicode_len();
    let start: usize = if n > 0 && s.get_char(0) == '+' {
        1
    } else {
        0
    };
    let ghost body = uint_body(s@);
    proof {
        assert(body.len() == n - start);
        assert(forall|k: int| 0 <= k < body.len() ==> body[k] == s@[k + start]);
    }
    if n == start {
        return None;
    }
    let mut acc: u128 = 0;
    let mut i: usize = start;
    while i < n
        invariant
            n == s@.len(),
            start <= i <= n,
            start <= 1,
            body == uint_body(s@),
            body.len() == n - start,
            forall|k: int| 0 <= k < body.len() ==> body[k] == s@[k + start],
            all_digits(body.take(i - start)),
            acc as int == digits_val(body.take(i - start)),
            acc <= usize::MAX as u128,
        decreases n - i,
    {
        let c = s.get_char(i);
        let cu = c as u32;
        if cu < 48 || cu > 57 {
            proof {
                assert(body[i - start] == s@[i as int]);
                assert(!is_digit(body[i - start]));
            }
            return None;
        }
        let d = (cu - 48) as u128;
        acc = acc * 10 + d;
        proof {
            let t = body.take(i - start + 1);
            assert(t.drop_last() =~= body.take(i - start));
            assert(t.last() == body[i - start] && body[i - start] == s@[i as int]);
        }
        if acc > usize::MAX as u128 {
            proof {
                if all_digits(body) {
                    lemma_digits_prefix_le(body, i - start + 1);
                }
            }
            return None;
        }
        i += 1;
    }
    proof {
        assert(body.take(n - start) =~= body);
    }
    Some(acc as usize)
}

/// Parse a boolean: exactly the strings `true` and `false`.
pub fn parse_bool(s: &str) -> (r: Option<bool>)
    ensures
        s@ == "true"@ ==> r == Some(true),
        s@ == "false"@ ==> r == Some(false),
        s@ != "true"@ && s@ != "false"@ ==> r is None,
{
    proof {
        reveal_strlit("true");
        reveal_strlit("false");
        assert("true"@.len() == 4);
        assert("false"@.len() == 5);
    }
    if crate::text::str_eq(s, "true") {
        Some(true)
    } else if crate::text::str_eq(s, "false") {
        Some(false)
    } else {
        None
    }
}

/// The sign a numeral starts with.
pub open spec fn sign_of(s: Seq<char>) -> int {
    if s.len() > 0 && s[0] == '-' {
        -1
    } else {
        1
    }
}

/// The digits of a signed numeral: everything after an optional sign.
pub open spec fn num_body(s: Seq<char>) -> Seq<char> {
    if s.len() > 0 && (s[0] == '-' || s[0] == '+') {
        s.drop_first()
    } else {
        s
    }
}

/// Index of the first `.` in a sequence, or -1 when there is none.
pub open spec fn first_dot(s: Seq<char>) -> int
    decreases s.len(),
{
    if s.len() == 0 {
        -1
    } else if s[0] == '.' {
        0
    } else {
        let r = first_dot(s.drop_first());
        if r == -1 {
            -1
        } else {
            1 + r
        }
    }
}

/// A scan that stops at the first `.` finds `first_dot`.
pub proof fn lemma_first_dot(s: Seq<char>, i: int)
    requires
        0 <= i <= s.len(),
        forall|j: int| 0 <= j < i ==> s[j] != '.',
        i < s.len() ==> s[i] == '.',
    ensures
        first_dot(s) == if i < s.len() {
            i
        } else {
            -1
        },
    decreases s.len(),
{
    if s.len() == 0 {
    } else if s[0] == '.' {
        assert(i == 0);
    } else {
        assert(i >= 1);
        lemma_first_dot(s.drop_first(), i - 1);
    }
}

/// The largest whole part a fixed-point numeral may carry.
pub const WHOLE_MAX: i128 = 9_999_999_999_999_999_999;

/// The unit count carried by the first nine fraction digits (the engine's
/// full precision); further fraction digits are ignored.
pub open spec fn frac9_val(f: Seq<char>) -> int {
    if f.len() >= 9 {
        digits_val(f.take(9))
    } else {
        digits_val(f) * pow10((9 - f.len()) as nat)
    }
}

/// The unit count a decimal numeral denotes, if it has the accepted shape:
/// an optional sign, one or more digits, then optionally a dot and one or
/// more digits, with the whole part at most `WHOLE_MAX`.
pub open spec fn fixed_units_of(s: Seq<char>) -> Option<int> {
    let b = num_body(s);
    let d = first_dot(b);
    if d == -1 {
        if b.len() > 0 && all_digits(b) && digits_val(b) <= WHOLE_MAX as int {
            Some(sign_of(s) * digits_val(b) * SCALE as int)
        } else {
            None
        }
    } else {
        let w = b.take(d);
        let f = b.skip(d + 1);
        if w.len() > 0 && f.len() > 0 && all_digits(w) && all_digits(f) && digits_val(w)
            <= WHOLE_MAX as int {
            Some(sign_of(s) * (digits_val(w) * SCALE as int + frac9_val(f)))
        } else {
            None
        }
    }
}

/// Ten to a small power.
pub fn pow10x(e: usize) -> (r: u128)
    requires
        e <= 9,
    ensures
        r as int == pow10(e as nat),
        1 <= r <= 1_000_000_000,
{
    proof {
        reveal_with_fuel(pow10, 10);
    }
    match e {
        0 => 1,
        1 => 10,
        2 => 100,
        3 => 1_000,
        4 => 10_000,
        5 => 100_000,
        6 => 1_000_000,
        7 => 10_000_000,
        8 => 100_000_000,
        _ => 1_000_000_000,
    }
}

/// Parse a decimal fixed-point numeral. Succeeds exactly on the accepted
/// shape (see [`fixed_units_of`]); the value keeps the first nine fraction
/// digits.
#[verifier::rlimit(60)]
pub fn parse_fixed(s: &str) -> (r: Option<Fixed>)
    ensures
        r is Some <==> fixed_units_of(s@) is Some,
        r matches Some(v) ==> Some(v.units as int) == fixed_units_of(s@) && v.wf(),
{
    let cs = crate::text::to_chars(s);
    let n = cs.len();
    let neg = n > 0 && cs[0] == '-';
    let start: usize = if n > 0 && (cs[0] == '-' || cs[0] == '+') {
        1
    } else {
        0
    };
    let ghost b = num_body(s@);
    proof {
        assert(b.len() == n - start);
        assert(forall|k: int| 0 <= k < b.len() ==> b[k] == s@[k + start]);
        assert((sign_of(s@) == -1) == neg);
    }
    // find the first dot inside the body
    let mut dp: usize = n;
    let mut k: usize = start;
    while k < n
        invariant
            n == s@.len() == cs@.len(),
            cs@ == s@,
            start <= k <= n,
            dp == n || (start <= dp && dp < k && s@[dp as int] == '.'),
            forall|j: int| start <= j < k && j < dp ==> s@[j] != '.',
        decreases n - k,
    {
        if dp == n && cs[k] == '.' {
            dp = k;
        }
        k += 1;
    }
    proof {
        assert(forall|j: int| 0 <= j < dp - start ==> b[j] != '.');
        if dp < n {
            assert(b[dp - start] == s@[dp as int]);
        }
        lemma_first_dot(b, dp - start);
    }
    // whole part: digits in [start, dp)
    if dp == start {
        return None;
    }
    let mut whole: u128 = 0;
    let mut i: usize = start;
    while i < dp
        invariant
            n == s@.len() == cs@.len(),
            cs@ == s@,
            start <= i <= dp <= n,
            dp > start,
            b == num_body(s@),
            b.len() == n - start,
            first_dot(b) == if dp < n { dp - start } else { -1 },
            forall|k2: int| 0 <= k2 < b.len() ==> b[k2] == s@[k2 + start],
            all_digits(b.take(i - start)),
            whole as int == digits_val(b.take(i - start)),
            whole <= WHOLE_MAX as u128,
        decreases dp - i,
    {
        let c = cs[i];
        let cu = c as u32;
        if cu < 48 || cu > 57 {
            proof {
                assert(b[i - start] == s@[i as int]);
                assert(!is_digit(b[i - start]));
                if dp < n {
                    assert(b.take(dp - start)[i - start] == b[i - start]);
                }
            }
            return None;
        }
        let d = (cu - 48) as u128;
        whole = whole * 10 + d;
        proof {
            let t = b.take(i - start + 1);
            assert(t.drop_last() =~= b.take(i - start));
            assert(t.last() == b[i - start] && b[i - start] == s@[i as int]);
        }
        if whole > WHOLE_MAX as u128 {
            proof {
                let wlen: int = if dp < n { dp - start } else { b.len() as int };
                let w = b.take(wlen);
                assert(w.take(i - start + 1) =~= b.take(i - start + 1));
                if all_digits(w) {
                    lemma_digits_prefix_le(w, i - start + 1);
                }
                if dp == n {
                    assert(b.take(b.len() as int) =~= b);
                }
            }
            return None;
        }
        i += 1;
    }
    proof {
        if dp < n {
            assert(b.take(first_dot(b)) =~= b.take(dp - start));
        } else {
            assert(b.take(b.len() as int) =~= b);
        }
    }
    // fraction part, when a dot is present
    let mut frac9: u128 = 0;
    if dp < n {
        let fs = dp + 1;
        if fs == n {
            return None;
        }
        let ghost f = b.skip(dp - start + 1);
        proof {
            assert(f.len() == n - fs);
            assert(forall|k2: int| 0 <= k2 < f.len() ==> f[k2] == s@[k2 + fs]);
        }
        let mut j: usize = fs;
        let mut facc: u128 = 0;
        while j < n
            invariant
                n == s@.len() == cs@.len(),
                cs@ == s@,
                fs <= j <= n,
                fs == dp + 1,
                start <= dp < n,
                b == num_body(s@),
                b.len() == n - start,
                first_dot(b) == dp - start,
                f == b.skip(dp - start + 1),
                f.len() == n - fs,
                forall|k2: int| 0 <= k2 < f.len() ==> f[k2] == s@[k2 + fs],
                all_digits(f.take(j - fs)),
                j - fs <= 9 ==> facc as int == digits_val(f.take(j - fs)),
                j - fs > 9 ==> facc as int == digits_val(f.take(9)),
                facc < 1_000_000_000,
            decreases n - j,
        {
            let c = cs[j];
            let cu = c as u32;
            if cu < 48 || cu > 57 {
                proof {
                    assert(f[j - fs] == s@[j as int]);
                    assert(!is_digit(f[j - fs]));
                }
                return None;
            }
            if j - fs < 9 {
                let d = (cu - 48) as u128;
                proof {
                    lemma_digits_val_bounds(f.take(j - fs));
                    crate::fixed::lemma_pow10_mono((j - fs) as nat, 8);
                    reveal_with_fuel(pow10, 10);
                    let t = f.take(j - fs + 1);
                    assert(t.drop_last() =~= f.take(j - fs));
                    assert(t.last() == f[j - fs] && f[j - fs] == s@[j as int]);
                }
                facc = facc * 10 + d;
            }
            j += 1;
        }
        proof {
            assert(f.take(f.len() as int) =~= f);
        }
        let flen = n - fs;
        if flen >= 9 {
            frac9 = facc;
            proof {
                assert(frac9 as int == frac9_val(f));
            }
        } else {
            proof {
                assert(f.take(f.len() as int) =~= f);
            }
            let p = pow10x(9 - flen);
            proof {
                lemma_digits_val_bounds(f);
                crate::fixed::lemma_pow10_pos((9 - flen) as nat);
                crate::fixed::lemma_pow10_add(flen as nat, (9 - flen) as nat);
                assert(facc as int * pow10((9 - flen) as nat) < pow10(flen as nat) * pow10(
                    (9 - flen) as nat,
                )) by (nonlinear_arith)
                    requires
                        (facc as int) < pow10(flen as nat),
                        facc >= 0,
                        pow10((9 - flen) as nat) >= 1,
                ;
                reveal_with_fuel(pow10, 10);
            }
            frac9 = facc * p;
            proof {
                assert(frac9 as int == frac9_val(f));
            }
        }
        proof {
            assert(frac9 < 1_000_000_000);
        }
    }
    let mag: i128 = (whole as i128) * SCALE + (frac9 as i128);
    let units: i128 = if neg {
        -mag
    } else {
        mag
    };
    proof {
        let spec_r = fixed_units_of(s@);
        let sg = sign_of(s@);
        assert(sg == if neg {
            -1int
        } else {
            1int
        });
        if dp == n {
            assert(b.take(b.len() as int) =~= b);
            assert(spec_r == Some(sign_of(s@) * digits_val(b) * SCALE as int));
            let dv = digits_val(b);
            assert(sg * dv * SCALE as int == if neg {
                -(dv * SCALE as int)
            } else {
                dv * SCALE as int
            }) by (nonlinear_arith)
                requires
                    sg == if neg {
                        -1int
                    } else {
                        1int
                    },
            ;
            assert(units as int == sign_of(s@) * digits_val(b) * SCALE as int);
        } else {
            let w = b.take(first_dot(b));
            let f2 = b.skip(first_dot(b) + 1);
            assert(w =~= b.take(dp - start));
            assert(f2 =~= b.skip(dp - start + 1));
            assert(spec_r == Some(sign_of(s@) * (digits_val(w) * SCALE as int + frac9_val(f2))));
            let body_val = digits_val(w) * SCALE as int + frac9_val(f2);
            assert(sg * body_val == if neg {
                -body_val
            } else {
                body_val
            }) by (nonlinear_arith)
                requires
                    sg == if neg {
                        -1int
                    } else {
                        1int
                    },
            ;
            assert(units as int == sign_of(s@) * (digits_val(w) * SCALE as int + frac9_val(f2)));
        }
    }
    Some(Fixed { units })
}

} // verus!
