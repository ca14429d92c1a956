//! Unit conversion: byte counts to human-readable strings and back, and
//! second counts to human-readable durations.
//!
//! All quantities are integers; a fractional display value is carried as a
//! count of hundredths, which is exactly the two-decimal display precision.

use vstd::prelude::*;
use vstd::string::StrSliceExecFns;
use vstd::string::StringExecFns;
use vstd::arithmetic::div_mod::lemma_fundamental_div_mod;
use crate::strutil::digit_char;
use crate::strutil::digit_val;
use crate::strutil::digits_prefix_len;
use crate::strutil::digits_val;
use crate::strutil::is_digit;
use crate::strutil::is_space;
use crate::strutil::lower_char;
use crate::strutil::lower_seq;
use crate::strutil::spaces_prefix_len;
use crate::strutil::spec_trim;
use crate::strutil::trim;
use crate::strutil::trim_back;
use crate::strutil::trim_front;

verus! {

/// Bytes per unit at scale `k` (0 = bytes, 1 = K, 2 = M, ... 6 = E).
pub open spec fn unit_factor(binary: bool, k: nat) -> nat {
    if binary {
        if k == 0 {
            1
        } else if k == 1 {
            1024
        } else if k == 2 {
            1048576
        } else if k == 3 {
            1073741824
        } else if k == 4 {
            1099511627776
        } else if k == 5 {
            1125899906842624
        } else {
            1152921504606846976
        }
    } else {
        if k == 0 {
            1
        } else if k == 1 {
            1000
        } else if k == 2 {
            1000000
        } else if k == 3 {
            1000000000
        } else if k == 4 {
            1000000000000
        } else if k == 5 {
            1000000000000000
        } else {
            1000000000000000000
        }
    }
}

/// The largest scale whose unit is at most `n` (0 for `n` = 0).
pub open spec fn spec_scale(n: u64, binary: bool) -> nat {
    if (n as nat) < unit_factor(binary, 1) {
        0
    } else if (n as nat) < unit_factor(binary, 2) {
        1
    } else if (n as nat) < unit_factor(binary, 3) {
        2
    } else if (n as nat) < unit_factor(binary, 4) {
        3
    } else if (n as nat) < unit_factor(binary, 5) {
        4
    } else if (n as nat) < unit_factor(binary, 6) {
        5
    } else {
        6
    }
}

/// `n` at its display scale, in hundredths of the unit, rounded half-up.
pub open spec fn spec_hundredths(n: u64, binary: bool) -> nat {
    let b = unit_factor(binary, spec_scale(n, binary)) as int;
    ((200 * n / b + 1) / 2) as nat
}

/// Decimal digit string of a natural number, most significant first.
pub open spec fn dec_digits(x: nat) -> Seq<char>
    decreases x,
{
    if x < 10 {
        seq![digit_char(x)]
    } else {
        dec_digits(x / 10) + seq![digit_char(x % 10)]
    }
}

/// The unit suffix displayed at scale `k`.
pub open spec fn unit_suffix(binary: bool, k: nat) -> Seq<char> {
    if k == 0 {
        "B"@
    } else if binary {
        if k == 1 {
            "KiB"@
        } else if k == 2 {
            "MiB"@
        } else if k == 3 {
            "GiB"@
        } else if k == 4 {
            "TiB"@
        } else if k == 5 {
            "PiB"@
        } else {
            "EiB"@
        }
    } else {
        if k == 1 {
            "KB"@
        } else if k == 2 {
            "MB"@
        } else if k == 3 {
            "GB"@
        } else if k == 4 {
            "TB"@
        } else if k == 5 {
            "PB"@
        } else {
            "EB"@
        }
    }
}

/// The human-readable rendering of a byte count: the value scaled to its
/// largest unit, with exactly two decimal digits and the unit suffix.
pub open spec fn spec_byte2str(n: u64, binary: bool) -> Seq<char> {
    let k = spec_scale(n, binary);
    let h = spec_hundredths(n, binary);
    dec_digits(h / 100) + seq!['.', digit_char((h % 100) / 10), digit_char((h % 100) % 10), ' ']
        + unit_suffix(binary, k)
}

/// Appends one decimal digit character.
fn push_digit(s: &mut String, d: u64)
    requires
        d < 10,
    ensures
        final(s)@ == old(s)@ + seq![digit_char(d as nat)],
{
    let lit: &str = if d == 0 {
        "0"
    } else if d == 1 {
        "1"
    } else if d == 2 {
        "2"
    } else if d == 3 {
        "3"
    } else if d == 4 {
        "4"
    } else if d == 5 {
        "5"
    } else if d == 6 {
        "6"
    } else if d == 7 {
        "7"
    } else if d == 8 {
        "8"
    } else {
        "9"
    };
    proof {
        reveal_strlit("0");
        reveal_strlit("1");
        reveal_strlit("2");
        reveal_strlit("3");
        reveal_strlit("4");
        reveal_strlit("5");
        reveal_strlit("6");
        reveal_strlit("7");
        reveal_strlit("8");
        reveal_strlit("9");
        assert(lit@ =~= seq![digit_char(d as nat)]);
    }
    s.append(lit);
}

/// Appends the decimal digit string of `x`.
fn push_dec(s: &mut String, x: u64)
    ensures
        final(s)@ == old(s)@ + dec_digits(x as nat),
    decreases x,
{
    if x < 10 {
        push_digit(s, x);
    } else {
        push_dec(s, x / 10);
        push_digit(s, x % 10);
        proof {
            assert(old(s)@ + dec_digits((x / 10) as nat) + seq![digit_char((x % 10) as nat)]
                =~= old(s)@ + dec_digits(x as nat));
        }
    }
}

/// Scales a byte count into its largest unit and renders it with two
/// decimal digits and a unit suffix, as in "1.50 GiB" or "1.50 GB".
pub fn byte2str(num: u64, binary: bool) -> (r: String)
    ensures
        r@ == spec_byte2str(num, binary),
{
    let f1: u64 = if binary {
        1024
    } else {
        1000
    };
    let f2: u64 = if binary {
        1048576
    } else {
        1000000
    };
    let f3: u64 = if binary {
        1073741824
    } else {
        1000000000
    };
    let f4: u64 = if binary {
        1099511627776
    } else {
        1000000000000
    };
    let f5: u64 = if binary {
        1125899906842624
    } else {
        1000000000000000
    };
    let f6: u64 = if binary {
        1152921504606846976
    } else {
        1000000000000000000
    };
    let k: u64;
    let b: u64;
    if num < f1 {
        k = 0;
        b = 1;
    } else if num < f2 {
        k = 1;
        b = f1;
    } else if num < f3 {
        k = 2;
        b = f2;
    } else if num < f4 {
        k = 3;
        b = f3;
    } else if num < f5 {
        k = 4;
        b = f4;
    } else if num < f6 {
        k = 5;
        b = f5;
    } else {
        k = 6;
        b = f6;
    }
    proof {
        assert(k as nat == spec_scale(num, binary));
        assert(b as nat == unit_factor(binary, spec_scale(num, binary)));
    }
    let t: u128 = 200u128 * (num as u128) / (b as u128) + 1;
    let h128: u128 = t / 2;
    proof {
        let q = 200 * (num as int) / (b as int);
        lemma_fundamental_div_mod(200 * (num as int), b as int);
        if b == 1 {
            assert(num < 1024);
            assert(h128 <= 103000);
        } else {
            assert(b >= 1000);
            assert(q * (b as int) <= 200 * (num as int)) by {
                lemma_fundamental_div_mod(200 * (num as int), b as int);
            }
            assert(q * 1000 <= q * (b as int)) by (nonlinear_arith)
                requires
                    q >= 0,
                    b as int >= 1000,
            ;
            assert(q <= 3689348814741910323);
        }
        assert(h128 <= u64::MAX);
        assert(h128 as nat == spec_hundredths(num, binary));
    }
    let h: u64 = h128 as u64;
    let hh: u64 = h % 100;
    let mut r = String::new();
    push_dec(&mut r, h / 100);
    r.append(".");
    push_digit(&mut r, hh / 10);
    push_digit(&mut r, hh % 10);
    r.append(" ");
    let suffix: &str = if k == 0 {
        "B"
    } else if binary {
        if k == 1 {
            "KiB"
        } else if k == 2 {
            "MiB"
        } else if k == 3 {
            "GiB"
        } else if k == 4 {
            "TiB"
        } else if k == 5 {
            "PiB"
        } else {
            "EiB"
        }
    } else {
        if k == 1 {
            "KB"
        } else if k == 2 {
            "MB"
        } else if k == 3 {
            "GB"
        } else if k == 4 {
            "TB"
        } else if k == 5 {
            "PB"
        } else {
            "EB"
        }
    };
    r.append(suffix);
    proof {
        reveal_strlit(".");
        reveal_strlit(" ");
        assert(r@ =~= spec_byte2str(num, binary));
    }
    r
}

/// Bytes per unit for a lower-cased unit prefix letter, if it is one.
pub open spec fn spec_prefix_factor(c: char, binary: bool) -> Option<nat> {
    if c == 'k' {
        Some(unit_factor(binary, 1))
    } else if c == 'm' {
        Some(unit_factor(binary, 2))
    } else if c == 'g' {
        Some(unit_factor(binary, 3))
    } else if c == 't' {
        Some(unit_factor(binary, 4))
    } else if c == 'p' {
        Some(unit_factor(binary, 5))
    } else if c == 'e' {
        Some(unit_factor(binary, 6))
    } else {
        None
    }
}

/// Bytes per unit named by a suffix, compared case-insensitively: "" or "B"
/// is bytes; a prefix letter alone or with "B" is decimal; with "i" or "iB"
/// it is binary.
pub open spec fn spec_unit_factor_of(u: Seq<char>) -> Option<nat> {
    let l = lower_seq(u);
    if l.len() == 0 {
        Some(1)
    } else if l == seq!['b'] {
        Some(1)
    } else if l.len() == 1 {
        spec_prefix_factor(l[0], false)
    } else if l.len() == 2 && l[1] == 'b' {
        spec_prefix_factor(l[0], false)
    } else if l.len() == 2 && l[1] == 'i' {
        spec_prefix_factor(l[0], true)
    } else if l.len() == 3 && l[1] == 'i' && l[2] == 'b' {
        spec_prefix_factor(l[0], true)
    } else {
        None
    }
}

/// Ten to the power `d`.
pub open spec fn pow10(d: nat) -> nat
    decreases d,
{
    if d == 0 {
        1
    } else {
        10 * pow10((d - 1) as nat)
    }
}

/// What `parse_bytes` accepts and returns. The input, once trimmed, must be
/// digits, an optional fraction of one to nineteen digits (the converter's
/// exact precision; longer fractions are rejected), optional spaces and a
/// unit suffix; the value is the number times the unit's byte factor,
/// rounded half-up, and saturates at `u64::MAX`.
pub open spec fn spec_parse_bytes(s: Seq<char>) -> Option<u64> {
    let t = spec_trim(s);
    let d1 = digits_prefix_len(t) as int;
    if d1 == 0 {
        None
    } else {
        let m = digits_val(t.subrange(0, d1));
        let rest1 = t.subrange(d1, t.len() as int);
        if rest1.len() > 0 && rest1[0] == '.' {
            let f = digits_prefix_len(rest1.drop_first()) as int;
            if f == 0 || f > 19 {
                None
            } else {
                let fd = rest1.subrange(1, 1 + f);
                spec_bytes_of(
                    m,
                    f as nat,
                    digits_val(fd),
                    rest1.subrange(1 + f, rest1.len() as int),
                )
            }
        } else {
            spec_bytes_of(m, 0, 0, rest1)
        }
    }
}

/// Applies the unit suffix in `rest` (after optional spaces) to the number
/// `m` + `fv`/10^`d`, rounding half-up at the unit's byte granularity.
pub open spec fn spec_bytes_of(m: nat, d: nat, fv: nat, rest: Seq<char>) -> Option<u64> {
    let sp = spaces_prefix_len(rest) as int;
    let u = rest.subrange(sp, rest.len() as int);
    let p = pow10(d);
    match spec_unit_factor_of(u) {
        None => None,
        Some(fac) => {
            let v = (2 * (m * p + fv) * fac + p) / (2 * p);
            Some(
                if v > u64::MAX {
                    u64::MAX
                } else {
                    v as u64
                },
            )
        },
    }
}

/// Lower-cases one ASCII letter.
fn lower_char_exec(c: char) -> (r: char)
    ensures
        r == lower_char(c),
{
    let u = c as u32;
    if 65 <= u && u <= 90 {
        ((u + 32) as u8) as char
    } else {
        c
    }
}

/// Bytes per unit for a lower-cased prefix letter.
fn prefix_factor(c: char, binary: bool) -> (r: Option<u64>)
    ensures
        match r {
            Some(f) => spec_prefix_factor(c, binary) == Some(f as nat),
            None => spec_prefix_factor(c, binary) is None,
        },
{
    if c == 'k' {
        Some(
            if binary {
                1024
            } else {
                1000
            },
        )
    } else if c == 'm' {
        Some(
            if binary {
                1048576
            } else {
                1000000
            },
        )
    } else if c == 'g' {
        Some(
            if binary {
                1073741824
            } else {
                1000000000
            },
        )
    } else if c == 't' {
        Some(
            if binary {
                1099511627776
            } else {
                1000000000000
            },
        )
    } else if c == 'p' {
        Some(
            if binary {
                1125899906842624
            } else {
                1000000000000000
            },
        )
    } else if c == 'e' {
        Some(
            if binary {
                1152921504606846976
            } else {
                1000000000000000000
            },
        )
    } else {
        None
    }
}

/// Decides the byte factor of a unit suffix, case-insensitively.
fn unit_factor_of(u: &str) -> (r: Option<u64>)
    ensures
        match r {
            Some(f) => spec_unit_factor_of(u@) == Some(f as nat),
            None => spec_unit_factor_of(u@) is None,
        },
{
    let n = u.unicode_len();
    if n == 0 {
        return Some(1);
    }
    let c0 = lower_char_exec(u.get_char(0));
    proof {
        assert(lower_seq(u@).len() == u@.len());
        assert(lower_seq(u@)[0] == lower_char(u@[0]));
    }
    if n == 1 {
        proof {
            assert(lower_seq(u@) =~= seq![lower_char(u@[0])]);
        }
        if c0 == 'b' {
            Some(1)
        } else {
            proof {
                assert(lower_seq(u@) != seq!['b']);
            }
            prefix_factor(c0, false)
        }
    } else if n == 2 {
        let c1 = lower_char_exec(u.get_char(1));
        proof {
            assert(lower_seq(u@)[1] == lower_char(u@[1]));
        }
        if c1 == 'b' {
            prefix_factor(c0, false)
        } else if c1 == 'i' {
            prefix_factor(c0, true)
        } else {
            None
        }
    } else if n == 3 {
        let c1 = lower_char_exec(u.get_char(1));
        let c2 = lower_char_exec(u.get_char(2));
        proof {
            assert(lower_seq(u@)[1] == lower_char(u@[1]));
            assert(lower_seq(u@)[2] == lower_char(u@[2]));
        }
        if c1 == 'i' && c2 == 'b' {
            prefix_factor(c0, true)
        } else {
            None
        }
    } else {
        None
    }
}

/// Reads the digits of `s` between `from` and `to` as a base-ten value;
/// `None` when the value exceeds `u64::MAX`.
fn digits_to_val(s: &str, from: usize, to: usize) -> (r: Option<u64>)
    requires
        from <= to <= s@.len(),
        forall|j: int| from <= j < to ==> is_digit(s@[j]),
    ensures
        match r {
            Some(v) => v == digits_val(s@.subrange(from as int, to as int)),
            None => digits_val(s@.subrange(from as int, to as int)) > u64::MAX,
        },
{
    let ghost whole = s@.subrange(from as int, to as int);
    let mut acc: u64 = 0;
    let mut i: usize = from;
    while i < to
        invariant
            from <= i <= to <= s@.len(),
            forall|j: int| from <= j < to ==> is_digit(s@[j]),
            whole == s@.subrange(from as int, to as int),
            acc == digits_val(s@.subrange(from as int, i as int)),
        decreases to - i,
    {
        let c = s.get_char(i) as u32;
        let d = (c - 48) as u64;
        let wide: u128 = (acc as u128) * 10 + (d as u128);
        proof {
            assert(s@.subrange(from as int, i as int + 1).drop_last() =~= s@.subrange(
                from as int,
                i as int,
            ));
        }
        if wide > u64::MAX as u128 {
            proof {
                let k = i as int + 1 - from;
                assert(whole.subrange(0, k) =~= s@.subrange(from as int, i as int + 1));
                assert(digits_val(whole.subrange(0, k)) > u64::MAX);
                lemma_digits_val_prefix_le_sub(whole, k);
            }
            return None;
        }
        acc = wide as u64;
        i += 1;
    }
    proof {
        assert(s@.subrange(from as int, to as int) =~= whole);
    }
    Some(acc)
}

/// Restates the digit-prefix bound for subranges.
proof fn lemma_digits_val_prefix_le_sub(s: Seq<char>, k: int)
    requires
        0 <= k <= s.len(),
        forall|j: int| 0 <= j < s.len() ==> is_digit(s[j]),
    ensures
        digits_val(s.subrange(0, k)) <= digits_val(s),
{
    crate::strutil::lemma_digits_val_prefix_le(s, k);
}

/// Parses a human-readable byte quantity such as "1.50 GiB", "512 KB" or
/// "100", yielding its canonical byte count; `None` on malformed input.
#[verifier::rlimit(80)]
pub fn parse_bytes(s: &str) -> (r: Option<u64>)
    ensures
        r == spec_parse_bytes(s@),
{
    let t = trim(s);
    let ts = t.as_str();
    let n = ts.unicode_len();
    let mut i: usize = 0;
    while i < n && crate::strutil::is_digit_exec(ts.get_char(i))
        invariant
            n == ts@.len(),
            ts@ == spec_trim(s@),
            0 <= i <= n,
            forall|j: int| 0 <= j < i ==> is_digit(ts@[j]),
        decreases n - i,
    {
        i += 1;
    }
    proof {
        crate::strutil::lemma_digits_prefix_exact(ts@, i as int);
    }
    if i == 0 {
        return None;
    }
    let m_opt = digits_to_val(ts, 0, i);
    let ghost m = digits_val(ts@.subrange(0, i as int));
    let ghost rest1 = ts@.subrange(i as int, n as int);
    let mut pos: usize = i;
    let mut fv: u64 = 0;
    let mut p: u64 = 1;
    let ghost mut gd: nat = 0nat;
    proof {
        assert(pow10(0) == 1);
    }
    if pos < n && ts.get_char(pos) == '.' {
        let fstart = pos + 1;
        let mut j = fstart;
        while j < n && crate::strutil::is_digit_exec(ts.get_char(j))
            invariant
                n == ts@.len(),
                fstart <= j <= n,
                forall|k: int| fstart <= k < j ==> is_digit(ts@[k]),
            decreases n - j,
        {
            j += 1;
        }
        proof {
            let tail = rest1.drop_first();
            assert(tail =~= ts@.subrange(fstart as int, n as int));
            assert(forall|k: int|
                0 <= k < j - fstart ==> is_digit(tail[k]) == is_digit(
                    ts@[k + fstart],
                ));
            crate::strutil::lemma_digits_prefix_exact(tail, j - fstart);
        }
        if j == fstart {
            return None;
        }
        let f = j - fstart;
        if f > 19 {
            return None;
        }
        let ghost fd = rest1.subrange(1, 1 + f as int);
        proof {
            assert(fd =~= ts@.subrange(fstart as int, j as int));
            lemma_digits_val_lt_pow10(fd);
            lemma_pow10_mono(fd.len(), 19);
            lemma_pow10_19();
        }
        fv = match digits_to_val(ts, fstart, j) {
            Some(v) => v,
            None => {
                return None;
            },
        };
        p = pow10_exec(f);
        proof {
            gd = f as nat;
        }
        pos = j;
    }
    let ghost rest2 = ts@.subrange(pos as int, n as int);
    proof {
        if rest1.len() > 0 && rest1[0] == '.' {
            let f = digits_prefix_len(rest1.drop_first()) as int;
            assert(rest1.subrange(1 + f, rest1.len() as int) =~= rest2);
        } else {
            assert(rest1 =~= rest2);
        }
    }
    let sp_start = pos;
    let mut pos2 = pos;
    while pos2 < n && crate::strutil::is_space_exec(ts.get_char(pos2))
        invariant
            n == ts@.len(),
            sp_start <= pos2 <= n,
            forall|k: int| sp_start <= k < pos2 ==> is_space(ts@[k]),
        decreases n - pos2,
    {
        pos2 += 1;
    }
    proof {
        assert(forall|k: int|
            0 <= k < pos2 - sp_start ==> is_space(rest2[k]) == is_space(ts@[k + sp_start]));
        crate::strutil::lemma_spaces_prefix_exact(rest2, pos2 - sp_start);
        let sp = spaces_prefix_len(rest2) as int;
        assert(rest2.subrange(sp, rest2.len() as int) =~= ts@.subrange(pos2 as int, n as int));
    }
    let u = ts.substring_char(pos2, n);
    let fac = match unit_factor_of(u) {
        None => {
            return None;
        },
        Some(f) => f,
    };
    proof {
        assert(fac >= 1);
        lemma_pow10_pos(gd);
        assert(fv < p);
    }
    match m_opt {
        None => {
            proof {
                lemma_bytes_of_ge_m(m, fv as nat, fac as nat, p as nat);
            }
            Some(u64::MAX)
        },
        Some(mv) => {
            if fac > 1 {
                let lim = u64::MAX / fac;
                if mv > lim {
                    proof {
                        lemma_fundamental_div_mod(u64::MAX as int, fac as int);
                        assert((mv as int) * (fac as int) > u64::MAX) by (nonlinear_arith)
                            requires
                                mv as int >= (u64::MAX as int) / (fac as int) + 1,
                                fac as int >= 1,
                                (u64::MAX as int) / (fac as int) * (fac as int) + fac as int
                                    > u64::MAX,
                        ;
                        lemma_bytes_of_ge_m_times_fac(mv as nat, fv as nat, fac as nat, p as nat);
                        assert((mv as nat) * (fac as nat) > u64::MAX);
                    }
                    return Some(u64::MAX);
                }
            }
            proof {
                lemma_fundamental_div_mod(u64::MAX as int, fac as int);
                assert((mv as int) * (fac as int) <= u64::MAX) by (nonlinear_arith)
                    requires
                        fac as int >= 1,
                        mv >= 0,
                        fac > 1 ==> mv as int <= (u64::MAX as int) / (fac as int),
                        fac as int == 1 ==> mv as int <= u64::MAX as int,
                        (u64::MAX as int) / (fac as int) * (fac as int) + (fac as int) - 1
                            >= u64::MAX,
                ;
                assert(2 * (fv as int) * (fac as int) <= 2 * (u64::MAX as int) * (
                1152921504606846976 as int)) by (nonlinear_arith)
                    requires
                        0 <= fv as int <= u64::MAX as int,
                        0 <= fac as int <= 1152921504606846976,
                ;
            }
            let num: u128 = 2u128 * (fv as u128) * (fac as u128) + (p as u128);
            let den: u128 = 2u128 * (p as u128);
            let w: u128 = num / den;
            proof {
                assert((num as int) < (den as int) * ((fac as int) + 1)) by (nonlinear_arith)
                    requires
                        num as int == 2 * (fv as int) * (fac as int) + p as int,
                        den as int == 2 * (p as int),
                        0 <= fv as int,
                        (fv as int) < (p as int),
                        fac as int >= 1,
                ;
                lemma_fundamental_div_mod(num as int, den as int);
                assert(w as int <= fac as int) by (nonlinear_arith)
                    requires
                        num as int == den as int * (w as int) + (num as int % den as int),
                        0 <= num as int % den as int,
                        (num as int) < (den as int) * ((fac as int) + 1),
                        den as int >= 2,
                        w >= 0,
                ;
            }
            let v128: u128 = (mv as u128) * (fac as u128) + w;
            let out: u64 = if v128 > u64::MAX as u128 {
                u64::MAX
            } else {
                v128 as u64
            };
            proof {
                let mi = mv as int;
                let fi = fac as int;
                let pi = p as int;
                let fvi = fv as int;
                let wq = (2 * fvi * fi + pi) / (2 * pi);
                let wr = (2 * fvi * fi + pi) % (2 * pi);
                lemma_fundamental_div_mod(2 * fvi * fi + pi, 2 * pi);
                assert(w as int == wq);
                assert(2 * (mi * pi + fvi) * fi + pi == (mi * fi + wq) * (2 * pi) + wr)
                    by (nonlinear_arith)
                    requires
                        2 * fvi * fi + pi == (2 * pi) * wq + wr,
                ;
                vstd::arithmetic::div_mod::lemma_fundamental_div_mod_converse(
                    2 * (mi * pi + fvi) * fi + pi,
                    2 * pi,
                    mi * fi + wq,
                    wr,
                );
                assert((2 * ((m * (p as nat) + fv as nat) as int) * fi + pi) / (2 * pi) == mi * fi
                    + wq);
                assert(v128 as int == mi * fi + wq);
            }
            Some(out)
        },
    }
}

/// Computes ten to the power `d`.
fn pow10_exec(d: usize) -> (r: u64)
    requires
        d <= 19,
    ensures
        r as nat == pow10(d as nat),
{
    let mut r: u64 = 1;
    let mut j: usize = 0;
    while j < d
        invariant
            0 <= j <= d <= 19,
            r as nat == pow10(j as nat),
        decreases d - j,
    {
        proof {
            lemma_pow10_mono(j as nat, 18);
            lemma_pow10_19();
            assert(pow10(19) == 10 * pow10(18));
        }
        r = r * 10;
        j += 1;
    }
    r
}

/// Ten-powers are positive.
proof fn lemma_pow10_pos(d: nat)
    ensures
        pow10(d) >= 1,
    decreases d,
{
    if d > 0 {
        lemma_pow10_pos((d - 1) as nat);
    }
}

/// Ten-powers grow with the exponent.
proof fn lemma_pow10_mono(a: nat, b: nat)
    requires
        a <= b,
    ensures
        pow10(a) <= pow10(b),
    decreases b,
{
    if a < b {
        lemma_pow10_mono(a, (b - 1) as nat);
        lemma_pow10_pos((b - 1) as nat);
    }
}

/// The largest fraction precision the converter carries fits in a `u64`.
proof fn lemma_pow10_19()
    ensures
        pow10(19) == 10000000000000000000,
{
    reveal_with_fuel(pow10, 21);
}

/// A digit string's value is below ten to its length.
proof fn lemma_digits_val_lt_pow10(s: Seq<char>)
    requires
        forall|j: int| 0 <= j < s.len() ==> is_digit(s[j]),
    ensures
        digits_val(s) < pow10(s.len()),
    decreases s.len(),
{
    if s.len() == 0 {
    } else {
        let t = s.drop_last();
        lemma_digits_val_lt_pow10(t);
        assert(digits_val(s) == digits_val(t) * 10 + digit_val(s.last()));
        assert(pow10(s.len()) == 10 * pow10(t.len()));
    }
}

/// The saturating value formula is at least the integer part.
proof fn lemma_bytes_of_ge_m(m: nat, fv: nat, fac: nat, p: nat)
    requires
        fac >= 1,
        p >= 1,
    ensures
        (2 * (m * p + fv) * fac + p) / (2 * p) >= m,
{
    let a: int = (2 * (m * p + fv) * fac + p) as int;
    let c: int = (2 * p * m + p) as int;
    assert(a >= c) by (nonlinear_arith)
        requires
            a == 2 * (m * p + fv) * fac + p,
            c == 2 * p * m + p,
            fac >= 1,
            m >= 0,
            fv >= 0,
            p >= 1,
    ;
    vstd::arithmetic::div_mod::lemma_div_is_ordered(c, a, 2 * p as int);
    assert(c / (2 * p as int) == m) by {
        assert(c == (m as int) * (2 * p as int) + p as int) by (nonlinear_arith)
            requires
                c == 2 * p * m + p,
        ;
        vstd::arithmetic::div_mod::lemma_fundamental_div_mod_converse(
            c,
            2 * p as int,
            m as int,
            p as int,
        );
    }
}

/// The saturating value formula is at least integer part times factor.
proof fn lemma_bytes_of_ge_m_times_fac(m: nat, fv: nat, fac: nat, p: nat)
    requires
        fac >= 1,
        p >= 1,
    ensures
        (2 * (m * p + fv) * fac + p) / (2 * p) >= m * fac,
{
    let a: int = (2 * (m * p + fv) * fac + p) as int;
    let c: int = (2 * p * (m * fac) + p) as int;
    assert(a >= c) by (nonlinear_arith)
        requires
            a == 2 * (m * p + fv) * fac + p,
            c == 2 * p * (m * fac) + p,
            fac >= 1,
            m >= 0,
            fv >= 0,
            p >= 1,
    ;
    vstd::arithmetic::div_mod::lemma_div_is_ordered(c, a, 2 * p as int);
    assert(c / (2 * p as int) == m * fac) by {
        assert(c == ((m * fac) as int) * (2 * p as int) + p as int) by (nonlinear_arith)
            requires
                c == 2 * p * (m * fac) + p,
        ;
        vstd::arithmetic::div_mod::lemma_fundamental_div_mod_converse(
            c,
            2 * p as int,
            (m * fac) as int,
            p as int,
        );
    }
}

/// Joins pieces with single spaces.
pub open spec fn join_sp(ps: Seq<Seq<char>>) -> Seq<char>
    decreases ps.len(),
{
    if ps.len() == 0 {
        Seq::<char>::empty()
    } else if ps.len() == 1 {
        ps[0]
    } else {
        ps[0] + seq![' '] + join_sp(ps.drop_first())
    }
}

/// The non-zero components of a duration, largest unit first: days, hours,
/// minutes, seconds.
pub open spec fn spec_duration_pieces(secs: u64) -> Seq<Seq<char>> {
    let d = secs / 86400;
    let h = (secs % 86400) / 3600;
    let m = (secs % 3600) / 60;
    let s = secs % 60;
    (if d > 0 {
        seq![
            dec_digits(d as nat) + (if d == 1 {
                "day"@
            } else {
                "days"@
            }),
        ]
    } else {
        Seq::<Seq<char>>::empty()
    }) + (if h > 0 {
        seq![dec_digits(h as nat) + "h"@]
    } else {
        Seq::<Seq<char>>::empty()
    }) + (if m > 0 {
        seq![dec_digits(m as nat) + "m"@]
    } else {
        Seq::<Seq<char>>::empty()
    }) + (if s > 0 {
        seq![dec_digits(s as nat) + "s"@]
    } else {
        Seq::<Seq<char>>::empty()
    })
}

/// The rendering of a duration: its non-zero components joined by spaces,
/// or "0s" for the zero duration.
pub open spec fn spec_s2time(secs: u64) -> Seq<char> {
    if secs == 0 {
        "0s"@
    } else {
        join_sp(spec_duration_pieces(secs))
    }
}

/// Joins the pieces from index `i` on with single spaces.
fn join_from(pieces: &Vec<String>, i: usize) -> (r: String)
    requires
        i < pieces@.len(),
    ensures
        r@ == join_sp(pieces@.map_values(|p: String| p@).subrange(i as int, pieces@.len() as int)),
    decreases pieces@.len() - i,
{
    let ghost vs = pieces@.map_values(|p: String| p@);
    if i == pieces.len() - 1 {
        proof {
            assert(vs.subrange(i as int, vs.len() as int) =~= seq![vs[i as int]]);
        }
        pieces[i].clone()
    } else {
        let mut r = pieces[i].clone();
        r.append(" ");
        let tail = join_from(pieces, i + 1);
        r.append(tail.as_str());
        proof {
            reveal_strlit(" ");
            let sub = vs.subrange(i as int, vs.len() as int);
            assert(sub.drop_first() =~= vs.subrange(i as int + 1, vs.len() as int));
            assert(r@ =~= join_sp(sub));
        }
        r
    }
}

/// Renders a second count as a compact duration, largest unit first,
/// omitting zero-valued components, as in "2days 3h 4m 5s".
pub fn s2time(seconds: u64) -> (r: String)
    ensures
        r@ == spec_s2time(seconds),
{
    if seconds == 0 {
        return String::from_str("0s");
    }
    let d = seconds / 86400;
    let h = (seconds % 86400) / 3600;
    let m = (seconds % 3600) / 60;
    let s = seconds % 60;
    let mut pieces: Vec<String> = Vec::new();
    if d > 0 {
        let mut p = String::new();
        push_dec(&mut p, d);
        p.append(
            if d == 1 {
                "day"
            } else {
                "days"
            },
        );
        pieces.push(p);
    }
    if h > 0 {
        let mut p = String::new();
        push_dec(&mut p, h);
        p.append("h");
        pieces.push(p);
    }
    if m > 0 {
        let mut p = String::new();
        push_dec(&mut p, m);
        p.append("m");
        pieces.push(p);
    }
    if s > 0 {
        let mut p = String::new();
        push_dec(&mut p, s);
        p.append("s");
        pieces.push(p);
    }
    proof {
        if d == 0 && h == 0 && m == 0 && s == 0 {
            assert(seconds < 86400);
            assert(seconds % 86400 == seconds);
            assert(seconds < 3600);
            assert(seconds % 3600 == seconds);
            assert(seconds < 60);
            assert(seconds % 60 == seconds);
            assert(false);
        }
        assert(pieces@.map_values(|p: String| p@) =~= spec_duration_pieces(seconds));
        assert(pieces@.len() >= 1);
        assert(pieces@.map_values(|p: String| p@).subrange(0, pieces@.len() as int)
            =~= pieces@.map_values(|p: String| p@));
    }
    join_from(&pieces, 0)
}

/// Decimal digit strings are non-empty and consist of digits.
proof fn lemma_dec_digits_shape(x: nat)
    ensures
        dec_digits(x).len() >= 1,
        forall|i: int| 0 <= i < dec_digits(x).len() ==> is_digit(dec_digits(x)[i]),
    decreases x,
{
    if x >= 10 {
        lemma_dec_digits_shape(x / 10);
    }
}

/// Reading the decimal digit string of `x` gives back `x`.
proof fn lemma_dec_digits_val(x: nat)
    ensures
        digits_val(dec_digits(x)) == x,
    decreases x,
{
    if x < 10 {
        let s = seq![digit_char(x)];
        assert(s.drop_last() =~= Seq::<char>::empty());
        assert(digits_val(Seq::<char>::empty()) == 0);
        assert(digits_val(s) == digit_val(digit_char(x)));
    } else {
        lemma_dec_digits_val(x / 10);
        let s = dec_digits(x);
        assert(s.drop_last() =~= dec_digits(x / 10));
        assert(s.last() == digit_char(x % 10));
        assert(digits_val(s) == (x / 10) * 10 + digit_val(digit_char(x % 10)));
        lemma_fundamental_div_mod(x as int, 10);
    }
}

/// The displayed unit suffix parses back to its own byte factor, and starts
/// and ends with a letter.
proof fn lemma_suffix_parses(binary: bool, k: nat)
    requires
        k <= 6,
    ensures
        ({
            let suf = unit_suffix(binary, k);
            &&& 1 <= suf.len() <= 3
            &&& !is_space(suf[0]) && !is_digit(suf[0]) && suf[0] != '.'
            &&& !is_space(suf.last())
            &&& spec_unit_factor_of(suf) == Some(unit_factor(binary, k))
        }),
{
    reveal_strlit("B");
    reveal_strlit("KiB");
    reveal_strlit("MiB");
    reveal_strlit("GiB");
    reveal_strlit("TiB");
    reveal_strlit("PiB");
    reveal_strlit("EiB");
    reveal_strlit("KB");
    reveal_strlit("MB");
    reveal_strlit("GB");
    reveal_strlit("TB");
    reveal_strlit("PB");
    reveal_strlit("EB");
    let suf = unit_suffix(binary, k);
    if k == 0 {
        assert(lower_seq(suf) =~= seq!['b']);
    } else if binary {
        if k == 1 {
            assert(lower_seq(suf) =~= seq!['k', 'i', 'b']);
        } else if k == 2 {
            assert(lower_seq(suf) =~= seq!['m', 'i', 'b']);
        } else if k == 3 {
            assert(lower_seq(suf) =~= seq!['g', 'i', 'b']);
        } else if k == 4 {
            assert(lower_seq(suf) =~= seq!['t', 'i', 'b']);
        } else if k == 5 {
            assert(lower_seq(suf) =~= seq!['p', 'i', 'b']);
        } else {
            assert(lower_seq(suf) =~= seq!['e', 'i', 'b']);
        }
    } else {
        if k == 1 {
            assert(lower_seq(suf) =~= seq!['k', 'b']);
        } else if k == 2 {
            assert(lower_seq(suf) =~= seq!['m', 'b']);
        } else if k == 3 {
            assert(lower_seq(suf) =~= seq!['g', 'b']);
        } else if k == 4 {
            assert(lower_seq(suf) =~= seq!['t', 'b']);
        } else if k == 5 {
            assert(lower_seq(suf) =~= seq!['p', 'b']);
        } else {
            assert(lower_seq(suf) =~= seq!['e', 'b']);
        }
    }
}

/// The rendered byte string parses back to a definite value: the rounded
/// hundredths scaled by the unit factor, saturating at `u64::MAX`.
proof fn lemma_byte2str_reparses(n: u64, binary: bool)
    ensures
        ({
            let h = spec_hundredths(n, binary) as int;
            let b = unit_factor(binary, spec_scale(n, binary)) as int;
            let v = (2 * h * b + 100) / 200;
            spec_parse_bytes(spec_byte2str(n, binary)) == Some(
                if v > u64::MAX {
                    u64::MAX
                } else {
                    v as u64
                },
            )
        }),
{
    let k = spec_scale(n, binary);
    let h = spec_hundredths(n, binary);
    let s = spec_byte2str(n, binary);
    let dd = dec_digits(h / 100);
    let hh = h % 100;
    let mid = seq!['.', digit_char(hh / 10), digit_char(hh % 10), ' '];
    let suf = unit_suffix(binary, k);
    lemma_dec_digits_shape(h / 100);
    lemma_dec_digits_val(h / 100);
    lemma_suffix_parses(binary, k);
    assert(s == dd + mid + suf);
    assert(s.len() == dd.len() + 4 + suf.len());
    // the rendering has no leading or trailing whitespace
    assert(s[0] == dd[0]);
    assert(!is_space(s[0]));
    assert(trim_front(s) == s);
    assert(s.last() == suf.last());
    assert(!is_space(s.last()));
    assert(trim_back(s) == s);
    assert(spec_trim(s) == s);
    // the digit prefix is exactly the integer part
    let dl = dd.len() as int;
    assert(!is_digit(s[dl]));
    crate::strutil::lemma_digits_prefix_exact(s, dl);
    assert(s.subrange(0, dl) =~= dd);
    // the fraction is exactly the two hundredth digits
    let rest1 = s.subrange(dl, s.len() as int);
    assert(rest1 =~= mid + suf);
    assert(rest1[0] == '.');
    let tail = rest1.drop_first();
    assert(tail =~= seq![digit_char(hh / 10), digit_char(hh % 10), ' '] + suf);
    assert(is_digit(tail[0]) && is_digit(tail[1]) && !is_digit(tail[2]));
    crate::strutil::lemma_digits_prefix_exact(tail, 2);
    let fd = rest1.subrange(1, 3);
    assert(fd[0] == digit_char(hh / 10) && fd[1] == digit_char(hh % 10));
    let fv = digits_val(fd);
    assert(fd.drop_last() =~= seq![digit_char(hh / 10)]);
    assert(seq![digit_char(hh / 10)].drop_last() =~= Seq::<char>::empty());
    assert(digits_val(Seq::<char>::empty()) == 0);
    assert(digits_val(seq![digit_char(hh / 10)]) == digit_val(digit_char(hh / 10)));
    assert(fd.last() == digit_char(hh % 10));
    assert(fv == digit_val(digit_char(hh / 10)) * 10 + digit_val(digit_char(hh % 10)));
    assert(fv == (hh / 10) * 10 + hh % 10);
    lemma_fundamental_div_mod(hh as int, 10);
    assert(hh % 10 == hh % 100 % 10) by {
        assert(hh == h % 100);
        vstd::arithmetic::div_mod::lemma_mod_mod(h as int, 10, 10);
        assert(h % 100 % 10 == h % 10) by (nonlinear_arith)
            requires
                h >= 0,
                (h as int % (10 * 10 as int)) % 10 == h as int % 10,
        ;
    }
    assert(fv == hh);
    // after the fraction: one space, then the unit suffix
    let rest2 = rest1.subrange(3, rest1.len() as int);
    assert(rest2 =~= seq![' '] + suf);
    assert(is_space(rest2[0]) && !is_space(rest2[1]));
    crate::strutil::lemma_spaces_prefix_exact(rest2, 1);
    assert(rest2.subrange(1, rest2.len() as int) =~= suf);
    // the value recomposes the hundredths at the two-digit precision
    let m = digits_val(dd);
    assert(m == h / 100);
    lemma_fundamental_div_mod(h as int, 100);
    assert(m * 100 + fv == h);
    assert(pow10(0) == 1);
    assert(pow10(1) == 10);
    assert(pow10(2) == 100);
}

/// Law: converting a byte count to its human-readable form and parsing the
/// form back yields the original count, up to the two-decimal rounding
/// granularity of the displayed unit.
pub proof fn lemma_bytes_round_trip(n: u64, binary: bool)
    ensures
        ({
            let b = unit_factor(binary, spec_scale(n, binary)) as int;
            let r = spec_parse_bytes(spec_byte2str(n, binary));
            &&& r is Some
            &&& 200 * (r->Some_0 as int - n as int) <= b + 100
            &&& 200 * (n as int - r->Some_0 as int) <= b + 100
        }),
{
    lemma_byte2str_reparses(n, binary);
    let b = unit_factor(binary, spec_scale(n, binary)) as int;
    let h = spec_hundredths(n, binary) as int;
    let v = (2 * h * b + 100) / 200;
    let q = 200 * (n as int) / b;
    lemma_fundamental_div_mod(200 * (n as int), b);
    let r0 = 200 * (n as int) % b;
    assert(200 * (n as int) == q * b + r0 && 0 <= r0 < b);
    assert(h == (q + 1) / 2);
    lemma_fundamental_div_mod(q + 1, 2);
    assert(q <= 2 * h <= q + 1);
    let x = 2 * h * b;
    assert(q * b <= x <= (q + 1) * b) by (nonlinear_arith)
        requires
            q <= 2 * h <= q + 1,
            b >= 1,
            x == 2 * h * b,
    ;
    assert(200 * (n as int) - b < x <= 200 * (n as int) + b);
    lemma_fundamental_div_mod(x + 100, 200);
    assert(200 * v <= x + 100 <= 200 * (n as int) + b + 100);
    assert(200 * v > x + 100 - 200 >= 200 * (n as int) - b - 100);
    if v > u64::MAX {
        assert(200 * (u64::MAX as int - n as int) <= 200 * (v - n as int));
    }
}

/// Parses a byte quantity, falling back to zero on malformed input.
pub fn str2byte(s: &str) -> (r: u64)
    ensures
        r == match spec_parse_bytes(s@) {
            Some(v) => v,
            None => 0u64,
        },
{
    match parse_bytes(s) {
        Some(v) => v,
        None => 0,
    }
}

} // verus!
