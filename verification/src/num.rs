use vstd::prelude::*;
use vstd::arithmetic::div_mod::lemma_basic_div;
use vstd::arithmetic::div_mod::lemma_div_denominator;

verus! {

/// ASCII decimal digit.
pub open spec fn is_ascii_digit(b: u8) -> bool {
    48 <= b && b <= 57
}

/// Numeric value of one ASCII digit; zero for anything else.
pub open spec fn digit_val(b: u8) -> nat {
    if is_ascii_digit(b) {
        (b - 48) as nat
    } else {
        0
    }
}

/// Powers of ten as unbounded naturals.
pub open spec fn pow10(e: nat) -> nat
    decreases e,
{
    if e == 0 {
        1
    } else {
        10 * pow10((e - 1) as nat)
    }
}

/// Value of a digit string read most significant first.
pub open spec fn digits_val(s: Seq<u8>) -> nat
    decreases s.len(),
{
    if s.len() == 0 {
        0
    } else {
        digits_val(s.drop_last()) * 10 + digit_val(s.last())
    }
}

/// First position at or after `i` that does not hold an ASCII digit.
pub open spec fn span_digits(s: Seq<u8>, i: int) -> int
    decreases s.len() - i,
{
    if i < 0 || i >= s.len() {
        i
    } else if is_ascii_digit(s[i]) {
        span_digits(s, i + 1)
    } else {
        i
    }
}

/// Clamp an unbounded natural into `u64`.
pub open spec fn clamp_u64(n: nat) -> u64 {
    if n > u64::MAX {
        u64::MAX
    } else {
        n as u64
    }
}

/// The number of microseconds denoted by a decimal number in the textual
/// form that a JSON encoder emits: an optional minus sign, an integer part,
/// an optional fractional part, and an optional exponent written with `e` or
/// `E`. The value is scaled by one million and truncated toward zero;
/// negative values clamp to zero and values beyond `u64::MAX` clamp to
/// `u64::MAX`. Mantissas over 20 digits and exponents over 9 digits are not
/// accepted.
pub open spec fn spec_micros(s: Seq<u8>) -> Option<u64> {
    let neg = s.len() > 0 && s[0] == 45;
    let p0: int = if neg {
        1
    } else {
        0
    };
    let p1 = span_digits(s, p0);
    if p1 == p0 {
        None
    } else {
        let has_frac = p1 < s.len() && s[p1] == 46;
        let p2: int = if has_frac {
            p1 + 1
        } else {
            p1
        };
        let p3 = span_digits(s, p2);
        if has_frac && p3 == p2 {
            None
        } else {
            let has_exp = p3 < s.len() && (s[p3] == 101 || s[p3] == 69);
            let p4: int = if has_exp {
                p3 + 1
            } else {
                p3
            };
            let eneg = has_exp && p4 < s.len() && s[p4] == 45;
            let epos = has_exp && p4 < s.len() && s[p4] == 43;
            let p5: int = if eneg || epos {
                p4 + 1
            } else {
                p4
            };
            let p6 = span_digits(s, p5);
            if has_exp && p6 == p5 {
                None
            } else if p6 != s.len() {
                None
            } else if (p1 - p0) + (p3 - p2) > 20 {
                None
            } else if p6 - p5 > 9 {
                None
            } else {
                let mant = digits_val(s.subrange(p0, p1) + s.subrange(p2, p3));
                let e: int = if has_exp {
                    digits_val(s.subrange(p5, p6)) as int
                } else {
                    0
                };
                let es: int = if eneg {
                    -e
                } else {
                    e
                };
                let e10: int = es - (p3 - p2) + 6;
                if neg {
                    Some(0u64)
                } else if e10 >= 0 {
                    Some(clamp_u64(mant * pow10(e10 as nat)))
                } else {
                    Some(clamp_u64(mant / pow10((-e10) as nat)))
                }
            }
        }
    }
}

proof fn lemma_pow10_pos(e: nat)
    ensures
        pow10(e) >= 1,
    decreases e,
{
    if e > 0 {
        lemma_pow10_pos((e - 1) as nat);
    }
}

proof fn lemma_pow10_increases(a: nat, b: nat)
    requires
        a <= b,
    ensures
        pow10(a) <= pow10(b),
    decreases b,
{
    if a < b {
        lemma_pow10_increases(a, (b - 1) as nat);
        lemma_pow10_pos((b - 1) as nat);
    }
}

proof fn lemma_pow10_vals()
    ensures
        pow10(9) == 1000000000,
        pow10(19) == 10000000000000000000,
        pow10(20) == 100000000000000000000,
{
    reveal_with_fuel(pow10, 21);
}

proof fn lemma_digits_val_bound(s: Seq<u8>)
    ensures
        digits_val(s) < pow10(s.len()),
    decreases s.len(),
{
    if s.len() > 0 {
        lemma_digits_val_bound(s.drop_last());
    }
}

proof fn lemma_digits_val_push(s: Seq<u8>, d: u8)
    ensures
        digits_val(s.push(d)) == digits_val(s) * 10 + digit_val(d),
{
    assert(s.push(d).drop_last() =~= s);
    assert(s.push(d).last() == d);
}

/// Scan forward over ASCII digits.
fn scan_digits(b: &Vec<u8>, from: usize) -> (end: usize)
    requires
        from <= b@.len(),
    ensures
        end == span_digits(b@, from as int),
        from <= end && end <= b@.len(),
        forall|j: int| from <= j < end ==> is_ascii_digit(b@[j]),
        end < b@.len() ==> !is_ascii_digit(b@[end as int]),
{
    let mut i: usize = from;
    while i < b.len() && 48 <= b[i] && b[i] <= 57
        invariant
            from <= i && i <= b@.len(),
            span_digits(b@, from as int) == span_digits(b@, i as int),
            forall|j: int| from <= j < i ==> is_ascii_digit(b@[j]),
        decreases b@.len() - i,
    {
        i = i + 1;
    }
    proof {
        assert(span_digits(b@, i as int) == i);
    }
    i
}

/// Accumulate the value of the digits of `b` at `[from, to)` on top of
/// `init`, which already holds the value of the digit string `pre`.
fn accum_digits(b: &Vec<u8>, from: usize, to: usize, init: u128, Ghost(pre): Ghost<Seq<u8>>) -> (n:
    u128)
    requires
        from <= to && to <= b@.len(),
        forall|j: int| from <= j < to ==> is_ascii_digit(b@[j]),
        init == digits_val(pre),
        pre.len() + (to - from) <= 20,
    ensures
        n == digits_val(pre + b@.subrange(from as int, to as int)),
{
    proof {
        lemma_pow10_vals();
        assert(pre + b@.subrange(from as int, from as int) =~= pre);
    }
    let mut acc: u128 = init;
    let mut j: usize = from;
    while j < to
        invariant
            from <= j && j <= to,
            to <= b@.len(),
            forall|jj: int| from <= jj < to ==> is_ascii_digit(b@[jj]),
            acc == digits_val(pre + b@.subrange(from as int, j as int)),
            pre.len() + (to - from) <= 20,
        decreases to - j,
    {
        let ghost cur = pre + b@.subrange(from as int, j as int);
        proof {
            lemma_pow10_vals();
            lemma_digits_val_bound(cur);
            lemma_pow10_increases(cur.len(), 19);
            lemma_digits_val_push(cur, b@[j as int]);
            assert(pre + b@.subrange(from as int, j as int + 1) =~= cur.push(b@[j as int]));
        }
        let d: u8 = b[j];
        acc = acc * 10 + ((d - 48) as u128);
        j = j + 1;
    }
    acc
}

/// Multiply `n` by `10^e` and clamp into `u64`.
fn scale_up(n: u128, e: u64) -> (r: u64)
    requires
        n < pow10(20),
    ensures
        r == clamp_u64((n as nat) * pow10(e as nat)),
{
    proof {
        lemma_pow10_vals();
    }
    if n == 0 {
        return 0;
    }
    if e >= 20 {
        proof {
            lemma_pow10_increases(20, e as nat);
            assert((n as nat) * pow10(e as nat) >= 1 * pow10(e as nat)) by (nonlinear_arith)
                requires
                    n >= 1,
                    pow10(e as nat) >= 0,
            ;
        }
        return u64::MAX;
    }
    proof {
        assert(pow10(0) == 1);
    }
    let mut acc: u128 = n;
    let mut j: u64 = 0;
    while j < e
        invariant
            j <= e,
            e < 20,
            n >= 1,
            acc == (n as nat) * pow10(j as nat),
            acc <= u64::MAX as u128 * 10,
        decreases e - j,
    {
        if acc > u64::MAX as u128 {
            proof {
                lemma_pow10_pos((e - j) as nat);
                lemma_pow10_mul_split(n as nat, j as nat, e as nat);
                assert((n as nat) * pow10(e as nat) >= (n as nat) * pow10(j as nat)) by {
                    assert((n as nat) * pow10(j as nat) * pow10((e - j) as nat) >= (n as nat)
                        * pow10(j as nat) * 1) by (nonlinear_arith)
                        requires
                            pow10((e - j) as nat) >= 1,
                            (n as nat) * pow10(j as nat) >= 0,
                    ;
                }
            }
            return u64::MAX;
        }
        proof {
            assert(pow10(j as nat + 1) == 10 * pow10(j as nat));
            assert((n as nat) * (10 * pow10(j as nat)) == ((n as nat) * pow10(j as nat)) * 10)
                by (nonlinear_arith);
        }
        acc = acc * 10;
        j = j + 1;
    }
    if acc > u64::MAX as u128 {
        u64::MAX
    } else {
        acc as u64
    }
}

proof fn lemma_pow10_mul_split(n: nat, a: nat, b: nat)
    requires
        a <= b,
    ensures
        n * pow10(b) == n * pow10(a) * pow10((b - a) as nat),
    decreases b - a,
{
    if a < b {
        lemma_pow10_mul_split(n, a, (b - 1) as nat);
        let c = (b - a - 1) as nat;
        let pa = pow10(a);
        let pc = pow10(c);
        let pb1 = pow10((b - 1) as nat);
        assert((((b - 1) as nat) - a) as nat == c);
        assert(n * pb1 == n * pa * pc);
        assert(pow10(b) == 10 * pb1);
        assert(n * (10 * pb1) == 10 * (n * pb1)) by (nonlinear_arith);
        assert(pow10((b - a) as nat) == 10 * pc);
        assert(n * pa * (10 * pc) == 10 * (n * pa * pc)) by (nonlinear_arith);
        assert(n * pow10(b) == n * (10 * pb1)) by (nonlinear_arith)
            requires
                pow10(b) == 10 * pb1,
        ;
    } else {
        assert(pow10((b - a) as nat) == 1);
        assert(n * pow10(a) * 1 == n * pow10(a)) by (nonlinear_arith);
    }
}

/// Divide `n` by `10^k`, truncating, and clamp into `u64`.
fn scale_down(n: u128, k: u64) -> (r: u64)
    requires
        n < pow10(20),
    ensures
        r == clamp_u64((n as nat) / pow10(k as nat)),
{
    proof {
        lemma_pow10_vals();
    }
    if k >= 20 {
        proof {
            lemma_pow10_increases(20, k as nat);
            lemma_pow10_pos(k as nat);
            lemma_basic_div(n as int, pow10(k as nat) as int);
        }
        return 0;
    }
    proof {
        assert(pow10(0) == 1);
    }
    let mut acc: u128 = n;
    let mut j: u64 = 0;
    while j < k
        invariant
            j <= k,
            acc == (n as nat) / pow10(j as nat),
            acc <= n,
            n < pow10(20),
        decreases k - j,
    {
        proof {
            lemma_pow10_pos(j as nat);
            lemma_div_denominator(n as int, pow10(j as nat) as int, 10);
            assert(pow10(j as nat + 1) == 10 * pow10(j as nat));
            assert(pow10(j as nat) * 10 == 10 * pow10(j as nat)) by (nonlinear_arith);
            vstd::arithmetic::div_mod::lemma_div_is_ordered_by_denominator(
                n as int,
                1,
                pow10(j as nat + 1) as int,
            );
        }
        acc = acc / 10;
        j = j + 1;
    }
    if acc > u64::MAX as u128 {
        u64::MAX
    } else {
        acc as u64
    }
}

/// Read a decimal number in JSON textual form and give its value in
/// microseconds, truncated toward zero, clamped to `[0, u64::MAX]`.
#[verifier::rlimit(60)]
pub fn parse_micros(b: &Vec<u8>) -> (r: Option<u64>)
    ensures
        r == spec_micros(b@),
{
    let ghost s = b@;
    let len: usize = b.len();
    let neg = len > 0 && b[0] == 45u8;
    let p0: usize = if neg {
        1
    } else {
        0
    };
    let p1: usize = scan_digits(b, p0);
    if p1 == p0 {
        return None;
    }
    let has_frac = p1 < len && b[p1] == 46u8;
    let p2: usize = if has_frac {
        p1 + 1
    } else {
        p1
    };
    let p3: usize = scan_digits(b, p2);
    if has_frac && p3 == p2 {
        return None;
    }
    let has_exp = p3 < len && (b[p3] == 101u8 || b[p3] == 69u8);
    let p4: usize = if has_exp {
        p3 + 1
    } else {
        p3
    };
    let eneg = has_exp && p4 < len && b[p4] == 45u8;
    let epos = has_exp && p4 < len && b[p4] == 43u8;
    let p5: usize = if eneg || epos {
        p4 + 1
    } else {
        p4
    };
    let p6: usize = scan_digits(b, p5);
    if has_exp && p6 == p5 {
        return None;
    }
    if p6 != len {
        return None;
    }
    if (p1 - p0) + (p3 - p2) > 20 {
        return None;
    }
    if p6 - p5 > 9 {
        return None;
    }
    proof {
        assert(Seq::<u8>::empty() + s.subrange(p0 as int, p1 as int) =~= s.subrange(
            p0 as int,
            p1 as int,
        ));
    }
    let ip: u128 = accum_digits(b, p0, p1, 0, Ghost(Seq::<u8>::empty()));
    let mant: u128 = accum_digits(b, p2, p3, ip, Ghost(s.subrange(p0 as int, p1 as int)));
    let eabs128: u128 = accum_digits(b, p5, p6, 0, Ghost(Seq::<u8>::empty()));
    proof {
        lemma_pow10_vals();
        lemma_digits_val_bound(s.subrange(p5 as int, p6 as int));
        lemma_pow10_increases(s.subrange(p5 as int, p6 as int).len() as nat, 9);
        assert(Seq::<u8>::empty() + s.subrange(p5 as int, p6 as int) =~= s.subrange(
            p5 as int,
            p6 as int,
        ));
        lemma_digits_val_bound(s.subrange(p0 as int, p1 as int) + s.subrange(p2 as int, p3 as int));
        lemma_pow10_increases(
            (s.subrange(p0 as int, p1 as int) + s.subrange(p2 as int, p3 as int)).len() as nat,
            20,
        );
    }
    let eabs: u64 = eabs128 as u64;
    let frac_len: usize = p3 - p2;
    let es: i64 = if has_exp && eneg {
        -(eabs as i64)
    } else {
        eabs as i64
    };
    let e10: i64 = es - (frac_len as i64) + 6;
    if neg {
        return Some(0);
    }
    if e10 >= 0 {
        Some(scale_up(mant, e10 as u64))
    } else {
        Some(scale_down(mant, (-e10) as u64))
    }
}

} // verus!
