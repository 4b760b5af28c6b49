//! JSON numbers read as exact decimals: their order, their plain decimal
//! rendering, and whether one is a whole multiple of another.
//!
//! A number is a sign, a run of digits and the place of the decimal point
//! among them. Integers are their decimal digits; a float is the digits of
//! its text around the point, shifted by its exponent (an exponent beyond
//! ±4000 counts as ±4001).
use vstd::prelude::*;
use crate::json::{
    JsonNumber, NumberSpec, clamped_exponent, digit_parts, exponent_part, fraction_digits, integer_digits,
    split_exponent, view_number, signed_decimal_value, exponent_marker, lemma_digits_nonneg, digits_capped,
};
use crate::text::{all_digits, append, chars_of, decimal, decimal_of, digits_value, is_ascii_digit, slice};

verus! {

pub open spec fn clamp_exp(e: int) -> int {
    if e > 4000 {
        4001
    } else if e < -4000 {
        -4001
    } else {
        e
    }
}

/// A number as sign, digits and point: the value `0.d1d2… × 10^point`.
pub struct Dec {
    pub neg: bool,
    pub digits: Seq<char>,
    pub point: int,
}

pub open spec fn abs_nat(i: i64) -> nat {
    if i < 0 {
        (-i) as nat
    } else {
        i as nat
    }
}

pub open spec fn dec_of(n: NumberSpec) -> Dec {
    match n {
        NumberSpec::PosInt(u) => Dec { neg: false, digits: decimal(u as nat), point: decimal(u as nat).len() as int },
        NumberSpec::NegInt(i) => Dec { neg: i < 0, digits: decimal(abs_nat(i)), point: decimal(abs_nat(i)).len() as int },
        NumberSpec::Float(t) => Dec {
            neg: t.len() > 0 && t[0] == '-',
            digits: integer_digits(t) + fraction_digits(t),
            point: integer_digits(t).len() + clamp_exp(exponent_part(t)),
        },
    }
}

pub open spec fn lead_zeros(d: Seq<char>) -> nat
    decreases d.len(),
{
    if d.len() > 0 && d[0] == '0' {
        1 + lead_zeros(d.subrange(1, d.len() as int))
    } else {
        0
    }
}

pub open spec fn trail_zeros(d: Seq<char>) -> nat
    decreases d.len(),
{
    if d.len() > 0 && d.last() == '0' {
        1 + trail_zeros(d.drop_last())
    } else {
        0
    }
}

/// The same number without leading or trailing zero digits; zero has no
/// digits left.
pub open spec fn norm(x: Dec) -> Dec {
    let lz = lead_zeros(x.digits);
    if lz >= x.digits.len() {
        Dec { neg: x.neg, digits: Seq::empty(), point: 0 }
    } else {
        Dec {
            neg: x.neg,
            digits: x.digits.subrange(lz as int, x.digits.len() - trail_zeros(x.digits)),
            point: x.point - lz,
        }
    }
}

pub open spec fn digit_at(d: Seq<char>, i: int) -> char {
    if 0 <= i < d.len() {
        d[i]
    } else {
        '0'
    }
}

/// `a` before `b` digit by digit from `i`, the shorter padded with zeros.
pub open spec fn padded_less(a: Seq<char>, b: Seq<char>, i: int) -> bool
    decreases a.len() + b.len() - i,
{
    if i < 0 || (i >= a.len() && i >= b.len()) {
        false
    } else if digit_at(a, i) != digit_at(b, i) {
        digit_at(a, i) < digit_at(b, i)
    } else {
        padded_less(a, b, i + 1)
    }
}

/// For normalized non-zero numbers: the magnitude of `a` below that of `b`.
pub open spec fn mag_less(a: Dec, b: Dec) -> bool {
    a.point < b.point || (a.point == b.point && padded_less(a.digits, b.digits, 0))
}

/// `x < y` as decimal values.
pub open spec fn num_less(x: NumberSpec, y: NumberSpec) -> bool {
    let a = norm(dec_of(x));
    let b = norm(dec_of(y));
    let az = a.digits.len() == 0;
    let bz = b.digits.len() == 0;
    let an = a.neg && !az;
    let bn = b.neg && !bz;
    if an && !bn {
        true
    } else if !an && bn {
        false
    } else if !an {
        (az && !bz) || (!az && !bz && mag_less(a, b))
    } else {
        mag_less(b, a)
    }
}

pub open spec fn zeros(n: int) -> Seq<char> {
    Seq::new(if n < 0 { 0 } else { n as nat }, |i: int| '0')
}

/// A number written out as plain decimal text, with no exponent and no
/// trailing zero after the point (zero is `0`, or `-0` with a sign).
pub open spec fn number_display(x: NumberSpec) -> Seq<char> {
    let a = norm(dec_of(x));
    let sign = if a.neg {
        "-"@
    } else {
        Seq::empty()
    };
    let body = if a.digits.len() == 0 {
        "0"@
    } else if a.point <= 0 {
        "0."@ + zeros(-a.point) + a.digits
    } else if a.point >= a.digits.len() {
        a.digits + zeros(a.point - a.digits.len())
    } else {
        a.digits.subrange(0, a.point) + "."@ + a.digits.subrange(a.point, a.digits.len() as int)
    };
    sign + body
}

pub open spec fn pow10(k: nat) -> nat
    decreases k,
{
    if k == 0 {
        1
    } else {
        10 * pow10((k - 1) as nat)
    }
}

/// The largest scaled operand the step check works with.
pub open spec fn scale_limit() -> int {
    0x10_0000_0000_0000_0000_0000_0000
}

/// The exponent of the last digit: the value is `digits × 10^last_exp`.
pub open spec fn last_exp(a: Dec) -> int {
    a.point - a.digits.len()
}

/// Whether `x` is more than `10^-9` away from a whole multiple of `step`.
/// The check is made for a positive step, with both numbers brought to a
/// common exponent; it is skipped when either scaled operand passes
/// `scale_limit()`.
pub open spec fn multiple_miss(x: NumberSpec, step: NumberSpec) -> bool {
    let a = dec_of(x);
    let b = dec_of(step);
    let m = if last_exp(a) <= last_exp(b) {
        last_exp(a)
    } else {
        last_exp(b)
    };
    let av = digits_value(a.digits) * pow10((last_exp(a) - m) as nat);
    let bv = digits_value(b.digits) * pow10((last_exp(b) - m) as nat);
    let r = av % bv;
    let t = if r <= bv - r {
        r
    } else {
        bv - r
    };
    &&& all_digits(a.digits)
    &&& all_digits(b.digits)
    &&& !b.neg
    &&& av <= scale_limit()
    &&& bv <= scale_limit()
    &&& bv > 0
    &&& t * 1_000_000_000 > bv
}

// ---------------------------------------------------------------------
// Executable side.

/// A number's sign, digits and point.
fn dec_parts(n: &JsonNumber) -> (r: (bool, Vec<char>, i128))
    ensures
        r.0 == dec_of(view_number(*n)).neg,
        r.1@ == dec_of(view_number(*n)).digits,
        r.2 == dec_of(view_number(*n)).point,
{
    match n {
        JsonNumber::PosInt(u) => {
            let d = decimal_of(*u);
            let len = d.len();
            (false, d, len as i128)
        },
        JsonNumber::NegInt(i) => {
            let m: u64 = if *i < 0 {
                ((-(*i + 1)) as u64) + 1
            } else {
                *i as u64
            };
            assert(m as nat == abs_nat(*i));
            let d = decimal_of(m);
            let len = d.len();
            (*i < 0, d, len as i128)
        },
        JsonNumber::Float(t) => {
            let chars = chars_of(t.as_str());
            let (m, rest) = split_exponent(&chars);
            let (int_part, frac_part) = digit_parts(&m);
            let mut d = int_part.clone();
            append(&mut d, &frac_part);
            let exp: i128 = clamped_exponent(&rest, 4000);
            proof {
                if exponent_marker(chars@) is None {
                    assert(signed_decimal_value(rest@) == 0) by {
                        assert(rest@ =~= Seq::<char>::empty());
                        assert(all_digits(Seq::<char>::empty()));
                    }
                }
                assert(exp == clamp_exp(exponent_part(chars@)));
            }
            let neg = chars.len() > 0 && chars[0] == '-';
            (neg, d, int_part.len() as i128 + exp)
        },
    }
}

proof fn lemma_lead_zeros(d: Seq<char>, z: int)
    requires
        0 <= z <= d.len(),
        forall|k: int| 0 <= k < z ==> d[k] == '0',
        z == d.len() || d[z] != '0',
    ensures
        lead_zeros(d) == z,
    decreases d.len(),
{
    if z > 0 {
        let t = d.subrange(1, d.len() as int);
        assert forall|k: int| 0 <= k < z - 1 implies t[k] == '0' by {
            assert(t[k] == d[k + 1]);
        }
        if z < d.len() {
            assert(t[z - 1] == d[z]);
        }
        lemma_lead_zeros(t, z - 1);
    }
}

proof fn lemma_trail_zeros(d: Seq<char>, z: int)
    requires
        0 <= z <= d.len(),
        forall|k: int| d.len() - z <= k < d.len() ==> d[k] == '0',
        z == d.len() || d[d.len() - 1 - z] != '0',
    ensures
        trail_zeros(d) == z,
    decreases d.len(),
{
    if z > 0 {
        let t = d.drop_last();
        assert forall|k: int| t.len() - (z - 1) <= k < t.len() implies t[k] == '0' by {
            assert(t[k] == d[k]);
        }
        if z < d.len() {
            assert(t[t.len() - 1 - (z - 1)] == d[d.len() - 1 - z]);
        }
        lemma_trail_zeros(t, z - 1);
    }
}

/// The normal form of a number: sign, digits without zeros at either end,
/// and point.
fn norm_parts(n: &JsonNumber) -> (r: (bool, Vec<char>, i128))
    ensures
        r.0 == norm(dec_of(view_number(*n))).neg,
        r.1@ == norm(dec_of(view_number(*n))).digits,
        r.2 == norm(dec_of(view_number(*n))).point,
        -0x1_0000_0000_0000_1000 <= r.2 <= 0x1_0000_0000_0000_1000,
{
    let (neg, d, point) = dec_parts(n);
    let mut lz: usize = 0;
    while lz < d.len() && d[lz] == '0'
        invariant
            lz <= d@.len(),
            forall|k: int| 0 <= k < lz ==> d@[k] == '0',
        decreases d.len() - lz,
    {
        lz += 1;
    }
    proof {
        lemma_lead_zeros(d@, lz as int);
    }
    if lz >= d.len() {
        return (neg, Vec::new(), 0);
    }
    let mut tz: usize = 0;
    while tz < d.len() && d[d.len() - 1 - tz] == '0'
        invariant
            tz <= d@.len(),
            forall|k: int| d@.len() - tz <= k < d@.len() ==> d@[k] == '0',
        decreases d.len() - tz,
    {
        tz += 1;
    }
    proof {
        lemma_trail_zeros(d@, tz as int);
        assert(tz < d.len() - lz) by {
            if tz >= d.len() - lz {
                assert(d@[lz as int] == '0');
            }
        }
    }
    let digits = slice(&d, lz, d.len() - tz);
    proof {
        dec_point_bound(view_number(*n));
    }
    (neg, digits, point - lz as i128)
}

proof fn dec_point_bound(n: NumberSpec)
    ensures
        -4001 <= dec_of(n).point <= 4001 + dec_of(n).digits.len(),
{
    match n {
        NumberSpec::PosInt(u) => {},
        NumberSpec::NegInt(i) => {},
        NumberSpec::Float(t) => {
            assert(dec_of(n).digits.len() == integer_digits(t).len() + fraction_digits(t).len());
        },
    }
}

fn padded_less_of(a: &Vec<char>, b: &Vec<char>) -> (r: bool)
    ensures
        r == padded_less(a@, b@, 0),
{
    let n = if a.len() >= b.len() {
        a.len()
    } else {
        b.len()
    };
    let mut i: usize = 0;
    while i < n
        invariant
            i <= n,
            n == if a@.len() >= b@.len() { a@.len() } else { b@.len() },
            padded_less(a@, b@, 0) == padded_less(a@, b@, i as int),
        decreases n - i,
    {
        let x = if i < a.len() {
            a[i]
        } else {
            '0'
        };
        let y = if i < b.len() {
            b[i]
        } else {
            '0'
        };
        if x != y {
            return x < y;
        }
        i += 1;
    }
    false
}

/// Whether `x < y` as decimal values (see `num_less`).
pub fn number_less(x: &JsonNumber, y: &JsonNumber) -> (r: bool)
    ensures
        r == num_less(view_number(*x), view_number(*y)),
{
    let (an0, ad, ap) = norm_parts(x);
    let (bn0, bd, bp) = norm_parts(y);
    let az = ad.len() == 0;
    let bz = bd.len() == 0;
    let an = an0 && !az;
    let bn = bn0 && !bz;
    if an && !bn {
        true
    } else if !an && bn {
        false
    } else if !an {
        (az && !bz) || (!az && !bz && (ap < bp || (ap == bp && padded_less_of(&ad, &bd))))
    } else {
        bp < ap || (bp == ap && padded_less_of(&bd, &ad))
    }
}

fn push_zeros(out: &mut Vec<char>, n: i128)
    ensures
        final(out)@ == old(out)@ + zeros(n as int),
{
    let ghost start = out@;
    if n <= 0 {
        assert(zeros(n as int) =~= Seq::<char>::empty());
        assert(out@ =~= start + zeros(n as int));
        return;
    }
    let mut i: i128 = 0;
    while i < n
        invariant
            0 <= i <= n,
            out@ == start + zeros(i as int),
        decreases n - i,
    {
        out.push('0');
        i += 1;
        assert(out@ =~= start + zeros(i as int));
    }
}

/// A number written out as plain decimal text (see `number_display`).
pub fn number_display_of(x: &JsonNumber) -> (r: Vec<char>)
    ensures
        r@ == number_display(view_number(*x)),
{
    let (neg, d, p) = norm_parts(x);
    let mut out: Vec<char> = Vec::new();
    if neg {
        out.push('-');
    }
    let ghost sign = out@;
    proof {
        reveal_strlit("-");
        reveal_strlit("0");
        reveal_strlit("0.");
        reveal_strlit(".");
    }
    if d.len() == 0 {
        out.push('0');
    } else if p <= 0 {
        out.push('0');
        out.push('.');
        push_zeros(&mut out, -p);
        append(&mut out, &d);
    } else if p >= d.len() as i128 {
        append(&mut out, &d);
        push_zeros(&mut out, p - d.len() as i128);
    } else {
        let head = slice(&d, 0, p as usize);
        let tail = slice(&d, p as usize, d.len());
        append(&mut out, &head);
        out.push('.');
        append(&mut out, &tail);
    }
    assert(out@ =~= number_display(view_number(*x)));
    out
}

proof fn lemma_pow10_pos(k: nat)
    ensures
        pow10(k) >= 1,
    decreases k,
{
    if k > 0 {
        lemma_pow10_pos((k - 1) as nat);
    }
}

/// `v × 10^k` when it stays within the limit, else `None`.
fn scale_up(v: u128, k: i128) -> (r: Option<u128>)
    requires
        v <= scale_limit(),
        k >= 0,
    ensures
        match r {
            Some(w) => w == v * pow10(k as nat) && w <= scale_limit(),
            None => v * pow10(k as nat) > scale_limit(),
        },
{
    let mut w: u128 = v;
    let mut i: i128 = 0;
    assert(pow10(0) == 1);
    assert((i as nat) == 0);
    assert(v * pow10(i as nat) == v * 1) by (nonlinear_arith)
        requires
            pow10(i as nat) == 1,
    ;
    assert(w == v * pow10(i as nat));
    while i < k
        invariant
            0 <= i <= k,
            w == v * pow10(i as nat),
            w <= scale_limit(),
        decreases k - i,
    {
        if w > 0x10_0000_0000_0000_0000_0000_0000 / 10 {
            proof {
                assert(pow10((i + 1) as nat) == 10 * pow10(i as nat));
                assert(v * pow10((i + 1) as nat) == 10 * w) by (nonlinear_arith)
                    requires
                        w == v * pow10(i as nat),
                        pow10((i + 1) as nat) == 10 * pow10(i as nat),
                ;
                lemma_scale_grows(v, (i + 1) as nat, k as nat);
            }
            return None;
        }
        proof {
            assert(pow10((i + 1) as nat) == 10 * pow10(i as nat));
            assert(v * pow10((i + 1) as nat) == 10 * w) by (nonlinear_arith)
                requires
                    w == v * pow10(i as nat),
                    pow10((i + 1) as nat) == 10 * pow10(i as nat),
            ;
        }
        w = w * 10;
        i += 1;
    }
    Some(w)
}

proof fn lemma_scale_grows(v: u128, j: nat, k: nat)
    requires
        j <= k,
    ensures
        v * pow10(j) <= v * pow10(k),
    decreases k - j,
{
    if j < k {
        lemma_scale_grows(v, j, (k - 1) as nat);
        lemma_pow10_pos((k - 1) as nat);
        assert(pow10(k) == 10 * pow10((k - 1) as nat));
        assert(v * pow10((k - 1) as nat) <= v * pow10(k)) by (nonlinear_arith)
            requires
                pow10(k) == 10 * pow10((k - 1) as nat),
                pow10((k - 1) as nat) >= 1,
        ;
    }
}

/// Reads a run of digits up to `scale_limit()`: `None` when a character is
/// not a digit, else the value, or one past the limit when it is larger.
fn digits_upto(ds: &Vec<char>) -> (r: Option<u128>)
    ensures
        r is Some <==> all_digits(ds@),
        r matches Some(v) ==> (if digits_value(ds@) <= scale_limit() {
            v == digits_value(ds@)
        } else {
            v == scale_limit() + 1
        }),
{
    let limit: u128 = 0x10_0000_0000_0000_0000_0000_0000;
    let mut v: u128 = 0;
    let mut i: usize = 0;
    while i < ds.len()
        invariant
            i <= ds.len(),
            limit == scale_limit(),
            all_digits(ds@.subrange(0, i as int)),
            if digits_value(ds@.subrange(0, i as int)) <= scale_limit() {
                v == digits_value(ds@.subrange(0, i as int))
            } else {
                v == scale_limit() + 1
            },
        decreases ds.len() - i,
    {
        let c = ds[i];
        let ghost pre = ds@.subrange(0, i as int);
        let ghost next = ds@.subrange(0, i + 1);
        proof {
            assert(next.drop_last() =~= pre);
        }
        if !('0' <= c && c <= '9') {
            assert(!is_ascii_digit(ds@[i as int]));
            return None;
        }
        proof {
            assert forall|k: int| 0 <= k < next.len() implies is_ascii_digit(#[trigger] next[k]) by {
                if k < i {
                    assert(next[k] == pre[k]);
                }
            }
            lemma_digits_nonneg(pre);
        }
        if v <= limit {
            let w: u128 = v * 10 + (c as u32 - 48) as u128;
            if w > limit {
                v = limit + 1;
            } else {
                v = w;
            }
        }
        i += 1;
    }
    proof {
        assert(ds@.subrange(0, ds@.len() as int) =~= ds@);
    }
    Some(v)
}

proof fn lemma_floor_div(t: int, bv: int)
    requires
        0 <= t,
        0 <= bv,
    ensures
        (t * 1_000_000_000 > bv) == (t > bv / 1_000_000_000),
{
    let q = bv / 1_000_000_000;
    let s = bv % 1_000_000_000;
    assert(bv == q * 1_000_000_000 + s && 0 <= s < 1_000_000_000) by (nonlinear_arith)
        requires
            q == bv / 1_000_000_000,
            s == bv % 1_000_000_000,
            0 <= bv,
    ;
    if t > q {
        assert(t * 1_000_000_000 > bv) by (nonlinear_arith)
            requires
                t > q,
                bv == q * 1_000_000_000 + s,
                s < 1_000_000_000,
        ;
    } else {
        assert(t * 1_000_000_000 <= bv) by (nonlinear_arith)
            requires
                t <= q,
                bv == q * 1_000_000_000 + s,
                0 <= s,
        ;
    }
}

/// Whether `x` misses every whole multiple of `step` by more than `10^-9`
/// (see `multiple_miss`).
pub fn misses_multiple(x: &JsonNumber, step: &JsonNumber) -> (r: bool)
    ensures
        r == multiple_miss(view_number(*x), view_number(*step)),
{
    let (_an, ad, ap) = dec_parts(x);
    let (bneg, bd, bp) = dec_parts(step);
    let ghost a = dec_of(view_number(*x));
    let ghost b = dec_of(view_number(*step));
    proof {
        dec_point_bound(view_number(*x));
        dec_point_bound(view_number(*step));
    }
    let ae: i128 = ap - ad.len() as i128;
    let be: i128 = bp - bd.len() as i128;
    let m: i128 = if ae <= be {
        ae
    } else {
        be
    };
    let ghost ka: nat = (last_exp(a) - m) as nat;
    let ghost kb: nat = (last_exp(b) - m) as nat;
    let ghost avs = digits_value(a.digits) * pow10(ka);
    let ghost bvs = digits_value(b.digits) * pow10(kb);
    let limit: u128 = 0x10_0000_0000_0000_0000_0000_0000;
    let a0 = match digits_upto(&ad) {
        None => return false,
        Some(v) => v,
    };
    let b0 = match digits_upto(&bd) {
        None => return false,
        Some(v) => v,
    };
    proof {
        lemma_digits_nonneg(a.digits);
        lemma_digits_nonneg(b.digits);
        lemma_pow10_pos(ka);
        lemma_pow10_pos(kb);
        assert(digits_value(a.digits) <= avs) by (nonlinear_arith)
            requires
                digits_value(a.digits) >= 0,
                pow10(ka) >= 1,
                avs == digits_value(a.digits) * pow10(ka),
        ;
        assert(digits_value(b.digits) <= bvs) by (nonlinear_arith)
            requires
                digits_value(b.digits) >= 0,
                pow10(kb) >= 1,
                bvs == digits_value(b.digits) * pow10(kb),
        ;
    }
    if bneg || a0 > limit || b0 > limit {
        return false;
    }
    let av = match scale_up(a0, ae - m) {
        None => return false,
        Some(v) => v,
    };
    let bv = match scale_up(b0, be - m) {
        None => return false,
        Some(v) => v,
    };
    if bv == 0 {
        return false;
    }
    let r = av % bv;
    let t = if r <= bv - r {
        r
    } else {
        bv - r
    };
    proof {
        lemma_floor_div(t as int, bv as int);
    }
    t > bv / 1_000_000_000
}

} // verus!
