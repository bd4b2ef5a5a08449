//! Exact arithmetic on decimal numbers written as text, such as the
//! floating point literals of rules and data files. A number is a sign,
//! a run of decimal digits and a power of ten: `-12.5e3` is
//! `-(125) * 10^2`. Comparisons are exact on these values.
use vstd::prelude::*;
use crate::parser::lexical::{sign_end, digit_end, lemma_digit_end_bounds};
use crate::text::{is_ascii_digit, digit_value};

verus! {

pub open spec fn pow10(n: nat) -> nat
    decreases n,
{
    if n == 0 {
        1
    } else {
        10 * pow10((n - 1) as nat)
    }
}

/// The natural number whose decimal digits are `ds`, most significant first.
pub open spec fn dval(ds: Seq<u8>) -> nat
    decreases ds.len(),
{
    if ds.len() == 0 {
        0
    } else {
        dval(ds.drop_last()) * 10 + (ds.last() as nat)
    }
}

pub open spec fn all_digits(ds: Seq<u8>) -> bool {
    forall|i: int| 0 <= i < ds.len() ==> #[trigger] ds[i] < 10
}

/// A decimal number: `(-1)^negative * dval(digits) * 10^exponent`.
pub struct Decimal {
    pub negative: bool,
    pub digits: Vec<u8>,
    pub exponent: i64,
}

impl Decimal {
    pub open spec fn wf(&self) -> bool {
        &&& all_digits(self.digits@)
        &&& self.digits@.len() < 0x1000_0000_0000_0000
        &&& -0x1000_0000_0000_0000 < self.exponent < 0x1000_0000_0000_0000
    }

    /// The signed digit value.
    pub open spec fn signed(&self) -> int {
        if self.negative {
            -(dval(self.digits@) as int)
        } else {
            dval(self.digits@) as int
        }
    }
}

/// The order of two decimals `n1 * 10^e1` and `n2 * 10^e2`: -1, 0 or 1.
pub open spec fn rat_order(n1: int, e1: int, n2: int, e2: int) -> int {
    let m = if e1 <= e2 { e1 } else { e2 };
    let a = n1 * pow10((e1 - m) as nat);
    let b = n2 * pow10((e2 - m) as nat);
    if a < b {
        -1
    } else if a == b {
        0
    } else {
        1
    }
}

pub open spec fn decimal_order(a: Decimal, b: Decimal) -> int {
    rat_order(a.signed(), a.exponent as int, b.signed(), b.exponent as int)
}

// ---------------------------------------------------------------------
// Lemmas on digit values
// ---------------------------------------------------------------------

pub proof fn lemma_pow10_pos(n: nat)
    ensures
        pow10(n) >= 1,
    decreases n,
{
    if n > 0 {
        lemma_pow10_pos((n - 1) as nat);
    }
}

pub proof fn lemma_pow10_add(a: nat, b: nat)
    ensures
        pow10(a + b) == pow10(a) * pow10(b),
    decreases b,
{
    if b > 0 {
        let c = (b - 1) as nat;
        lemma_pow10_add(a, c);
        let s: nat = a + b;
        assert(pow10(s) == 10 * pow10((s - 1) as nat));
        assert((s - 1) as nat == a + c);
        assert(pow10(b) == 10 * pow10(c));
        let x = pow10(a);
        let y = pow10(c);
        assert(10 * (x * y) == x * (10 * y)) by (nonlinear_arith);
    } else {
        assert(pow10(b) == 1);
        let x = pow10(a);
        assert(x * 1 == x);
    }
}

pub proof fn lemma_pow10_mono(a: nat, b: nat)
    requires
        a <= b,
    ensures
        pow10(a) <= pow10(b),
    decreases b,
{
    if a < b {
        lemma_pow10_mono(a, (b - 1) as nat);
    }
}

pub proof fn lemma_dval_append(a: Seq<u8>, b: Seq<u8>)
    ensures
        dval(a + b) == dval(a) * pow10(b.len()) + dval(b),
    decreases b.len(),
{
    if b.len() == 0 {
        assert(a + b =~= a);
        assert(pow10(b.len()) == 1);
        assert(dval(b) == 0);
        let x = dval(a);
        assert(x * 1 == x);
    } else {
        let b1 = b.drop_last();
        lemma_dval_append(a, b1);
        let ab = a + b;
        assert(ab.drop_last() =~= a + b1);
        assert(ab.last() == b.last());
        assert(dval(ab) == dval(ab.drop_last()) * 10 + (ab.last() as nat));
        assert(dval(b) == dval(b1) * 10 + (b.last() as nat));
        assert(pow10(b.len()) == 10 * pow10(b1.len()));
        let x = dval(a);
        let p = pow10(b1.len());
        let y = dval(b1);
        let d = b.last() as nat;
        assert((x * p + y) * 10 + d == x * (10 * p) + (y * 10 + d)) by (nonlinear_arith);
    }
}

/// The value of a single digit.
pub proof fn lemma_dval_single(d: u8)
    ensures
        dval(seq![d]) == d as nat,
{
    assert(seq![d].drop_last() =~= Seq::<u8>::empty());
    assert(dval(Seq::<u8>::empty()) == 0);
}

pub proof fn lemma_dval_upper(ds: Seq<u8>)
    requires
        all_digits(ds),
    ensures
        dval(ds) < pow10(ds.len()),
    decreases ds.len(),
{
    if ds.len() > 0 {
        let d1 = ds.drop_last();
        assert(all_digits(d1)) by {
            assert forall|i: int| 0 <= i < d1.len() implies #[trigger] d1[i] < 10 by {
                assert(d1[i] == ds[i]);
            }
        }
        lemma_dval_upper(d1);
        assert(ds[ds.len() - 1] < 10);
        let v = dval(d1);
        let p = pow10(d1.len());
        let d = ds.last() as nat;
        assert(v * 10 + d < 10 * p) by (nonlinear_arith)
            requires
                v < p,
                d < 10,
        ;
    }
}

pub proof fn lemma_dval_lower(ds: Seq<u8>)
    requires
        all_digits(ds),
        ds.len() > 0,
        ds[0] >= 1,
    ensures
        dval(ds) >= pow10((ds.len() - 1) as nat),
{
    let head = ds.subrange(0, 1);
    let rest = ds.subrange(1, ds.len() as int);
    assert(head + rest =~= ds);
    lemma_dval_append(head, rest);
    assert(head =~= seq![ds[0]]);
    lemma_dval_single(ds[0]);
    let p = pow10(rest.len());
    assert((ds[0] as nat) * p >= p) by (nonlinear_arith)
        requires
            ds[0] >= 1,
    ;
}

pub open spec fn zeros(k: nat) -> Seq<u8> {
    Seq::new(k, |i: int| 0u8)
}

pub proof fn lemma_dval_zeros(k: nat)
    ensures
        dval(zeros(k)) == 0,
    decreases k,
{
    if k > 0 {
        assert(zeros(k).drop_last() =~= zeros((k - 1) as nat));
        lemma_dval_zeros((k - 1) as nat);
    }
}

/// Of two digit sequences of the same length that agree before `i`, the
/// one with the smaller digit at `i` has the smaller value.
pub proof fn lemma_first_difference(x: Seq<u8>, y: Seq<u8>, i: int)
    requires
        x.len() == y.len(),
        0 <= i < x.len(),
        all_digits(x),
        all_digits(y),
        x.subrange(0, i) == y.subrange(0, i),
        x[i] < y[i],
    ensures
        dval(x) < dval(y),
{
    let p = x.subrange(0, i);
    let xr = x.subrange(i, x.len() as int);
    let yr = y.subrange(i, y.len() as int);
    assert(p + xr =~= x);
    assert(y.subrange(0, i) + yr =~= y);
    lemma_dval_append(p, xr);
    lemma_dval_append(p, yr);
    let xh = xr.subrange(0, 1);
    let xt = xr.subrange(1, xr.len() as int);
    let yh = yr.subrange(0, 1);
    let yt = yr.subrange(1, yr.len() as int);
    assert(xh + xt =~= xr);
    assert(yh + yt =~= yr);
    lemma_dval_append(xh, xt);
    lemma_dval_append(yh, yt);
    assert(xh =~= seq![x[i]]);
    assert(yh =~= seq![y[i]]);
    lemma_dval_single(x[i]);
    lemma_dval_single(y[i]);
    assert(xt.len() == yt.len());
    assert(all_digits(xt)) by {
        assert forall|k: int| 0 <= k < xt.len() implies #[trigger] xt[k] < 10 by {
            assert(xt[k] == x[i + 1 + k]);
        }
    }
    lemma_dval_upper(xt);
    let q = pow10(xt.len());
    let a = x[i] as nat;
    let b = y[i] as nat;
    let tx = dval(xt);
    let ty = dval(yt);
    assert(a * q + tx < b * q + ty) by (nonlinear_arith)
        requires
            a < b,
            tx < q,
    ;
}

// ---------------------------------------------------------------------
// Comparison
// ---------------------------------------------------------------------

/// The index of the first non-zero digit, or the length when all are zero.
pub fn first_nonzero(ds: &Vec<u8>) -> (r: usize)
    ensures
        r <= ds@.len(),
        forall|k: int| 0 <= k < r ==> ds@[k] == 0,
        r < ds@.len() ==> ds@[r as int] != 0,
{
    let mut i: usize = 0;
    while i < ds.len() && ds[i] == 0
        invariant
            i <= ds@.len(),
            forall|k: int| 0 <= k < i ==> ds@[k] == 0,
        decreases ds@.len() - i,
    {
        i = i + 1;
    }
    i
}

pub proof fn lemma_strip_zeros(ds: Seq<u8>, z: int)
    requires
        0 <= z <= ds.len(),
        forall|k: int| 0 <= k < z ==> ds[k] == 0,
    ensures
        dval(ds) == dval(ds.subrange(z, ds.len() as int)),
{
    assert(ds.subrange(0, z) =~= zeros(z as nat));
    assert(ds.subrange(0, z) + ds.subrange(z, ds.len() as int) =~= ds);
    lemma_dval_append(ds.subrange(0, z), ds.subrange(z, ds.len() as int));
    lemma_dval_zeros(z as nat);
}

proof fn lemma_all_digits_sub(ds: Seq<u8>, a: int, b: int)
    requires
        all_digits(ds),
        0 <= a <= b <= ds.len(),
    ensures
        all_digits(ds.subrange(a, b)),
{
    assert forall|k: int| 0 <= k < b - a implies #[trigger] ds.subrange(a, b)[k] < 10 by {
        assert(ds.subrange(a, b)[k] == ds[a + k]);
    }
}

/// The digit of `ds[z..] ++ zeros` at `k`.
spec fn padded(ds: Seq<u8>, z: int, k: int) -> u8 {
    if z + k < ds.len() {
        ds[z + k]
    } else {
        0
    }
}

/// Compares the magnitudes `dval(a) * 10^ea` and `dval(b) * 10^eb` of two
/// non-zero digit sequences: -1, 0 or 1.
fn magnitude_order(a: &Vec<u8>, ea: i64, b: &Vec<u8>, eb: i64) -> (r: i8)
    requires
        all_digits(a@),
        all_digits(b@),
        a@.len() < 0x1000_0000_0000_0000,
        b@.len() < 0x1000_0000_0000_0000,
        -0x1000_0000_0000_0000 < ea < 0x1000_0000_0000_0000,
        -0x1000_0000_0000_0000 < eb < 0x1000_0000_0000_0000,
        dval(a@) > 0,
        dval(b@) > 0,
    ensures
        r as int == rat_order(dval(a@) as int, ea as int, dval(b@) as int, eb as int),
{
    let za = first_nonzero(a);
    let zb = first_nonzero(b);
    let ghost sa = a@.subrange(za as int, a@.len() as int);
    let ghost sb = b@.subrange(zb as int, b@.len() as int);
    proof {
        lemma_strip_zeros(a@, za as int);
        lemma_strip_zeros(b@, zb as int);
        if za == a@.len() {
            assert(sa =~= Seq::<u8>::empty());
        }
        if zb == b@.len() {
            assert(sb =~= Seq::<u8>::empty());
        }
        lemma_all_digits_sub(a@, za as int, a@.len() as int);
        lemma_all_digits_sub(b@, zb as int, b@.len() as int);
    }
    let la: i64 = (a.len() - za) as i64;
    let lb: i64 = (b.len() - zb) as i64;
    let ta: i64 = la + ea;
    let tb: i64 = lb + eb;
    let ghost m: int = if ea <= eb { ea as int } else { eb as int };
    let ghost da: nat = (ea - m) as nat;
    let ghost db: nat = (eb - m) as nat;
    let ghost xa = sa + zeros(da);
    let ghost xb = sb + zeros(db);
    proof {
        lemma_dval_append(sa, zeros(da));
        lemma_dval_append(sb, zeros(db));
        lemma_dval_zeros(da);
        lemma_dval_zeros(db);
        assert(all_digits(zeros(da)));
        assert(all_digits(zeros(db)));
        assert(all_digits(xa)) by {
            assert forall|k: int| 0 <= k < xa.len() implies #[trigger] xa[k] < 10 by {
                if k < sa.len() {
                    assert(xa[k] == sa[k]);
                } else {
                    assert(xa[k] == 0);
                }
            }
        }
        assert(all_digits(xb)) by {
            assert forall|k: int| 0 <= k < xb.len() implies #[trigger] xb[k] < 10 by {
                if k < sb.len() {
                    assert(xb[k] == sb[k]);
                } else {
                    assert(xb[k] == 0);
                }
            }
        }
        assert(dval(xa) == dval(a@) * pow10(da));
        assert(dval(xb) == dval(b@) * pow10(db));
        assert(sa.len() > 0 && sa[0] >= 1);
        assert(sb.len() > 0 && sb[0] >= 1);
        assert(xa[0] == sa[0]);
        assert(xb[0] == sb[0]);
        lemma_dval_lower(xa);
        lemma_dval_lower(xb);
        lemma_dval_upper(xa);
        lemma_dval_upper(xb);
    }
    if ta > tb {
        proof {
            lemma_pow10_mono(xb.len(), (xa.len() - 1) as nat);
        }
        return 1;
    }
    if ta < tb {
        proof {
            lemma_pow10_mono(xa.len(), (xb.len() - 1) as nat);
        }
        return -1;
    }
    assert(xa.len() == xb.len());
    let n: usize = if a.len() - za >= b.len() - zb {
        a.len() - za
    } else {
        b.len() - zb
    };
    let mut k: usize = 0;
    while k < n
        invariant
            0 <= k <= n,
            n == (if sa.len() >= sb.len() { sa.len() } else { sb.len() }),
            a@.len() < 0x1000_0000_0000_0000,
            b@.len() < 0x1000_0000_0000_0000,
            all_digits(xa),
            all_digits(xb),
            m == (if ea <= eb { ea as int } else { eb as int }),
            da == (ea - m) as nat,
            db == (eb - m) as nat,
            dval(xa) == dval(a@) * pow10(da),
            dval(xb) == dval(b@) * pow10(db),
            n <= xa.len(),
            xa.len() == xb.len(),
            za + sa.len() == a@.len(),
            zb + sb.len() == b@.len(),
            sa == a@.subrange(za as int, a@.len() as int),
            sb == b@.subrange(zb as int, b@.len() as int),
            xa == sa + zeros(da),
            xb == sb + zeros(db),
            xa.subrange(0, k as int) == xb.subrange(0, k as int),
        decreases n - k,
    {
        let x: u8 = if k < a.len() - za {
            a[za + k]
        } else {
            0
        };
        let y: u8 = if k < b.len() - zb {
            b[zb + k]
        } else {
            0
        };
        proof {
            assert(xa[k as int] == x);
            assert(xb[k as int] == y);
        }
        if x < y {
            proof {
                lemma_first_difference(xa, xb, k as int);
            }
            return -1;
        }
        if x > y {
            proof {
                lemma_first_difference(xb, xa, k as int);
            }
            return 1;
        }
        proof {
            assert(xa.subrange(0, k as int + 1) =~= xa.subrange(0, k as int).push(x));
            assert(xb.subrange(0, k as int + 1) =~= xb.subrange(0, k as int).push(y));
        }
        k = k + 1;
    }
    proof {
        assert forall|j: int| 0 <= j < xa.len() implies xa[j] == xb[j] by {
            if j < k {
                assert(xa.subrange(0, k as int)[j] == xb.subrange(0, k as int)[j]);
            } else {
                assert(xa[j] == 0);
                assert(xb[j] == 0);
            }
        }
        assert(xa =~= xb);
    }
    0
}

/// Whether every digit is zero (the value is zero).
pub fn is_zero(ds: &Vec<u8>) -> (r: bool)
    ensures
        r == (dval(ds@) == 0),
{
    let z = first_nonzero(ds);
    proof {
        lemma_strip_zeros(ds@, z as int);
        if z == ds@.len() {
            assert(ds@.subrange(z as int, ds@.len() as int) =~= Seq::<u8>::empty());
        } else {
            let t = ds@.subrange(z as int, ds@.len() as int);
            let head = t.subrange(0, 1);
            let rest = t.subrange(1, t.len() as int);
            assert(head + rest =~= t);
            lemma_dval_append(head, rest);
            assert(head =~= seq![t[0]]);
            lemma_dval_single(t[0]);
            lemma_pow10_pos(rest.len());
            let p = pow10(rest.len());
            let d = head[0] as nat;
            assert(d * p >= 1) by (nonlinear_arith)
                requires
                    d >= 1,
                    p >= 1,
            ;
        }
    }
    z == ds.len()
}

proof fn lemma_rat_order_zero_left(e1: int, n2: int, e2: int)
    ensures
        rat_order(0, e1, n2, e2) == (if n2 < 0 { 1int } else if n2 == 0 { 0int } else { -1int }),
{
    let m = if e1 <= e2 { e1 } else { e2 };
    lemma_pow10_pos((e2 - m) as nat);
    let p = pow10((e2 - m) as nat);
    let p1 = pow10((e1 - m) as nat);
    assert(0 * p1 == 0);
    assert(n2 == 0 ==> n2 * p == 0);
    assert(n2 < 0 ==> n2 * p < 0) by (nonlinear_arith)
        requires
            p >= 1,
    ;
    assert(n2 > 0 ==> n2 * p > 0) by (nonlinear_arith)
        requires
            p >= 1,
    ;
}

proof fn lemma_rat_order_negate(n1: int, e1: int, n2: int, e2: int)
    ensures
        rat_order(-n1, e1, -n2, e2) == -rat_order(n1, e1, n2, e2),
{
    let m = if e1 <= e2 { e1 } else { e2 };
    let p1 = pow10((e1 - m) as nat);
    let p2 = pow10((e2 - m) as nat);
    assert((-n1) * p1 == -(n1 * p1)) by (nonlinear_arith);
    assert((-n2) * p2 == -(n2 * p2)) by (nonlinear_arith);
}

proof fn lemma_rat_order_signs(n1: int, e1: int, n2: int, e2: int)
    requires
        n1 < 0 < n2,
    ensures
        rat_order(n1, e1, n2, e2) == -1,
        rat_order(n2, e2, n1, e1) == 1,
{
    let m = if e1 <= e2 { e1 } else { e2 };
    lemma_pow10_pos((e1 - m) as nat);
    lemma_pow10_pos((e2 - m) as nat);
    let p1 = pow10((e1 - m) as nat);
    let p2 = pow10((e2 - m) as nat);
    assert(n1 * p1 < 0) by (nonlinear_arith)
        requires
            n1 < 0,
            p1 >= 1,
    ;
    assert(n2 * p2 > 0) by (nonlinear_arith)
        requires
            n2 > 0,
            p2 >= 1,
    ;
}

/// The exact order of two decimals: -1, 0 or 1.
pub fn compare_decimals(a: &Decimal, b: &Decimal) -> (r: i8)
    requires
        a.wf(),
        b.wf(),
    ensures
        r as int == decimal_order(*a, *b),
{
    let a_zero = is_zero(&a.digits);
    let b_zero = is_zero(&b.digits);
    proof {
        lemma_rat_order_zero_left(a.exponent as int, b.signed(), b.exponent as int);
        lemma_rat_order_zero_left(b.exponent as int, a.signed(), a.exponent as int);
        lemma_rat_order_negate(a.signed(), a.exponent as int, b.signed(), b.exponent as int);
        lemma_rat_order_negate(0, a.exponent as int, -b.signed(), b.exponent as int);
        lemma_rat_order_negate(b.signed(), b.exponent as int, 0, a.exponent as int);
    }
    if a_zero && b_zero {
        return 0;
    }
    if a_zero {
        return if b.negative { 1 } else { -1 };
    }
    if b_zero {
        proof {
            lemma_rat_order_negate(-a.signed(), a.exponent as int, 0, b.exponent as int);
            lemma_rat_order_zero_left(b.exponent as int, -a.signed(), a.exponent as int);
            lemma_rat_order_swap(a.signed(), a.exponent as int, 0, b.exponent as int);
        }
        return if a.negative { -1 } else { 1 };
    }
    if a.negative && !b.negative {
        proof {
            lemma_rat_order_signs(a.signed(), a.exponent as int, b.signed(), b.exponent as int);
        }
        return -1;
    }
    if !a.negative && b.negative {
        proof {
            lemma_rat_order_signs(b.signed(), b.exponent as int, a.signed(), a.exponent as int);
        }
        return 1;
    }
    let c = magnitude_order(&a.digits, a.exponent, &b.digits, b.exponent);
    if a.negative {
        proof {
            lemma_rat_order_negate(
                dval(a.digits@) as int,
                a.exponent as int,
                dval(b.digits@) as int,
                b.exponent as int,
            );
        }
        -c
    } else {
        c
    }
}

proof fn lemma_rat_order_swap(n1: int, e1: int, n2: int, e2: int)
    ensures
        rat_order(n1, e1, n2, e2) == -rat_order(n2, e2, n1, e1),
{
}

// ---------------------------------------------------------------------
// Decimal text
// ---------------------------------------------------------------------

/// The digits of `t` in `[a, b)`, as numbers.
pub open spec fn digit_seq(t: Seq<char>, a: int, b: int) -> Seq<u8> {
    Seq::new((b - a) as nat, |i: int| digit_value(t[a + i]) as u8)
}

/// The reading of decimal text `[sign] digits [. digits] [(e|E) [sign] digits]`
/// with at least one mantissa digit: its sign, its mantissa digits (the
/// fraction digits included) and the power of ten that scales them.
pub open spec fn decimal_of_text(t: Seq<char>) -> Option<(bool, Seq<u8>, int)> {
    let p1 = sign_end(t, 0);
    let negative = p1 > 0 && t[0] == '-';
    let d = digit_end(t, p1);
    let has_point = d < t.len() && t[d] == '.';
    let f = if has_point {
        digit_end(t, d + 1)
    } else {
        d
    };
    let frac_len = if has_point {
        f - (d + 1)
    } else {
        0
    };
    let mantissa = if has_point {
        digit_seq(t, p1, d) + digit_seq(t, d + 1, f)
    } else {
        digit_seq(t, p1, d)
    };
    if mantissa.len() == 0 {
        None
    } else if f == t.len() {
        Some((negative, mantissa, -frac_len))
    } else if t[f] == 'e' || t[f] == 'E' {
        let e2 = sign_end(t, f + 1);
        let g = digit_end(t, e2);
        if g > e2 && g == t.len() {
            let ev = crate::parser::lexical::digits_value(t, e2, g) as int;
            let exponent = if e2 > f + 1 && t[f + 1] == '-' {
                -ev
            } else {
                ev
            };
            Some((negative, mantissa, exponent - frac_len))
        } else {
            None
        }
    } else {
        None
    }
}

/// Appends the digits of `t` in `[a, b)` to `out`.
fn push_digits(out: &mut Vec<u8>, t: &Vec<char>, a: usize, b: usize)
    requires
        a <= b <= t@.len(),
        forall|k: int| a <= k < b ==> is_ascii_digit(#[trigger] t@[k]),
    ensures
        final(out)@ == old(out)@ + digit_seq(t@, a as int, b as int),
{
    let ghost start = out@;
    let mut i = a;
    while i < b
        invariant
            a <= i <= b <= t@.len(),
            forall|k: int| a <= k < b ==> is_ascii_digit(#[trigger] t@[k]),
            out@ == start + digit_seq(t@, a as int, i as int),
        decreases b - i,
    {
        assert(is_ascii_digit(t@[i as int]));
        let d: u8 = ((t[i] as u32) - ('0' as u32)) as u8;
        out.push(d);
        proof {
            assert(digit_seq(t@, a as int, i as int + 1) =~= digit_seq(t@, a as int, i as int).push(d));
        }
        i = i + 1;
    }
}

proof fn lemma_digit_seq_all_digits(t: Seq<char>, a: int, b: int)
    requires
        0 <= a <= b <= t.len(),
        forall|k: int| a <= k < b ==> is_ascii_digit(#[trigger] t[k]),
    ensures
        all_digits(digit_seq(t, a, b)),
{
    assert forall|i: int| 0 <= i < b - a implies #[trigger] digit_seq(t, a, b)[i] < 10 by {
        assert(is_ascii_digit(t[a + i]));
    }
}

/// The position after an optional sign at `p` of a character vector.
fn sign_end_of(t: &Vec<char>, p: usize) -> (r: usize)
    requires
        p <= t@.len(),
    ensures
        r == sign_end(t@, p as int),
{
    if p < t.len() && (t[p] == '+' || t[p] == '-') {
        p + 1
    } else {
        p
    }
}

fn digit_end_of(t: &Vec<char>, p: usize) -> (r: usize)
    requires
        p <= t@.len(),
    ensures
        r == digit_end(t@, p as int),
        p <= r <= t@.len(),
{
    proof {
        lemma_digit_end_bounds(t@, p as int);
    }
    let mut i = p;
    while i < t.len() && '0' <= t[i] && t[i] <= '9'
        invariant
            p <= i <= t@.len(),
            digit_end(t@, i as int) == digit_end(t@, p as int),
        decreases t@.len() - i,
    {
        i = i + 1;
    }
    i
}

/// Whether decimal text can be read here: it is shorter than `2^56`
/// characters, it is a decimal number, and its power of ten is less than
/// `2^57` away from zero.
pub open spec fn readable_decimal(t: Seq<char>) -> bool {
    &&& t.len() < 0x0100_0000_0000_0000
    &&& decimal_of_text(t) matches Some((_, _, e))
    &&& -0x0200_0000_0000_0000 < e < 0x0200_0000_0000_0000
}

/// Reads decimal text: the answer is a decimal exactly when the text is
/// readable, and it is the decimal the text denotes.
pub fn decimal_from_text(t: &Vec<char>) -> (r: Option<Decimal>)
    ensures
        r is Some <==> readable_decimal(t@),
        r matches Some(d) ==> d.wf() && decimal_of_text(t@) == Some(
            (d.negative, d.digits@, d.exponent as int),
        ),
{
    if (t.len() as u64) >= 0x0100_0000_0000_0000u64 {
        return None;
    }
    let p1 = sign_end_of(t, 0);
    let negative = p1 > 0 && t[0] == '-';
    let d = digit_end_of(t, p1);
    proof {
        lemma_digit_end_bounds(t@, p1 as int);
    }
    let has_point = d < t.len() && t[d] == '.';
    let f = if has_point {
        digit_end_of(t, d + 1)
    } else {
        d
    };
    proof {
        if has_point {
            lemma_digit_end_bounds(t@, d + 1);
        }
    }
    let frac_len: usize = if has_point {
        f - (d + 1)
    } else {
        0
    };
    let mut digits: Vec<u8> = Vec::new();
    push_digits(&mut digits, t, p1, d);
    if has_point {
        push_digits(&mut digits, t, d + 1, f);
    }
    proof {
        assert(digits@ == (if has_point {
            digit_seq(t@, p1 as int, d as int) + digit_seq(t@, d + 1, f as int)
        } else {
            Seq::<u8>::empty() + digit_seq(t@, p1 as int, d as int)
        }));
        if !has_point {
            assert(Seq::<u8>::empty() + digit_seq(t@, p1 as int, d as int) =~= digit_seq(
                t@,
                p1 as int,
                d as int,
            ));
        }
        lemma_digit_seq_all_digits(t@, p1 as int, d as int);
        if has_point {
            lemma_digit_seq_all_digits(t@, d + 1, f as int);
        }
        assert(all_digits(digits@));
    }
    if digits.len() == 0 {
        return None;
    }
    if f == t.len() {
        if (frac_len as u64) >= 0x0200_0000_0000_0000u64 {
            return None;
        }
        return Some(Decimal { negative, digits, exponent: 0 - (frac_len as i64) });
    }
    if !(t[f] == 'e' || t[f] == 'E') {
        return None;
    }
    let e2 = sign_end_of(t, f + 1);
    let g = digit_end_of(t, e2);
    if !(g > e2 && g == t.len()) {
        return None;
    }
    let exp_negative = e2 > f + 1 && t[f + 1] == '-';
    let mut ev: u64 = 0;
    let mut i = e2;
    proof {
        lemma_digit_end_bounds(t@, e2 as int);
    }
    let ghost dv: int = crate::parser::lexical::digits_value(t@, e2 as int, g as int) as int;
    assert(decimal_of_text(t@) == Some(
        (negative, digits@, (if exp_negative { -dv } else { dv }) - frac_len),
    ));
    while i < g
        invariant
            e2 <= i <= g <= t@.len(),
            t@.len() < 0x0100_0000_0000_0000,
            frac_len <= t@.len(),
            dv == crate::parser::lexical::digits_value(t@, e2 as int, g as int) as int,
            decimal_of_text(t@) == Some(
                (negative, digits@, (if exp_negative { -dv } else { dv }) - frac_len),
            ),
            forall|k: int| e2 <= k < g ==> is_ascii_digit(#[trigger] t@[k]),
            ev == crate::parser::lexical::digits_value(t@, e2 as int, i as int),
            ev < 0x0400_0000_0000_0000,
        decreases g - i,
    {
        assert(is_ascii_digit(t@[i as int]));
        let dd: u64 = ((t[i] as u32) - ('0' as u32)) as u64;
        ev = ev * 10 + dd;
        i = i + 1;
        if ev >= 0x0400_0000_0000_0000 {
            proof {
                lemma_digits_value_grows(t@, e2 as int, i as int, g as int);
            }
            return None;
        }
    }
    let e: i64 = if exp_negative {
        -(ev as i64)
    } else {
        ev as i64
    };
    let exponent: i64 = e - (frac_len as i64);
    if exponent <= -0x0200_0000_0000_0000 || exponent >= 0x0200_0000_0000_0000 {
        return None;
    }
    Some(Decimal { negative, digits, exponent })
}

proof fn lemma_digits_value_grows(t: Seq<char>, a: int, b: int, c: int)
    requires
        a <= b <= c,
    ensures
        crate::parser::lexical::digits_value(t, a, b) <= crate::parser::lexical::digits_value(
            t,
            a,
            c,
        ),
    decreases c - b,
{
    if b < c {
        lemma_digits_value_grows(t, a, b, c - 1);
    }
}

/// The decimal of an integer.
pub fn decimal_from_i64(v: i64) -> (r: Decimal)
    ensures
        r.wf(),
        r.signed() == v as int,
        r.exponent == 0,
{
    let negative = v < 0;
    let mut m: u64 = if v < 0 {
        if v == i64::MIN {
            0x8000_0000_0000_0000u64
        } else {
            (-v) as u64
        }
    } else {
        v as u64
    };
    let ghost total = m as nat;
    let mut rev: Vec<u8> = Vec::new();
    proof {
        assert(rev@.reverse() =~= Seq::<u8>::empty());
        assert(pow10(0) == 1);
        assert(m * 1 == m);
    }
    while m > 0
        invariant
            all_digits(rev@),
            total == m * pow10(rev@.len()) + dval(rev@.reverse()),
            total <= 0x8000_0000_0000_0000,
            rev@.len() <= 20,
        decreases m,
    {
        let d: u8 = (m % 10) as u8;
        proof {
            let old_rev = rev@;
            let k = old_rev.len();
            if k >= 20 {
                lemma_pow10_mono(20, k);
                reveal_with_fuel(pow10, 21);
                assert(pow10(20) == 100_000_000_000_000_000_000nat);
                let pk = pow10(k);
                assert(m * pk >= pk) by (nonlinear_arith)
                    requires
                        m >= 1,
                ;
                assert(false);
            }
            assert(rev@.push(d).reverse() =~= seq![d] + old_rev.reverse());
            lemma_dval_append(seq![d], old_rev.reverse());
            lemma_dval_single(d);
            assert(pow10(k + 1) == 10 * pow10(k));
            let q = m / 10;
            let pk = pow10(k);
            assert(m * pk == q * (10 * pk) + (d as nat) * pk) by (nonlinear_arith)
                requires
                    m == q * 10 + d,
            ;
            assert(old_rev.reverse().len() == k);
        }
        rev.push(d);
        m = m / 10;
    }
    let mut digits: Vec<u8> = Vec::new();
    let mut i = rev.len();
    while i > 0
        invariant
            i <= rev@.len(),
            all_digits(rev@),
            digits@ == rev@.subrange(i as int, rev@.len() as int).reverse(),
        decreases i,
    {
        i = i - 1;
        proof {
            assert(rev@.subrange(i as int, rev@.len() as int).reverse() =~= rev@.subrange(
                i as int + 1,
                rev@.len() as int,
            ).reverse().push(rev@[i as int]));
        }
        digits.push(rev[i]);
    }
    proof {
        assert(rev@.subrange(0, rev@.len() as int) =~= rev@);
        assert(all_digits(digits@)) by {
            assert forall|k: int| 0 <= k < digits@.len() implies #[trigger] digits@[k] < 10 by {
                assert(digits@[k] == rev@[rev@.len() - 1 - k]);
            }
        }
    }
    Decimal { negative, digits, exponent: 0 }
}

// ---------------------------------------------------------------------
// Infinities and NaN
// ---------------------------------------------------------------------

/// The upper-case form of the letters of `inf`, `infinity` and `nan`.
pub open spec fn upper_of(c: char) -> char {
    if c == 'i' {
        'I'
    } else if c == 'n' {
        'N'
    } else if c == 'f' {
        'F'
    } else if c == 't' {
        'T'
    } else if c == 'y' {
        'Y'
    } else if c == 'a' {
        'A'
    } else {
        c
    }
}

/// Whether `s` is the lower-case word `w` with any letters in upper case.
pub open spec fn word_ci(s: Seq<char>, w: Seq<char>) -> bool {
    &&& s.len() == w.len()
    &&& forall|i: int| 0 <= i < s.len() ==> (s[i] == w[i] || s[i] == upper_of(w[i]))
}

/// The text after an optional leading sign.
pub open spec fn unsigned_part(t: Seq<char>) -> Seq<char> {
    if t.len() > 0 && (t[0] == '+' || t[0] == '-') {
        t.drop_first()
    } else {
        t
    }
}

/// 1 for a text that denotes positive infinity, -1 for negative infinity,
/// 0 otherwise: `inf` or `infinity` in any case, after an optional sign.
pub open spec fn infinity_sign(t: Seq<char>) -> int {
    let u = unsigned_part(t);
    if word_ci(u, "inf"@) || word_ci(u, "infinity"@) {
        if t.len() > 0 && t[0] == '-' {
            -1
        } else {
            1
        }
    } else {
        0
    }
}

/// Whether a text denotes NaN: `nan` in any case, after an optional sign.
pub open spec fn nan_text(t: Seq<char>) -> bool {
    word_ci(unsigned_part(t), "nan"@)
}

/// Whether a float text denotes a number that has a place in the order:
/// a decimal or an infinity.
pub open spec fn ordered_float(t: Seq<char>) -> bool {
    readable_decimal(t) || infinity_sign(t) != 0
}

fn upper_of_exec(c: char) -> (r: char)
    ensures
        r == upper_of(c),
{
    if c == 'i' {
        'I'
    } else if c == 'n' {
        'N'
    } else if c == 'f' {
        'F'
    } else if c == 't' {
        'T'
    } else if c == 'y' {
        'Y'
    } else if c == 'a' {
        'A'
    } else {
        c
    }
}

/// Whether the characters of `t` from `p` on are the word `w` in any case.
fn word_ci_from(t: &Vec<char>, p: usize, w: &Vec<char>) -> (r: bool)
    requires
        p <= t@.len(),
    ensures
        r == word_ci(t@.subrange(p as int, t@.len() as int), w@),
{
    if t.len() - p != w.len() {
        return false;
    }
    let n = t.len();
    let mut i: usize = 0;
    while i < w.len()
        invariant
            n == t@.len(),
            t@.len() - p == w@.len(),
            p + w@.len() == t@.len(),
            p <= t@.len(),
            i <= w@.len(),
            forall|j: int| 0 <= j < i ==> (t@[p + j] == w@[j] || t@[p + j] == upper_of(w@[j])),
        decreases w@.len() - i,
    {
        let c = t[p + i];
        if !(c == w[i] || c == upper_of_exec(w[i])) {
            return false;
        }
        i = i + 1;
    }
    true
}

/// What a float text denotes besides a decimal: 1 for positive infinity,
/// -1 for negative infinity, 2 for NaN, 0 for anything else.
pub fn special_float(t: &Vec<char>) -> (r: i8)
    ensures
        r == 1 <==> infinity_sign(t@) == 1,
        r == -1 <==> infinity_sign(t@) == -1,
        r == 2 <==> nan_text(t@),
        r == 0 <==> infinity_sign(t@) == 0 && !nan_text(t@),
{
    let p: usize = if t.len() > 0 && (t[0] == '+' || t[0] == '-') {
        1
    } else {
        0
    };
    proof {
        assert(unsigned_part(t@) =~= t@.subrange(p as int, t@.len() as int));
    }
    let inf = crate::text::chars_of("inf");
    let infinity = crate::text::chars_of("infinity");
    let nan = crate::text::chars_of("nan");
    proof {
        reveal_strlit("inf");
        reveal_strlit("infinity");
        reveal_strlit("nan");
    }
    if word_ci_from(t, p, &inf) || word_ci_from(t, p, &infinity) {
        proof {
            let u = unsigned_part(t@);
            if word_ci(u, "nan"@) {
                assert(u[0] == 'n' || u[0] == 'N');
                assert(u[0] == 'i' || u[0] == 'I');
            }
        }
        if t.len() > 0 && t[0] == '-' {
            -1
        } else {
            1
        }
    } else if word_ci_from(t, p, &nan) {
        proof {
            assert(!word_ci(unsigned_part(t@), "inf"@));
        }
        2
    } else {
        0
    }
}

/// A word of letters, after an optional sign, is no decimal.
pub proof fn lemma_word_not_decimal(t: Seq<char>, w: Seq<char>)
    requires
        word_ci(unsigned_part(t), w),
        w.len() > 0,
        w[0] == 'i' || w[0] == 'n',
    ensures
        decimal_of_text(t) is None,
        !readable_decimal(t),
{
    let u = unsigned_part(t);
    let p1 = sign_end(t, 0);
    assert(u[0] == t[p1]);
    assert(!is_ascii_digit(t[p1]));
    assert(digit_end(t, p1) == p1);
    assert(digit_seq(t, p1, p1).len() == 0);
}

/// NaN has no place in the order.
pub proof fn lemma_nan_unordered(t: Seq<char>)
    requires
        nan_text(t),
    ensures
        !ordered_float(t),
        infinity_sign(t) == 0,
{
    reveal_strlit("nan");
    reveal_strlit("inf");
    reveal_strlit("infinity");
    lemma_word_not_decimal(t, "nan"@);
    let u = unsigned_part(t);
    assert(u[0] == 'n' || u[0] == 'N');
}

/// An infinity is no decimal.
pub proof fn lemma_infinity_not_decimal(t: Seq<char>)
    requires
        infinity_sign(t) != 0,
    ensures
        !readable_decimal(t),
        !nan_text(t),
{
    reveal_strlit("nan");
    reveal_strlit("inf");
    reveal_strlit("infinity");
    let u = unsigned_part(t);
    if word_ci(u, "inf"@) {
        lemma_word_not_decimal(t, "inf"@);
    } else {
        lemma_word_not_decimal(t, "infinity"@);
    }
    assert(u[0] == 'i' || u[0] == 'I');
}

/// Whether a float text reads as a floating point number: a decimal, an
/// infinity or NaN.
pub open spec fn float_text(t: Seq<char>) -> bool {
    readable_decimal(t) || infinity_sign(t) != 0 || nan_text(t)
}

pub fn float_text_exec(t: &Vec<char>) -> (r: bool)
    ensures
        r == float_text(t@),
{
    special_float(t) != 0 || decimal_from_text(t).is_some()
}

} // verus!
