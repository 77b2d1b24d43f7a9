use vstd::prelude::*;

use crate::codec::find_byte;
use crate::codec::lemma_find_byte_first;
use crate::json::copy_range;
use crate::text::dec_digits;
use crate::text::u128_dec_bytes;

verus! {

/// The largest unit count a parsed decimal may carry: eighteen nines.
pub const MAX_UNITS: u64 = 999999999999999999u64;

/// The largest fraction length a parsed decimal may carry.
pub const MAX_SCALE: u8 = 18;

/// Value of a run of decimal digit bytes.
pub open spec fn digits_val(s: Seq<u8>) -> int
    decreases s.len(),
{
    if s.len() == 0 {
        0
    } else {
        digits_val(s.drop_last()) * 10 + (s.last() - 48)
    }
}

/// Every byte is a decimal digit.
pub open spec fn all_digits(s: Seq<u8>) -> bool {
    forall|i: int| 0 <= i < s.len() ==> 48 <= #[trigger] s[i] <= 57
}

pub proof fn lemma_digits_val_nonneg(s: Seq<u8>)
    requires
        all_digits(s),
    ensures
        digits_val(s) >= 0,
    decreases s.len(),
{
    if s.len() > 0 {
        lemma_digits_val_nonneg(s.drop_last());
    }
}

pub proof fn lemma_digits_val_mono(s: Seq<u8>, i: int)
    requires
        all_digits(s),
        0 <= i <= s.len(),
    ensures
        digits_val(s.take(i)) <= digits_val(s),
    decreases s.len(),
{
    if i < s.len() {
        lemma_digits_val_nonneg(s.drop_last());
        lemma_digits_val_mono(s.drop_last(), i);
        assert(s.drop_last().take(i) =~= s.take(i));
    } else {
        assert(s.take(i) =~= s);
    }
}

/// Ten to the `k`.
pub open spec fn pow10(k: nat) -> int
    decreases k,
{
    if k == 0 {
        1
    } else {
        10 * pow10((k - 1) as nat)
    }
}

pub proof fn lemma_pow10_pos(k: nat)
    ensures
        pow10(k) >= 1,
    decreases k,
{
    if k > 0 {
        lemma_pow10_pos((k - 1) as nat);
    }
}

pub proof fn lemma_pow10_mono(a: nat, b: nat)
    requires
        a <= b,
    ensures
        pow10(a) <= pow10(b),
    decreases b,
{
    if a < b {
        lemma_pow10_mono(a, (b - 1) as nat);
        lemma_pow10_pos((b - 1) as nat);
    }
}

pub proof fn lemma_pow10_at_18()
    ensures
        pow10(18) == 1000000000000000000,
{
    reveal_with_fuel(pow10, 20);
}

/// A decimal fixed-point number `units / 10^scale`, negated when `neg`:
/// the arithmetic the ledger formatter uses instead of floating point, so
/// sums carry no rounding drift.
pub struct Decimal {
    pub neg: bool,
    pub units: u64,
    pub scale: u8,
}

impl Decimal {
    /// Within the parser's bounds.
    pub open spec fn wf(self) -> bool {
        self.units <= MAX_UNITS && self.scale <= MAX_SCALE
    }

    /// The signed unit count.
    pub open spec fn signed(self) -> int {
        if self.neg {
            -(self.units as int)
        } else {
            self.units as int
        }
    }
}

/// What parsing a decimal string yields: sign, unit count and scale. The
/// grammar is an optional minus, one or more digits, and optionally a dot
/// followed by one or more digits; the unit count and the fraction length
/// are bounded, and anything else is rejected.
pub open spec fn parse_dec(s: Seq<u8>) -> Option<(bool, int, nat)> {
    let neg = s.len() > 0 && s[0] == 45;
    let t = if neg {
        s.drop_first()
    } else {
        s
    };
    let dot = find_byte(t, 46);
    if dot < 0 {
        if t.len() >= 1 && all_digits(t) && digits_val(t) <= MAX_UNITS {
            Some((neg, digits_val(t), 0))
        } else {
            None
        }
    } else {
        let ip = t.take(dot);
        let fp = t.skip(dot + 1);
        if ip.len() >= 1 && fp.len() >= 1 && fp.len() <= MAX_SCALE && all_digits(ip)
            && all_digits(fp) && digits_val(ip + fp) <= MAX_UNITS {
            Some((neg, digits_val(ip + fp), fp.len()))
        } else {
            None
        }
    }
}

/// Value of the digit run `t`, when every byte is a digit and the value is
/// within bounds.
fn digits_value(t: &[u8]) -> (r: Option<u64>)
    ensures
        r is Some ==> t@.len() >= 1 && all_digits(t@) && digits_val(t@) == r->Some_0
            && r->Some_0 <= MAX_UNITS,
        r is None ==> !(t@.len() >= 1 && all_digits(t@) && digits_val(t@) <= MAX_UNITS),
{
    if t.len() == 0 {
        return None;
    }
    let n = t.len();
    let mut acc: u64 = 0;
    let mut j: usize = 0;
    while j < n
        invariant
            0 <= j <= n,
            n == t@.len(),
            all_digits(t@.take(j as int)),
            acc == digits_val(t@.take(j as int)),
            acc <= MAX_UNITS,
        decreases n - j,
    {
        let b = t[j];
        if b < 48 || b > 57 {
            return None;
        }
        let d: u64 = (b - 48) as u64;
        if acc > (MAX_UNITS - d) / 10 {
            proof {
                assert((MAX_UNITS - d) / 10 * 10 + (MAX_UNITS - d) % 10 == MAX_UNITS - d);
                assert(acc * 10 + d > MAX_UNITS);
                assert(t@.take(j + 1 as int).drop_last() =~= t@.take(j as int));
                assert(digits_val(t@.take(j + 1 as int)) > MAX_UNITS);
                if all_digits(t@) {
                    lemma_digits_val_mono(t@, j + 1);
                }
            }
            return None;
        }
        proof {
            assert((MAX_UNITS - d) / 10 * 10 + (MAX_UNITS - d) % 10 == MAX_UNITS - d);
            assert(t@.take(j + 1 as int).drop_last() =~= t@.take(j as int));
        }
        acc = acc * 10 + d;
        j = j + 1;
    }
    proof {
        assert(t@.take(n as int) =~= t@);
    }
    Some(acc)
}

/// Parses a decimal string into sign, unit count and scale.
#[verifier::rlimit(50)]
pub fn parse_decimal(s: &[u8]) -> (r: Option<Decimal>)
    ensures
        r is Some ==> parse_dec(s@) == Some(
            (r->Some_0.neg, r->Some_0.units as int, r->Some_0.scale as nat),
        ) && r->Some_0.wf(),
        r is None ==> parse_dec(s@) is None,
{
    let neg = s.len() > 0 && s[0] == 45;
    let st: usize = if neg {
        1
    } else {
        0
    };
    let t = copy_range(s, st, s.len());
    proof {
        if neg {
            assert(t@ =~= s@.drop_first());
        } else {
            assert(t@ =~= s@);
        }
    }
    let n = t.len();
    let mut dot: usize = n;
    let mut j: usize = 0;
    while j < n && dot == n
        invariant
            0 <= j <= n,
            n == t@.len(),
            dot == n || (dot < n && find_byte(t@, 46) == dot as int),
            dot == n ==> forall|k: int| 0 <= k < j ==> t@[k] != 46,
        decreases n - j + (if dot == n { 1int } else { 0int }),
    {
        if t[j] == 46 {
            proof {
                lemma_find_byte_first(t@, 46u8, j as int);
            }
            dot = j;
        } else {
            j = j + 1;
        }
    }
    if dot == n {
        proof {
            lemma_find_byte_first(t@, 46u8, n as int);
        }
        match digits_value(t.as_slice()) {
            None => None,
            Some(units) => {
                proof {
                    assert(parse_dec(s@) is Some);
                }
                Some(Decimal { neg, units, scale: 0 })
            },
        }
    } else {
        let ip = copy_range(t.as_slice(), 0, dot);
        let fp = copy_range(t.as_slice(), dot + 1, n);
        if ip.len() == 0 || fp.len() == 0 || fp.len() > MAX_SCALE as usize {
            proof {
                assert(t@.take(dot as int) =~= ip@);
                assert(t@.skip(dot + 1) =~= fp@);
            }
            return None;
        }
        let mut all = ip;
        let mut k: usize = 0;
        let ghost ipview = all@;
        while k < fp.len()
            invariant
                0 <= k <= fp@.len(),
                all@ == ipview + fp@.take(k as int),
            decreases fp@.len() - k,
        {
            all.push(fp[k]);
            proof {
                assert(ipview + fp@.take(k + 1 as int) =~= (ipview + fp@.take(k as int)).push(
                    fp@[k as int],
                ));
            }
            k = k + 1;
        }
        proof {
            assert(all@ =~= t@.take(dot as int) + t@.skip(dot + 1));
        }
        match digits_value(all.as_slice()) {
            None => {
                proof {
                    assert(t@.take(dot as int) =~= ip@);
                    assert(t@.skip(dot + 1) =~= fp@);
                }
                None
            },
            Some(units) => {
                proof {
                    let ips = t@.take(dot as int);
                    let fps = t@.skip(dot + 1);
                    assert(ips =~= ip@);
                    assert(fps =~= fp@);
                    assert(all@ =~= ips + fps);
                    assert(all_digits(all@));
                    assert forall|i: int| 0 <= i < ips.len() implies 48 <= #[trigger] ips[i]
                        <= 57 by {
                        assert(ips[i] == all@[i]);
                    }
                    assert forall|i: int| 0 <= i < fps.len() implies 48 <= #[trigger] fps[i]
                        <= 57 by {
                        assert(fps[i] == all@[ips.len() + i]);
                    }
                    assert(parse_dec(s@) is Some);
                }
                Some(Decimal { neg, units, scale: fp.len() as u8 })
            },
        }
    }
}

/// Trailing zeros of the fraction stripped: the canonical form a decimal
/// is printed in.
pub open spec fn norm(n: int, k: nat) -> (int, nat)
    decreases k,
{
    if k > 0 && n % 10 == 0 {
        norm(n / 10, (k - 1) as nat)
    } else {
        (n, k)
    }
}

/// The last `k` digits of `m`.
pub open spec fn frac_digits(m: nat, k: nat) -> Seq<u8>
    decreases k,
{
    if k == 0 {
        Seq::empty()
    } else {
        frac_digits(m / 10, (k - 1) as nat).push((48 + m % 10) as u8)
    }
}

/// The canonical text of `n / 10^k`: sign, integer digits, and the
/// fraction when one remains after stripping trailing zeros.
pub open spec fn dec_format(n: int, k: nat) -> Seq<u8> {
    let nk = norm(n, k);
    let m = (if nk.0 < 0 {
        -nk.0
    } else {
        nk.0
    }) as nat;
    let sign: Seq<u8> = if nk.0 < 0 {
        seq![45u8]
    } else {
        Seq::empty()
    };
    if nk.1 == 0 {
        sign + dec_digits(m)
    } else {
        sign + dec_digits((m as int / pow10(nk.1)) as nat) + seq![46u8] + frac_digits(m, nk.1)
    }
}

/// Ten to the `k`, executable.
fn pow10_u64(k: u8) -> (r: u64)
    requires
        k <= 18,
    ensures
        r == pow10(k as nat),
        r >= 1,
    decreases k,
{
    proof {
        lemma_pow10_at_18();
        lemma_pow10_mono(k as nat, 18);
        lemma_pow10_pos(k as nat);
    }
    if k == 0 {
        1
    } else {
        let p = pow10_u64(k - 1);
        proof {
            lemma_pow10_mono((k - 1) as nat, 18);
        }
        10 * p
    }
}

fn frac_bytes(m: u128, k: u8) -> (r: Vec<u8>)
    ensures
        r@ == frac_digits(m as nat, k as nat),
    decreases k,
{
    if k == 0 {
        Vec::new()
    } else {
        let mut v = frac_bytes(m / 10, k - 1);
        v.push((48 + (m % 10)) as u8);
        v
    }
}

/// Renders the decimal `±mag / 10^k` in canonical form.
fn format_signed(neg: bool, mag: u128, k: u8) -> (r: Vec<u8>)
    requires
        k <= 36,
        mag < 0x10000000000000000000000000000000,
    ensures
        r@ == dec_format(
            if neg {
                -(mag as int)
            } else {
                mag as int
            },
            k as nat,
        ),
{
    let ghost n0: int = if neg {
        -(mag as int)
    } else {
        mag as int
    };
    let mut m: u128 = mag;
    let mut sc: u8 = k;
    while sc > 0 && m % 10 == 0
        invariant
            sc <= k,
            m <= mag,
            norm(n0, k as nat) == norm(
                if neg {
                    -(m as int)
                } else {
                    m as int
                },
                sc as nat,
            ),
        decreases sc,
    {
        proof {
            let cur: int = if neg {
                -(m as int)
            } else {
                m as int
            };
            assert(cur % 10 == 0);
            assert(cur / 10 == (if neg {
                -((m / 10) as int)
            } else {
                (m / 10) as int
            }));
        }
        m = m / 10;
        sc = sc - 1;
    }
    proof {
        let cur: int = if neg {
            -(m as int)
        } else {
            m as int
        };
        if !(m % 10 == 0) {
            assert(cur % 10 != 0);
        }
        assert(norm(cur, sc as nat) == (cur, sc as nat));
    }
    let negative = neg && m > 0;
    let mut out: Vec<u8> = Vec::new();
    if negative {
        out.push(45u8);
    }
    if sc == 0 {
        let digits = u128_dec_bytes(m);
        let mut j: usize = 0;
        let ghost base = out@;
        while j < digits.len()
            invariant
                0 <= j <= digits@.len(),
                out@ == base + digits@.take(j as int),
            decreases digits@.len() - j,
        {
            out.push(digits[j]);
            proof {
                assert(base + digits@.take(j + 1 as int) =~= (base + digits@.take(
                    j as int,
                )).push(digits@[j as int]));
            }
            j = j + 1;
        }
        proof {
            assert(out@ =~= dec_format(n0, k as nat));
        }
        out
    } else {
        let p = pow10_u64(if sc > 18 {
            18
        } else {
            sc
        });
        let p128: u128 = if sc > 18 {
            let extra = pow10_u64(sc - 18);
            proof {
                lemma_pow10_at_18();
                lemma_pow10_mono((sc - 18) as nat, 18);
                assert((p as u128) * (extra as u128) < 0x10000000000000000000000000000000) by (
                nonlinear_arith)
                    requires
                        p <= 1000000000000000000,
                        extra <= 1000000000000000000,
                ;
            }
            (p as u128) * (extra as u128)
        } else {
            p as u128
        };
        proof {
            if sc > 18 {
                lemma_pow10_split(18, (sc - 18) as nat);
            }
            assert(p128 as int == pow10(sc as nat));
            lemma_pow10_pos(sc as nat);
        }
        let q = m / p128;
        let digits = u128_dec_bytes(q);
        let mut j: usize = 0;
        let ghost base = out@;
        while j < digits.len()
            invariant
                0 <= j <= digits@.len(),
                out@ == base + digits@.take(j as int),
            decreases digits@.len() - j,
        {
            out.push(digits[j]);
            proof {
                assert(base + digits@.take(j + 1 as int) =~= (base + digits@.take(
                    j as int,
                )).push(digits@[j as int]));
            }
            j = j + 1;
        }
        out.push(46u8);
        let frac = frac_bytes(m, sc);
        let mut h: usize = 0;
        let ghost base2 = out@;
        while h < frac.len()
            invariant
                0 <= h <= frac@.len(),
                out@ == base2 + frac@.take(h as int),
            decreases frac@.len() - h,
        {
            out.push(frac[h]);
            proof {
                assert(base2 + frac@.take(h + 1 as int) =~= (base2 + frac@.take(
                    h as int,
                )).push(frac@[h as int]));
            }
            h = h + 1;
        }
        proof {
            assert(out@ =~= dec_format(n0, k as nat));
        }
        out
    }
}

pub proof fn lemma_pow10_split(a: nat, b: nat)
    ensures
        pow10((a + b) as nat) == pow10(a) * pow10(b),
    decreases b,
{
    if b == 0 {
    } else {
        lemma_pow10_split(a, (b - 1) as nat);
        assert(pow10((a + b) as nat) == 10 * pow10((a + b - 1) as nat));
        assert(10 * (pow10(a) * pow10((b - 1) as nat)) == pow10(a) * (10 * pow10(
            (b - 1) as nat,
        ))) by (nonlinear_arith);
    }
}

/// The exact sum of two decimals, on their common scale.
pub open spec fn dec_sum(a: (bool, int, nat), b: (bool, int, nat)) -> (int, nat) {
    let k = if a.2 >= b.2 {
        a.2
    } else {
        b.2
    };
    let sa = if a.0 {
        -a.1
    } else {
        a.1
    };
    let sb = if b.0 {
        -b.1
    } else {
        b.1
    };
    (sa * pow10((k - a.2) as nat) + sb * pow10((k - b.2) as nat), k)
}

/// Renders a decimal in canonical form.
pub fn format_decimal(d: &Decimal) -> (r: Vec<u8>)
    requires
        d.wf(),
    ensures
        r@ == dec_format(d.signed(), d.scale as nat),
{
    format_signed(d.neg, d.units as u128, d.scale)
}

/// Adds two decimals exactly on their common scale and renders the sum in
/// canonical form.
pub fn add_decimals(a: &Decimal, b: &Decimal) -> (r: Vec<u8>)
    requires
        a.wf(),
        b.wf(),
    ensures
        r@ == ({
            let s = dec_sum(
                (a.neg, a.units as int, a.scale as nat),
                (b.neg, b.units as int, b.scale as nat),
            );
            dec_format(s.0, s.1)
        }),
{
    let k: u8 = if a.scale >= b.scale {
        a.scale
    } else {
        b.scale
    };
    let fa = pow10_u64(k - a.scale);
    let fb = pow10_u64(k - b.scale);
    proof {
        lemma_pow10_at_18();
        lemma_pow10_mono((k - a.scale) as nat, 18);
        lemma_pow10_mono((k - b.scale) as nat, 18);
        assert((a.units as u128) * (fa as u128) < 0x1000000000000000000000000000000) by (
        nonlinear_arith)
            requires
                a.units <= MAX_UNITS,
                fa <= 1000000000000000000,
        ;
        assert((b.units as u128) * (fb as u128) < 0x1000000000000000000000000000000) by (
        nonlinear_arith)
            requires
                b.units <= MAX_UNITS,
                fb <= 1000000000000000000,
        ;
    }
    let ma: u128 = (a.units as u128) * (fa as u128);
    let mb: u128 = (b.units as u128) * (fb as u128);
    let (neg, mag): (bool, u128) = if a.neg == b.neg {
        (a.neg, ma + mb)
    } else if ma >= mb {
        (a.neg, ma - mb)
    } else {
        (b.neg, mb - ma)
    };
    proof {
        assert(fa as int == pow10((k - a.scale) as nat));
        assert(fb as int == pow10((k - b.scale) as nat));
        assert(ma as int == (a.units as int) * pow10((k - a.scale) as nat));
        assert(mb as int == (b.units as int) * pow10((k - b.scale) as nat));
        assert((-(a.units as int)) * pow10((k - a.scale) as nat) == -((a.units as int) * pow10(
            (k - a.scale) as nat,
        ))) by (nonlinear_arith);
        assert((-(b.units as int)) * pow10((k - b.scale) as nat) == -((b.units as int) * pow10(
            (k - b.scale) as nat,
        ))) by (nonlinear_arith);
        let aa = (a.neg, a.units as int, a.scale as nat);
        let bb = (b.neg, b.units as int, b.scale as nat);
        let su = dec_sum(aa, bb);
        assert(su.1 == k as nat);
        assert(su.0 == (if neg {
            -(mag as int)
        } else {
            mag as int
        }));
    }
    format_signed(neg, mag, k)
}

} // verus!
