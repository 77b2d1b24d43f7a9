use vstd::prelude::*;

use vstd::string::is_ascii;

verus! {

/// The bytes of an ASCII character sequence, pointwise.
pub open spec fn ascii_bytes(s: Seq<char>) -> Seq<u8> {
    Seq::new(s.len(), |i: int| s[i] as u8)
}

/// The UTF-8 bytes of an ASCII string literal.
pub fn str_bytes(s: &str) -> (r: &[u8])
    requires
        is_ascii(s),
    ensures
        r@ == ascii_bytes(s@),
{
    proof {
        vstd::string::is_ascii_spec_bytes(s);
    }
    let r = s.as_bytes();
    proof {
        assert(r@ =~= ascii_bytes(s@));
    }
    r
}

/// Whether two byte strings hold the same bytes.
pub fn bytes_eq(a: &[u8], b: &[u8]) -> (r: bool)
    ensures
        r == (a@ == b@),
{
    if a.len() != b.len() {
        proof {
            assert(a@.len() != b@.len());
        }
        return false;
    }
    let n = a.len();
    let mut i: usize = 0;
    while i < n
        invariant
            0 <= i <= n,
            n == a@.len(),
            n == b@.len(),
            forall|j: int| 0 <= j < i ==> a@[j] == b@[j],
        decreases n - i,
    {
        if a[i] != b[i] {
            return false;
        }
        i = i + 1;
    }
    proof {
        assert(a@ =~= b@);
    }
    true
}

/// Appends all of `b` to `out`.
pub fn append_bytes(out: &mut Vec<u8>, b: &[u8])
    ensures
        final(out)@ == old(out)@ + b@,
{
    let ghost base = out@;
    let mut j: usize = 0;
    while j < b.len()
        invariant
            0 <= j <= b@.len(),
            out@ == base + b@.take(j as int),
        decreases b@.len() - j,
    {
        out.push(b[j]);
        proof {
            assert(base + b@.take(j + 1 as int) =~= (base + b@.take(j as int)).push(
                b@[j as int],
            ));
        }
        j = j + 1;
    }
    proof {
        assert(base + b@.take(b@.len() as int) =~= base + b@);
    }
}

/// Appends the bytes of an ASCII string literal to `out`.
pub fn append_lit(out: &mut Vec<u8>, s: &str)
    requires
        is_ascii(s),
    ensures
        final(out)@ == old(out)@ + ascii_bytes(s@),
{
    let b = str_bytes(s);
    append_bytes(out, b);
}

/// The bytes of an ASCII string literal as a fresh vector.
pub fn lit_vec(s: &str) -> (r: Vec<u8>)
    requires
        is_ascii(s),
    ensures
        r@ == ascii_bytes(s@),
{
    let mut out: Vec<u8> = Vec::new();
    append_lit(&mut out, s);
    proof {
        assert(out@ =~= ascii_bytes(s@));
    }
    out
}

/// Decimal digits of `n`, most significant first.
pub open spec fn dec_digits(n: nat) -> Seq<u8>
    decreases n,
{
    if n < 10 {
        seq![(48 + n) as u8]
    } else {
        dec_digits(n / 10).push((48 + n % 10) as u8)
    }
}

/// Renders `n` in decimal.
pub fn u128_dec_bytes(n: u128) -> (r: Vec<u8>)
    ensures
        r@ == dec_digits(n as nat),
{
    let mut rev: Vec<u8> = Vec::new();
    let mut m: u128 = n;
    while m >= 10
        invariant
            dec_digits(n as nat) == dec_digits(m as nat) + rev@.reverse(),
        decreases m,
    {
        let d: u8 = (48 + (m % 10)) as u8;
        let ghost rev0 = rev@;
        rev.push(d);
        m = m / 10;
        proof {
            assert(rev0.push(d).reverse() =~= seq![d] + rev0.reverse());
            assert(dec_digits((m * 10 + (d - 48)) as nat) + rev0.reverse() =~= dec_digits(
                m as nat,
            ) + (seq![d] + rev0.reverse()));
        }
    }
    let d: u8 = (48 + m) as u8;
    let ghost rev0 = rev@;
    rev.push(d);
    proof {
        assert(rev0.push(d).reverse() =~= seq![d] + rev0.reverse());
        assert(dec_digits(m as nat) == seq![d]);
        assert(dec_digits(n as nat) =~= rev@.reverse());
    }
    let mut out: Vec<u8> = Vec::new();
    let mut k: usize = rev.len();
    while k > 0
        invariant
            0 <= k <= rev@.len(),
            out@.len() == rev@.len() - k,
            forall|j: int|
                0 <= j < out@.len() ==> out@[j] == rev@[rev@.len() - 1 - j],
        decreases k,
    {
        k = k - 1;
        out.push(rev[k]);
    }
    proof {
        assert(out@ =~= rev@.reverse());
    }
    out
}

} // verus!
