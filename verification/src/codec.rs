use vstd::prelude::*;

use crate::arena::Arena;
use crate::arena::BoundaryError;
use crate::arena::MemoryBlock;
use vstd::utf8::valid_utf8;

verus! {

/// Hard bound on the scan for a zero terminator, so a malformed buffer
/// supplied by an adversarial host cannot make the guest scan without end.
pub const SCAN_LIMIT: usize = 65536;

/// First index of `b` in `s`, or -1.
pub open spec fn find_byte(s: Seq<u8>, b: u8) -> int
    decreases s.len(),
{
    if s.len() == 0 {
        -1
    } else if s[0] == b {
        0
    } else {
        let r = find_byte(s.drop_first(), b);
        if r < 0 {
            -1
        } else {
            r + 1
        }
    }
}

pub proof fn lemma_find_byte_valid(s: Seq<u8>, b: u8)
    ensures
        find_byte(s, b) >= 0 ==> 0 <= find_byte(s, b) < s.len() && s[find_byte(s, b)] == b,
        find_byte(s, b) < 0 ==> find_byte(s, b) == -1,
    decreases s.len(),
{
    if s.len() > 0 && s[0] != b {
        lemma_find_byte_valid(s.drop_first(), b);
    }
}

pub proof fn lemma_find_byte_first(s: Seq<u8>, b: u8, i: int)
    requires
        0 <= i <= s.len(),
        forall|j: int| 0 <= j < i ==> s[j] != b,
        i < s.len() ==> s[i] == b,
    ensures
        i < s.len() ==> find_byte(s, b) == i,
        i == s.len() ==> find_byte(s, b) == -1,
    decreases s.len(),
{
    if s.len() > 0 && s[0] != b {
        if i == 0 {
            lemma_find_byte_first(s.drop_first(), b, 0);
        } else {
            lemma_find_byte_first(s.drop_first(), b, i - 1);
        }
    }
}

/// What decoding a null-terminated buffer with bytes `t` yields: the bytes
/// before the first zero, when a zero stands within the scan limit; nothing
/// when the buffer is unterminated in reach.
pub open spec fn nul_decode(t: Seq<u8>) -> Option<Seq<u8>> {
    let scan = if t.len() <= SCAN_LIMIT {
        t
    } else {
        t.take(SCAN_LIMIT as int)
    };
    let z = find_byte(scan, 0);
    if z >= 0 {
        Some(t.take(z))
    } else {
        None
    }
}

/// Relies on core::str::from_utf8: it accepts a byte slice exactly when the
/// bytes are valid UTF-8, the notion vstd's `valid_utf8` states.
#[verifier::external_body]
pub(crate) fn utf8_check(bytes: &[u8]) -> (r: bool)
    ensures
        r == valid_utf8(bytes@),
{
    core::str::from_utf8(bytes).is_ok()
}

/// Writes the UTF-8 bytes of `value` into a fresh guest-owned buffer; with
/// `terminated` one zero byte is appended beyond the content, and the
/// returned length counts it, so the logical content length is `length - 1`.
pub fn encode_string(arena: &mut Arena, value: &[u8], terminated: bool) -> (r: Result<
    MemoryBlock,
    BoundaryError,
>)
    requires
        old(arena).wf(),
    ensures
        final(arena).wf(),
        r is Err <==> old(arena).exhausted(),
        r is Err ==> r == Err::<MemoryBlock, BoundaryError>(BoundaryError::OutOfMemory)
            && *final(arena) == *old(arena),
        r is Ok ==> ({
            let b = r->Ok_0;
            &&& !old(arena).is_live(b.address)
            &&& final(arena).is_live(b.address)
            &&& terminated ==> final(arena).bytes_at(b.address) == value@ + seq![0u8]
                && b.length == value@.len() + 1
            &&& !terminated ==> final(arena).bytes_at(b.address) == value@ && b.length
                == value@.len()
            &&& forall|a: u64|
                a != b.address ==> final(arena).is_live(a) == old(arena).is_live(a)
            &&& forall|a: u64|
                a != b.address && old(arena).is_live(a) ==> final(arena).bytes_at(a) == old(
                    arena,
                ).bytes_at(a)
        }),
{
    if terminated {
        let mut buf: Vec<u8> = Vec::new();
        let mut j: usize = 0;
        while j < value.len()
            invariant
                0 <= j <= value@.len(),
                buf@ == value@.take(j as int),
            decreases value@.len() - j,
        {
            buf.push(value[j]);
            proof {
                assert(value@.take(j + 1 as int) =~= value@.take(j as int).push(
                    value@[j as int],
                ));
            }
            j = j + 1;
        }
        buf.push(0u8);
        proof {
            assert(buf@ =~= value@ + seq![0u8]);
        }
        arena.store_bytes(buf.as_slice())
    } else {
        arena.store_bytes(value)
    }
}

/// Decodes the null-terminated buffer at `address`: scans for a zero byte,
/// but never past the scan limit, and reports `MalformedBuffer` when no
/// terminator stands within it.
pub fn decode_string_nul(arena: &Arena, address: u64) -> (r: Result<Vec<u8>, BoundaryError>)
    ensures
        !arena.is_live(address) ==> r == Err::<Vec<u8>, BoundaryError>(
            BoundaryError::UnknownAddress,
        ),
        arena.is_live(address) ==> ({
            match nul_decode(arena.bytes_at(address)) {
                Some(s) => r is Ok && r->Ok_0@ == s,
                None => r == Err::<Vec<u8>, BoundaryError>(BoundaryError::MalformedBuffer),
            }
        }),
{
    let buf = match arena.read_all(address) {
        Ok(b) => b,
        Err(e) => {
            return Err(e);
        },
    };
    let bound = if buf.len() <= SCAN_LIMIT {
        buf.len()
    } else {
        SCAN_LIMIT
    };
    let ghost t = arena.bytes_at(address);
    let ghost scan = if t.len() <= SCAN_LIMIT {
        t
    } else {
        t.take(SCAN_LIMIT as int)
    };
    let mut i: usize = 0;
    while i < bound
        invariant
            0 <= i <= bound,
            arena.is_live(address),
            t == arena.bytes_at(address),
            buf@ == t,
            bound == scan.len(),
            scan == (if t.len() <= SCAN_LIMIT {
                t
            } else {
                t.take(SCAN_LIMIT as int)
            }),
            forall|j: int| 0 <= j < i ==> scan[j] != 0,
        decreases bound - i,
    {
        if buf[i] == 0u8 {
            proof {
                assert(scan[i as int] == t[i as int]);
                lemma_find_byte_first(scan, 0u8, i as int);
            }
            let mut out: Vec<u8> = Vec::new();
            let mut j: usize = 0;
            while j < i
                invariant
                    0 <= j <= i,
                    arena.is_live(address),
                    t == arena.bytes_at(address),
                    buf@ == t,
                    i <= buf@.len(),
                    nul_decode(t) == Some(t.take(i as int)),
                    out@ == buf@.take(j as int),
                decreases i - j,
            {
                out.push(buf[j]);
                proof {
                    assert(buf@.take(j + 1 as int) =~= buf@.take(j as int).push(buf@[j as int]));
                }
                j = j + 1;
            }
            proof {
                assert(out@ =~= t.take(i as int));
            }
            return Ok(out);
        }
        proof {
            assert(scan[i as int] == t[i as int]);
        }
        i = i + 1;
    }
    proof {
        lemma_find_byte_first(scan, 0u8, bound as int);
    }
    Err(BoundaryError::MalformedBuffer)
}

/// Decodes the length-delimited buffer at `address`: exactly `length` bytes,
/// which must be valid UTF-8, else `EncodingError` is reported rather than
/// substituting or crashing.
pub fn decode_string_len(arena: &Arena, address: u64, length: usize) -> (r: Result<
    Vec<u8>,
    BoundaryError,
>)
    ensures
        !arena.is_live(address) ==> r == Err::<Vec<u8>, BoundaryError>(
            BoundaryError::UnknownAddress,
        ),
        arena.is_live(address) && length > arena.bytes_at(address).len() ==> r == Err::<
            Vec<u8>,
            BoundaryError,
        >(BoundaryError::OutOfBounds),
        arena.is_live(address) && length <= arena.bytes_at(address).len() ==> ({
            let s = arena.bytes_at(address).take(length as int);
            if valid_utf8(s) {
                r is Ok && r->Ok_0@ == s
            } else {
                r == Err::<Vec<u8>, BoundaryError>(BoundaryError::EncodingError)
            }
        }),
{
    let bytes = match arena.read_bytes(address, length) {
        Ok(b) => b,
        Err(e) => {
            return Err(e);
        },
    };
    if utf8_check(bytes.as_slice()) {
        Ok(bytes)
    } else {
        Err(BoundaryError::EncodingError)
    }
}

/// Law: a terminated encoding decodes back to the string it was made from.
/// For every UTF-8 string without an embedded zero byte that fits under the
/// scan limit, decoding the buffer `s + [0]` that `encode_string` wrote
/// yields `s` again.
pub proof fn lemma_string_round_trip(s: Seq<u8>)
    requires
        valid_utf8(s),
        forall|i: int| 0 <= i < s.len() ==> s[i] != 0,
        s.len() < SCAN_LIMIT,
    ensures
        nul_decode(s + seq![0u8]) == Some(s),
{
    let t = s + seq![0u8];
    assert(t.len() <= SCAN_LIMIT);
    assert(t[s.len() as int] == 0);
    lemma_find_byte_first(t, 0u8, s.len() as int);
    assert(t.take(s.len() as int) =~= s);
}

/// Law: the terminator scan never reads past the scan limit. What a
/// null-terminated decode yields is decided by the first `SCAN_LIMIT`
/// bytes of the buffer alone.
pub proof fn lemma_scan_bounded(t1: Seq<u8>, t2: Seq<u8>)
    requires
        t1.len() >= SCAN_LIMIT,
        t2.len() >= SCAN_LIMIT,
        t1.take(SCAN_LIMIT as int) == t2.take(SCAN_LIMIT as int),
    ensures
        nul_decode(t1) == nul_decode(t2),
{
    let p = t1.take(SCAN_LIMIT as int);
    if t1.len() == SCAN_LIMIT {
        assert(t1 =~= p);
    }
    if t2.len() == SCAN_LIMIT {
        assert(t2 =~= t2.take(SCAN_LIMIT as int));
    }
    lemma_find_byte_valid(p, 0u8);
    let z = find_byte(p, 0u8);
    if z >= 0 {
        assert(t1.take(z) =~= p.take(z));
        assert(t2.take(z) =~= p.take(z));
    }
}

} // verus!
