use vstd::prelude::*;

verus! {

/// An address–length pair naming one guest-owned buffer as it crosses the
/// boundary. For a null-terminated buffer `length` counts the terminator,
/// so the logical content length is `length - 1`.
#[derive(Clone, Copy, Debug)]
pub struct MemoryBlock {
    pub address: u64,
    pub length: usize,
}

/// The errors this module reports instead of leaving an outcome undefined:
/// address-space exhaustion (the fatal allocation failure of the model),
/// a release or read of an address that is not live, a read past a live
/// buffer's end, a null-terminated buffer without a terminator in reach,
/// and bytes that are not valid UTF-8 where text is required.
#[derive(Clone, Copy, Debug, PartialEq, Eq, Structural)]
pub enum BoundaryError {
    OutOfMemory,
    UnknownAddress,
    OutOfBounds,
    MalformedBuffer,
    EncodingError,
}

struct Block {
    address: u64,
    live: bool,
    data: Vec<u8>,
}

/// Ownership-tracked registry of guest buffers. Every buffer is created by
/// one allocation and destroyed by at most one release; releasing an address
/// that is not live is a reported error and leaves every live buffer intact.
pub struct Arena {
    blocks: Vec<Block>,
    next_address: u64,
}

/// First index whose block carries address `a`, or -1.
spec fn find_at(s: Seq<Block>, a: u64) -> int
    decreases s.len(),
{
    if s.len() == 0 {
        -1
    } else if s[0].address == a {
        0
    } else {
        let r = find_at(s.drop_first(), a);
        if r < 0 {
            -1
        } else {
            r + 1
        }
    }
}

proof fn lemma_find_at_valid(s: Seq<Block>, a: u64)
    ensures
        find_at(s, a) >= 0 ==> 0 <= find_at(s, a) < s.len() && s[find_at(s, a)].address == a,
        find_at(s, a) < 0 ==> find_at(s, a) == -1,
    decreases s.len(),
{
    if s.len() > 0 && s[0].address != a {
        lemma_find_at_valid(s.drop_first(), a);
    }
}

proof fn lemma_find_at_first(s: Seq<Block>, a: u64, i: int)
    requires
        0 <= i <= s.len(),
        forall|j: int| 0 <= j < i ==> s[j].address != a,
        i < s.len() ==> s[i].address == a,
    ensures
        i < s.len() ==> find_at(s, a) == i,
        i == s.len() ==> find_at(s, a) == -1,
    decreases s.len(),
{
    if s.len() > 0 && s[0].address != a {
        assert(i != 0 || i == s.len() || s[i].address == a);
        if i == 0 {
            lemma_find_at_first(s.drop_first(), a, 0);
        } else {
            lemma_find_at_first(s.drop_first(), a, i - 1);
        }
    }
}

proof fn lemma_find_at_push(s: Seq<Block>, b: Block, a: u64)
    ensures
        find_at(s, a) >= 0 ==> find_at(s.push(b), a) == find_at(s, a),
        find_at(s, a) < 0 && b.address == a ==> find_at(s.push(b), a) == s.len(),
        find_at(s, a) < 0 && b.address != a ==> find_at(s.push(b), a) == -1,
    decreases s.len(),
{
    reveal_with_fuel(find_at, 3);
    if s.len() == 0 {
        assert(s.push(b)[0] == b);
        assert(s.push(b).drop_first() =~= Seq::<Block>::empty());
    } else {
        assert(s.push(b)[0] == s[0]);
        assert(s.push(b).drop_first() =~= s.drop_first().push(b));
        lemma_find_at_push(s.drop_first(), b, a);
    }
}

proof fn lemma_find_at_update(s: Seq<Block>, i: int, b: Block, a: u64)
    requires
        0 <= i < s.len(),
        s[i].address == b.address,
    ensures
        find_at(s.update(i, b), a) == find_at(s, a),
    decreases s.len(),
{
    if i == 0 {
        if s[0].address != a {
            assert(s.update(0, b).drop_first() =~= s.drop_first());
        }
    } else {
        assert(s.update(i, b).drop_first() =~= s.drop_first().update(i - 1, b));
        lemma_find_at_update(s.drop_first(), i - 1, b, a);
    }
}

/// `n` zero bytes: the contents of a fresh allocation.
pub open spec fn zero_seq(n: nat) -> Seq<u8> {
    Seq::new(n, |i: int| 0u8)
}

impl Arena {
    /// Internal well-formedness: every recorded address is below the next
    /// one to be handed out, so a fresh address is never a recorded one.
    pub closed spec fn wf(self) -> bool {
        &&& self.next_address >= 1
        &&& forall|i: int|
            0 <= i < self.blocks@.len() ==> (#[trigger] self.blocks@[i]).address
                < self.next_address
    }

    /// The address space is used up: the one fatal allocation failure.
    pub closed spec fn exhausted(self) -> bool {
        self.next_address == u64::MAX
    }

    /// Whether `a` names a live (allocated and not yet released) buffer.
    pub closed spec fn is_live(self, a: u64) -> bool {
        let i = find_at(self.blocks@, a);
        i >= 0 && self.blocks@[i].live
    }

    /// The bytes of the live buffer at `a`.
    pub closed spec fn bytes_at(self, a: u64) -> Seq<u8> {
        self.blocks@[find_at(self.blocks@, a)].data@
    }

    /// An empty arena with no live buffer.
    pub fn new() -> (r: Arena)
        ensures
            r.wf(),
            !r.exhausted(),
            forall|a: u64| !r.is_live(a),
    {
        let r = Arena { blocks: Vec::new(), next_address: 1 };
        proof {
            assert forall|a: u64| !r.is_live(a) by {
                lemma_find_at_valid(r.blocks@, a);
            }
        }
        r
    }

    /// First index of `address` in the registry, if any.
    fn find_index(&self, address: u64) -> (r: Option<usize>)
        ensures
            r is Some ==> find_at(self.blocks@, address) == r->Some_0 as int,
            r is Some ==> r->Some_0 < self.blocks@.len(),
            r is Some ==> self.blocks@[r->Some_0 as int].address == address,
            r is None ==> find_at(self.blocks@, address) == -1,
    {
        let n = self.blocks.len();
        let mut i: usize = 0;
        while i < n
            invariant
                0 <= i <= n,
                n == self.blocks@.len(),
                forall|j: int| 0 <= j < i ==> (#[trigger] self.blocks@[j]).address != address,
            decreases n - i,
        {
            if self.blocks[i].address == address {
                proof {
                    lemma_find_at_first(self.blocks@, address, i as int);
                }
                return Some(i);
            }
            i = i + 1;
        }
        proof {
            lemma_find_at_first(self.blocks@, address, n as int);
        }
        None
    }

    /// Reserves a buffer holding exactly the bytes of `data`, at a fresh
    /// address. Fails only when the address space is used up.
    pub fn store_bytes(&mut self, data: &[u8]) -> (r: Result<MemoryBlock, BoundaryError>)
        requires
            old(self).wf(),
        ensures
            final(self).wf(),
            r is Err <==> old(self).exhausted(),
            r is Err ==> r == Err::<MemoryBlock, BoundaryError>(BoundaryError::OutOfMemory)
                && *final(self) == *old(self),
            r is Ok ==> ({
                let b = r->Ok_0;
                &&& !old(self).is_live(b.address)
                &&& final(self).is_live(b.address)
                &&& b.length == data@.len()
                &&& final(self).bytes_at(b.address) == data@
                &&& forall|a: u64|
                    a != b.address ==> final(self).is_live(a) == old(self).is_live(a)
                &&& forall|a: u64|
                    a != b.address && old(self).is_live(a) ==> final(self).bytes_at(a) == old(self).bytes_at(a)
            }),
    {
        if self.next_address == u64::MAX {
            return Err(BoundaryError::OutOfMemory);
        }
        let address = self.next_address;
        self.next_address = self.next_address + 1;
        let mut copied: Vec<u8> = Vec::new();
        let mut j: usize = 0;
        while j < data.len()
            invariant
                0 <= j <= data@.len(),
                copied@ == data@.take(j as int),
            decreases data@.len() - j,
        {
            copied.push(data[j]);
            proof {
                assert(data@.take(j + 1 as int) =~= data@.take(j as int).push(data@[j as int]));
            }
            j = j + 1;
        }
        proof {
            assert(copied@ =~= data@);
        }
        let ghost s0 = self.blocks@;
        let blk = Block { address, live: true, data: copied };
        self.blocks.push(blk);
        proof {
            lemma_find_at_valid(s0, address);
            lemma_find_at_push(s0, blk, address);
            assert forall|a: u64| a != address implies final(self).is_live(a) == old(self).is_live(a) by {
                lemma_find_at_push(s0, blk, a);
                lemma_find_at_valid(s0, a);
            }
            assert forall|a: u64| a != address && old(self).is_live(a) implies final(self).bytes_at(a) == old(self).bytes_at(a) by {
                lemma_find_at_push(s0, blk, a);
                lemma_find_at_valid(s0, a);
            }
        }
        Ok(MemoryBlock { address, length: data.len() })
    }

    /// Reserves `length` bytes of guest-owned memory, zero-filled, at a
    /// fresh address. Fails only when the address space is used up.
    pub fn allocate(&mut self, length: usize) -> (r: Result<MemoryBlock, BoundaryError>)
        requires
            old(self).wf(),
        ensures
            final(self).wf(),
            r is Err <==> old(self).exhausted(),
            r is Err ==> r == Err::<MemoryBlock, BoundaryError>(BoundaryError::OutOfMemory)
                && *final(self) == *old(self),
            r is Ok ==> ({
                let b = r->Ok_0;
                &&& !old(self).is_live(b.address)
                &&& final(self).is_live(b.address)
                &&& b.length == length
                &&& final(self).bytes_at(b.address) == zero_seq(length as nat)
                &&& forall|a: u64|
                    a != b.address ==> final(self).is_live(a) == old(self).is_live(a)
                &&& forall|a: u64|
                    a != b.address && old(self).is_live(a) ==> final(self).bytes_at(a) == old(self).bytes_at(a)
            }),
    {
        let mut zeros: Vec<u8> = Vec::new();
        let mut j: usize = 0;
        while j < length
            invariant
                0 <= j <= length,
                zeros@ == zero_seq(j as nat),
            decreases length - j,
        {
            zeros.push(0u8);
            proof {
                assert(zero_seq((j + 1) as nat) =~= zero_seq(j as nat).push(0u8));
            }
            j = j + 1;
        }
        self.store_bytes(zeros.as_slice())
    }

    /// Releases the buffer at `address`. Releasing an address that is not
    /// live — never allocated, or already released — is a reported error
    /// and changes nothing, so a double release cannot corrupt another
    /// live buffer.
    pub fn release(&mut self, address: u64) -> (r: Result<(), BoundaryError>)
        requires
            old(self).wf(),
        ensures
            final(self).wf(),
            final(self).exhausted() == old(self).exhausted(),
            r is Ok <==> old(self).is_live(address),
            r is Err ==> r == Err::<(), BoundaryError>(BoundaryError::UnknownAddress)
                && *final(self) == *old(self),
            !final(self).is_live(address),
            forall|a: u64| a != address ==> final(self).is_live(a) == old(self).is_live(a),
            forall|a: u64|
                a != address && old(self).is_live(a) ==> final(self).bytes_at(a) == old(self).bytes_at(a),
    {
        match self.find_index(address) {
            None => {
                proof {
                    lemma_find_at_valid(self.blocks@, address);
                }
                Err(BoundaryError::UnknownAddress)
            },
            Some(i) => {
                if !self.blocks[i].live {
                    Err(BoundaryError::UnknownAddress)
                } else {
                    let ghost s0 = self.blocks@;
                    proof {
                        lemma_find_at_valid(s0, address);
                    }
                    let blk = Block { address, live: false, data: Vec::new() };
                    self.blocks.set(i, blk);
                    proof {
                        lemma_find_at_update(s0, i as int, blk, address);
                        assert forall|a: u64| a != address implies final(self).is_live(a) == old(self).is_live(a) by {
                            lemma_find_at_update(s0, i as int, blk, a);
                            lemma_find_at_valid(s0, a);
                        }
                        assert forall|a: u64| a != address && old(self).is_live(a) implies final(self).bytes_at(a) == old(self).bytes_at(a) by {
                            lemma_find_at_update(s0, i as int, blk, a);
                            lemma_find_at_valid(s0, a);
                        }
                    }
                    Ok(())
                }
            },
        }
    }

    /// The release entry point of the boundary: the host's `length`
    /// argument is advisory bookkeeping only and is not trusted, so it is
    /// ignored and the arena's own record decides what is reclaimed.
    pub fn custom_dealloc_str(&mut self, address: u64, _length: usize) -> (r: Result<
        (),
        BoundaryError,
    >)
        requires
            old(self).wf(),
        ensures
            final(self).wf(),
            final(self).exhausted() == old(self).exhausted(),
            r is Ok <==> old(self).is_live(address),
            r is Err ==> r == Err::<(), BoundaryError>(BoundaryError::UnknownAddress)
                && *final(self) == *old(self),
            !final(self).is_live(address),
            forall|a: u64| a != address ==> final(self).is_live(a) == old(self).is_live(a),
            forall|a: u64|
                a != address && old(self).is_live(a) ==> final(self).bytes_at(a) == old(self).bytes_at(a),
    {
        self.release(address)
    }

    /// The release entry point for null-terminated response buffers: no
    /// length is passed; the arena's own record decides what is reclaimed.
    pub fn dealloc_str(&mut self, address: u64) -> (r: Result<(), BoundaryError>)
        requires
            old(self).wf(),
        ensures
            final(self).wf(),
            final(self).exhausted() == old(self).exhausted(),
            r is Ok <==> old(self).is_live(address),
            r is Err ==> r == Err::<(), BoundaryError>(BoundaryError::UnknownAddress)
                && *final(self) == *old(self),
            !final(self).is_live(address),
            forall|a: u64| a != address ==> final(self).is_live(a) == old(self).is_live(a),
            forall|a: u64|
                a != address && old(self).is_live(a) ==> final(self).bytes_at(a) == old(self).bytes_at(a),
    {
        self.release(address)
    }

    /// Reads exactly `length` bytes from the start of the live buffer at
    /// `address`: the length-delimited view of the buffer.
    pub fn read_bytes(&self, address: u64, length: usize) -> (r: Result<Vec<u8>, BoundaryError>)
        ensures
            !self.is_live(address) ==> r == Err::<Vec<u8>, BoundaryError>(
                BoundaryError::UnknownAddress,
            ),
            self.is_live(address) && length > self.bytes_at(address).len() ==> r == Err::<
                Vec<u8>,
                BoundaryError,
            >(BoundaryError::OutOfBounds),
            self.is_live(address) && length <= self.bytes_at(address).len() ==> r is Ok
                && r->Ok_0@ == self.bytes_at(address).take(length as int),
    {
        match self.find_index(address) {
            None => {
                proof {
                    lemma_find_at_valid(self.blocks@, address);
                }
                Err(BoundaryError::UnknownAddress)
            },
            Some(i) => {
                if !self.blocks[i].live {
                    Err(BoundaryError::UnknownAddress)
                } else if length > self.blocks[i].data.len() {
                    Err(BoundaryError::OutOfBounds)
                } else {
                    let mut out: Vec<u8> = Vec::new();
                    let mut j: usize = 0;
                    while j < length
                        invariant
                            0 <= j <= length,
                            i < self.blocks@.len(),
                            length <= self.blocks@[i as int].data@.len(),
                            out@ == self.blocks@[i as int].data@.take(j as int),
                        decreases length - j,
                    {
                        out.push(self.blocks[i].data[j]);
                        proof {
                            let d = self.blocks@[i as int].data@;
                            assert(d.take(j + 1 as int) =~= d.take(j as int).push(d[j as int]));
                        }
                        j = j + 1;
                    }
                    Ok(out)
                }
            },
        }
    }

    /// Reads the whole live buffer at `address`.
    pub fn read_all(&self, address: u64) -> (r: Result<Vec<u8>, BoundaryError>)
        ensures
            !self.is_live(address) ==> r == Err::<Vec<u8>, BoundaryError>(
                BoundaryError::UnknownAddress,
            ),
            self.is_live(address) ==> r is Ok && r->Ok_0@ == self.bytes_at(address),
    {
        match self.find_index(address) {
            None => {
                proof {
                    lemma_find_at_valid(self.blocks@, address);
                }
                Err(BoundaryError::UnknownAddress)
            },
            Some(i) => {
                if !self.blocks[i].live {
                    Err(BoundaryError::UnknownAddress)
                } else {
                    let n = self.blocks[i].data.len();
                    let r = self.read_bytes(address, n);
                    proof {
                        assert(self.bytes_at(address).take(n as int) =~= self.bytes_at(address));
                    }
                    r
                }
            },
        }
    }

    /// Overwrites the live buffer at `address` with `data`, which must have
    /// exactly the buffer's length: how the host fills a scratch buffer it
    /// asked the guest to reserve.
    pub fn write_bytes(&mut self, address: u64, data: &[u8]) -> (r: Result<(), BoundaryError>)
        requires
            old(self).wf(),
        ensures
            final(self).wf(),
            final(self).exhausted() == old(self).exhausted(),
            !old(self).is_live(address) ==> r == Err::<(), BoundaryError>(
                BoundaryError::UnknownAddress,
            ) && *final(self) == *old(self),
            old(self).is_live(address) && data@.len() != old(self).bytes_at(address).len() ==> r
                == Err::<(), BoundaryError>(BoundaryError::OutOfBounds) && *final(self) == *old(self),
            old(self).is_live(address) && data@.len() == old(self).bytes_at(address).len() ==> (
            r is Ok && final(self).is_live(address) && final(self).bytes_at(address) == data@),
            forall|a: u64| final(self).is_live(a) == old(self).is_live(a),
            forall|a: u64|
                a != address && old(self).is_live(a) ==> final(self).bytes_at(a) == old(self).bytes_at(a),
    {
        match self.find_index(address) {
            None => {
                proof {
                    lemma_find_at_valid(self.blocks@, address);
                }
                Err(BoundaryError::UnknownAddress)
            },
            Some(i) => {
                if !self.blocks[i].live {
                    Err(BoundaryError::UnknownAddress)
                } else if data.len() != self.blocks[i].data.len() {
                    Err(BoundaryError::OutOfBounds)
                } else {
                    let ghost s0 = self.blocks@;
                    proof {
                        lemma_find_at_valid(s0, address);
                    }
                    let mut copied: Vec<u8> = Vec::new();
                    let mut j: usize = 0;
                    while j < data.len()
                        invariant
                            0 <= j <= data@.len(),
                            copied@ == data@.take(j as int),
                        decreases data@.len() - j,
                    {
                        copied.push(data[j]);
                        proof {
                            assert(data@.take(j + 1 as int) =~= data@.take(j as int).push(
                                data@[j as int],
                            ));
                        }
                        j = j + 1;
                    }
                    proof {
                        assert(copied@ =~= data@);
                    }
                    let blk = Block { address, live: true, data: copied };
                    self.blocks.set(i, blk);
                    proof {
                        lemma_find_at_update(s0, i as int, blk, address);
                        assert forall|a: u64| final(self).is_live(a) == old(self).is_live(a) by {
                            lemma_find_at_update(s0, i as int, blk, a);
                            lemma_find_at_valid(s0, a);
                        }
                        assert forall|a: u64| a != address && old(self).is_live(a) implies final(self).bytes_at(a) == old(self).bytes_at(a) by {
                            lemma_find_at_update(s0, i as int, blk, a);
                            lemma_find_at_valid(s0, a);
                        }
                    }
                    Ok(())
                }
            },
        }
    }
}

} // verus!
