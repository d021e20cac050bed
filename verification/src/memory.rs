use vstd::prelude::*;
use vstd::arithmetic::div_mod::lemma_div_is_ordered;
use vstd::arithmetic::mul::lemma_mul_inequality;

verus! {

/// How many 32-byte words cover `n` bytes.
pub open spec fn mem_words(n: nat) -> nat {
    (n + 31) / 32
}

/// The cumulative cost of holding `m` 32-byte words of memory.
pub open spec fn mem_cost(m: nat) -> nat {
    3 * m + m * m / 512
}

/// What an access ending at byte `end` adds to the cumulative cost when the
/// memory currently holds `cur_len` bytes.
pub open spec fn expansion_cost_of(cur_len: nat, end: nat) -> int {
    if mem_words(end) <= mem_words(cur_len) {
        0
    } else {
        mem_cost(mem_words(end)) - mem_cost(mem_words(cur_len))
    }
}

/// The physical length after an access ending at byte `end`: the smallest
/// multiple of 32 covering it, and never shrinking.
pub open spec fn grown_len(cur_len: nat, end: nat) -> nat {
    if 32 * mem_words(end) <= cur_len {
        cur_len
    } else {
        32 * mem_words(end)
    }
}

/// Whether this machine can hold a memory covering byte `end` at all.
pub open spec fn addressable(end: nat) -> bool {
    32 * mem_words(end) <= usize::MAX
}

/// The memory after expanding for an access ending at byte `end`: the old
/// bytes kept, zeros behind them up to the new physical length.
pub open spec fn is_grown(old_mem: Seq<u8>, new_mem: Seq<u8>, end: nat) -> bool {
    &&& new_mem.len() == grown_len(old_mem.len(), end)
    &&& new_mem.subrange(0, old_mem.len() as int) == old_mem
    &&& forall|i: int| old_mem.len() <= i < new_mem.len() ==> new_mem[i] == 0
}

/// The covering words cover: 32 times the word count reaches `end`.
pub proof fn lemma_words_cover(end: nat)
    ensures
        32 * mem_words(end) >= end,
{
    vstd::arithmetic::div_mod::lemma_fundamental_div_mod((end + 31) as int, 32);
}

/// Zero-initialised, word-aligned, monotonically growing linear memory.
/// The view is the physical bytes.
pub struct Memory {
    data: Vec<u8>,
}

impl View for Memory {
    type V = Seq<u8>;

    closed spec fn view(&self) -> Seq<u8> {
        self.data@
    }
}

/// The cumulative cost grows with the word count.
proof fn lemma_mem_cost_monotone(a: nat, b: nat)
    requires
        a <= b,
    ensures
        mem_cost(a) <= mem_cost(b),
{
    lemma_mul_inequality(a as int, b as int, a as int);
    lemma_mul_inequality(a as int, b as int, b as int);
    lemma_div_is_ordered((a * a) as int, (b * b) as int, 512);
}

impl Memory {
    pub fn new() -> (r: Self)
        ensures
            r@.len() == 0,
    {
        Memory { data: Vec::new() }
    }

    /// The physical length in bytes.
    pub fn size(&self) -> (r: usize)
        ensures
            r == self@.len(),
    {
        self.data.len()
    }

    /// The gas an access of `size` bytes at `offset` adds for expansion;
    /// `None` when that surcharge does not fit in 64 bits, which a frame can
    /// never pay. A zero-sized access touches nothing and costs nothing.
    pub fn expansion_cost(&self, offset: u64, size: u64) -> (c: Option<u64>)
        ensures
            size == 0 ==> c == Some(0u64),
            size > 0 ==> {
                let d = expansion_cost_of(self@.len(), (offset + size) as nat);
                &&& d >= 0
                &&& d <= u64::MAX ==> c == Some(d as u64)
                &&& d > u64::MAX ==> c is None
            },
    {
        if size == 0 {
            return Some(0);
        }
        proof {
            if mem_words(self@.len()) < mem_words((offset + size) as nat) {
                lemma_mem_cost_monotone(mem_words(self@.len()), mem_words((offset + size) as nat));
            }
        }
        let cur_words: u128 = (self.data.len() as u128 + 31) / 32;
        let end: u128 = offset as u128 + size as u128;
        let new_words: u128 = (end + 31) / 32;
        if new_words <= cur_words {
            Some(0)
        } else {
            proof {
                lemma_mem_cost_monotone(
                    mem_words(self@.len()),
                    mem_words((offset + size) as nat),
                );
            }
            proof {
                assert(new_words < 0x2000_0000_0000_0000 && cur_words
                    < 0x2000_0000_0000_0000);
                assert(new_words * new_words < 0x2000_0000_0000_0000
                    * 0x2000_0000_0000_0000) by (nonlinear_arith)
                    requires
                        new_words < 0x2000_0000_0000_0000,
                ;
                assert(cur_words * cur_words < 0x2000_0000_0000_0000
                    * 0x2000_0000_0000_0000) by (nonlinear_arith)
                    requires
                        cur_words < 0x2000_0000_0000_0000,
                ;
            }
            let c_new: u128 = 3 * new_words + (new_words * new_words) / 512;
            let c_cur: u128 = 3 * cur_words + (cur_words * cur_words) / 512;
            let d: u128 = c_new - c_cur;
            if d > u64::MAX as u128 {
                None
            } else {
                Some(d as u64)
            }
        }
    }

    /// Expands the memory to the smallest multiple of 32 covering `end`.
    /// Fails only when that many bytes cannot be addressed, which a frame
    /// that paid the expansion gas never reaches.
    #[verifier::rlimit(50)]
    pub fn grow(&mut self, end: u64) -> (ok: bool)
        ensures
            ok ==> is_grown(old(self)@, final(self)@, end as nat),
            !ok ==> final(self)@ == old(self)@,
            old(self)@.len() % 32 == 0 ==> final(self)@.len() % 32 == 0,
            ok == addressable(end as nat),
    {
        let target128: u128 = ((end as u128 + 31) / 32) * 32;
        proof {
            assert(target128 == 32 * mem_words(end as nat));
        }
        if target128 <= self.data.len() as u128 {
            proof {
                assert(final(self)@.subrange(0, old(self)@.len() as int) =~= old(self)@);
            }
            return true;
        }
        if target128 > usize::MAX as u128 {
            return false;
        }
        let target: usize = target128 as usize;
        let ghost orig = self@;
        while self.data.len() < target
            invariant
                orig.len() <= self.data@.len() <= target,
                self.data@.subrange(0, orig.len() as int) == orig,
                forall|i: int| orig.len() <= i < self.data@.len() ==> self.data@[i] == 0,
            decreases target - self.data.len(),
        {
            self.data.push(0u8);
            proof {
                assert(self.data@.subrange(0, orig.len() as int) =~= orig);
            }
        }
        true
    }

    /// Reads `size` bytes starting at `offset`; the range must already be
    /// physical, except that a zero-sized read is always allowed. The total,
    /// zero-extending access of the machine's semantics is the engine's
    /// step: it charges the expansion first, then calls `grow`, then reads
    /// or writes.
    pub fn access(&self, offset: usize, size: usize) -> (r: Vec<u8>)
        requires
            size > 0 ==> offset + size <= self@.len(),
        ensures
            size > 0 ==> r@ == self@.subrange(offset as int, offset + size),
            size == 0 ==> r@.len() == 0,
    {
        let mut out: Vec<u8> = Vec::new();
        if size == 0 {
            return out;
        }
        let dlen = self.data.len();
        let mut i: usize = 0;
        while i < size
            invariant
                i <= size,
                offset + size <= dlen == self@.len(),
                out@.len() == i,
                forall|k: int| 0 <= k < i ==> out@[k] == self@[offset + k],
            decreases size - i,
        {
            out.push(self.data[offset + i]);
            i = i + 1;
        }
        proof {
            assert(out@ =~= self@.subrange(offset as int, offset + size));
        }
        out
    }

    /// Reads the 32-byte word starting at `offset`.
    pub fn load(&self, offset: usize) -> (r: Vec<u8>)
        requires
            offset + 32 <= self@.len(),
        ensures
            r@ == self@.subrange(offset as int, offset + 32),
    {
        self.access(offset, 32)
    }

    /// Writes the bytes starting at `offset`; the range must already be
    /// physical.
    pub fn store(&mut self, offset: usize, bytes: &Vec<u8>)
        requires
            offset + bytes@.len() <= old(self)@.len(),
        ensures
            final(self)@.len() == old(self)@.len(),
            forall|i: int|
                0 <= i < final(self)@.len() ==> final(self)@[i] == (if offset <= i < offset
                    + bytes@.len() {
                    bytes@[i - offset]
                } else {
                    old(self)@[i]
                }),
    {
        let dlen = self.data.len();
        let mut i: usize = 0;
        while i < bytes.len()
            invariant
                i <= bytes@.len(),
                offset + bytes@.len() <= dlen,
                self.data@.len() == old(self)@.len() == dlen,
                forall|k: int|
                    0 <= k < self.data@.len() ==> self.data@[k] == (if offset <= k < offset
                        + i {
                        bytes@[k - offset]
                    } else {
                        old(self)@[k]
                    }),
            decreases bytes@.len() - i,
        {
            let b = bytes[i];
            self.data[offset + i] = b;
            i = i + 1;
        }
    }

    /// Writes one byte at `offset`, which must already be physical.
    pub fn store_byte(&mut self, offset: usize, b: u8)
        requires
            offset < old(self)@.len(),
        ensures
            final(self)@ == old(self)@.update(offset as int, b),
    {
        self.data[offset] = b;
    }
}

} // verus!
