use vstd::prelude::*;
use vstd::arithmetic::power::pow;
use vstd::arithmetic::power2::pow2;

verus! {

/// 2^64 as a specification constant.
pub open spec fn b64() -> nat {
    0x1_0000_0000_0000_0000nat
}

/// 2^128 as a specification constant.
pub open spec fn b128() -> nat {
    0x1_0000_0000_0000_0000_0000_0000_0000_0000nat
}

/// 2^192 as a specification constant.
pub open spec fn b192() -> nat {
    0x1_0000_0000_0000_0000_0000_0000_0000_0000_0000_0000_0000_0000nat
}

/// 2^255: words at or above this value are negative under two's-complement.
pub open spec fn w255() -> nat {
    0x8000_0000_0000_0000_0000_0000_0000_0000_0000_0000_0000_0000_0000_0000_0000_0000nat
}

/// 2^256: the modulus of all word arithmetic.
pub open spec fn w256() -> nat {
    0x1_0000_0000_0000_0000_0000_0000_0000_0000_0000_0000_0000_0000_0000_0000_0000_0000nat
}

/// A 256-bit unsigned machine word, stored as four 64-bit limbs, least
/// significant limb first. Its view is the number it denotes, in [0, 2^256).
#[derive(Clone, Copy, Debug, PartialEq, Eq, Structural)]
pub struct Word {
    pub l0: u64,
    pub l1: u64,
    pub l2: u64,
    pub l3: u64,
}

impl View for Word {
    type V = nat;

    open spec fn view(&self) -> nat {
        self.l0 as nat + self.l1 as nat * b64() + self.l2 as nat * b128() + self.l3 as nat
            * b192()
    }
}

/// The two's-complement reading of a word: the most significant bit is the
/// sign bit.
pub open spec fn as_signed(w: Word) -> int {
    if w@ < w255() {
        w@ as int
    } else {
        w@ - w256()
    }
}

/// Limb-by-limb comparison, high limb first, decides the numeric order.
proof fn lemma_limb_lt(a: Word, b: Word)
    ensures
        a.l3 < b.l3 ==> a@ < b@,
        a.l3 == b.l3 && a.l2 < b.l2 ==> a@ < b@,
        a.l3 == b.l3 && a.l2 == b.l2 && a.l1 < b.l1 ==> a@ < b@,
        a.l3 == b.l3 && a.l2 == b.l2 && a.l1 == b.l1 && a.l0 < b.l0 ==> a@ < b@,
{
}

/// Equal numbers have equal limbs: the radix representation is unique.
pub proof fn lemma_word_val_injective(a: Word, b: Word)
    ensures
        (a@ == b@) <==> (a == b),
{
    lemma_limb_lt(a, b);
    lemma_limb_lt(b, a);
}

impl Word {
    /// The word denoting 0.
    pub fn zero() -> (r: Word)
        ensures
            r@ == 0,
    {
        Word { l0: 0, l1: 0, l2: 0, l3: 0 }
    }

    /// The word denoting 1.
    pub fn one() -> (r: Word)
        ensures
            r@ == 1,
    {
        Word { l0: 1, l1: 0, l2: 0, l3: 0 }
    }

    /// The largest word, 2^256 - 1.
    pub fn max() -> (r: Word)
        ensures
            r@ == w256() - 1,
    {
        Word { l0: u64::MAX, l1: u64::MAX, l2: u64::MAX, l3: u64::MAX }
    }

    pub fn from_u64(x: u64) -> (r: Word)
        ensures
            r@ == x,
    {
        Word { l0: x, l1: 0, l2: 0, l3: 0 }
    }

    /// The word's value as a u64, when it fits.
    pub fn to_u64(&self) -> (r: Option<u64>)
        ensures
            self@ < b64() ==> r == Some((self@ as u64)),
            self@ >= b64() ==> r is None,
    {
        if self.l1 == 0 && self.l2 == 0 && self.l3 == 0 {
            Some(self.l0)
        } else {
            proof {
                lemma_limb_lt(Word { l0: u64::MAX, l1: 0, l2: 0, l3: 0 }, *self);
            }
            None
        }
    }

    pub fn is_zero(&self) -> (r: bool)
        ensures
            r == (self@ == 0),
    {
        self.l0 == 0 && self.l1 == 0 && self.l2 == 0 && self.l3 == 0
    }

    /// Numeric order, decided limb by limb from the most significant.
    pub fn lt(&self, other: &Word) -> (r: bool)
        ensures
            r == (self@ < other@),
    {
        proof {
            lemma_limb_lt(*self, *other);
            lemma_limb_lt(*other, *self);
        }
        if self.l3 != other.l3 {
            self.l3 < other.l3
        } else if self.l2 != other.l2 {
            self.l2 < other.l2
        } else if self.l1 != other.l1 {
            self.l1 < other.l1
        } else {
            self.l0 < other.l0
        }
    }

    pub fn eq_val(&self, other: &Word) -> (r: bool)
        ensures
            r == (self@ == other@),
    {
        proof {
            lemma_word_val_injective(*self, *other);
        }
        self.l0 == other.l0 && self.l1 == other.l1 && self.l2 == other.l2 && self.l3 == other.l3
    }

    /// Whether the sign bit (bit 255) is set.
    pub fn is_negative(&self) -> (r: bool)
        ensures
            r == (self@ >= w255()),
    {
        self.l3 >= 0x8000_0000_0000_0000
    }
}

/// Bitwise AND, limb by limb.
pub open spec fn spec_and(a: Word, b: Word) -> Word {
    Word { l0: a.l0 & b.l0, l1: a.l1 & b.l1, l2: a.l2 & b.l2, l3: a.l3 & b.l3 }
}

/// Bitwise OR, limb by limb.
pub open spec fn spec_or(a: Word, b: Word) -> Word {
    Word { l0: a.l0 | b.l0, l1: a.l1 | b.l1, l2: a.l2 | b.l2, l3: a.l3 | b.l3 }
}

/// Bitwise XOR, limb by limb.
pub open spec fn spec_xor(a: Word, b: Word) -> Word {
    Word { l0: a.l0 ^ b.l0, l1: a.l1 ^ b.l1, l2: a.l2 ^ b.l2, l3: a.l3 ^ b.l3 }
}

/// Bitwise complement, limb by limb.
pub open spec fn spec_not(a: Word) -> Word {
    Word { l0: !a.l0, l1: !a.l1, l2: !a.l2, l3: !a.l3 }
}

impl Word {
    pub fn and(&self, other: &Word) -> (r: Word)
        ensures
            r == spec_and(*self, *other),
    {
        Word {
            l0: self.l0 & other.l0,
            l1: self.l1 & other.l1,
            l2: self.l2 & other.l2,
            l3: self.l3 & other.l3,
        }
    }

    pub fn or(&self, other: &Word) -> (r: Word)
        ensures
            r == spec_or(*self, *other),
    {
        Word {
            l0: self.l0 | other.l0,
            l1: self.l1 | other.l1,
            l2: self.l2 | other.l2,
            l3: self.l3 | other.l3,
        }
    }

    pub fn xor(&self, other: &Word) -> (r: Word)
        ensures
            r == spec_xor(*self, *other),
    {
        Word {
            l0: self.l0 ^ other.l0,
            l1: self.l1 ^ other.l1,
            l2: self.l2 ^ other.l2,
            l3: self.l3 ^ other.l3,
        }
    }

    pub fn not(&self) -> (r: Word)
        ensures
            r == spec_not(*self),
    {
        Word { l0: !self.l0, l1: !self.l1, l2: !self.l2, l3: !self.l3 }
    }
}

/// Taking the complement twice gives the word itself back.
pub proof fn lemma_not_not(a: Word)
    ensures
        spec_not(spec_not(a)) == a,
{
    assert forall|x: u64| #[trigger] (!(!x)) == x by {
        assert(!(!x) == x) by (bit_vector);
    }
}

/// A word XORed with itself is zero.
pub proof fn lemma_xor_self(a: Word)
    ensures
        spec_xor(a, a)@ == 0,
{
    assert forall|x: u64| #[trigger] (x ^ x) == 0u64 by {
        assert(x ^ x == 0u64) by (bit_vector);
    }
}

/// The word's limbs by index, least significant first.
pub open spec fn limb(w: Word, i: int) -> u64 {
    if i == 0 {
        w.l0
    } else if i == 1 {
        w.l1
    } else if i == 2 {
        w.l2
    } else {
        w.l3
    }
}

/// Byte `j` of the word's 32-byte big-endian encoding: byte 0 is the most
/// significant.
pub open spec fn byte_of(w: Word, j: int) -> u8 {
    (limb(w, 3 - j / 8) >> (((7 - (j % 8)) * 8) as u64)) as u8
}

/// The word's 32-byte big-endian encoding.
pub open spec fn be_bytes(w: Word) -> Seq<u8> {
    Seq::new(32, |j: int| byte_of(w, j))
}

proof fn lemma_limb_from_be(b0: u8, b1: u8, b2: u8, b3: u8, b4: u8, b5: u8, b6: u8, b7: u8, x: u64)
    by (bit_vector)
    requires
        x == ((b0 as u64) << 56) | ((b1 as u64) << 48) | ((b2 as u64) << 40) | ((b3 as u64) << 32)
            | ((b4 as u64) << 24) | ((b5 as u64) << 16) | ((b6 as u64) << 8) | (b7 as u64),
    ensures
        (x >> 56) as u8 == b0,
        (x >> 48) as u8 == b1,
        (x >> 40) as u8 == b2,
        (x >> 32) as u8 == b3,
        (x >> 24) as u8 == b4,
        (x >> 16) as u8 == b5,
        (x >> 8) as u8 == b6,
        (x >> 0) as u8 == b7,
{
}

/// A word is determined by its big-endian encoding.
pub proof fn lemma_be_bytes_injective(a: Word, b: Word)
    requires
        be_bytes(a) == be_bytes(b),
    ensures
        a == b,
{
    assert forall|j: int| 0 <= j < 32 implies byte_of(a, j) == byte_of(b, j) by {
        assert(be_bytes(a)[j] == byte_of(a, j));
        assert(be_bytes(b)[j] == byte_of(b, j));
    }
    lemma_be_bytes_value(a);
    lemma_be_bytes_value(b);
    lemma_word_val_injective(a, b);
}

impl Word {
    /// Byte `j` of the big-endian encoding, byte 0 most significant.
    pub fn byte_at(&self, j: usize) -> (r: u8)
        requires
            j < 32,
        ensures
            r == byte_of(*self, j as int),
    {
        let li = 3 - j / 8;
        let x = if li == 0 {
            self.l0
        } else if li == 1 {
            self.l1
        } else if li == 2 {
            self.l2
        } else {
            self.l3
        };
        let sh: u64 = ((7 - (j % 8)) * 8) as u64;
        (x >> sh) as u8
    }

    /// The 32-byte big-endian encoding.
    pub fn to_be_bytes(&self) -> (r: Vec<u8>)
        ensures
            r@ == be_bytes(*self),
    {
        let mut out: Vec<u8> = Vec::new();
        let mut j: usize = 0;
        while j < 32
            invariant
                j <= 32,
                out@.len() == j,
                forall|k: int| 0 <= k < j ==> out@[k] == byte_of(*self, k),
            decreases 32 - j,
        {
            let b = self.byte_at(j);
            out.push(b);
            j = j + 1;
        }
        proof {
            assert(out@ =~= be_bytes(*self));
        }
        out
    }

    /// The word whose big-endian encoding is the given 32 bytes.
    pub fn from_be_bytes(bytes: &Vec<u8>) -> (r: Word)
        requires
            bytes@.len() == 32,
        ensures
            be_bytes(r) == bytes@,
    {
        let l3 = limb_from_be(bytes[0], bytes[1], bytes[2], bytes[3], bytes[4], bytes[5], bytes[6],
            bytes[7]);
        let l2 = limb_from_be(bytes[8], bytes[9], bytes[10], bytes[11], bytes[12], bytes[13],
            bytes[14], bytes[15]);
        let l1 = limb_from_be(bytes[16], bytes[17], bytes[18], bytes[19], bytes[20], bytes[21],
            bytes[22], bytes[23]);
        let l0 = limb_from_be(bytes[24], bytes[25], bytes[26], bytes[27], bytes[28], bytes[29],
            bytes[30], bytes[31]);
        let r = Word { l0, l1, l2, l3 };
        proof {
            assert forall|j: int| 0 <= j < 32 implies byte_of(r, j) == bytes@[j] by {
                assert(0 <= j / 8 < 4 && 0 <= j % 8 < 8);
            }
            assert(be_bytes(r) =~= bytes@);
        }
        r
    }
}

proof fn lemma_limb_byte_sum(x: u64)
    by (bit_vector)
    ensures
        x == ((x >> 56) as u8) as u64 * 0x100000000000000
            + ((x >> 48) as u8) as u64 * 0x1000000000000
            + ((x >> 40) as u8) as u64 * 0x10000000000
            + ((x >> 32) as u8) as u64 * 0x100000000
            + ((x >> 24) as u8) as u64 * 0x1000000
            + ((x >> 16) as u8) as u64 * 0x10000
            + ((x >> 8) as u8) as u64 * 0x100
            + ((x >> 0) as u8) as u64,
{
}

/// The word denotes exactly the base-256 reading of its big-endian
/// encoding: byte 0 carries 2^248, byte 31 carries 1.
pub proof fn lemma_be_bytes_value(w: Word)
    ensures
        w@ == byte_of(w, 0) as nat * 0x100000000000000000000000000000000000000000000000000000000000000nat
            + byte_of(w, 1) as nat * 0x1000000000000000000000000000000000000000000000000000000000000nat
            + byte_of(w, 2) as nat * 0x10000000000000000000000000000000000000000000000000000000000nat
            + byte_of(w, 3) as nat * 0x100000000000000000000000000000000000000000000000000000000nat
            + byte_of(w, 4) as nat * 0x1000000000000000000000000000000000000000000000000000000nat
            + byte_of(w, 5) as nat * 0x10000000000000000000000000000000000000000000000000000nat
            + byte_of(w, 6) as nat * 0x100000000000000000000000000000000000000000000000000nat
            + byte_of(w, 7) as nat * 0x1000000000000000000000000000000000000000000000000nat
            + byte_of(w, 8) as nat * 0x10000000000000000000000000000000000000000000000nat
            + byte_of(w, 9) as nat * 0x100000000000000000000000000000000000000000000nat
            + byte_of(w, 10) as nat * 0x1000000000000000000000000000000000000000000nat
            + byte_of(w, 11) as nat * 0x10000000000000000000000000000000000000000nat
            + byte_of(w, 12) as nat * 0x100000000000000000000000000000000000000nat
            + byte_of(w, 13) as nat * 0x1000000000000000000000000000000000000nat
            + byte_of(w, 14) as nat * 0x10000000000000000000000000000000000nat
            + byte_of(w, 15) as nat * 0x100000000000000000000000000000000nat
            + byte_of(w, 16) as nat * 0x1000000000000000000000000000000nat
            + byte_of(w, 17) as nat * 0x10000000000000000000000000000nat
            + byte_of(w, 18) as nat * 0x100000000000000000000000000nat
            + byte_of(w, 19) as nat * 0x1000000000000000000000000nat
            + byte_of(w, 20) as nat * 0x10000000000000000000000nat
            + byte_of(w, 21) as nat * 0x100000000000000000000nat
            + byte_of(w, 22) as nat * 0x1000000000000000000nat
            + byte_of(w, 23) as nat * 0x10000000000000000nat
            + byte_of(w, 24) as nat * 0x100000000000000nat
            + byte_of(w, 25) as nat * 0x1000000000000nat
            + byte_of(w, 26) as nat * 0x10000000000nat
            + byte_of(w, 27) as nat * 0x100000000nat
            + byte_of(w, 28) as nat * 0x1000000nat
            + byte_of(w, 29) as nat * 0x10000nat
            + byte_of(w, 30) as nat * 0x100nat
            + byte_of(w, 31) as nat,
{
    lemma_limb_byte_sum(w.l0);
    lemma_limb_byte_sum(w.l1);
    lemma_limb_byte_sum(w.l2);
    lemma_limb_byte_sum(w.l3);
}

/// Assembles a limb from eight bytes, most significant first.
fn limb_from_be(b0: u8, b1: u8, b2: u8, b3: u8, b4: u8, b5: u8, b6: u8, b7: u8) -> (x: u64)
    ensures
        (x >> 56) as u8 == b0,
        (x >> 48) as u8 == b1,
        (x >> 40) as u8 == b2,
        (x >> 32) as u8 == b3,
        (x >> 24) as u8 == b4,
        (x >> 16) as u8 == b5,
        (x >> 8) as u8 == b6,
        (x >> 0) as u8 == b7,
{
    let x: u64 = ((b0 as u64) << 56u64) | ((b1 as u64) << 48u64) | ((b2 as u64) << 40u64) | ((
    b3 as u64) << 32u64) | ((b4 as u64) << 24u64) | ((b5 as u64) << 16u64) | ((b6 as u64) << 8u64)
            | (b7 as u64);
    proof {
        lemma_limb_from_be(b0, b1, b2, b3, b4, b5, b6, b7, x);
    }
    x
}

/// Subtraction wraps: what `(a - b) % 2^256` is, stated without `%`.
pub proof fn lemma_wrap_sub(a: nat, b: nat)
    requires
        a < w256(),
        b < w256(),
    ensures
        (a - b) % (w256() as int) == if a >= b {
            a - b
        } else {
            (a + w256() - b)
        },
{
    if a >= b {
        vstd::arithmetic::div_mod::lemma_small_mod((a - b) as nat, w256());
    } else {
        vstd::arithmetic::div_mod::lemma_mod_multiples_vanish(
            -1,
            a + w256() - b,
            w256() as int,
        );
        vstd::arithmetic::div_mod::lemma_small_mod((a + w256() - b) as nat, w256());
    }
}

impl Word {
    /// The additive inverse modulo 2^256.
    pub fn neg(&self) -> (r: Word)
        ensures
            r@ == (0 - self@) % (w256() as int),
    {
        let z = Word::zero();
        u256_sub(&z, self)
    }

    /// The absolute value of the word's two's-complement reading. For the
    /// most negative word this is 2^255, which still fits.
    pub fn abs_signed(&self) -> (r: Word)
        ensures
            r@ == if as_signed(*self) < 0 {
                (0 - as_signed(*self))
            } else {
                as_signed(*self)
            },
    {
        if self.is_negative() {
            proof {
                lemma_wrap_sub(0, self@);
            }
            self.neg()
        } else {
            *self
        }
    }
}

/// Adding a word to its additive inverse gives zero: the round trip
/// `ADD(a, SUB(0, a))` cancels.
pub proof fn lemma_add_neg_cancels(a: Word)
    ensures
        (a@ + ((0 - a@) % (w256() as int))) % (w256() as int) == 0,
{
    lemma_wrap_sub(0, a@);
    if a@ == 0 {
        vstd::arithmetic::div_mod::lemma_small_mod(0, w256());
    } else {
        vstd::arithmetic::div_mod::lemma_mod_multiples_vanish(-1, 0, w256() as int);
        vstd::arithmetic::div_mod::lemma_small_mod(0, w256());
    }
}

/// The magnitude of an integer.
pub open spec fn iabs(x: int) -> int {
    if x < 0 {
        -x
    } else {
        x
    }
}

/// Truncating signed division: the quotient rounds toward zero, and a zero
/// divisor gives zero.
pub open spec fn sdiv_int(x: int, y: int) -> int {
    if y == 0 {
        0
    } else if (x < 0) == (y < 0) {
        iabs(x) / iabs(y)
    } else {
        -(iabs(x) / iabs(y))
    }
}

/// Signed remainder taking the dividend's sign, and a zero divisor gives
/// zero.
pub open spec fn smod_int(x: int, y: int) -> int {
    if y == 0 {
        0
    } else if x < 0 {
        -(iabs(x) % iabs(y))
    } else {
        iabs(x) % iabs(y)
    }
}

/// The 32-byte encoding after sign-extending from byte 31 - k: the low
/// k + 1 bytes are kept and every byte above them takes the sign of byte
/// 31 - k.
pub open spec fn signextend_bytes(k: nat, s: Seq<u8>) -> Seq<u8> {
    Seq::new(
        32,
        |j: int|
            if j >= 31 - k {
                s[j]
            } else if s[31 - k] >= 0x80 {
                0xffu8
            } else {
                0u8
            },
    )
}

/// A word's lowest byte is its value modulo 256.
pub proof fn lemma_low_byte(w: Word)
    ensures
        w@ % 256 == w.l0 % 256,
{
    let t = w.l1 as int * 0x100_0000_0000_0000 + w.l2 as int * 0x100_0000_0000_0000_0000_0000_0000_0000
        + w.l3 as int * 0x100_0000_0000_0000_0000_0000_0000_0000_0000_0000_0000_0000;
    assert(w@ == 256 * t + w.l0);
    vstd::arithmetic::div_mod::lemma_mod_multiples_vanish(t, w.l0 as int, 256);
}

/// What wrapping to [0, 2^256) does to a value already within one modulus
/// of that range.
pub proof fn lemma_signed_mod(x: int)
    requires
        -(w256() as int) < x < w256() as int,
    ensures
        x % (w256() as int) == if x >= 0 {
            x
        } else {
            x + w256()
        },
{
    if x >= 0 {
        vstd::arithmetic::div_mod::lemma_small_mod(x as nat, w256());
    } else {
        vstd::arithmetic::div_mod::lemma_mod_multiples_vanish(-1, x + w256(), w256() as int);
        vstd::arithmetic::div_mod::lemma_small_mod((x + w256()) as nat, w256());
    }
}

/// The powers of two behind the limb radix, named.
pub proof fn lemma_pow2_val()
    ensures
        pow2(8) == 256,
        pow2(64) == b64(),
        pow2(128) == b128(),
        pow2(192) == b192(),
        pow2(255) == w255(),
        pow2(256) == w256(),
{
    vstd::arithmetic::power2::lemma2_to64();
    vstd::arithmetic::power2::lemma2_to64_rest();
    vstd::arithmetic::power2::lemma_pow2_adds(64, 64);
    vstd::arithmetic::power2::lemma_pow2_adds(128, 64);
    vstd::arithmetic::power2::lemma_pow2_adds(192, 64);
    vstd::arithmetic::power2::lemma_pow2_adds(192, 63);
}

/// How many bytes it takes to write a number: zero needs none.
pub open spec fn byte_len(n: nat) -> nat
    decreases n,
{
    if n == 0 {
        0
    } else {
        1 + byte_len(n / 256)
    }
}

/// A number below 2^(8k) needs at most k bytes.
proof fn lemma_byte_len_le(n: nat, k: nat)
    requires
        n < pow2(8 * k),
    ensures
        byte_len(n) <= k,
    decreases k,
{
    vstd::arithmetic::power2::lemma2_to64();
    if n == 0 {
    } else {
        if k == 0 {
            assert(pow2(0) == 1);
        } else {
            vstd::arithmetic::power2::lemma_pow2_adds(8, (8 * (k - 1)) as nat);
            assert(pow2(8 * k) == 256 * pow2((8 * (k - 1)) as nat));
            vstd::arithmetic::div_mod::lemma_div_is_ordered(
                n as int,
                256 * pow2((8 * (k - 1)) as nat) - 1,
                256,
            );
            vstd::arithmetic::div_mod::lemma_div_multiples_vanish(
                pow2((8 * (k - 1)) as nat) as int - 1,
                256,
            );
            vstd::arithmetic::div_mod::lemma_div_is_ordered(
                256 * (pow2((8 * (k - 1)) as nat) - 1) as int,
                256 * pow2((8 * (k - 1)) as nat) - 1,
                256,
            );
            assert((256 * pow2((8 * (k - 1)) as nat) - 1) / 256 < pow2((8 * (k - 1)) as nat)) by {
                vstd::arithmetic::div_mod::lemma_fundamental_div_mod(
                    256 * pow2((8 * (k - 1)) as nat) - 1,
                    256,
                );
            }
            lemma_byte_len_le(n / 256, (k - 1) as nat);
        }
    }
}

/// Every word value fits in 32 bytes.
pub proof fn lemma_byte_len_bound(n: nat)
    requires
        n < w256(),
    ensures
        byte_len(n) <= 32,
{
    lemma_pow2_val();
    lemma_byte_len_le(n, 32);
}

impl Word {
    /// How many bytes the word's value occupies: the length of its shortest
    /// big-endian encoding, zero for the zero word.
    pub fn byte_length(&self) -> (r: u64)
        ensures
            r == byte_len(self@),
            r <= 32,
    {
        proof {
            lemma_byte_len_bound(self@);
        }
        let divisor = Word::from_u64(256);
        let mut x: Word = *self;
        let mut c: u64 = 0;
        while !x.is_zero()
            invariant
                c + byte_len(x@) == byte_len(self@),
                byte_len(self@) <= 32,
                c <= 32,
                divisor@ == 256,
            decreases x@,
        {
            proof {
                vstd::arithmetic::div_mod::lemma_div_is_ordered(
                    x@ as int,
                    w256() as int - 1,
                    256,
                );
                vstd::arithmetic::div_mod::lemma_div_decreases(x@ as int, 256);
            }
            x = u256_div(&x, &divisor);
            c = c + 1;
        }
        c
    }
}

/// Relies on U256::overflowing_add: 256-bit addition that wraps at 2^256.
#[verifier::external_body]
pub(crate) fn u256_add(a: &Word, b: &Word) -> (r: Word)
    ensures
        r@ == (a@ + b@) % w256(),
{
    let x = primitive_types::U256([a.l0, a.l1, a.l2, a.l3]);
    let y = primitive_types::U256([b.l0, b.l1, b.l2, b.l3]);
    let z = x.overflowing_add(y).0;
    Word { l0: z.0[0], l1: z.0[1], l2: z.0[2], l3: z.0[3] }
}

/// Relies on U256::overflowing_sub: 256-bit subtraction that wraps at 2^256.
#[verifier::external_body]
pub(crate) fn u256_sub(a: &Word, b: &Word) -> (r: Word)
    ensures
        r@ == (a@ - b@) % (w256() as int),
{
    let x = primitive_types::U256([a.l0, a.l1, a.l2, a.l3]);
    let y = primitive_types::U256([b.l0, b.l1, b.l2, b.l3]);
    let z = x.overflowing_sub(y).0;
    Word { l0: z.0[0], l1: z.0[1], l2: z.0[2], l3: z.0[3] }
}

/// Relies on U256::overflowing_mul: 256-bit multiplication that wraps at
/// 2^256.
#[verifier::external_body]
pub(crate) fn u256_mul(a: &Word, b: &Word) -> (r: Word)
    ensures
        r@ == (a@ * b@) % w256(),
{
    let x = primitive_types::U256([a.l0, a.l1, a.l2, a.l3]);
    let y = primitive_types::U256([b.l0, b.l1, b.l2, b.l3]);
    let z = x.overflowing_mul(y).0;
    Word { l0: z.0[0], l1: z.0[1], l2: z.0[2], l3: z.0[3] }
}

/// Relies on U256's Div (via div_mod): truncating 256-bit division. The
/// divisor must not be zero, since the callee panics on it.
#[verifier::external_body]
pub(crate) fn u256_div(a: &Word, b: &Word) -> (r: Word)
    requires
        b@ != 0,
    ensures
        r@ == a@ / b@,
{
    let x = primitive_types::U256([a.l0, a.l1, a.l2, a.l3]);
    let y = primitive_types::U256([b.l0, b.l1, b.l2, b.l3]);
    let z = x / y;
    Word { l0: z.0[0], l1: z.0[1], l2: z.0[2], l3: z.0[3] }
}

/// Relies on U256's Rem (via div_mod): 256-bit remainder. The divisor must
/// not be zero, since the callee panics on it.
#[verifier::external_body]
pub(crate) fn u256_rem(a: &Word, b: &Word) -> (r: Word)
    requires
        b@ != 0,
    ensures
        r@ == a@ % b@,
{
    let x = primitive_types::U256([a.l0, a.l1, a.l2, a.l3]);
    let y = primitive_types::U256([b.l0, b.l1, b.l2, b.l3]);
    let z = x % y;
    Word { l0: z.0[0], l1: z.0[1], l2: z.0[2], l3: z.0[3] }
}

/// Relies on U256::overflowing_pow: exponentiation by squaring whose every
/// intermediate product wraps at 2^256, so the result is the power modulo
/// 2^256.
#[verifier::external_body]
pub(crate) fn u256_pow(a: &Word, e: &Word) -> (r: Word)
    ensures
        r@ == pow(a@ as int, e@) % (w256() as int),
{
    let x = primitive_types::U256([a.l0, a.l1, a.l2, a.l3]);
    let y = primitive_types::U256([e.l0, e.l1, e.l2, e.l3]);
    let z = x.overflowing_pow(y).0;
    Word { l0: z.0[0], l1: z.0[1], l2: z.0[2], l3: z.0[3] }
}

/// Relies on U512 addition and Rem: the true 257-bit sum is taken modulo n.
/// The modulus must not be zero, since Rem panics on it.
#[verifier::external_body]
pub(crate) fn u256_addmod(a: &Word, b: &Word, n: &Word) -> (r: Word)
    requires
        n@ != 0,
    ensures
        r@ == (a@ + b@) % n@,
{
    let x = primitive_types::U512::from(primitive_types::U256([a.l0, a.l1, a.l2, a.l3]));
    let y = primitive_types::U512::from(primitive_types::U256([b.l0, b.l1, b.l2, b.l3]));
    let m = primitive_types::U512::from(primitive_types::U256([n.l0, n.l1, n.l2, n.l3]));
    let z = (x + y) % m;
    Word { l0: z.0[0], l1: z.0[1], l2: z.0[2], l3: z.0[3] }
}

/// Relies on U256::full_mul and U512's Rem: the exact 512-bit product is
/// taken modulo n. The modulus must not be zero, since Rem panics on it.
#[verifier::external_body]
pub(crate) fn u256_mulmod(a: &Word, b: &Word, n: &Word) -> (r: Word)
    requires
        n@ != 0,
    ensures
        r@ == (a@ * b@) % n@,
{
    let x = primitive_types::U256([a.l0, a.l1, a.l2, a.l3]);
    let y = primitive_types::U256([b.l0, b.l1, b.l2, b.l3]);
    let m = primitive_types::U512::from(primitive_types::U256([n.l0, n.l1, n.l2, n.l3]));
    let z = x.full_mul(y) % m;
    Word { l0: z.0[0], l1: z.0[1], l2: z.0[2], l3: z.0[3] }
}

/// Relies on U256's Shl: left shift by fewer than 256 bits, dropping bits
/// shifted past bit 255.
#[verifier::external_body]
pub(crate) fn u256_shl(a: &Word, s: u32) -> (r: Word)
    requires
        s < 256,
    ensures
        r@ == (a@ * pow2(s as nat)) % w256(),
{
    let x = primitive_types::U256([a.l0, a.l1, a.l2, a.l3]);
    let z = x << s;
    Word { l0: z.0[0], l1: z.0[1], l2: z.0[2], l3: z.0[3] }
}

/// Relies on U256's Shr: logical right shift by fewer than 256 bits.
#[verifier::external_body]
pub(crate) fn u256_shr(a: &Word, s: u32) -> (r: Word)
    requires
        s < 256,
    ensures
        r@ == a@ / pow2(s as nat),
{
    let x = primitive_types::U256([a.l0, a.l1, a.l2, a.l3]);
    let z = x >> s;
    Word { l0: z.0[0], l1: z.0[1], l2: z.0[2], l3: z.0[3] }
}

} // verus!
