//! Fixed-size sets of flags: up to 256 held in two 128-bit words, or as many as fit in an
//! array of bytes.
use vstd::prelude::*;

verus! {

/// Bit `i` of `w`, counting from the least significant.
pub open spec fn word_bit(w: u128, i: int) -> bool {
    (w >> (i as u128)) & 1u128 == 1u128
}

proof fn lemma_or_one(w: u128, n: u128, k: u128)
    requires
        n < 128,
        k < 128,
    ensures
        ((w | (1u128 << n)) >> k) & 1u128 == 1u128 <==> ((w >> k) & 1u128 == 1u128 || k == n),
{
    assert(((w | (1u128 << n)) >> k) & 1u128 == 1u128 <==> ((w >> k) & 1u128 == 1u128 || k == n))
        by (bit_vector)
        requires
            n < 128,
            k < 128,
    ;
}

proof fn lemma_and_not_one(w: u128, n: u128, k: u128)
    requires
        n < 128,
        k < 128,
    ensures
        ((w & !(1u128 << n)) >> k) & 1u128 == 1u128 <==> ((w >> k) & 1u128 == 1u128 && k != n),
{
    assert(((w & !(1u128 << n)) >> k) & 1u128 == 1u128 <==> ((w >> k) & 1u128 == 1u128 && k != n))
        by (bit_vector)
        requires
            n < 128,
            k < 128,
    ;
}

proof fn lemma_and_one(w: u128, n: u128)
    requires
        n < 128,
    ensures
        (w & (1u128 << n) != 0) <==> ((w >> n) & 1u128 == 1u128),
{
    assert((w & (1u128 << n) != 0) <==> ((w >> n) & 1u128 == 1u128)) by (bit_vector)
        requires
            n < 128,
    ;
}

proof fn lemma_or_words(a: u128, b: u128, k: u128)
    requires
        k < 128,
    ensures
        ((a | b) >> k) & 1u128 == 1u128 <==> ((a >> k) & 1u128 == 1u128 || (b >> k) & 1u128 == 1u128),
{
    assert(((a | b) >> k) & 1u128 == 1u128 <==> ((a >> k) & 1u128 == 1u128 || (b >> k) & 1u128
        == 1u128)) by (bit_vector)
        requires
            k < 128,
    ;
}

/// Flags 0 to 127 are the bits of the second word, flags 128 to 255 those of the first.
#[derive(Default, Debug, Clone, Copy, PartialEq, Eq, PartialOrd, Ord)]
pub struct LargeBitFlags(pub [u128; 2]);

impl LargeBitFlags {
    /// Flag `n` is set.
    pub open spec fn flag(self, n: int) -> bool {
        if 0 <= n < 128 {
            word_bit(self.0@[1], n)
        } else if 128 <= n < 256 {
            word_bit(self.0@[0], n - 128)
        } else {
            false
        }
    }

    /// Sets flag `n`; a number of 256 or more changes nothing.
    pub fn set(&mut self, n: usize)
        ensures
            forall|k: int| #[trigger] final(self).flag(k) == (old(self).flag(k) || (k == n && n < 256)),
    {
        if n < 128 {
            self.0[1] = self.0[1] | (1u128 << (n as u128));
        } else if n < 256 {
            self.0[0] = self.0[0] | (1u128 << ((n % 128) as u128));
        }
        proof {
            assert forall|k: int| #[trigger] self.flag(k) == (old(self).flag(k) || (k == n && n < 256)) by {
                if 0 <= k < 128 {
                    if n < 128 {
                        lemma_or_one(old(self).0@[1], n as u128, k as u128);
                    }
                } else if 128 <= k < 256 {
                    if 128 <= n < 256 {
                        lemma_or_one(old(self).0@[0], (n % 128) as u128, (k - 128) as u128);
                    }
                }
            }
        }
    }

    /// Clears flag `n`; for a number of 256 or more, clears flag `128 + n % 128`.
    pub fn unset(&mut self, n: usize)
        ensures
            forall|k: int| #[trigger] final(self).flag(k) == (old(self).flag(k) && k != (if n < 256 {
                n as int
            } else {
                128 + n % 128
            })),
    {
        if n < 128 {
            self.0[1] = self.0[1] & !(1u128 << (n as u128));
        } else {
            self.0[0] = self.0[0] & !(1u128 << ((n % 128) as u128));
        }
        proof {
            let target = if n < 256 { n as int } else { 128 + n % 128 };
            assert forall|k: int| #[trigger] self.flag(k) == (old(self).flag(k) && k != target) by {
                if 0 <= k < 128 {
                    if n < 128 {
                        lemma_and_not_one(old(self).0@[1], n as u128, k as u128);
                    }
                } else if 128 <= k < 256 {
                    if n >= 128 {
                        lemma_and_not_one(old(self).0@[0], (n % 128) as u128, (k - 128) as u128);
                    }
                }
            }
        }
    }

    /// Flag `n`; for a number of 256 or more, flag `128 + n % 128`.
    pub fn get(&self, n: usize) -> (r: bool)
        ensures
            r == self.flag(if n < 256 {
                n as int
            } else {
                128 + n % 128
            }),
    {
        if n < 128 {
            proof {
                lemma_and_one(self.0@[1], n as u128);
            }
            self.0[1] & (1u128 << (n as u128)) != 0
        } else {
            proof {
                lemma_and_one(self.0@[0], (n % 128) as u128);
            }
            self.0[0] & (1u128 << ((n % 128) as u128)) != 0
        }
    }

    /// The flags set in either.
    pub fn merge(&self, other: &LargeBitFlags) -> (r: LargeBitFlags)
        ensures
            forall|k: int| #[trigger] r.flag(k) == (self.flag(k) || other.flag(k)),
    {
        let r = LargeBitFlags([self.0[0] | other.0[0], self.0[1] | other.0[1]]);
        proof {
            assert forall|k: int| #[trigger] r.flag(k) == (self.flag(k) || other.flag(k)) by {
                if 0 <= k < 128 {
                    lemma_or_words(self.0@[1], other.0@[1], k as u128);
                } else if 128 <= k < 256 {
                    lemma_or_words(self.0@[0], other.0@[0], (k - 128) as u128);
                }
            }
        }
        r
    }

    /// The 256 flags as binary digits, flag 255 first.
    pub fn as_binary_string(&self) -> (r: String)
        ensures
            r@.len() == 256,
            forall|p: int| 0 <= p < 256 ==> #[trigger] r@[p] == (if self.flag(255 - p) {
                '1'
            } else {
                '0'
            }),
    {
        let r = binary_digits(self.0[0], self.0[1]);
        proof {
            assert forall|p: int| 0 <= p < 256 implies #[trigger] r@[p] == (if self.flag(255 - p) {
                '1'
            } else {
                '0'
            }) by {
                if p < 128 {
                    assert(r@[p] == (if word_bit(self.0@[0], 127 - p) { '1' } else { '0' }));
                } else {
                    assert(r@[p] == (if word_bit(self.0@[1], 255 - p) { '1' } else { '0' }));
                }
            }
        }
        r
    }

    /// No flag is set.
    pub(crate) fn is_empty(&self) -> (r: bool)
        ensures
            r == (self.0@[0] == 0 && self.0@[1] == 0),
    {
        self.0[0] == 0 && self.0[1] == 0
    }
}

/// Relies on std's `{:0128b}` formatting of `u128`: 128 binary digits, the most significant
/// first, padded with zeros.
#[verifier::external_body]
fn binary_digits(high: u128, low: u128) -> (r: String)
    ensures
        r@.len() == 256,
        forall|p: int| 0 <= p < 128 ==> #[trigger] r@[p] == (if word_bit(high, 127 - p) {
            '1'
        } else {
            '0'
        }),
        forall|p: int| 128 <= p < 256 ==> #[trigger] r@[p] == (if word_bit(low, 255 - p) {
            '1'
        } else {
            '0'
        }),
{
    format!("{:0128b}{:0128b}", high, low)
}

impl core::ops::Not for LargeBitFlags {
    type Output = LargeBitFlags;

    fn not(self) -> (r: LargeBitFlags) {
        LargeBitFlags([!self.0[0], !self.0[1]])
    }
}

impl vstd::std_specs::ops::NotSpecImpl for LargeBitFlags {
    open spec fn obeys_not_spec() -> bool {
        true
    }

    open spec fn not_req(self) -> bool {
        true
    }

    open spec fn not_spec(self) -> LargeBitFlags {
        LargeBitFlags([!self.0@[0], !self.0@[1]])
    }
}

impl core::ops::BitOrAssign for LargeBitFlags {
    /// Sets the flags that `rhs` sets.
    fn bitor_assign(&mut self, rhs: LargeBitFlags)
        ensures
            forall|k: int| #[trigger] final(self).flag(k) == (old(self).flag(k) || rhs.flag(k)),
    {
        self.0[0] = self.0[0] | rhs.0[0];
        self.0[1] = self.0[1] | rhs.0[1];
        proof {
            assert forall|k: int| #[trigger] self.flag(k) == (old(self).flag(k) || rhs.flag(k)) by {
                if 0 <= k < 128 {
                    lemma_or_words(old(self).0@[1], rhs.0@[1], k as u128);
                } else if 128 <= k < 256 {
                    lemma_or_words(old(self).0@[0], rhs.0@[0], (k - 128) as u128);
                }
            }
        }
    }
}

/// Bit `i` of the byte `b`, counting from the least significant.
pub open spec fn byte_bit(b: u8, i: int) -> bool {
    (b >> (i as u8)) & 1u8 == 1u8
}

proof fn lemma_byte_or(b: u8, n: u8, k: u8)
    requires
        n < 8,
        k < 8,
    ensures
        ((b | (1u8 << n)) >> k) & 1u8 == 1u8 <==> ((b >> k) & 1u8 == 1u8 || k == n),
{
    assert(((b | (1u8 << n)) >> k) & 1u8 == 1u8 <==> ((b >> k) & 1u8 == 1u8 || k == n)) by (bit_vector)
        requires
            n < 8,
            k < 8,
    ;
}

proof fn lemma_byte_and_not(b: u8, n: u8, k: u8)
    requires
        n < 8,
        k < 8,
    ensures
        ((b & !(1u8 << n)) >> k) & 1u8 == 1u8 <==> ((b >> k) & 1u8 == 1u8 && k != n),
{
    assert(((b & !(1u8 << n)) >> k) & 1u8 == 1u8 <==> ((b >> k) & 1u8 == 1u8 && k != n))
        by (bit_vector)
        requires
            n < 8,
            k < 8,
    ;
}

proof fn lemma_byte_and(b: u8, n: u8)
    requires
        n < 8,
    ensures
        (b & (1u8 << n) != 0) <==> ((b >> n) & 1u8 == 1u8),
{
    assert((b & (1u8 << n) != 0) <==> ((b >> n) & 1u8 == 1u8)) by (bit_vector)
        requires
            n < 8,
    ;
}

/// Two distinct multiples of `n` lie at least `n` apart.
proof fn lemma_multiples_apart(a: int, b: int, n: int)
    requires
        n > 0,
        a % n == 0,
        b % n == 0,
        b < a,
    ensures
        a >= b + n,
{
    vstd::arithmetic::div_mod::lemma_fundamental_div_mod(a, n);
    vstd::arithmetic::div_mod::lemma_fundamental_div_mod(b, n);
    let qa = a / n;
    let qb = b / n;
    assert(a == n * qa);
    assert(b == n * qb);
    assert(qb < qa) by (nonlinear_arith)
        requires
            a == n * qa,
            b == n * qb,
            b < a,
            n > 0,
    ;
    assert(n * qa >= n * qb + n) by (nonlinear_arith)
        requires
            qb + 1 <= qa,
            n > 0,
    ;
}

/// Why an index was refused.
#[derive(Debug, Clone, Copy, PartialEq, Eq)]
#[allow(inconsistent_fields)]
pub enum BitArrayError {
    /// The index lies beyond the last bit the array can hold.
    InvalidIndex { index: usize, max_index: usize },
    /// The index does not fit in a `usize`.
    OverUSizeLimit { index: u128 },
}

/// `NO_BYTES * 8` bits; bit `i` is bit `i % 8` of byte `i / 8`. Only bits up to `max_index`
/// take part in repeated setting.
#[derive(Debug, Clone, Copy, PartialEq, Eq, PartialOrd, Ord)]
pub struct BitArray<const NO_BYTES: usize> {
    bytes: [u8; NO_BYTES],
    max_index: usize,
}

impl<const NO_BYTES: usize> BitArray<NO_BYTES> {
    /// The largest index the bytes can hold.
    pub open spec fn spec_max_index() -> int {
        NO_BYTES * 8 - 1
    }

    /// Bit `i`.
    pub closed spec fn bit(&self, i: int) -> bool {
        byte_bit(self.bytes@[i / 8], i % 8)
    }

    /// The largest index that repeated setting reaches.
    pub closed spec fn spec_len(&self) -> usize {
        self.max_index
    }

    pub closed spec fn wf(&self) -> bool {
        self.max_index <= Self::spec_max_index()
    }

    fn max_index() -> (r: usize)
        requires
            1 <= NO_BYTES * 8 <= usize::MAX,
        ensures
            r == Self::spec_max_index(),
    {
        NO_BYTES * 8 - 1
    }

    /// `Ok` for an index the bytes can hold, an `InvalidIndex` error otherwise.
    fn check_index(index: usize) -> (r: Result<(), BitArrayError>)
        requires
            1 <= NO_BYTES * 8 <= usize::MAX,
        ensures
            index <= Self::spec_max_index() ==> r is Ok,
            index > Self::spec_max_index() ==> r == Err::<(), BitArrayError>(
                BitArrayError::InvalidIndex { index, max_index: Self::spec_max_index() as usize },
            ),
    {
        let max = Self::max_index();
        if index > max {
            return Err(BitArrayError::InvalidIndex { index, max_index: max });
        }
        Ok(())
    }

    /// All bits clear, with `max_index` as the last bit repeated setting reaches; an error
    /// when the bytes cannot hold it.
    pub fn new(max_index: usize) -> (r: Result<BitArray<NO_BYTES>, BitArrayError>)
        requires
            1 <= NO_BYTES * 8 <= usize::MAX,
        ensures
            max_index <= Self::spec_max_index() ==> r is Ok && r->Ok_0.wf() && r->Ok_0.spec_len()
                == max_index && forall|i: int| 0 <= i <= Self::spec_max_index() ==> !#[trigger] r->Ok_0.bit(i),
            max_index > Self::spec_max_index() ==> r == Err::<BitArray<NO_BYTES>, BitArrayError>(
                BitArrayError::InvalidIndex { index: max_index, max_index: Self::spec_max_index() as usize },
            ),
    {
        match Self::check_index(max_index) {
            Err(e) => Err(e),
            Ok(()) => {
                let r = BitArray { bytes: [0u8; NO_BYTES], max_index };
                proof {
                    assert forall|i: int| 0 <= i <= Self::spec_max_index() implies !#[trigger] r.bit(i) by {
                        assert(r.bytes@[i / 8] == 0u8);
                        let k = (i % 8) as u8;
                        assert((0u8 >> k) & 1u8 == 0u8) by (bit_vector);
                    }
                }
                Ok(r)
            },
        }
    }

    /// The last bit repeated setting reaches.
    pub fn len(&self) -> (r: usize)
        ensures
            r == self.spec_len(),
    {
        self.max_index
    }

    /// Bit `index`, or an error when the bytes cannot hold it.
    pub fn get_bit(&self, index: usize) -> (r: Result<bool, BitArrayError>)
        requires
            1 <= NO_BYTES * 8 <= usize::MAX,
        ensures
            index <= Self::spec_max_index() ==> r == Ok::<bool, BitArrayError>(self.bit(index as int)),
            index > Self::spec_max_index() ==> r is Err,
    {
        match Self::check_index(index) {
            Err(e) => Err(e),
            Ok(()) => {
                let byte = self.bytes[index / 8];
                proof {
                    lemma_byte_and(byte, (index % 8) as u8);
                }
                Ok(byte & (1u8 << ((index % 8) as u8)) != 0)
            },
        }
    }

    fn write_bit(&mut self, index: usize, value: bool)
        requires
            1 <= NO_BYTES * 8 <= usize::MAX,
            index <= Self::spec_max_index(),
        ensures
            final(self).spec_len() == old(self).spec_len(),
            forall|i: int| 0 <= i <= Self::spec_max_index() ==> #[trigger] final(self).bit(i) == if i
                == index {
                value
            } else {
                old(self).bit(i)
            },
    {
        let at = index / 8;
        let shift = (index % 8) as u8;
        let byte = self.bytes[at];
        let updated = if value {
            byte | (1u8 << shift)
        } else {
            byte & !(1u8 << shift)
        };
        self.bytes[at] = updated;
        proof {
            assert forall|i: int| 0 <= i <= Self::spec_max_index() implies #[trigger] self.bit(i)
                == if i == index {
                value
            } else {
                old(self).bit(i)
            } by {
                if i / 8 == at {
                    if value {
                        lemma_byte_or(byte, shift, (i % 8) as u8);
                    } else {
                        lemma_byte_and_not(byte, shift, (i % 8) as u8);
                    }
                }
            }
        }
    }

    /// Sets bit `index`, or returns an error when the bytes cannot hold it.
    pub fn set_bit(&mut self, index: usize) -> (r: Result<(), BitArrayError>)
        requires
            1 <= NO_BYTES * 8 <= usize::MAX,
        ensures
            final(self).spec_len() == old(self).spec_len(),
            index <= Self::spec_max_index() ==> r is Ok && forall|i: int| 0 <= i <= Self::spec_max_index()
                ==> #[trigger] final(self).bit(i) == (old(self).bit(i) || i == index),
            index > Self::spec_max_index() ==> r is Err && *final(self) == *old(self),
    {
        match Self::check_index(index) {
            Err(e) => Err(e),
            Ok(()) => {
                self.write_bit(index, true);
                Ok(())
            },
        }
    }

    /// Clears bit `index`, or returns an error when the bytes cannot hold it.
    pub fn unset_bit(&mut self, index: usize) -> (r: Result<(), BitArrayError>)
        requires
            1 <= NO_BYTES * 8 <= usize::MAX,
        ensures
            final(self).spec_len() == old(self).spec_len(),
            index <= Self::spec_max_index() ==> r is Ok && forall|i: int| 0 <= i <= Self::spec_max_index()
                ==> #[trigger] final(self).bit(i) == (old(self).bit(i) && i != index),
            index > Self::spec_max_index() ==> r is Err && *final(self) == *old(self),
    {
        match Self::check_index(index) {
            Err(e) => Err(e),
            Ok(()) => {
                self.write_bit(index, false);
                Ok(())
            },
        }
    }

    /// Sets every bit `first_index + k * interval` up to the last bit repeated setting reaches.
    pub fn set_bit_repeating(&mut self, first_index: usize, interval: usize) -> (r: Result<(), BitArrayError>)
        requires
            1 <= NO_BYTES * 8 <= usize::MAX,
            old(self).wf(),
            interval > 0,
        ensures
            r is Ok,
            final(self).wf(),
            final(self).spec_len() == old(self).spec_len(),
            forall|i: int| 0 <= i <= Self::spec_max_index() ==> #[trigger] final(self).bit(i) == (old(self).bit(i)
                || (first_index <= i <= old(self).spec_len() && (i - first_index) % (interval as int) == 0)),
    {
        self.write_repeating(first_index, interval, true);
        Ok(())
    }

    /// Clears every bit `first_index + k * interval` up to the last bit repeated setting
    /// reaches.
    pub fn unset_bit_repeating(&mut self, first_index: usize, interval: usize)
        requires
            1 <= NO_BYTES * 8 <= usize::MAX,
            old(self).wf(),
            interval > 0,
        ensures
            final(self).wf(),
            final(self).spec_len() == old(self).spec_len(),
            forall|i: int| 0 <= i <= Self::spec_max_index() ==> #[trigger] final(self).bit(i) == (old(self).bit(i)
                && !(first_index <= i <= old(self).spec_len() && (i - first_index) % (interval as int) == 0)),
    {
        self.write_repeating(first_index, interval, false);
    }

    fn write_repeating(&mut self, first_index: usize, interval: usize, value: bool)
        requires
            1 <= NO_BYTES * 8 <= usize::MAX,
            old(self).wf(),
            interval > 0,
        ensures
            final(self).wf(),
            final(self).spec_len() == old(self).spec_len(),
            forall|i: int| 0 <= i <= Self::spec_max_index() ==> #[trigger] final(self).bit(i) == if first_index
                <= i <= old(self).spec_len() && (i - first_index) % (interval as int) == 0 {
                value
            } else {
                old(self).bit(i)
            },
    {
        let last = self.max_index;
        let mut index = first_index;
        proof {
            vstd::arithmetic::div_mod::lemma_small_mod(0nat, interval as nat);
        }
        while index <= last
            invariant
                1 <= NO_BYTES * 8 <= usize::MAX,
                self.wf(),
                last == self.max_index,
                last == old(self).max_index,
                interval > 0,
                first_index <= index,
                (index - first_index) % (interval as int) == 0,
                forall|i: int| 0 <= i <= Self::spec_max_index() ==> #[trigger] self.bit(i) == if first_index
                    <= i < index && i <= last && (i - first_index) % (interval as int) == 0 {
                    value
                } else {
                    old(self).bit(i)
                },
            decreases last + 1 - index,
        {
            let ghost at = index as int;
            let ghost before = *self;
            self.write_bit(index, value);
            if last - index < interval {
                proof {
                    assert forall|i: int| 0 <= i <= Self::spec_max_index() implies #[trigger] self.bit(i)
                        == if first_index <= i <= last && (i - first_index) % (interval as int) == 0 {
                        value
                    } else {
                        old(self).bit(i)
                    } by {
                        if first_index <= i <= last && (i - first_index) % (interval as int) == 0 && i > at {
                            lemma_multiples_apart(i - first_index, at - first_index, interval as int);
                        }
                    }
                }
                return;
            }
            index = index + interval;
            proof {
                vstd::arithmetic::div_mod::lemma_mod_adds(at - first_index, interval as int, interval as int);
                vstd::arithmetic::div_mod::lemma_mod_self_0(interval as int);
                assert forall|i: int| 0 <= i <= Self::spec_max_index() implies #[trigger] self.bit(i)
                    == if first_index <= i < index && i <= last && (i - first_index) % (interval as int) == 0 {
                    value
                } else {
                    old(self).bit(i)
                } by {
                    if first_index <= i < index && (i - first_index) % (interval as int) == 0 && i > at {
                        lemma_multiples_apart(i - first_index, at - first_index, interval as int);
                    }
                }
            }
        }
    }
}

impl<const NO_BYTES: usize> BitArray<NO_BYTES> {
    /// All bits clear, with the last bit the bytes can hold left out of repeated setting.
    pub fn default_array() -> (r: BitArray<NO_BYTES>)
        requires
            2 <= NO_BYTES * 8 <= usize::MAX,
        ensures
            r.wf(),
            r.spec_len() == Self::spec_max_index() - 1,
    {
        let max = Self::max_index();
        BitArray { bytes: [0u8; NO_BYTES], max_index: max - 1 }
    }
}

} // verus!
