//! Bitmaps with the least significant bit first.
use vstd::prelude::*;

verus! {

/// Bit `k` of a byte, counted from the least significant.
pub open spec fn bit_of(b: u8, k: int) -> bool {
    (b >> (k as u8)) & 1u8 == 1u8
}

/// Bit `i` of a bitmap, least significant bit of each byte first.
pub open spec fn bit_at(bytes: Seq<u8>, i: int) -> bool {
    bit_of(bytes[i / 8], i % 8)
}

/// Sets bit `i` of `byte`.
pub fn set(byte: u8, i: usize) -> (r: u8)
    requires
        i < 8,
    ensures
        r == byte | (1u8 << (i as u8)),
{
    byte | (1u8 << (i as u8))
}

proof fn lemma_set_bit(b: u8, j: u8, k: u8)
    requires
        j < 8,
        k < 8,
    ensures
        k == j ==> bit_of(b | (1u8 << j), k as int),
        k != j ==> bit_of(b | (1u8 << j), k as int) == bit_of(b, k as int),
{
    assert(j < 8 && k < 8 && k == j ==> ((b | (1u8 << j)) >> k) & 1u8 == 1u8) by (bit_vector);
    assert(j < 8 && k < 8 && k != j ==> ((b | (1u8 << j)) >> k) & 1u8 == (b >> k) & 1u8) by (bit_vector);
}

/// The bits `offset .. offset + len` of a bitmap, one at a time.
pub struct BitmapIter<'a> {
    bytes: &'a [u8],
    offset: usize,
    len: usize,
    index: usize,
}

impl<'a> BitmapIter<'a> {
    /// The bitmap read.
    pub closed spec fn bytes(&self) -> Seq<u8> {
        self.bytes@
    }

    /// The position of the first bit.
    pub closed spec fn offset(&self) -> nat {
        self.offset as nat
    }

    /// How many bits the iterator yields in all.
    pub closed spec fn len(&self) -> nat {
        self.len as nat
    }

    /// How many bits it has yielded.
    pub closed spec fn index(&self) -> nat {
        self.index as nat
    }

    #[verifier::type_invariant]
    spec fn inv(&self) -> bool {
        self.index <= self.len && self.offset + self.len <= 8 * self.bytes@.len() && self.offset + self.len
            <= usize::MAX
    }

    /// An iterator over `len` bits of `slice` from bit `offset`.
    pub fn new(slice: &'a [u8], offset: usize, len: usize) -> (r: Self)
        requires
            offset + len <= 8 * slice@.len(),
            offset + len <= usize::MAX,
        ensures
            r.bytes() == slice@,
            r.offset() == offset,
            r.len() == len,
            r.index() == 0,
    {
        BitmapIter { bytes: slice, offset, len, index: 0 }
    }

    /// The next bit, or `None` once `len` bits have been yielded.
    pub fn next(&mut self) -> (r: Option<bool>)
        ensures
            final(self).bytes() == old(self).bytes(),
            final(self).offset() == old(self).offset(),
            final(self).len() == old(self).len(),
            old(self).index() < old(self).len() ==> r == Some(
                bit_at(old(self).bytes(), (old(self).offset() + old(self).index()) as int),
            ) && final(self).index() == old(self).index() + 1,
            old(self).index() >= old(self).len() ==> r is None && final(self).index() == old(self).index(),
    {
        proof { use_type_invariant(&*self); }
        if self.index >= self.len {
            return None;
        }
        let i = self.offset + self.index;
        let byte = self.bytes[i / 8];
        let value = (byte >> ((i % 8) as u8)) & 1u8 == 1u8;
        self.index = self.index + 1;
        Some(value)
    }

    /// How many bits are left.
    pub fn remaining(&self) -> (r: usize)
        ensures
            r == self.len() - self.index(),
    {
        proof { use_type_invariant(self); }
        self.len - self.index
    }
}

/// The bitmap of `values`, least significant bit first: `(n + 7) / 8` bytes
/// whose bits past the values are zero.
pub open spec fn is_bitmap_of(bytes: Seq<u8>, values: Seq<bool>) -> bool {
    &&& bytes.len() == (values.len() + 7) / 8
    &&& forall|i: int| 0 <= i < values.len() ==> bit_at(bytes, i) == values[i]
    &&& forall|i: int| values.len() <= i < 8 * bytes.len() ==> !bit_at(bytes, i)
}

/// Appends the bitmap of `values` to `writer`.
pub fn encode_bool(writer: &mut Vec<u8>, values: &[bool])
    ensures
        final(writer)@.subrange(0, old(writer)@.len() as int) == old(writer)@,
        is_bitmap_of(final(writer)@.subrange(old(writer)@.len() as int, final(writer)@.len() as int), values@),
{
    let n = values.len();
    let chunks = n / 8 + if n % 8 == 0 { 0 } else { 1 };
    let ghost w0 = writer@.len() as int;
    let mut c: usize = 0;
    while c < chunks
        invariant
            chunks == (n + 7) / 8,
            n == values@.len(),
            c <= chunks,
            writer@.len() == w0 + c,
            writer@.subrange(0, w0) == old(writer)@,
            w0 == old(writer)@.len(),
            forall|i: int| 0 <= i < 8 * c && i < n ==> bit_at(#[trigger] writer@.subrange(w0, writer@.len() as int), i) == values@[i],
            forall|i: int| n <= i < 8 * c ==> !bit_at(#[trigger] writer@.subrange(w0, writer@.len() as int), i),
        decreases chunks - c,
    {
        let mut byte: u8 = 0;
        assert forall|k: int| 0 <= k < 8 implies !#[trigger] bit_of(0u8, k) by {
            let kk = k as u8;
            assert((0u8 >> kk) & 1u8 == 0u8) by (bit_vector);
        }
        let mut j: usize = 0;
        while j < 8
            invariant
                j <= 8,
                c < chunks,
                chunks == (n + 7) / 8,
                n == values@.len(),
                forall|k: int| 0 <= k < j && 8 * c + k < n ==> #[trigger] bit_of(byte, k) == values@[8 * c + k],
                forall|k: int| 0 <= k < 8 && (k >= j || 8 * c + k >= n) ==> !#[trigger] bit_of(byte, k),
            decreases 8 - j,
        {
            if 8 * c + j < n && values[8 * c + j] {
                let nb = set(byte, j);
                proof {
                    assert forall|k: int| 0 <= k < 8 implies (k != j ==> #[trigger] bit_of(nb, k) == bit_of(byte, k))
                        && (k == j ==> bit_of(nb, k)) by {
                        lemma_set_bit(byte, j as u8, k as u8);
                    }
                }
                byte = nb;
            }
            j = j + 1;
        }
        let ghost before = writer@;
        writer.push(byte);
        c = c + 1;
        proof {
            let s = writer@.subrange(w0, writer@.len() as int);
            let t = before.subrange(w0, before.len() as int);
            assert(writer@.subrange(0, w0) =~= before.subrange(0, w0));
            assert forall|i: int| 0 <= i < 8 * c && i < n implies bit_at(#[trigger] writer@.subrange(w0, writer@.len() as int), i)
                == values@[i] by {
                if i < 8 * (c - 1) {
                    assert(s[i / 8] == t[i / 8]);
                } else {
                    assert(i / 8 == c - 1);
                    assert(s[i / 8] == byte);
                    let k = i - 8 * (c - 1);
                    assert(i % 8 == k);
                }
            }
            assert forall|i: int| n <= i < 8 * c implies !bit_at(#[trigger] writer@.subrange(w0, writer@.len() as int), i) by {
                if i < 8 * (c - 1) {
                    assert(s[i / 8] == t[i / 8]);
                } else {
                    assert(i / 8 == c - 1);
                    assert(s[i / 8] == byte);
                    let k = i - 8 * (c - 1);
                    assert(i % 8 == k);
                }
            }
        }
    }
}

} // verus!
