use vstd::prelude::*;

verus! {

/// Whether bit `offset` (0 = least significant) of `byte` is set.
pub open spec fn bit_of(byte: u8, offset: u8) -> bool {
    byte & (1u8 << offset) != 0
}

/// Number of bytes needed to hold `bits` bits: the ceiling of `bits / 8`.
pub open spec fn bytes_for_bits(bits: nat) -> nat {
    if bits % 8 == 0 {
        bits / 8
    } else {
        bits / 8 + 1
    }
}

/// Byte index and bit offset that address bit `idx`.
pub fn read_bit_coordinates(idx: usize) -> (r: (usize, usize))
    ensures
        r.0 == idx / 8,
        r.1 == idx % 8,
{
    (idx / 8, idx % 8)
}

/// Number of bytes that a storage of `total_bits` bits allocates.
pub fn calculate_storage_capacity_based_on_total_bits(total_bits: usize) -> (r: usize)
    ensures
        r == bytes_for_bits(total_bits as nat),
{
    if total_bits % 8 == 0 {
        total_bits / 8
    } else {
        total_bits / 8 + 1
    }
}

proof fn lemma_set_bit(b: u8, off: u8, other: u8)
    requires
        off < 8,
        other < 8,
    ensures
        bit_of(b | (1u8 << off), other) == (other == off || bit_of(b, other)),
        bit_of(b, off) ==> b | (1u8 << off) == b,
{
    assert((b | (1u8 << off)) & (1u8 << other) != 0 <==> (other == off || b & (1u8 << other)
        != 0)) by (bit_vector)
        requires
            off < 8,
            other < 8,
    ;
    assert(b & (1u8 << off) != 0 ==> b | (1u8 << off) == b) by (bit_vector)
        requires
            off < 8,
    ;
}

proof fn lemma_byte_from_bits(x: u8, y: u8)
    requires
        forall|o: u8| o < 8 ==> bit_of(x, o) == bit_of(y, o),
    ensures
        x == y,
{
    let b0 = bit_of(x, 0);
    let b1 = bit_of(x, 1);
    let b2 = bit_of(x, 2);
    let b3 = bit_of(x, 3);
    let b4 = bit_of(x, 4);
    let b5 = bit_of(x, 5);
    let b6 = bit_of(x, 6);
    let b7 = bit_of(x, 7);
    assert(b0 == bit_of(y, 0) && b1 == bit_of(y, 1) && b2 == bit_of(y, 2) && b3 == bit_of(y, 3));
    assert(b4 == bit_of(y, 4) && b5 == bit_of(y, 5) && b6 == bit_of(y, 6) && b7 == bit_of(y, 7));
    assert(x == y) by (bit_vector)
        requires
            (x & (1u8 << 0u8) != 0) == (y & (1u8 << 0u8) != 0),
            (x & (1u8 << 1u8) != 0) == (y & (1u8 << 1u8) != 0),
            (x & (1u8 << 2u8) != 0) == (y & (1u8 << 2u8) != 0),
            (x & (1u8 << 3u8) != 0) == (y & (1u8 << 3u8) != 0),
            (x & (1u8 << 4u8) != 0) == (y & (1u8 << 4u8) != 0),
            (x & (1u8 << 5u8) != 0) == (y & (1u8 << 5u8) != 0),
            (x & (1u8 << 6u8) != 0) == (y & (1u8 << 6u8) != 0),
            (x & (1u8 << 7u8) != 0) == (y & (1u8 << 7u8) != 0),
    ;
}

proof fn lemma_zero_byte(off: u8)
    requires
        off < 8,
    ensures
        !bit_of(0u8, off),
{
    assert(0u8 & (1u8 << off) == 0) by (bit_vector);
}

/// A packed array of bits, eight to a byte; bit `i` lives in byte `i / 8`
/// under the mask `1 << (i % 8)`.
pub struct Storage {
    bytes: Vec<u8>,
    total_bits: usize,
}

impl View for Storage {
    type V = Seq<bool>;

    closed spec fn view(&self) -> Seq<bool> {
        Seq::new(
            self.total_bits as nat,
            |i: int| bit_of(self.bytes@[i / 8], (i % 8) as u8),
        )
    }
}

impl Storage {
    /// The packed bytes.
    pub closed spec fn bytes(&self) -> Seq<u8> {
        self.bytes@
    }

    pub closed spec fn wf(&self) -> bool {
        &&& self.total_bits > 0
        &&& self.bytes@.len() == bytes_for_bits(self.total_bits as nat)
        &&& forall|j: int|
            self.total_bits <= j < 8 * self.bytes@.len() ==> !#[trigger] bit_of(
                self.bytes@[j / 8],
                (j % 8) as u8,
            )
    }

    /// How bits and bytes correspond: bit `j` is bit `j % 8` of byte `j / 8`,
    /// and the bytes are `ceil(m / 8)` in number.
    pub proof fn lemma_layout(&self)
        requires
            self.wf(),
        ensures
            self@.len() > 0,
            self.bytes().len() == bytes_for_bits(self@.len()),
            forall|j: int| 0 <= j < self@.len() ==> #[trigger] self@[j] == bit_of(self.bytes()[j / 8], (j % 8) as u8),
    {
    }

    /// Two storages with the same bits hold the same bytes: the bits past the
    /// last one are always clear.
    pub proof fn lemma_bytes_follow_bits(a: &Storage, b: &Storage)
        requires
            a.wf(),
            b.wf(),
            a@ == b@,
        ensures
            a.bytes() == b.bytes(),
    {
        assert(a@.len() == a.total_bits as nat);
        assert(b@.len() == b.total_bits as nat);
        assert(a.total_bits == b.total_bits);
        assert(a.bytes@.len() == b.bytes@.len());
        assert forall|i: int| 0 <= i < a.bytes@.len() implies #[trigger] a.bytes@[i] == b.bytes@[i] by {
            let x = a.bytes@[i];
            let y = b.bytes@[i];
            assert forall|o: u8| o < 8 implies bit_of(x, o) == bit_of(y, o) by {
                let j = 8 * i + o as int;
                assert(j / 8 == i && j % 8 == o as int);
                if j < a.total_bits {
                    assert(a@[j] == bit_of(a.bytes@[j / 8], (j % 8) as u8));
                    assert(b@[j] == bit_of(b.bytes@[j / 8], (j % 8) as u8));
                    assert(a@[j] == b@[j]);
                } else {
                    assert(j < 8 * a.bytes@.len());
                    assert(!bit_of(a.bytes@[j / 8], (j % 8) as u8));
                    assert(!bit_of(b.bytes@[j / 8], (j % 8) as u8));
                }
            }
            lemma_byte_from_bits(x, y);
        }
        assert(a.bytes@ =~= b.bytes@);
    }

    /// A storage of `total_bits` bits, all clear; zero bits is refused.
    pub fn try_from(total_bits: usize) -> (r: Result<Storage, &'static str>)
        ensures
            r is Err <==> total_bits == 0,
            r matches Ok(s) ==> {
                &&& s.wf()
                &&& s@ == Seq::new(total_bits as nat, |i: int| false)
                &&& s.bytes() == Seq::new(bytes_for_bits(total_bits as nat), |i: int| 0u8)
            },
    {
        if total_bits == 0 {
            return Err("Total bits must be positive");
        }
        let capacity = calculate_storage_capacity_based_on_total_bits(total_bits);
        let mut bytes: Vec<u8> = Vec::new();
        while bytes.len() < capacity
            invariant
                bytes@.len() <= capacity,
                forall|j: int| 0 <= j < bytes@.len() ==> bytes@[j] == 0u8,
            decreases capacity - bytes@.len(),
        {
            bytes.push(0u8);
        }
        let s = Storage { bytes, total_bits };
        proof {
            assert forall|i: int| 0 <= i < total_bits implies !#[trigger] s@[i] by {
                lemma_zero_byte((i % 8) as u8);
            }
            assert forall|j: int| total_bits <= j < 8 * s.bytes@.len() implies !#[trigger] bit_of(
                s.bytes@[j / 8],
                (j % 8) as u8,
            ) by {
                lemma_zero_byte((j % 8) as u8);
            }
            assert(s@ =~= Seq::new(total_bits as nat, |i: int| false));
            assert(s.bytes() =~= Seq::new(bytes_for_bits(total_bits as nat), |i: int| 0u8));
        }
        Ok(s)
    }

    /// Sets bit `idx`; returns whether it was clear before.
    pub fn write_bit_at(&mut self, idx: usize) -> (r: bool)
        requires
            old(self).wf(),
            idx < old(self)@.len(),
        ensures
            final(self).wf(),
            final(self)@ == old(self)@.update(idx as int, true),
            r == !old(self)@[idx as int],
            !r ==> final(self).bytes() == old(self).bytes(),
            final(self).bytes().len() == old(self).bytes().len(),
    {
        let (element, bits) = read_bit_coordinates(idx);
        let mask: u8 = 1u8 << (bits as u8);
        let entry = self.bytes[element];
        proof {
            lemma_set_bit(entry, bits as u8, bits as u8);
        }
        if entry & mask != 0 {
            return false;
        }
        self.bytes.set(element, entry | mask);
        proof {
            assert forall|i: int| 0 <= i < self.total_bits implies #[trigger] self@[i] == old(
                self,
            )@.update(idx as int, true)[i] by {
                lemma_set_bit(entry, bits as u8, (i % 8) as u8);
            }
            assert(self@ =~= old(self)@.update(idx as int, true));
            assert forall|j: int| self.total_bits <= j < 8 * self.bytes@.len() implies !#[trigger] bit_of(
                self.bytes@[j / 8],
                (j % 8) as u8,
            ) by {
                lemma_set_bit(entry, bits as u8, (j % 8) as u8);
                assert(!bit_of(old(self).bytes@[j / 8], (j % 8) as u8));
            }
        }
        true
    }

    /// The masked byte that holds bit `idx`: non-zero exactly when the bit is set.
    pub fn read_bit_at(&self, idx: usize) -> (r: u8)
        requires
            self.wf(),
            idx < self@.len(),
        ensures
            r == self.bytes()[(idx / 8) as int] & (1u8 << (idx % 8) as u8),
            (r != 0) == self@[idx as int],
    {
        let (element, bits) = read_bit_coordinates(idx);
        self.bytes[element] & (1u8 << (bits as u8))
    }
}

} // verus!
