//! Software device: a byte-addressed backing store standing in for the
//! physical accelerator's memory, with an optional stuck-bit fault. A fault
//! at byte `offset`, bit `bit` silently flips that bit on every write to
//! the byte, the way a bad memory cell would; the exerciser then sees the
//! flip on readback.

use vstd::prelude::*;

verus! {

/// A single faulty cell: every write to byte `offset` lands with bit `bit`
/// inverted.
#[derive(Clone, Copy, Debug, PartialEq, Eq, Structural)]
pub struct BitFault {
    pub offset: usize,
    pub bit: u8,
}

/// Byte `j` (little-endian) of a 32-bit pattern word.
pub open spec fn word_byte(w: u32, j: int) -> u8 {
    if j == 0 {
        (w & 0xff) as u8
    } else if j == 1 {
        ((w >> 8) & 0xff) as u8
    } else if j == 2 {
        ((w >> 16) & 0xff) as u8
    } else {
        ((w >> 24) & 0xff) as u8
    }
}

/// What a write of `v` to absolute byte `addr` actually stores, given the
/// device's fault.
pub open spec fn flip_byte(v: u8, fault: Option<BitFault>, addr: int) -> u8 {
    match fault {
        Some(f) => if f.offset == addr {
            v ^ (1u8 << f.bit)
        } else {
            v
        },
        None => v,
    }
}

/// The 32-bit word formed from four bytes, little-endian.
pub open spec fn assemble_word(b0: u8, b1: u8, b2: u8, b3: u8) -> u32 {
    (b0 as u32) | ((b1 as u32) << 8) | ((b2 as u32) << 16) | ((b3 as u32) << 24)
}

/// The word stored at absolute byte address `addr`.
pub open spec fn word_at(mem: Seq<u8>, addr: int) -> u32 {
    assemble_word(mem[addr], mem[addr + 1], mem[addr + 2], mem[addr + 3])
}

/// The single-bit word mask for a fault in byte `j` of a word, bit `bit`.
pub open spec fn word_mask(j: int, bit: u8) -> u32 {
    if j == 0 {
        1u32 << (bit as u32)
    } else if j == 1 {
        1u32 << ((bit + 8) as u32)
    } else if j == 2 {
        1u32 << ((bit + 16) as u32)
    } else {
        1u32 << ((bit + 24) as u32)
    }
}

/// Reassembling the four little-endian bytes of a word gives the word back.
pub proof fn lemma_word_roundtrip(w: u32)
    ensures
        assemble_word(word_byte(w, 0), word_byte(w, 1), word_byte(w, 2), word_byte(w, 3)) == w,
{
    assert(((w & 0xff) as u8 as u32) | ((((w >> 8) & 0xff) as u8 as u32) << 8) | ((((w >> 16)
        & 0xff) as u8 as u32) << 16) | ((((w >> 24) & 0xff) as u8 as u32) << 24) == w)
        by (bit_vector);
}

/// A word reassembled with exactly one byte's bit flipped differs from the
/// original in exactly that bit of the word — in particular it differs.
pub proof fn lemma_word_flip(w: u32, j: int, bit: u8)
    requires
        0 <= j < 4,
        bit < 8,
    ensures
        ({
            let b0 = if j == 0 { word_byte(w, 0) ^ (1u8 << bit) } else { word_byte(w, 0) };
            let b1 = if j == 1 { word_byte(w, 1) ^ (1u8 << bit) } else { word_byte(w, 1) };
            let b2 = if j == 2 { word_byte(w, 2) ^ (1u8 << bit) } else { word_byte(w, 2) };
            let b3 = if j == 3 { word_byte(w, 3) ^ (1u8 << bit) } else { word_byte(w, 3) };
            assemble_word(b0, b1, b2, b3) == (w ^ word_mask(j, bit)) && (w ^ word_mask(j, bit))
                != w
        }),
{
    if j == 0 {
        assert(((((w & 0xff) as u8) ^ (1u8 << bit)) as u32) | ((((w >> 8) & 0xff) as u8 as u32)
            << 8) | ((((w >> 16) & 0xff) as u8 as u32) << 16) | ((((w >> 24) & 0xff) as u8 as u32)
            << 24) == (w ^ (1u32 << (bit as u32))) && (w ^ (1u32 << (bit as u32))) != w)
            by (bit_vector)
            requires
                bit < 8,
        ;
    } else if j == 1 {
        assert(((w & 0xff) as u8 as u32) | (((((w >> 8) & 0xff) as u8 ^ (1u8 << bit)) as u32)
            << 8) | ((((w >> 16) & 0xff) as u8 as u32) << 16) | ((((w >> 24) & 0xff) as u8 as u32)
            << 24) == (w ^ (1u32 << ((bit + 8) as u32))) && (w ^ (1u32 << ((bit + 8) as u32)))
            != w) by (bit_vector)
            requires
                bit < 8,
        ;
    } else if j == 2 {
        assert(((w & 0xff) as u8 as u32) | ((((w >> 8) & 0xff) as u8 as u32) << 8) | (((((w >> 16)
            & 0xff) as u8 ^ (1u8 << bit)) as u32) << 16) | ((((w >> 24) & 0xff) as u8 as u32)
            << 24) == (w ^ (1u32 << ((bit + 16) as u32))) && (w ^ (1u32 << ((bit + 16) as u32)))
            != w) by (bit_vector)
            requires
                bit < 8,
        ;
    } else {
        assert(((w & 0xff) as u8 as u32) | ((((w >> 8) & 0xff) as u8 as u32) << 8) | ((((w >> 16)
            & 0xff) as u8 as u32) << 16) | (((((w >> 24) & 0xff) as u8 ^ (1u8 << bit)) as u32)
            << 24) == (w ^ (1u32 << ((bit + 24) as u32))) && (w ^ (1u32 << ((bit + 24) as u32)))
            != w) by (bit_vector)
            requires
                bit < 8,
        ;
    }
}

/// The software backing store: linear byte memory plus at most one faulty
/// cell.
pub struct MockDevice {
    memory: Vec<u8>,
    fault: Option<BitFault>,
}

impl MockDevice {
    /// The store's contents.
    pub closed spec fn mem(&self) -> Seq<u8> {
        self.memory@
    }

    /// The injected fault, if any.
    pub closed spec fn fault_state(&self) -> Option<BitFault> {
        self.fault
    }

    /// The fault, when present, names a bit within its byte.
    pub open spec fn fault_ok(&self) -> bool {
        self.fault_state() matches Some(f) ==> f.bit < 8
    }

    /// A fault-free device of `size` zeroed bytes.
    pub fn new(size: usize) -> (r: Self)
        ensures
            r.mem().len() == size,
            forall|i: int| 0 <= i < size ==> r.mem()[i] == 0,
            r.fault_state() is None,
            r.fault_ok(),
    {
        let mut memory: Vec<u8> = Vec::new();
        let mut i: usize = 0;
        while i < size
            invariant
                i <= size,
                memory@.len() == i,
                forall|j: int| 0 <= j < i ==> memory@[j] == 0,
            decreases size - i,
        {
            memory.push(0);
            i += 1;
        }
        MockDevice { memory, fault: None }
    }

    pub fn size(&self) -> (n: usize)
        ensures
            n == self.mem().len(),
    {
        self.memory.len()
    }

    /// Makes the cell at byte `offset`, bit `bit` faulty: every later write
    /// to that byte lands with the bit inverted.
    pub fn inject_fault(&mut self, offset: usize, bit: u8)
        requires
            bit < 8,
        ensures
            final(self).mem() == old(self).mem(),
            final(self).fault_state() == Some(BitFault { offset, bit }),
            final(self).fault_ok(),
    {
        self.fault = Some(BitFault { offset, bit });
    }

    /// Writes the 32-bit pattern word across `[base, base + len)`,
    /// little-endian, repeating every four bytes; each byte lands through
    /// the fault model. Nothing outside the range changes.
    pub fn fill(&mut self, base: usize, len: usize, pattern: u32)
        requires
            old(self).fault_ok(),
            base + len <= old(self).mem().len(),
        ensures
            final(self).mem().len() == old(self).mem().len(),
            final(self).fault_state() == old(self).fault_state(),
            final(self).fault_ok(),
            forall|j: int|
                base <= j < base + len ==> #[trigger] final(self).mem()[j] == flip_byte(
                    word_byte(pattern, (j - base) % 4),
                    old(self).fault_state(),
                    j,
                ),
            forall|j: int|
                0 <= j < old(self).mem().len() && !(base <= j < base + len) ==> #[trigger] final(self).mem()[j]
                    == old(self).mem()[j],
    {
        let fault = self.fault;
        let total = self.memory.len();
        let mut i: usize = 0;
        while i < len
            invariant
                i <= len,
                total == self.mem().len(),
                base + len <= total,
                base + len <= self.mem().len(),
                self.mem().len() == old(self).mem().len(),
                self.fault_state() == old(self).fault_state(),
                fault == old(self).fault_state(),
                old(self).fault_ok(),
                forall|j: int|
                    base <= j < base + i ==> #[trigger] self.mem()[j] == flip_byte(
                        word_byte(pattern, (j - base) % 4),
                        old(self).fault_state(),
                        j,
                    ),
                forall|j: int|
                    0 <= j < old(self).mem().len() && !(base <= j < base + i) ==> #[trigger] self.mem()[j]
                        == old(self).mem()[j],
            decreases len - i,
        {
            proof {
                assert(pattern & 0xff < 256 && (pattern >> 8) & 0xff < 256 && (pattern >> 16)
                    & 0xff < 256 && (pattern >> 24) & 0xff < 256) by (bit_vector);
            }
            let rem = i % 4;
            let mut v: u8 = if rem == 0 {
                (pattern & 0xff) as u8
            } else if rem == 1 {
                ((pattern >> 8) & 0xff) as u8
            } else if rem == 2 {
                ((pattern >> 16) & 0xff) as u8
            } else {
                ((pattern >> 24) & 0xff) as u8
            };
            proof {
                assert(v == word_byte(pattern, ((base + i - base) as int) % 4));
            }
            if let Some(f) = fault {
                if f.offset == base + i {
                    v = v ^ (1u8 << f.bit);
                }
            }
            self.memory[base + i] = v;
            i += 1;
        }
    }

    /// The word stored at absolute byte address `addr`, little-endian.
    pub fn read_word(&self, addr: usize) -> (r: u32)
        requires
            addr + 4 <= self.mem().len(),
        ensures
            r == word_at(self.mem(), addr as int),
    {
        let total = self.memory.len();
        let b0 = self.memory[addr] as u32;
        let b1 = self.memory[addr + 1] as u32;
        let b2 = self.memory[addr + 2] as u32;
        let b3 = self.memory[addr + 3] as u32;
        b0 | (b1 << 8) | (b2 << 16) | (b3 << 24)
    }
}

} // verus!
