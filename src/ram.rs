use vstd::prelude::*;

verus! {

/// Number of addressable bytes.
pub const MEMORY_SIZE: usize = 4096;

/// The machine's byte-addressed memory.
pub struct RAM {
    memory: [u8; 4096],
}

impl View for RAM {
    type V = Seq<u8>;

    closed spec fn view(&self) -> Seq<u8> {
        self.memory@
    }
}

/// A sequence of `n` zero bytes.
pub open spec fn zeros(n: nat) -> Seq<u8> {
    Seq::new(n, |_i: int| 0u8)
}

/// The big-endian word formed by two bytes.
pub open spec fn word(hi: u8, lo: u8) -> u16 {
    (hi as int * 256 + lo as int) as u16
}

impl Default for RAM {
    fn default() -> (r: RAM)
        ensures
            r@ == zeros(4096),
    {
        RAM::new()
    }
}

impl RAM {
    /// Memory always holds exactly `MEMORY_SIZE` bytes.
    pub proof fn lemma_size(&self)
        ensures
            self@.len() == 4096,
    {
    }

    pub fn new() -> (r: RAM)
        ensures
            r@ == zeros(4096),
    {
        let r = RAM { memory: [0u8; 4096] };
        assert(r@ =~= zeros(4096));
        r
    }

    /// Sets every byte to zero.
    pub fn reset(&mut self)
        ensures
            final(self)@ == zeros(4096),
    {
        let mut i: usize = 0;
        while i < MEMORY_SIZE
            invariant
                i <= MEMORY_SIZE,
                self@.len() == 4096,
                forall|j: int| 0 <= j < i ==> self@[j] == 0,
            decreases MEMORY_SIZE - i,
        {
            self.memory[i] = 0;
            i = i + 1;
        }
        assert(self@ =~= zeros(4096));
    }

    /// Copies `buffer` into memory starting at `addr`.
    pub fn write(&mut self, addr: u16, buffer: &[u8])
        requires
            addr as int + buffer@.len() <= 4096,
        ensures
            final(self)@ == old(self)@.subrange(0, addr as int) + buffer@ + old(self)@.subrange(
                addr as int + buffer@.len(),
                4096,
            ),
    {
        let start = addr as usize;
        let mut i: usize = 0;
        while i < buffer.len()
            invariant
                start == addr as usize,
                start + buffer@.len() <= 4096,
                i <= buffer@.len(),
                self@.len() == 4096,
                forall|j: int| 0 <= j < start ==> self@[j] == old(self)@[j],
                forall|j: int| start + buffer@.len() <= j < 4096 ==> self@[j] == old(self)@[j],
                forall|j: int| 0 <= j < i ==> self@[start + j] == buffer@[j],
                forall|j: int| start + i <= j < start + buffer@.len() ==> self@[j] == old(self)@[j],
            decreases buffer@.len() - i,
        {
            self.memory[start + i] = buffer[i];
            i = i + 1;
        }
        assert(self@ =~= old(self)@.subrange(0, addr as int) + buffer@ + old(self)@.subrange(
            addr as int + buffer@.len(),
            4096,
        ));
    }

    /// Fills `buffer` with the bytes of memory starting at `addr`.
    pub fn read(&self, addr: u16, buffer: &mut [u8])
        requires
            addr as int + old(buffer)@.len() <= 4096,
        ensures
            final(buffer)@ == self@.subrange(addr as int, addr as int + old(buffer)@.len()),
    {
        let start = addr as usize;
        let mut i: usize = 0;
        while i < buffer.len()
            invariant
                start == addr as usize,
                buffer@.len() == old(buffer)@.len(),
                start + buffer@.len() <= 4096,
                i <= buffer@.len(),
                self@.len() == 4096,
                forall|j: int| 0 <= j < i ==> buffer@[j] == self@[start + j],
            decreases buffer@.len() - i,
        {
            buffer[i] = self.memory[start + i];
            i = i + 1;
        }
        assert(buffer@ =~= self@.subrange(addr as int, addr as int + old(buffer)@.len()));
    }

    pub fn write8(&mut self, addr: u16, val: u8)
        requires
            addr < 4096,
        ensures
            final(self)@ == old(self)@.update(addr as int, val),
    {
        self.memory[addr as usize] = val;
    }

    /// Stores `val` big-endian at `addr` and `addr + 1`.
    pub fn write16(&mut self, addr: u16, val: u16)
        requires
            addr < 4095,
        ensures
            final(self)@ == old(self)@.update(addr as int, (val / 256) as u8).update(
                addr + 1,
                (val % 256) as u8,
            ),
    {
        self.write8(addr, (val >> 8) as u8);
        self.write8(addr + 1, val as u8);
        assert((val >> 8) as u8 == (val / 256) as u8) by (bit_vector);
        assert(val as u8 == (val % 256) as u8) by (bit_vector);
    }

    pub fn read8(&self, addr: u16) -> (r: u8)
        requires
            addr < 4096,
        ensures
            r == self@[addr as int],
    {
        self.memory[addr as usize]
    }

    /// Reads the big-endian word at `addr` and `addr + 1`.
    pub fn read16(&self, addr: u16) -> (r: u16)
        requires
            addr < 4095,
        ensures
            r == word(self@[addr as int], self@[addr + 1]),
    {
        let hi = self.memory[addr as usize];
        let lo = self.memory[addr as usize + 1];
        let r = ((hi as u16) << 8) | (lo as u16);
        assert(((hi as u16) << 8) | (lo as u16) == (hi as u16) * 256 + (lo as u16)) by (bit_vector);
        r
    }
}

} // verus!
