//! Guest memory: the emulated 32-bit address space.
//!
//! The address space is one flat run of bytes. Its first page is never
//! mapped, so that address 0 can stand for "no object". Every access is
//! checked: one that leaves the mapped range, or a word access that is not
//! word-aligned, fails and changes nothing. Blocks are handed out from the
//! lowest address never used before and come zeroed.

use vstd::prelude::*;
use std::collections::HashMap;

verus! {

broadcast use vstd::std_specs::hash::group_hash_axioms;

/// An offset into guest memory. Not a host pointer.
pub type GuestAddress = u32;

/// The size of the unmapped page at address 0.
pub const NULL_PAGE_SIZE: u32 = 0x1000;

/// The size of a guest word, and the alignment of words and blocks.
pub const WORD_SIZE: u32 = 4;

/// Why a guest memory operation failed.
#[derive(Copy, Clone, Debug, PartialEq, Eq, Structural)]
pub enum MemError {
    /// The access touches the null page or lies beyond the end of memory.
    OutOfBounds,
    /// A word access at an address that is no multiple of the word size.
    Misaligned,
    /// No room is left for a block of the size asked for.
    OutOfMemory,
    /// The address is not that of a live block.
    NotAllocated,
}

/// The four bytes of `v`, least significant first.
pub open spec fn word_bytes(v: u32) -> Seq<u8> {
    seq![
        (v % 0x100) as u8,
        (v / 0x100 % 0x100) as u8,
        (v / 0x1_0000 % 0x100) as u8,
        (v / 0x100_0000) as u8,
    ]
}

/// The word whose four bytes, least significant first, start `bytes`.
pub open spec fn word_of(bytes: Seq<u8>) -> u32 {
    (bytes[0] + bytes[1] * 0x100 + bytes[2] * 0x1_0000 + bytes[3] * 0x100_0000) as u32
}

/// A word is read back from its bytes.
pub proof fn lemma_word_of_bytes(v: u32)
    ensures
        word_bytes(v).len() == 4,
        word_of(word_bytes(v)) == v,
{
}

/// Four bytes are read back from their word.
pub proof fn lemma_bytes_of_word(bytes: Seq<u8>)
    requires
        bytes.len() == 4,
    ensures
        word_bytes(word_of(bytes)) == bytes,
{
    let (b0, b1, b2, b3) = (bytes[0] as int, bytes[1] as int, bytes[2] as int, bytes[3] as int);
    let v = b0 + b1 * 0x100 + b2 * 0x1_0000 + b3 * 0x100_0000;
    assert(v % 0x100 == b0 && v / 0x100 % 0x100 == b1 && v / 0x1_0000 % 0x100 == b2 && v
        / 0x100_0000 == b3) by (nonlinear_arith)
        requires
            v == b0 + b1 * 0x100 + b2 * 0x1_0000 + b3 * 0x100_0000,
            0 <= b0 < 0x100,
            0 <= b1 < 0x100,
            0 <= b2 < 0x100,
            0 <= b3 < 0x100,
    ;
    assert(word_bytes(word_of(bytes)) =~= bytes);
}

/// The word whose four bytes, least significant first, start `bytes`.
pub fn word_from_bytes(bytes: &[u8]) -> (v: u32)
    requires
        bytes@.len() >= 4,
    ensures
        v == word_of(bytes@),
{
    let b0 = bytes[0] as u32;
    let b1 = bytes[1] as u32;
    let b2 = bytes[2] as u32;
    let b3 = bytes[3] as u32;
    b0 + b1 * 0x100 + b2 * 0x1_0000 + b3 * 0x100_0000
}

/// Appends the four bytes of `v`, least significant first.
pub fn push_word(out: &mut Vec<u8>, v: u32)
    ensures
        final(out)@ == old(out)@ + word_bytes(v),
{
    out.push((v % 0x100) as u8);
    out.push((v / 0x100 % 0x100) as u8);
    out.push((v / 0x1_0000 % 0x100) as u8);
    out.push((v / 0x100_0000) as u8);
    assert(out@ =~= old(out)@ + word_bytes(v));
}

/// A value that guest memory holds as a fixed number of bytes, each of which
/// may be anything: such a value is read and written as a block, byte for
/// byte. Its bytes are those of its fields, one after the other with nothing
/// between them.
pub trait SafeRead: Sized {
    /// How many bytes a value takes in guest memory.
    const SIZE: u32;

    /// How many bytes a value takes in guest memory.
    spec fn size() -> nat;

    /// `SIZE` is the size.
    proof fn lemma_size()
        ensures
            Self::SIZE == Self::size(),
    ;

    /// The bytes that stand for `self` in guest memory.
    spec fn to_bytes(self) -> Seq<u8>;

    /// The value that the first `SIZE` bytes of `bytes` stand for.
    spec fn of_bytes(bytes: Seq<u8>) -> Self;

    /// A value takes exactly `SIZE` bytes.
    proof fn lemma_to_bytes_len(self)
        ensures
            self.to_bytes().len() == Self::size(),
    ;

    /// A value is read back from its bytes, whatever follows them.
    proof fn lemma_of_to_bytes(self, rest: Seq<u8>)
        ensures
            Self::of_bytes(self.to_bytes() + rest) == self,
    ;

    /// Any `SIZE` bytes stand for a value, and its bytes are those.
    proof fn lemma_to_of_bytes(bytes: Seq<u8>)
        requires
            bytes.len() >= Self::size(),
        ensures
            Self::of_bytes(bytes).to_bytes() == bytes.take(Self::size() as int),
    ;

    /// The value that the first `SIZE` bytes of `bytes` stand for.
    fn from_bytes(bytes: &[u8]) -> (v: Self)
        requires
            bytes@.len() >= Self::size(),
        ensures
            v == Self::of_bytes(bytes@),
    ;

    /// Appends the bytes that stand for `self`.
    fn push_bytes(self, out: &mut Vec<u8>)
        ensures
            final(out)@ == old(out)@ + self.to_bytes(),
    ;
}

impl SafeRead for u32 {
    const SIZE: u32 = 4;

    open spec fn size() -> nat {
        4
    }

    proof fn lemma_size() {
    }

    open spec fn to_bytes(self) -> Seq<u8> {
        word_bytes(self)
    }

    open spec fn of_bytes(bytes: Seq<u8>) -> u32 {
        word_of(bytes)
    }

    proof fn lemma_to_bytes_len(self) {
    }

    proof fn lemma_of_to_bytes(self, rest: Seq<u8>) {
        lemma_word_of_bytes(self);
    }

    proof fn lemma_to_of_bytes(bytes: Seq<u8>) {
        lemma_bytes_of_word(bytes.take(4));
        assert(word_of(bytes.take(4)) == word_of(bytes));
    }

    fn from_bytes(bytes: &[u8]) -> (v: u32) {
        word_from_bytes(bytes)
    }

    fn push_bytes(self, out: &mut Vec<u8>) {
        push_word(out, self);
    }
}

/// `n` bytes at `addr` lie in the mapped part of a memory of `size` bytes.
pub open spec fn in_bounds(size: int, addr: int, n: int) -> bool {
    NULL_PAGE_SIZE <= addr && addr + n <= size
}

/// `bytes` with `data` written over it at `addr`.
pub open spec fn overwrite(bytes: Seq<u8>, addr: int, data: Seq<u8>) -> Seq<u8> {
    bytes.take(addr) + data + bytes.skip(addr + data.len())
}

/// `n` zero bytes.
pub open spec fn zeros(n: int) -> Seq<u8> {
    Seq::new(n as nat, |i: int| 0u8)
}

/// The length of the block that an allocation of `size` bytes takes: `size`
/// rounded up to whole words, and one word at least.
pub open spec fn block_len(size: u32) -> int {
    if size == 0 {
        WORD_SIZE as int
    } else {
        (size + WORD_SIZE - 1) / (WORD_SIZE as int) * WORD_SIZE
    }
}

/// What reading a byte at `addr` gives.
pub open spec fn read_u8_of(bytes: Seq<u8>, addr: u32) -> Result<u8, MemError> {
    if in_bounds(bytes.len() as int, addr as int, 1) {
        Ok(bytes[addr as int])
    } else {
        Err(MemError::OutOfBounds)
    }
}

/// Whether a word can be accessed at `addr`, and if not, why.
pub open spec fn word_access(size: int, addr: u32) -> Result<(), MemError> {
    if !in_bounds(size, addr as int, WORD_SIZE as int) {
        Err(MemError::OutOfBounds)
    } else if addr % WORD_SIZE != 0 {
        Err(MemError::Misaligned)
    } else {
        Ok(())
    }
}

/// What reading a word at `addr` gives.
pub open spec fn read_u32_of(bytes: Seq<u8>, addr: u32) -> Result<u32, MemError> {
    match word_access(bytes.len() as int, addr) {
        Ok(_) => Ok(word_of(bytes.subrange(addr as int, addr + 4))),
        Err(e) => Err(e),
    }
}

/// What reading `n` bytes at `addr` gives.
pub open spec fn read_bytes_of(bytes: Seq<u8>, addr: u32, n: int) -> Result<Seq<u8>, MemError> {
    if in_bounds(bytes.len() as int, addr as int, n) {
        Ok(bytes.subrange(addr as int, addr + n))
    } else {
        Err(MemError::OutOfBounds)
    }
}

/// The guest address space.
pub struct Mem {
    bytes: Vec<u8>,
    /// The lowest address never handed out.
    brk: u32,
    /// The live blocks: address to the size that was asked for.
    blocks: HashMap<u32, u32>,
}

impl Mem {
    /// The contents of memory, byte by byte from address 0.
    pub closed spec fn bytes(&self) -> Seq<u8> {
        self.bytes@
    }

    /// The live blocks: address to the size that was asked for.
    pub closed spec fn blocks(&self) -> Map<u32, u32> {
        self.blocks@
    }

    /// The address that the next block will get.
    pub closed spec fn next_block(&self) -> u32 {
        self.brk
    }

    /// The invariant of the address space: it fits 32-bit addresses, and every
    /// live block is word-aligned, lies in the mapped range and ends before
    /// the next block starts.
    pub closed spec fn wf(&self) -> bool {
        &&& self.bytes@.len() <= u32::MAX
        &&& NULL_PAGE_SIZE <= self.brk
        &&& self.brk % WORD_SIZE == 0
        &&& self.brk <= self.bytes@.len() || self.brk == NULL_PAGE_SIZE
        &&& forall|a: u32| #[trigger]
            self.blocks@.contains_key(a) ==> {
                &&& NULL_PAGE_SIZE <= a
                &&& a % WORD_SIZE == 0
                &&& a + block_len(self.blocks@[a]) <= self.brk
                &&& self.brk <= self.bytes@.len()
            }
    }

    /// What `wf` says of a live block.
    pub proof fn lemma_block_bounds(&self, addr: u32)
        requires
            self.wf(),
            self.blocks().contains_key(addr),
        ensures
            NULL_PAGE_SIZE <= addr,
            addr % WORD_SIZE == 0,
            addr + block_len(self.blocks()[addr]) <= self.next_block() <= self.bytes().len(),
            self.bytes().len() <= u32::MAX,
    {
    }

    /// A memory of `size` bytes, all zero, with no block handed out.
    pub fn new(size: u32) -> (mem: Mem)
        ensures
            mem.wf(),
            mem.bytes() == zeros(size as int),
            mem.blocks() == Map::<u32, u32>::empty(),
            mem.next_block() == NULL_PAGE_SIZE,
    {
        let bytes: Vec<u8> = vec![0u8; size as usize];
        assert(bytes@ =~= zeros(size as int));
        Mem { bytes, brk: NULL_PAGE_SIZE, blocks: HashMap::new() }
    }

    /// The size of the address space in bytes.
    pub fn size(&self) -> (n: u32)
        requires
            self.wf(),
        ensures
            n == self.bytes().len(),
    {
        self.bytes.len() as u32
    }

    /// Whether `n` bytes at `addr` lie in the mapped range.
    fn check_bounds(&self, addr: u32, n: usize) -> (ok: bool)
        requires
            self.wf(),
        ensures
            ok == in_bounds(self.bytes().len() as int, addr as int, n as int),
    {
        addr >= NULL_PAGE_SIZE && n <= self.bytes.len() && addr as usize <= self.bytes.len() - n
    }

    /// Reads the byte at `addr`.
    pub fn read_u8(&self, addr: GuestAddress) -> (r: Result<u8, MemError>)
        requires
            self.wf(),
        ensures
            r == read_u8_of(self.bytes(), addr),
    {
        if !self.check_bounds(addr, 1) {
            return Err(MemError::OutOfBounds);
        }
        Ok(self.bytes[addr as usize])
    }

    /// Writes the byte `value` at `addr`.
    pub fn write_u8(&mut self, addr: GuestAddress, value: u8) -> (r: Result<(), MemError>)
        requires
            old(self).wf(),
        ensures
            final(self).wf(),
            final(self).blocks() == old(self).blocks(),
            final(self).next_block() == old(self).next_block(),
            match r {
                Ok(_) => {
                    &&& in_bounds(old(self).bytes().len() as int, addr as int, 1)
                    &&& final(self).bytes() == old(self).bytes().update(addr as int, value)
                },
                Err(e) => {
                    &&& !in_bounds(old(self).bytes().len() as int, addr as int, 1)
                    &&& e == MemError::OutOfBounds
                    &&& final(self).bytes() == old(self).bytes()
                },
            },
    {
        if !self.check_bounds(addr, 1) {
            return Err(MemError::OutOfBounds);
        }
        self.bytes[addr as usize] = value;
        Ok(())
    }

    /// Whether a word can be accessed at `addr`.
    fn check_word(&self, addr: u32) -> (r: Result<(), MemError>)
        requires
            self.wf(),
        ensures
            r == word_access(self.bytes().len() as int, addr),
    {
        if !self.check_bounds(addr, 4) {
            Err(MemError::OutOfBounds)
        } else if addr % WORD_SIZE != 0 {
            Err(MemError::Misaligned)
        } else {
            Ok(())
        }
    }

    /// Reads the word at `addr`, least significant byte first.
    pub fn read_u32(&self, addr: GuestAddress) -> (r: Result<u32, MemError>)
        requires
            self.wf(),
        ensures
            r == read_u32_of(self.bytes(), addr),
    {
        match self.check_word(addr) {
            Err(e) => Err(e),
            Ok(_) => {
                let at = addr as usize;
                let b0 = self.bytes[at] as u32;
                let b1 = self.bytes[at + 1] as u32;
                let b2 = self.bytes[at + 2] as u32;
                let b3 = self.bytes[at + 3] as u32;
                let ghost word = self.bytes@.subrange(addr as int, addr + 4);
                assert(word[0] == b0 && word[1] == b1 && word[2] == b2 && word[3] == b3);
                Ok(b0 + b1 * 0x100 + b2 * 0x1_0000 + b3 * 0x100_0000)
            },
        }
    }

    /// Writes the word `value` at `addr`, least significant byte first.
    pub fn write_u32(&mut self, addr: GuestAddress, value: u32) -> (r: Result<(), MemError>)
        requires
            old(self).wf(),
        ensures
            final(self).wf(),
            final(self).blocks() == old(self).blocks(),
            final(self).next_block() == old(self).next_block(),
            r == word_access(old(self).bytes().len() as int, addr),
            r is Ok ==> final(self).bytes() == overwrite(
                old(self).bytes(),
                addr as int,
                word_bytes(value),
            ),
            r is Err ==> final(self).bytes() == old(self).bytes(),
    {
        match self.check_word(addr) {
            Err(e) => Err(e),
            Ok(_) => {
                let at = addr as usize;
                self.bytes[at] = (value % 0x100) as u8;
                self.bytes[at + 1] = (value / 0x100 % 0x100) as u8;
                self.bytes[at + 2] = (value / 0x1_0000 % 0x100) as u8;
                self.bytes[at + 3] = (value / 0x100_0000) as u8;
                assert(self.bytes@ =~= overwrite(old(self).bytes@, addr as int, word_bytes(value)));
                Ok(())
            },
        }
    }

    /// Reads `n` bytes at `addr`.
    pub fn read_bytes(&self, addr: GuestAddress, n: u32) -> (r: Result<Vec<u8>, MemError>)
        requires
            self.wf(),
        ensures
            match r {
                Ok(data) => read_bytes_of(self.bytes(), addr, n as int) == Ok::<
                    Seq<u8>,
                    MemError,
                >(data@),
                Err(e) => read_bytes_of(self.bytes(), addr, n as int) == Err::<Seq<u8>, MemError>(e),
            },
    {
        if !self.check_bounds(addr, n as usize) {
            return Err(MemError::OutOfBounds);
        }
        let from = addr as usize;
        let mut data: Vec<u8> = Vec::new();
        let mut i: usize = 0;
        while i < n as usize
            invariant
                i <= n,
                from == addr,
                from + n <= self.bytes@.len() <= u32::MAX,
                data@ == self.bytes@.subrange(from as int, from + i),
            decreases n - i,
        {
            data.push(self.bytes[from + i]);
            assert(data@ =~= self.bytes@.subrange(from as int, from + i + 1));
            i += 1;
        }
        Ok(data)
    }

    /// Writes `data` at `addr`.
    pub fn write_bytes(&mut self, addr: GuestAddress, data: &[u8]) -> (r: Result<(), MemError>)
        requires
            old(self).wf(),
        ensures
            final(self).wf(),
            final(self).blocks() == old(self).blocks(),
            final(self).next_block() == old(self).next_block(),
            match r {
                Ok(_) => {
                    &&& in_bounds(old(self).bytes().len() as int, addr as int, data@.len() as int)
                    &&& final(self).bytes() == overwrite(old(self).bytes(), addr as int, data@)
                },
                Err(e) => {
                    &&& !in_bounds(
                        old(self).bytes().len() as int,
                        addr as int,
                        data@.len() as int,
                    )
                    &&& e == MemError::OutOfBounds
                    &&& final(self).bytes() == old(self).bytes()
                },
            },
    {
        let n = data.len();
        if !self.check_bounds(addr, n) {
            return Err(MemError::OutOfBounds);
        }
        let from = addr as usize;
        let mut i: usize = 0;
        while i < n
            invariant
                i <= n == data@.len(),
                from == addr,
                from + n <= self.bytes@.len() == old(self).bytes@.len() <= u32::MAX,
                self.blocks == old(self).blocks,
                self.brk == old(self).brk,
                self.bytes@ == overwrite(old(self).bytes@, from as int, data@.take(i as int)),
            decreases n - i,
        {
            self.bytes[from + i] = data[i];
            assert(self.bytes@ =~= overwrite(
                old(self).bytes@,
                from as int,
                data@.take(i + 1),
            ));
            i += 1;
        }
        assert(data@.take(n as int) =~= data@);
        Ok(())
    }

    /// Reads a value at `addr`, byte for byte. The address need not be
    /// aligned.
    pub fn read<T: SafeRead>(&self, addr: GuestAddress) -> (r: Result<T, MemError>)
        requires
            self.wf(),
        ensures
            r == match read_bytes_of(self.bytes(), addr, T::size() as int) {
                Ok(bytes) => Ok::<T, MemError>(T::of_bytes(bytes)),
                Err(e) => Err::<T, MemError>(e),
            },
    {
        proof {
            T::lemma_size();
        }
        match self.read_bytes(addr, T::SIZE) {
            Ok(bytes) => Ok(T::from_bytes(bytes.as_slice())),
            Err(e) => Err(e),
        }
    }

    /// Writes `value` at `addr`, byte for byte. The address need not be
    /// aligned.
    pub fn write<T: SafeRead>(&mut self, addr: GuestAddress, value: T) -> (r: Result<(), MemError>)
        requires
            old(self).wf(),
        ensures
            final(self).wf(),
            final(self).blocks() == old(self).blocks(),
            final(self).next_block() == old(self).next_block(),
            match r {
                Ok(_) => {
                    &&& in_bounds(old(self).bytes().len() as int, addr as int, T::size() as int)
                    &&& final(self).bytes() == overwrite(
                        old(self).bytes(),
                        addr as int,
                        value.to_bytes(),
                    )
                },
                Err(e) => {
                    &&& !in_bounds(old(self).bytes().len() as int, addr as int, T::size() as int)
                    &&& e == MemError::OutOfBounds
                    &&& final(self).bytes() == old(self).bytes()
                },
            },
    {
        let mut bytes: Vec<u8> = Vec::new();
        value.push_bytes(&mut bytes);
        proof {
            value.lemma_to_bytes_len();
            assert(bytes@ =~= value.to_bytes());
        }
        self.write_bytes(addr, bytes.as_slice())
    }

    /// Hands out a zeroed block of at least `size` bytes at the lowest address
    /// never used before.
    pub fn allocate(&mut self, size: u32) -> (r: Result<GuestAddress, MemError>)
        requires
            old(self).wf(),
        ensures
            final(self).wf(),
            match r {
                Ok(addr) => {
                    &&& addr == old(self).next_block()
                    &&& addr + block_len(size) <= old(self).bytes().len()
                    &&& final(self).next_block() == addr + block_len(size)
                    &&& final(self).blocks() == old(self).blocks().insert(addr, size)
                    &&& !old(self).blocks().contains_key(addr)
                    &&& final(self).bytes() == overwrite(
                        old(self).bytes(),
                        addr as int,
                        zeros(block_len(size)),
                    )
                },
                Err(e) => {
                    &&& e == MemError::OutOfMemory
                    &&& old(self).next_block() + block_len(size) > old(self).bytes().len()
                    &&& final(self).next_block() == old(self).next_block()
                    &&& final(self).blocks() == old(self).blocks()
                    &&& final(self).bytes() == old(self).bytes()
                },
            },
    {
        let len: u64 = if size == 0 {
            WORD_SIZE as u64
        } else {
            (size as u64 + WORD_SIZE as u64 - 1) / (WORD_SIZE as u64) * (WORD_SIZE as u64)
        };
        assert(len == block_len(size));
        let addr = self.brk;
        if addr as u64 + len > self.bytes.len() as u64 {
            return Err(MemError::OutOfMemory);
        }
        let end = (addr as u64 + len) as usize;
        let mut i: usize = addr as usize;
        while i < end
            invariant
                addr <= i <= end <= self.bytes@.len() == old(self).bytes@.len(),
                self.blocks == old(self).blocks,
                self.brk == old(self).brk,
                self.bytes@ == overwrite(old(self).bytes@, addr as int, zeros(i - addr)),
            decreases end - i,
        {
            self.bytes[i] = 0;
            assert(self.bytes@ =~= overwrite(old(self).bytes@, addr as int, zeros(i + 1 - addr)));
            i += 1;
        }
        self.brk = end as u32;
        self.blocks.insert(addr, size);
        Ok(addr)
    }

    /// The address that the next block will get: beyond the null page and
    /// word-aligned.
    pub fn peek_next_block(&self) -> (addr: GuestAddress)
        requires
            self.wf(),
        ensures
            addr == self.next_block(),
            addr >= NULL_PAGE_SIZE,
            addr % WORD_SIZE == 0,
    {
        self.brk
    }

    /// Whether `addr` is the address of a live block.
    pub fn is_allocated(&self, addr: GuestAddress) -> (r: bool)
        requires
            self.wf(),
        ensures
            r == self.blocks().contains_key(addr),
    {
        self.blocks.contains_key(&addr)
    }

    /// Gives up the block at `addr`. Its bytes stay as they are and its
    /// addresses are not handed out again.
    pub fn free(&mut self, addr: GuestAddress) -> (r: Result<(), MemError>)
        requires
            old(self).wf(),
        ensures
            final(self).wf(),
            final(self).bytes() == old(self).bytes(),
            final(self).next_block() == old(self).next_block(),
            match r {
                Ok(_) => {
                    &&& old(self).blocks().contains_key(addr)
                    &&& final(self).blocks() == old(self).blocks().remove(addr)
                },
                Err(e) => {
                    &&& e == MemError::NotAllocated
                    &&& !old(self).blocks().contains_key(addr)
                    &&& final(self).blocks() == old(self).blocks()
                },
            },
    {
        match self.blocks.remove(&addr) {
            Some(_) => Ok(()),
            None => {
                assert(self.blocks@ =~= old(self).blocks@);
                Err(MemError::NotAllocated)
            },
        }
    }
}

} // verus!
