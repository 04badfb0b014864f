//! Register calling convention: how a value is spread over guest registers.
//!
//! Every value that crosses the guest/host boundary as a message argument
//! occupies a fixed number of 32-bit registers. A scalar takes one register; a
//! composite takes the registers of its fields, in declaration order.

use vstd::prelude::*;
use crate::mem::in_bounds;
use crate::mem::overwrite;
use crate::mem::read_bytes_of;
use crate::mem::GuestAddress;
use crate::mem::Mem;
use crate::mem::MemError;
use crate::mem::SafeRead;

verus! {

/// A value that can be passed to or from guest code in 32-bit registers.
///
/// `encode` and `decode` are the mathematical description of the register
/// image; `to_regs` and `from_regs` compute it. The three laws say that the
/// image has exactly `REG_COUNT` registers and that the conversion loses
/// nothing in either direction.
pub trait GuestArg: Sized {
    /// How many registers a value of this type occupies.
    const REG_COUNT: usize;

    /// How many registers a value of this type occupies.
    spec fn reg_count() -> nat;

    /// `REG_COUNT` is the register count.
    proof fn lemma_reg_count()
        ensures
            Self::REG_COUNT == Self::reg_count(),
    ;

    /// The value that the first `REG_COUNT` registers of `regs` stand for.
    spec fn decode(regs: Seq<u32>) -> Self;

    /// The registers that stand for `self`, in order.
    spec fn encode(self) -> Seq<u32>;

    /// A value occupies exactly `REG_COUNT` registers.
    proof fn lemma_encode_len(self)
        ensures
            self.encode().len() == Self::reg_count(),
    ;

    /// Decoding reads back what was encoded, whatever follows it in the
    /// register file.
    proof fn lemma_decode_encode(self, rest: Seq<u32>)
        ensures
            Self::decode(self.encode() + rest) == self,
    ;

    /// Encoding a decoded value gives back the registers it was read from.
    proof fn lemma_encode_decode(regs: Seq<u32>)
        requires
            regs.len() >= Self::reg_count(),
        ensures
            Self::decode(regs).encode() == regs.take(Self::reg_count() as int),
    ;

    /// Reads a value from the first `REG_COUNT` registers of `regs`.
    fn from_regs(regs: &[u32]) -> (v: Self)
        requires
            regs@.len() >= Self::reg_count(),
        ensures
            v == Self::decode(regs@),
    ;

    /// Writes `self` to the first `REG_COUNT` registers of `regs` and leaves
    /// the others as they were.
    fn to_regs(self, regs: &mut [u32])
        requires
            old(regs)@.len() >= Self::reg_count(),
        ensures
            final(regs)@ == self.encode() + old(regs)@.skip(Self::reg_count() as int),
    ;
}

impl GuestArg for u32 {
    const REG_COUNT: usize = 1;

    open spec fn reg_count() -> nat {
        1
    }

    proof fn lemma_reg_count() {
    }

    open spec fn decode(regs: Seq<u32>) -> u32 {
        regs[0]
    }

    open spec fn encode(self) -> Seq<u32> {
        seq![self]
    }

    proof fn lemma_encode_len(self) {
    }

    proof fn lemma_decode_encode(self, rest: Seq<u32>) {
    }

    proof fn lemma_encode_decode(regs: Seq<u32>) {
        assert(Self::decode(regs).encode() =~= regs.take(1));
    }

    fn from_regs(regs: &[u32]) -> (v: u32) {
        regs[0]
    }

    fn to_regs(self, regs: &mut [u32]) {
        regs[0] = self;
        assert(regs@ =~= self.encode() + old(regs)@.skip(1));
    }
}

/// Reads the next argument from `regs`: the value that the registers from
/// `*offset` on stand for. `*offset` moves past them.
pub fn read_next_arg<T: GuestArg>(regs: &[u32], offset: &mut usize) -> (v: T)
    requires
        *old(offset) + T::reg_count() <= regs@.len(),
    ensures
        v == T::decode(regs@.skip(*old(offset) as int)),
        *final(offset) == *old(offset) + T::reg_count(),
{
    proof {
        T::lemma_reg_count();
    }
    let n = regs.len();
    let v = T::from_regs(vstd::slice::slice_subrange(regs, *offset, n));
    *offset = *offset + T::REG_COUNT;
    v
}

/// Writes `value` as the next argument to `regs`: to the registers from
/// `*offset` on, as many as it occupies. The other registers stay as they
/// were, and `*offset` moves past those written.
pub fn write_next_arg<T: GuestArg>(regs: &mut [u32], offset: &mut usize, value: T)
    requires
        *old(offset) + T::reg_count() <= old(regs)@.len(),
    ensures
        final(regs)@ == old(regs)@.take(*old(offset) as int) + value.encode() + old(regs)@.skip(
            *old(offset) + T::reg_count(),
        ),
        *final(offset) == *old(offset) + T::reg_count(),
{
    proof {
        T::lemma_reg_count();
        value.lemma_encode_len();
    }
    let n = regs.len();
    let (before, from) = regs.split_at_mut(*offset);
    value.to_regs(from);
    *offset = *offset + T::REG_COUNT;
    assert(regs@ =~= old(regs)@.take(*old(offset) as int) + value.encode() + old(regs)@.skip(
        *old(offset) + T::reg_count(),
    ));
}

/// An argument that was written is the argument that is read.
pub proof fn lemma_read_written_arg<T: GuestArg>(regs: Seq<u32>, offset: int, value: T)
    requires
        0 <= offset,
        offset + T::reg_count() <= regs.len(),
    ensures
        T::decode(
            (regs.take(offset) + value.encode() + regs.skip(offset + T::reg_count())).skip(offset),
        ) == value,
{
    value.lemma_encode_len();
    let written = regs.take(offset) + value.encode() + regs.skip(offset + T::reg_count());
    assert(written.skip(offset) =~= value.encode() + regs.skip(offset + T::reg_count()));
    value.lemma_decode_encode(regs.skip(offset + T::reg_count()));
}

/// `n` registers that hold zero.
pub open spec fn zero_regs(n: nat) -> Seq<u32> {
    Seq::new(n, |i: int| 0u32)
}

/// The value of a type that registers full of zeros stand for: what a
/// message to nil answers.
pub fn zero_value<T: GuestArg>() -> (v: T)
    ensures
        v == T::decode(zero_regs(T::reg_count())),
{
    let regs: Vec<u32> = vec![0u32; T::REG_COUNT];
    proof {
        T::lemma_reg_count();
        assert(regs@ =~= zero_regs(T::reg_count()));
    }
    T::from_regs(regs.as_slice())
}

/// How a value of a type is handed back to guest code.
#[derive(Copy, Clone, Debug, PartialEq, Eq, Structural)]
pub enum ReturnConvention {
    /// In registers, as `GuestArg` spreads it.
    InRegisters,
    /// In guest memory, at the address that the caller passes in the first
    /// register as a hidden argument.
    ViaHiddenPointer,
}

/// A value that can be handed back to guest code. A type is handed back in
/// one way only: always in registers or always in memory.
pub trait GuestRet: GuestArg + SafeRead {
    /// How values of this type are handed back.
    spec fn convention() -> ReturnConvention;

    /// How values of this type are handed back.
    fn return_convention() -> (c: ReturnConvention)
        ensures
            c == Self::convention(),
    ;
}

impl GuestRet for u32 {
    open spec fn convention() -> ReturnConvention {
        ReturnConvention::InRegisters
    }

    fn return_convention() -> (c: ReturnConvention) {
        ReturnConvention::InRegisters
    }
}

/// Hands `value` back to guest code: in the first registers of `regs`, or in
/// guest memory at the address that the first register holds.
pub fn return_to_guest<T: GuestRet>(value: T, regs: &mut [u32], mem: &mut Mem) -> (r: Result<
    (),
    MemError,
>)
    requires
        old(regs)@.len() >= 1,
        old(regs)@.len() >= T::reg_count(),
        old(mem).wf(),
    ensures
        final(mem).wf(),
        final(mem).blocks() == old(mem).blocks(),
        final(mem).next_block() == old(mem).next_block(),
        match T::convention() {
            ReturnConvention::InRegisters => {
                &&& r is Ok
                &&& final(regs)@ == value.encode() + old(regs)@.skip(T::reg_count() as int)
                &&& final(mem).bytes() == old(mem).bytes()
            },
            ReturnConvention::ViaHiddenPointer => {
                &&& final(regs)@ == old(regs)@
                &&& r is Ok <==> in_bounds(
                    old(mem).bytes().len() as int,
                    old(regs)@[0] as int,
                    T::size() as int,
                )
                &&& r is Err ==> r == Err::<(), MemError>(MemError::OutOfBounds)
                &&& final(mem).bytes() == if r is Ok {
                    overwrite(old(mem).bytes(), old(regs)@[0] as int, value.to_bytes())
                } else {
                    old(mem).bytes()
                }
            },
        },
{
    match T::return_convention() {
        ReturnConvention::InRegisters => {
            value.to_regs(regs);
            Ok(())
        },
        ReturnConvention::ViaHiddenPointer => {
            let address: GuestAddress = regs[0];
            mem.write(address, value)
        },
    }
}

/// Takes a value that guest code handed back: from the first registers of
/// `regs`, or from guest memory at `hidden`, the address that was passed to
/// the guest code as a hidden argument.
pub fn return_from_guest<T: GuestRet>(regs: &[u32], hidden: GuestAddress, mem: &Mem) -> (r: Result<
    T,
    MemError,
>)
    requires
        regs@.len() >= T::reg_count(),
        mem.wf(),
    ensures
        r == match T::convention() {
            ReturnConvention::InRegisters => Ok::<T, MemError>(T::decode(regs@)),
            ReturnConvention::ViaHiddenPointer => match read_bytes_of(
                mem.bytes(),
                hidden,
                T::size() as int,
            ) {
                Ok(bytes) => Ok::<T, MemError>(T::of_bytes(bytes)),
                Err(e) => Err::<T, MemError>(e),
            },
        },
{
    match T::return_convention() {
        ReturnConvention::InRegisters => Ok(T::from_regs(regs)),
        ReturnConvention::ViaHiddenPointer => mem.read(hidden),
    }
}

} // verus!
