//! Points, sizes and rectangles as guest code passes them around: in
//! registers, field by field, and in memory, byte for byte.
//!
//! A field is a single-precision number. It is moved as its 32 bits; no
//! arithmetic is done on it here.

use vstd::prelude::*;
use crate::abi::GuestArg;
use crate::abi::GuestRet;
use crate::abi::ReturnConvention;
use crate::mem::word_bytes;
use crate::mem::word_of;
use crate::mem::SafeRead;

verus! {

/// A guest single-precision number, held as its IEEE 754 bit pattern.
///
/// Marshaling moves the 32 bits and never looks inside them, so two values are
/// equal here exactly when their bits are.
#[derive(Copy, Clone, Debug, PartialEq, Eq, Structural)]
pub struct CGFloat {
    pub bits: u32,
}

impl CGFloat {
    /// The number with the bit pattern `bits`.
    pub fn from_bits(bits: u32) -> (v: CGFloat)
        ensures
            v.bits == bits,
    {
        CGFloat { bits }
    }

    /// The bit pattern of the number.
    pub fn to_bits(self) -> (bits: u32)
        ensures
            bits == self.bits,
    {
        self.bits
    }
}

impl GuestArg for CGFloat {
    const REG_COUNT: usize = 1;

    open spec fn reg_count() -> nat {
        1
    }

    proof fn lemma_reg_count() {
    }

    open spec fn decode(regs: Seq<u32>) -> CGFloat {
        CGFloat { bits: regs[0] }
    }

    open spec fn encode(self) -> Seq<u32> {
        seq![self.bits]
    }

    proof fn lemma_encode_len(self) {
    }

    proof fn lemma_decode_encode(self, rest: Seq<u32>) {
    }

    proof fn lemma_encode_decode(regs: Seq<u32>) {
        assert(Self::decode(regs).encode() =~= regs.take(1));
    }

    fn from_regs(regs: &[u32]) -> (v: CGFloat) {
        CGFloat { bits: regs[0] }
    }

    fn to_regs(self, regs: &mut [u32]) {
        regs[0] = self.bits;
        assert(regs@ =~= self.encode() + old(regs)@.skip(1));
    }
}

impl Default for CGFloat {
    /// Positive zero.
    fn default() -> (v: CGFloat)
        ensures
            v.bits == 0,
    {
        CGFloat { bits: 0 }
    }
}

/// A point: two registers, `x` before `y`.
#[derive(Copy, Clone, Debug, PartialEq, Eq, Structural)]
pub struct CGPoint {
    pub x: CGFloat,
    pub y: CGFloat,
}

impl Default for CGPoint {
    /// The origin.
    fn default() -> (v: CGPoint)
        ensures
            v == CGPoint::decode(seq![0u32, 0u32]),
    {
        CGPoint { x: CGFloat { bits: 0 }, y: CGFloat { bits: 0 } }
    }
}

impl GuestArg for CGPoint {
    const REG_COUNT: usize = 2;

    open spec fn reg_count() -> nat {
        2
    }

    proof fn lemma_reg_count() {
    }

    open spec fn decode(regs: Seq<u32>) -> CGPoint {
        CGPoint {
            x: CGFloat::decode(regs.subrange(0, 1)),
            y: CGFloat::decode(regs.subrange(1, 2)),
        }
    }

    open spec fn encode(self) -> Seq<u32> {
        self.x.encode() + self.y.encode()
    }

    proof fn lemma_encode_len(self) {
    }

    proof fn lemma_decode_encode(self, rest: Seq<u32>) {
    }

    proof fn lemma_encode_decode(regs: Seq<u32>) {
        assert(Self::decode(regs).encode() =~= regs.take(2));
    }

    fn from_regs(regs: &[u32]) -> (v: CGPoint) {
        CGPoint { x: GuestArg::from_regs(&regs[0..1]), y: GuestArg::from_regs(&regs[1..2]) }
    }

    fn to_regs(self, regs: &mut [u32]) {
        let (x_regs, rest) = regs.split_at_mut(1);
        self.x.to_regs(x_regs);
        self.y.to_regs(rest);
        assert(regs@ =~= self.encode() + old(regs)@.skip(2));
    }
}

/// A size: two registers, `width` before `height`.
#[derive(Copy, Clone, Debug, PartialEq, Eq, Structural)]
pub struct CGSize {
    pub width: CGFloat,
    pub height: CGFloat,
}

impl Default for CGSize {
    /// The empty size.
    fn default() -> (v: CGSize)
        ensures
            v == CGSize::decode(seq![0u32, 0u32]),
    {
        CGSize { width: CGFloat { bits: 0 }, height: CGFloat { bits: 0 } }
    }
}

impl GuestArg for CGSize {
    const REG_COUNT: usize = 2;

    open spec fn reg_count() -> nat {
        2
    }

    proof fn lemma_reg_count() {
    }

    open spec fn decode(regs: Seq<u32>) -> CGSize {
        CGSize {
            width: CGFloat::decode(regs.subrange(0, 1)),
            height: CGFloat::decode(regs.subrange(1, 2)),
        }
    }

    open spec fn encode(self) -> Seq<u32> {
        self.width.encode() + self.height.encode()
    }

    proof fn lemma_encode_len(self) {
    }

    proof fn lemma_decode_encode(self, rest: Seq<u32>) {
    }

    proof fn lemma_encode_decode(regs: Seq<u32>) {
        assert(Self::decode(regs).encode() =~= regs.take(2));
    }

    fn from_regs(regs: &[u32]) -> (v: CGSize) {
        CGSize {
            width: GuestArg::from_regs(&regs[0..1]),
            height: GuestArg::from_regs(&regs[1..2]),
        }
    }

    fn to_regs(self, regs: &mut [u32]) {
        let (width_regs, rest) = regs.split_at_mut(1);
        self.width.to_regs(width_regs);
        self.height.to_regs(rest);
        assert(regs@ =~= self.encode() + old(regs)@.skip(2));
    }
}

/// A rectangle: four registers, those of `origin` before those of `size`.
#[derive(Copy, Clone, Debug, PartialEq, Eq, Structural)]
pub struct CGRect {
    pub origin: CGPoint,
    pub size: CGSize,
}

impl Default for CGRect {
    /// The empty rectangle at the origin.
    fn default() -> (v: CGRect)
        ensures
            v == CGRect::decode(seq![0u32, 0u32, 0u32, 0u32]),
    {
        CGRect {
            origin: CGPoint { x: CGFloat { bits: 0 }, y: CGFloat { bits: 0 } },
            size: CGSize { width: CGFloat { bits: 0 }, height: CGFloat { bits: 0 } },
        }
    }
}

impl GuestArg for CGRect {
    const REG_COUNT: usize = 4;

    open spec fn reg_count() -> nat {
        4
    }

    proof fn lemma_reg_count() {
    }

    open spec fn decode(regs: Seq<u32>) -> CGRect {
        CGRect {
            origin: CGPoint::decode(regs.subrange(0, 2)),
            size: CGSize::decode(regs.subrange(2, 4)),
        }
    }

    open spec fn encode(self) -> Seq<u32> {
        self.origin.encode() + self.size.encode()
    }

    proof fn lemma_encode_len(self) {
    }

    proof fn lemma_decode_encode(self, rest: Seq<u32>) {
        let regs = self.encode() + rest;
        assert(regs.subrange(0, 2) =~= self.origin.encode());
        assert(regs.subrange(2, 4) =~= self.size.encode());
        self.origin.lemma_decode_encode(Seq::empty());
        self.size.lemma_decode_encode(Seq::empty());
        assert(self.origin.encode() + Seq::<u32>::empty() =~= self.origin.encode());
        assert(self.size.encode() + Seq::<u32>::empty() =~= self.size.encode());
    }

    proof fn lemma_encode_decode(regs: Seq<u32>) {
        CGPoint::lemma_encode_decode(regs.subrange(0, 2));
        CGSize::lemma_encode_decode(regs.subrange(2, 4));
        assert(Self::decode(regs).encode() =~= regs.take(4));
    }

    fn from_regs(regs: &[u32]) -> (v: CGRect) {
        CGRect { origin: GuestArg::from_regs(&regs[0..2]), size: GuestArg::from_regs(&regs[2..4]) }
    }

    fn to_regs(self, regs: &mut [u32]) {
        let (origin_regs, rest) = regs.split_at_mut(2);
        self.origin.to_regs(origin_regs);
        self.size.to_regs(rest);
        assert(regs@ =~= self.encode() + old(regs)@.skip(4));
    }
}

impl SafeRead for CGFloat {
    const SIZE: u32 = 4;

    open spec fn size() -> nat {
        4
    }

    proof fn lemma_size() {
    }

    open spec fn to_bytes(self) -> Seq<u8> {
        word_bytes(self.bits)
    }

    open spec fn of_bytes(bytes: Seq<u8>) -> CGFloat {
        CGFloat { bits: word_of(bytes) }
    }

    proof fn lemma_to_bytes_len(self) {
    }

    proof fn lemma_of_to_bytes(self, rest: Seq<u8>) {
        self.bits.lemma_of_to_bytes(rest);
    }

    proof fn lemma_to_of_bytes(bytes: Seq<u8>) {
        u32::lemma_to_of_bytes(bytes);
    }

    fn from_bytes(bytes: &[u8]) -> (v: CGFloat) {
        CGFloat { bits: u32::from_bytes(bytes) }
    }

    fn push_bytes(self, out: &mut Vec<u8>) {
        self.bits.push_bytes(out);
    }
}

impl SafeRead for CGPoint {
    const SIZE: u32 = 8;

    open spec fn size() -> nat {
        8
    }

    proof fn lemma_size() {
    }

    open spec fn to_bytes(self) -> Seq<u8> {
        self.x.to_bytes() + self.y.to_bytes()
    }

    open spec fn of_bytes(bytes: Seq<u8>) -> CGPoint {
        CGPoint {
            x: CGFloat::of_bytes(bytes.subrange(0, 4)),
            y: CGFloat::of_bytes(bytes.subrange(4, 8)),
        }
    }

    proof fn lemma_to_bytes_len(self) {
    }

    proof fn lemma_of_to_bytes(self, rest: Seq<u8>) {
        let bytes = self.to_bytes() + rest;
        assert(bytes.subrange(0, 4) =~= self.x.to_bytes() + Seq::<u8>::empty());
        assert(bytes.subrange(4, 8) =~= self.y.to_bytes() + Seq::<u8>::empty());
        self.x.lemma_of_to_bytes(Seq::empty());
        self.y.lemma_of_to_bytes(Seq::empty());
    }

    proof fn lemma_to_of_bytes(bytes: Seq<u8>) {
        CGFloat::lemma_to_of_bytes(bytes.subrange(0, 4));
        CGFloat::lemma_to_of_bytes(bytes.subrange(4, 8));
        assert(bytes.subrange(0, 4).take(4) + bytes.subrange(4, 8).take(4) =~= bytes.take(8));
    }

    fn from_bytes(bytes: &[u8]) -> (v: CGPoint) {
        CGPoint { x: SafeRead::from_bytes(&bytes[0..4]), y: SafeRead::from_bytes(&bytes[4..8]) }
    }

    fn push_bytes(self, out: &mut Vec<u8>) {
        self.x.push_bytes(out);
        self.y.push_bytes(out);
        assert(out@ =~= old(out)@ + self.to_bytes());
    }
}

impl SafeRead for CGSize {
    const SIZE: u32 = 8;

    open spec fn size() -> nat {
        8
    }

    proof fn lemma_size() {
    }

    open spec fn to_bytes(self) -> Seq<u8> {
        self.width.to_bytes() + self.height.to_bytes()
    }

    open spec fn of_bytes(bytes: Seq<u8>) -> CGSize {
        CGSize {
            width: CGFloat::of_bytes(bytes.subrange(0, 4)),
            height: CGFloat::of_bytes(bytes.subrange(4, 8)),
        }
    }

    proof fn lemma_to_bytes_len(self) {
    }

    proof fn lemma_of_to_bytes(self, rest: Seq<u8>) {
        let bytes = self.to_bytes() + rest;
        assert(bytes.subrange(0, 4) =~= self.width.to_bytes() + Seq::<u8>::empty());
        assert(bytes.subrange(4, 8) =~= self.height.to_bytes() + Seq::<u8>::empty());
        self.width.lemma_of_to_bytes(Seq::empty());
        self.height.lemma_of_to_bytes(Seq::empty());
    }

    proof fn lemma_to_of_bytes(bytes: Seq<u8>) {
        CGFloat::lemma_to_of_bytes(bytes.subrange(0, 4));
        CGFloat::lemma_to_of_bytes(bytes.subrange(4, 8));
        assert(bytes.subrange(0, 4).take(4) + bytes.subrange(4, 8).take(4) =~= bytes.take(8));
    }

    fn from_bytes(bytes: &[u8]) -> (v: CGSize) {
        CGSize {
            width: SafeRead::from_bytes(&bytes[0..4]),
            height: SafeRead::from_bytes(&bytes[4..8]),
        }
    }

    fn push_bytes(self, out: &mut Vec<u8>) {
        self.width.push_bytes(out);
        self.height.push_bytes(out);
        assert(out@ =~= old(out)@ + self.to_bytes());
    }
}

impl SafeRead for CGRect {
    const SIZE: u32 = 16;

    open spec fn size() -> nat {
        16
    }

    proof fn lemma_size() {
    }

    open spec fn to_bytes(self) -> Seq<u8> {
        self.origin.to_bytes() + self.size.to_bytes()
    }

    open spec fn of_bytes(bytes: Seq<u8>) -> CGRect {
        CGRect {
            origin: CGPoint::of_bytes(bytes.subrange(0, 8)),
            size: CGSize::of_bytes(bytes.subrange(8, 16)),
        }
    }

    proof fn lemma_to_bytes_len(self) {
    }

    proof fn lemma_of_to_bytes(self, rest: Seq<u8>) {
        let bytes = self.to_bytes() + rest;
        assert(bytes.subrange(0, 8) =~= self.origin.to_bytes() + Seq::<u8>::empty());
        assert(bytes.subrange(8, 16) =~= self.size.to_bytes() + Seq::<u8>::empty());
        self.origin.lemma_of_to_bytes(Seq::empty());
        self.size.lemma_of_to_bytes(Seq::empty());
    }

    proof fn lemma_to_of_bytes(bytes: Seq<u8>) {
        CGPoint::lemma_to_of_bytes(bytes.subrange(0, 8));
        CGSize::lemma_to_of_bytes(bytes.subrange(8, 16));
        assert(bytes.subrange(0, 8).take(8) + bytes.subrange(8, 16).take(8) =~= bytes.take(16));
    }

    fn from_bytes(bytes: &[u8]) -> (v: CGRect) {
        CGRect { origin: SafeRead::from_bytes(&bytes[0..8]), size: SafeRead::from_bytes(&bytes[8..16]) }
    }

    fn push_bytes(self, out: &mut Vec<u8>) {
        self.origin.push_bytes(out);
        self.size.push_bytes(out);
        assert(out@ =~= old(out)@ + self.to_bytes());
    }
}

/// The bytes of `words` in memory: those of each word, least significant
/// first, one word after the other.
pub open spec fn words_bytes(words: Seq<u32>) -> Seq<u8>
    decreases words.len(),
{
    if words.len() == 0 {
        Seq::empty()
    } else {
        words_bytes(words.drop_last()) + word_bytes(words.last())
    }
}

/// In memory a point is the words that it occupies in registers. The two
/// layouts are still not the same thing: a register is a word, memory is
/// bytes.
pub proof fn lemma_point_bytes_are_register_words(p: CGPoint)
    ensures
        p.to_bytes() == words_bytes(p.encode()),
{
    let regs = p.encode();
    reveal_with_fuel(words_bytes, 3);
    assert(regs.drop_last() =~= seq![p.x.bits]);
    assert(regs.drop_last().drop_last() =~= Seq::<u32>::empty());
    assert(p.to_bytes() =~= words_bytes(regs));
}

/// In memory a size is the words that it occupies in registers.
pub proof fn lemma_size_bytes_are_register_words(s: CGSize)
    ensures
        s.to_bytes() == words_bytes(s.encode()),
{
    let regs = s.encode();
    reveal_with_fuel(words_bytes, 3);
    assert(regs.drop_last() =~= seq![s.width.bits]);
    assert(regs.drop_last().drop_last() =~= Seq::<u32>::empty());
    assert(s.to_bytes() =~= words_bytes(regs));
}

/// In memory a rectangle is the words that it occupies in registers.
pub proof fn lemma_rect_bytes_are_register_words(r: CGRect)
    ensures
        r.to_bytes() == words_bytes(r.encode()),
{
    let regs = r.encode();
    reveal_with_fuel(words_bytes, 5);
    let three = regs.drop_last();
    let two = three.drop_last();
    let one = two.drop_last();
    assert(three =~= seq![r.origin.x.bits, r.origin.y.bits, r.size.width.bits]);
    assert(two =~= seq![r.origin.x.bits, r.origin.y.bits]);
    assert(one =~= seq![r.origin.x.bits]);
    assert(one.drop_last() =~= Seq::<u32>::empty());
    assert(r.to_bytes() =~= words_bytes(regs));
}

impl GuestRet for CGFloat {
    open spec fn convention() -> ReturnConvention {
        ReturnConvention::InRegisters
    }

    fn return_convention() -> (c: ReturnConvention) {
        ReturnConvention::InRegisters
    }
}

impl GuestRet for CGPoint {
    open spec fn convention() -> ReturnConvention {
        ReturnConvention::ViaHiddenPointer
    }

    fn return_convention() -> (c: ReturnConvention) {
        ReturnConvention::ViaHiddenPointer
    }
}

impl GuestRet for CGSize {
    open spec fn convention() -> ReturnConvention {
        ReturnConvention::ViaHiddenPointer
    }

    fn return_convention() -> (c: ReturnConvention) {
        ReturnConvention::ViaHiddenPointer
    }
}

impl GuestRet for CGRect {
    open spec fn convention() -> ReturnConvention {
        ReturnConvention::ViaHiddenPointer
    }

    fn return_convention() -> (c: ReturnConvention) {
        ReturnConvention::ViaHiddenPointer
    }
}

} // verus!
