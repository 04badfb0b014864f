use guest_runtime::abi::{
    read_next_arg, return_from_guest, return_to_guest, write_next_arg, GuestArg, GuestRet, ReturnConvention,
};
use guest_runtime::cg_geometry::{CGFloat, CGPoint, CGRect, CGSize};
use guest_runtime::mem::{push_word, word_from_bytes, Mem, MemError, SafeRead};

fn float(v: f32) -> CGFloat {
    CGFloat::from_bits(v.to_bits())
}

fn rect(x: f32, y: f32, w: f32, h: f32) -> CGRect {
    CGRect { origin: CGPoint { x: float(x), y: float(y) }, size: CGSize { width: float(w), height: float(h) } }
}

#[test]
fn scalars_occupy_one_register() {
    assert_eq!(u32::REG_COUNT, 1);
    assert_eq!(CGFloat::REG_COUNT, 1);
    assert_eq!(CGSize::REG_COUNT, 2);
    let mut regs = [0u32; 3];
    7u32.to_regs(&mut regs);
    float(1.0).to_regs(&mut regs[1..]);
    assert_eq!(regs, [7, 0x3f80_0000, 0]);
    assert_eq!(u32::from_regs(&regs), 7);
    assert_eq!(CGFloat::from_regs(&regs[1..]), float(1.0));
    assert_eq!(float(1.0).to_bits(), 0x3f80_0000);
}

#[test]
fn registers_are_read_back_for_every_bit_pattern() {
    let patterns =
        [0u32, 1, 0x8000_0000, 0x7f80_0000, 0xff80_0000, 0x7fc0_0000, 0x7fc0_0001, 0xffff_ffff, 0x0000_0001, 0x3f80_0000];
    for a in patterns {
        for b in patterns {
            let regs = [a, b, b, a];
            let p = CGPoint::from_regs(&regs);
            let s = CGSize::from_regs(&regs[2..]);
            let r = CGRect::from_regs(&regs);
            assert_eq!(r, CGRect { origin: p, size: s });
            let mut out = [0u32; 4];
            r.to_regs(&mut out);
            assert_eq!(out, regs);
            let mut out = [0u32; 2];
            p.to_regs(&mut out);
            assert_eq!(out, [a, b]);
            s.to_regs(&mut out);
            assert_eq!(out, [b, a]);
        }
    }
}

#[test]
fn size_is_width_before_height() {
    let s = CGSize { width: float(320.0), height: float(480.0) };
    let mut regs = [0u32; 2];
    s.to_regs(&mut regs);
    assert_eq!(regs, [320.0f32.to_bits(), 480.0f32.to_bits()]);
    assert_eq!(CGSize::from_regs(&regs), s);
}

#[test]
fn fields_lie_in_memory_one_after_the_other() {
    assert_eq!(CGFloat::SIZE, 4);
    assert_eq!(CGPoint::SIZE, 8);
    assert_eq!(CGSize::SIZE, 8);
    assert_eq!(CGRect::SIZE, 16);
    let r = rect(1.0, 2.0, 3.0, 4.0);
    let mut bytes = Vec::new();
    r.push_bytes(&mut bytes);
    let mut expected = Vec::new();
    for v in [1.0f32, 2.0, 3.0, 4.0] {
        expected.extend_from_slice(&v.to_le_bytes());
    }
    assert_eq!(bytes, expected);
    assert_eq!(CGRect::from_bytes(&bytes), r);
    assert_eq!(CGPoint::from_bytes(&bytes), r.origin);
    assert_eq!(CGSize::from_bytes(&bytes[8..]), r.size);
}

#[test]
fn words_are_bytes_least_significant_first() {
    let mut bytes = vec![0xaa];
    push_word(&mut bytes, 0x1234_5678);
    assert_eq!(bytes, vec![0xaa, 0x78, 0x56, 0x34, 0x12]);
    assert_eq!(word_from_bytes(&bytes[1..]), 0x1234_5678);
    assert_eq!(word_from_bytes(&[0xff, 0xff, 0xff, 0xff, 0x00]), u32::MAX);
    for v in [0u32, 1, 0xff, 0x100, 0xffff, 0x1_0000, 0xff_ffff, 0x100_0000, u32::MAX, 0xdead_beef] {
        let mut bytes = Vec::new();
        v.push_bytes(&mut bytes);
        assert_eq!(bytes, v.to_le_bytes().to_vec());
        assert_eq!(u32::from_bytes(&bytes), v);
    }
}

#[test]
fn structures_are_read_from_any_address() {
    let mut mem = Mem::new(0x2000);
    let r = rect(-1.5, 0.0, 1.0e10, f32::INFINITY);
    assert_eq!(mem.write(0x1001, r), Ok(()));
    assert_eq!(mem.read::<CGRect>(0x1001), Ok(r));
    assert_eq!(mem.read::<CGPoint>(0x1001), Ok(r.origin));
    assert_eq!(mem.read::<CGSize>(0x1009), Ok(r.size));
    assert_eq!(mem.read::<CGFloat>(0x1005), Ok(float(0.0)));
    assert_eq!(mem.read_u8(0x1000), Ok(0));
    assert_eq!(mem.read_u8(0x1011), Ok(0));
    assert_eq!(mem.read::<CGRect>(0x1ff1), Err(MemError::OutOfBounds));
    assert_eq!(mem.read::<CGRect>(0x1ff0), Ok(CGRect::default()));
    assert_eq!(mem.write(0x1ff1, r), Err(MemError::OutOfBounds));
    assert_eq!(mem.read_bytes(0x1ff1, 15), Ok(vec![0; 15]));
    assert_eq!(mem.read::<CGPoint>(0), Err(MemError::OutOfBounds));
    assert_eq!(mem.read::<u32>(0x1001), Ok(u32::from_le_bytes([0x00, 0x00, 0xc0, 0xbf])));
}

#[test]
fn each_type_is_returned_in_one_way() {
    assert_eq!(u32::return_convention(), ReturnConvention::InRegisters);
    assert_eq!(CGFloat::return_convention(), ReturnConvention::InRegisters);
    assert_eq!(CGPoint::return_convention(), ReturnConvention::ViaHiddenPointer);
    assert_eq!(CGSize::return_convention(), ReturnConvention::ViaHiddenPointer);
    assert_eq!(CGRect::return_convention(), ReturnConvention::ViaHiddenPointer);
}

#[test]
fn large_values_are_returned_through_the_hidden_pointer() {
    let mut mem = Mem::new(0x2000);
    let r = rect(1.0, 2.0, 3.0, 4.0);
    let mut regs = [0x1100u32, 5, 6, 7];
    assert_eq!(return_to_guest(r, &mut regs, &mut mem), Ok(()));
    assert_eq!(regs, [0x1100, 5, 6, 7]);
    assert_eq!(mem.read::<CGRect>(0x1100), Ok(r));
    assert_eq!(return_from_guest::<CGRect>(&regs, 0x1100, &mem), Ok(r));
    let mut regs = [0x1ff8u32, 5, 6, 7];
    assert_eq!(return_to_guest(r, &mut regs, &mut mem), Err(MemError::OutOfBounds));
    assert_eq!(mem.read_bytes(0x1ff8, 8), Ok(vec![0; 8]));
    assert_eq!(return_from_guest::<CGRect>(&regs, 0, &mem), Err(MemError::OutOfBounds));
    let mut regs = [0x1200u32, 5];
    assert_eq!(return_to_guest(r.origin, &mut regs, &mut mem), Ok(()));
    assert_eq!(regs, [0x1200, 5]);
    assert_eq!(mem.read::<CGPoint>(0x1200), Ok(r.origin));
}

#[test]
fn small_values_are_returned_in_registers() {
    let mut mem = Mem::new(0x2000);
    let mut regs = [0x1100u32, 5];
    assert_eq!(return_to_guest(float(2.5), &mut regs, &mut mem), Ok(()));
    assert_eq!(regs, [2.5f32.to_bits(), 5]);
    assert_eq!(mem.read_u32(0x1100), Ok(0));
    assert_eq!(return_from_guest::<CGFloat>(&regs, 0x1100, &mem), Ok(float(2.5)));
    assert_eq!(return_to_guest(0xabcdu32, &mut regs, &mut mem), Ok(()));
    assert_eq!(return_from_guest::<u32>(&regs, 0, &mem), Ok(0xabcd));
}

#[test]
fn defaults_are_zero() {
    assert_eq!(CGFloat::default().to_bits(), 0);
    assert_eq!(CGPoint::default(), CGPoint { x: float(0.0), y: float(0.0) });
    assert_eq!(CGRect::default(), rect(0.0, 0.0, 0.0, 0.0));
    assert_eq!(CGSize::default(), CGSize { width: float(0.0), height: float(0.0) });
}

#[test]
fn arguments_follow_one_another_in_the_registers() {
    let r = rect(1.0, 2.0, 3.0, 4.0);
    let mut regs = [0xeeee_eeeeu32; 8];
    let mut offset = 1;
    write_next_arg(&mut regs, &mut offset, 7u32);
    assert_eq!(offset, 2);
    write_next_arg(&mut regs, &mut offset, r);
    assert_eq!(offset, 6);
    write_next_arg(&mut regs, &mut offset, float(0.5));
    assert_eq!(offset, 7);
    assert_eq!(
        regs,
        [
            0xeeee_eeee,
            7,
            1.0f32.to_bits(),
            2.0f32.to_bits(),
            3.0f32.to_bits(),
            4.0f32.to_bits(),
            0.5f32.to_bits(),
            0xeeee_eeee
        ]
    );
    let mut offset = 1;
    assert_eq!(read_next_arg::<u32>(&regs, &mut offset), 7);
    assert_eq!(read_next_arg::<CGRect>(&regs, &mut offset), r);
    assert_eq!(read_next_arg::<CGFloat>(&regs, &mut offset), float(0.5));
    assert_eq!(offset, 7);
    let mut offset = 2;
    assert_eq!(read_next_arg::<CGPoint>(&regs, &mut offset), r.origin);
    assert_eq!(read_next_arg::<CGSize>(&regs, &mut offset), r.size);
    assert_eq!(offset, 6);
    let mut offset = 7;
    write_next_arg(&mut regs, &mut offset, 9u32);
    assert_eq!(offset, 8);
    assert_eq!(regs[7], 9);
}
