use guest_runtime::abi::{zero_value, GuestArg};
use guest_runtime::cg_geometry::{CGFloat, CGPoint, CGRect, CGSize};
use guest_runtime::class::{Imp, Side};
use guest_runtime::error::Fatal;
use guest_runtime::mem::{Mem, MemError};
use guest_runtime::message::Dispatch;
use guest_runtime::objc::ObjC;
use guest_runtime::object::{HostPayload, NIL};
use guest_runtime::selector::Selector;

#[test]
fn a_message_to_nil_is_answered_with_nothing() {
    let mem = Mem::new(0);
    let objc = ObjC::new();
    for index in [0usize, 1, 1000, usize::MAX] {
        assert_eq!(objc.dispatch(NIL, Selector { index }, &mem), Ok(Dispatch::Nil));
    }
    let mut mem = Mem::new(0x2000);
    let mut objc = ObjC::new();
    let root = objc.classes.register_class(&mut mem, b"Root", None, 4).unwrap();
    let sel = objc.classes.add_method(root, Side::Instance, b"count", Imp::Host(1)).unwrap();
    assert_eq!(objc.dispatch(NIL, sel, &mem), Ok(Dispatch::Nil));
}

#[test]
fn the_answer_of_nil_is_the_zero_value_of_the_type() {
    assert_eq!(zero_value::<u32>(), 0);
    assert_eq!(zero_value::<CGFloat>(), CGFloat::from_bits(0.0f32.to_bits()));
    assert_eq!(zero_value::<CGPoint>(), CGPoint::default());
    assert_eq!(zero_value::<CGSize>(), CGSize::default());
    assert_eq!(zero_value::<CGRect>(), CGRect::default());
    let mut regs = [1u32; 4];
    zero_value::<CGRect>().to_regs(&mut regs);
    assert_eq!(regs, [0; 4]);
}

#[test]
fn a_message_to_an_instance_finds_the_most_derived_method() {
    let mut mem = Mem::new(0x2000);
    let mut objc = ObjC::new();
    let root = objc.classes.register_class(&mut mem, b"Root", None, 4).unwrap();
    let leaf = objc.classes.register_class(&mut mem, b"Leaf", Some(root), 4).unwrap();
    let draw = objc.classes.add_method(root, Side::Instance, b"draw", Imp::Host(1)).unwrap();
    let size = objc.classes.add_method(root, Side::Instance, b"size", Imp::Host(2)).unwrap();
    objc.classes.add_method(leaf, Side::Instance, b"draw", Imp::Guest(0x9000)).unwrap();
    let a = objc.alloc_object(root, HostPayload::Trivial, &mut mem).unwrap();
    let b = objc.alloc_object(leaf, HostPayload::Trivial, &mut mem).unwrap();
    assert_eq!(objc.dispatch(a, draw, &mem), Ok(Dispatch::Invoke { imp: Imp::Host(1), class: root }));
    assert_eq!(objc.dispatch(b, draw, &mem), Ok(Dispatch::Invoke { imp: Imp::Guest(0x9000), class: leaf }));
    assert_eq!(objc.dispatch(b, size, &mem), Ok(Dispatch::Invoke { imp: Imp::Host(2), class: leaf }));
}

#[test]
fn a_message_to_a_class_finds_class_methods() {
    let mut mem = Mem::new(0x2000);
    let mut objc = ObjC::new();
    let root = objc.classes.register_class(&mut mem, b"Root", None, 4).unwrap();
    let leaf = objc.classes.register_class(&mut mem, b"Leaf", Some(root), 4).unwrap();
    let make = objc.classes.add_method(root, Side::Class, b"make", Imp::Host(1)).unwrap();
    let init = objc.classes.add_method(root, Side::Instance, b"init", Imp::Host(2)).unwrap();
    assert_eq!(objc.dispatch(leaf, make, &mem), Ok(Dispatch::Invoke { imp: Imp::Host(1), class: leaf }));
    assert_eq!(
        objc.dispatch(leaf, init, &mem),
        Err(Fatal::UnrecognizedSelector { receiver: leaf, class: leaf, selector: init })
    );
    assert_eq!(objc.responder(leaf, &mem), Ok((leaf, Side::Class)));
}

#[test]
fn a_message_that_nothing_implements_is_fatal() {
    let mut mem = Mem::new(0x2000);
    let mut objc = ObjC::new();
    let root = objc.classes.register_class(&mut mem, b"Root", None, 4).unwrap();
    let leaf = objc.classes.register_class(&mut mem, b"Leaf", Some(root), 4).unwrap();
    let other = objc.classes.register_class(&mut mem, b"Other", None, 4).unwrap();
    let sel = objc.classes.add_method(other, Side::Instance, b"draw", Imp::Host(1)).unwrap();
    let object = objc.alloc_object(leaf, HostPayload::Trivial, &mut mem).unwrap();
    assert_eq!(
        objc.dispatch(object, sel, &mem),
        Err(Fatal::UnrecognizedSelector { receiver: object, class: leaf, selector: sel })
    );
    assert_ne!(objc.dispatch(object, sel, &mem), objc.dispatch(NIL, sel, &mem));
}

#[test]
fn a_receiver_must_name_a_class() {
    let mut mem = Mem::new(0x2000);
    let mut objc = ObjC::new();
    let root = objc.classes.register_class(&mut mem, b"Root", None, 4).unwrap();
    let sel = objc.classes.add_method(root, Side::Instance, b"draw", Imp::Host(1)).unwrap();
    let object = objc.alloc_object(root, HostPayload::Trivial, &mut mem).unwrap();
    mem.write_u32(object, 0).unwrap();
    assert_eq!(objc.dispatch(object, sel, &mem), Err(Fatal::NotAnObject { receiver: object, isa: 0 }));
    mem.write_u32(object, object).unwrap();
    assert_eq!(objc.dispatch(object, sel, &mem), Err(Fatal::NotAnObject { receiver: object, isa: object }));
    assert_eq!(
        objc.dispatch(8, sel, &mem),
        Err(Fatal::Memory { addr: 8, error: MemError::OutOfBounds })
    );
    assert_eq!(
        objc.dispatch(0x3000, sel, &mem),
        Err(Fatal::Memory { addr: 0x3000, error: MemError::OutOfBounds })
    );
    assert_eq!(
        objc.dispatch(object + 1, sel, &mem),
        Err(Fatal::Memory { addr: object + 1, error: MemError::Misaligned })
    );
    // An object need not be tracked to get a message: its first word decides.
    mem.write_u32(0x1800, root).unwrap();
    assert_eq!(objc.dispatch(0x1800, sel, &mem), Ok(Dispatch::Invoke { imp: Imp::Host(1), class: root }));
}

#[test]
fn objects_know_their_class() {
    let mut mem = Mem::new(0x2000);
    let mut objc = ObjC::new();
    let root = objc.classes.register_class(&mut mem, b"Root", None, 4).unwrap();
    let mid = objc.classes.register_class(&mut mem, b"Mid", Some(root), 4).unwrap();
    let leaf = objc.classes.register_class(&mut mem, b"Leaf", Some(mid), 4).unwrap();
    let draw = objc.classes.add_method(mid, Side::Instance, b"draw", Imp::Host(1)).unwrap();
    let make = objc.classes.add_method(root, Side::Class, b"make", Imp::Host(2)).unwrap();
    let object = objc.alloc_object(mid, HostPayload::Trivial, &mut mem).unwrap();
    assert_eq!(objc.object_class(object, &mem), Ok(mid));
    assert_eq!(objc.object_class(mid, &mem), Ok(mid));
    assert_eq!(objc.is_member_of_class(object, mid, &mem), Ok(true));
    assert_eq!(objc.is_member_of_class(object, root, &mem), Ok(false));
    assert_eq!(objc.is_kind_of_class(object, root, &mem), Ok(true));
    assert_eq!(objc.is_kind_of_class(object, mid, &mem), Ok(true));
    assert_eq!(objc.is_kind_of_class(object, leaf, &mem), Ok(false));
    assert_eq!(objc.responds_to_selector(object, draw, &mem), Ok(true));
    assert_eq!(objc.responds_to_selector(object, make, &mem), Ok(false));
    assert_eq!(objc.responds_to_selector(leaf, make, &mem), Ok(true));
    assert_eq!(objc.responds_to_selector(leaf, draw, &mem), Ok(false));
    assert_eq!(
        objc.is_kind_of_class(0x3000, root, &mem),
        Err(Fatal::Memory { addr: 0x3000, error: MemError::OutOfBounds })
    );
}
