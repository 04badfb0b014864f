use guest_runtime::autorelease::AutoreleasePools;
use guest_runtime::class::{Imp, Side};
use guest_runtime::error::Fatal;
use guest_runtime::mem::{Mem, MemError};
use guest_runtime::message::Dispatch;
use guest_runtime::objc::ObjC;
use guest_runtime::object::{HostPayload, ObjectEntry, ObjectStore, Release, NIL};

fn runtime() -> (ObjC, Mem, u32) {
    let mut mem = Mem::new(0x4000);
    let mut objc = ObjC::new();
    let root = objc.classes.register_class(&mut mem, b"Root", None, 4).unwrap();
    objc.classes.add_method(root, Side::Instance, b"dealloc", Imp::Host(7)).unwrap();
    (objc, mem, root)
}

#[test]
fn a_new_object_has_one_owner_and_names_its_class() {
    let (mut objc, mut mem, root) = runtime();
    let big = objc.classes.register_class(&mut mem, b"Big", Some(root), 10).unwrap();
    mem.write_bytes(mem.peek_next_block(), &[0xff; 16]).unwrap();
    let object = objc.alloc_object(big, HostPayload::Table(3), &mut mem).unwrap();
    assert_ne!(object, NIL);
    assert_eq!(
        objc.objects.get(object),
        Some(ObjectEntry { refcount: 1, deallocating: false, payload: HostPayload::Table(3) })
    );
    assert_eq!(ObjC::read_isa(object, &mem), Ok(big));
    // The rest of the instance is zeroed, to the end of its block.
    assert_eq!(mem.read_bytes(object + 4, 8), Ok(vec![0; 8]));
    assert_eq!(mem.read_bytes(object + 12, 4), Ok(vec![0xff; 4]));
    assert!(mem.is_allocated(object));
    assert!(objc.objects.is_tracked(object));
    assert!(!objc.objects.is_tracked(big));
}

#[test]
fn an_object_is_made_of_a_registered_class_only() {
    let (mut objc, mut mem, root) = runtime();
    assert_eq!(
        objc.alloc_object(root + 4, HostPayload::Trivial, &mut mem),
        Err(Fatal::UnknownClass { class: root + 4 })
    );
    assert_eq!(objc.alloc_object(NIL, HostPayload::Trivial, &mut mem), Err(Fatal::UnknownClass { class: NIL }));
    let mut full = Mem::new(0x1000);
    assert_eq!(
        objc.alloc_object(root, HostPayload::Trivial, &mut full),
        Err(Fatal::HandleInUse { object: 0x1000 })
    );
    let mut small = Mem::new(0x800);
    let mut other = ObjC::new();
    assert_eq!(other.classes.register_class(&mut small, b"Root", None, 4).is_err(), true);
    let mut mem2 = Mem::new(0x100c);
    let mut objc2 = ObjC::new();
    let class = objc2.classes.register_class(&mut mem2, b"Root", None, 8).unwrap();
    assert_eq!(
        objc2.alloc_object(class, HostPayload::Trivial, &mut mem2),
        Err(Fatal::Memory { addr: 0x1008, error: MemError::OutOfMemory })
    );
    assert_eq!(mem2.peek_next_block(), 0x1008);
}

#[test]
fn one_release_without_retain_deallocates_once() {
    let (mut objc, mut mem, root) = runtime();
    let object = objc.alloc_object(root, HostPayload::Trivial, &mut mem).unwrap();
    assert_eq!(objc.release(object), Ok(Release::Dealloc));
    // Until `dealloc` has run the object is still there, with its count.
    assert_eq!(
        objc.objects.get(object),
        Some(ObjectEntry { refcount: 1, deallocating: true, payload: HostPayload::Trivial })
    );
    assert_eq!(objc.release(object), Err(Fatal::DoubleDealloc { object }));
    assert_eq!(objc.dealloc_object(object, &mut mem), Ok(HostPayload::Trivial));
    assert_eq!(objc.objects.get(object), None);
    assert!(!mem.is_allocated(object));
    assert_eq!(objc.release(object), Err(Fatal::UntrackedObject { object }));
    assert_eq!(objc.retain(object), Err(Fatal::UntrackedObject { object }));
    assert_eq!(objc.dealloc_object(object, &mut mem), Err(Fatal::UntrackedObject { object }));
}

#[test]
fn balanced_retains_and_releases_deallocate_at_the_last_release() {
    for n in [0u32, 1, 2, 5, 100] {
        let (mut objc, mut mem, root) = runtime();
        let object = objc.alloc_object(root, HostPayload::Trivial, &mut mem).unwrap();
        for _ in 0..n {
            assert_eq!(objc.retain(object), Ok(object));
        }
        assert_eq!(objc.objects.get(object).unwrap().refcount, n + 1);
        let mut deallocs = 0;
        for k in 0..n {
            assert_eq!(objc.release(object), Ok(Release::Kept), "release {} of {}", k + 1, n + 1);
            assert_eq!(objc.objects.get(object).unwrap().refcount, n - k);
            assert!(!objc.objects.get(object).unwrap().deallocating);
        }
        if objc.release(object) == Ok(Release::Dealloc) {
            deallocs += 1;
        }
        assert_eq!(deallocs, 1);
        assert!(objc.release(object).is_err());
    }
}

#[test]
fn retains_during_dealloc_are_undone_without_another_dealloc() {
    let (mut objc, mut mem, root) = runtime();
    let object = objc.alloc_object(root, HostPayload::Trivial, &mut mem).unwrap();
    assert_eq!(objc.release(object), Ok(Release::Dealloc));
    assert_eq!(objc.retain(object), Ok(object));
    assert_eq!(objc.release(object), Ok(Release::Kept));
    assert_eq!(objc.release(object), Err(Fatal::DoubleDealloc { object }));
    assert_eq!(objc.objects.get(object).unwrap().refcount, 1);
}

#[test]
fn the_count_does_not_wrap() {
    let mut store = ObjectStore::new();
    assert_eq!(store.insert(0x1000, HostPayload::Trivial), Ok(()));
    assert_eq!(store.insert(0x1000, HostPayload::Table(1)), Err(Fatal::HandleInUse { object: 0x1000 }));
    assert_eq!(store.insert(NIL, HostPayload::Trivial), Err(Fatal::HandleInUse { object: NIL }));
    assert!(!store.is_tracked(NIL));
    assert_eq!(store.get(0x1000).unwrap().payload, HostPayload::Trivial);
    assert_eq!(store.increment_refcount(0x1000), Ok(()));
    assert_eq!(store.get(0x1000).unwrap().refcount, 2);
    assert_eq!(store.decrement_refcount(0x1000), Ok(Release::Kept));
    assert_eq!(store.decrement_refcount(0x1000), Ok(Release::Dealloc));
    assert_eq!(store.remove(0x1000), Ok(HostPayload::Trivial));
    assert_eq!(store.remove(0x1000), Err(Fatal::UntrackedObject { object: 0x1000 }));
    assert_eq!(store.increment_refcount(0x1000), Err(Fatal::UntrackedObject { object: 0x1000 }));
}

#[test]
fn nil_and_classes_count_no_owners() {
    let (mut objc, _mem, root) = runtime();
    objc.pools.push();
    for handle in [NIL, root] {
        assert_eq!(objc.retain(handle), Ok(handle));
        assert_eq!(objc.release(handle), Ok(Release::Kept));
        assert_eq!(objc.release(handle), Ok(Release::Kept));
        assert_eq!(objc.autorelease(handle), handle);
        assert_eq!(objc.objects.get(handle), None);
    }
    assert_eq!(objc.pools.pop(), Some(vec![]));
}

#[test]
fn autoreleased_objects_are_handed_back_in_order() {
    let (mut objc, mut mem, root) = runtime();
    let a = objc.alloc_object(root, HostPayload::Trivial, &mut mem).unwrap();
    let b = objc.alloc_object(root, HostPayload::Trivial, &mut mem).unwrap();
    let c = objc.alloc_object(root, HostPayload::Trivial, &mut mem).unwrap();
    objc.pools.push();
    assert_eq!(objc.autorelease(a), a);
    assert_eq!(objc.autorelease(b), b);
    assert_eq!(objc.autorelease(c), c);
    let drained = objc.pools.pop().unwrap();
    assert_eq!(drained, vec![a, b, c]);
    let mut released = Vec::new();
    for object in drained {
        assert_eq!(objc.release(object), Ok(Release::Dealloc));
        released.push(object);
    }
    assert_eq!(released, vec![a, b, c]);
    assert_eq!(objc.pools.pop(), None);
}

#[test]
fn an_object_noted_twice_is_released_twice() {
    let (mut objc, mut mem, root) = runtime();
    let a = objc.alloc_object(root, HostPayload::Trivial, &mut mem).unwrap();
    let b = objc.alloc_object(root, HostPayload::Trivial, &mut mem).unwrap();
    objc.retain(a).unwrap();
    objc.pools.push();
    objc.autorelease(a);
    objc.autorelease(b);
    objc.autorelease(a);
    assert_eq!(objc.pools.pop(), Some(vec![a, b, a]));
}

#[test]
fn frames_nest() {
    let mut pools = AutoreleasePools::new();
    assert_eq!(pools.depth(), 0);
    assert!(!pools.add_object(0x1000));
    assert_eq!(pools.pop(), None);
    pools.push();
    assert!(pools.add_object(0x1000));
    pools.push();
    assert!(pools.add_object(0x2000));
    assert!(pools.add_object(0x3000));
    assert_eq!(pools.depth(), 2);
    assert_eq!(pools.pop(), Some(vec![0x2000, 0x3000]));
    assert!(pools.add_object(0x4000));
    assert_eq!(pools.pop(), Some(vec![0x1000, 0x4000]));
    assert_eq!(pools.pop(), None);
}

#[test]
fn without_a_pool_an_autoreleased_object_is_not_noted() {
    let (mut objc, mut mem, root) = runtime();
    let a = objc.alloc_object(root, HostPayload::Trivial, &mut mem).unwrap();
    assert_eq!(objc.autorelease(a), a);
    assert_eq!(objc.pools.depth(), 0);
    objc.pools.push();
    assert_eq!(objc.pools.pop(), Some(vec![]));
}

#[test]
fn the_release_message_asks_for_dealloc_at_the_last_release() {
    let (mut objc, mut mem, root) = runtime();
    let leaf = objc.classes.register_class(&mut mem, b"Leaf", Some(root), 4).unwrap();
    let object = objc.alloc_object(leaf, HostPayload::Trivial, &mut mem).unwrap();
    objc.retain(object).unwrap();
    assert_eq!(objc.release_message(object, &mem), Ok(None));
    assert_eq!(
        objc.release_message(object, &mem),
        Ok(Some(Dispatch::Invoke { imp: Imp::Host(7), class: leaf }))
    );
    assert_eq!(objc.release_message(object, &mem), Err(Fatal::DoubleDealloc { object }));
    assert_eq!(objc.release_message(NIL, &mem), Ok(None));
    assert_eq!(objc.release_message(leaf, &mem), Ok(None));
}

#[test]
fn the_release_message_needs_a_dealloc_method() {
    let mut mem = Mem::new(0x4000);
    let mut objc = ObjC::new();
    let root = objc.classes.register_class(&mut mem, b"Root", None, 4).unwrap();
    let object = objc.alloc_object(root, HostPayload::Trivial, &mut mem).unwrap();
    assert_eq!(objc.release_message(object, &mem), Err(Fatal::UnknownSelector));
    let other = objc.classes.register_class(&mut mem, b"Other", None, 4).unwrap();
    let dealloc = objc.classes.add_method(other, Side::Instance, b"dealloc", Imp::Host(1)).unwrap();
    let second = objc.alloc_object(root, HostPayload::Trivial, &mut mem).unwrap();
    assert_eq!(
        objc.release_message(second, &mem),
        Err(Fatal::UnrecognizedSelector { receiver: second, class: root, selector: dealloc })
    );
}

#[test]
fn dealloc_needs_the_objects_block() {
    let (mut objc, mut mem, root) = runtime();
    let object = objc.alloc_object(root, HostPayload::Table(9), &mut mem).unwrap();
    mem.free(object).unwrap();
    assert_eq!(
        objc.dealloc_object(object, &mut mem),
        Err(Fatal::Memory { addr: object, error: MemError::NotAllocated })
    );
    assert!(objc.objects.is_tracked(object));
}

#[test]
fn a_drained_frame_releases_each_object_once_in_order() {
    let (mut objc, mut mem, root) = runtime();
    let a = objc.alloc_object(root, HostPayload::Trivial, &mut mem).unwrap();
    let b = objc.alloc_object(root, HostPayload::Trivial, &mut mem).unwrap();
    let c = objc.alloc_object(root, HostPayload::Trivial, &mut mem).unwrap();
    objc.retain(b).unwrap();
    objc.pools.push();
    objc.autorelease(a);
    objc.autorelease(b);
    objc.autorelease(c);
    let mut drain = objc.pools.drain().unwrap();
    assert_eq!(objc.pools.depth(), 0);
    assert_eq!(drain.remaining(), 3);
    let dealloc = Dispatch::Invoke { imp: Imp::Host(7), class: root };
    assert_eq!(objc.drain_next(&mut drain, &mem), Some((a, Ok(Some(dealloc)))));
    assert_eq!(drain.remaining(), 2);
    assert_eq!(objc.drain_next(&mut drain, &mem), Some((b, Ok(None))));
    assert_eq!(objc.drain_next(&mut drain, &mem), Some((c, Ok(Some(dealloc)))));
    assert_eq!(objc.drain_next(&mut drain, &mem), None);
    assert_eq!(objc.drain_next(&mut drain, &mem), None);
    assert_eq!(drain.remaining(), 0);
    assert_eq!(objc.objects.get(b).unwrap().refcount, 1);
    assert!(objc.objects.get(a).unwrap().deallocating);
    assert!(objc.pools.drain().is_none());
}

#[test]
fn a_drain_goes_on_after_a_fatal_release() {
    let (mut objc, mut mem, root) = runtime();
    let a = objc.alloc_object(root, HostPayload::Trivial, &mut mem).unwrap();
    objc.pools.push();
    objc.autorelease(a);
    objc.autorelease(0x3000);
    objc.autorelease(a);
    let mut drain = objc.pools.drain().unwrap();
    let mut objects = Vec::new();
    while let Some(object) = drain.next_object() {
        objects.push(object);
    }
    assert_eq!(objects, vec![a, 0x3000, a]);
    objc.pools.push();
    objc.autorelease(0x3000);
    objc.autorelease(a);
    let mut drain = objc.pools.drain().unwrap();
    assert_eq!(
        objc.drain_next(&mut drain, &mem),
        Some((0x3000, Err(Fatal::UntrackedObject { object: 0x3000 })))
    );
    assert_eq!(
        objc.drain_next(&mut drain, &mem),
        Some((a, Ok(Some(Dispatch::Invoke { imp: Imp::Host(7), class: root }))))
    );
}
