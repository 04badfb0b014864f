use guest_runtime::class::{ClassError, ClassTable, Imp, Side};
use guest_runtime::mem::{Mem, MemError};
use guest_runtime::selector::{Selector, SelectorTable};

#[test]
fn selectors_are_interned_once() {
    let mut table = SelectorTable::new();
    assert_eq!(table.lookup(b"init"), None);
    let init = table.intern(b"init");
    let dealloc = table.intern(b"dealloc");
    assert_ne!(init, dealloc);
    assert_eq!(table.intern(b"init"), init);
    assert_eq!(table.lookup(b"init"), Some(init));
    assert_eq!(table.lookup(b"dealloc"), Some(dealloc));
    assert_eq!(table.lookup(b"Init"), None);
    assert_eq!(table.lookup(b"ini"), None);
    assert_eq!(table.lookup(b""), None);
    assert_eq!(table.len(), 2);
    assert_eq!(table.name(init), Some(&b"init"[..]));
    assert_eq!(table.name(Selector { index: 2 }), None);
}

#[test]
fn lookup_does_not_intern() {
    let table = ClassTable::new();
    assert_eq!(table.lookup_selector(b"retain"), None);
    assert_eq!(table.lookup_selector(b"retain"), None);
    assert_eq!(table.selector_name(Selector { index: 0 }), None);
}

#[test]
fn a_class_name_is_registered_once() {
    let mut mem = Mem::new(0x2000);
    let mut table = ClassTable::new();
    let root = table.register_class(&mut mem, b"Root", None, 4).unwrap();
    assert_eq!(table.register_class(&mut mem, b"Root", None, 4), Err(ClassError::NameTaken));
    assert_eq!(table.register_class(&mut mem, b"Root", Some(root), 8), Err(ClassError::NameTaken));
    assert_eq!(table.class_named(b"Root"), Some(root));
    assert_eq!(table.class_named(b"root"), None);
    assert_eq!(table.get_class_name(root), Some(&b"Root"[..]));
    assert_eq!(table.get_class_name(root + 4), None);
    assert!(table.is_class(root));
    assert!(!table.is_class(0));
}

#[test]
fn registration_is_refused_for_a_reason() {
    let mut mem = Mem::new(0x1010);
    let mut table = ClassTable::new();
    assert_eq!(table.register_class(&mut mem, b"A", Some(0x1000), 4), Err(ClassError::UnknownSuperclass));
    assert_eq!(table.register_class(&mut mem, b"A", None, 3), Err(ClassError::InstanceTooSmall));
    assert_eq!(table.register_class(&mut mem, b"A", None, 0), Err(ClassError::InstanceTooSmall));
    let a = table.register_class(&mut mem, b"A", None, 4).unwrap();
    let b = table.register_class(&mut mem, b"B", Some(a), 4).unwrap();
    assert_eq!(
        table.register_class(&mut mem, b"C", Some(b), 4),
        Err(ClassError::Memory(MemError::OutOfMemory))
    );
    // The name is checked before anything else.
    assert_eq!(table.register_class(&mut mem, b"A", Some(0x1234), 0), Err(ClassError::NameTaken));
    let mut other = Mem::new(0x2000);
    assert_eq!(table.register_class(&mut other, b"C", None, 4), Err(ClassError::HandleInUse));
    assert_eq!(other.peek_next_block(), 0x1000);
}

#[test]
fn a_class_has_a_metadata_block_in_guest_memory() {
    let mut mem = Mem::new(0x2000);
    let mut table = ClassTable::new();
    let root = table.register_class(&mut mem, b"Root", None, 4).unwrap();
    let leaf = table.register_class(&mut mem, b"Leaf", Some(root), 12).unwrap();
    assert_eq!(root, 0x1000);
    assert_eq!(leaf, 0x1008);
    assert!(mem.is_allocated(root));
    assert!(mem.is_allocated(leaf));
    assert_eq!(mem.read_u32(root), Ok(0));
    assert_eq!(mem.read_u32(root + 4), Ok(0));
    assert_eq!(mem.read_u32(leaf), Ok(0));
    assert_eq!(mem.read_u32(leaf + 4), Ok(root));
    assert_eq!(table.superclass_of(leaf), Some(root));
    assert_eq!(table.superclass_of(root), None);
    assert_eq!(table.superclass_of(0x2000), None);
    assert_eq!(table.instance_size(leaf), Some(12));
    assert_eq!(table.instance_size(root), Some(4));
    assert_eq!(table.instance_size(0), None);
}

#[test]
fn hierarchy_of_three_classes() {
    let mut mem = Mem::new(0x2000);
    let mut table = ClassTable::new();
    let root = table.register_class(&mut mem, b"Root", None, 4).unwrap();
    let mid = table.register_class(&mut mem, b"Mid", Some(root), 4).unwrap();
    let leaf = table.register_class(&mut mem, b"Leaf", Some(mid), 4).unwrap();
    let other = table.register_class(&mut mem, b"Other", Some(root), 4).unwrap();
    let sel = table.add_method(root, Side::Instance, b"describe", Imp::Host(1)).unwrap();
    assert!(table.class_is_subclass_of(leaf, root));
    assert!(!table.class_is_subclass_of(root, leaf));
    assert!(table.class_has_method(leaf, sel));
    assert!(table.class_is_subclass_of(leaf, mid));
    assert!(table.class_is_subclass_of(mid, root));
    assert!(!table.class_is_subclass_of(mid, leaf));
    assert!(!table.class_is_subclass_of(leaf, other));
    assert!(!table.class_is_subclass_of(other, leaf));
    assert!(table.class_is_subclass_of(other, root));
    for class in [root, mid, leaf, other] {
        assert!(table.class_is_subclass_of(class, class));
        assert!(table.class_has_method(class, sel));
    }
    // A handle is a subclass of itself even where it is no class.
    assert!(table.class_is_subclass_of(0x4000, 0x4000));
    assert!(!table.class_is_subclass_of(0x4000, root));
    assert!(!table.class_is_subclass_of(root, 0x4000));
    assert!(!table.class_is_subclass_of(root, 0));
    assert!(!table.class_has_method(0x4000, sel));
    assert!(!table.class_has_method(0, sel));
}

#[test]
fn the_most_derived_method_is_found() {
    let mut mem = Mem::new(0x2000);
    let mut table = ClassTable::new();
    let root = table.register_class(&mut mem, b"Root", None, 4).unwrap();
    let mid = table.register_class(&mut mem, b"Mid", Some(root), 4).unwrap();
    let leaf = table.register_class(&mut mem, b"Leaf", Some(mid), 4).unwrap();
    let sel = table.add_method(root, Side::Instance, b"draw", Imp::Host(1)).unwrap();
    assert_eq!(table.add_method(mid, Side::Instance, b"draw", Imp::Guest(0x8000)), Ok(sel));
    let only_leaf = table.add_method(leaf, Side::Instance, b"fold", Imp::Host(3)).unwrap();
    assert_eq!(table.resolve_method(root, Side::Instance, sel), Some(Imp::Host(1)));
    assert_eq!(table.resolve_method(mid, Side::Instance, sel), Some(Imp::Guest(0x8000)));
    assert_eq!(table.resolve_method(leaf, Side::Instance, sel), Some(Imp::Guest(0x8000)));
    assert_eq!(table.resolve_method(leaf, Side::Instance, only_leaf), Some(Imp::Host(3)));
    assert_eq!(table.resolve_method(mid, Side::Instance, only_leaf), None);
    assert!(!table.class_has_method(root, only_leaf));
    assert_eq!(table.resolve_method(leaf, Side::Class, sel), None);
    // A later binding of the same class replaces the earlier one.
    assert_eq!(table.add_method(mid, Side::Instance, b"draw", Imp::Host(9)), Ok(sel));
    assert_eq!(table.resolve_method(leaf, Side::Instance, sel), Some(Imp::Host(9)));
    assert_eq!(table.resolve_method(root, Side::Instance, sel), Some(Imp::Host(1)));
    assert_eq!(table.resolve_method(leaf, Side::Instance, Selector { index: 77 }), None);
}

#[test]
fn class_methods_and_instance_methods_are_kept_apart() {
    let mut mem = Mem::new(0x2000);
    let mut table = ClassTable::new();
    let root = table.register_class(&mut mem, b"Root", None, 4).unwrap();
    let leaf = table.register_class(&mut mem, b"Leaf", Some(root), 4).unwrap();
    let make = table.add_method(root, Side::Class, b"make", Imp::Host(1)).unwrap();
    let init = table.add_method(root, Side::Instance, b"init", Imp::Host(2)).unwrap();
    assert_eq!(table.resolve_method(leaf, Side::Class, make), Some(Imp::Host(1)));
    assert_eq!(table.resolve_method(leaf, Side::Instance, make), None);
    assert_eq!(table.resolve_method(leaf, Side::Instance, init), Some(Imp::Host(2)));
    assert_eq!(table.resolve_method(leaf, Side::Class, init), None);
    assert!(!table.class_has_method(leaf, make));
    assert!(table.class_has_method(leaf, init));
}

#[test]
fn the_nearest_variable_is_found() {
    let mut mem = Mem::new(0x2000);
    let mut table = ClassTable::new();
    let root = table.register_class(&mut mem, b"Root", None, 8).unwrap();
    let leaf = table.register_class(&mut mem, b"Leaf", Some(root), 16).unwrap();
    let width = table.add_ivar(root, b"_width", 4).unwrap();
    let depth = table.add_ivar(leaf, b"_depth", 8).unwrap();
    assert_eq!(table.class_has_ivar(root, width), Some(4));
    assert_eq!(table.class_has_ivar(leaf, width), Some(4));
    assert_eq!(table.class_has_ivar(leaf, depth), Some(8));
    assert_eq!(table.class_has_ivar(root, depth), None);
    assert_eq!(table.add_ivar(leaf, b"_width", 12), Ok(width));
    assert_eq!(table.class_has_ivar(leaf, width), Some(12));
    assert_eq!(table.class_has_ivar(root, width), Some(4));
    assert_eq!(table.class_has_ivar(0x4000, width), None);
    assert_eq!(table.add_ivar(0x4000, b"_x", 4), Err(ClassError::UnknownClass));
    assert_eq!(table.lookup_selector(b"_x"), None);
}

#[test]
fn direct_access_to_variables_is_inherited_until_a_class_says_otherwise() {
    let mut mem = Mem::new(0x2000);
    let mut table = ClassTable::new();
    let root = table.register_class(&mut mem, b"Root", None, 4).unwrap();
    let mid = table.register_class(&mut mem, b"Mid", Some(root), 4).unwrap();
    let leaf = table.register_class(&mut mem, b"Leaf", Some(mid), 4).unwrap();
    assert!(!table.class_allows_direct_ivar_access(leaf));
    assert_eq!(table.set_direct_ivar_access(root, true), Ok(()));
    assert!(table.class_allows_direct_ivar_access(root));
    assert!(table.class_allows_direct_ivar_access(leaf));
    assert_eq!(table.set_direct_ivar_access(mid, false), Ok(()));
    assert!(table.class_allows_direct_ivar_access(root));
    assert!(!table.class_allows_direct_ivar_access(mid));
    assert!(!table.class_allows_direct_ivar_access(leaf));
    assert_eq!(table.set_direct_ivar_access(leaf, true), Ok(()));
    assert!(table.class_allows_direct_ivar_access(leaf));
    assert!(!table.class_allows_direct_ivar_access(0x4000));
    assert_eq!(table.set_direct_ivar_access(0x4000, true), Err(ClassError::UnknownClass));
}

#[test]
fn methods_are_added_to_registered_classes_only() {
    let mut mem = Mem::new(0x2000);
    let mut table = ClassTable::new();
    assert_eq!(table.add_method(0x1000, Side::Instance, b"init", Imp::Host(1)), Err(ClassError::UnknownClass));
    assert_eq!(table.lookup_selector(b"init"), None);
    let root = table.register_class(&mut mem, b"Root", None, 4).unwrap();
    let init = table.add_method(root, Side::Instance, b"init", Imp::Host(1)).unwrap();
    assert_eq!(table.lookup_selector(b"init"), Some(init));
    assert_eq!(table.selector_name(init), Some(&b"init"[..]));
}

#[test]
fn selectors_that_a_class_responds_to_are_listed_in_interning_order() {
    let mut mem = Mem::new(0x2000);
    let mut table = ClassTable::new();
    let root = table.register_class(&mut mem, b"Root", None, 4).unwrap();
    let leaf = table.register_class(&mut mem, b"Leaf", Some(root), 4).unwrap();
    let other = table.register_class(&mut mem, b"Other", None, 4).unwrap();
    table.add_method(leaf, Side::Instance, b"zeta", Imp::Host(1)).unwrap();
    table.add_method(root, Side::Instance, b"alpha", Imp::Host(2)).unwrap();
    table.add_method(root, Side::Class, b"make", Imp::Host(3)).unwrap();
    table.add_method(other, Side::Instance, b"omega", Imp::Host(4)).unwrap();
    table.add_ivar(leaf, b"_x", 4).unwrap();
    table.add_method(leaf, Side::Instance, b"alpha", Imp::Host(5)).unwrap();
    assert_eq!(table.all_class_selectors_as_strings(leaf), vec![b"zeta".to_vec(), b"alpha".to_vec()]);
    assert_eq!(table.all_class_selectors_as_strings(root), vec![b"alpha".to_vec()]);
    assert_eq!(table.all_class_selectors_as_strings(other), vec![b"omega".to_vec()]);
    assert_eq!(table.all_class_selectors_as_strings(0x4000), Vec::<Vec<u8>>::new());
}

#[test]
fn a_selector_can_be_registered_without_a_class() {
    let mut table = ClassTable::new();
    let first = table.register_selector(b"dealloc");
    let second = table.register_selector(b"init");
    assert_eq!(table.register_selector(b"dealloc"), first);
    assert_eq!(table.lookup_selector(b"dealloc"), Some(first));
    assert_eq!(table.lookup_selector(b"init"), Some(second));
    assert_eq!(first, Selector { index: 0 });
    assert_eq!(second, Selector { index: 1 });
    assert_eq!(table.selector_name(second), Some(&b"init"[..]));
}
