//! Key-value coding: setting a property of an object by its name.
//!
//! For the key `foo` the search is, in this order and to the first match:
//! a method `setFoo:`; a method `_setFoo:`; then, only if the receiver's class
//! allows its variables to be written directly, a variable `_foo`, `_isFoo`,
//! `foo` or `isFoo`, which is written in guest memory without any message;
//! and at last the receiver's handler for undefined keys.
//!
//! A key is one or more ASCII bytes.

use vstd::prelude::*;
use vstd::string::StringSliceAdditionalSpecFns;
use crate::class::direct_access_of;
use crate::class::ivar_of;
use crate::class::method_of;
use crate::class::ClassHandle;
use crate::class::ClassModel;
use crate::class::Imp;
use crate::class::Side;
use crate::error::Fatal;
use crate::mem::overwrite;
use crate::mem::word_access;
use crate::mem::word_bytes;
use crate::mem::GuestAddress;
use crate::mem::Mem;
use crate::mem::MemError;
use crate::message::responder_of;
use crate::objc::ObjC;
use crate::object::ObjectHandle;
use crate::object::NIL;
use crate::selector::selector_of;
use crate::selector::Selector;

verus! {

/// Why a value could not be set for a key.
#[derive(Copy, Clone, Debug, PartialEq, Eq, Structural)]
pub enum KvcError {
    /// The key is empty or holds a byte that is not ASCII. Nothing was done.
    MalformedKey,
    /// The emulated program cannot go on.
    Fatal(Fatal),
}

/// What setting a value for a key came to.
#[derive(Copy, Clone, Debug, PartialEq, Eq, Structural)]
pub enum KvcOutcome {
    /// Nothing: the receiver is nil.
    Nil,
    /// The receiver has an accessor for the key: `imp` is to be invoked for
    /// `selector`, with the value.
    Send { selector: Selector, imp: Imp },
    /// The receiver has a variable for the key, and the value was written to
    /// it, at `address`.
    Stored { address: GuestAddress },
    /// Nothing answers to the key: the receiver's handler for undefined keys,
    /// `imp`, is to be invoked for `selector`, with the value and the key.
    Undefined { selector: Selector, imp: Imp },
}

/// A key is one or more ASCII bytes.
pub open spec fn is_key(key: Seq<u8>) -> bool {
    key.len() > 0 && forall|i: int| 0 <= i < key.len() ==> #[trigger] key[i] < 0x80
}

/// A lower-case ASCII letter as its upper-case one; any other byte unchanged.
pub open spec fn to_upper(b: u8) -> u8 {
    if 0x61 <= b <= 0x7a {
        (b - 0x20) as u8
    } else {
        b
    }
}

/// `key` with its first byte in upper case.
pub open spec fn capitalized(key: Seq<u8>) -> Seq<u8> {
    seq![to_upper(key[0])] + key.skip(1)
}

/// `set<Key>:`
pub open spec fn setter_name(key: Seq<u8>) -> Seq<u8> {
    "set".spec_bytes() + capitalized(key) + ":".spec_bytes()
}

/// `_set<Key>:`
pub open spec fn underscore_setter_name(key: Seq<u8>) -> Seq<u8> {
    "_set".spec_bytes() + capitalized(key) + ":".spec_bytes()
}

/// `_<key>`
pub open spec fn underscore_ivar_name(key: Seq<u8>) -> Seq<u8> {
    "_".spec_bytes() + key
}

/// `_is<Key>`
pub open spec fn underscore_is_ivar_name(key: Seq<u8>) -> Seq<u8> {
    "_is".spec_bytes() + capitalized(key)
}

/// `is<Key>`
pub open spec fn is_ivar_name(key: Seq<u8>) -> Seq<u8> {
    "is".spec_bytes() + capitalized(key)
}

/// The name of the handler for undefined keys.
pub open spec fn undefined_key_handler_name() -> Seq<u8> {
    "setValue:forUndefinedKey:".spec_bytes()
}

/// The method that `class` has under the name `name`, with its selector.
pub open spec fn method_named(
    classes: Seq<ClassModel>,
    names: Seq<Seq<u8>>,
    class: ClassHandle,
    side: Side,
    name: Seq<u8>,
) -> Option<(Selector, Imp)> {
    match selector_of(names, name) {
        Some(selector) => match method_of(classes, class, side, selector) {
            Some(imp) => Some((selector, imp)),
            None => None,
        },
        None => None,
    }
}

/// The offset of the variable that instances of `class` have under the name
/// `name`.
pub open spec fn ivar_named(
    classes: Seq<ClassModel>,
    names: Seq<Seq<u8>>,
    class: ClassHandle,
    name: Seq<u8>,
) -> Option<u32> {
    match selector_of(names, name) {
        Some(selector) => ivar_of(classes, class, selector),
        None => None,
    }
}

/// The accessor that `class` has for `key`: `set<Key>:`, or else
/// `_set<Key>:`.
pub open spec fn accessor_for(
    classes: Seq<ClassModel>,
    names: Seq<Seq<u8>>,
    class: ClassHandle,
    side: Side,
    key: Seq<u8>,
) -> Option<(Selector, Imp)> {
    match method_named(classes, names, class, side, setter_name(key)) {
        Some(found) => Some(found),
        None => method_named(classes, names, class, side, underscore_setter_name(key)),
    }
}

/// The offset of the variable that instances of `class` have for `key`, if
/// the class allows its variables to be written directly: that of `_<key>`,
/// or else `_is<Key>`, or else `<key>`, or else `is<Key>`.
pub open spec fn ivar_for(
    classes: Seq<ClassModel>,
    names: Seq<Seq<u8>>,
    class: ClassHandle,
    side: Side,
    key: Seq<u8>,
) -> Option<u32> {
    if side != Side::Instance || !direct_access_of(classes, class) {
        None
    } else if ivar_named(classes, names, class, underscore_ivar_name(key)) is Some {
        ivar_named(classes, names, class, underscore_ivar_name(key))
    } else if ivar_named(classes, names, class, underscore_is_ivar_name(key)) is Some {
        ivar_named(classes, names, class, underscore_is_ivar_name(key))
    } else if ivar_named(classes, names, class, key) is Some {
        ivar_named(classes, names, class, key)
    } else {
        ivar_named(classes, names, class, is_ivar_name(key))
    }
}

/// What storing a word at `offset` in the object at `receiver` comes to.
pub open spec fn store_at(memory_size: int, receiver: ObjectHandle, offset: u32) -> Result<
    KvcOutcome,
    KvcError,
> {
    if receiver + offset > u32::MAX {
        Err(KvcError::Fatal(Fatal::Memory { addr: receiver, error: MemError::OutOfBounds }))
    } else {
        let address = (receiver + offset) as u32;
        match word_access(memory_size, address) {
            Ok(_) => Ok(KvcOutcome::Stored { address }),
            Err(error) => Err(KvcError::Fatal(Fatal::Memory { addr: address, error })),
        }
    }
}

/// What setting a value for `key` in `receiver` comes to.
pub open spec fn set_value_of(
    classes: Seq<ClassModel>,
    names: Seq<Seq<u8>>,
    bytes: Seq<u8>,
    receiver: ObjectHandle,
    key: Seq<u8>,
) -> Result<KvcOutcome, KvcError> {
    if receiver == NIL {
        Ok(KvcOutcome::Nil)
    } else if !is_key(key) {
        Err(KvcError::MalformedKey)
    } else {
        match responder_of(classes, bytes, receiver) {
            Err(e) => Err(KvcError::Fatal(e)),
            Ok((class, side)) => match accessor_for(classes, names, class, side, key) {
                Some((selector, imp)) => Ok(KvcOutcome::Send { selector, imp }),
                None => match ivar_for(classes, names, class, side, key) {
                    Some(offset) => store_at(bytes.len() as int, receiver, offset),
                    None => match method_named(
                        classes,
                        names,
                        class,
                        side,
                        undefined_key_handler_name(),
                    ) {
                        Some((selector, imp)) => Ok(KvcOutcome::Undefined { selector, imp }),
                        None => Err(KvcError::Fatal(Fatal::UndefinedKey { receiver, class })),
                    },
                },
            },
        }
    }
}

/// Whether `key` is one or more ASCII bytes.
pub fn check_key(key: &[u8]) -> (r: bool)
    ensures
        r == is_key(key@),
{
    if key.len() == 0 {
        return false;
    }
    let mut i: usize = 0;
    while i < key.len()
        invariant
            i <= key@.len(),
            forall|j: int| 0 <= j < i ==> #[trigger] key@[j] < 0x80,
        decreases key@.len() - i,
    {
        if key[i] >= 0x80 {
            return false;
        }
        i += 1;
    }
    true
}

/// `prefix`, then `key` with its first byte in upper case if `capitalize`
/// says so, then `suffix`.
fn candidate_name(prefix: &[u8], key: &[u8], capitalize: bool, suffix: &[u8]) -> (name: Vec<u8>)
    requires
        key@.len() > 0,
    ensures
        name@ == prefix@ + (if capitalize {
            capitalized(key@)
        } else {
            key@
        }) + suffix@,
{
    let mut name: Vec<u8> = Vec::new();
    name.extend_from_slice(prefix);
    let first = key[0];
    if capitalize && 0x61 <= first && first <= 0x7a {
        name.push(first - 0x20);
    } else {
        name.push(first);
    }
    name.extend_from_slice(vstd::slice::slice_subrange(key, 1, key.len()));
    name.extend_from_slice(suffix);
    assert(name@ =~= prefix@ + (if capitalize {
        capitalized(key@)
    } else {
        key@
    }) + suffix@);
    name
}

impl ObjC {
    /// The method that `class` has under the name `name`, with its selector.
    pub fn method_by_name(&self, class: ClassHandle, side: Side, name: &[u8]) -> (r: Option<
        (Selector, Imp),
    >)
        requires
            self.wf(),
        ensures
            r == method_named(
                self.classes.classes(),
                self.classes.selectors(),
                class,
                side,
                name@,
            ),
    {
        match self.classes.lookup_selector(name) {
            Some(selector) => match self.classes.resolve_method(class, side, selector) {
                Some(imp) => Some((selector, imp)),
                None => None,
            },
            None => None,
        }
    }

    /// The offset of the variable that instances of `class` have under the
    /// name `name`.
    pub fn ivar_by_name(&self, class: ClassHandle, name: &[u8]) -> (r: Option<u32>)
        requires
            self.wf(),
        ensures
            r == ivar_named(self.classes.classes(), self.classes.selectors(), class, name@),
    {
        match self.classes.lookup_selector(name) {
            Some(selector) => self.classes.class_has_ivar(class, selector),
            None => None,
        }
    }

    /// The accessor that `class` has for `key`.
    fn find_accessor(&self, class: ClassHandle, side: Side, key: &[u8]) -> (r: Option<
        (Selector, Imp),
    >)
        requires
            self.wf(),
            key@.len() > 0,
        ensures
            r == accessor_for(
                self.classes.classes(),
                self.classes.selectors(),
                class,
                side,
                key@,
            ),
    {
        let setter = candidate_name("set".as_bytes(), key, true, ":".as_bytes());
        match self.method_by_name(class, side, setter.as_slice()) {
            Some(found) => Some(found),
            None => {
                let setter = candidate_name("_set".as_bytes(), key, true, ":".as_bytes());
                self.method_by_name(class, side, setter.as_slice())
            },
        }
    }

    /// The offset of the variable that instances of `class` have for `key`,
    /// if the class allows its variables to be written directly.
    fn find_ivar(&self, class: ClassHandle, side: Side, key: &[u8]) -> (r: Option<u32>)
        requires
            self.wf(),
            key@.len() > 0,
        ensures
            r == ivar_for(self.classes.classes(), self.classes.selectors(), class, side, key@),
    {
        match side {
            Side::Class => { return None; },
            Side::Instance => {},
        }
        if !self.classes.class_allows_direct_ivar_access(class) {
            return None;
        }
        let none: [u8; 0] = [];
        let empty = vstd::array::array_as_slice(&none);
        assert(empty@ =~= Seq::<u8>::empty());
        let name = candidate_name("_".as_bytes(), key, false, empty);
        assert(name@ =~= underscore_ivar_name(key@));
        match self.ivar_by_name(class, name.as_slice()) {
            Some(offset) => { return Some(offset); },
            None => {},
        }
        let name = candidate_name("_is".as_bytes(), key, true, empty);
        assert(name@ =~= underscore_is_ivar_name(key@));
        match self.ivar_by_name(class, name.as_slice()) {
            Some(offset) => { return Some(offset); },
            None => {},
        }
        match self.ivar_by_name(class, key) {
            Some(offset) => { return Some(offset); },
            None => {},
        }
        let name = candidate_name("is".as_bytes(), key, true, empty);
        assert(name@ =~= is_ivar_name(key@));
        self.ivar_by_name(class, name.as_slice())
    }

    /// Sets `value` for `key` in `receiver`: finds what answers to the key,
    /// writes the value where that is a variable, and says what is to be
    /// invoked where it is a method.
    pub fn set_value_for_key(
        &self,
        receiver: ObjectHandle,
        key: &[u8],
        value: u32,
        mem: &mut Mem,
    ) -> (r: Result<KvcOutcome, KvcError>)
        requires
            self.wf(),
            old(mem).wf(),
        ensures
            final(mem).wf(),
            final(mem).blocks() == old(mem).blocks(),
            final(mem).next_block() == old(mem).next_block(),
            r == set_value_of(
                self.classes.classes(),
                self.classes.selectors(),
                old(mem).bytes(),
                receiver,
                key@,
            ),
            final(mem).bytes() == match r {
                Ok(KvcOutcome::Stored { address }) => overwrite(
                    old(mem).bytes(),
                    address as int,
                    word_bytes(value),
                ),
                _ => old(mem).bytes(),
            },
    {
        if receiver == NIL {
            return Ok(KvcOutcome::Nil);
        }
        if !check_key(key) {
            return Err(KvcError::MalformedKey);
        }
        let (class, side) = match self.responder(receiver, mem) {
            Ok(found) => found,
            Err(e) => { return Err(KvcError::Fatal(e)); },
        };
        match self.find_accessor(class, side, key) {
            Some((selector, imp)) => { return Ok(KvcOutcome::Send { selector, imp }); },
            None => {},
        }
        match self.find_ivar(class, side, key) {
            Some(offset) => {
                if offset > u32::MAX - receiver {
                    return Err(
                        KvcError::Fatal(
                            Fatal::Memory { addr: receiver, error: MemError::OutOfBounds },
                        ),
                    );
                }
                let address = receiver + offset;
                return match mem.write_u32(address, value) {
                    Ok(_) => Ok(KvcOutcome::Stored { address }),
                    Err(error) => Err(KvcError::Fatal(Fatal::Memory { addr: address, error })),
                };
            },
            None => {},
        }
        match self.method_by_name(class, side, "setValue:forUndefinedKey:".as_bytes()) {
            Some((selector, imp)) => Ok(KvcOutcome::Undefined { selector, imp }),
            None => Err(KvcError::Fatal(Fatal::UndefinedKey { receiver, class })),
        }
    }
}

} // verus!
