//! Fatal conditions: protocol violations by guest code.
//!
//! None of these is recovered from. Each value says what was being done to
//! what, so that the embedder can report it before it stops.

use vstd::prelude::*;
use crate::mem::GuestAddress;
use crate::mem::MemError;
use crate::selector::Selector;

verus! {

/// Why the emulated program cannot go on.
#[derive(Copy, Clone, Debug, PartialEq, Eq, Structural)]
pub enum Fatal {
    /// A guest memory access failed.
    Memory { addr: GuestAddress, error: MemError },
    /// An object was to be made of something that is no registered class.
    UnknownClass { class: GuestAddress },
    /// Guest memory handed out an address that an object or class has
    /// already.
    HandleInUse { object: GuestAddress },
    /// The handle is not tracked: the object was deallocated already or was
    /// never allocated.
    UntrackedObject { object: GuestAddress },
    /// An object has more owners than can be counted.
    RefcountOverflow { object: GuestAddress },
    /// An object that is being deallocated was released by its last owner
    /// again: `dealloc` would be entered twice.
    DoubleDealloc { object: GuestAddress },
    /// The word that should name the receiver's class is nil or names no
    /// registered class.
    NotAnObject { receiver: GuestAddress, isa: GuestAddress },
    /// No class in the receiver's hierarchy implements the selector.
    UnrecognizedSelector { receiver: GuestAddress, class: GuestAddress, selector: Selector },
    /// A selector was needed that no class has declared.
    UnknownSelector,
    /// No accessor and no variable answers to the key, and no class in the
    /// receiver's hierarchy handles undefined keys.
    UndefinedKey { receiver: GuestAddress, class: GuestAddress },
    /// A perform was asked for with no selector.
    NullSelector,
    /// A timer fired whose payload does not hold a selector name and an
    /// argument under their keys.
    MalformedPayload,
    /// A perform on the main thread was asked to wait until done.
    WaitUnsupported,
    /// A perform on the main thread was asked for from no valid thread.
    InvalidThread,
}

} // verus!
