//! Message dispatch: from a receiver and a selector to the method to invoke.
//!
//! A message to nil is answered at once, with nothing looked up and nothing
//! invoked. A message to a class is answered by the class methods of that
//! class and of the classes above it; a message to any other object by the
//! instance methods of the class that the object names in its first word.
//! The search starts at the most derived class. That nothing is found is
//! fatal, and is not the same as a message to nil.

use vstd::prelude::*;
use crate::class::class_index;
use crate::class::method_of;
use crate::class::subclass_of;
use crate::class::ClassHandle;
use crate::class::ClassModel;
use crate::class::Imp;
use crate::class::Side;
use crate::error::Fatal;
use crate::mem::Mem;
use crate::objc::isa_of;
use crate::objc::ObjC;
use crate::object::ObjectHandle;
use crate::object::NIL;
use crate::selector::Selector;

verus! {

/// What is to be done with a message.
#[derive(Copy, Clone, Debug, PartialEq, Eq, Structural)]
pub enum Dispatch {
    /// Nothing: the receiver is nil, and the answer is the zero value of the
    /// type that the sender expects.
    Nil,
    /// To invoke `imp`, which `class`, the receiver's class, has for the
    /// selector.
    Invoke { imp: Imp, class: ClassHandle },
}

/// The class whose methods answer messages to `receiver`, and the side of
/// it that does: the receiver itself and its class methods where it is a
/// class, else the class that its first word names and its instance methods.
pub open spec fn responder_of(
    classes: Seq<ClassModel>,
    bytes: Seq<u8>,
    receiver: ObjectHandle,
) -> Result<(ClassHandle, Side), Fatal> {
    if class_index(classes, receiver) is Some {
        Ok((receiver, Side::Class))
    } else {
        match isa_of(bytes, receiver) {
            Err(e) => Err(e),
            Ok(isa) => if class_index(classes, isa) is Some {
                Ok((isa, Side::Instance))
            } else {
                Err(Fatal::NotAnObject { receiver, isa })
            },
        }
    }
}

/// What is to be done with the message `selector` to `receiver`.
pub open spec fn dispatch_of(
    classes: Seq<ClassModel>,
    bytes: Seq<u8>,
    receiver: ObjectHandle,
    selector: Selector,
) -> Result<Dispatch, Fatal> {
    if receiver == NIL {
        Ok(Dispatch::Nil)
    } else {
        match responder_of(classes, bytes, receiver) {
            Err(e) => Err(e),
            Ok((class, side)) => match method_of(classes, class, side, selector) {
                Some(imp) => Ok(Dispatch::Invoke { imp, class }),
                None => Err(Fatal::UnrecognizedSelector { receiver, class, selector }),
            },
        }
    }
}

/// A message to nil is answered with nothing, whatever the selector, the
/// classes and the contents of memory are.
pub proof fn lemma_nil_dispatch(classes: Seq<ClassModel>, bytes: Seq<u8>, selector: Selector)
    ensures
        dispatch_of(classes, bytes, NIL, selector) == Ok::<Dispatch, Fatal>(Dispatch::Nil),
{
}

/// A message that a class of the receiver's hierarchy implements is
/// answered by a method: where an instance's class is `class` or a class
/// below it, and `class` has a method for the selector, the message is
/// dispatched.
pub proof fn lemma_dispatch_finds_inherited(
    classes: Seq<ClassModel>,
    bytes: Seq<u8>,
    receiver: ObjectHandle,
    class: ClassHandle,
    selector: Selector,
)
    requires
        receiver != NIL,
        responder_of(classes, bytes, receiver) is Ok,
        subclass_of(classes, responder_of(classes, bytes, receiver).unwrap().0, class),
        method_of(
            classes,
            class,
            responder_of(classes, bytes, receiver).unwrap().1,
            selector,
        ) is Some,
    ensures
        dispatch_of(classes, bytes, receiver, selector) is Ok,
        dispatch_of(classes, bytes, receiver, selector).unwrap() is Invoke,
{
    let (own, side) = responder_of(classes, bytes, receiver).unwrap();
    crate::class::lemma_method_inherited(classes, own, class, side, selector);
}

impl ObjC {
    /// The class whose methods answer messages to `receiver`, and the side
    /// of it that does.
    pub fn responder(&self, receiver: ObjectHandle, mem: &Mem) -> (r: Result<
        (ClassHandle, Side),
        Fatal,
    >)
        requires
            self.wf(),
            mem.wf(),
        ensures
            r == responder_of(self.classes.classes(), mem.bytes(), receiver),
    {
        if self.classes.is_class(receiver) {
            return Ok((receiver, Side::Class));
        }
        match ObjC::read_isa(receiver, mem) {
            Err(e) => Err(e),
            Ok(isa) => if self.classes.is_class(isa) {
                Ok((isa, Side::Instance))
            } else {
                Err(Fatal::NotAnObject { receiver, isa })
            },
        }
    }

    /// Decides what is to be done with the message `selector` to `receiver`.
    pub fn dispatch(&self, receiver: ObjectHandle, selector: Selector, mem: &Mem) -> (r: Result<
        Dispatch,
        Fatal,
    >)
        requires
            self.wf(),
            mem.wf(),
        ensures
            r == dispatch_of(self.classes.classes(), mem.bytes(), receiver, selector),
    {
        if receiver == NIL {
            return Ok(Dispatch::Nil);
        }
        match self.responder(receiver, mem) {
            Err(e) => Err(e),
            Ok((class, side)) => match self.classes.resolve_method(class, side, selector) {
                Some(imp) => Ok(Dispatch::Invoke { imp, class }),
                None => Err(Fatal::UnrecognizedSelector { receiver, class, selector }),
            },
        }
    }
}

} // verus!
