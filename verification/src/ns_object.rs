//! The root class: what every object can do.
//!
//! These are the decisions that the methods of the root class make. What a
//! method asks to be invoked in turn, it hands back to its caller.

use vstd::prelude::*;
use vstd::string::StringSliceAdditionalSpecFns;
use crate::autorelease::Drain;
use crate::class::class_index;
use crate::class::method_of;
use crate::class::responding_names;
use crate::class::subclass_of;
use crate::class::ClassHandle;
use crate::class::ClassModel;
use crate::class::Side;
use crate::error::Fatal;
use crate::mem::Mem;
use crate::message::dispatch_of;
use crate::message::responder_of;
use crate::message::Dispatch;
use crate::objc::is_counted;
use crate::objc::release_result;
use crate::objc::ObjC;
use crate::object::after_release;
use crate::object::ObjectEntry;
use crate::object::ObjectHandle;
use crate::object::Release;
use crate::selector::selector_of;
use crate::selector::Selector;

verus! {

/// The name of the method that removes an object.
pub open spec fn dealloc_name() -> Seq<u8> {
    "dealloc".spec_bytes()
}

/// What the message `dealloc` to `object` is to invoke.
pub open spec fn dealloc_of(
    classes: Seq<ClassModel>,
    names: Seq<Seq<u8>>,
    bytes: Seq<u8>,
    object: ObjectHandle,
) -> Result<Dispatch, Fatal> {
    match selector_of(names, dealloc_name()) {
        Some(selector) => dispatch_of(classes, bytes, object, selector),
        None => Err(Fatal::UnknownSelector),
    }
}

/// What a `release` message answers: nothing to invoke while the object has
/// owners left, and its `dealloc` when the last one is gone.
pub open spec fn release_message_of(
    classes: Seq<ClassModel>,
    names: Seq<Seq<u8>>,
    objects: Map<ObjectHandle, ObjectEntry>,
    bytes: Seq<u8>,
    object: ObjectHandle,
) -> Result<Option<Dispatch>, Fatal> {
    match release_result(classes, objects, object) {
        Err(e) => Err(e),
        Ok(Release::Kept) => Ok(None),
        Ok(Release::Dealloc) => match dealloc_of(classes, names, bytes, object) {
            Ok(dispatch) => Ok(Some(dispatch)),
            Err(e) => Err(e),
        },
    }
}

/// The class of `receiver`: itself where it is a class, else the class
/// that its first word names.
pub open spec fn class_of(classes: Seq<ClassModel>, bytes: Seq<u8>, receiver: ObjectHandle) -> Result<
    ClassHandle,
    Fatal,
> {
    match responder_of(classes, bytes, receiver) {
        Ok((class, _)) => Ok(class),
        Err(e) => Err(e),
    }
}

/// What the handler for undefined keys of the root class reports before the
/// program is stopped.
#[derive(Debug, PartialEq, Eq)]
pub struct UndefinedKeyReport {
    pub receiver: ObjectHandle,
    pub class: ClassHandle,
    pub class_name: Vec<u8>,
    pub key: Vec<u8>,
    /// The names of the selectors that the receiver responds to.
    pub selectors: Vec<Vec<u8>>,
}

impl ObjC {
    /// The `release` message: takes an owner of `object` away and, where it
    /// was the last one, says what is to be invoked to deallocate the
    /// object. Nothing is invoked twice for one object: another release of
    /// an object that is being deallocated is fatal.
    pub fn release_message(&mut self, object: ObjectHandle, mem: &Mem) -> (r: Result<
        Option<Dispatch>,
        Fatal,
    >)
        requires
            old(self).wf(),
            mem.wf(),
        ensures
            final(self).wf(),
            final(self).classes == old(self).classes,
            final(self).pools == old(self).pools,
            r == release_message_of(
                old(self).classes.classes(),
                old(self).classes.selectors(),
                old(self).objects.objects(),
                mem.bytes(),
                object,
            ),
            final(self).objects.objects() == if is_counted(old(self).classes.classes(), object) {
                after_release(old(self).objects.objects(), object)
            } else {
                old(self).objects.objects()
            },
    {
        match self.release(object) {
            Err(e) => Err(e),
            Ok(Release::Kept) => Ok(None),
            Ok(Release::Dealloc) => {
                let selector = match self.classes.lookup_selector("dealloc".as_bytes()) {
                    Some(selector) => selector,
                    None => { return Err(Fatal::UnknownSelector); },
                };
                match self.dispatch(object, selector, mem) {
                    Ok(dispatch) => Ok(Some(dispatch)),
                    Err(e) => Err(e),
                }
            },
        }
    }

    /// Releases the next object of a frame that is being drained, as a
    /// `release` message does, and says which object it was and what is to be
    /// invoked to deallocate it, if anything. Nothing happens once no object
    /// is owed a release.
    pub fn drain_next(&mut self, drain: &mut Drain, mem: &Mem) -> (r: Option<
        (ObjectHandle, Result<Option<Dispatch>, Fatal>),
    >)
        requires
            old(self).wf(),
            mem.wf(),
        ensures
            final(self).wf(),
            final(self).classes == old(self).classes,
            final(self).pools == old(self).pools,
            match r {
                Some((object, outcome)) => {
                    &&& old(drain).owed().len() > 0
                    &&& object == old(drain).owed()[0]
                    &&& final(drain).owed() == old(drain).owed().skip(1)
                    &&& outcome == release_message_of(
                        old(self).classes.classes(),
                        old(self).classes.selectors(),
                        old(self).objects.objects(),
                        mem.bytes(),
                        object,
                    )
                    &&& final(self).objects.objects() == if is_counted(
                        old(self).classes.classes(),
                        object,
                    ) {
                        after_release(old(self).objects.objects(), object)
                    } else {
                        old(self).objects.objects()
                    }
                },
                None => {
                    &&& old(drain).owed().len() == 0
                    &&& final(drain).owed() == old(drain).owed()
                    &&& final(self).objects.objects() == old(self).objects.objects()
                },
            },
    {
        match drain.next_object() {
            Some(object) => {
                let outcome = self.release_message(object, mem);
                Some((object, outcome))
            },
            None => None,
        }
    }

    /// The `class` message: the class of `receiver`.
    pub fn object_class(&self, receiver: ObjectHandle, mem: &Mem) -> (r: Result<ClassHandle, Fatal>)
        requires
            self.wf(),
            mem.wf(),
        ensures
            r == class_of(self.classes.classes(), mem.bytes(), receiver),
    {
        match self.responder(receiver, mem) {
            Ok((class, _)) => Ok(class),
            Err(e) => Err(e),
        }
    }

    /// Whether `class` is the class of `receiver`.
    pub fn is_member_of_class(&self, receiver: ObjectHandle, class: ClassHandle, mem: &Mem) -> (r:
        Result<bool, Fatal>)
        requires
            self.wf(),
            mem.wf(),
        ensures
            r == match class_of(self.classes.classes(), mem.bytes(), receiver) {
                Ok(own) => Ok::<bool, Fatal>(own == class),
                Err(e) => Err::<bool, Fatal>(e),
            },
    {
        match self.object_class(receiver, mem) {
            Ok(own) => Ok(own == class),
            Err(e) => Err(e),
        }
    }

    /// Whether the class of `receiver` is `class` or a class below it.
    pub fn is_kind_of_class(&self, receiver: ObjectHandle, class: ClassHandle, mem: &Mem) -> (r:
        Result<bool, Fatal>)
        requires
            self.wf(),
            mem.wf(),
        ensures
            r == match class_of(self.classes.classes(), mem.bytes(), receiver) {
                Ok(own) => Ok::<bool, Fatal>(subclass_of(self.classes.classes(), own, class)),
                Err(e) => Err::<bool, Fatal>(e),
            },
    {
        match self.object_class(receiver, mem) {
            Ok(own) => Ok(self.classes.class_is_subclass_of(own, class)),
            Err(e) => Err(e),
        }
    }

    /// Whether a message `selector` to `receiver` would find a method.
    pub fn responds_to_selector(&self, receiver: ObjectHandle, selector: Selector, mem: &Mem) -> (r:
        Result<bool, Fatal>)
        requires
            self.wf(),
            mem.wf(),
        ensures
            r == match responder_of(self.classes.classes(), mem.bytes(), receiver) {
                Ok((class, side)) => Ok::<bool, Fatal>(
                    method_of(self.classes.classes(), class, side, selector) is Some,
                ),
                Err(e) => Err::<bool, Fatal>(e),
            },
    {
        match self.responder(receiver, mem) {
            Ok((class, side)) => Ok(self.classes.resolve_method(class, side, selector).is_some()),
            Err(e) => Err(e),
        }
    }

    /// What the handler for undefined keys of the root class reports: the
    /// receiver, its class and the class's name, the key, and the selectors
    /// that the receiver responds to.
    pub fn undefined_key_report(&self, receiver: ObjectHandle, key: &[u8], mem: &Mem) -> (r: Result<
        UndefinedKeyReport,
        Fatal,
    >)
        requires
            self.wf(),
            mem.wf(),
        ensures
            match r {
                Ok(report) => {
                    &&& crate::objc::isa_of(mem.bytes(), receiver) == Ok::<ClassHandle, Fatal>(
                        report.class,
                    )
                    &&& class_index(self.classes.classes(), report.class) is Some
                    &&& report.receiver == receiver
                    &&& report.key@ == key@
                    &&& report.class_name@ == self.classes.classes()[class_index(
                        self.classes.classes(),
                        report.class,
                    ).unwrap()].name
                    &&& report.selectors@.len() == responding_names(
                        self.classes.classes(),
                        self.classes.selectors(),
                        report.class,
                        Side::Instance,
                        self.classes.selectors().len(),
                    ).len()
                    &&& forall|i: int|
                        0 <= i < report.selectors@.len() ==> (#[trigger] report.selectors@[i])@
                            == responding_names(
                            self.classes.classes(),
                            self.classes.selectors(),
                            report.class,
                            Side::Instance,
                            self.classes.selectors().len(),
                        )[i]
                },
                Err(e) => match crate::objc::isa_of(mem.bytes(), receiver) {
                    Err(fault) => e == fault,
                    Ok(isa) => class_index(self.classes.classes(), isa) is None && e
                        == (Fatal::NotAnObject { receiver, isa }),
                },
            },
    {
        let class = match ObjC::read_isa(receiver, mem) {
            Ok(class) => class,
            Err(e) => { return Err(e); },
        };
        let class_name = match self.classes.get_class_name(class) {
            Some(name) => vstd::slice::slice_to_vec(name),
            None => { return Err(Fatal::NotAnObject { receiver, isa: class }); },
        };
        Ok(
            UndefinedKeyReport {
                receiver,
                class,
                class_name,
                key: vstd::slice::slice_to_vec(key),
                selectors: self.classes.all_class_selectors_as_strings(class),
            },
        )
    }
}

} // verus!
