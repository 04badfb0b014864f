//! Deferred invocation: performing a selector later, on the main run loop.
//!
//! A perform on the main thread is not carried out by the caller. The
//! selector's name and the argument are packed under two keys into the
//! payload of a timer that fires once, the timer is added to the main run
//! loop in its default mode, and when the run loop fires it, the name and the
//! argument are taken out of the payload again and the message is dispatched
//! as any other.

use vstd::prelude::*;
use vstd::string::StringSliceAdditionalSpecFns;
use crate::class::ClassModel;
use crate::error::Fatal;
use crate::mem::Mem;
use crate::message::dispatch_of;
use crate::message::Dispatch;
use crate::objc::ObjC;
use crate::object::ObjectHandle;
use crate::object::NIL;
use crate::selector::bytes_eq;
use crate::selector::distinct_names;
use crate::selector::lemma_selector_of;
use crate::selector::names_selector;
use crate::selector::selector_of;
use crate::selector::Selector;

verus! {

/// What a payload holds under a key.
#[derive(Debug, PartialEq, Eq)]
pub enum PayloadValue {
    Name(Vec<u8>),
    Object(ObjectHandle),
}

/// One entry of a payload.
#[derive(Debug, PartialEq, Eq)]
pub struct PayloadEntry {
    pub key: Vec<u8>,
    pub value: PayloadValue,
}

/// What a payload holds under a key, as a mathematical value.
pub enum ValueModel {
    Name(Seq<u8>),
    Object(ObjectHandle),
}

impl View for PayloadValue {
    type V = ValueModel;

    open spec fn view(&self) -> ValueModel {
        match self {
            PayloadValue::Name(name) => ValueModel::Name(name@),
            PayloadValue::Object(object) => ValueModel::Object(*object),
        }
    }
}

impl View for PayloadEntry {
    type V = (Seq<u8>, ValueModel);

    open spec fn view(&self) -> (Seq<u8>, ValueModel) {
        (self.key@, self.value@)
    }
}

/// The payload of a timer: values under keys. Where a key stands twice, the
/// first entry counts.
#[derive(Debug, PartialEq, Eq)]
pub struct Payload {
    pub entries: Vec<PayloadEntry>,
}

impl View for Payload {
    type V = Seq<(Seq<u8>, ValueModel)>;

    open spec fn view(&self) -> Seq<(Seq<u8>, ValueModel)> {
        Seq::new(self.entries@.len(), |i: int| self.entries@[i]@)
    }
}

/// The key under which a selector's name is packed.
pub open spec fn selector_key() -> Seq<u8> {
    "SEL".spec_bytes()
}

/// The key under which the argument is packed.
pub open spec fn argument_key() -> Seq<u8> {
    "arg".spec_bytes()
}

/// The name of the method that a timer made for a perform invokes when it
/// fires.
pub open spec fn fire_method_name() -> Seq<u8> {
    "timerFireMethod:".spec_bytes()
}

/// What `entries` holds under `key`, from the entry at `from` on.
pub open spec fn value_from(entries: Seq<(Seq<u8>, ValueModel)>, key: Seq<u8>, from: int) -> Option<
    ValueModel,
>
    decreases entries.len() - from,
{
    if from < 0 || from >= entries.len() {
        None
    } else if entries[from].0 == key {
        Some(entries[from].1)
    } else {
        value_from(entries, key, from + 1)
    }
}

/// What `entries` holds under `key`.
pub open spec fn value_under(entries: Seq<(Seq<u8>, ValueModel)>, key: Seq<u8>) -> Option<
    ValueModel,
> {
    value_from(entries, key, 0)
}

/// The payload that holds `name` as the selector's name and `arg` as the
/// argument.
pub open spec fn packed(name: Seq<u8>, arg: ObjectHandle) -> Seq<(Seq<u8>, ValueModel)> {
    seq![(selector_key(), ValueModel::Name(name)), (argument_key(), ValueModel::Object(arg))]
}

/// The selector's name and the argument that a payload holds, if it holds
/// both under their keys.
pub open spec fn unpacked(entries: Seq<(Seq<u8>, ValueModel)>) -> Option<(Seq<u8>, ObjectHandle)> {
    match (value_under(entries, selector_key()), value_under(entries, argument_key())) {
        (Some(ValueModel::Name(name)), Some(ValueModel::Object(arg))) => Some((name, arg)),
        _ => None,
    }
}

/// The two keys differ.
pub proof fn lemma_keys_differ()
    ensures
        selector_key() != argument_key(),
{
    reveal_strlit("SEL");
    reveal_strlit("arg");
    assert(vstd::string::is_ascii("SEL")) by {
        vstd::utf8::is_ascii_chars_nat_bound("SEL"@);
    }
    assert(vstd::string::is_ascii("arg")) by {
        vstd::utf8::is_ascii_chars_nat_bound("arg"@);
    }
    vstd::string::is_ascii_spec_bytes("SEL");
    vstd::string::is_ascii_spec_bytes("arg");
    assert(selector_key()[0] != argument_key()[0]);
}

/// What was packed is what is taken out.
pub proof fn lemma_unpack_packed(name: Seq<u8>, arg: ObjectHandle)
    ensures
        unpacked(packed(name, arg)) == Some((name, arg)),
{
    lemma_keys_differ();
    let entries = packed(name, arg);
    assert(value_from(entries, selector_key(), 0) == Some(ValueModel::Name(name)));
    assert(value_from(entries, argument_key(), 1) == Some(ValueModel::Object(arg)));
    assert(value_from(entries, argument_key(), 0) == Some(ValueModel::Object(arg)));
}

/// A timer made for a perform.
#[derive(Debug, PartialEq, Eq)]
pub struct Timer {
    /// The object that the timer sends `selector` to when it fires.
    pub target: ObjectHandle,
    /// The method of the target that the timer invokes when it fires.
    pub selector: Selector,
    pub user_info: Payload,
    /// Whether the timer is to fire again after it has fired.
    pub repeats: bool,
}

/// A timer as a mathematical value.
pub struct TimerModel {
    pub target: ObjectHandle,
    pub selector: Selector,
    pub user_info: Seq<(Seq<u8>, ValueModel)>,
    pub repeats: bool,
}

impl View for Timer {
    type V = TimerModel;

    open spec fn view(&self) -> TimerModel {
        TimerModel {
            target: self.target,
            selector: self.selector,
            user_info: self.user_info@,
            repeats: self.repeats,
        }
    }
}

/// The main run loop, as far as performs need it: the timers added in its
/// default mode that have not fired yet, in the order in which they were
/// added.
pub struct RunLoop {
    timers: Vec<Timer>,
}

impl RunLoop {
    /// The timers that have not fired yet, first added first.
    pub closed spec fn timers(&self) -> Seq<TimerModel> {
        Seq::new(self.timers@.len(), |i: int| self.timers@[i]@)
    }

    /// A run loop with no timers.
    pub fn new() -> (run_loop: RunLoop)
        ensures
            run_loop.timers() == Seq::<TimerModel>::empty(),
    {
        let run_loop = RunLoop { timers: Vec::new() };
        assert(run_loop.timers() =~= Seq::<TimerModel>::empty());
        run_loop
    }

    /// How many timers have not fired yet.
    pub fn pending(&self) -> (n: usize)
        ensures
            n == self.timers().len(),
    {
        self.timers.len()
    }

    /// Adds `timer` in the default mode, after the timers that are there.
    pub fn add_timer(&mut self, timer: Timer)
        ensures
            final(self).timers() == old(self).timers().push(timer@),
    {
        self.timers.push(timer);
        assert(self.timers() =~= old(self).timers().push(timer@));
    }

    /// Takes the timer that is to fire next out of the run loop: the one
    /// that was added first. It does not fire again.
    pub fn next_timer(&mut self) -> (r: Option<Timer>)
        ensures
            match r {
                Some(timer) => {
                    &&& old(self).timers().len() > 0
                    &&& timer@ == old(self).timers()[0]
                    &&& final(self).timers() == old(self).timers().skip(1)
                },
                None => {
                    &&& old(self).timers().len() == 0
                    &&& final(self).timers() == old(self).timers()
                },
            },
    {
        if self.timers.len() == 0 {
            return None;
        }
        let timer = self.timers.remove(0);
        assert(self.timers() =~= old(self).timers().skip(1));
        Some(timer)
    }
}

/// What a timer that fires is to do: the message that was put off.
#[derive(Copy, Clone, Debug, PartialEq, Eq, Structural)]
pub struct Performed {
    pub selector: Selector,
    pub arg: ObjectHandle,
    pub dispatch: Dispatch,
}

/// Why a perform on the main thread is refused, if it is: the first of the
/// reasons that holds, in the order in which they stand here.
pub open spec fn perform_refusal(
    names: Seq<Seq<u8>>,
    selector: Selector,
    wait: bool,
    current_thread: u32,
) -> Option<Fatal> {
    if current_thread == 0 {
        Some(Fatal::InvalidThread)
    } else if wait {
        Some(Fatal::WaitUnsupported)
    } else if selector.index >= names.len() || selector_of(names, fire_method_name()) is None {
        Some(Fatal::UnknownSelector)
    } else {
        None
    }
}

/// The timer that a perform of `selector` with `arg` on `target` adds to the
/// main run loop.
pub open spec fn perform_timer(
    names: Seq<Seq<u8>>,
    target: ObjectHandle,
    selector: Selector,
    arg: ObjectHandle,
) -> TimerModel {
    TimerModel {
        target,
        selector: selector_of(names, fire_method_name()).unwrap(),
        user_info: packed(names[selector.index as int], arg),
        repeats: false,
    }
}

/// What a timer with the payload `user_info` is to do when it fires on
/// `target`.
pub open spec fn fire_of(
    classes: Seq<ClassModel>,
    names: Seq<Seq<u8>>,
    bytes: Seq<u8>,
    target: ObjectHandle,
    user_info: Seq<(Seq<u8>, ValueModel)>,
) -> Result<Performed, Fatal> {
    match unpacked(user_info) {
        None => Err(Fatal::MalformedPayload),
        Some((name, arg)) => match selector_of(names, name) {
            None => Err(Fatal::UnknownSelector),
            Some(selector) => match dispatch_of(classes, bytes, target, selector) {
                Ok(dispatch) => Ok(Performed { selector, arg, dispatch }),
                Err(e) => Err(e),
            },
        },
    }
}

/// When the timer of a perform fires, the message that was put off is
/// dispatched: the same selector to the same target with the same argument.
pub proof fn lemma_fire_performs(
    classes: Seq<ClassModel>,
    names: Seq<Seq<u8>>,
    bytes: Seq<u8>,
    target: ObjectHandle,
    selector: Selector,
    arg: ObjectHandle,
)
    requires
        distinct_names(names),
        selector.index < names.len(),
    ensures
        fire_of(
            classes,
            names,
            bytes,
            target,
            perform_timer(names, target, selector, arg).user_info,
        ) == match dispatch_of(classes, bytes, target, selector) {
            Ok(dispatch) => Ok::<Performed, Fatal>(Performed { selector, arg, dispatch }),
            Err(e) => Err::<Performed, Fatal>(e),
        },
{
    let name = names[selector.index as int];
    lemma_unpack_packed(name, arg);
    assert(names_selector(names, selector, name));
    lemma_selector_of(names, selector, name);
}

impl Payload {
    /// What the payload holds under `key`.
    pub fn get(&self, key: &[u8]) -> (r: Option<&PayloadValue>)
        ensures
            match r {
                Some(value) => value_under(self@, key@) == Some(value@),
                None => value_under(self@, key@) is None,
            },
    {
        let mut i: usize = 0;
        while i < self.entries.len()
            invariant
                i <= self.entries@.len(),
                value_under(self@, key@) == value_from(self@, key@, i as int),
            decreases self.entries@.len() - i,
        {
            if bytes_eq(self.entries[i].key.as_slice(), key) {
                return Some(&self.entries[i].value);
            }
            i += 1;
        }
        None
    }

    /// Packs a selector's name and an argument under their keys.
    pub fn pack(name: &[u8], arg: ObjectHandle) -> (payload: Payload)
        ensures
            payload@ == packed(name@, arg),
    {
        let mut entries: Vec<PayloadEntry> = Vec::new();
        entries.push(
            PayloadEntry {
                key: vstd::slice::slice_to_vec("SEL".as_bytes()),
                value: PayloadValue::Name(vstd::slice::slice_to_vec(name)),
            },
        );
        entries.push(
            PayloadEntry {
                key: vstd::slice::slice_to_vec("arg".as_bytes()),
                value: PayloadValue::Object(arg),
            },
        );
        let payload = Payload { entries };
        assert(payload@ =~= packed(name@, arg));
        payload
    }

    /// Takes the selector's name and the argument out of the payload, if it
    /// holds both under their keys.
    pub fn unpack(&self) -> (r: Option<(&[u8], ObjectHandle)>)
        ensures
            match r {
                Some((name, arg)) => unpacked(self@) == Some((name@, arg)),
                None => unpacked(self@) is None,
            },
    {
        let name = match self.get("SEL".as_bytes()) {
            Some(PayloadValue::Name(name)) => name.as_slice(),
            _ => { return None; },
        };
        let arg = match self.get("arg".as_bytes()) {
            Some(PayloadValue::Object(arg)) => *arg,
            _ => { return None; },
        };
        Some((name, arg))
    }
}

impl ObjC {
    /// Puts the message `selector` to `target` with `arg` off to the main
    /// run loop: adds a timer to `run_loop` that fires once and then has the
    /// message dispatched. To wait until that is done is not supported. A
    /// perform on nil does nothing.
    pub fn perform_selector_on_main_thread(
        &self,
        run_loop: &mut RunLoop,
        target: ObjectHandle,
        selector: Selector,
        arg: ObjectHandle,
        wait: bool,
        current_thread: u32,
    ) -> (r: Result<(), Fatal>)
        requires
            self.wf(),
        ensures
            match r {
                Ok(_) => {
                    &&& target == NIL || perform_refusal(
                        self.classes.selectors(),
                        selector,
                        wait,
                        current_thread,
                    ) is None
                    &&& final(run_loop).timers() == if target == NIL {
                        old(run_loop).timers()
                    } else {
                        old(run_loop).timers().push(
                            perform_timer(self.classes.selectors(), target, selector, arg),
                        )
                    }
                },
                Err(e) => {
                    &&& target != NIL
                    &&& perform_refusal(
                        self.classes.selectors(),
                        selector,
                        wait,
                        current_thread,
                    ) == Some(e)
                    &&& final(run_loop).timers() == old(run_loop).timers()
                },
            },
    {
        if target == NIL {
            return Ok(());
        }
        if current_thread == 0 {
            return Err(Fatal::InvalidThread);
        }
        if wait {
            return Err(Fatal::WaitUnsupported);
        }
        let name = match self.classes.selector_name(selector) {
            Some(name) => name,
            None => { return Err(Fatal::UnknownSelector); },
        };
        let fire = match self.classes.lookup_selector("timerFireMethod:".as_bytes()) {
            Some(fire) => fire,
            None => { return Err(Fatal::UnknownSelector); },
        };
        let timer = Timer {
            target,
            selector: fire,
            user_info: Payload::pack(name, arg),
            repeats: false,
        };
        assert(timer@ == perform_timer(self.classes.selectors(), target, selector, arg));
        run_loop.add_timer(timer);
        Ok(())
    }

    /// What a timer made for a perform is to do when it fires on `target`:
    /// takes the selector's name and the argument out of `user_info` and
    /// decides what is to be done with the message.
    pub fn timer_fire_method(&self, target: ObjectHandle, user_info: &Payload, mem: &Mem) -> (r:
        Result<Performed, Fatal>)
        requires
            self.wf(),
            mem.wf(),
        ensures
            r == fire_of(
                self.classes.classes(),
                self.classes.selectors(),
                mem.bytes(),
                target,
                user_info@,
            ),
    {
        let (name, arg) = match user_info.unpack() {
            Some(found) => found,
            None => { return Err(Fatal::MalformedPayload); },
        };
        let selector = match self.classes.lookup_selector(name) {
            Some(selector) => selector,
            None => { return Err(Fatal::UnknownSelector); },
        };
        match self.dispatch(target, selector, mem) {
            Ok(dispatch) => Ok(Performed { selector, arg, dispatch }),
            Err(e) => Err(e),
        }
    }

    /// Performs `selector` on `target` at once: decides what is to be done
    /// with the message. A perform needs a selector, unless it is on nil.
    pub fn perform_selector(&self, target: ObjectHandle, selector: Option<Selector>, mem: &Mem) -> (r:
        Result<Dispatch, Fatal>)
        requires
            self.wf(),
            mem.wf(),
        ensures
            r == match selector {
                Some(selector) => dispatch_of(
                    self.classes.classes(),
                    mem.bytes(),
                    target,
                    selector,
                ),
                None => if target == NIL {
                    Ok(Dispatch::Nil)
                } else {
                    Err(Fatal::NullSelector)
                },
            },
    {
        match selector {
            Some(selector) => self.dispatch(target, selector, mem),
            None => if target == NIL {
                Ok(Dispatch::Nil)
            } else {
                Err(Fatal::NullSelector)
            },
        }
    }
}

} // verus!
