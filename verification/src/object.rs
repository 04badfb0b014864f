//! The object store: which objects are alive, and how many owners each has.
//!
//! An object is created with one owner. Each retain adds an owner and each
//! release takes one away. The release that takes the last owner away does
//! not remove the object: it marks it as being deallocated and tells the
//! caller to send it `dealloc`, which ends by removing it. From creation to
//! removal the count in the table is at least one.

use vstd::prelude::*;
use std::collections::HashMap;
use crate::error::Fatal;
use crate::mem::GuestAddress;

verus! {

broadcast use vstd::std_specs::hash::group_hash_axioms;

/// The guest address of an object, or nil.
pub type ObjectHandle = GuestAddress;

/// The handle that stands for no object.
pub const NIL: ObjectHandle = 0;

/// What the host keeps for an object beside its guest memory.
#[derive(Copy, Clone, Debug, PartialEq, Eq, Structural)]
pub enum HostPayload {
    /// Nothing: the object is all in guest memory.
    Trivial,
    /// Native data, by its number in the host's side table. The host drops
    /// the data when the object is removed.
    Table(u32),
}

/// What a release asks of its caller.
#[derive(Copy, Clone, Debug, PartialEq, Eq, Structural)]
pub enum Release {
    /// Nothing: the object has owners left, or counts none.
    Kept,
    /// To send `dealloc` to the object: its last owner is gone.
    Dealloc,
}

/// What the store keeps for one object.
#[derive(Copy, Clone, Debug, PartialEq, Eq, Structural)]
pub struct ObjectEntry {
    /// The number of owners; while the object is being deallocated, one more
    /// than the retains that `dealloc` has not yet released again.
    pub refcount: u32,
    /// Whether the release of the last owner has happened.
    pub deallocating: bool,
    pub payload: HostPayload,
}

impl ObjectEntry {
    /// The entry of an object that was just created: one owner.
    pub open spec fn fresh(payload: HostPayload) -> ObjectEntry {
        ObjectEntry { refcount: 1, deallocating: false, payload }
    }

    /// The entry after a retain, if the count can still grow.
    pub open spec fn retained(self) -> Option<ObjectEntry> {
        if self.refcount < u32::MAX {
            Some(ObjectEntry { refcount: (self.refcount + 1) as u32, ..self })
        } else {
            None
        }
    }

    /// The entry after a release and what the release asks of its caller, if
    /// the release is in order. It is not where the object is being
    /// deallocated and has no retain left to undo.
    pub open spec fn released(self) -> Option<(ObjectEntry, Release)> {
        if self.refcount > 1 {
            Some((ObjectEntry { refcount: (self.refcount - 1) as u32, ..self }, Release::Kept))
        } else if !self.deallocating {
            Some((ObjectEntry { deallocating: true, ..self }, Release::Dealloc))
        } else {
            None
        }
    }

    /// The entry after `n` retains, if the count can grow that far.
    pub open spec fn retained_times(self, n: nat) -> Option<ObjectEntry>
        decreases n,
    {
        if n == 0 {
            Some(self)
        } else {
            match self.retained() {
                Some(next) => next.retained_times((n - 1) as nat),
                None => None,
            }
        }
    }

    /// How often the caller is asked to send `dealloc` in the course of `n`
    /// releases, or of as many of them as are in order.
    pub open spec fn deallocs_in(self, n: nat) -> nat
        decreases n,
    {
        if n == 0 {
            0
        } else {
            match self.released() {
                Some((next, Release::Dealloc)) => 1 + next.deallocs_in((n - 1) as nat),
                Some((next, Release::Kept)) => next.deallocs_in((n - 1) as nat),
                None => 0,
            }
        }
    }
}

/// `n` retains add `n` owners.
pub proof fn lemma_retained_times(entry: ObjectEntry, n: nat)
    requires
        entry.refcount + n <= u32::MAX,
    ensures
        entry.retained_times(n) == Some(
            ObjectEntry { refcount: (entry.refcount + n) as u32, ..entry },
        ),
    decreases n,
{
    if n > 0 {
        lemma_retained_times(entry.retained().unwrap(), (n - 1) as nat);
    }
}

/// An object with `entry.refcount` owners is to be deallocated once in the
/// course of `n` releases if there are as many releases as owners, and not
/// at all if there are fewer; never twice.
pub proof fn lemma_deallocs_in(entry: ObjectEntry, n: nat)
    requires
        entry.refcount >= 1,
        !entry.deallocating,
    ensures
        entry.deallocs_in(n) == if n >= entry.refcount {
            1nat
        } else {
            0nat
        },
    decreases n,
{
    if n > 0 {
        let (next, what) = entry.released().unwrap();
        if entry.refcount > 1 {
            lemma_deallocs_in(next, (n - 1) as nat);
        } else {
            lemma_no_dealloc_while_deallocating(next, (n - 1) as nat);
        }
    }
}

/// An object that is being deallocated is not to be deallocated again,
/// however often it is released.
pub proof fn lemma_no_dealloc_while_deallocating(entry: ObjectEntry, n: nat)
    requires
        entry.deallocating,
    ensures
        entry.deallocs_in(n) == 0,
    decreases n,
{
    if n > 0 && entry.released() is Some {
        lemma_no_dealloc_while_deallocating(entry.released().unwrap().0, (n - 1) as nat);
    }
}

/// An object that is created, retained `n` times and then released is to be
/// deallocated at the release after the `n`-th, not before it, and not
/// again after it.
pub proof fn lemma_balanced_release_deallocates_once(payload: HostPayload, n: nat, releases: nat)
    requires
        n < u32::MAX,
    ensures
        ObjectEntry::fresh(payload).retained_times(n) is Some,
        ObjectEntry::fresh(payload).retained_times(n).unwrap().deallocs_in(releases) == if releases
            >= n + 1 {
            1nat
        } else {
            0nat
        },
{
    let fresh = ObjectEntry::fresh(payload);
    lemma_retained_times(fresh, n);
    lemma_deallocs_in(fresh.retained_times(n).unwrap(), releases);
}

/// The objects that are alive.
pub struct ObjectStore {
    objects: HashMap<u32, ObjectEntry>,
}

impl ObjectStore {
    /// The entry of each tracked object.
    pub closed spec fn objects(&self) -> Map<ObjectHandle, ObjectEntry> {
        self.objects@
    }

    /// The invariant of the store: nil is no object, and every object has an
    /// owner.
    pub closed spec fn wf(&self) -> bool {
        forall|object: ObjectHandle| #[trigger]
            self.objects@.contains_key(object) ==> object != NIL && self.objects@[object].refcount
                >= 1
    }

    /// What `wf` says of a tracked object.
    pub proof fn lemma_wf(&self, object: ObjectHandle)
        requires
            self.wf(),
            self.objects().contains_key(object),
        ensures
            object != NIL,
            self.objects()[object].refcount >= 1,
    {
    }

    /// A store with no objects.
    pub fn new() -> (store: ObjectStore)
        ensures
            store.wf(),
            store.objects() == Map::<ObjectHandle, ObjectEntry>::empty(),
    {
        ObjectStore { objects: HashMap::new() }
    }

    /// The entry of `object`, if it is tracked.
    pub fn get(&self, object: ObjectHandle) -> (r: Option<ObjectEntry>)
        ensures
            r == if self.objects().contains_key(object) {
                Some(self.objects()[object])
            } else {
                None
            },
    {
        match self.objects.get(&object) {
            Some(entry) => Some(*entry),
            None => None,
        }
    }

    /// Whether `object` is tracked.
    pub fn is_tracked(&self, object: ObjectHandle) -> (r: bool)
        ensures
            r == self.objects().contains_key(object),
    {
        self.objects.contains_key(&object)
    }

    /// Starts to track `object` as an object that was just created. Nil is
    /// never tracked, and no object twice.
    pub fn insert(&mut self, object: ObjectHandle, payload: HostPayload) -> (r: Result<(), Fatal>)
        requires
            old(self).wf(),
        ensures
            final(self).wf(),
            match r {
                Ok(_) => {
                    &&& object != NIL
                    &&& !old(self).objects().contains_key(object)
                    &&& final(self).objects() == old(self).objects().insert(
                        object,
                        ObjectEntry::fresh(payload),
                    )
                },
                Err(e) => {
                    &&& object == NIL || old(self).objects().contains_key(object)
                    &&& e == (Fatal::HandleInUse { object })
                    &&& final(self).objects() == old(self).objects()
                },
            },
    {
        if object == NIL || self.objects.contains_key(&object) {
            return Err(Fatal::HandleInUse { object });
        }
        self.objects.insert(object, ObjectEntry { refcount: 1, deallocating: false, payload });
        Ok(())
    }

    /// Adds an owner to `object`.
    pub fn increment_refcount(&mut self, object: ObjectHandle) -> (r: Result<(), Fatal>)
        requires
            old(self).wf(),
        ensures
            final(self).wf(),
            r == retain_outcome(old(self).objects(), object),
            final(self).objects() == after_retain(old(self).objects(), object),
    {
        let entry = match self.objects.get(&object) {
            Some(entry) => *entry,
            None => { return Err(Fatal::UntrackedObject { object }); },
        };
        if entry.refcount == u32::MAX {
            return Err(Fatal::RefcountOverflow { object });
        }
        self.objects.insert(object, ObjectEntry { refcount: entry.refcount + 1, ..entry });
        Ok(())
    }

    /// Takes an owner of `object` away, and says whether the caller is to
    /// send `dealloc` to it.
    pub fn decrement_refcount(&mut self, object: ObjectHandle) -> (r: Result<Release, Fatal>)
        requires
            old(self).wf(),
        ensures
            final(self).wf(),
            r == release_outcome(old(self).objects(), object),
            final(self).objects() == after_release(old(self).objects(), object),
    {
        let entry = match self.objects.get(&object) {
            Some(entry) => *entry,
            None => { return Err(Fatal::UntrackedObject { object }); },
        };
        if entry.refcount > 1 {
            self.objects.insert(object, ObjectEntry { refcount: entry.refcount - 1, ..entry });
            Ok(Release::Kept)
        } else if !entry.deallocating {
            self.objects.insert(object, ObjectEntry { deallocating: true, ..entry });
            Ok(Release::Dealloc)
        } else {
            Err(Fatal::DoubleDealloc { object })
        }
    }

    /// Stops tracking `object` and hands back what the host kept for it.
    pub fn remove(&mut self, object: ObjectHandle) -> (r: Result<HostPayload, Fatal>)
        requires
            old(self).wf(),
        ensures
            final(self).wf(),
            match r {
                Ok(payload) => {
                    &&& old(self).objects().contains_key(object)
                    &&& payload == old(self).objects()[object].payload
                    &&& final(self).objects() == old(self).objects().remove(object)
                },
                Err(e) => {
                    &&& !old(self).objects().contains_key(object)
                    &&& e == (Fatal::UntrackedObject { object })
                    &&& final(self).objects() == old(self).objects()
                },
            },
    {
        match self.objects.remove(&object) {
            Some(entry) => Ok(entry.payload),
            None => {
                assert(self.objects@ =~= old(self).objects@);
                Err(Fatal::UntrackedObject { object })
            },
        }
    }
}

/// What a retain of `object` answers.
pub open spec fn retain_outcome(
    objects: Map<ObjectHandle, ObjectEntry>,
    object: ObjectHandle,
) -> Result<(), Fatal> {
    if !objects.contains_key(object) {
        Err(Fatal::UntrackedObject { object })
    } else if objects[object].retained() is None {
        Err(Fatal::RefcountOverflow { object })
    } else {
        Ok(())
    }
}

/// The objects after a retain of `object`: changed only where the retain is
/// in order.
pub open spec fn after_retain(
    objects: Map<ObjectHandle, ObjectEntry>,
    object: ObjectHandle,
) -> Map<ObjectHandle, ObjectEntry> {
    if objects.contains_key(object) && objects[object].retained() is Some {
        objects.insert(object, objects[object].retained().unwrap())
    } else {
        objects
    }
}

/// What a release of `object` answers.
pub open spec fn release_outcome(
    objects: Map<ObjectHandle, ObjectEntry>,
    object: ObjectHandle,
) -> Result<Release, Fatal> {
    if !objects.contains_key(object) {
        Err(Fatal::UntrackedObject { object })
    } else {
        match objects[object].released() {
            Some((_, what)) => Ok(what),
            None => Err(Fatal::DoubleDealloc { object }),
        }
    }
}

/// The objects after a release of `object`: changed only where the release
/// is in order.
pub open spec fn after_release(
    objects: Map<ObjectHandle, ObjectEntry>,
    object: ObjectHandle,
) -> Map<ObjectHandle, ObjectEntry> {
    if objects.contains_key(object) && objects[object].released() is Some {
        objects.insert(object, objects[object].released().unwrap().0)
    } else {
        objects
    }
}

/// The objects after `n` retains of `object`.
pub open spec fn after_retains(
    objects: Map<ObjectHandle, ObjectEntry>,
    object: ObjectHandle,
    n: nat,
) -> Map<ObjectHandle, ObjectEntry>
    decreases n,
{
    if n == 0 {
        objects
    } else {
        after_retain(after_retains(objects, object, (n - 1) as nat), object)
    }
}

/// The objects after `n` releases of `object`.
pub open spec fn after_releases(
    objects: Map<ObjectHandle, ObjectEntry>,
    object: ObjectHandle,
    n: nat,
) -> Map<ObjectHandle, ObjectEntry>
    decreases n,
{
    if n == 0 {
        objects
    } else {
        after_release(after_releases(objects, object, (n - 1) as nat), object)
    }
}

/// What the `n`-th release of `object` answers, counted from 1.
pub open spec fn nth_release(
    objects: Map<ObjectHandle, ObjectEntry>,
    object: ObjectHandle,
    n: nat,
) -> Result<Release, Fatal>
    recommends
        n >= 1,
{
    release_outcome(after_releases(objects, object, (n - 1) as nat), object)
}

/// Retains and releases of a tracked object change its entry as they change
/// an entry by itself, and leave it tracked.
pub proof fn lemma_after_retains_and_releases(
    objects: Map<ObjectHandle, ObjectEntry>,
    object: ObjectHandle,
    n: nat,
)
    requires
        objects.contains_key(object),
        objects[object].refcount >= 1,
    ensures
        after_retains(objects, object, n).contains_key(object),
        after_releases(objects, object, n).contains_key(object),
        objects[object].refcount + n <= u32::MAX ==> objects[object].retained_times(n) == Some(
            after_retains(objects, object, n)[object],
        ),
        !objects[object].deallocating && n < objects[object].refcount ==> after_releases(
            objects,
            object,
            n,
        )[object] == (ObjectEntry {
            refcount: (objects[object].refcount - n) as u32,
            ..objects[object]
        }),
        !objects[object].deallocating && n >= objects[object].refcount ==> after_releases(
            objects,
            object,
            n,
        )[object] == (ObjectEntry { refcount: 1, deallocating: true, ..objects[object] }),
    decreases n,
{
    if n > 0 {
        lemma_after_retains_and_releases(objects, object, (n - 1) as nat);
        if objects[object].refcount + n <= u32::MAX {
            lemma_retained_times(objects[object], (n - 1) as nat);
            lemma_retained_times(objects[object], n);
        }
    }
}

/// An object that was just created and then retained `n` times is to be
/// deallocated at the release after the `n`-th: every release before it
/// keeps the object, that release asks for `dealloc`, and every release after
/// it is refused, so that `dealloc` is asked for once.
pub proof fn lemma_release_after_retains(
    objects: Map<ObjectHandle, ObjectEntry>,
    object: ObjectHandle,
    n: nat,
    k: nat,
)
    requires
        objects.contains_key(object),
        objects[object].refcount == 1,
        !objects[object].deallocating,
        n < u32::MAX,
        k >= 1,
    ensures
        nth_release(after_retains(objects, object, n), object, k) == if k <= n {
            Ok::<Release, Fatal>(Release::Kept)
        } else if k == n + 1 {
            Ok::<Release, Fatal>(Release::Dealloc)
        } else {
            Err::<Release, Fatal>(Fatal::DoubleDealloc { object })
        },
{
    lemma_after_retains_and_releases(objects, object, n);
    lemma_retained_times(objects[object], n);
    let retained = after_retains(objects, object, n);
    lemma_after_retains_and_releases(retained, object, (k - 1) as nat);
}

} // verus!
