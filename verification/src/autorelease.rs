//! Autorelease pools: releases put off until a scope is left.
//!
//! The pools are a stack of frames. An object that is autoreleased is noted
//! in the innermost frame. When a frame is popped, each object noted in it is
//! owed one release, in the order in which the objects were noted.

use vstd::prelude::*;
use crate::object::ObjectHandle;

verus! {

/// The frames after `object` was noted: at the end of the innermost frame,
/// or nowhere if there is no frame.
pub open spec fn with_object(
    frames: Seq<Seq<ObjectHandle>>,
    object: ObjectHandle,
) -> Seq<Seq<ObjectHandle>> {
    if frames.len() == 0 {
        frames
    } else {
        frames.update(frames.len() - 1, frames.last().push(object))
    }
}

/// The frames after each of `objects` was noted, first to last.
pub open spec fn with_objects(
    frames: Seq<Seq<ObjectHandle>>,
    objects: Seq<ObjectHandle>,
) -> Seq<Seq<ObjectHandle>>
    decreases objects.len(),
{
    if objects.len() == 0 {
        frames
    } else {
        with_object(with_objects(frames, objects.drop_last()), objects.last())
    }
}

/// Objects noted in a frame stand in it after what it held, in the order in
/// which they were noted, and the frames around it are as they were.
pub proof fn lemma_with_objects(frames: Seq<Seq<ObjectHandle>>, objects: Seq<ObjectHandle>)
    requires
        frames.len() > 0,
    ensures
        with_objects(frames, objects) == frames.drop_last().push(frames.last() + objects),
    decreases objects.len(),
{
    if objects.len() == 0 {
        assert(frames.last() + objects =~= frames.last());
        assert(frames =~= frames.drop_last().push(frames.last()));
    } else {
        lemma_with_objects(frames, objects.drop_last());
        let before = frames.drop_last().push(frames.last() + objects.drop_last());
        assert(before.last().push(objects.last()) =~= frames.last() + objects);
        assert(with_object(before, objects.last()) =~= frames.drop_last().push(
            frames.last() + objects,
        ));
    }
}

/// Popping a frame that was pushed and had objects noted in it gives those
/// objects, in the order in which they were noted, and leaves the frames that
/// were there before the push.
pub proof fn lemma_drain_order(frames: Seq<Seq<ObjectHandle>>, objects: Seq<ObjectHandle>)
    ensures
        with_objects(frames.push(Seq::empty()), objects).last() == objects,
        with_objects(frames.push(Seq::empty()), objects).drop_last() == frames,
{
    let pushed = frames.push(Seq::<ObjectHandle>::empty());
    lemma_with_objects(pushed, objects);
    assert(pushed.drop_last() =~= frames);
    assert(pushed.last() + objects =~= objects);
    assert(frames.push(objects).drop_last() =~= frames);
}

/// A frame that was popped and is being drained: the objects noted in it
/// that are still owed their release. An object leaves it when it is taken
/// to be released, so none is released twice for one note.
pub struct Drain {
    objects: Vec<ObjectHandle>,
    next: usize,
}

impl Drain {
    /// The objects that are still owed a release, in the order in which they
    /// were noted.
    pub closed spec fn owed(&self) -> Seq<ObjectHandle> {
        if self.next <= self.objects@.len() {
            self.objects@.skip(self.next as int)
        } else {
            Seq::empty()
        }
    }

    /// How many objects are still owed a release.
    pub fn remaining(&self) -> (n: usize)
        ensures
            n == self.owed().len(),
    {
        if self.next <= self.objects.len() {
            self.objects.len() - self.next
        } else {
            0
        }
    }

    /// Takes the object that is to be released next: of those still owed a
    /// release, the one that was noted first.
    pub fn next_object(&mut self) -> (r: Option<ObjectHandle>)
        ensures
            match r {
                Some(object) => {
                    &&& old(self).owed().len() > 0
                    &&& object == old(self).owed()[0]
                    &&& final(self).owed() == old(self).owed().skip(1)
                },
                None => {
                    &&& old(self).owed().len() == 0
                    &&& final(self).owed() == old(self).owed()
                },
            },
    {
        if self.next < self.objects.len() {
            let object = self.objects[self.next];
            self.next = self.next + 1;
            assert(self.owed() =~= old(self).owed().skip(1));
            Some(object)
        } else {
            None
        }
    }
}

/// The stack of autorelease pool frames.
pub struct AutoreleasePools {
    frames: Vec<Vec<ObjectHandle>>,
}

impl AutoreleasePools {
    /// The frames, outermost first, each with the objects noted in it in the
    /// order in which they were noted.
    pub closed spec fn frames(&self) -> Seq<Seq<ObjectHandle>> {
        Seq::new(self.frames@.len(), |i: int| self.frames@[i]@)
    }

    /// No frames.
    pub fn new() -> (pools: AutoreleasePools)
        ensures
            pools.frames() == Seq::<Seq<ObjectHandle>>::empty(),
    {
        let pools = AutoreleasePools { frames: Vec::new() };
        assert(pools.frames() =~= Seq::<Seq<ObjectHandle>>::empty());
        pools
    }

    /// How many frames there are.
    pub fn depth(&self) -> (n: usize)
        ensures
            n == self.frames().len(),
    {
        self.frames.len()
    }

    /// Opens a frame inside the innermost one.
    pub fn push(&mut self)
        ensures
            final(self).frames() == old(self).frames().push(Seq::empty()),
    {
        self.frames.push(Vec::new());
        assert(self.frames() =~= old(self).frames().push(Seq::empty()));
    }

    /// Notes `object` in the innermost frame, and says whether there was a
    /// frame to note it in.
    pub fn add_object(&mut self, object: ObjectHandle) -> (noted: bool)
        ensures
            noted == (old(self).frames().len() > 0),
            final(self).frames() == with_object(old(self).frames(), object),
    {
        let n = self.frames.len();
        if n == 0 {
            assert(self.frames() =~= with_object(old(self).frames(), object));
            return false;
        }
        self.frames[n - 1].push(object);
        assert(self.frames() =~= with_object(old(self).frames(), object));
        true
    }

    /// Closes the innermost frame and hands back the objects noted in it, in
    /// the order in which they were noted. Each is owed one release.
    pub fn pop(&mut self) -> (r: Option<Vec<ObjectHandle>>)
        ensures
            match r {
                Some(objects) => {
                    &&& old(self).frames().len() > 0
                    &&& objects@ == old(self).frames().last()
                    &&& final(self).frames() == old(self).frames().drop_last()
                },
                None => {
                    &&& old(self).frames().len() == 0
                    &&& final(self).frames() == old(self).frames()
                },
            },
    {
        match self.frames.pop() {
            Some(objects) => {
                assert(self.frames() =~= old(self).frames().drop_last());
                Some(objects)
            },
            None => {
                assert(self.frames() =~= old(self).frames());
                None
            },
        }
    }

    /// Closes the innermost frame to drain it: every object noted in it is
    /// owed one release, in the order in which the objects were noted.
    pub fn drain(&mut self) -> (r: Option<Drain>)
        ensures
            match r {
                Some(drain) => {
                    &&& old(self).frames().len() > 0
                    &&& drain.owed() == old(self).frames().last()
                    &&& final(self).frames() == old(self).frames().drop_last()
                },
                None => {
                    &&& old(self).frames().len() == 0
                    &&& final(self).frames() == old(self).frames()
                },
            },
    {
        match self.pop() {
            Some(objects) => {
                let drain = Drain { objects, next: 0 };
                assert(drain.owed() =~= old(self).frames().last());
                Some(drain)
            },
            None => None,
        }
    }
}

} // verus!
