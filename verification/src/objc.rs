//! The object runtime: the class table, the object store and the autorelease
//! pools of one process, and the life of an object from `alloc` to `dealloc`.
//!
//! Nil and classes count no owners: to retain, release or autorelease them
//! does nothing.

use vstd::prelude::*;
use crate::autorelease::with_object;
use crate::autorelease::AutoreleasePools;
use crate::class::class_index;
use crate::class::ClassHandle;
use crate::class::ClassModel;
use crate::class::ClassTable;
use crate::error::Fatal;
use crate::mem::block_len;
use crate::mem::overwrite;
use crate::mem::read_u32_of;
use crate::mem::word_bytes;
use crate::mem::zeros;
use crate::mem::GuestAddress;
use crate::mem::Mem;
use crate::mem::MemError;
use crate::mem::WORD_SIZE;
use crate::object::after_release;
use crate::object::after_retain;
use crate::object::release_outcome;
use crate::object::retain_outcome;
use crate::object::HostPayload;
use crate::object::ObjectEntry;
use crate::object::ObjectHandle;
use crate::object::ObjectStore;
use crate::object::Release;
use crate::object::NIL;

verus! {

/// Whether `object` counts owners: nil and classes do not.
pub open spec fn is_counted(classes: Seq<ClassModel>, object: ObjectHandle) -> bool {
    object != NIL && class_index(classes, object) is None
}

/// Why an instance of `class` cannot be made, if it cannot: the first of the
/// reasons that holds, in the order in which they stand here.
pub open spec fn alloc_refusal(
    classes: Seq<ClassModel>,
    objects: Map<ObjectHandle, ObjectEntry>,
    next_block: GuestAddress,
    memory_size: int,
    class: ClassHandle,
) -> Option<Fatal> {
    match class_index(classes, class) {
        None => Some(Fatal::UnknownClass { class }),
        Some(c) => if class_index(classes, next_block) is Some || objects.contains_key(
            next_block,
        ) {
            Some(Fatal::HandleInUse { object: next_block })
        } else if next_block + block_len(classes[c].instance_size) > memory_size {
            Some(Fatal::Memory { addr: next_block, error: MemError::OutOfMemory })
        } else {
            None
        },
    }
}

/// The bytes of a new instance of `class` that takes `size` bytes: the
/// class's handle, and zeros to the end of the block.
pub open spec fn instance_bytes(class: ClassHandle, size: u32) -> Seq<u8> {
    word_bytes(class) + zeros(block_len(size) - WORD_SIZE)
}

/// What reading the class of `object` gives: the word at its address.
pub open spec fn isa_of(bytes: Seq<u8>, object: ObjectHandle) -> Result<ClassHandle, Fatal> {
    match read_u32_of(bytes, object) {
        Ok(isa) => Ok(isa),
        Err(error) => Err(Fatal::Memory { addr: object, error }),
    }
}

/// What a retain answers.
pub open spec fn retain_result(
    classes: Seq<ClassModel>,
    objects: Map<ObjectHandle, ObjectEntry>,
    object: ObjectHandle,
) -> Result<ObjectHandle, Fatal> {
    if is_counted(classes, object) {
        match retain_outcome(objects, object) {
            Ok(_) => Ok(object),
            Err(e) => Err(e),
        }
    } else {
        Ok(object)
    }
}

/// What a release answers.
pub open spec fn release_result(
    classes: Seq<ClassModel>,
    objects: Map<ObjectHandle, ObjectEntry>,
    object: ObjectHandle,
) -> Result<Release, Fatal> {
    if is_counted(classes, object) {
        release_outcome(objects, object)
    } else {
        Ok(Release::Kept)
    }
}

/// Why an object cannot be removed, if it cannot.
pub open spec fn dealloc_refusal(
    objects: Map<ObjectHandle, ObjectEntry>,
    blocks: Map<GuestAddress, u32>,
    object: ObjectHandle,
) -> Option<Fatal> {
    if !objects.contains_key(object) {
        Some(Fatal::UntrackedObject { object })
    } else if !blocks.contains_key(object) {
        Some(Fatal::Memory { addr: object, error: MemError::NotAllocated })
    } else {
        None
    }
}

/// The object runtime of one process.
pub struct ObjC {
    pub classes: ClassTable,
    pub objects: ObjectStore,
    pub pools: AutoreleasePools,
}

impl ObjC {
    /// The invariant of the runtime: that of its parts.
    pub open spec fn wf(&self) -> bool {
        self.classes.wf() && self.objects.wf()
    }

    /// A runtime with no classes, no objects and no autorelease pool.
    pub fn new() -> (objc: ObjC)
        ensures
            objc.wf(),
            objc.classes.classes() == Seq::<ClassModel>::empty(),
            objc.classes.selectors() == Seq::<Seq<u8>>::empty(),
            objc.objects.objects() == Map::<ObjectHandle, ObjectEntry>::empty(),
            objc.pools.frames() == Seq::<Seq<ObjectHandle>>::empty(),
    {
        ObjC {
            classes: ClassTable::new(),
            objects: ObjectStore::new(),
            pools: AutoreleasePools::new(),
        }
    }

    /// Makes an instance of `class`: takes a block of the class's instance
    /// size from guest memory, which comes zeroed, writes the class's handle
    /// at its start, and tracks the object with one owner and `payload`.
    pub fn alloc_object(&mut self, class: ClassHandle, payload: HostPayload, mem: &mut Mem) -> (r:
        Result<ObjectHandle, Fatal>)
        requires
            old(self).wf(),
            old(mem).wf(),
        ensures
            final(self).wf(),
            final(mem).wf(),
            final(self).classes == old(self).classes,
            final(self).pools == old(self).pools,
            match r {
                Ok(object) => {
                    &&& alloc_refusal(
                        old(self).classes.classes(),
                        old(self).objects.objects(),
                        old(mem).next_block(),
                        old(mem).bytes().len() as int,
                        class,
                    ) is None
                    &&& object == old(mem).next_block()
                    &&& object != NIL
                    &&& final(self).objects.objects() == old(self).objects.objects().insert(
                        object,
                        ObjectEntry::fresh(payload),
                    )
                    &&& final(mem).blocks() == old(mem).blocks().insert(
                        object,
                        instance_size_of(old(self).classes.classes(), class),
                    )
                    &&& final(mem).next_block() == object + block_len(
                        instance_size_of(old(self).classes.classes(), class),
                    )
                    &&& final(mem).bytes() == overwrite(
                        old(mem).bytes(),
                        object as int,
                        instance_bytes(class, instance_size_of(old(self).classes.classes(), class)),
                    )
                    &&& isa_of(final(mem).bytes(), object) == Ok::<ClassHandle, Fatal>(class)
                },
                Err(e) => {
                    &&& alloc_refusal(
                        old(self).classes.classes(),
                        old(self).objects.objects(),
                        old(mem).next_block(),
                        old(mem).bytes().len() as int,
                        class,
                    ) == Some(e)
                    &&& final(self).objects.objects() == old(self).objects.objects()
                    &&& final(mem).blocks() == old(mem).blocks()
                    &&& final(mem).next_block() == old(mem).next_block()
                    &&& final(mem).bytes() == old(mem).bytes()
                },
            },
    {
        let size = match self.classes.instance_size(class) {
            Some(size) => size,
            None => { return Err(Fatal::UnknownClass { class }); },
        };
        let next = mem.peek_next_block();
        if self.classes.is_class(next) || self.objects.is_tracked(next) {
            return Err(Fatal::HandleInUse { object: next });
        }
        let object = match mem.allocate(size) {
            Ok(object) => object,
            Err(_) => {
                return Err(Fatal::Memory { addr: next, error: MemError::OutOfMemory });
            },
        };
        proof {
            mem.lemma_block_bounds(object);
        }
        let ghost zeroed = mem.bytes();
        let written = mem.write_u32(object, class);
        assert(written is Ok);
        proof {
            assert(mem.bytes() =~= overwrite(
                old(mem).bytes(),
                object as int,
                instance_bytes(class, size),
            ));
            assert(mem.bytes().subrange(object as int, object + 4) =~= word_bytes(class));
            crate::mem::lemma_word_of_bytes(class);
        }
        let tracked_now = self.objects.insert(object, payload);
        assert(tracked_now is Ok);
        Ok(object)
    }

    /// Adds an owner to `object` and hands `object` back.
    pub fn retain(&mut self, object: ObjectHandle) -> (r: Result<ObjectHandle, Fatal>)
        requires
            old(self).wf(),
        ensures
            final(self).wf(),
            final(self).classes == old(self).classes,
            final(self).pools == old(self).pools,
            r == retain_result(old(self).classes.classes(), old(self).objects.objects(), object),
            final(self).objects.objects() == if is_counted(old(self).classes.classes(), object) {
                after_retain(old(self).objects.objects(), object)
            } else {
                old(self).objects.objects()
            },
    {
        if object == NIL || self.classes.is_class(object) {
            return Ok(object);
        }
        match self.objects.increment_refcount(object) {
            Ok(_) => Ok(object),
            Err(e) => Err(e),
        }
    }

    /// Takes an owner of `object` away. Where it was the last one, the
    /// object stays tracked and the caller is to send it `dealloc`.
    pub fn release(&mut self, object: ObjectHandle) -> (r: Result<Release, Fatal>)
        requires
            old(self).wf(),
        ensures
            final(self).wf(),
            final(self).classes == old(self).classes,
            final(self).pools == old(self).pools,
            r == release_result(old(self).classes.classes(), old(self).objects.objects(), object),
            final(self).objects.objects() == if is_counted(old(self).classes.classes(), object) {
                after_release(old(self).objects.objects(), object)
            } else {
                old(self).objects.objects()
            },
    {
        if object == NIL || self.classes.is_class(object) {
            return Ok(Release::Kept);
        }
        self.objects.decrement_refcount(object)
    }

    /// Notes `object` in the innermost autorelease pool, so that it is
    /// released once when that pool is popped, and hands `object` back.
    /// Without a pool the object is not noted and will not be released.
    pub fn autorelease(&mut self, object: ObjectHandle) -> (r: ObjectHandle)
        requires
            old(self).wf(),
        ensures
            final(self).wf(),
            final(self).classes == old(self).classes,
            final(self).objects == old(self).objects,
            r == object,
            final(self).pools.frames() == if is_counted(old(self).classes.classes(), object) {
                with_object(old(self).pools.frames(), object)
            } else {
                old(self).pools.frames()
            },
    {
        if object == NIL || self.classes.is_class(object) {
            return object;
        }
        self.pools.add_object(object);
        object
    }

    /// Removes `object` from the store and gives its block of guest memory
    /// up. Hands back what the host kept for the object, to be dropped.
    pub fn dealloc_object(&mut self, object: ObjectHandle, mem: &mut Mem) -> (r: Result<
        HostPayload,
        Fatal,
    >)
        requires
            old(self).wf(),
            old(mem).wf(),
        ensures
            final(self).wf(),
            final(mem).wf(),
            final(self).classes == old(self).classes,
            final(self).pools == old(self).pools,
            final(mem).bytes() == old(mem).bytes(),
            final(mem).next_block() == old(mem).next_block(),
            match r {
                Ok(payload) => {
                    &&& dealloc_refusal(
                        old(self).objects.objects(),
                        old(mem).blocks(),
                        object,
                    ) is None
                    &&& payload == old(self).objects.objects()[object].payload
                    &&& final(self).objects.objects() == old(self).objects.objects().remove(object)
                    &&& final(mem).blocks() == old(mem).blocks().remove(object)
                },
                Err(e) => {
                    &&& dealloc_refusal(old(self).objects.objects(), old(mem).blocks(), object)
                        == Some(e)
                    &&& final(self).objects.objects() == old(self).objects.objects()
                    &&& final(mem).blocks() == old(mem).blocks()
                },
            },
    {
        if !self.objects.is_tracked(object) {
            return Err(Fatal::UntrackedObject { object });
        }
        if !mem.is_allocated(object) {
            return Err(Fatal::Memory { addr: object, error: MemError::NotAllocated });
        }
        let freed = mem.free(object);
        assert(freed is Ok);
        match self.objects.remove(object) {
            Ok(payload) => Ok(payload),
            Err(e) => Err(e),
        }
    }

    /// Reads the class of `object` from the word at its address.
    pub fn read_isa(object: ObjectHandle, mem: &Mem) -> (r: Result<ClassHandle, Fatal>)
        requires
            mem.wf(),
        ensures
            r == isa_of(mem.bytes(), object),
    {
        match mem.read_u32(object) {
            Ok(isa) => Ok(isa),
            Err(error) => Err(Fatal::Memory { addr: object, error }),
        }
    }
}

/// The instance size of `class`.
pub open spec fn instance_size_of(classes: Seq<ClassModel>, class: ClassHandle) -> u32 {
    classes[class_index(classes, class).unwrap()].instance_size
}

} // verus!
