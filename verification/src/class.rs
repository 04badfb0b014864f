//! The class table: classes, their methods and variables, and the hierarchy.
//!
//! A class is registered once, under a name of its own and below a class that
//! was registered before it, so the hierarchy is a forest by construction.
//! Everything that is looked up in a class (a method, a variable, whether
//! variables may be written directly) is looked up in the class itself first
//! and then in its superclasses, nearest first.

use vstd::prelude::*;
use std::collections::HashMap;
use crate::mem::GuestAddress;
use crate::mem::Mem;
use crate::mem::MemError;
use crate::mem::WORD_SIZE;
use crate::selector::bytes_eq;
use crate::selector::names_selector;
use crate::selector::selector_of;
use crate::selector::Selector;
use crate::selector::SelectorTable;

verus! {

broadcast use vstd::std_specs::hash::group_hash_axioms;

/// The guest address of a class's metadata block.
pub type ClassHandle = GuestAddress;

/// The size of the metadata block that a class has in guest memory: the word
/// that objects have for their class, and the handle of the superclass.
pub const CLASS_BLOCK_SIZE: u32 = 8;

/// The implementation of a method: something the embedder can invoke.
#[derive(Copy, Clone, Debug, PartialEq, Eq, Structural)]
pub enum Imp {
    /// A function of the host, by its number in the embedder's table.
    Host(u32),
    /// A function of the guest, by its address.
    Guest(GuestAddress),
}

/// Whether a method is one of the class's instances or of the class itself.
#[derive(Copy, Clone, Debug, PartialEq, Eq, Structural)]
pub enum Side {
    Instance,
    Class,
}

/// Why the class table refused an operation.
#[derive(Copy, Clone, Debug, PartialEq, Eq, Structural)]
pub enum ClassError {
    /// A class of that name is registered already.
    NameTaken,
    /// The superclass named is not a registered class.
    UnknownSuperclass,
    /// The handle is not that of a registered class.
    UnknownClass,
    /// An instance must at least hold the word for its class.
    InstanceTooSmall,
    /// Guest memory had no block for the class's metadata.
    Memory(MemError),
    /// Guest memory handed out an address that is a class's handle already.
    HandleInUse,
}

/// What the table knows of one class.
pub struct ClassModel {
    pub name: Seq<u8>,
    pub handle: ClassHandle,
    /// The superclass, by its place in the table.
    pub superclass: Option<int>,
    /// The size of an instance in bytes, the word for its class included.
    pub instance_size: u32,
    /// Whether variables of instances may be written directly, if the class
    /// says so itself.
    pub direct_ivar_access: Option<bool>,
    pub instance_methods: Map<Selector, Imp>,
    pub class_methods: Map<Selector, Imp>,
    /// The byte offset of each variable in an instance.
    pub ivars: Map<Selector, u32>,
}

impl ClassModel {
    /// The methods of one side.
    pub open spec fn methods(self, side: Side) -> Map<Selector, Imp> {
        match side {
            Side::Instance => self.instance_methods,
            Side::Class => self.class_methods,
        }
    }
}

/// The class at place `i` has the handle `handle`.
pub open spec fn class_at(classes: Seq<ClassModel>, handle: ClassHandle, i: int) -> bool {
    0 <= i < classes.len() && classes[i].handle == handle
}

/// The place in the table of the class with the handle `handle`.
pub open spec fn class_index(classes: Seq<ClassModel>, handle: ClassHandle) -> Option<int> {
    if exists|i: int| class_at(classes, handle, i) {
        Some(choose|i: int| class_at(classes, handle, i))
    } else {
        None
    }
}

/// The class at place `i` has the name `name`.
pub open spec fn class_named_at(classes: Seq<ClassModel>, name: Seq<u8>, i: int) -> bool {
    0 <= i < classes.len() && classes[i].name == name
}

/// The handle of the class registered under `name`.
pub open spec fn class_named(classes: Seq<ClassModel>, name: Seq<u8>) -> Option<ClassHandle> {
    if exists|i: int| class_named_at(classes, name, i) {
        Some(classes[choose|i: int| class_named_at(classes, name, i)].handle)
    } else {
        None
    }
}

/// The place of the superclass of the class at place `c`, if it has one.
pub open spec fn parent(classes: Seq<ClassModel>, c: int) -> Option<int> {
    if 0 <= c < classes.len() {
        match classes[c].superclass {
            Some(s) => if 0 <= s < c {
                Some(s)
            } else {
                None
            },
            None => None,
        }
    } else {
        None
    }
}

/// The class at place `a` is the class at place `c` or one of its
/// superclasses.
pub open spec fn is_ancestor(classes: Seq<ClassModel>, c: int, a: int) -> bool
    decreases c,
{
    if 0 <= c < classes.len() {
        c == a || match parent(classes, c) {
            Some(s) => is_ancestor(classes, s, a),
            None => false,
        }
    } else {
        false
    }
}

/// The implementation that the class at place `c` has for `sel`: its own, or
/// else that of the nearest superclass that has one.
pub open spec fn method_in(classes: Seq<ClassModel>, c: int, side: Side, sel: Selector) -> Option<
    Imp,
>
    decreases c,
{
    if 0 <= c < classes.len() {
        if classes[c].methods(side).contains_key(sel) {
            Some(classes[c].methods(side)[sel])
        } else {
            match parent(classes, c) {
                Some(s) => method_in(classes, s, side, sel),
                None => None,
            }
        }
    } else {
        None
    }
}

/// The offset that the variable `sel` has in instances of the class at place
/// `c`: as the class declares it, or else the nearest superclass that does.
pub open spec fn ivar_in(classes: Seq<ClassModel>, c: int, sel: Selector) -> Option<u32>
    decreases c,
{
    if 0 <= c < classes.len() {
        if classes[c].ivars.contains_key(sel) {
            Some(classes[c].ivars[sel])
        } else {
            match parent(classes, c) {
                Some(s) => ivar_in(classes, s, sel),
                None => None,
            }
        }
    } else {
        None
    }
}

/// Whether variables of instances of the class at place `c` may be written
/// directly: as the class says, or else the nearest superclass that says
/// anything; not, where none does.
pub open spec fn direct_access_in(classes: Seq<ClassModel>, c: int) -> bool
    decreases c,
{
    if 0 <= c < classes.len() {
        match classes[c].direct_ivar_access {
            Some(flag) => flag,
            None => match parent(classes, c) {
                Some(s) => direct_access_in(classes, s),
                None => false,
            },
        }
    } else {
        false
    }
}

/// `a` is `b` or a class below it.
pub open spec fn subclass_of(classes: Seq<ClassModel>, a: ClassHandle, b: ClassHandle) -> bool {
    a == b || match (class_index(classes, a), class_index(classes, b)) {
        (Some(i), Some(j)) => is_ancestor(classes, i, j),
        _ => false,
    }
}

/// The handle of the class directly above `class`.
pub open spec fn superclass_handle(classes: Seq<ClassModel>, class: ClassHandle) -> Option<
    ClassHandle,
> {
    match class_index(classes, class) {
        Some(c) => match parent(classes, c) {
            Some(s) => Some(classes[s].handle),
            None => None,
        },
        None => None,
    }
}

/// The implementation that the class `class` has for `sel`.
pub open spec fn method_of(
    classes: Seq<ClassModel>,
    class: ClassHandle,
    side: Side,
    sel: Selector,
) -> Option<Imp> {
    match class_index(classes, class) {
        Some(c) => method_in(classes, c, side, sel),
        None => None,
    }
}

/// The offset that the variable `sel` has in instances of `class`.
pub open spec fn ivar_of(classes: Seq<ClassModel>, class: ClassHandle, sel: Selector) -> Option<
    u32,
> {
    match class_index(classes, class) {
        Some(c) => ivar_in(classes, c, sel),
        None => None,
    }
}

/// Whether variables of instances of `class` may be written directly.
pub open spec fn direct_access_of(classes: Seq<ClassModel>, class: ClassHandle) -> bool {
    match class_index(classes, class) {
        Some(c) => direct_access_in(classes, c),
        None => false,
    }
}

/// The invariant of the hierarchy: handles and names tell classes apart, no
/// handle is nil, an instance holds at least the word for its class, and a
/// superclass was registered before the classes below it.
pub open spec fn hierarchy_wf(classes: Seq<ClassModel>) -> bool {
    &&& forall|i: int, j: int|
        0 <= i < classes.len() && 0 <= j < classes.len() && #[trigger] classes[i].handle
            == #[trigger] classes[j].handle ==> i == j
    &&& forall|i: int, j: int|
        0 <= i < classes.len() && 0 <= j < classes.len() && #[trigger] classes[i].name
            == #[trigger] classes[j].name ==> i == j
    &&& forall|i: int|
        0 <= i < classes.len() ==> {
            &&& (#[trigger] classes[i]).handle != 0
            &&& classes[i].instance_size >= WORD_SIZE
            &&& classes[i].superclass is Some ==> 0 <= classes[i].superclass.unwrap() < i
        }
}

/// Every selector that the class declares is one of the first `selectors`
/// interned names.
pub open spec fn class_selectors_known(class: ClassModel, selectors: int) -> bool {
    &&& forall|sel: Selector| #[trigger]
        class.instance_methods.contains_key(sel) ==> sel.index < selectors
    &&& forall|sel: Selector| #[trigger]
        class.class_methods.contains_key(sel) ==> sel.index < selectors
    &&& forall|sel: Selector| #[trigger] class.ivars.contains_key(sel) ==> sel.index < selectors
}

/// Every selector that a class declares is one of the first `selectors`
/// interned names.
pub open spec fn selectors_known(classes: Seq<ClassModel>, selectors: int) -> bool {
    forall|i: int|
        0 <= i < classes.len() ==> class_selectors_known(#[trigger] classes[i], selectors)
}

/// A handle is that of one class at most.
pub proof fn lemma_class_index(classes: Seq<ClassModel>, handle: ClassHandle, i: int)
    requires
        hierarchy_wf(classes),
        class_at(classes, handle, i),
    ensures
        class_index(classes, handle) == Some(i),
{
    let found = choose|found: int| class_at(classes, handle, found);
    assert(classes[found].handle == classes[i].handle);
}

/// A class stands in the table after its superclasses.
pub proof fn lemma_ancestor_is_earlier(classes: Seq<ClassModel>, c: int, a: int)
    requires
        is_ancestor(classes, c, a),
    ensures
        0 <= a <= c < classes.len(),
    decreases c,
{
    if c != a {
        lemma_ancestor_is_earlier(classes, parent(classes, c).unwrap(), a);
    }
}

/// A superclass of a superclass is a superclass.
pub proof fn lemma_ancestor_transitive(classes: Seq<ClassModel>, c: int, b: int, a: int)
    requires
        is_ancestor(classes, c, b),
        is_ancestor(classes, b, a),
    ensures
        is_ancestor(classes, c, a),
    decreases c,
{
    if c != b {
        lemma_ancestor_transitive(classes, parent(classes, c).unwrap(), b, a);
    }
}

/// A class has every method that a class above it has.
pub proof fn lemma_ancestor_method(
    classes: Seq<ClassModel>,
    c: int,
    a: int,
    side: Side,
    sel: Selector,
)
    requires
        is_ancestor(classes, c, a),
        method_in(classes, a, side, sel) is Some,
    ensures
        method_in(classes, c, side, sel) is Some,
    decreases c,
{
    if c != a {
        lemma_ancestor_method(classes, parent(classes, c).unwrap(), a, side, sel);
    }
}

/// A class has every variable that a class above it has.
pub proof fn lemma_ancestor_ivar(classes: Seq<ClassModel>, c: int, a: int, sel: Selector)
    requires
        is_ancestor(classes, c, a),
        ivar_in(classes, a, sel) is Some,
    ensures
        ivar_in(classes, c, sel) is Some,
    decreases c,
{
    if c != a {
        lemma_ancestor_ivar(classes, parent(classes, c).unwrap(), a, sel);
    }
}

/// Every class is a subclass of itself.
pub proof fn lemma_subclass_reflexive(classes: Seq<ClassModel>, a: ClassHandle)
    ensures
        subclass_of(classes, a, a),
{
}

/// A subclass of a subclass is a subclass.
pub proof fn lemma_subclass_transitive(
    classes: Seq<ClassModel>,
    a: ClassHandle,
    b: ClassHandle,
    c: ClassHandle,
)
    requires
        subclass_of(classes, a, b),
        subclass_of(classes, b, c),
    ensures
        subclass_of(classes, a, c),
{
    if a != b && b != c {
        lemma_ancestor_transitive(
            classes,
            class_index(classes, a).unwrap(),
            class_index(classes, b).unwrap(),
            class_index(classes, c).unwrap(),
        );
    }
}

/// Two classes that are subclasses of each other are one class: the
/// hierarchy has no cycle.
pub proof fn lemma_subclass_antisymmetric(classes: Seq<ClassModel>, a: ClassHandle, b: ClassHandle)
    requires
        hierarchy_wf(classes),
        subclass_of(classes, a, b),
        subclass_of(classes, b, a),
    ensures
        a == b,
{
    if a != b {
        let i = class_index(classes, a).unwrap();
        let j = class_index(classes, b).unwrap();
        lemma_ancestor_is_earlier(classes, i, j);
        lemma_ancestor_is_earlier(classes, j, i);
    }
}

/// A method that a class has is found in each of its subclasses: in the
/// subclass itself or in the nearest class above it that has one.
pub proof fn lemma_method_inherited(
    classes: Seq<ClassModel>,
    sub: ClassHandle,
    sup: ClassHandle,
    side: Side,
    sel: Selector,
)
    requires
        subclass_of(classes, sub, sup),
        method_of(classes, sup, side, sel) is Some,
    ensures
        method_of(classes, sub, side, sel) is Some,
{
    if sub != sup {
        lemma_ancestor_method(
            classes,
            class_index(classes, sub).unwrap(),
            class_index(classes, sup).unwrap(),
            side,
            sel,
        );
    }
}

/// A method that a class declares itself is the one found in it, whatever the
/// classes above it declare.
pub proof fn lemma_own_method_wins(
    classes: Seq<ClassModel>,
    class: ClassHandle,
    side: Side,
    sel: Selector,
)
    requires
        class_index(classes, class) is Some,
        classes[class_index(classes, class).unwrap()].methods(side).contains_key(sel),
    ensures
        method_of(classes, class, side, sel) == Some(
            classes[class_index(classes, class).unwrap()].methods(side)[sel],
        ),
{
}

/// The names of the selectors among the first `upto` that `class` has a
/// method for, in the order in which they were interned.
pub open spec fn responding_names(
    classes: Seq<ClassModel>,
    names: Seq<Seq<u8>>,
    class: ClassHandle,
    side: Side,
    upto: nat,
) -> Seq<Seq<u8>>
    decreases upto,
{
    if upto == 0 || upto > names.len() || upto > usize::MAX {
        Seq::empty()
    } else {
        let before = responding_names(classes, names, class, side, (upto - 1) as nat);
        if method_of(classes, class, side, Selector { index: (upto - 1) as usize }) is Some {
            before.push(names[upto - 1])
        } else {
            before
        }
    }
}

/// A table by selector index as a table by selector.
pub open spec fn by_selector<V>(table: Map<usize, V>) -> Map<Selector, V> {
    Map::new(|sel: Selector| table.contains_key(sel.index), |sel: Selector| table[sel.index])
}

/// One registered class.
pub struct ClassInfo {
    name: Vec<u8>,
    handle: ClassHandle,
    superclass: Option<usize>,
    instance_size: u32,
    direct_ivar_access: Option<bool>,
    instance_methods: HashMap<usize, Imp>,
    class_methods: HashMap<usize, Imp>,
    ivars: HashMap<usize, u32>,
}

impl ClassInfo {
    /// What the table knows of this class.
    pub closed spec fn model(&self) -> ClassModel {
        ClassModel {
            name: self.name@,
            handle: self.handle,
            superclass: match self.superclass {
                Some(s) => Some(s as int),
                None => None,
            },
            instance_size: self.instance_size,
            direct_ivar_access: self.direct_ivar_access,
            instance_methods: by_selector(self.instance_methods@),
            class_methods: by_selector(self.class_methods@),
            ivars: by_selector(self.ivars@),
        }
    }
}

/// Why a class cannot be registered, if it cannot: the first of the reasons
/// that holds, in the order in which they stand here.
pub open spec fn registration_refusal(
    classes: Seq<ClassModel>,
    next_block: GuestAddress,
    memory_size: int,
    name: Seq<u8>,
    superclass: Option<ClassHandle>,
    instance_size: u32,
) -> Option<ClassError> {
    if exists|i: int| class_named_at(classes, name, i) {
        Some(ClassError::NameTaken)
    } else if superclass is Some && class_index(classes, superclass.unwrap()) is None {
        Some(ClassError::UnknownSuperclass)
    } else if instance_size < WORD_SIZE {
        Some(ClassError::InstanceTooSmall)
    } else if class_index(classes, next_block) is Some {
        Some(ClassError::HandleInUse)
    } else if next_block + CLASS_BLOCK_SIZE > memory_size {
        Some(ClassError::Memory(MemError::OutOfMemory))
    } else {
        None
    }
}

/// A class as it is right after it was registered: with no methods and no
/// variables, and with no word on direct access to variables.
pub open spec fn new_class(
    classes: Seq<ClassModel>,
    handle: ClassHandle,
    name: Seq<u8>,
    superclass: Option<ClassHandle>,
    instance_size: u32,
) -> ClassModel {
    ClassModel {
        name,
        handle,
        superclass: match superclass {
            Some(s) => class_index(classes, s),
            None => None,
        },
        instance_size,
        direct_ivar_access: None,
        instance_methods: Map::empty(),
        class_methods: Map::empty(),
        ivars: Map::empty(),
    }
}

/// The handle of a superclass as it stands in a class's metadata block: nil
/// where there is none.
pub open spec fn superclass_word(superclass: Option<ClassHandle>) -> u32 {
    match superclass {
        Some(s) => s,
        None => 0,
    }
}

impl ClassModel {
    /// This class with `imp` as its own implementation of `sel`.
    pub open spec fn with_method(self, side: Side, sel: Selector, imp: Imp) -> ClassModel {
        match side {
            Side::Instance => ClassModel {
                instance_methods: self.instance_methods.insert(sel, imp),
                ..self
            },
            Side::Class => ClassModel { class_methods: self.class_methods.insert(sel, imp), ..self },
        }
    }

    /// This class with a variable `sel` of its own at `offset`.
    pub open spec fn with_ivar(self, sel: Selector, offset: u32) -> ClassModel {
        ClassModel { ivars: self.ivars.insert(sel, offset), ..self }
    }

    /// This class with its own word on whether variables may be written
    /// directly.
    pub open spec fn with_direct_ivar_access(self, flag: bool) -> ClassModel {
        ClassModel { direct_ivar_access: Some(flag), ..self }
    }
}

/// The selectors and the classes of one process.
pub struct ClassTable {
    selectors: SelectorTable,
    classes: Vec<ClassInfo>,
}

impl ClassTable {
    /// The classes, in the order in which they were registered.
    pub closed spec fn classes(&self) -> Seq<ClassModel> {
        Seq::new(self.classes@.len(), |i: int| self.classes@[i].model())
    }

    /// The interned names, by selector.
    pub closed spec fn selectors(&self) -> Seq<Seq<u8>> {
        self.selectors.names()
    }

    /// The invariant of the table.
    pub closed spec fn wf(&self) -> bool {
        &&& self.selectors.wf()
        &&& hierarchy_wf(self.classes())
        &&& selectors_known(self.classes(), self.selectors().len() as int)
    }

    /// What `wf` says.
    pub proof fn lemma_wf(&self)
        requires
            self.wf(),
        ensures
            crate::selector::distinct_names(self.selectors()),
            hierarchy_wf(self.classes()),
            selectors_known(self.classes(), self.selectors().len() as int),
    {
        self.selectors.lemma_wf();
    }

    /// A table with no selectors and no classes.
    pub fn new() -> (table: ClassTable)
        ensures
            table.wf(),
            table.classes() == Seq::<ClassModel>::empty(),
            table.selectors() == Seq::<Seq<u8>>::empty(),
    {
        let table = ClassTable { selectors: SelectorTable::new(), classes: Vec::new() };
        assert(table.classes() =~= Seq::<ClassModel>::empty());
        table
    }

    /// The place of the class with the handle `handle`.
    fn find_class(&self, handle: ClassHandle) -> (r: Option<usize>)
        requires
            self.wf(),
        ensures
            match r {
                Some(i) => class_index(self.classes(), handle) == Some(i as int),
                None => class_index(self.classes(), handle) is None,
            },
            r is Some ==> r.unwrap() < self.classes().len(),
    {
        let mut i: usize = 0;
        while i < self.classes.len()
            invariant
                self.wf(),
                i <= self.classes@.len(),
                forall|j: int| 0 <= j < i ==> self.classes()[j].handle != handle,
            decreases self.classes@.len() - i,
        {
            if self.classes[i].handle == handle {
                proof {
                    lemma_class_index(self.classes(), handle, i as int);
                }
                return Some(i);
            }
            i += 1;
        }
        None
    }

    /// The place of the class with the name `name`.
    fn find_class_named(&self, name: &[u8]) -> (r: Option<usize>)
        requires
            self.wf(),
        ensures
            match r {
                Some(i) => class_named_at(self.classes(), name@, i as int),
                None => forall|i: int| !class_named_at(self.classes(), name@, i),
            },
    {
        let mut i: usize = 0;
        while i < self.classes.len()
            invariant
                self.wf(),
                i <= self.classes@.len(),
                forall|j: int| 0 <= j < i ==> self.classes()[j].name != name@,
            decreases self.classes@.len() - i,
        {
            if bytes_eq(self.classes[i].name.as_slice(), name) {
                return Some(i);
            }
            i += 1;
        }
        None
    }

    /// Registers a class under `name`, below `superclass` if one is given. Its
    /// metadata block is taken from guest memory and holds nil where objects
    /// have their class, and the superclass's handle after it.
    pub fn register_class(
        &mut self,
        mem: &mut Mem,
        name: &[u8],
        superclass: Option<ClassHandle>,
        instance_size: u32,
    ) -> (r: Result<ClassHandle, ClassError>)
        requires
            old(self).wf(),
            old(mem).wf(),
        ensures
            final(self).wf(),
            final(mem).wf(),
            final(self).selectors() == old(self).selectors(),
            match r {
                Ok(handle) => {
                    &&& registration_refusal(
                        old(self).classes(),
                        old(mem).next_block(),
                        old(mem).bytes().len() as int,
                        name@,
                        superclass,
                        instance_size,
                    ) is None
                    &&& handle == old(mem).next_block()
                    &&& final(self).classes() == old(self).classes().push(
                        new_class(old(self).classes(), handle, name@, superclass, instance_size),
                    )
                    &&& final(mem).next_block() == handle + CLASS_BLOCK_SIZE
                    &&& final(mem).blocks() == old(mem).blocks().insert(handle, CLASS_BLOCK_SIZE)
                    &&& final(mem).bytes() == crate::mem::overwrite(
                        old(mem).bytes(),
                        handle as int,
                        crate::mem::zeros(WORD_SIZE as int) + crate::mem::word_bytes(
                            superclass_word(superclass),
                        ),
                    )
                },
                Err(e) => {
                    &&& registration_refusal(
                        old(self).classes(),
                        old(mem).next_block(),
                        old(mem).bytes().len() as int,
                        name@,
                        superclass,
                        instance_size,
                    ) == Some(e)
                    &&& final(self).classes() == old(self).classes()
                    &&& final(mem).next_block() == old(mem).next_block()
                    &&& final(mem).blocks() == old(mem).blocks()
                    &&& final(mem).bytes() == old(mem).bytes()
                },
            },
    {
        if self.find_class_named(name).is_some() {
            return Err(ClassError::NameTaken);
        }
        let parent_index = match superclass {
            Some(s) => match self.find_class(s) {
                Some(i) => Some(i),
                None => { return Err(ClassError::UnknownSuperclass); },
            },
            None => None,
        };
        if instance_size < WORD_SIZE {
            return Err(ClassError::InstanceTooSmall);
        }
        if self.find_class(mem.peek_next_block()).is_some() {
            return Err(ClassError::HandleInUse);
        }
        let handle = match mem.allocate(CLASS_BLOCK_SIZE) {
            Ok(handle) => handle,
            Err(_) => { return Err(ClassError::Memory(MemError::OutOfMemory)); },
        };
        let ghost allocated = mem.bytes();
        proof {
            mem.lemma_block_bounds(handle);
        }
        let word = match superclass {
            Some(s) => s,
            None => 0,
        };
        let written = mem.write_u32(handle + WORD_SIZE, word);
        assert(written is Ok);
        proof {
            assert(mem.bytes() =~= crate::mem::overwrite(
                old(mem).bytes(),
                handle as int,
                crate::mem::zeros(WORD_SIZE as int) + crate::mem::word_bytes(word),
            ));
        }
        let info = ClassInfo {
            name: vstd::slice::slice_to_vec(name),
            handle,
            superclass: parent_index,
            instance_size,
            direct_ivar_access: None,
            instance_methods: HashMap::new(),
            class_methods: HashMap::new(),
            ivars: HashMap::new(),
        };
        proof {
            assert(info.model().instance_methods =~= Map::<Selector, Imp>::empty());
            assert(info.model().class_methods =~= Map::<Selector, Imp>::empty());
            assert(info.model().ivars =~= Map::<Selector, u32>::empty());
            assert(info.model() == new_class(
                old(self).classes(),
                handle,
                name@,
                superclass,
                instance_size,
            ));
        }
        self.classes.push(info);
        proof {
            assert(self.classes() =~= old(self).classes().push(info.model()));
            let classes = self.classes();
            let last = old(self).classes().len() as int;
            assert forall|i: int, j: int|
                0 <= i < classes.len() && 0 <= j < classes.len() && #[trigger] classes[i].handle
                    == #[trigger] classes[j].handle implies i == j by {
                if i == last && j < last {
                    assert(class_at(old(self).classes(), handle, j));
                }
                if j == last && i < last {
                    assert(class_at(old(self).classes(), handle, i));
                }
            }
            assert forall|i: int, j: int|
                0 <= i < classes.len() && 0 <= j < classes.len() && #[trigger] classes[i].name
                    == #[trigger] classes[j].name implies i == j by {
                if i == last && j < last {
                    assert(class_named_at(old(self).classes(), name@, j));
                }
                if j == last && i < last {
                    assert(class_named_at(old(self).classes(), name@, i));
                }
            }
            assert forall|i: int| 0 <= i < classes.len() implies {
                &&& (#[trigger] classes[i]).handle != 0
                &&& classes[i].instance_size >= WORD_SIZE
                &&& classes[i].superclass is Some ==> 0 <= classes[i].superclass.unwrap() < i
            } by {
                if i < last {
                    assert(classes[i] == old(self).classes()[i]);
                }
            }
            assert(hierarchy_wf(classes));
            assert forall|i: int| 0 <= i < classes.len() implies class_selectors_known(
                #[trigger] classes[i],
                self.selectors().len() as int,
            ) by {
                if i < last {
                    assert(classes[i] == old(self).classes()[i]);
                }
            }
        }
        Ok(handle)
    }

    /// Gives the class `class` an implementation of its own for the method
    /// named `name`, in place of the one it had, if it had one. The name is
    /// interned.
    pub fn add_method(&mut self, class: ClassHandle, side: Side, name: &[u8], imp: Imp) -> (r:
        Result<Selector, ClassError>)
        requires
            old(self).wf(),
        ensures
            final(self).wf(),
            match r {
                Ok(sel) => {
                    &&& class_index(old(self).classes(), class) is Some
                    &&& final(self).selectors() == crate::selector::interned(
                        old(self).selectors(),
                        name@,
                    )
                    &&& names_selector(final(self).selectors(), sel, name@)
                    &&& final(self).classes() == old(self).classes().update(
                        class_index(old(self).classes(), class).unwrap(),
                        old(self).classes()[class_index(
                            old(self).classes(),
                            class,
                        ).unwrap()].with_method(side, sel, imp),
                    )
                },
                Err(e) => {
                    &&& e == ClassError::UnknownClass
                    &&& class_index(old(self).classes(), class) is None
                    &&& final(self).selectors() == old(self).selectors()
                    &&& final(self).classes() == old(self).classes()
                },
            },
    {
        let at = match self.find_class(class) {
            Some(at) => at,
            None => { return Err(ClassError::UnknownClass); },
        };
        let sel = self.selectors.intern(name);
        assert(self.classes() == old(self).classes());
        match side {
            Side::Instance => {
                self.classes[at].instance_methods.insert(sel.index, imp);
            },
            Side::Class => {
                self.classes[at].class_methods.insert(sel.index, imp);
            },
        }
        proof {
            let before = old(self).classes();
            let after = self.classes();
            assert(after[at as int].instance_methods =~= before[at as int].with_method(
                side,
                sel,
                imp,
            ).instance_methods);
            assert(after[at as int].class_methods =~= before[at as int].with_method(
                side,
                sel,
                imp,
            ).class_methods);
            assert(after[at as int] == before[at as int].with_method(side, sel, imp));
            assert(after =~= before.update(at as int, before[at as int].with_method(side, sel, imp)));
            self.lemma_updated(old(self), at as int);
        }
        Ok(sel)
    }

    /// Declares a variable named `name` at byte `offset` of the instances of
    /// `class`, in place of the one of that name that the class had, if it
    /// had one. The name is interned.
    pub fn add_ivar(&mut self, class: ClassHandle, name: &[u8], offset: u32) -> (r: Result<
        Selector,
        ClassError,
    >)
        requires
            old(self).wf(),
        ensures
            final(self).wf(),
            match r {
                Ok(sel) => {
                    &&& class_index(old(self).classes(), class) is Some
                    &&& final(self).selectors() == crate::selector::interned(
                        old(self).selectors(),
                        name@,
                    )
                    &&& names_selector(final(self).selectors(), sel, name@)
                    &&& final(self).classes() == old(self).classes().update(
                        class_index(old(self).classes(), class).unwrap(),
                        old(self).classes()[class_index(
                            old(self).classes(),
                            class,
                        ).unwrap()].with_ivar(sel, offset),
                    )
                },
                Err(e) => {
                    &&& e == ClassError::UnknownClass
                    &&& class_index(old(self).classes(), class) is None
                    &&& final(self).selectors() == old(self).selectors()
                    &&& final(self).classes() == old(self).classes()
                },
            },
    {
        let at = match self.find_class(class) {
            Some(at) => at,
            None => { return Err(ClassError::UnknownClass); },
        };
        let sel = self.selectors.intern(name);
        assert(self.classes() == old(self).classes());
        self.classes[at].ivars.insert(sel.index, offset);
        proof {
            let before = old(self).classes();
            let after = self.classes();
            assert(after[at as int].ivars =~= before[at as int].with_ivar(sel, offset).ivars);
            assert(after[at as int] == before[at as int].with_ivar(sel, offset));
            assert(after =~= before.update(at as int, before[at as int].with_ivar(sel, offset)));
            self.lemma_updated(old(self), at as int);
        }
        Ok(sel)
    }

    /// Lets `class` say itself whether the variables of its instances may be
    /// written directly.
    pub fn set_direct_ivar_access(&mut self, class: ClassHandle, flag: bool) -> (r: Result<
        (),
        ClassError,
    >)
        requires
            old(self).wf(),
        ensures
            final(self).wf(),
            final(self).selectors() == old(self).selectors(),
            match r {
                Ok(_) => {
                    &&& class_index(old(self).classes(), class) is Some
                    &&& final(self).classes() == old(self).classes().update(
                        class_index(old(self).classes(), class).unwrap(),
                        old(self).classes()[class_index(
                            old(self).classes(),
                            class,
                        ).unwrap()].with_direct_ivar_access(flag),
                    )
                },
                Err(e) => {
                    &&& e == ClassError::UnknownClass
                    &&& class_index(old(self).classes(), class) is None
                    &&& final(self).classes() == old(self).classes()
                },
            },
    {
        let at = match self.find_class(class) {
            Some(at) => at,
            None => { return Err(ClassError::UnknownClass); },
        };
        self.classes[at].direct_ivar_access = Some(flag);
        proof {
            let before = old(self).classes();
            let after = self.classes();
            assert(after[at as int] == before[at as int].with_direct_ivar_access(flag));
            assert(after =~= before.update(
                at as int,
                before[at as int].with_direct_ivar_access(flag),
            ));
            self.lemma_updated(old(self), at as int);
        }
        Ok(())
    }

    /// The selector of `name`, which is interned first if it was not yet.
    pub fn register_selector(&mut self, name: &[u8]) -> (sel: Selector)
        requires
            old(self).wf(),
        ensures
            final(self).wf(),
            final(self).classes() == old(self).classes(),
            final(self).selectors() == crate::selector::interned(old(self).selectors(), name@),
            selector_of(final(self).selectors(), name@) == Some(sel),
    {
        let sel = self.selectors.intern(name);
        proof {
            self.selectors.lemma_wf();
            crate::selector::lemma_selector_of(self.selectors(), sel, name@);
            assert(self.classes() == old(self).classes());
            assert forall|i: int| 0 <= i < self.classes().len() implies class_selectors_known(
                #[trigger] self.classes()[i],
                self.selectors().len() as int,
            ) by {
                assert(class_selectors_known(
                    old(self).classes()[i],
                    old(self).selectors().len() as int,
                ));
            }
        }
        sel
    }

    /// The selector of `name`, if a class declared the name. Nothing is
    /// interned here.
    pub fn lookup_selector(&self, name: &[u8]) -> (r: Option<Selector>)
        requires
            self.wf(),
        ensures
            r == selector_of(self.selectors(), name@),
    {
        self.selectors.lookup(name)
    }

    /// The name that `sel` stands for, if it is a selector of this table.
    pub fn selector_name(&self, sel: Selector) -> (r: Option<&[u8]>)
        ensures
            match r {
                Some(name) => names_selector(self.selectors(), sel, name@),
                None => sel.index >= self.selectors().len(),
            },
    {
        self.selectors.name(sel)
    }

    /// Whether `handle` is the handle of a registered class.
    pub fn is_class(&self, handle: ClassHandle) -> (r: bool)
        requires
            self.wf(),
        ensures
            r == class_index(self.classes(), handle) is Some,
    {
        self.find_class(handle).is_some()
    }

    /// The handle of the class registered under `name`.
    pub fn class_named(&self, name: &[u8]) -> (r: Option<ClassHandle>)
        requires
            self.wf(),
        ensures
            r == class_named(self.classes(), name@),
            r is Some ==> class_index(self.classes(), r.unwrap()) is Some
                && self.classes()[class_index(self.classes(), r.unwrap()).unwrap()].name == name@,
    {
        match self.find_class_named(name) {
            Some(i) => {
                proof {
                    lemma_class_index(self.classes(), self.classes()[i as int].handle, i as int);
                    let found = choose|j: int| class_named_at(self.classes(), name@, j);
                    assert(self.classes()[found].name == self.classes()[i as int].name);
                }
                Some(self.classes[i].handle)
            },
            None => None,
        }
    }

    /// The name under which `class` was registered.
    pub fn get_class_name(&self, class: ClassHandle) -> (r: Option<&[u8]>)
        requires
            self.wf(),
        ensures
            match r {
                Some(name) => class_index(self.classes(), class) is Some && name@
                    == self.classes()[class_index(self.classes(), class).unwrap()].name,
                None => class_index(self.classes(), class) is None,
            },
    {
        match self.find_class(class) {
            Some(i) => Some(self.classes[i].name.as_slice()),
            None => None,
        }
    }

    /// The size in bytes of an instance of `class`.
    pub fn instance_size(&self, class: ClassHandle) -> (r: Option<u32>)
        requires
            self.wf(),
        ensures
            match r {
                Some(size) => class_index(self.classes(), class) is Some && size
                    == self.classes()[class_index(self.classes(), class).unwrap()].instance_size
                    && size >= WORD_SIZE,
                None => class_index(self.classes(), class) is None,
            },
    {
        match self.find_class(class) {
            Some(i) => Some(self.classes[i].instance_size),
            None => None,
        }
    }

    /// The class directly above `class`; `None` for a root class and for a
    /// handle that is not a class.
    pub fn superclass_of(&self, class: ClassHandle) -> (r: Option<ClassHandle>)
        requires
            self.wf(),
        ensures
            r == superclass_handle(self.classes(), class),
    {
        match self.find_class(class) {
            Some(i) => match self.classes[i].superclass {
                Some(s) => Some(self.classes[s].handle),
                None => None,
            },
            None => None,
        }
    }

    /// The implementation that `class` has for `sel`: its own, or else that
    /// of the nearest class above it that has one.
    pub fn resolve_method(&self, class: ClassHandle, side: Side, sel: Selector) -> (r: Option<Imp>)
        requires
            self.wf(),
        ensures
            r == method_of(self.classes(), class, side, sel),
    {
        let mut at = match self.find_class(class) {
            Some(at) => at,
            None => { return None; },
        };
        loop
            invariant
                self.wf(),
                at < self.classes@.len(),
                method_in(self.classes(), at as int, side, sel) == method_of(
                    self.classes(),
                    class,
                    side,
                    sel,
                ),
            decreases at,
        {
            let info = &self.classes[at];
            let found = match side {
                Side::Instance => info.instance_methods.get(&sel.index),
                Side::Class => info.class_methods.get(&sel.index),
            };
            match found {
                Some(imp) => { return Some(*imp); },
                None => {},
            }
            match info.superclass {
                Some(s) => {
                    at = s;
                },
                None => { return None; },
            }
        }
    }

    /// Whether instances of `class` respond to `sel`: whether the class or a
    /// class above it has an instance method for it.
    pub fn class_has_method(&self, class: ClassHandle, sel: Selector) -> (r: bool)
        requires
            self.wf(),
        ensures
            r == method_of(self.classes(), class, Side::Instance, sel) is Some,
    {
        self.resolve_method(class, Side::Instance, sel).is_some()
    }

    /// Whether `class` is `of` or a class below it.
    pub fn class_is_subclass_of(&self, class: ClassHandle, of: ClassHandle) -> (r: bool)
        requires
            self.wf(),
        ensures
            r == subclass_of(self.classes(), class, of),
    {
        if class == of {
            return true;
        }
        let mut at = match self.find_class(class) {
            Some(at) => at,
            None => { return false; },
        };
        let target = match self.find_class(of) {
            Some(target) => target,
            None => { return false; },
        };
        loop
            invariant
                self.wf(),
                at < self.classes@.len(),
                is_ancestor(self.classes(), at as int, target as int) == subclass_of(
                    self.classes(),
                    class,
                    of,
                ),
            decreases at,
        {
            if at == target {
                return true;
            }
            match self.classes[at].superclass {
                Some(s) => {
                    at = s;
                },
                None => { return false; },
            }
        }
    }

    /// The offset of the variable `sel` in instances of `class`: as the class
    /// declares it, or else the nearest class above it that does.
    pub fn class_has_ivar(&self, class: ClassHandle, sel: Selector) -> (r: Option<u32>)
        requires
            self.wf(),
        ensures
            r == ivar_of(self.classes(), class, sel),
    {
        let mut at = match self.find_class(class) {
            Some(at) => at,
            None => { return None; },
        };
        loop
            invariant
                self.wf(),
                at < self.classes@.len(),
                ivar_in(self.classes(), at as int, sel) == ivar_of(self.classes(), class, sel),
            decreases at,
        {
            let info = &self.classes[at];
            match info.ivars.get(&sel.index) {
                Some(offset) => { return Some(*offset); },
                None => {},
            }
            match info.superclass {
                Some(s) => {
                    at = s;
                },
                None => { return None; },
            }
        }
    }

    /// Whether the variables of instances of `class` may be written
    /// directly: as the class says, or else the nearest class above it that
    /// says anything; not, where none does.
    pub fn class_allows_direct_ivar_access(&self, class: ClassHandle) -> (r: bool)
        requires
            self.wf(),
        ensures
            r == direct_access_of(self.classes(), class),
    {
        let mut at = match self.find_class(class) {
            Some(at) => at,
            None => { return false; },
        };
        loop
            invariant
                self.wf(),
                at < self.classes@.len(),
                direct_access_in(self.classes(), at as int) == direct_access_of(
                    self.classes(),
                    class,
                ),
            decreases at,
        {
            let info = &self.classes[at];
            match info.direct_ivar_access {
                Some(flag) => { return flag; },
                None => {},
            }
            match info.superclass {
                Some(s) => {
                    at = s;
                },
                None => { return false; },
            }
        }
    }

    /// The names of the selectors that instances of `class` respond to, in
    /// the order in which they were interned.
    pub fn all_class_selectors_as_strings(&self, class: ClassHandle) -> (r: Vec<Vec<u8>>)
        requires
            self.wf(),
        ensures
            r@.len() == responding_names(
                self.classes(),
                self.selectors(),
                class,
                Side::Instance,
                self.selectors().len(),
            ).len(),
            forall|i: int|
                0 <= i < r@.len() ==> (#[trigger] r@[i])@ == responding_names(
                    self.classes(),
                    self.selectors(),
                    class,
                    Side::Instance,
                    self.selectors().len(),
                )[i],
    {
        let mut found: Vec<Vec<u8>> = Vec::new();
        let count = self.selectors.len();
        let mut index: usize = 0;
        while index < count
            invariant
                self.wf(),
                index <= count == self.selectors().len(),
                found@.len() == responding_names(
                    self.classes(),
                    self.selectors(),
                    class,
                    Side::Instance,
                    index as nat,
                ).len(),
                forall|i: int|
                    0 <= i < found@.len() ==> (#[trigger] found@[i])@ == responding_names(
                        self.classes(),
                        self.selectors(),
                        class,
                        Side::Instance,
                        index as nat,
                    )[i],
            decreases count - index,
        {
            let selector = Selector { index };
            if self.resolve_method(class, Side::Instance, selector).is_some() {
                match self.selectors.name(selector) {
                    Some(name) => {
                        found.push(vstd::slice::slice_to_vec(name));
                    },
                    None => {},
                }
            }
            index += 1;
        }
        found
    }

    /// A table stays well-formed when one class gets another table of
    /// methods or variables, or another word on direct access.
    proof fn lemma_updated(&self, before: &ClassTable, at: int)
        requires
            before.wf(),
            self.selectors.wf(),
            before.selectors().len() <= self.selectors().len(),
            0 <= at < before.classes().len(),
            self.classes().len() == before.classes().len(),
            forall|i: int|
                0 <= i < before.classes().len() && i != at ==> self.classes()[i]
                    == before.classes()[i],
            self.classes()[at].name == before.classes()[at].name,
            self.classes()[at].handle == before.classes()[at].handle,
            self.classes()[at].superclass == before.classes()[at].superclass,
            self.classes()[at].instance_size == before.classes()[at].instance_size,
            class_selectors_known(self.classes()[at], self.selectors().len() as int),
        ensures
            self.wf(),
    {
        let classes = self.classes();
        let old_classes = before.classes();
        assert forall|i: int, j: int|
            0 <= i < classes.len() && 0 <= j < classes.len() && #[trigger] classes[i].handle
                == #[trigger] classes[j].handle implies i == j by {
            assert(classes[i].handle == old_classes[i].handle);
            assert(classes[j].handle == old_classes[j].handle);
        }
        assert forall|i: int, j: int|
            0 <= i < classes.len() && 0 <= j < classes.len() && #[trigger] classes[i].name
                == #[trigger] classes[j].name implies i == j by {
            assert(classes[i].name == old_classes[i].name);
            assert(classes[j].name == old_classes[j].name);
        }
        assert forall|i: int| 0 <= i < classes.len() implies {
            &&& (#[trigger] classes[i]).handle != 0
            &&& classes[i].instance_size >= WORD_SIZE
            &&& classes[i].superclass is Some ==> 0 <= classes[i].superclass.unwrap() < i
        } by {
            assert(classes[i].handle == old_classes[i].handle);
        }
        assert forall|i: int| 0 <= i < classes.len() implies class_selectors_known(
            #[trigger] classes[i],
            self.selectors().len() as int,
        ) by {
            if i != at {
                assert(class_selectors_known(old_classes[i], before.selectors().len() as int));
            }
        }
    }
}

} // verus!
