//! Class templates: how a framework declares a class.
//!
//! A framework hands the runtime the name of a class, the name of its
//! superclass if it has one, and its methods and variables by name. The
//! runtime registers the class, interns the names, and binds each name to
//! its implementation or offset. Where a name stands twice in one list, the
//! later entry counts.

use vstd::prelude::*;
use crate::class::class_named;
use crate::class::lemma_class_index;
use crate::class::new_class;
use crate::class::registration_refusal;
use crate::class::ClassError;
use crate::class::ClassHandle;
use crate::class::ClassModel;
use crate::class::ClassTable;
use crate::class::Imp;
use crate::class::Side;
use crate::mem::Mem;
use crate::selector::distinct_names;
use crate::selector::interned;
use crate::selector::lemma_interned;
use crate::selector::lemma_selector_of;
use crate::selector::names_selector;
use crate::selector::selector_of;

verus! {

/// A method of a template: a name and what implements it.
#[derive(Debug, PartialEq, Eq)]
pub struct MethodBinding {
    pub name: Vec<u8>,
    pub imp: Imp,
}

/// A variable of a template: a name and its byte offset in an instance.
#[derive(Debug, PartialEq, Eq)]
pub struct IvarDeclaration {
    pub name: Vec<u8>,
    pub offset: u32,
}

/// What a framework declares of a class.
#[derive(Debug, PartialEq, Eq)]
pub struct ClassTemplate {
    pub name: Vec<u8>,
    /// The name of the superclass, if the class has one.
    pub superclass: Option<Vec<u8>>,
    /// The size of an instance in bytes, the word for its class included.
    pub instance_size: u32,
    /// Whether variables of instances may be written directly, if the class
    /// says so itself.
    pub direct_ivar_access: Option<bool>,
    pub class_methods: Vec<MethodBinding>,
    pub instance_methods: Vec<MethodBinding>,
    pub ivars: Vec<IvarDeclaration>,
}

/// Methods as mathematical values: name and implementation.
pub open spec fn bindings_of(methods: Seq<MethodBinding>) -> Seq<(Seq<u8>, Imp)> {
    Seq::new(methods.len(), |i: int| (methods[i].name@, methods[i].imp))
}

/// Variables as mathematical values: name and offset.
pub open spec fn declarations_of(ivars: Seq<IvarDeclaration>) -> Seq<(Seq<u8>, u32)> {
    Seq::new(ivars.len(), |i: int| (ivars[i].name@, ivars[i].offset))
}

/// The interned names and the class after each of `bindings` was bound in
/// the class, first to last.
pub open spec fn with_methods(
    names: Seq<Seq<u8>>,
    class: ClassModel,
    side: Side,
    bindings: Seq<(Seq<u8>, Imp)>,
) -> (Seq<Seq<u8>>, ClassModel)
    decreases bindings.len(),
{
    if bindings.len() == 0 {
        (names, class)
    } else {
        let (names, class) = with_methods(names, class, side, bindings.drop_last());
        let (name, imp) = bindings.last();
        let names = interned(names, name);
        (names, class.with_method(side, selector_of(names, name).unwrap(), imp))
    }
}

/// The interned names and the class after each of `declarations` was
/// declared in the class, first to last.
pub open spec fn with_ivars(
    names: Seq<Seq<u8>>,
    class: ClassModel,
    declarations: Seq<(Seq<u8>, u32)>,
) -> (Seq<Seq<u8>>, ClassModel)
    decreases declarations.len(),
{
    if declarations.len() == 0 {
        (names, class)
    } else {
        let (names, class) = with_ivars(names, class, declarations.drop_last());
        let (name, offset) = declarations.last();
        let names = interned(names, name);
        (names, class.with_ivar(selector_of(names, name).unwrap(), offset))
    }
}

/// Binding methods interns a name for each binding at most and keeps the
/// names that were interned before.
pub proof fn lemma_with_methods_names(
    names: Seq<Seq<u8>>,
    class: ClassModel,
    side: Side,
    bindings: Seq<(Seq<u8>, Imp)>,
)
    requires
        distinct_names(names),
        names.len() + bindings.len() < usize::MAX,
    ensures
        distinct_names(with_methods(names, class, side, bindings).0),
        names.len() <= with_methods(names, class, side, bindings).0.len() <= names.len()
            + bindings.len(),
        forall|other: Seq<u8>| #[trigger]
            selector_of(names, other) is Some ==> selector_of(
                with_methods(names, class, side, bindings).0,
                other,
            ) == selector_of(names, other),
    decreases bindings.len(),
{
    if bindings.len() > 0 {
        lemma_with_methods_names(names, class, side, bindings.drop_last());
        let (before, _) = with_methods(names, class, side, bindings.drop_last());
        lemma_interned(before, bindings.last().0);
    }
}

/// A method that a template binds is the class's own method under its name,
/// unless a later binding of the same list has the same name.
pub proof fn lemma_bound_method(
    names: Seq<Seq<u8>>,
    class: ClassModel,
    side: Side,
    bindings: Seq<(Seq<u8>, Imp)>,
    i: int,
)
    requires
        distinct_names(names),
        names.len() + bindings.len() < usize::MAX,
        0 <= i < bindings.len(),
        forall|j: int| i < j < bindings.len() ==> bindings[j].0 != bindings[i].0,
    ensures
        selector_of(with_methods(names, class, side, bindings).0, bindings[i].0) is Some,
        with_methods(names, class, side, bindings).1.methods(side).contains_key(
            selector_of(with_methods(names, class, side, bindings).0, bindings[i].0).unwrap(),
        ),
        with_methods(names, class, side, bindings).1.methods(side)[selector_of(
            with_methods(names, class, side, bindings).0,
            bindings[i].0,
        ).unwrap()] == bindings[i].1,
    decreases bindings.len(),
{
    let earlier = bindings.drop_last();
    let (before, _) = with_methods(names, class, side, earlier);
    let (last_name, _) = bindings.last();
    lemma_with_methods_names(names, class, side, earlier);
    lemma_interned(before, last_name);
    let after = interned(before, last_name);
    if i < bindings.len() - 1 {
        lemma_bound_method(names, class, side, earlier, i);
        let found = selector_of(before, bindings[i].0).unwrap();
        let last = selector_of(after, last_name).unwrap();
        assert(names_selector(after, found, bindings[i].0));
        assert(names_selector(after, last, last_name));
        assert(found != last);
    }
}

impl ClassTemplate {
    /// The handle of the superclass that the template names, if it names
    /// one that is registered.
    pub open spec fn superclass_in(&self, classes: Seq<ClassModel>) -> Option<ClassHandle> {
        match self.superclass {
            Some(name) => class_named(classes, name@),
            None => None,
        }
    }

    /// Why the class cannot be registered, if it cannot: that its
    /// superclass is not registered, unless its own name is taken, or else
    /// what holds for any class.
    pub open spec fn refusal(
        &self,
        classes: Seq<ClassModel>,
        next_block: u32,
        memory_size: int,
    ) -> Option<ClassError> {
        if class_named(classes, self.name@) is Some {
            Some(ClassError::NameTaken)
        } else if self.superclass is Some && self.superclass_in(classes) is None {
            Some(ClassError::UnknownSuperclass)
        } else {
            registration_refusal(
                classes,
                next_block,
                memory_size,
                self.name@,
                self.superclass_in(classes),
                self.instance_size,
            )
        }
    }

    /// The class as it is registered, before its methods and variables are
    /// bound.
    pub open spec fn bare_class(&self, classes: Seq<ClassModel>, handle: ClassHandle) -> ClassModel {
        let class = new_class(
            classes,
            handle,
            self.name@,
            self.superclass_in(classes),
            self.instance_size,
        );
        match self.direct_ivar_access {
            Some(flag) => class.with_direct_ivar_access(flag),
            None => class,
        }
    }

    /// The interned names and the class after the template was registered
    /// under `handle`: class methods are bound first, then instance methods,
    /// then variables.
    pub open spec fn registered(
        &self,
        names: Seq<Seq<u8>>,
        classes: Seq<ClassModel>,
        handle: ClassHandle,
    ) -> (Seq<Seq<u8>>, ClassModel) {
        let class = self.bare_class(classes, handle);
        let (names, class) = with_methods(
            names,
            class,
            Side::Class,
            bindings_of(self.class_methods@),
        );
        let (names, class) = with_methods(
            names,
            class,
            Side::Instance,
            bindings_of(self.instance_methods@),
        );
        with_ivars(names, class, declarations_of(self.ivars@))
    }
}

impl ClassTable {
    /// Binds each of `methods` in the class `class`, which is the last class
    /// of the table.
    fn bind_methods(&mut self, class: ClassHandle, side: Side, methods: &Vec<MethodBinding>)
        requires
            old(self).wf(),
            old(self).classes().len() > 0,
            old(self).classes().last().handle == class,
        ensures
            final(self).wf(),
            final(self).classes().len() == old(self).classes().len(),
            final(self).classes().last().handle == class,
            final(self).classes().drop_last() == old(self).classes().drop_last(),
            (final(self).selectors(), final(self).classes().last()) == with_methods(
                old(self).selectors(),
                old(self).classes().last(),
                side,
                bindings_of(methods@),
            ),
    {
        let ghost bindings = bindings_of(methods@);
        let ghost last = old(self).classes().len() - 1;
        let mut i: usize = 0;
        while i < methods.len()
            invariant
                self.wf(),
                i <= methods@.len(),
                bindings == bindings_of(methods@),
                last == old(self).classes().len() - 1,
                self.classes().len() == old(self).classes().len() > 0,
                self.classes().drop_last() == old(self).classes().drop_last(),
                self.classes().last().handle == class,
                (self.selectors(), self.classes().last()) == with_methods(
                    old(self).selectors(),
                    old(self).classes().last(),
                    side,
                    bindings.take(i as int),
                ),
            decreases methods@.len() - i,
        {
            let ghost before = self.classes();
            let ghost names = self.selectors();
            proof {
                self.lemma_wf();
                lemma_class_index(before, class, last);
            }
            let bound = self.add_method(class, side, methods[i].name.as_slice(), methods[i].imp);
            proof {
                self.lemma_wf();
                lemma_selector_of(self.selectors(), bound.unwrap(), methods@[i as int].name@);
                assert(bindings.take(i + 1).drop_last() =~= bindings.take(i as int));
                assert(bindings.take(i + 1).last() == bindings[i as int]);
                assert(self.classes().drop_last() =~= before.drop_last());
            }
            i += 1;
        }
        assert(bindings.take(methods@.len() as int) =~= bindings);
    }

    /// Declares each of `ivars` in the class `class`, which is the last
    /// class of the table.
    fn declare_ivars(&mut self, class: ClassHandle, ivars: &Vec<IvarDeclaration>)
        requires
            old(self).wf(),
            old(self).classes().len() > 0,
            old(self).classes().last().handle == class,
        ensures
            final(self).wf(),
            final(self).classes().len() == old(self).classes().len(),
            final(self).classes().last().handle == class,
            final(self).classes().drop_last() == old(self).classes().drop_last(),
            (final(self).selectors(), final(self).classes().last()) == with_ivars(
                old(self).selectors(),
                old(self).classes().last(),
                declarations_of(ivars@),
            ),
    {
        let ghost declarations = declarations_of(ivars@);
        let ghost last = old(self).classes().len() - 1;
        let mut i: usize = 0;
        while i < ivars.len()
            invariant
                self.wf(),
                i <= ivars@.len(),
                declarations == declarations_of(ivars@),
                last == old(self).classes().len() - 1,
                self.classes().len() == old(self).classes().len() > 0,
                self.classes().drop_last() == old(self).classes().drop_last(),
                self.classes().last().handle == class,
                (self.selectors(), self.classes().last()) == with_ivars(
                    old(self).selectors(),
                    old(self).classes().last(),
                    declarations.take(i as int),
                ),
            decreases ivars@.len() - i,
        {
            let ghost before = self.classes();
            proof {
                self.lemma_wf();
                lemma_class_index(before, class, last);
            }
            let declared = self.add_ivar(class, ivars[i].name.as_slice(), ivars[i].offset);
            proof {
                self.lemma_wf();
                lemma_selector_of(self.selectors(), declared.unwrap(), ivars@[i as int].name@);
                assert(declarations.take(i + 1).drop_last() =~= declarations.take(i as int));
                assert(declarations.take(i + 1).last() == declarations[i as int]);
                assert(self.classes().drop_last() =~= before.drop_last());
            }
            i += 1;
        }
        assert(declarations.take(ivars@.len() as int) =~= declarations);
    }

    /// Registers the class that `template` declares, with its methods and
    /// variables.
    pub fn register_template(&mut self, mem: &mut Mem, template: &ClassTemplate) -> (r: Result<
        ClassHandle,
        ClassError,
    >)
        requires
            old(self).wf(),
            old(mem).wf(),
        ensures
            final(self).wf(),
            final(mem).wf(),
            match r {
                Ok(handle) => {
                    &&& template.refusal(
                        old(self).classes(),
                        old(mem).next_block(),
                        old(mem).bytes().len() as int,
                    ) is None
                    &&& handle == old(mem).next_block()
                    &&& final(self).selectors() == template.registered(
                        old(self).selectors(),
                        old(self).classes(),
                        handle,
                    ).0
                    &&& final(self).classes() == old(self).classes().push(
                        template.registered(old(self).selectors(), old(self).classes(), handle).1,
                    )
                    &&& final(mem).next_block() == handle + crate::class::CLASS_BLOCK_SIZE
                    &&& final(mem).blocks() == old(mem).blocks().insert(
                        handle,
                        crate::class::CLASS_BLOCK_SIZE,
                    )
                    &&& final(mem).bytes() == crate::mem::overwrite(
                        old(mem).bytes(),
                        handle as int,
                        crate::mem::zeros(crate::mem::WORD_SIZE as int) + crate::mem::word_bytes(
                            crate::class::superclass_word(
                                template.superclass_in(old(self).classes()),
                            ),
                        ),
                    )
                },
                Err(e) => {
                    &&& template.refusal(
                        old(self).classes(),
                        old(mem).next_block(),
                        old(mem).bytes().len() as int,
                    ) == Some(e)
                    &&& final(self).selectors() == old(self).selectors()
                    &&& final(self).classes() == old(self).classes()
                    &&& final(mem).next_block() == old(mem).next_block()
                    &&& final(mem).blocks() == old(mem).blocks()
                    &&& final(mem).bytes() == old(mem).bytes()
                },
            },
    {
        if self.class_named(template.name.as_slice()).is_some() {
            return Err(ClassError::NameTaken);
        }
        let superclass = match &template.superclass {
            Some(name) => match self.class_named(name.as_slice()) {
                Some(handle) => Some(handle),
                None => { return Err(ClassError::UnknownSuperclass); },
            },
            None => None,
        };
        let handle = match self.register_class(
            mem,
            template.name.as_slice(),
            superclass,
            template.instance_size,
        ) {
            Ok(handle) => handle,
            Err(e) => { return Err(e); },
        };
        let ghost registered = self.classes();
        proof {
            self.lemma_wf();
            lemma_class_index(registered, handle, registered.len() - 1);
            assert(registered.drop_last() =~= old(self).classes());
        }
        match template.direct_ivar_access {
            Some(flag) => {
                let set = self.set_direct_ivar_access(handle, flag);
                assert(set is Ok);
                assert(self.classes().drop_last() =~= old(self).classes());
            },
            None => {},
        }
        assert(self.classes().last() == template.bare_class(old(self).classes(), handle));
        self.bind_methods(handle, Side::Class, &template.class_methods);
        self.bind_methods(handle, Side::Instance, &template.instance_methods);
        self.declare_ivars(handle, &template.ivars);
        proof {
            assert(self.classes() =~= self.classes().drop_last().push(self.classes().last()));
        }
        Ok(handle)
    }
}

} // verus!
