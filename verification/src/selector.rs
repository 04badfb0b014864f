//! Selectors: interned message and variable names.
//!
//! A name is interned once, when a class that declares it is registered, and
//! is from then on known by its handle. Two handles are the same selector
//! exactly when they are equal; no names are compared after interning.

use vstd::prelude::*;

verus! {

/// An interned name. The handle is the name's place in the table it was
/// interned in.
#[derive(Copy, Clone, Debug, PartialEq, Eq, Structural)]
pub struct Selector {
    pub index: usize,
}

/// No name stands twice in `names`.
pub open spec fn distinct_names(names: Seq<Seq<u8>>) -> bool {
    forall|i: int, j: int|
        0 <= i < names.len() && 0 <= j < names.len() && #[trigger] names[i] == #[trigger] names[j]
            ==> i == j
}

/// `sel` is the handle of `name` in `names`.
pub open spec fn names_selector(names: Seq<Seq<u8>>, sel: Selector, name: Seq<u8>) -> bool {
    sel.index < names.len() && names[sel.index as int] == name
}

/// The handle that `name` has in `names`, if it was interned.
pub open spec fn selector_of(names: Seq<Seq<u8>>, name: Seq<u8>) -> Option<Selector> {
    if exists|sel: Selector| names_selector(names, sel, name) {
        Some(choose|sel: Selector| names_selector(names, sel, name))
    } else {
        None
    }
}

/// `names` after `name` was interned: unchanged where it held the name, and
/// with the name at its end where it did not.
pub open spec fn interned(names: Seq<Seq<u8>>, name: Seq<u8>) -> Seq<Seq<u8>> {
    if selector_of(names, name) is Some {
        names
    } else {
        names.push(name)
    }
}

/// A name has one handle at most.
pub proof fn lemma_selector_unique(names: Seq<Seq<u8>>, a: Selector, b: Selector, name: Seq<u8>)
    requires
        distinct_names(names),
        names_selector(names, a, name),
        names_selector(names, b, name),
    ensures
        a == b,
{
}

/// A handle of `name` is the handle that `selector_of` gives.
pub proof fn lemma_selector_of(names: Seq<Seq<u8>>, sel: Selector, name: Seq<u8>)
    requires
        distinct_names(names),
        names_selector(names, sel, name),
    ensures
        selector_of(names, name) == Some(sel),
{
    let found = choose|found: Selector| names_selector(names, found, name);
    lemma_selector_unique(names, found, sel, name);
}

/// Interning keeps every handle valid and makes `name` known by the handle
/// that looking it up gives from then on.
pub proof fn lemma_interned(names: Seq<Seq<u8>>, name: Seq<u8>)
    requires
        distinct_names(names),
        names.len() < usize::MAX,
    ensures
        distinct_names(interned(names, name)),
        selector_of(interned(names, name), name) is Some,
        names.len() <= interned(names, name).len(),
        forall|i: int| 0 <= i < names.len() ==> interned(names, name)[i] == names[i],
        forall|other: Seq<u8>| #[trigger]
            selector_of(names, other) is Some ==> selector_of(interned(names, name), other)
                == selector_of(names, other),
{
    let after = interned(names, name);
    if selector_of(names, name) is None {
        let last = Selector { index: names.len() as usize };
        assert forall|i: int, j: int|
            0 <= i < after.len() && 0 <= j < after.len() && #[trigger] after[i]
                == #[trigger] after[j] implies i == j by {
            if i < names.len() && j == names.len() {
                assert(names_selector(names, Selector { index: i as usize }, name));
            }
            if j < names.len() && i == names.len() {
                assert(names_selector(names, Selector { index: j as usize }, name));
            }
        }
        assert(names_selector(after, last, name));
    }
    assert forall|other: Seq<u8>| #[trigger] selector_of(names, other) is Some implies selector_of(
        after,
        other,
    ) == selector_of(names, other) by {
        let sel = selector_of(names, other).unwrap();
        assert(names_selector(after, sel, other));
        lemma_selector_of(after, sel, other);
    }
}

/// Whether two byte strings are equal.
pub fn bytes_eq(a: &[u8], b: &[u8]) -> (r: bool)
    ensures
        r == (a@ == b@),
{
    if a.len() != b.len() {
        return false;
    }
    let mut i: usize = 0;
    while i < a.len()
        invariant
            i <= a@.len() == b@.len(),
            forall|j: int| 0 <= j < i ==> a@[j] == b@[j],
        decreases a@.len() - i,
    {
        if a[i] != b[i] {
            return false;
        }
        i += 1;
    }
    assert(a@ =~= b@);
    true
}

/// The interned names, in the order in which they were interned.
pub struct SelectorTable {
    names: Vec<Vec<u8>>,
}

impl SelectorTable {
    /// The interned names, by handle.
    pub closed spec fn names(&self) -> Seq<Seq<u8>> {
        Seq::new(self.names@.len(), |i: int| self.names@[i]@)
    }

    /// No name was interned twice.
    pub closed spec fn wf(&self) -> bool {
        distinct_names(self.names())
    }

    /// What `wf` says.
    pub proof fn lemma_wf(&self)
        requires
            self.wf(),
        ensures
            distinct_names(self.names()),
    {
    }

    /// A table with no names.
    pub fn new() -> (table: SelectorTable)
        ensures
            table.wf(),
            table.names() == Seq::<Seq<u8>>::empty(),
    {
        let table = SelectorTable { names: Vec::new() };
        assert(table.names() =~= Seq::<Seq<u8>>::empty());
        table
    }

    /// How many names are interned.
    pub fn len(&self) -> (n: usize)
        ensures
            n == self.names().len(),
    {
        self.names.len()
    }

    /// The handle of `name`, if it was interned. Nothing is interned here.
    pub fn lookup(&self, name: &[u8]) -> (r: Option<Selector>)
        requires
            self.wf(),
        ensures
            r == selector_of(self.names(), name@),
    {
        let mut i: usize = 0;
        while i < self.names.len()
            invariant
                self.wf(),
                i <= self.names@.len(),
                forall|j: int| 0 <= j < i ==> self.names()[j] != name@,
            decreases self.names@.len() - i,
        {
            if bytes_eq(self.names[i].as_slice(), name) {
                let sel = Selector { index: i };
                proof {
                    assert(names_selector(self.names(), sel, name@));
                    lemma_selector_of(self.names(), sel, name@);
                }
                return Some(sel);
            }
            i += 1;
        }
        assert forall|sel: Selector| !names_selector(self.names(), sel, name@) by {
            if sel.index < self.names().len() {
                assert(self.names()[sel.index as int] != name@);
            }
        }
        None
    }

    /// The handle of `name`, which is interned first if it was not yet.
    pub fn intern(&mut self, name: &[u8]) -> (sel: Selector)
        requires
            old(self).wf(),
        ensures
            final(self).wf(),
            final(self).names() == interned(old(self).names(), name@),
            names_selector(final(self).names(), sel, name@),
    {
        match self.lookup(name) {
            Some(sel) => sel,
            None => {
                let sel = Selector { index: self.names.len() };
                self.names.push(vstd::slice::slice_to_vec(name));
                proof {
                    assert(self.names() =~= old(self).names().push(name@));
                    assert forall|i: int, j: int|
                        0 <= i < self.names().len() && 0 <= j < self.names().len()
                            && #[trigger] self.names()[i] == #[trigger] self.names()[j] implies i
                        == j by {
                        if i < sel.index && j == sel.index {
                            assert(names_selector(
                                old(self).names(),
                                Selector { index: i as usize },
                                name@,
                            ));
                        }
                        if j < sel.index && i == sel.index {
                            assert(names_selector(
                                old(self).names(),
                                Selector { index: j as usize },
                                name@,
                            ));
                        }
                    }
                }
                sel
            },
        }
    }

    /// The name that `sel` stands for, if it is a handle of this table.
    pub fn name(&self, sel: Selector) -> (r: Option<&[u8]>)
        ensures
            match r {
                Some(name) => sel.index < self.names().len() && name@ == self.names()[
                    sel.index as int
                ],
                None => sel.index >= self.names().len(),
            },
    {
        if sel.index < self.names.len() {
            Some(self.names[sel.index].as_slice())
        } else {
            None
        }
    }
}

} // verus!
