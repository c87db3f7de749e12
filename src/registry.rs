use vstd::prelude::*;
use crate::class::Class;
use crate::constant_pool::{is_class_at, copy_bytes};
use crate::error::VmError;

verus! {

/// The linked classes, keyed by internal name, and the keys of the native
/// methods that the host provides.
pub struct Registry {
    pub names: Vec<Vec<u8>>,
    pub classes: Vec<Class>,
    pub natives: Vec<Vec<u8>>,
}

/// Whether two byte strings are equal.
pub fn bytes_eq(a: &[u8], b: &[u8]) -> (r: bool)
    ensures
        r == (a@ == b@),
{
    if a.len() != b.len() {
        return false;
    }
    let mut i: usize = 0;
    while i < a.len()
        invariant
            a@.len() == b@.len(),
            i <= a@.len(),
            forall|j: int| 0 <= j < i ==> a@[j] == b@[j],
        decreases a@.len() - i,
    {
        if a[i] != b[i] {
            return false;
        }
        i = i + 1;
    }
    assert(a@ =~= b@);
    true
}

/// The slot of a registered name is its position.
pub proof fn lemma_slot_of(reg: &Registry, n: Seq<u8>, i: int)
    requires
        reg.wf(),
        0 <= i < reg.names@.len(),
        reg.names@[i]@ == n,
    ensures
        reg.slot_of(n) == i,
{
    let k = reg.slot_of(n);
    assert(0 <= k < reg.names@.len() && reg.names@[k]@ == n);
    if k < i {
        assert(reg.names@[k]@ != reg.names@[i]@);
    } else if k > i {
        assert(reg.names@[i]@ != reg.names@[k]@);
    }
}

/// Registering `c` in `r0` as `r1` does changes the name-to-class map only
/// at `c`'s name.
proof fn lemma_insert_map(r0: &Registry, r1: &Registry, c: Class)
    requires
        r0.wf(),
        r1.wf(),
        r1.names@.len() >= r0.names@.len(),
        forall|i: int| 0 <= i < r0.names@.len() ==> #[trigger] r1.names@[i] == r0.names@[i],
        forall|i: int| r0.names@.len() <= i < r1.names@.len() ==> (#[trigger] r1.names@[i])@ == c.name(),
        r1.has_class(c.name()),
        forall|i: int| 0 <= i < r1.names@.len() && (#[trigger] r1.names@[i])@ == c.name() ==> r1.classes@[i] == c,
        forall|i: int| 0 <= i < r0.names@.len() && (#[trigger] r0.names@[i])@ != c.name()
            ==> r1.classes@[i] == r0.classes@[i],
    ensures
        r1.classes_by_name() == r0.classes_by_name().insert(c.name(), c),
{
    let m0 = r0.classes_by_name();
    let m1 = r1.classes_by_name();
    assert forall|n: Seq<u8>| #[trigger] m1.dom().contains(n) == m0.insert(c.name(), c).dom().contains(n) by {
        if n != c.name() {
            if r1.has_class(n) {
                let k = r1.slot_of(n);
                assert(0 <= k < r1.names@.len() && r1.names@[k]@ == n);
                assert(k < r0.names@.len());
                assert(r0.names@[k]@ == n);
            }
            if r0.has_class(n) {
                let k = r0.slot_of(n);
                assert(0 <= k < r0.names@.len() && r0.names@[k]@ == n);
                assert(r1.names@[k]@ == n);
            }
        }
    }
    assert forall|n: Seq<u8>| m1.dom().contains(n) implies #[trigger] m1[n] == m0.insert(c.name(), c)[n] by {
        let k = r1.slot_of(n);
        assert(0 <= k < r1.names@.len() && r1.names@[k]@ == n);
        if n != c.name() {
            assert(k < r0.names@.len());
            assert(r0.names@[k]@ == n);
            lemma_slot_of(r0, n, k);
        }
    }
    assert(m1 =~= m0.insert(c.name(), c));
}

impl Registry {
    /// Names and classes line up, each class is linked, and no name repeats.
    pub open spec fn wf(&self) -> bool {
        &&& self.names@.len() == self.classes@.len()
        &&& forall|i: int| 0 <= i < self.classes@.len() ==> {
            &&& (#[trigger] self.classes@[i]).wf()
            &&& is_class_at(self.classes@[i].constant_pool@, self.classes@[i].this_class as int)
            &&& self.names@[i]@ == self.classes@[i].name()
        }
        &&& forall|i: int, j: int| 0 <= i < j < self.names@.len()
            ==> (#[trigger] self.names@[i])@ != (#[trigger] self.names@[j])@
    }

    /// Whether a class of this name is registered.
    pub open spec fn has_class(&self, name: Seq<u8>) -> bool {
        exists|i: int| 0 <= i < self.names@.len() && (#[trigger] self.names@[i])@ == name
    }

    /// The position of the class registered as `name`.
    pub open spec fn slot_of(&self, name: Seq<u8>) -> int {
        choose|i: int| 0 <= i < self.names@.len() && (#[trigger] self.names@[i])@ == name
    }

    /// The registered classes, by internal name.
    pub open spec fn classes_by_name(&self) -> Map<Seq<u8>, Class> {
        Map::new(|n: Seq<u8>| self.has_class(n), |n: Seq<u8>| self.classes@[self.slot_of(n)])
    }

    /// Whether a native method is registered under this key.
    pub open spec fn has_native(&self, key: Seq<u8>) -> bool {
        exists|i: int| 0 <= i < self.natives@.len() && (#[trigger] self.natives@[i])@ == key
    }

    pub fn new() -> (r: Registry)
        ensures
            r.wf(),
            r.classes@.len() == 0,
            r.natives@.len() == 0,
    {
        Registry { names: Vec::new(), classes: Vec::new(), natives: Vec::new() }
    }

    /// Registers `class` under its own name, replacing a class of that name.
    pub fn add_class(&mut self, class: Class) -> (r: Result<(), VmError>)
        requires
            old(self).wf(),
            class.wf(),
        ensures
            final(self).wf(),
            final(self).natives@ == old(self).natives@,
            r is Ok <==> is_class_at(class.constant_pool@, class.this_class as int),
            r is Err ==> *final(self) == *old(self),
            r is Ok ==> final(self).has_class(class.name()) && forall|n: Seq<u8>|
                n != class.name() ==> (final(self).has_class(n) == old(self).has_class(n)),
            r is Ok ==> forall|i: int| 0 <= i < final(self).classes@.len()
                && (#[trigger] final(self).names@[i])@ == class.name()
                ==> final(self).classes@[i] == class,
            r is Ok ==> forall|i: int| 0 <= i < old(self).classes@.len()
                && (#[trigger] old(self).names@[i])@ != class.name()
                ==> final(self).classes@[i] == old(self).classes@[i]
                && final(self).names@[i] == old(self).names@[i],
            r is Ok ==> final(self).classes_by_name() == old(self).classes_by_name().insert(class.name(), class),
    {
        let name = match class.this_class() {
            Ok(n) => n,
            Err(e) => return Err(e),
        };
        match self.index_of(name.as_slice()) {
            Some(i) => {
                self.classes.set(i, class);
                proof {
                    lemma_insert_map(old(self), self, class);
                    assert(self.names@[i as int]@ == class.name());
                    assert forall|n: Seq<u8>| n != class.name()
                        implies final(self).has_class(n) == old(self).has_class(n) by {
                        if old(self).has_class(n) {
                            let k = choose|k: int| 0 <= k < old(self).names@.len() && (#[trigger] old(self).names@[k])@ == n;
                            assert(self.names@[k]@ == n);
                        }
                    }
                }
            },
            None => {
                let ghost names0 = self.names@;
                self.names.push(name);
                self.classes.push(class);
                proof {
                    assert(self.names@[names0.len() as int]@ == class.name());
                    assert(self.has_class(class.name()));
                    lemma_insert_map(old(self), self, class);
                    assert forall|n: Seq<u8>| n != class.name()
                        implies final(self).has_class(n) == old(self).has_class(n) by {
                        if old(self).has_class(n) {
                            let k = choose|k: int| 0 <= k < old(self).names@.len() && (#[trigger] old(self).names@[k])@ == n;
                            assert(self.names@[k]@ == n);
                        }
                        if self.has_class(n) {
                            let k = choose|k: int| 0 <= k < self.names@.len() && (#[trigger] self.names@[k])@ == n;
                            assert(old(self).names@[k]@ == n);
                        }
                    }
                }
            },
        }
        Ok(())
    }

    /// Registers a native method key.
    pub fn add_native(&mut self, name: &[u8])
        requires
            old(self).wf(),
        ensures
            final(self).wf(),
            final(self).names@ == old(self).names@,
            final(self).classes@ == old(self).classes@,
            final(self).has_native(name@),
            forall|k: Seq<u8>| k != name@ ==> final(self).has_native(k) == old(self).has_native(k),
    {
        let ghost before = self.natives@;
        self.natives.push(copy_bytes(name));
        proof {
            assert(self.natives@[before.len() as int]@ == name@);
            assert forall|k: Seq<u8>| k != name@
                implies final(self).has_native(k) == old(self).has_native(k) by {
                if old(self).has_native(k) {
                    let j = choose|j: int| 0 <= j < before.len() && (#[trigger] before[j])@ == k;
                    assert(self.natives@[j]@ == k);
                }
                if self.has_native(k) {
                    let j = choose|j: int| 0 <= j < self.natives@.len() && (#[trigger] self.natives@[j])@ == k;
                    assert(before[j]@ == k);
                }
            }
        }
    }

    /// Whether a native method is registered under `name`.
    pub fn native_method(&self, name: &[u8]) -> (r: bool)
        ensures
            r == self.has_native(name@),
    {
        let mut i: usize = 0;
        while i < self.natives.len()
            invariant
                i <= self.natives@.len(),
                forall|j: int| 0 <= j < i ==> (#[trigger] self.natives@[j])@ != name@,
            decreases self.natives@.len() - i,
        {
            if bytes_eq(self.natives[i].as_slice(), name) {
                return true;
            }
            i = i + 1;
        }
        false
    }

    /// The position of the class named `name`.
    pub fn index_of(&self, name: &[u8]) -> (r: Option<usize>)
        requires
            self.wf(),
        ensures
            r is Some <==> self.has_class(name@),
            r is Some ==> r->0 < self.classes@.len() && self.names@[r->0 as int]@ == name@,
    {
        let mut i: usize = 0;
        while i < self.names.len()
            invariant
                self.wf(),
                i <= self.names@.len(),
                forall|j: int| 0 <= j < i ==> (#[trigger] self.names@[j])@ != name@,
            decreases self.names@.len() - i,
        {
            if bytes_eq(self.names[i].as_slice(), name) {
                return Some(i);
            }
            i = i + 1;
        }
        None
    }

    /// The class named `name`.
    pub fn class(&self, name: &[u8]) -> (r: Result<&Class, VmError>)
        requires
            self.wf(),
        ensures
            r is Ok <==> self.has_class(name@),
            r is Err ==> r->Err_0 is ClassNotFound && r->Err_0->ClassNotFound_0@ == name@,
            r is Ok ==> r->Ok_0.name() == name@,
            r is Ok ==> exists|i: int| 0 <= i < self.classes@.len() && (#[trigger] self.names@[i])@ == name@
                && *r->Ok_0 == self.classes@[i],
    {
        match self.index_of(name) {
            Some(i) => Ok(&self.classes[i]),
            None => Err(VmError::ClassNotFound(copy_bytes(name))),
        }
    }
}

} // verus!
