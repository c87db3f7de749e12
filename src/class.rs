use vstd::prelude::*;
use crate::class_file::{ClassFile, class_file_wf};
use crate::constant_pool::{ConstantPool, is_class_at, class_name_of, references_ok};
use crate::error::VmError;
use crate::method::{Method, method_linked, method_links, method_error};

verus! {

/// A linked class: its constant pool and its methods.
#[derive(Debug)]
pub struct Class {
    pub access_flags: u16,
    pub constant_pool: ConstantPool,
    pub methods: Vec<Method>,
    pub this_class: u16,
    pub super_class: u16,
}

/// The index of the last method of `ms` with key `key`, if any.
#[verifier::opaque]
pub open spec fn last_with_key(ms: Seq<Method>, key: Seq<u8>) -> Option<int> {
    if exists|i: int| 0 <= i < ms.len() && (#[trigger] ms[i]).key() == key {
        Some(choose|i: int| 0 <= i < ms.len() && (#[trigger] ms[i]).key() == key
            && forall|j: int| i < j < ms.len() ==> (#[trigger] ms[j]).key() != key)
    } else {
        None
    }
}

pub open spec fn method_sizes_ok(m: Method) -> bool {
    m.code@.len() < 0x1_0000_0000 && m.max_locals < 0x10000 && m.max_stack < 0x10000
}

/// Whether a decoded class file links: its references resolve, its own
/// name is a Class entry, and every method links.
pub open spec fn class_links(cf: ClassFile) -> bool {
    &&& references_ok(cf.constant_pool@)
    &&& is_class_at(cf.constant_pool@, cf.this_class as int)
    &&& forall|i: int| 0 <= i < cf.methods@.len() ==> #[trigger] method_links(cf.constant_pool@, cf.methods@[i])
}

/// The error that linking `cf` gives: a bad reference or own name, else the
/// error of the first method that does not link.
pub open spec fn class_error(cf: ClassFile, e: VmError) -> bool {
    if !references_ok(cf.constant_pool@) || !is_class_at(cf.constant_pool@, cf.this_class as int) {
        e == VmError::WrongConstantKind
    } else {
        exists|i: int| {
            &&& 0 <= i < cf.methods@.len()
            &&& !#[trigger] method_links(cf.constant_pool@, cf.methods@[i])
            &&& (forall|j: int| 0 <= j < i ==> method_links(cf.constant_pool@, #[trigger] cf.methods@[j]))
            &&& method_error(cf.constant_pool@, cf.methods@[i], e)
        }
    }
}

/// `c` is the class that linking `cf` gives.
pub open spec fn class_linked(cf: ClassFile, c: Class) -> bool {
    &&& c.wf()
    &&& c.constant_pool@ == cf.constant_pool@
    &&& c.access_flags == cf.access_flags
    &&& c.this_class == cf.this_class
    &&& c.super_class == cf.super_class
    &&& is_class_at(c.constant_pool@, c.this_class as int)
    &&& c.methods@.len() == cf.methods@.len()
    &&& forall|i: int| 0 <= i < c.methods@.len() ==> method_linked(c.constant_pool@, cf.methods@[i], #[trigger] c.methods@[i])
}

impl Class {
    /// The pool is linked, and each method's code and locals fit the sizes
    /// that the binary can express.
    pub open spec fn wf(&self) -> bool {
        &&& self.constant_pool.wf()
        &&& forall|i: int| 0 <= i < self.methods@.len() ==> method_sizes_ok(#[trigger] self.methods@[i])
    }

    /// The internal name of the class itself.
    pub open spec fn name(&self) -> Seq<u8> {
        class_name_of(self.constant_pool@, self.this_class as int)
    }

    /// Links a decoded class file.
    pub fn from(class_file: ClassFile) -> (res: Result<Class, VmError>)
        requires
            class_file_wf(class_file),
        ensures
            res is Ok <==> class_links(class_file),
            res is Err ==> class_error(class_file, res->Err_0),
            res is Ok ==> class_linked(class_file, res->Ok_0),
    {
        let ghost cf = class_file;
        let ClassFile { access_flags, constant_pool, this_class, super_class, methods: infos, .. } =
            class_file;
        let constant_pool = ConstantPool::from(constant_pool)?;
        if constant_pool.class(this_class).is_err() {
            return Err(VmError::WrongConstantKind);
        }
        assert(references_ok(cf.constant_pool@) && is_class_at(cf.constant_pool@, cf.this_class as int));
        let mut methods: Vec<Method> = Vec::new();
        let mut i: usize = 0;
        while i < infos.len()
            invariant
                constant_pool.wf(),
                i <= infos@.len(),
                methods@.len() == i,
                forall|j: int| 0 <= j < i ==> method_linked(constant_pool@, infos@[j], #[trigger] methods@[j]),
                forall|j: int| 0 <= j < i ==> method_sizes_ok(#[trigger] methods@[j]),
                forall|j: int| 0 <= j < i ==> #[trigger] method_links(constant_pool@, infos@[j]),
                cf == class_file,
                is_class_at(cf.constant_pool@, cf.this_class as int),
                infos@ == cf.methods@,
                constant_pool@ == cf.constant_pool@,
            decreases infos@.len() - i,
        {
            let m = match Method::from(&infos[i], &constant_pool) {
                Ok(m) => m,
                Err(e) => {
                    assert(!method_links(constant_pool@, infos@[i as int]));
                    assert(class_error(cf, e)) by {
                        assert(references_ok(cf.constant_pool@));
                        assert(!method_links(cf.constant_pool@, cf.methods@[i as int]));
                        assert(forall|j: int| 0 <= j < i ==> method_links(cf.constant_pool@, #[trigger] cf.methods@[j]));
                    }
                    return Err(e);
                },
            };
            proof {
                if !crate::method::bodiless(m.access_flags) {
                    let k = choose|k: int| #[trigger] crate::method::unique_code_at(
                        constant_pool@, infos@[i as int].attributes@, k) && {
                        let info = infos@[i as int].attributes@[k].info@;
                        &&& info.len() >= 8 + crate::reader::u32_at(info, 4) as int
                        &&& crate::method::code_header(info) == (m.max_stack as int, m.max_locals as int, m.code@)
                    };
                }
            }
            methods.push(m);
            i = i + 1;
        }
        Ok(Class { access_flags, constant_pool, methods, this_class, super_class })
    }

    /// The position in `methods` of the method with key `name_and_type`;
    /// where two share a key the later one counts.
    pub fn method_index(&self, name_and_type: &[u8]) -> (r: Option<usize>)
        ensures
            r is Some <==> exists|i: int| 0 <= i < self.methods@.len()
                && (#[trigger] self.methods@[i]).key() == name_and_type@,
            r is Some ==> r->0 < self.methods@.len()
                && self.methods@[r->0 as int].key() == name_and_type@
                && forall|j: int| r->0 < j < self.methods@.len()
                    ==> (#[trigger] self.methods@[j]).key() != name_and_type@,
    {
        let mut i: usize = self.methods.len();
        while i > 0
            invariant
                i <= self.methods@.len(),
                forall|j: int| i <= j < self.methods@.len()
                    ==> (#[trigger] self.methods@[j]).key() != name_and_type@,
            decreases i,
        {
            i = i - 1;
            if key_matches(&self.methods[i], name_and_type) {
                return Some(i);
            }
        }
        None
    }

    /// The method with key `name_and_type`.
    pub fn method(&self, name_and_type: &[u8]) -> (r: Option<&Method>)
        ensures
            r is Some <==> exists|i: int| 0 <= i < self.methods@.len()
                && (#[trigger] self.methods@[i]).key() == name_and_type@,
            r is Some ==> r->0.key() == name_and_type@,
    {
        match self.method_index(name_and_type) {
            Some(i) => Some(&self.methods[i]),
            None => None,
        }
    }

    /// The internal name of this class.
    pub fn this_class(&self) -> (r: Result<Vec<u8>, VmError>)
        requires
            self.wf(),
        ensures
            r is Ok <==> is_class_at(self.constant_pool@, self.this_class as int),
            r is Ok ==> r->Ok_0@ == self.name(),
    {
        self.constant_pool.class(self.this_class)
    }

    /// The internal name of the superclass.
    pub fn super_class(&self) -> (r: Result<Vec<u8>, VmError>)
        requires
            self.wf(),
        ensures
            r is Ok <==> is_class_at(self.constant_pool@, self.super_class as int),
            r is Err ==> r == Err::<Vec<u8>, VmError>(VmError::WrongConstantKind),
            r is Ok ==> r->Ok_0@ == class_name_of(self.constant_pool@, self.super_class as int),
    {
        self.constant_pool.class(self.super_class)
    }
}

/// Whether `m`'s key is `key`, compared without building the key.
fn key_matches(m: &Method, key: &[u8]) -> (r: bool)
    ensures
        r == (m.key() == key@),
{
    let n = m.name.len();
    let d = m.descriptor.len();
    if n >= key.len() || key.len() - n - 1 != d {
        proof {
            assert(m.key().len() == n + 1 + d);
        }
        return false;
    }
    let mut i: usize = 0;
    while i < key.len()
        invariant
            key@.len() == n + 1 + d,
            n == m.name@.len(),
            d == m.descriptor@.len(),
            i <= key@.len(),
            forall|j: int| 0 <= j < i ==> m.key()[j] == key@[j],
        decreases key@.len() - i,
    {
        let b = if i < n {
            m.name[i]
        } else if i == n {
            58u8
        } else {
            m.descriptor[i - n - 1]
        };
        assert(b == m.key()[i as int]);
        if b != key[i] {
            return false;
        }
        i = i + 1;
    }
    assert(m.key() =~= key@);
    true
}

} // verus!
