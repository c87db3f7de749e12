use vstd::prelude::*;
use crate::class_file::{ConstantInfo, constant_wf, wide_ok_at};
use crate::error::VmError;
use crate::value::Type;

verus! {

/// The entry at 1-based `index`, if the index is in range.
pub open spec fn entry(cs: Seq<ConstantInfo>, index: int) -> Option<ConstantInfo> {
    if 1 <= index <= cs.len() {
        Some(cs[index - 1])
    } else {
        None
    }
}

pub open spec fn is_utf8_at(cs: Seq<ConstantInfo>, index: int) -> bool {
    entry(cs, index) matches Some(ConstantInfo::Utf8(_))
}

pub open spec fn is_class_at(cs: Seq<ConstantInfo>, index: int) -> bool {
    entry(cs, index) matches Some(ConstantInfo::Class(_))
}

pub open spec fn is_name_and_type_at(cs: Seq<ConstantInfo>, index: int) -> bool {
    entry(cs, index) matches Some(ConstantInfo::NameAndType(_))
}

/// Every index held by a reference constant names an entry of the kind it expects.
pub open spec fn reference_ok(cs: Seq<ConstantInfo>, c: ConstantInfo) -> bool {
    match c {
        ConstantInfo::Class(i) => is_utf8_at(cs, i.name_index as int),
        ConstantInfo::String(i) => is_utf8_at(cs, i.string_index as int),
        ConstantInfo::FieldRef(i) => is_class_at(cs, i.class_index as int)
            && is_name_and_type_at(cs, i.name_and_type_index as int),
        ConstantInfo::MethodRef(i) => is_class_at(cs, i.class_index as int)
            && is_name_and_type_at(cs, i.name_and_type_index as int),
        ConstantInfo::NameAndType(i) => is_utf8_at(cs, i.name_index as int)
            && is_utf8_at(cs, i.descriptor_index as int),
        _ => true,
    }
}

/// The entry at `i` refers only to entries of the kinds it expects.
pub open spec fn reference_ok_at(cs: Seq<ConstantInfo>, i: int) -> bool {
    reference_ok(cs, cs[i])
}

pub open spec fn references_ok(cs: Seq<ConstantInfo>) -> bool {
    forall|i: int| 0 <= i < cs.len() ==> #[trigger] reference_ok_at(cs, i)
}

/// The bytes of the Utf8 entry at `index`.
pub open spec fn utf8_of(cs: Seq<ConstantInfo>, index: int) -> Seq<u8> {
    match entry(cs, index) {
        Some(ConstantInfo::Utf8(i)) => i.value@,
        _ => seq![],
    }
}

/// The internal name of the class entry at `index`.
pub open spec fn class_name_of(cs: Seq<ConstantInfo>, index: int) -> Seq<u8> {
    match entry(cs, index) {
        Some(ConstantInfo::Class(i)) => utf8_of(cs, i.name_index as int),
        _ => seq![],
    }
}

/// The byte `:` that joins a name and a descriptor.
pub open spec fn colon() -> u8 {
    58u8
}

/// The key `<name>:<descriptor>` of a method.
pub open spec fn method_key(name: Seq<u8>, descriptor: Seq<u8>) -> Seq<u8> {
    name + seq![colon()] + descriptor
}

/// The `name:descriptor` key of the NameAndType entry at `index`.
pub open spec fn name_and_type_of(cs: Seq<ConstantInfo>, index: int) -> Seq<u8> {
    match entry(cs, index) {
        Some(ConstantInfo::NameAndType(i)) => method_key(
            utf8_of(cs, i.name_index as int),
            utf8_of(cs, i.descriptor_index as int),
        ),
        _ => seq![],
    }
}

/// The value that a loadable entry pushes, if the entry is loadable.
pub open spec fn loadable_of(cs: Seq<ConstantInfo>, index: int) -> Option<Type> {
    match entry(cs, index) {
        Some(ConstantInfo::Integer(x)) => Some(Type::Int(x.value)),
        Some(ConstantInfo::Float(x)) => Some(Type::Float(x.bits)),
        Some(ConstantInfo::Long(x)) => Some(Type::Long(x.value)),
        Some(ConstantInfo::Double(x)) => Some(Type::Double(x.bits)),
        _ => None,
    }
}

/// A linked, 1-indexed constant pool whose references all resolve.
#[derive(Debug)]
pub struct ConstantPool {
    pub constants: Vec<ConstantInfo>,
}

impl ConstantPool {
    pub open spec fn view(&self) -> Seq<ConstantInfo> {
        self.constants@
    }

    /// Each reference resolves to the kind it expects, each wide constant is
    /// followed by its filler slot, and each Utf8 entry is valid.
    pub open spec fn wf(&self) -> bool {
        &&& references_ok(self.constants@)
        &&& self.constants@.len() < 0x10000
        &&& forall|i: int| 0 <= i < self.constants@.len() ==> constant_wf(#[trigger] self.constants@[i])
        &&& forall|i: int| 0 <= i < self.constants@.len() ==> #[trigger] wide_ok_at(self.constants@, i)
    }

    /// Links decoded constants into a pool, checking every reference.
    pub fn from(constants: Vec<ConstantInfo>) -> (res: Result<ConstantPool, VmError>)
        requires
            constants@.len() < 0x10000,
            forall|i: int| 0 <= i < constants@.len() ==> constant_wf(#[trigger] constants@[i]),
            forall|i: int| 0 <= i < constants@.len() ==> #[trigger] wide_ok_at(constants@, i),
        ensures
            res is Ok <==> references_ok(constants@),
            res is Err ==> res == Err::<ConstantPool, VmError>(VmError::WrongConstantKind),
            res is Ok ==> res->Ok_0.wf() && res->Ok_0.constants@ == constants@,
    {
        let mut i: usize = 0;
        while i < constants.len()
            invariant
                i <= constants@.len(),
                forall|j: int| 0 <= j < i ==> #[trigger] reference_ok_at(constants@, j),
            decreases constants@.len() - i,
        {
            let ok = match &constants[i] {
                ConstantInfo::Class(c) => kind_at(&constants, c.name_index) == 1,
                ConstantInfo::String(c) => kind_at(&constants, c.string_index) == 1,
                ConstantInfo::FieldRef(c) => kind_at(&constants, c.class_index) == 7
                    && kind_at(&constants, c.name_and_type_index) == 12,
                ConstantInfo::MethodRef(c) => kind_at(&constants, c.class_index) == 7
                    && kind_at(&constants, c.name_and_type_index) == 12,
                ConstantInfo::NameAndType(c) => kind_at(&constants, c.name_index) == 1
                    && kind_at(&constants, c.descriptor_index) == 1,
                _ => true,
            };
            if !ok {
                assert(!reference_ok_at(constants@, i as int));
                return Err(VmError::WrongConstantKind);
            }
            assert(reference_ok_at(constants@, i as int));
            i = i + 1;
        }
        Ok(ConstantPool { constants })
    }

    /// The bytes of the Utf8 entry at `index`.
    pub fn utf8(&self, index: u16) -> (res: Result<Vec<u8>, VmError>)
        ensures
            res is Ok <==> is_utf8_at(self@, index as int),
            res is Err ==> res == Err::<Vec<u8>, VmError>(VmError::WrongConstantKind),
            res is Ok ==> res->Ok_0@ == utf8_of(self@, index as int),
    {
        if index == 0 || index as usize > self.constants.len() {
            return Err(VmError::WrongConstantKind);
        }
        match &self.constants[index as usize - 1] {
            ConstantInfo::Utf8(v) => {
                let out = v.value.clone();
                assert(out@ =~= v.value@);
                Ok(out)
            },
            _ => Err(VmError::WrongConstantKind),
        }
    }

    /// The internal name of the class entry at `index`.
    pub fn class(&self, index: u16) -> (res: Result<Vec<u8>, VmError>)
        requires
            self.wf(),
        ensures
            res is Ok <==> is_class_at(self@, index as int),
            res is Err ==> res == Err::<Vec<u8>, VmError>(VmError::WrongConstantKind),
            res is Ok ==> res->Ok_0@ == class_name_of(self@, index as int),
    {
        if index == 0 || index as usize > self.constants.len() {
            return Err(VmError::WrongConstantKind);
        }
        match &self.constants[index as usize - 1] {
            ConstantInfo::Class(c) => {
                assert(reference_ok_at(self@, index - 1));
                self.utf8(c.name_index)
            },
            _ => Err(VmError::WrongConstantKind),
        }
    }

    /// The `name:descriptor` key of the NameAndType entry at `index`.
    pub fn name_and_type(&self, index: u16) -> (res: Result<Vec<u8>, VmError>)
        requires
            self.wf(),
        ensures
            res is Ok <==> is_name_and_type_at(self@, index as int),
            res is Err ==> res == Err::<Vec<u8>, VmError>(VmError::WrongConstantKind),
            res is Ok ==> res->Ok_0@ == name_and_type_of(self@, index as int),
    {
        if index == 0 || index as usize > self.constants.len() {
            return Err(VmError::WrongConstantKind);
        }
        match &self.constants[index as usize - 1] {
            ConstantInfo::NameAndType(c) => {
                assert(reference_ok_at(self@, index - 1));
                let name = self.utf8(c.name_index)?;
                let descriptor = self.utf8(c.descriptor_index)?;
                Ok(join_key(&name, &descriptor))
            },
            _ => Err(VmError::WrongConstantKind),
        }
    }

    /// The owner's internal name and the `name:descriptor` key of the
    /// MethodRef entry at `index`.
    pub fn method_ref(&self, index: u16) -> (res: Result<(Vec<u8>, Vec<u8>), VmError>)
        requires
            self.wf(),
        ensures
            res is Ok <==> (entry(self@, index as int) matches Some(ConstantInfo::MethodRef(_))),
            res is Err ==> res == Err::<(Vec<u8>, Vec<u8>), VmError>(VmError::WrongConstantKind),
            res is Ok ==> (match entry(self@, index as int) {
                Some(ConstantInfo::MethodRef(m)) =>
                    res->Ok_0.0@ == class_name_of(self@, m.class_index as int)
                    && res->Ok_0.1@ == name_and_type_of(self@, m.name_and_type_index as int),
                _ => false,
            }),
    {
        if index == 0 || index as usize > self.constants.len() {
            return Err(VmError::WrongConstantKind);
        }
        match &self.constants[index as usize - 1] {
            ConstantInfo::MethodRef(m) => {
                assert(reference_ok_at(self@, index - 1));
                let class = self.class(m.class_index)?;
                let key = self.name_and_type(m.name_and_type_index)?;
                Ok((class, key))
            },
            _ => Err(VmError::WrongConstantKind),
        }
    }

    /// The value that the loadable constant at `index` pushes.
    pub fn get(&self, index: usize) -> (res: Result<Type, VmError>)
        ensures
            res is Ok <==> loadable_of(self@, index as int) is Some,
            res is Err ==> res == Err::<Type, VmError>(VmError::WrongConstantKind),
            res is Ok ==> loadable_of(self@, index as int) == Some(res->Ok_0),
    {
        if index == 0 || index > self.constants.len() {
            return Err(VmError::WrongConstantKind);
        }
        match &self.constants[index - 1] {
            ConstantInfo::Integer(x) => Ok(Type::Int(x.value)),
            ConstantInfo::Float(x) => Ok(Type::Float(x.bits)),
            ConstantInfo::Long(x) => Ok(Type::Long(x.value)),
            ConstantInfo::Double(x) => Ok(Type::Double(x.bits)),
            _ => Err(VmError::WrongConstantKind),
        }
    }

    /// The internal names of all class entries, in pool order.
    pub fn classes(&self) -> (res: Vec<Vec<u8>>)
        requires
            self.wf(),
        ensures
            res@.len() == class_entries(self@, self@.len() as int).len(),
            forall|k: int| 0 <= k < res@.len()
                ==> (#[trigger] res@[k])@ == class_entries(self@, self@.len() as int)[k],
    {
        let mut out: Vec<Vec<u8>> = Vec::new();
        let mut i: usize = 0;
        while i < self.constants.len()
            invariant
                self.wf(),
                i <= self@.len(),
                out@.len() == class_entries(self@, i as int).len(),
                forall|k: int| 0 <= k < out@.len()
                    ==> (#[trigger] out@[k])@ == class_entries(self@, i as int)[k],
            decreases self@.len() - i,
        {
            if let ConstantInfo::Class(_) = &self.constants[i] {
                let name = self.class((i + 1) as u16);
                match name {
                    Ok(n) => out.push(n),
                    Err(_) => {},
                }
            }
            i = i + 1;
        }
        out
    }
}

/// The internal names of the class entries among the first `n` slots.
pub open spec fn class_entries(cs: Seq<ConstantInfo>, n: int) -> Seq<Seq<u8>>
    decreases n,
{
    if n <= 0 {
        seq![]
    } else if cs[n - 1] is Class {
        class_entries(cs, n - 1).push(class_name_of(cs, n))
    } else {
        class_entries(cs, n - 1)
    }
}

/// `name`, then `:`, then `descriptor`.
pub fn join_key(name: &Vec<u8>, descriptor: &Vec<u8>) -> (r: Vec<u8>)
    ensures
        r@ == method_key(name@, descriptor@),
{
    let mut out: Vec<u8> = Vec::new();
    append_bytes(&mut out, name.as_slice());
    out.push(58u8);
    append_bytes(&mut out, descriptor.as_slice());
    assert(out@ =~= method_key(name@, descriptor@));
    out
}

/// A fresh copy of `b`.
pub fn copy_bytes(b: &[u8]) -> (r: Vec<u8>)
    ensures
        r@ == b@,
{
    let mut out: Vec<u8> = Vec::new();
    append_bytes(&mut out, b);
    assert(out@ =~= b@);
    out
}

/// Appends `b` to `out`.
pub fn append_bytes(out: &mut Vec<u8>, b: &[u8])
    ensures
        final(out)@ == old(out)@ + b@,
{
    let mut i: usize = 0;
    while i < b.len()
        invariant
            i <= b@.len(),
            out@ == old(out)@ + b@.subrange(0, i as int),
        decreases b@.len() - i,
    {
        out.push(b[i]);
        i = i + 1;
        assert(out@ =~= old(out)@ + b@.subrange(0, i as int));
    }
    assert(b@.subrange(0, b@.len() as int) =~= b@);
}

/// The tag of the entry at 1-based `index`, or 0 when the index is out of range
/// or names the filler slot.
fn kind_at(cs: &Vec<ConstantInfo>, index: u16) -> (r: u8)
    ensures
        r == 1 <==> is_utf8_at(cs@, index as int),
        r == 7 <==> is_class_at(cs@, index as int),
        r == 12 <==> is_name_and_type_at(cs@, index as int),
{
    if index == 0 || index as usize > cs.len() {
        return 0;
    }
    match &cs[index as usize - 1] {
        ConstantInfo::Utf8(_) => 1,
        ConstantInfo::Class(_) => 7,
        ConstantInfo::NameAndType(_) => 12,
        _ => 2,
    }
}

} // verus!
