use vstd::prelude::*;
use crate::class_file::{AttributeInfo, MethodInfo, attribute_table_end, emit_attribute_table};
use crate::constant_pool::{ConstantPool, is_utf8_at, utf8_of};
use crate::error::{VmError, truncated};
use crate::reader::{ClassReader, u16_at, u32_at};

verus! {

pub const ACC_NATIVE: u16 = 0x0100;
pub const ACC_ABSTRACT: u16 = 0x0400;

/// The bytes of the attribute name `Code`.
pub open spec fn code_name() -> Seq<u8> {
    seq![67u8, 111u8, 100u8, 101u8]
}

/// A method linked against its class's constant pool.
#[derive(Debug)]
pub struct Method {
    pub access_flags: u16,
    pub name: Vec<u8>,
    pub descriptor: Vec<u8>,
    pub max_stack: usize,
    pub max_locals: usize,
    pub code: Vec<u8>,
}

/// One row of a Code attribute's exception table.
#[derive(Debug)]
pub struct ExceptionTableEntry {
    pub start_pc: u16,
    pub end_pc: u16,
    pub handler_pc: u16,
    pub catch_type: u16,
}

/// A decoded Code attribute.
#[derive(Debug)]
pub struct CodeAttribute {
    pub max_stack: u16,
    pub max_locals: u16,
    pub code: Vec<u8>,
    pub exception_table: Vec<ExceptionTableEntry>,
    pub attributes: Vec<AttributeInfo>,
}

/// Whether flags mark a method that has no body.
pub open spec fn bodiless(flags: u16) -> bool {
    flags & (ACC_NATIVE | ACC_ABSTRACT) != 0
}

/// What the Code attribute's payload says of the method: `max_stack`,
/// `max_locals`, and the code bytes.
pub open spec fn code_header(info: Seq<u8>) -> (int, int, Seq<u8>) {
    (
        u16_at(info, 0) as int,
        u16_at(info, 2) as int,
        info.subrange(8, 8 + u32_at(info, 4) as int),
    )
}

/// The fault in a Code attribute's payload, if any: where the sizes, the
/// code, the exception-table length, the table or the nested attribute
/// table does not fit, as an offset into the payload.
pub open spec fn code_fault(info: Seq<u8>) -> Option<VmError> {
    if info.len() < 8 {
        Some(truncated(0))
    } else if 8 + u32_at(info, 4) > info.len() {
        Some(truncated(8))
    } else {
        let e = 8 + u32_at(info, 4) as int;
        if e + 2 > info.len() {
            Some(truncated(e))
        } else {
            let t = e + 2 + 8 * u16_at(info, e);
            if t > info.len() {
                Some(truncated(e + 2))
            } else {
                match attribute_table_end(info, t) {
                    Ok(_) => None,
                    Err(x) => Some(x),
                }
            }
        }
    }
}

/// Whether a Code attribute's payload holds all its parts: the sizes, the
/// code, the exception table and the nested attribute table.
pub open spec fn code_attribute_ok(info: Seq<u8>) -> bool {
    code_fault(info) is None
}

/// Where the exception table of a Code attribute's payload starts: just
/// after the code bytes.
pub open spec fn exception_table_start(info: Seq<u8>) -> int {
    8 + u32_at(info, 4) as int
}

/// The exception-table row encoded at `p`.
pub open spec fn entry_at(info: Seq<u8>, p: int) -> ExceptionTableEntry {
    ExceptionTableEntry {
        start_pc: u16_at(info, p),
        end_pc: u16_at(info, p + 2),
        handler_pc: u16_at(info, p + 4),
        catch_type: u16_at(info, p + 6),
    }
}

/// Where the nested attribute table of a Code attribute's payload starts.
pub open spec fn nested_attributes_start(info: Seq<u8>) -> int {
    let e = exception_table_start(info);
    e + 2 + 8 * u16_at(info, e)
}

impl CodeAttribute {
    /// Decodes a Code attribute's payload.
    pub fn from(info: &[u8]) -> (res: Result<CodeAttribute, VmError>)
        ensures
            res is Err ==> code_fault(info@) == Some(res->Err_0),
            res is Ok <==> code_attribute_ok(info@),
            res is Ok ==> info@.len() >= 8 + u32_at(info@, 4) as int
                && code_header(info@) == (
                    res->Ok_0.max_stack as int,
                    res->Ok_0.max_locals as int,
                    res->Ok_0.code@,
                ),
            res is Ok ==> ({
                let e = exception_table_start(info@);
                let t = nested_attributes_start(info@);
                let a = res->Ok_0;
                &&& a.exception_table@.len() == u16_at(info@, e)
                &&& forall|i: int| 0 <= i < a.exception_table@.len()
                    ==> #[trigger] a.exception_table@[i] == entry_at(info@, e + 2 + 8 * i)
                &&& emit_attribute_table(a.attributes@) == info@.subrange(t, attribute_table_end(info@, t)->Ok_0)
            }),
    {
        let mut r = ClassReader::new(info);
        if info.len() < 8 {
            return Err(VmError::TruncatedInput(0));
        }
        let max_stack = r.read_u2()?;
        let max_locals = r.read_u2()?;
        let code_length = r.read_u4()?;
        if info.len() - 8 < code_length as usize {
            return Err(VmError::TruncatedInput(8));
        }
        let code = r.read_exact(code_length as usize)?;
        let e = r.pos;
        if info.len() - e < 2 {
            return Err(VmError::TruncatedInput(e as u64));
        }
        let exception_table_length = r.read_u2()?;
        if info.len() - (e + 2) < 8 * (exception_table_length as usize) {
            return Err(VmError::TruncatedInput((e + 2) as u64));
        }
        let mut exception_table: Vec<ExceptionTableEntry> = Vec::new();
        let mut i: u16 = 0;
        while i < exception_table_length
            invariant
                r.wf(),
                r.bytes@ == info@,
                e == 8 + u32_at(info@, 4) as int,
                e + 2 <= info@.len(),
                exception_table_length == u16_at(info@, e as int),
                e + 2 + 8 * exception_table_length <= info@.len(),
                i <= exception_table_length,
                r.pos == e + 2 + 8 * i,
                exception_table@.len() == i,
                forall|j: int| 0 <= j < i ==> #[trigger] exception_table@[j] == entry_at(info@, e + 2 + 8 * j),
                info@.len() == info.len(),
            decreases exception_table_length - i,
        {
            let entry = ExceptionTableEntry::from(&mut r)?;
            exception_table.push(entry);
            i = i + 1;
        }
        let ghost t = r.pos as int;
        let attributes = crate::class_file::read_attribute_table(&mut r)?;
        assert(r.bytes@.subrange(t, r.pos as int) == info@.subrange(t, attribute_table_end(info@, t)->Ok_0));
        Ok(CodeAttribute { max_stack, max_locals, code, exception_table, attributes })
    }
}

impl ExceptionTableEntry {
    pub fn from(r: &mut ClassReader) -> (res: Result<ExceptionTableEntry, VmError>)
        requires
            old(r).wf(),
        ensures
            final(r).wf(),
            final(r).bytes@ == old(r).bytes@,
            res is Err ==> res == Err::<ExceptionTableEntry, VmError>(truncated(old(r).pos as int)),
            res is Ok <==> old(r).has(8),
            res is Ok ==> final(r).pos == old(r).pos + 8,
            res is Ok ==> res->Ok_0 == (ExceptionTableEntry {
                start_pc: u16_at(old(r).bytes@, old(r).pos as int),
                end_pc: u16_at(old(r).bytes@, old(r).pos + 2),
                handler_pc: u16_at(old(r).bytes@, old(r).pos + 4),
                catch_type: u16_at(old(r).bytes@, old(r).pos + 6),
            }),
    {
        if r.bytes.len() - r.pos < 8 {
            return Err(VmError::TruncatedInput(r.pos as u64));
        }
        let start_pc = r.read_u2()?;
        let end_pc = r.read_u2()?;
        let handler_pc = r.read_u2()?;
        let catch_type = r.read_u2()?;
        Ok(ExceptionTableEntry { start_pc, end_pc, handler_pc, catch_type })
    }
}

/// Number of attributes among the first `n` whose name is `Code`.
pub open spec fn code_count(pool: Seq<crate::class_file::ConstantInfo>, attrs: Seq<AttributeInfo>, n: int) -> int
    decreases n,
{
    if n <= 0 {
        0
    } else {
        code_count(pool, attrs, n - 1) + if utf8_of(pool, attrs[n - 1].attribute_name_index as int)
            == code_name() {
            1int
        } else {
            0
        }
    }
}

/// Whether every attribute's name index names a Utf8 entry.
pub open spec fn attribute_names_ok(pool: Seq<crate::class_file::ConstantInfo>, attrs: Seq<AttributeInfo>) -> bool {
    forall|i: int| 0 <= i < attrs.len() ==> is_utf8_at(pool, (#[trigger] attrs[i]).attribute_name_index as int)
}

/// Whether `attrs[i]` is the only attribute named `Code`.
pub open spec fn unique_code_at(pool: Seq<crate::class_file::ConstantInfo>, attrs: Seq<AttributeInfo>, i: int) -> bool {
    &&& 0 <= i < attrs.len()
    &&& utf8_of(pool, attrs[i].attribute_name_index as int) == code_name()
    &&& code_count(pool, attrs, attrs.len() as int) == 1
}

/// What a linked method's `max_stack`, `max_locals` and code are: zero and
/// empty for a method without a body, else those of its one `Code` attribute.
pub open spec fn linked_code(
    pool: Seq<crate::class_file::ConstantInfo>,
    attrs: Seq<AttributeInfo>,
    flags: u16,
    max_stack: int,
    max_locals: int,
    code: Seq<u8>,
) -> bool {
    if bodiless(flags) {
        max_stack == 0 && max_locals == 0 && code.len() == 0
    } else {
        attribute_names_ok(pool, attrs) && exists|i: int|
            #[trigger] unique_code_at(pool, attrs, i) && {
                let info = attrs[i].info@;
                &&& info.len() >= 8 + u32_at(info, 4) as int
                &&& code_attribute_ok(info)
                &&& code_header(info) == (max_stack, max_locals, code)
            }
    }
}

/// Which error locating the code gives, for a method with a body.
pub open spec fn code_error(
    pool: Seq<crate::class_file::ConstantInfo>,
    attrs: Seq<AttributeInfo>,
    e: VmError,
) -> bool {
    &&& e is WrongConstantKind <==> !attribute_names_ok(pool, attrs)
    &&& e is MissingCode <==> attribute_names_ok(pool, attrs)
        && code_count(pool, attrs, attrs.len() as int) == 0
    &&& e is AmbiguousCode <==> attribute_names_ok(pool, attrs)
        && code_count(pool, attrs, attrs.len() as int) > 1
    &&& e is TruncatedInput <==> attribute_names_ok(pool, attrs)
        && code_count(pool, attrs, attrs.len() as int) == 1
        && exists|i: int| #[trigger] unique_code_at(pool, attrs, i) && code_fault(attrs[i].info@) == Some(e)
    &&& e is WrongConstantKind || e is MissingCode || e is AmbiguousCode || e is TruncatedInput
}

proof fn lemma_code_count_nonneg(pool: Seq<crate::class_file::ConstantInfo>, attrs: Seq<AttributeInfo>, n: int)
    ensures
        code_count(pool, attrs, n) >= 0,
    decreases n,
{
    if n > 0 {
        lemma_code_count_nonneg(pool, attrs, n - 1);
    }
}

proof fn lemma_code_count_one(pool: Seq<crate::class_file::ConstantInfo>, attrs: Seq<AttributeInfo>, i: int, n: int)
    requires
        0 <= i < n,
        utf8_of(pool, attrs[i].attribute_name_index as int) == code_name(),
    ensures
        code_count(pool, attrs, n) >= 1,
    decreases n,
{
    if n - 1 > i {
        lemma_code_count_one(pool, attrs, i, n - 1);
    } else {
        lemma_code_count_nonneg(pool, attrs, n - 1);
    }
}

proof fn lemma_code_count_two(pool: Seq<crate::class_file::ConstantInfo>, attrs: Seq<AttributeInfo>, i: int, j: int, n: int)
    requires
        0 <= i < j < n,
        utf8_of(pool, attrs[i].attribute_name_index as int) == code_name(),
        utf8_of(pool, attrs[j].attribute_name_index as int) == code_name(),
    ensures
        code_count(pool, attrs, n) >= 2,
    decreases n,
{
    if n - 1 > j {
        lemma_code_count_two(pool, attrs, i, j, n - 1);
    } else {
        lemma_code_count_one(pool, attrs, i, n - 1);
    }
}

/// Only one attribute can be the one attribute named `Code`.
proof fn lemma_unique_code(pool: Seq<crate::class_file::ConstantInfo>, attrs: Seq<AttributeInfo>, i: int, j: int)
    requires
        unique_code_at(pool, attrs, i),
        unique_code_at(pool, attrs, j),
    ensures
        i == j,
{
    if i < j {
        lemma_code_count_two(pool, attrs, i, j, attrs.len() as int);
    } else if j < i {
        lemma_code_count_two(pool, attrs, j, i, attrs.len() as int);
    }
}

/// Finds the one attribute named `Code` and decodes it; a method without a
/// body gets an empty one.
pub fn code_attribute(
    access_flags: u16,
    attributes: &Vec<AttributeInfo>,
    constant_pool: &ConstantPool,
) -> (res: Result<(usize, usize, Vec<u8>), VmError>)
    requires
        constant_pool.wf(),
    ensures
        res is Ok ==> linked_code(constant_pool@, attributes@, access_flags,
            res->Ok_0.0 as int, res->Ok_0.1 as int, res->Ok_0.2@),
        res is Err ==> !bodiless(access_flags) && code_error(constant_pool@, attributes@, res->Err_0),
{
    if access_flags & (ACC_NATIVE | ACC_ABSTRACT) != 0 {
        return Ok((0, 0, Vec::new()));
    }
    let mut found: usize = 0;
    let mut count: usize = 0;
    let mut i: usize = 0;
    while i < attributes.len()
        invariant
            constant_pool.wf(),
            !bodiless(access_flags),
            i <= attributes@.len(),
            count == code_count(constant_pool@, attributes@, i as int),
            count <= i,
            forall|j: int| 0 <= j < i ==> is_utf8_at(constant_pool@, (#[trigger] attributes@[j]).attribute_name_index as int),
            count >= 1 ==> found < i && utf8_of(constant_pool@, attributes@[found as int].attribute_name_index as int) == code_name(),
        decreases attributes@.len() - i,
    {
        let name = match constant_pool.utf8(attributes[i].attribute_name_index) {
            Ok(n) => n,
            Err(e) => {
                proof {
                    assert(!attribute_names_ok(constant_pool@, attributes@));
                }
                return Err(e);
            },
        };
        if is_code_name(&name) {
            if count == 0 {
                found = i;
            }
            count = count + 1;
        }
        i = i + 1;
    }
    if count == 0 {
        return Err(VmError::MissingCode);
    }
    if count > 1 {
        return Err(VmError::AmbiguousCode);
    }
    assert(unique_code_at(constant_pool@, attributes@, found as int));
    let ca = match CodeAttribute::from(attributes[found].info.as_slice()) {
        Ok(ca) => ca,
        Err(e) => {
            let ghost info = attributes@[found as int].info@;
            assert(code_fault(info) == Some(e));
            proof {
                let ex = 8 + u32_at(info, 4) as int;
                if info.len() >= 8 && ex + 2 <= info.len() {
                    let t = ex + 2 + 8 * u16_at(info, ex);
                    if t + 2 <= info.len() {
                        crate::class_file::lemma_attributes_fault(info, t + 2, u16_at(info, t) as int);
                    }
                }
            }
            assert(e is TruncatedInput);
            return Err(e);
        },
    };
    Ok((ca.max_stack as usize, ca.max_locals as usize, ca.code))
}

/// Whether `name` is `Code`.
fn is_code_name(name: &Vec<u8>) -> (r: bool)
    ensures
        r == (name@ == code_name()),
{
    let r = name.len() == 4 && name[0] == 67u8 && name[1] == 111u8 && name[2] == 100u8 && name[3] == 101u8;
    proof {
        if r {
            assert(name@ =~= code_name());
        }
    }
    r
}

/// Whether the method record `info` links against `pool`: its name and
/// descriptor are Utf8 entries and, unless it has no body, it has exactly one
/// `Code` attribute, which holds all its parts.
pub open spec fn method_links(pool: Seq<crate::class_file::ConstantInfo>, info: MethodInfo) -> bool {
    &&& is_utf8_at(pool, info.name_index as int)
    &&& is_utf8_at(pool, info.descriptor_index as int)
    &&& !bodiless(info.access_flags) ==> {
        &&& attribute_names_ok(pool, info.attributes@)
        &&& code_count(pool, info.attributes@, info.attributes@.len() as int) == 1
        &&& forall|i: int| #[trigger] unique_code_at(pool, info.attributes@, i)
            ==> code_attribute_ok(info.attributes@[i].info@)
    }
}

/// The error that linking the method record `info` against `pool` gives: a
/// name or descriptor that is not a Utf8 entry, else the fault in its code.
pub open spec fn method_error(pool: Seq<crate::class_file::ConstantInfo>, info: MethodInfo, e: VmError) -> bool {
    if !is_utf8_at(pool, info.name_index as int) || !is_utf8_at(pool, info.descriptor_index as int) {
        e == VmError::WrongConstantKind
    } else {
        !bodiless(info.access_flags) && code_error(pool, info.attributes@, e)
    }
}

/// `m` is the method record `info` linked against `pool`.
pub open spec fn method_linked(pool: Seq<crate::class_file::ConstantInfo>, info: MethodInfo, m: Method) -> bool {
    &&& m.access_flags == info.access_flags
    &&& m.name@ == utf8_of(pool, info.name_index as int)
    &&& m.descriptor@ == utf8_of(pool, info.descriptor_index as int)
    &&& linked_code(pool, info.attributes@, m.access_flags, m.max_stack as int,
        m.max_locals as int, m.code@)
}

impl Method {
    /// The key `name:descriptor` under which the class lists this method.
    pub open spec fn key(&self) -> Seq<u8> {
        crate::constant_pool::method_key(self.name@, self.descriptor@)
    }

    pub fn is_native(&self) -> (r: bool)
        ensures
            r == (self.access_flags & ACC_NATIVE != 0),
    {
        self.access_flags & ACC_NATIVE != 0
    }

    /// Links a method record: resolves its name and descriptor and decodes its
    /// code.
    pub fn from(method_info: &MethodInfo, constant_pool: &ConstantPool) -> (res: Result<Method, VmError>)
        requires
            constant_pool.wf(),
        ensures
            !is_utf8_at(constant_pool@, method_info.name_index as int)
                || !is_utf8_at(constant_pool@, method_info.descriptor_index as int)
                ==> res == Err::<Method, VmError>(VmError::WrongConstantKind),
            res is Ok <==> method_links(constant_pool@, *method_info),
            res is Ok ==> method_linked(constant_pool@, *method_info, res->Ok_0),
            res is Err ==> method_error(constant_pool@, *method_info, res->Err_0),
            res is Err && is_utf8_at(constant_pool@, method_info.name_index as int)
                && is_utf8_at(constant_pool@, method_info.descriptor_index as int)
                ==> !bodiless(method_info.access_flags)
                && code_error(constant_pool@, method_info.attributes@, res->Err_0),
    {
        let name = constant_pool.utf8(method_info.name_index)?;
        let descriptor = constant_pool.utf8(method_info.descriptor_index)?;
        let (max_stack, max_locals, code) = code_attribute(
            method_info.access_flags,
            &method_info.attributes,
            constant_pool,
        )?;
        proof {
            let attrs = method_info.attributes@;
            let pool = constant_pool@;
            if !bodiless(method_info.access_flags) {
                let k = choose|k: int| #[trigger] unique_code_at(pool, attrs, k) && {
                    let info = attrs[k].info@;
                    &&& info.len() >= 8 + u32_at(info, 4) as int
                    &&& code_attribute_ok(info)
                    &&& code_header(info) == (max_stack as int, max_locals as int, code@)
                };
                assert forall|i: int| #[trigger] unique_code_at(pool, attrs, i)
                    implies code_attribute_ok(attrs[i].info@) by {
                    lemma_unique_code(pool, attrs, i, k);
                }
            }
        }
        Ok(Method { access_flags: method_info.access_flags, name, descriptor, max_stack, max_locals, code })
    }
}

} // verus!
