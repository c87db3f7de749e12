use vstd::prelude::*;
use vstd::utf8::valid_utf8;
use crate::error::{VmError, truncated};
use crate::reader::{ClassReader, u16_at, u32_at, u16_bytes, u32_bytes, lemma_u16_bytes, lemma_u32_bytes};

verus! {

pub const MAGIC: u32 = 0xCAFEBABE;

pub const TAG_UTF8: u8 = 1;
pub const TAG_INTEGER: u8 = 3;
pub const TAG_FLOAT: u8 = 4;
pub const TAG_LONG: u8 = 5;
pub const TAG_DOUBLE: u8 = 6;
pub const TAG_CLASS: u8 = 7;
pub const TAG_STRING: u8 = 8;
pub const TAG_FIELD_REF: u8 = 9;
pub const TAG_METHOD_REF: u8 = 10;
pub const TAG_NAME_AND_TYPE: u8 = 12;

#[derive(Debug)]
pub struct ConstantClassInfo {
    pub name_index: u16,
}

#[derive(Debug)]
pub struct ConstantFieldRefInfo {
    pub class_index: u16,
    pub name_and_type_index: u16,
}

#[derive(Debug)]
pub struct ConstantMethodRefInfo {
    pub class_index: u16,
    pub name_and_type_index: u16,
}

#[derive(Debug)]
pub struct ConstantNameAndTypeInfo {
    pub name_index: u16,
    pub descriptor_index: u16,
}

#[derive(Debug)]
pub struct ConstantStringInfo {
    pub string_index: u16,
}

#[derive(Debug)]
pub struct ConstantIntegerInfo {
    pub value: i32,
}

/// A single-precision constant, kept as its IEEE-754 bit pattern.
#[derive(Debug)]
pub struct ConstantFloatInfo {
    pub bits: u32,
}

#[derive(Debug)]
pub struct ConstantLongInfo {
    pub value: i64,
}

/// A double-precision constant, kept as its IEEE-754 bit pattern.
#[derive(Debug)]
pub struct ConstantDoubleInfo {
    pub bits: u64,
}

/// A Utf8 constant: its bytes, which are valid UTF-8.
#[derive(Debug)]
pub struct ConstantUtf8Info {
    pub value: Vec<u8>,
}

/// One slot of the constant pool as it stands in the binary.
#[derive(Debug)]
pub enum ConstantInfo {
    Class(ConstantClassInfo),
    FieldRef(ConstantFieldRefInfo),
    MethodRef(ConstantMethodRefInfo),
    String(ConstantStringInfo),
    Integer(ConstantIntegerInfo),
    Float(ConstantFloatInfo),
    Long(ConstantLongInfo),
    Double(ConstantDoubleInfo),
    NameAndType(ConstantNameAndTypeInfo),
    Utf8(ConstantUtf8Info),
    /// The slot that follows a `Long` or a `Double`.
    Unusable,
}

#[derive(Debug)]
pub struct AttributeInfo {
    pub attribute_name_index: u16,
    pub info: Vec<u8>,
}

#[derive(Debug)]
pub struct FieldInfo {
    pub access_flags: u16,
    pub name_index: u16,
    pub descriptor_index: u16,
    pub attributes: Vec<AttributeInfo>,
}

#[derive(Debug)]
pub struct MethodInfo {
    pub access_flags: u16,
    pub name_index: u16,
    pub descriptor_index: u16,
    pub attributes: Vec<AttributeInfo>,
}

/// A decoded class file, before linking.
#[derive(Debug)]
pub struct ClassFile {
    pub magic: u32,
    pub minor_version: u16,
    pub major_version: u16,
    pub constant_pool_count: u16,
    pub constant_pool: Vec<ConstantInfo>,
    pub access_flags: u16,
    pub this_class: u16,
    pub super_class: u16,
    pub interfaces: Vec<u16>,
    pub fields: Vec<FieldInfo>,
    pub methods: Vec<MethodInfo>,
    pub attributes: Vec<AttributeInfo>,
}

/// The big-endian bytes of a `u64`.
pub open spec fn u64_bytes(v: u64) -> Seq<u8> {
    u32_bytes((v / 0x1_0000_0000) as u32) + u32_bytes((v % 0x1_0000_0000) as u32)
}

/// Whether a constant takes two slots of the pool.
pub open spec fn is_wide(c: ConstantInfo) -> bool {
    c is Long || c is Double
}

/// The bytes that encode one constant; the filler slot encodes to nothing.
pub open spec fn emit_constant(c: ConstantInfo) -> Seq<u8> {
    match c {
        ConstantInfo::Class(i) => seq![TAG_CLASS] + u16_bytes(i.name_index),
        ConstantInfo::FieldRef(i) =>
            seq![TAG_FIELD_REF] + u16_bytes(i.class_index) + u16_bytes(i.name_and_type_index),
        ConstantInfo::MethodRef(i) =>
            seq![TAG_METHOD_REF] + u16_bytes(i.class_index) + u16_bytes(i.name_and_type_index),
        ConstantInfo::String(i) => seq![TAG_STRING] + u16_bytes(i.string_index),
        ConstantInfo::Integer(i) => seq![TAG_INTEGER] + u32_bytes(i.value as u32),
        ConstantInfo::Float(i) => seq![TAG_FLOAT] + u32_bytes(i.bits),
        ConstantInfo::Long(i) => seq![TAG_LONG] + u64_bytes(i.value as u64),
        ConstantInfo::Double(i) => seq![TAG_DOUBLE] + u64_bytes(i.bits),
        ConstantInfo::NameAndType(i) =>
            seq![TAG_NAME_AND_TYPE] + u16_bytes(i.name_index) + u16_bytes(i.descriptor_index),
        ConstantInfo::Utf8(i) => seq![TAG_UTF8] + u16_bytes(i.value@.len() as u16) + i.value@,
        ConstantInfo::Unusable => seq![],
    }
}

/// What a decoded constant can hold: Utf8 bytes are valid and fit a `u16` length.
pub open spec fn constant_wf(c: ConstantInfo) -> bool {
    match c {
        ConstantInfo::Utf8(i) => i.value@.len() < 0x10000 && valid_utf8(i.value@),
        _ => true,
    }
}

/// The bytes of a run of constants, in order.
pub open spec fn emit_constants(cs: Seq<ConstantInfo>) -> Seq<u8>
    decreases cs.len(),
{
    if cs.len() == 0 {
        seq![]
    } else {
        emit_constants(cs.drop_last()) + emit_constant(cs.last())
    }
}

/// A wide constant at `i` is followed by the filler slot.
pub open spec fn wide_ok_at(cs: Seq<ConstantInfo>, i: int) -> bool {
    is_wide(cs[i]) ==> i + 1 < cs.len() && cs[i + 1] is Unusable
}

/// The filler slot at `i` follows a wide constant.
pub open spec fn filler_ok_at(cs: Seq<ConstantInfo>, i: int) -> bool {
    cs[i] is Unusable ==> i > 0 && is_wide(cs[i - 1])
}

/// The slot layout of a constant pool read for `count`: each `Long` or
/// `Double` is followed by `Unusable`, `Unusable` stands nowhere else, and the
/// entries fill the 1-based indices below `count` (a wide constant in the last
/// index spills one slot past it).
pub open spec fn pool_layout(cs: Seq<ConstantInfo>, count: u16) -> bool {
    &&& forall|i: int| 0 <= i < cs.len() ==> constant_wf(#[trigger] cs[i])
    &&& forall|i: int| 0 <= i < cs.len() ==> #[trigger] wide_ok_at(cs, i)
    &&& forall|i: int| 0 <= i < cs.len() ==> #[trigger] filler_ok_at(cs, i)
    &&& if count <= 1 {
            cs.len() == 0
        } else {
            cs.len() + 1 == count || (cs.len() == count && is_wide(cs[count - 2]))
        }
}

pub open spec fn emit_attribute(a: AttributeInfo) -> Seq<u8> {
    u16_bytes(a.attribute_name_index) + u32_bytes(a.info@.len() as u32) + a.info@
}

pub open spec fn emit_attributes(s: Seq<AttributeInfo>) -> Seq<u8>
    decreases s.len(),
{
    if s.len() == 0 {
        seq![]
    } else {
        emit_attributes(s.drop_last()) + emit_attribute(s.last())
    }
}

/// A count of attributes and the attributes themselves.
pub open spec fn emit_attribute_table(s: Seq<AttributeInfo>) -> Seq<u8> {
    u16_bytes(s.len() as u16) + emit_attributes(s)
}

pub open spec fn attributes_wf(s: Seq<AttributeInfo>) -> bool {
    &&& s.len() < 0x10000
    &&& forall|i: int| 0 <= i < s.len() ==> (#[trigger] s[i]).info@.len() < 0x1_0000_0000
}

pub open spec fn emit_member(flags: u16, name: u16, descriptor: u16, attrs: Seq<AttributeInfo>) -> Seq<u8> {
    u16_bytes(flags) + u16_bytes(name) + u16_bytes(descriptor) + emit_attribute_table(attrs)
}

pub open spec fn emit_fields(s: Seq<FieldInfo>) -> Seq<u8>
    decreases s.len(),
{
    if s.len() == 0 {
        seq![]
    } else {
        let f = s.last();
        emit_fields(s.drop_last())
            + emit_member(f.access_flags, f.name_index, f.descriptor_index, f.attributes@)
    }
}

pub open spec fn emit_methods(s: Seq<MethodInfo>) -> Seq<u8>
    decreases s.len(),
{
    if s.len() == 0 {
        seq![]
    } else {
        let m = s.last();
        emit_methods(s.drop_last())
            + emit_member(m.access_flags, m.name_index, m.descriptor_index, m.attributes@)
    }
}

pub open spec fn emit_u16s(s: Seq<u16>) -> Seq<u8>
    decreases s.len(),
{
    if s.len() == 0 {
        seq![]
    } else {
        emit_u16s(s.drop_last()) + u16_bytes(s.last())
    }
}

/// The canonical binary of a class file.
pub open spec fn emit_class_file(cf: ClassFile) -> Seq<u8> {
    u32_bytes(cf.magic) + u16_bytes(cf.minor_version) + u16_bytes(cf.major_version)
        + u16_bytes(cf.constant_pool_count) + emit_constants(cf.constant_pool@)
        + u16_bytes(cf.access_flags) + u16_bytes(cf.this_class) + u16_bytes(cf.super_class)
        + u16_bytes(cf.interfaces@.len() as u16) + emit_u16s(cf.interfaces@)
        + u16_bytes(cf.fields@.len() as u16) + emit_fields(cf.fields@)
        + u16_bytes(cf.methods@.len() as u16) + emit_methods(cf.methods@)
        + emit_attribute_table(cf.attributes@)
}

/// What every decoded class file satisfies.
pub open spec fn class_file_wf(cf: ClassFile) -> bool {
    &&& cf.magic == MAGIC
    &&& pool_layout(cf.constant_pool@, cf.constant_pool_count)
    &&& cf.interfaces@.len() < 0x10000
    &&& cf.fields@.len() < 0x10000
    &&& cf.methods@.len() < 0x10000
    &&& forall|i: int| 0 <= i < cf.fields@.len() ==> attributes_wf((#[trigger] cf.fields@[i]).attributes@)
    &&& forall|i: int| 0 <= i < cf.methods@.len() ==> attributes_wf((#[trigger] cf.methods@[i]).attributes@)
    &&& attributes_wf(cf.attributes@)
}

/// The bytes read so far by `r` since `start`.
pub open spec fn consumed(r: ClassReader, start: int) -> Seq<u8> {
    r.bytes@.subrange(start, r.pos as int)
}

proof fn lemma_split(s: Seq<u8>, a: int, b: int, c: int)
    requires
        0 <= a <= b <= c <= s.len(),
    ensures
        s.subrange(a, c) == s.subrange(a, b) + s.subrange(b, c),
{
    assert(s.subrange(a, c) =~= s.subrange(a, b) + s.subrange(b, c));
}

/// Relies on `std::str::from_utf8`, which fails exactly on invalid UTF-8.
#[verifier::external_body]
fn is_utf8(bytes: &[u8]) -> (r: bool)
    ensures
        r == valid_utf8(bytes@),
{
    std::str::from_utf8(bytes).is_ok()
}

/// Where an attribute that starts at `p` ends, if the bytes hold all of it.
pub open spec fn attribute_end(s: Seq<u8>, p: int) -> Result<int, VmError> {
    if 0 <= p && p + 6 <= s.len() && p + 6 + u32_at(s, p + 2) <= s.len() {
        Ok(p + 6 + u32_at(s, p + 2))
    } else {
        Err(truncated(p))
    }
}

/// Where `n` attributes that start at `p` end.
pub open spec fn attributes_end(s: Seq<u8>, p: int, n: int) -> Result<int, VmError>
    decreases n,
{
    if n <= 0 {
        Ok(p)
    } else {
        match attribute_end(s, p) {
            Ok(e) => attributes_end(s, e, n - 1),
            Err(e) => Err(e),
        }
    }
}

/// Where an attribute table, a `u2` count and the attributes, ends.
pub open spec fn attribute_table_end(s: Seq<u8>, p: int) -> Result<int, VmError> {
    if 0 <= p && p + 2 <= s.len() {
        attributes_end(s, p + 2, u16_at(s, p) as int)
    } else {
        Err(truncated(p))
    }
}

/// Where a field or method record that starts at `p` ends.
pub open spec fn member_end(s: Seq<u8>, p: int) -> Result<int, VmError> {
    if 0 <= p && p + 6 <= s.len() {
        attribute_table_end(s, p + 6)
    } else {
        Err(truncated(p))
    }
}

/// Where `n` field or method records that start at `p` end.
pub open spec fn members_end(s: Seq<u8>, p: int, n: int) -> Result<int, VmError>
    decreases n,
{
    if n <= 0 {
        Ok(p)
    } else {
        match member_end(s, p) {
            Ok(e) => members_end(s, e, n - 1),
            Err(e) => Err(e),
        }
    }
}

/// Reading attributes can only fail on truncation.
pub proof fn lemma_attributes_fault(s: Seq<u8>, p: int, n: int)
    ensures
        attributes_end(s, p, n) is Err ==> attributes_end(s, p, n)->Err_0 is TruncatedInput,
    decreases n,
{
    if n > 0 {
        if let Ok(e) = attribute_end(s, p) {
            lemma_attributes_fault(s, e, n - 1);
        }
    }
}

/// Reading field or method records can only fail on truncation.
pub proof fn lemma_members_fault(s: Seq<u8>, p: int, n: int)
    ensures
        members_end(s, p, n) is Err ==> members_end(s, p, n)->Err_0 is TruncatedInput,
    decreases n,
{
    if n > 0 {
        if 0 <= p && p + 6 <= s.len() && p + 8 <= s.len() {
            lemma_attributes_fault(s, p + 8, u16_at(s, p + 6) as int);
        }
        if let Ok(e) = member_end(s, p) {
            lemma_members_fault(s, e, n - 1);
        }
    }
}

/// Where a constant that starts at `p` ends, and whether it takes two slots;
/// else the first fault its reading meets: too few bytes, an unsupported
/// tag, or invalid UTF-8.
pub open spec fn constant_end(s: Seq<u8>, p: int) -> Result<(int, bool), VmError> {
    if !(0 <= p < s.len()) {
        Err(truncated(p))
    } else if !supported_tag(s[p]) {
        Err(VmError::UnsupportedConstant(s[p]))
    } else {
        let tag = s[p];
        let size: int = if tag == TAG_CLASS || tag == TAG_STRING {
            3
        } else if tag == TAG_FIELD_REF || tag == TAG_METHOD_REF || tag == TAG_NAME_AND_TYPE
            || tag == TAG_INTEGER || tag == TAG_FLOAT {
            5
        } else if tag == TAG_LONG || tag == TAG_DOUBLE {
            9
        } else if p + 3 <= s.len() {
            3 + u16_at(s, p + 1)
        } else {
            0
        };
        if size == 0 || p + size > s.len() {
            Err(truncated(p))
        } else if tag == TAG_UTF8 && !valid_utf8(s.subrange(p + 3, p + size)) {
            Err(VmError::BadUtf8)
        } else {
            Ok((p + size, tag == TAG_LONG || tag == TAG_DOUBLE))
        }
    }
}

/// Where the constants read from 1-based `index` while it stays below
/// `count` end, a wide constant taking two indices; else the first fault.
pub open spec fn pool_end(s: Seq<u8>, p: int, index: int, count: int) -> Result<int, VmError>
    decreases (if index < count { count - index } else { 0 }),
{
    if index >= count {
        Ok(p)
    } else {
        match constant_end(s, p) {
            Ok((e, w)) => {
                let step: int = if w {
                    2
                } else {
                    1
                };
                pool_end(s, e, index + step, count)
            },
            Err(e) => Err(e),
        }
    }
}

/// Where the class file that `s` starts with ends, if it holds one after
/// its magic number; else the first fault that reading it meets.
pub open spec fn class_end(s: Seq<u8>) -> Result<int, VmError> {
    if s.len() < 10 {
        Err(truncated(4))
    } else {
        match pool_end(s, 10, 1, u16_at(s, 8) as int) {
            Err(e) => Err(e),
            Ok(p) => if p + 8 > s.len() {
                Err(truncated(p))
            } else {
                let q = p + 8 + 2 * u16_at(s, p + 6);
                if q > s.len() {
                    Err(truncated(p + 8))
                } else if q + 2 > s.len() {
                    Err(truncated(q))
                } else {
                    match members_end(s, q + 2, u16_at(s, q) as int) {
                        Err(e) => Err(e),
                        Ok(f) => if f + 2 > s.len() {
                            Err(truncated(f))
                        } else {
                            match members_end(s, f + 2, u16_at(s, f) as int) {
                                Err(e) => Err(e),
                                Ok(m) => attribute_table_end(s, m),
                            }
                        },
                    }
                }
            },
        }
    }
}

/// Reads one attribute: a name index, a `u4` length and that many bytes.
pub fn read_attribute(r: &mut ClassReader) -> (res: Result<AttributeInfo, VmError>)
    requires
        old(r).wf(),
    ensures
        final(r).wf(),
        final(r).bytes@ == old(r).bytes@,
        old(r).pos <= final(r).pos,
        res is Ok <==> attribute_end(old(r).bytes@, old(r).pos as int) is Ok,
        res is Ok ==> final(r).pos == attribute_end(old(r).bytes@, old(r).pos as int)->Ok_0,
        res is Err ==> res->Err_0 == attribute_end(old(r).bytes@, old(r).pos as int)->Err_0,
        res is Ok ==> res->Ok_0.info@.len() < 0x1_0000_0000
            && emit_attribute(res->Ok_0) == consumed(*final(r), old(r).pos as int),
{
    let p0 = r.pos;
    if r.bytes.len() - p0 < 6 {
        return Err(VmError::TruncatedInput(p0 as u64));
    }
    let name = r.read_u2()?;
    proof { lemma_u16_bytes(r.bytes@, p0 as int); }
    let len = r.read_u4()?;
    proof { lemma_u32_bytes(r.bytes@, p0 + 2); }
    if r.bytes.len() - r.pos < len as usize {
        return Err(VmError::TruncatedInput(p0 as u64));
    }
    let info = r.read_exact(len as usize)?;
    let a = AttributeInfo { attribute_name_index: name, info };
    assert(consumed(*r, p0 as int) =~= emit_attribute(a));
    Ok(a)
}

/// Reads an attribute table: a `u2` count, then that many attributes.
pub fn read_attribute_table(r: &mut ClassReader) -> (res: Result<Vec<AttributeInfo>, VmError>)
    requires
        old(r).wf(),
    ensures
        final(r).wf(),
        final(r).bytes@ == old(r).bytes@,
        old(r).pos <= final(r).pos,
        res is Err ==> res->Err_0 == attribute_table_end(old(r).bytes@, old(r).pos as int)->Err_0,
        res is Ok <==> attribute_table_end(old(r).bytes@, old(r).pos as int) is Ok,
        res is Ok ==> final(r).pos == attribute_table_end(old(r).bytes@, old(r).pos as int)->Ok_0,
        res is Ok ==> attributes_wf(res->Ok_0@)
            && emit_attribute_table(res->Ok_0@) == consumed(*final(r), old(r).pos as int),
{
    let p0 = r.pos;
    let count = r.read_u2()?;
    proof { lemma_u16_bytes(r.bytes@, p0 as int); }
    let mut attrs: Vec<AttributeInfo> = Vec::new();
    let mut i: u16 = 0;
    while i < count
        invariant
            r.wf(),
            r.bytes@ == old(r).bytes@,
            p0 == old(r).pos,
            p0 + 2 <= r.pos,
            i <= count,
            attrs@.len() == i,
            attributes_wf(attrs@),
            u16_bytes(count) == r.bytes@.subrange(p0 as int, p0 + 2),
            emit_attributes(attrs@) == r.bytes@.subrange(p0 + 2, r.pos as int),
            count == u16_at(r.bytes@, p0 as int),
            attribute_table_end(r.bytes@, p0 as int) == attributes_end(r.bytes@, r.pos as int, count - i),
        decreases count - i,
    {
        let p = r.pos;
        let a = read_attribute(r)?;
        let ghost before = attrs@;
        attrs.push(a);
        assert(attrs@.drop_last() =~= before);
        assert(emit_attributes(attrs@) =~= r.bytes@.subrange(p0 + 2, r.pos as int));
        i = i + 1;
    }
    assert(attrs@.len() as u16 == count);
    assert(consumed(*r, p0 as int) =~= emit_attribute_table(attrs@));
    Ok(attrs)
}

/// Whether a constant-pool tag is one this decoder understands.
pub open spec fn supported_tag(tag: u8) -> bool {
    tag == TAG_UTF8 || tag == TAG_INTEGER || tag == TAG_FLOAT || tag == TAG_LONG
        || tag == TAG_DOUBLE || tag == TAG_CLASS || tag == TAG_STRING || tag == TAG_FIELD_REF
        || tag == TAG_METHOD_REF || tag == TAG_NAME_AND_TYPE
}

/// Reads a `u2` and records the bytes it came from.
fn read_u2_at(r: &mut ClassReader) -> (res: Result<u16, VmError>)
    requires
        old(r).wf(),
    ensures
        final(r).wf(),
        final(r).bytes@ == old(r).bytes@,
        old(r).pos <= final(r).pos,
        res is Err ==> res == Err::<u16, VmError>(truncated(old(r).pos as int)),
        res is Ok <==> old(r).has(2),
        res is Ok ==> final(r).pos == old(r).pos + 2
            && res->Ok_0 == u16_at(old(r).bytes@, old(r).pos as int)
            && u16_bytes(res->Ok_0) == consumed(*final(r), old(r).pos as int),
{
    let p = r.pos;
    let v = r.read_u2()?;
    proof { lemma_u16_bytes(r.bytes@, p as int); }
    Ok(v)
}

/// Reads a `u4` and records the bytes it came from.
fn read_u4_at(r: &mut ClassReader) -> (res: Result<u32, VmError>)
    requires
        old(r).wf(),
    ensures
        final(r).wf(),
        final(r).bytes@ == old(r).bytes@,
        old(r).pos <= final(r).pos,
        res is Err ==> res == Err::<u32, VmError>(truncated(old(r).pos as int)),
        res is Ok <==> old(r).has(4),
        res is Ok ==> final(r).pos == old(r).pos + 4
            && res->Ok_0 == u32_at(old(r).bytes@, old(r).pos as int)
            && u32_bytes(res->Ok_0) == consumed(*final(r), old(r).pos as int),
{
    let p = r.pos;
    let v = r.read_u4()?;
    proof { lemma_u32_bytes(r.bytes@, p as int); }
    Ok(v)
}

/// Reads eight bytes as a big-endian `u64`.
fn read_u8_bytes(r: &mut ClassReader) -> (res: Result<u64, VmError>)
    requires
        old(r).wf(),
    ensures
        final(r).wf(),
        final(r).bytes@ == old(r).bytes@,
        old(r).pos <= final(r).pos,
        res is Err ==> res->Err_0 is TruncatedInput,
        res is Ok <==> old(r).has(8),
        res is Ok ==> final(r).pos == old(r).pos + 8,
        res is Ok ==> u64_bytes(res->Ok_0) == consumed(*final(r), old(r).pos as int),
{
    let p = r.pos;
    let hi = read_u4_at(r)?;
    let lo = read_u4_at(r)?;
    let v: u64 = (hi as u64) * 0x1_0000_0000 + lo as u64;
    assert(v / 0x1_0000_0000 == hi && v % 0x1_0000_0000 == lo) by (nonlinear_arith)
        requires v == hi as int * 0x1_0000_0000 + lo as int, lo < 0x1_0000_0000;
    assert(consumed(*r, p as int) =~= u32_bytes(hi) + u32_bytes(lo));
    Ok(v)
}

/// Reads one constant: a tag byte, then the payload that the tag calls for.
pub fn cp_info(r: &mut ClassReader) -> (res: Result<ConstantInfo, VmError>)
    requires
        old(r).wf(),
    ensures
        final(r).wf(),
        final(r).bytes@ == old(r).bytes@,
        old(r).pos <= final(r).pos,
        !old(r).has(1) ==> res == Err::<ConstantInfo, VmError>(truncated(old(r).pos as int)),
        old(r).has(1) && !supported_tag(old(r).bytes@[old(r).pos as int])
            ==> res == Err::<ConstantInfo, VmError>(
                VmError::UnsupportedConstant(old(r).bytes@[old(r).pos as int]),
            ),
        res is Err ==> res->Err_0 is TruncatedInput || res->Err_0 is BadUtf8
            || res->Err_0 is UnsupportedConstant,
        res is Err && res->Err_0 is UnsupportedConstant ==> old(r).has(1)
            && !supported_tag(old(r).bytes@[old(r).pos as int]),
        res is Ok <==> constant_end(old(r).bytes@, old(r).pos as int) is Ok,
        res is Err ==> res->Err_0 == constant_end(old(r).bytes@, old(r).pos as int)->Err_0,
        res is Ok ==> ({
            let (end, wide) = constant_end(old(r).bytes@, old(r).pos as int)->Ok_0;
            final(r).pos == end && is_wide(res->Ok_0) == wide
        }),
        res is Ok ==> constant_wf(res->Ok_0) && !(res->Ok_0 is Unusable)
            && emit_constant(res->Ok_0) == consumed(*final(r), old(r).pos as int),
{
    let p = r.pos;
    let tag = r.read_u1()?;
    if !(tag == TAG_UTF8 || tag == TAG_INTEGER || tag == TAG_FLOAT || tag == TAG_LONG
        || tag == TAG_DOUBLE || tag == TAG_CLASS || tag == TAG_STRING || tag == TAG_FIELD_REF
        || tag == TAG_METHOD_REF || tag == TAG_NAME_AND_TYPE) {
        return Err(VmError::UnsupportedConstant(tag));
    }
    let size: usize = if tag == TAG_CLASS || tag == TAG_STRING {
        3
    } else if tag == TAG_FIELD_REF || tag == TAG_METHOD_REF || tag == TAG_NAME_AND_TYPE
        || tag == TAG_INTEGER || tag == TAG_FLOAT {
        5
    } else if tag == TAG_LONG || tag == TAG_DOUBLE {
        9
    } else {
        if r.bytes.len() - p < 3 {
            return Err(VmError::TruncatedInput(p as u64));
        }
        3 + (r.bytes[p + 1] as usize) * 0x100 + r.bytes[p + 2] as usize
    };
    if r.bytes.len() - p < size {
        return Err(VmError::TruncatedInput(p as u64));
    }
    let c = match tag {
        TAG_CLASS => {
            let name_index = read_u2_at(r)?;
            ConstantInfo::Class(ConstantClassInfo { name_index })
        },
        TAG_FIELD_REF => {
            let class_index = read_u2_at(r)?;
            let name_and_type_index = read_u2_at(r)?;
            ConstantInfo::FieldRef(ConstantFieldRefInfo { class_index, name_and_type_index })
        },
        TAG_METHOD_REF => {
            let class_index = read_u2_at(r)?;
            let name_and_type_index = read_u2_at(r)?;
            ConstantInfo::MethodRef(ConstantMethodRefInfo { class_index, name_and_type_index })
        },
        TAG_STRING => {
            let string_index = read_u2_at(r)?;
            ConstantInfo::String(ConstantStringInfo { string_index })
        },
        TAG_INTEGER => {
            let v = read_u4_at(r)?;
            assert((v as i32) as u32 == v) by (bit_vector);
            ConstantInfo::Integer(ConstantIntegerInfo { value: v as i32 })
        },
        TAG_FLOAT => {
            let bits = read_u4_at(r)?;
            ConstantInfo::Float(ConstantFloatInfo { bits })
        },
        TAG_LONG => {
            let v = read_u8_bytes(r)?;
            assert((v as i64) as u64 == v) by (bit_vector);
            ConstantInfo::Long(ConstantLongInfo { value: v as i64 })
        },
        TAG_DOUBLE => {
            let bits = read_u8_bytes(r)?;
            ConstantInfo::Double(ConstantDoubleInfo { bits })
        },
        TAG_NAME_AND_TYPE => {
            let name_index = read_u2_at(r)?;
            let descriptor_index = read_u2_at(r)?;
            ConstantInfo::NameAndType(ConstantNameAndTypeInfo { name_index, descriptor_index })
        },
        TAG_UTF8 => {
            let len = read_u2_at(r)?;
            let value = r.read_exact(len as usize)?;
            if !is_utf8(value.as_slice()) {
                return Err(VmError::BadUtf8);
            }
            ConstantInfo::Utf8(ConstantUtf8Info { value })
        },
        _ => {
            return Err(VmError::UnsupportedConstant(tag));
        },
    };
    assert(consumed(*r, p as int) =~= emit_constant(c));
    Ok(c)
}

impl FieldInfo {
    /// Reads one field: flags, name index, descriptor index, attribute table.
    pub fn read(r: &mut ClassReader) -> (res: Result<FieldInfo, VmError>)
        requires
            old(r).wf(),
        ensures
            final(r).wf(),
            final(r).bytes@ == old(r).bytes@,
            old(r).pos <= final(r).pos,
            res is Err ==> res->Err_0 == member_end(old(r).bytes@, old(r).pos as int)->Err_0,
            res is Ok <==> member_end(old(r).bytes@, old(r).pos as int) is Ok,
            res is Ok ==> final(r).pos == member_end(old(r).bytes@, old(r).pos as int)->Ok_0,
            res is Ok ==> attributes_wf(res->Ok_0.attributes@) && emit_member(
                res->Ok_0.access_flags,
                res->Ok_0.name_index,
                res->Ok_0.descriptor_index,
                res->Ok_0.attributes@,
            ) == consumed(*final(r), old(r).pos as int),
    {
        let p = r.pos;
        if r.bytes.len() - p < 6 {
            return Err(VmError::TruncatedInput(p as u64));
        }
        let access_flags = read_u2_at(r)?;
        let name_index = read_u2_at(r)?;
        let descriptor_index = read_u2_at(r)?;
        let attributes = read_attribute_table(r)?;
        let f = FieldInfo { access_flags, name_index, descriptor_index, attributes };
        assert(consumed(*r, p as int) =~= emit_member(
            access_flags, name_index, descriptor_index, f.attributes@));
        Ok(f)
    }
}

impl MethodInfo {
    /// Reads one method record, which has the shape of a field.
    pub fn read(r: &mut ClassReader) -> (res: Result<MethodInfo, VmError>)
        requires
            old(r).wf(),
        ensures
            final(r).wf(),
            final(r).bytes@ == old(r).bytes@,
            old(r).pos <= final(r).pos,
            res is Err ==> res->Err_0 == member_end(old(r).bytes@, old(r).pos as int)->Err_0,
            res is Ok <==> member_end(old(r).bytes@, old(r).pos as int) is Ok,
            res is Ok ==> final(r).pos == member_end(old(r).bytes@, old(r).pos as int)->Ok_0,
            res is Ok ==> attributes_wf(res->Ok_0.attributes@) && emit_member(
                res->Ok_0.access_flags,
                res->Ok_0.name_index,
                res->Ok_0.descriptor_index,
                res->Ok_0.attributes@,
            ) == consumed(*final(r), old(r).pos as int),
    {
        let p = r.pos;
        if r.bytes.len() - p < 6 {
            return Err(VmError::TruncatedInput(p as u64));
        }
        let access_flags = read_u2_at(r)?;
        let name_index = read_u2_at(r)?;
        let descriptor_index = read_u2_at(r)?;
        let attributes = read_attribute_table(r)?;
        let m = MethodInfo { access_flags, name_index, descriptor_index, attributes };
        assert(consumed(*r, p as int) =~= emit_member(
            access_flags, name_index, descriptor_index, m.attributes@));
        Ok(m)
    }
}

/// Reads the constant pool for `count`: constants from index 1 while the
/// index stays below `count`, a wide constant taking two indices.
pub fn read_constant_pool(r: &mut ClassReader, count: u16) -> (res: Result<Vec<ConstantInfo>, VmError>)
    requires
        old(r).wf(),
    ensures
        final(r).wf(),
        final(r).bytes@ == old(r).bytes@,
        old(r).pos <= final(r).pos,
        res is Err ==> res->Err_0 is TruncatedInput || res->Err_0 is BadUtf8
            || res->Err_0 is UnsupportedConstant,
        res is Ok <==> pool_end(old(r).bytes@, old(r).pos as int, 1, count as int) is Ok,
        res is Err ==> res->Err_0 == pool_end(old(r).bytes@, old(r).pos as int, 1, count as int)->Err_0,
        res is Ok ==> final(r).pos == pool_end(old(r).bytes@, old(r).pos as int, 1, count as int)->Ok_0,
        res is Ok ==> pool_layout(res->Ok_0@, count)
            && emit_constants(res->Ok_0@) == consumed(*final(r), old(r).pos as int),
{
    let p0 = r.pos;
    let mut pool: Vec<ConstantInfo> = Vec::new();
    let mut index: usize = 1;
    while index < count as usize
        invariant
            r.wf(),
            r.bytes@ == old(r).bytes@,
            p0 == old(r).pos,
            p0 <= r.pos,
            index == pool@.len() + 1,
            index <= count as usize + 1,
            forall|i: int| 0 <= i < pool@.len() ==> constant_wf(#[trigger] pool@[i]),
            forall|i: int| 0 <= i < pool@.len() ==> #[trigger] wide_ok_at(pool@, i),
            forall|i: int| 0 <= i < pool@.len() ==> #[trigger] filler_ok_at(pool@, i),
            count <= 1 ==> pool@.len() == 0,
            count >= 1 && pool@.len() == count as int ==> count >= 2 && is_wide(pool@[count - 2]),
            emit_constants(pool@) == r.bytes@.subrange(p0 as int, r.pos as int),
            pool_end(r.bytes@, p0 as int, 1, count as int) == pool_end(r.bytes@, r.pos as int, index as int, count as int),
        decreases count as usize + 1 - index,
    {
        let p = r.pos;
        let c = cp_info(r)?;
        let wide = match c {
            ConstantInfo::Long(_) | ConstantInfo::Double(_) => true,
            _ => false,
        };
        let ghost before = pool@;
        pool.push(c);
        assert(pool@.drop_last() =~= before);
        assert(emit_constants(pool@) =~= r.bytes@.subrange(p0 as int, r.pos as int));
        if wide {
            let ghost before2 = pool@;
            pool.push(ConstantInfo::Unusable);
            assert(pool@.drop_last() =~= before2);
            assert(emit_constants(pool@) =~= emit_constants(before2));
            index = index + 2;
        } else {
            index = index + 1;
        }
        proof {
            let b = before.len() as int;
            assert forall|i: int| 0 <= i < pool@.len() implies #[trigger] wide_ok_at(pool@, i) by {
                if i < b {
                    assert(wide_ok_at(before, i));
                }
            }
            assert forall|i: int| 0 <= i < pool@.len() implies #[trigger] filler_ok_at(pool@, i) by {
                if i < b {
                    assert(filler_ok_at(before, i));
                }
            }
            assert forall|i: int| 0 <= i < pool@.len() implies constant_wf(#[trigger] pool@[i]) by {
                if i < b {
                    assert(constant_wf(before[i]));
                }
            }
        }
    }
    Ok(pool)
}

/// Reads `count` interface indices.
fn read_interfaces(r: &mut ClassReader, count: u16) -> (res: Result<Vec<u16>, VmError>)
    requires
        old(r).wf(),
    ensures
        final(r).wf(),
        final(r).bytes@ == old(r).bytes@,
        old(r).pos <= final(r).pos,
        res is Err ==> res == Err::<Vec<u16>, VmError>(truncated(old(r).pos as int)),
        res is Ok <==> old(r).pos + 2 * count <= old(r).bytes@.len(),
        res is Ok ==> final(r).pos == old(r).pos + 2 * count,
        res is Ok ==> res->Ok_0@.len() == count
            && emit_u16s(res->Ok_0@) == consumed(*final(r), old(r).pos as int),
{
    let p0 = r.pos;
    if r.bytes.len() - p0 < 2 * (count as usize) {
        return Err(VmError::TruncatedInput(p0 as u64));
    }
    let mut out: Vec<u16> = Vec::new();
    let mut i: u16 = 0;
    while i < count
        invariant
            r.wf(),
            r.bytes@ == old(r).bytes@,
            p0 == old(r).pos,
            p0 <= r.pos,
            i <= count,
            out@.len() == i,
            r.pos == p0 + 2 * i,
            p0 + 2 * count <= r.bytes@.len(),
            emit_u16s(out@) == r.bytes@.subrange(p0 as int, r.pos as int),
        decreases count - i,
    {
        let v = read_u2_at(r)?;
        let ghost before = out@;
        out.push(v);
        assert(out@.drop_last() =~= before);
        assert(emit_u16s(out@) =~= r.bytes@.subrange(p0 as int, r.pos as int));
        i = i + 1;
    }
    Ok(out)
}

/// Reads `count` field records.
fn read_fields(r: &mut ClassReader, count: u16) -> (res: Result<Vec<FieldInfo>, VmError>)
    requires
        old(r).wf(),
    ensures
        final(r).wf(),
        final(r).bytes@ == old(r).bytes@,
        old(r).pos <= final(r).pos,
        res is Err ==> res->Err_0 == members_end(old(r).bytes@, old(r).pos as int, count as int)->Err_0,
        res is Ok <==> members_end(old(r).bytes@, old(r).pos as int, count as int) is Ok,
        res is Ok ==> final(r).pos == members_end(old(r).bytes@, old(r).pos as int, count as int)->Ok_0,
        res is Ok ==> res->Ok_0@.len() == count
            && (forall|i: int| 0 <= i < res->Ok_0@.len()
                ==> attributes_wf((#[trigger] res->Ok_0@[i]).attributes@))
            && emit_fields(res->Ok_0@) == consumed(*final(r), old(r).pos as int),
{
    let p0 = r.pos;
    let mut out: Vec<FieldInfo> = Vec::new();
    let mut i: u16 = 0;
    while i < count
        invariant
            r.wf(),
            r.bytes@ == old(r).bytes@,
            p0 == old(r).pos,
            p0 <= r.pos,
            i <= count,
            out@.len() == i,
            forall|j: int| 0 <= j < out@.len() ==> attributes_wf((#[trigger] out@[j]).attributes@),
            emit_fields(out@) == r.bytes@.subrange(p0 as int, r.pos as int),
            members_end(r.bytes@, p0 as int, count as int) == members_end(r.bytes@, r.pos as int, count - i),
        decreases count - i,
    {
        let v = FieldInfo::read(r)?;
        let ghost before = out@;
        out.push(v);
        assert(out@.drop_last() =~= before);
        assert(emit_fields(out@) =~= r.bytes@.subrange(p0 as int, r.pos as int));
        i = i + 1;
    }
    Ok(out)
}

/// Reads `count` method records.
fn read_methods(r: &mut ClassReader, count: u16) -> (res: Result<Vec<MethodInfo>, VmError>)
    requires
        old(r).wf(),
    ensures
        final(r).wf(),
        final(r).bytes@ == old(r).bytes@,
        old(r).pos <= final(r).pos,
        res is Err ==> res->Err_0 == members_end(old(r).bytes@, old(r).pos as int, count as int)->Err_0,
        res is Ok <==> members_end(old(r).bytes@, old(r).pos as int, count as int) is Ok,
        res is Ok ==> final(r).pos == members_end(old(r).bytes@, old(r).pos as int, count as int)->Ok_0,
        res is Ok ==> res->Ok_0@.len() == count
            && (forall|i: int| 0 <= i < res->Ok_0@.len()
                ==> attributes_wf((#[trigger] res->Ok_0@[i]).attributes@))
            && emit_methods(res->Ok_0@) == consumed(*final(r), old(r).pos as int),
{
    let p0 = r.pos;
    let mut out: Vec<MethodInfo> = Vec::new();
    let mut i: u16 = 0;
    while i < count
        invariant
            r.wf(),
            r.bytes@ == old(r).bytes@,
            p0 == old(r).pos,
            p0 <= r.pos,
            i <= count,
            out@.len() == i,
            forall|j: int| 0 <= j < out@.len() ==> attributes_wf((#[trigger] out@[j]).attributes@),
            emit_methods(out@) == r.bytes@.subrange(p0 as int, r.pos as int),
            members_end(r.bytes@, p0 as int, count as int) == members_end(r.bytes@, r.pos as int, count - i),
        decreases count - i,
    {
        let v = MethodInfo::read(r)?;
        let ghost before = out@;
        out.push(v);
        assert(out@.drop_last() =~= before);
        assert(emit_methods(out@) =~= r.bytes@.subrange(p0 as int, r.pos as int));
        i = i + 1;
    }
    Ok(out)
}

/// `cf` is the class file that `bytes` start with: it is well formed and its
/// encoding is the prefix that the framing delimits.
pub open spec fn decodes_to(bytes: Seq<u8>, cf: ClassFile) -> bool {
    &&& class_file_wf(cf)
    &&& class_end(bytes) is Ok
    &&& emit_class_file(cf).len() == class_end(bytes)->Ok_0
    &&& bytes.subrange(0, emit_class_file(cf).len() as int) == emit_class_file(cf)
}

/// The error that decoding `bytes` gives, if any: too few bytes for the
/// magic number, a wrong magic number, or the first fault after it.
pub open spec fn decode_error(bytes: Seq<u8>) -> Option<VmError> {
    if bytes.len() < 4 {
        Some(truncated(0))
    } else if u32_at(bytes, 0) != MAGIC {
        Some(VmError::BadMagic)
    } else if class_end(bytes) is Err {
        Some(class_end(bytes)->Err_0)
    } else {
        None
    }
}

impl ClassFile {
    /// Decodes a class file from the start of `bytes`. Trailing bytes are
    /// ignored. On success the result re-emits exactly the bytes it was read
    /// from, which are a prefix of `bytes`.
    #[verifier::rlimit(60)]
    pub fn from_bytes(bytes: &[u8]) -> (res: Result<ClassFile, VmError>)
        ensures
            bytes@.len() < 4 ==> res == Err::<ClassFile, VmError>(truncated(0)),
            bytes@.len() >= 4 && u32_at(bytes@, 0) != MAGIC
                ==> res == Err::<ClassFile, VmError>(VmError::BadMagic),
            res == Err::<ClassFile, VmError>(VmError::BadMagic)
                ==> bytes@.len() >= 4 && u32_at(bytes@, 0) != MAGIC,
            res is Err ==> res->Err_0 is TruncatedInput || res->Err_0 is BadUtf8
                || res->Err_0 is UnsupportedConstant || res->Err_0 is BadMagic,
            res is Ok <==> bytes@.len() >= 4 && u32_at(bytes@, 0) == MAGIC && class_end(bytes@) is Ok,
            bytes@.len() >= 4 && u32_at(bytes@, 0) == MAGIC && class_end(bytes@) is Err
                ==> res == Err::<ClassFile, VmError>(class_end(bytes@)->Err_0),
            res is Ok ==> emit_class_file(res->Ok_0).len() == class_end(bytes@)->Ok_0,
            res is Ok ==> ({
                let d = res->Ok_0;
                let p = pool_end(bytes@, 10, 1, u16_at(bytes@, 8) as int)->Ok_0;
                &&& d.magic == u32_at(bytes@, 0)
                &&& d.minor_version == u16_at(bytes@, 4)
                &&& d.major_version == u16_at(bytes@, 6)
                &&& d.constant_pool_count == u16_at(bytes@, 8)
                &&& d.access_flags == u16_at(bytes@, p)
                &&& d.this_class == u16_at(bytes@, p + 2)
                &&& d.super_class == u16_at(bytes@, p + 4)
            }),
            res is Ok ==> class_file_wf(res->Ok_0) && bytes@.subrange(
                0,
                emit_class_file(res->Ok_0).len() as int,
            ) == emit_class_file(res->Ok_0) && emit_class_file(res->Ok_0).len() <= bytes@.len(),
    {
        let mut r = ClassReader::new(bytes);
        let magic = read_u4_at(&mut r)?;
        if magic != MAGIC {
            return Err(VmError::BadMagic);
        }
        if bytes.len() < 10 {
            return Err(VmError::TruncatedInput(4));
        }
        let minor_version = read_u2_at(&mut r)?;
        proof { lemma_split(r.bytes@, 0, 4, 6); }
        let major_version = read_u2_at(&mut r)?;
        proof { lemma_split(r.bytes@, 0, 6, 8); }
        let constant_pool_count = read_u2_at(&mut r)?;
        proof { lemma_split(r.bytes@, 0, 8, 10); }
        let ghost head = u32_bytes(magic) + u16_bytes(minor_version) + u16_bytes(major_version)
            + u16_bytes(constant_pool_count);
        assert(r.bytes@.subrange(0, r.pos as int) =~= head);
        let p = r.pos;
        let constant_pool = read_constant_pool(&mut r, constant_pool_count)?;
        proof { lemma_split(r.bytes@, 0, p as int, r.pos as int); }
        let p = r.pos;
        if bytes.len() - p < 8 {
            return Err(VmError::TruncatedInput(p as u64));
        }
        let access_flags = read_u2_at(&mut r)?;
        let this_class = read_u2_at(&mut r)?;
        let super_class = read_u2_at(&mut r)?;
        let interfaces_count = read_u2_at(&mut r)?;
        let interfaces = read_interfaces(&mut r, interfaces_count)?;
        let ghost mid = u16_bytes(access_flags) + u16_bytes(this_class) + u16_bytes(super_class)
            + u16_bytes(interfaces_count) + emit_u16s(interfaces@);
        assert(r.bytes@.subrange(p as int, r.pos as int) =~= mid) by {
            lemma_split(r.bytes@, p as int, p + 2, r.pos as int);
            lemma_split(r.bytes@, p + 2, p + 4, r.pos as int);
            lemma_split(r.bytes@, p + 4, p + 6, r.pos as int);
            lemma_split(r.bytes@, p + 6, p + 8, r.pos as int);
        }
        proof { lemma_split(r.bytes@, 0, p as int, r.pos as int); }
        let p = r.pos;
        let fields_count = read_u2_at(&mut r)?;
        proof { lemma_members_fault(r.bytes@, r.pos as int, fields_count as int); }
        let fields = read_fields(&mut r, fields_count)?;
        proof { lemma_split(r.bytes@, p as int, p + 2, r.pos as int); }
        proof { lemma_split(r.bytes@, 0, p as int, r.pos as int); }
        let p = r.pos;
        let methods_count = read_u2_at(&mut r)?;
        proof { lemma_members_fault(r.bytes@, r.pos as int, methods_count as int); }
        let methods = read_methods(&mut r, methods_count)?;
        proof { lemma_split(r.bytes@, p as int, p + 2, r.pos as int); }
        proof { lemma_split(r.bytes@, 0, p as int, r.pos as int); }
        let p = r.pos;
        proof {
            if r.pos + 2 <= r.bytes@.len() {
                lemma_attributes_fault(r.bytes@, r.pos + 2, u16_at(r.bytes@, r.pos as int) as int);
            }
        }
        let attributes = read_attribute_table(&mut r)?;
        proof { lemma_split(r.bytes@, 0, p as int, r.pos as int); }
        let cf = ClassFile {
            magic,
            minor_version,
            major_version,
            constant_pool_count,
            constant_pool,
            access_flags,
            this_class,
            super_class,
            interfaces,
            fields,
            methods,
            attributes,
        };
        assert(r.bytes@.subrange(0, r.pos as int) =~= emit_class_file(cf));
        Ok(cf)
    }
}

} // verus!
