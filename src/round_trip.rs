//! Encoding a well-formed class file and decoding the bytes succeeds, and
//! consumes exactly the encoding.
use vstd::prelude::*;
use crate::class_file::{
    AttributeInfo, FieldInfo, MethodInfo, ConstantInfo, attribute_end, attributes_end,
    attribute_table_end, attributes_wf, emit_attribute, emit_attributes, emit_attribute_table,
    emit_member, member_end, members_end, emit_fields, emit_methods, emit_constant, constant_end,
    constant_wf, is_wide, emit_constants, pool_layout, pool_end, wide_ok_at, filler_ok_at,
    ClassFile, class_file_wf, emit_class_file, class_end, emit_u16s, MAGIC,
};
use crate::reader::{starts_with, u16_bytes, u32_bytes, u16_at, u32_at, lemma_u16_read_back, lemma_u32_read_back};

verus! {

/// `e1 + e2` at `p` holds `e1` at `p` and `e2` right after it.
pub proof fn lemma_starts_with_concat(s: Seq<u8>, p: int, e1: Seq<u8>, e2: Seq<u8>)
    requires
        starts_with(s, p, e1 + e2),
    ensures
        starts_with(s, p, e1),
        starts_with(s, p + e1.len(), e2),
{
    let t = s.subrange(p, p + (e1 + e2).len());
    assert(t == e1 + e2);
    assert(s.subrange(p, p + e1.len()) =~= t.subrange(0, e1.len() as int));
    assert(t.subrange(0, e1.len() as int) =~= e1);
    assert(s.subrange(p + e1.len(), p + e1.len() + e2.len()) =~= t.subrange(e1.len() as int, t.len() as int));
    assert(t.subrange(e1.len() as int, t.len() as int) =~= e2);
}

/// The attribute encoded at `p` ends where its encoding ends.
pub proof fn lemma_attribute_end(s: Seq<u8>, p: int, a: AttributeInfo)
    requires
        a.info@.len() < 0x1_0000_0000,
        starts_with(s, p, emit_attribute(a)),
    ensures
        attribute_end(s, p) == Ok::<int, crate::error::VmError>(p + emit_attribute(a).len()),
{
    let e1 = u16_bytes(a.attribute_name_index);
    let e2 = u32_bytes(a.info@.len() as u32);
    lemma_starts_with_concat(s, p, e1 + e2, a.info@);
    lemma_starts_with_concat(s, p, e1, e2);
    lemma_u32_read_back(s, p + 2, a.info@.len() as u32);
}

/// Reading `n + 1` attributes is reading `n`, then one more.
pub proof fn lemma_attributes_end_snoc(s: Seq<u8>, p: int, n: int)
    requires
        n >= 0,
    ensures
        attributes_end(s, p, n + 1) == match attributes_end(s, p, n) {
            Ok(e) => attribute_end(s, e),
            Err(e) => Err(e),
        },
    decreases n,
{
    match attribute_end(s, p) {
        Ok(e) => {
            assert(attributes_end(s, p, n + 1) == attributes_end(s, e, n));
            if n > 0 {
                lemma_attributes_end_snoc(s, e, n - 1);
                assert(attributes_end(s, p, n) == attributes_end(s, e, n - 1));
            } else {
                assert(attributes_end(s, e, 0) == Ok::<int, crate::error::VmError>(e));
            }
        },
        Err(x) => {
            if n > 0 {
                assert(attributes_end(s, p, n) == Err::<int, crate::error::VmError>(x));
            }
        },
    }
}

/// Attributes encoded at `p` end where their encoding ends.
pub proof fn lemma_attributes_end(s: Seq<u8>, p: int, xs: Seq<AttributeInfo>)
    requires
        attributes_wf(xs),
        starts_with(s, p, emit_attributes(xs)),
    ensures
        attributes_end(s, p, xs.len() as int) == Ok::<int, crate::error::VmError>(p + emit_attributes(xs).len()),
    decreases xs.len(),
{
    if xs.len() > 0 {
        let init = xs.drop_last();
        assert(attributes_wf(init)) by {
            assert forall|i: int| 0 <= i < init.len() implies (#[trigger] init[i]).info@.len() < 0x1_0000_0000 by {
                assert(init[i] == xs[i]);
            }
        }
        lemma_starts_with_concat(s, p, emit_attributes(init), emit_attribute(xs.last()));
        lemma_attributes_end(s, p, init);
        lemma_attributes_end_snoc(s, p, init.len() as int);
        assert(xs.last() == xs[xs.len() - 1]);
        lemma_attribute_end(s, p + emit_attributes(init).len(), xs.last());
    }
}

/// An attribute table encoded at `p` ends where its encoding ends.
pub proof fn lemma_attribute_table_end(s: Seq<u8>, p: int, xs: Seq<AttributeInfo>)
    requires
        attributes_wf(xs),
        starts_with(s, p, emit_attribute_table(xs)),
    ensures
        attribute_table_end(s, p) == Ok::<int, crate::error::VmError>(p + emit_attribute_table(xs).len()),
{
    lemma_starts_with_concat(s, p, u16_bytes(xs.len() as u16), emit_attributes(xs));
    lemma_u16_read_back(s, p, xs.len() as u16);
    lemma_attributes_end(s, p + 2, xs);
}

/// A field or method record encoded at `p` ends where its encoding ends.
pub proof fn lemma_member_end(s: Seq<u8>, p: int, flags: u16, name: u16, descriptor: u16, attrs: Seq<AttributeInfo>)
    requires
        attributes_wf(attrs),
        starts_with(s, p, emit_member(flags, name, descriptor, attrs)),
    ensures
        member_end(s, p) == Ok::<int, crate::error::VmError>(p + emit_member(flags, name, descriptor, attrs).len()),
{
    let head = u16_bytes(flags) + u16_bytes(name) + u16_bytes(descriptor);
    assert(emit_member(flags, name, descriptor, attrs) == head + emit_attribute_table(attrs));
    lemma_starts_with_concat(s, p, head, emit_attribute_table(attrs));
    lemma_attribute_table_end(s, p + 6, attrs);
}

/// Reading `n + 1` records is reading `n`, then one more.
pub proof fn lemma_members_end_snoc(s: Seq<u8>, p: int, n: int)
    requires
        n >= 0,
    ensures
        members_end(s, p, n + 1) == match members_end(s, p, n) {
            Ok(e) => member_end(s, e),
            Err(e) => Err(e),
        },
    decreases n,
{
    match member_end(s, p) {
        Ok(e) => {
            assert(members_end(s, p, n + 1) == members_end(s, e, n));
            if n > 0 {
                lemma_members_end_snoc(s, e, n - 1);
                assert(members_end(s, p, n) == members_end(s, e, n - 1));
            } else {
                assert(members_end(s, e, 0) == Ok::<int, crate::error::VmError>(e));
            }
        },
        Err(x) => {
            if n > 0 {
                assert(members_end(s, p, n) == Err::<int, crate::error::VmError>(x));
            }
        },
    }
}

/// Field records encoded at `p` end where their encoding ends.
pub proof fn lemma_fields_end(s: Seq<u8>, p: int, xs: Seq<FieldInfo>)
    requires
        forall|i: int| 0 <= i < xs.len() ==> attributes_wf((#[trigger] xs[i]).attributes@),
        starts_with(s, p, emit_fields(xs)),
    ensures
        members_end(s, p, xs.len() as int) == Ok::<int, crate::error::VmError>(p + emit_fields(xs).len()),
    decreases xs.len(),
{
    if xs.len() > 0 {
        let init = xs.drop_last();
        let f = xs.last();
        assert(f == xs[xs.len() - 1]);
        assert forall|i: int| 0 <= i < init.len() implies attributes_wf((#[trigger] init[i]).attributes@) by {
            assert(init[i] == xs[i]);
        }
        let e = emit_member(f.access_flags, f.name_index, f.descriptor_index, f.attributes@);
        lemma_starts_with_concat(s, p, emit_fields(init), e);
        lemma_fields_end(s, p, init);
        lemma_members_end_snoc(s, p, init.len() as int);
        lemma_member_end(s, p + emit_fields(init).len(), f.access_flags, f.name_index, f.descriptor_index, f.attributes@);
    }
}

/// Method records encoded at `p` end where their encoding ends.
pub proof fn lemma_methods_end(s: Seq<u8>, p: int, xs: Seq<MethodInfo>)
    requires
        forall|i: int| 0 <= i < xs.len() ==> attributes_wf((#[trigger] xs[i]).attributes@),
        starts_with(s, p, emit_methods(xs)),
    ensures
        members_end(s, p, xs.len() as int) == Ok::<int, crate::error::VmError>(p + emit_methods(xs).len()),
    decreases xs.len(),
{
    if xs.len() > 0 {
        let init = xs.drop_last();
        let m = xs.last();
        assert(m == xs[xs.len() - 1]);
        assert forall|i: int| 0 <= i < init.len() implies attributes_wf((#[trigger] init[i]).attributes@) by {
            assert(init[i] == xs[i]);
        }
        let e = emit_member(m.access_flags, m.name_index, m.descriptor_index, m.attributes@);
        lemma_starts_with_concat(s, p, emit_methods(init), e);
        lemma_methods_end(s, p, init);
        lemma_members_end_snoc(s, p, init.len() as int);
        lemma_member_end(s, p + emit_methods(init).len(), m.access_flags, m.name_index, m.descriptor_index, m.attributes@);
    }
}

/// A constant encoded at `p` ends where its encoding ends, and is wide
/// exactly when it is a `Long` or a `Double`.
pub proof fn lemma_constant_end(s: Seq<u8>, p: int, c: ConstantInfo)
    requires
        constant_wf(c),
        !(c is Unusable),
        starts_with(s, p, emit_constant(c)),
    ensures
        constant_end(s, p) == Ok::<(int, bool), crate::error::VmError>((p + emit_constant(c).len(), is_wide(c))),
{
    let e = emit_constant(c);
    assert(s[p] == s.subrange(p, p + e.len())[0]);
    assert(e[0] == s[p]);
    match c {
        ConstantInfo::Utf8(i) => {
            let len = i.value@.len() as u16;
            lemma_starts_with_concat(s, p, seq![1u8] + u16_bytes(len), i.value@);
            lemma_starts_with_concat(s, p, seq![1u8], u16_bytes(len));
            lemma_u16_read_back(s, p + 1, len);
        },
        _ => {},
    }
}

/// The constants of `a + b` encode as those of `a`, then those of `b`.
pub proof fn lemma_emit_constants_append(a: Seq<ConstantInfo>, b: Seq<ConstantInfo>)
    ensures
        emit_constants(a + b) == emit_constants(a) + emit_constants(b),
    decreases b.len(),
{
    if b.len() == 0 {
        assert(a + b =~= a);
        assert(emit_constants(a) + emit_constants(b) =~= emit_constants(a));
    } else {
        lemma_emit_constants_append(a, b.drop_last());
        assert((a + b).drop_last() =~= a + b.drop_last());
        assert((a + b).last() == b.last());
        assert(emit_constants(a + b) =~= emit_constants(a) + emit_constants(b));
    }
}

/// From slot `j`, which starts a constant, the rest of the pool ends where
/// its encoding ends.
proof fn lemma_pool_end_from(s: Seq<u8>, p: int, cs: Seq<ConstantInfo>, count: u16, j: int)
    requires
        pool_layout(cs, count),
        starts_with(s, p, emit_constants(cs)),
        0 <= j <= cs.len(),
        j == cs.len() || !(cs[j] is Unusable),
    ensures
        pool_end(s, p + emit_constants(cs.take(j)).len(), j + 1, count as int)
            == Ok::<int, crate::error::VmError>(p + emit_constants(cs).len()),
    decreases cs.len() - j,
{
    let pos = p + emit_constants(cs.take(j)).len();
    if j + 1 >= count {
        if j < cs.len() {
            assert(cs.len() == count && is_wide(cs[count - 2]));
            assert(wide_ok_at(cs, count - 2));
        }
        assert(cs.take(j) =~= cs);
    } else {
        assert(j < cs.len());
        let c = cs[j];
        lemma_emit_constants_append(cs.take(j + 1), cs.skip(j + 1));
        assert(cs.take(j + 1) + cs.skip(j + 1) =~= cs);
        assert(cs.take(j + 1).drop_last() =~= cs.take(j));
        assert(cs.take(j + 1).last() == c);
        let e = emit_constant(c);
        assert(emit_constants(cs.take(j + 1)) == emit_constants(cs.take(j)) + e);
        lemma_starts_with_concat(s, p, emit_constants(cs.take(j + 1)), emit_constants(cs.skip(j + 1)));
        lemma_starts_with_concat(s, p, emit_constants(cs.take(j)), e);
        assert(constant_wf(c));
        lemma_constant_end(s, pos, c);
        if is_wide(c) {
            assert(wide_ok_at(cs, j));
            assert(cs.take(j + 2).drop_last() =~= cs.take(j + 1));
            assert(emit_constants(cs.take(j + 2)) == emit_constants(cs.take(j + 1)));
            if j + 2 < cs.len() {
                assert(filler_ok_at(cs, j + 2));
            }
            lemma_pool_end_from(s, p, cs, count, j + 2);
        } else {
            if j + 1 < cs.len() {
                assert(filler_ok_at(cs, j + 1));
            }
            lemma_pool_end_from(s, p, cs, count, j + 1);
        }
    }
}

/// A constant pool encoded at `p` for `count` ends where its encoding ends.
pub proof fn lemma_pool_end(s: Seq<u8>, p: int, cs: Seq<ConstantInfo>, count: u16)
    requires
        pool_layout(cs, count),
        starts_with(s, p, emit_constants(cs)),
    ensures
        pool_end(s, p, 1, count as int) == Ok::<int, crate::error::VmError>(p + emit_constants(cs).len()),
{
    if cs.len() > 0 {
        assert(filler_ok_at(cs, 0));
    }
    assert(cs.take(0) =~= Seq::<ConstantInfo>::empty());
    lemma_pool_end_from(s, p, cs, count, 0);
}

/// Interface indices take two bytes each.
pub proof fn lemma_emit_u16s_len(xs: Seq<u16>)
    ensures
        emit_u16s(xs).len() == 2 * xs.len(),
    decreases xs.len(),
{
    if xs.len() > 0 {
        lemma_emit_u16s_len(xs.drop_last());
    }
}

/// The header fields of an encoded class file stand at their offsets in `s`.
proof fn lemma_class_header_parts(cf: ClassFile, s: Seq<u8>)
    requires
        starts_with(s, 0, emit_class_file(cf)),
    ensures
        u32_at(s, 0) == cf.magic,
        u16_at(s, 4) == cf.minor_version,
        u16_at(s, 6) == cf.major_version,
        u16_at(s, 8) == cf.constant_pool_count,
        starts_with(s, 10, emit_constants(cf.constant_pool@)),
        u16_at(s, 10 + emit_constants(cf.constant_pool@).len() as int) == cf.access_flags,
        u16_at(s, 12 + emit_constants(cf.constant_pool@).len() as int) == cf.this_class,
        u16_at(s, 14 + emit_constants(cf.constant_pool@).len() as int) == cf.super_class,
{
    let p1 = u32_bytes(cf.magic);
    let p2 = p1 + u16_bytes(cf.minor_version);
    let p3 = p2 + u16_bytes(cf.major_version);
    let p4 = p3 + u16_bytes(cf.constant_pool_count);
    let p5 = p4 + emit_constants(cf.constant_pool@);
    let p6 = p5 + u16_bytes(cf.access_flags);
    let p7 = p6 + u16_bytes(cf.this_class);
    let p8 = p7 + u16_bytes(cf.super_class);
    let rest = u16_bytes(cf.interfaces@.len() as u16) + emit_u16s(cf.interfaces@)
        + u16_bytes(cf.fields@.len() as u16) + emit_fields(cf.fields@)
        + u16_bytes(cf.methods@.len() as u16) + emit_methods(cf.methods@)
        + emit_attribute_table(cf.attributes@);
    assert(emit_class_file(cf) =~= p8 + rest);
    lemma_starts_with_concat(s, 0, p8, rest);
    lemma_starts_with_concat(s, 0, p7, u16_bytes(cf.super_class));
    lemma_starts_with_concat(s, 0, p6, u16_bytes(cf.this_class));
    lemma_starts_with_concat(s, 0, p5, u16_bytes(cf.access_flags));
    lemma_starts_with_concat(s, 0, p4, emit_constants(cf.constant_pool@));
    lemma_starts_with_concat(s, 0, p3, u16_bytes(cf.constant_pool_count));
    lemma_starts_with_concat(s, 0, p2, u16_bytes(cf.major_version));
    lemma_starts_with_concat(s, 0, p1, u16_bytes(cf.minor_version));
    lemma_u32_read_back(s, 0, cf.magic);
    lemma_u16_read_back(s, 4, cf.minor_version);
    lemma_u16_read_back(s, 6, cf.major_version);
    lemma_u16_read_back(s, 8, cf.constant_pool_count);
    lemma_u16_read_back(s, p5.len() as int, cf.access_flags);
    lemma_u16_read_back(s, p6.len() as int, cf.this_class);
    lemma_u16_read_back(s, p7.len() as int, cf.super_class);
}

/// Where each part of an encoded class file stands in `s`.
proof fn lemma_class_parts(cf: ClassFile, s: Seq<u8>)
    requires
        starts_with(s, 0, emit_class_file(cf)),
    ensures
        u32_at(s, 0) == cf.magic,
        u16_at(s, 8) == cf.constant_pool_count,
        starts_with(s, 10, emit_constants(cf.constant_pool@)),
        ({
            let a: int = 10 + emit_constants(cf.constant_pool@).len() as int;
            let q: int = a + 8 + emit_u16s(cf.interfaces@).len();
            let f: int = q + 2 + emit_fields(cf.fields@).len();
            let m: int = f + 2 + emit_methods(cf.methods@).len();
            &&& u16_at(s, a + 6) == cf.interfaces@.len() as u16
            &&& starts_with(s, a + 8, emit_u16s(cf.interfaces@))
            &&& u16_at(s, q) == cf.fields@.len() as u16
            &&& starts_with(s, q + 2, emit_fields(cf.fields@))
            &&& u16_at(s, f) == cf.methods@.len() as u16
            &&& starts_with(s, f + 2, emit_methods(cf.methods@))
            &&& starts_with(s, m, emit_attribute_table(cf.attributes@))
            &&& m + emit_attribute_table(cf.attributes@).len() == emit_class_file(cf).len()
        }),
{
    let p1 = u32_bytes(cf.magic);
    let p2 = p1 + u16_bytes(cf.minor_version);
    let p3 = p2 + u16_bytes(cf.major_version);
    let p4 = p3 + u16_bytes(cf.constant_pool_count);
    let p5 = p4 + emit_constants(cf.constant_pool@);
    let p6 = p5 + u16_bytes(cf.access_flags);
    let p7 = p6 + u16_bytes(cf.this_class);
    let p8 = p7 + u16_bytes(cf.super_class);
    let p9 = p8 + u16_bytes(cf.interfaces@.len() as u16);
    let p10 = p9 + emit_u16s(cf.interfaces@);
    let p11 = p10 + u16_bytes(cf.fields@.len() as u16);
    let p12 = p11 + emit_fields(cf.fields@);
    let p13 = p12 + u16_bytes(cf.methods@.len() as u16);
    let p14 = p13 + emit_methods(cf.methods@);
    assert(p14 + emit_attribute_table(cf.attributes@) == emit_class_file(cf));
    lemma_starts_with_concat(s, 0, p14, emit_attribute_table(cf.attributes@));
    lemma_starts_with_concat(s, 0, p13, emit_methods(cf.methods@));
    lemma_starts_with_concat(s, 0, p12, u16_bytes(cf.methods@.len() as u16));
    lemma_starts_with_concat(s, 0, p11, emit_fields(cf.fields@));
    lemma_starts_with_concat(s, 0, p10, u16_bytes(cf.fields@.len() as u16));
    lemma_starts_with_concat(s, 0, p9, emit_u16s(cf.interfaces@));
    lemma_starts_with_concat(s, 0, p8, u16_bytes(cf.interfaces@.len() as u16));
    lemma_starts_with_concat(s, 0, p7, u16_bytes(cf.super_class));
    lemma_starts_with_concat(s, 0, p6, u16_bytes(cf.this_class));
    lemma_starts_with_concat(s, 0, p5, u16_bytes(cf.access_flags));
    lemma_starts_with_concat(s, 0, p4, emit_constants(cf.constant_pool@));
    lemma_starts_with_concat(s, 0, p3, u16_bytes(cf.constant_pool_count));
    lemma_starts_with_concat(s, 0, p2, u16_bytes(cf.major_version));
    lemma_starts_with_concat(s, 0, p1, u16_bytes(cf.minor_version));
    lemma_u32_read_back(s, 0, cf.magic);
    lemma_u16_read_back(s, 8, cf.constant_pool_count);
    lemma_u16_read_back(s, p8.len() as int, cf.interfaces@.len() as u16);
    lemma_u16_read_back(s, p10.len() as int, cf.fields@.len() as u16);
    lemma_u16_read_back(s, p12.len() as int, cf.methods@.len() as u16);
}

/// The encoding of a well-formed class file, followed by any bytes, starts
/// with the magic number and holds a complete class file that ends where the
/// encoding ends: decoding it succeeds and consumes exactly the encoding.
#[verifier::rlimit(40)]
pub proof fn lemma_round_trip(cf: ClassFile, extra: Seq<u8>)
    requires
        class_file_wf(cf),
    ensures
        ({
            let s = emit_class_file(cf) + extra;
            &&& s.len() >= 4
            &&& u32_at(s, 0) == MAGIC
            &&& class_end(s) == Ok::<int, crate::error::VmError>(emit_class_file(cf).len() as int)
        }),
{
    let s = emit_class_file(cf) + extra;
    assert(s.subrange(0, emit_class_file(cf).len() as int) =~= emit_class_file(cf));
    lemma_class_parts(cf, s);
    lemma_pool_end(s, 10, cf.constant_pool@, cf.constant_pool_count);
    lemma_emit_u16s_len(cf.interfaces@);
    let a: int = 10 + emit_constants(cf.constant_pool@).len() as int;
    let q: int = a + 8 + emit_u16s(cf.interfaces@).len();
    let f: int = q + 2 + emit_fields(cf.fields@).len();
    let m: int = f + 2 + emit_methods(cf.methods@).len();
    lemma_fields_end(s, q + 2, cf.fields@);
    lemma_methods_end(s, f + 2, cf.methods@);
    lemma_attribute_table_end(s, m, cf.attributes@);
}

/// The header fields that decoding reads back from the encoding of a
/// well-formed class file, followed by any bytes, are those of `cf`.
pub proof fn lemma_round_trip_header(cf: ClassFile, extra: Seq<u8>)
    requires
        class_file_wf(cf),
    ensures
        ({
            let s = emit_class_file(cf) + extra;
            &&& u32_at(s, 0) == cf.magic
            &&& u16_at(s, 4) == cf.minor_version
            &&& u16_at(s, 6) == cf.major_version
            &&& u16_at(s, 8) == cf.constant_pool_count
            &&& pool_end(s, 10, 1, u16_at(s, 8) as int) is Ok
            &&& ({
                let p = pool_end(s, 10, 1, u16_at(s, 8) as int)->Ok_0;
                &&& u16_at(s, p) == cf.access_flags
                &&& u16_at(s, p + 2) == cf.this_class
                &&& u16_at(s, p + 4) == cf.super_class
            })
        }),
{
    let s = emit_class_file(cf) + extra;
    assert(s.subrange(0, emit_class_file(cf).len() as int) =~= emit_class_file(cf));
    lemma_class_header_parts(cf, s);
    lemma_pool_end(s, 10, cf.constant_pool@, cf.constant_pool_count);
}

} // verus!
