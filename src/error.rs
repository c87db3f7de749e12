use vstd::prelude::*;

verus! {

/// Every way in which decoding, linking or interpreting can fail.
#[derive(Debug, PartialEq, Eq)]
pub enum VmError {
    /// The first four bytes of a class file are not `0xCAFEBABE`.
    BadMagic,
    /// The input ends inside a field or record; the offset is where the
    /// field or record that does not fit begins.
    TruncatedInput(u64),
    /// A constant-pool entry carries a tag outside the supported set.
    UnsupportedConstant(u8),
    /// A Utf8 constant holds bytes that are not valid UTF-8.
    BadUtf8,
    /// A method that has a body has no `Code` attribute.
    MissingCode,
    /// A method has more than one `Code` attribute.
    AmbiguousCode,
    /// A constant-pool index is out of range or names the wrong kind of entry.
    WrongConstantKind,
    /// No class of this internal name is registered.
    ClassNotFound(Vec<u8>),
    /// No native function is registered under this key.
    NativeNotFound(Vec<u8>),
    /// The opcode is not part of the supported instruction set.
    UnsupportedOpcode(u8),
    /// The class has no method with the requested `name:descriptor` key.
    NoSuchMethod,
    /// A pop found the operand stack empty.
    StackUnderflow,
    /// A method descriptor is not of the form `(params)ret`.
    DescriptorParse,
    /// A descriptor names a parameter type other than `I`, `J`, `F`, `D`.
    UnsupportedDescriptor,
    /// A value's tag disagrees with what the opcode expects.
    TypeMismatch,
    /// The program counter or a local-variable index left its range.
    OutOfRange,
    /// An integer division or remainder by zero.
    DivisionByZero,
}

/// The error for input that ends inside what starts at offset `p`.
pub open spec fn truncated(p: int) -> VmError {
    VmError::TruncatedInput(p as u64)
}

} // verus!
