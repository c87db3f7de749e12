use vstd::prelude::*;
use crate::error::VmError;

verus! {

/// Parameter tokens that the interpreter can pass: `I`, `J`, `F`, `D`.
pub open spec fn is_supported_param(b: u8) -> bool {
    b == 73u8 || b == 74u8 || b == 70u8 || b == 68u8
}

/// Tokens the grammar knows but the interpreter cannot pass: the other
/// primitives `B C S Z`, a class `L...;`, an array prefix `[`.
pub open spec fn is_unsupported_param(b: u8) -> bool {
    b == 66u8 || b == 67u8 || b == 83u8 || b == 90u8 || b == 76u8 || b == 91u8
}

/// The parameter tokens of `d` from `pos` up to the closing `)`.
pub open spec fn scan_params(d: Seq<u8>, pos: int) -> Result<Seq<u8>, VmError>
    decreases d.len() - pos,
{
    if pos < 0 || pos >= d.len() {
        Err(VmError::DescriptorParse)
    } else if d[pos] == 41u8 {
        Ok(seq![])
    } else if is_supported_param(d[pos]) {
        match scan_params(d, pos + 1) {
            Ok(rest) => Ok(seq![d[pos]] + rest),
            Err(e) => Err(e),
        }
    } else if is_unsupported_param(d[pos]) {
        Err(VmError::UnsupportedDescriptor)
    } else {
        Err(VmError::DescriptorParse)
    }
}

/// The parameter tokens of a method descriptor `(params)ret`, left to right.
pub open spec fn descriptor_params(d: Seq<u8>) -> Result<Seq<u8>, VmError> {
    if d.len() == 0 || d[0] != 40u8 {
        Err(VmError::DescriptorParse)
    } else {
        scan_params(d, 1)
    }
}

/// The parameter tokens of `descriptor`, one per argument that a call pops.
pub fn parse_params(descriptor: &[u8]) -> (r: Result<Vec<u8>, VmError>)
    ensures
        r is Ok <==> descriptor_params(descriptor@) is Ok,
        r is Ok ==> r->Ok_0@ == descriptor_params(descriptor@)->Ok_0,
        r is Err ==> r->Err_0 == descriptor_params(descriptor@)->Err_0,
        r is Err ==> r->Err_0 is DescriptorParse || r->Err_0 is UnsupportedDescriptor,
{
    if descriptor.len() == 0 || descriptor[0] != 40u8 {
        return Err(VmError::DescriptorParse);
    }
    let mut out: Vec<u8> = Vec::new();
    let mut pos: usize = 1;
    while pos < descriptor.len()
        invariant
            1 <= pos <= descriptor@.len(),
            descriptor@.len() > 0 && descriptor@[0] == 40u8,
            descriptor_params(descriptor@) == (match scan_params(descriptor@, pos as int) {
                Ok(rest) => Ok(out@ + rest),
                Err(e) => Err::<Seq<u8>, VmError>(e),
            }),
        decreases descriptor@.len() - pos,
    {
        let b = descriptor[pos];
        if b == 41u8 {
            assert(out@ + seq![] =~= out@);
            return Ok(out);
        } else if b == 73u8 || b == 74u8 || b == 70u8 || b == 68u8 {
            let ghost before = out@;
            out.push(b);
            proof {
                match scan_params(descriptor@, pos + 1) {
                    Ok(rest) => {
                        assert(before + (seq![b] + rest) =~= out@ + rest);
                    },
                    Err(_) => {},
                }
            }
            pos = pos + 1;
        } else if b == 66u8 || b == 67u8 || b == 83u8 || b == 90u8 || b == 76u8 || b == 91u8 {
            return Err(VmError::UnsupportedDescriptor);
        } else {
            return Err(VmError::DescriptorParse);
        }
    }
    Err(VmError::DescriptorParse)
}

} // verus!
