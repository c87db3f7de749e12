use vstd::prelude::*;
use crate::class::{Class, class_links, class_linked, class_error};
use crate::class_file::{ClassFile, decodes_to, decode_error};
use crate::error::VmError;

verus! {

/// Turns class-file bytes into linked classes. The class path tells the host
/// where to look for the bytes of a class.
pub struct ClassLoader {
    pub class_path: String,
}

impl ClassLoader {
    pub fn new(class_path: &str) -> (r: ClassLoader)
        ensures
            r.class_path@ == class_path@,
    {
        ClassLoader { class_path: class_path.to_owned() }
    }

    /// Decodes and links one class file: the error of decoding, else the
    /// error of linking, else the linked class.
    pub fn define_class(&self, bytes: &[u8]) -> (r: Result<Class, VmError>)
        ensures
            decode_error(bytes@) is Some ==> r == Err::<Class, VmError>(decode_error(bytes@)->0),
            decode_error(bytes@) is None ==> exists|cf: ClassFile| {
                &&& #[trigger] decodes_to(bytes@, cf)
                &&& r is Ok <==> class_links(cf)
                &&& r is Ok ==> class_linked(cf, r->Ok_0)
                &&& r is Err ==> class_error(cf, r->Err_0)
            },
    {
        let class_file = ClassFile::from_bytes(bytes)?;
        let ghost cf = class_file;
        assert(decodes_to(bytes@, cf));
        Class::from(class_file)
    }
}

} // verus!
