use smerdvm::class_file::{ClassFile, ConstantInfo};
use smerdvm::class_loader::ClassLoader;
use smerdvm::descriptor::parse_params;
use smerdvm::error::VmError;
use smerdvm::method::CodeAttribute;
use smerdvm::registry::Registry;
use smerdvm::thread::{Step, Thread};
use smerdvm::value::Type;
use smerdvm::vm::{to_dotted, VirtualMachine};

const ACC_PUBLIC_STATIC: u16 = 0x0009;
const ACC_NATIVE: u16 = 0x0100;

/// Builds class-file bytes by hand.
struct ClassBuilder {
    pool: Vec<u8>,
    count: u16,
    this_class: u16,
    super_class: u16,
    methods: Vec<u8>,
    method_count: u16,
    code_name: u16,
}

impl ClassBuilder {
    fn new(name: &str, super_name: &str) -> ClassBuilder {
        let mut b = ClassBuilder {
            pool: vec![],
            count: 1,
            this_class: 0,
            super_class: 0,
            methods: vec![],
            method_count: 0,
            code_name: 0,
        };
        b.this_class = b.class(name);
        b.super_class = b.class(super_name);
        b.code_name = b.utf8("Code");
        b
    }

    fn push_entry(&mut self, bytes: &[u8], slots: u16) -> u16 {
        let index = self.count;
        self.pool.extend_from_slice(bytes);
        self.count += slots;
        index
    }

    fn utf8(&mut self, s: &str) -> u16 {
        let mut e = vec![1u8];
        e.extend_from_slice(&(s.len() as u16).to_be_bytes());
        e.extend_from_slice(s.as_bytes());
        self.push_entry(&e, 1)
    }

    fn class(&mut self, name: &str) -> u16 {
        let n = self.utf8(name);
        let mut e = vec![7u8];
        e.extend_from_slice(&n.to_be_bytes());
        self.push_entry(&e, 1)
    }

    fn integer(&mut self, v: i32) -> u16 {
        let mut e = vec![3u8];
        e.extend_from_slice(&v.to_be_bytes());
        self.push_entry(&e, 1)
    }

    fn long(&mut self, v: i64) -> u16 {
        let mut e = vec![5u8];
        e.extend_from_slice(&v.to_be_bytes());
        self.push_entry(&e, 2)
    }

    fn method_ref(&mut self, class: &str, name: &str, descriptor: &str) -> u16 {
        let c = self.class(class);
        let n = self.utf8(name);
        let d = self.utf8(descriptor);
        let mut nt = vec![12u8];
        nt.extend_from_slice(&n.to_be_bytes());
        nt.extend_from_slice(&d.to_be_bytes());
        let nt_index = self.push_entry(&nt, 1);
        let mut e = vec![10u8];
        e.extend_from_slice(&c.to_be_bytes());
        e.extend_from_slice(&nt_index.to_be_bytes());
        self.push_entry(&e, 1)
    }

    fn code_attribute(&self, max_stack: u16, max_locals: u16, code: &[u8]) -> Vec<u8> {
        let mut info = vec![];
        info.extend_from_slice(&max_stack.to_be_bytes());
        info.extend_from_slice(&max_locals.to_be_bytes());
        info.extend_from_slice(&(code.len() as u32).to_be_bytes());
        info.extend_from_slice(code);
        info.extend_from_slice(&0u16.to_be_bytes());
        info.extend_from_slice(&0u16.to_be_bytes());
        let mut a = vec![];
        a.extend_from_slice(&self.code_name.to_be_bytes());
        a.extend_from_slice(&(info.len() as u32).to_be_bytes());
        a.extend_from_slice(&info);
        a
    }

    fn raw_method(&mut self, flags: u16, name: &str, descriptor: &str, attributes: &[Vec<u8>]) {
        let n = self.utf8(name);
        let d = self.utf8(descriptor);
        self.methods.extend_from_slice(&flags.to_be_bytes());
        self.methods.extend_from_slice(&n.to_be_bytes());
        self.methods.extend_from_slice(&d.to_be_bytes());
        self.methods.extend_from_slice(&(attributes.len() as u16).to_be_bytes());
        for a in attributes {
            self.methods.extend_from_slice(a);
        }
        self.method_count += 1;
    }

    fn method(&mut self, name: &str, descriptor: &str, max_stack: u16, max_locals: u16, code: &[u8]) {
        let a = self.code_attribute(max_stack, max_locals, code);
        self.raw_method(ACC_PUBLIC_STATIC, name, descriptor, &[a]);
    }

    fn native_method(&mut self, name: &str, descriptor: &str) {
        self.raw_method(ACC_PUBLIC_STATIC | ACC_NATIVE, name, descriptor, &[]);
    }

    fn finish(&self) -> Vec<u8> {
        let mut out = vec![];
        out.extend_from_slice(&0xCAFEBABEu32.to_be_bytes());
        out.extend_from_slice(&0u16.to_be_bytes());
        out.extend_from_slice(&52u16.to_be_bytes());
        out.extend_from_slice(&self.count.to_be_bytes());
        out.extend_from_slice(&self.pool);
        out.extend_from_slice(&0x0021u16.to_be_bytes());
        out.extend_from_slice(&self.this_class.to_be_bytes());
        out.extend_from_slice(&self.super_class.to_be_bytes());
        out.extend_from_slice(&0u16.to_be_bytes());
        out.extend_from_slice(&0u16.to_be_bytes());
        out.extend_from_slice(&self.method_count.to_be_bytes());
        out.extend_from_slice(&self.methods);
        out.extend_from_slice(&0u16.to_be_bytes());
        out
    }
}

fn registry_of(classes: &[Vec<u8>]) -> Registry {
    let loader = ClassLoader::new("classes");
    let mut reg = Registry::new();
    for bytes in classes {
        let class = loader.define_class(bytes).expect("class links");
        reg.add_class(class).expect("class registers");
    }
    reg
}

/// Runs a thread, answering native calls with `Void` and recording them.
fn run_to_end(thread: &mut Thread, reg: &Registry, natives: &mut Vec<(Vec<u8>, Vec<Type>)>) -> Result<Type, VmError> {
    loop {
        match thread.run(reg, 10_000)? {
            Step::Done(v) => return Ok(v),
            Step::Native { key, args } => {
                natives.push((key, args));
                thread.push_result(Type::Void);
            }
            Step::Continue => panic!("program did not finish"),
            other => panic!("unexpected host request {:?}", other),
        }
    }
}

fn single_method(descriptor: &str, max_locals: u16, code: &[u8]) -> (Registry, Thread) {
    let mut b = ClassBuilder::new("T", "java/lang/Object");
    b.method("m", descriptor, 8, max_locals, code);
    let reg = registry_of(&[b.finish()]);
    let key = format!("m:{}", descriptor);
    let thread = Thread::new(b"T", key.as_bytes(), &reg).expect("thread starts");
    (reg, thread)
}

fn result_of(descriptor: &str, max_locals: u16, code: &[u8]) -> Result<Type, VmError> {
    let (reg, mut thread) = single_method(descriptor, max_locals, code);
    run_to_end(&mut thread, &reg, &mut vec![])
}

/// Steps until the next opcode is `RETURN`, then gives the outermost locals.
fn locals_before_return(reg: &Registry, thread: &mut Thread) -> Vec<Type> {
    for _ in 0..1000 {
        let f = thread.frame_stack.last().unwrap();
        let code = &reg.classes[f.class_index].methods[f.method_index].code;
        if thread.frame_stack.len() == 1 && code[thread.pc] == 0xb1 {
            return thread.frame_stack[0].locals.clone();
        }
        match thread.step(reg).expect("step succeeds") {
            Step::Continue => {}
            other => panic!("unexpected step {:?}", other),
        }
    }
    panic!("no return reached")
}

#[test]
fn empty_program() {
    assert_eq!(result_of("()V", 0, &[0xb1]), Ok(Type::Void));
}

#[test]
fn integer_add() {
    let (reg, mut thread) = single_method("()V", 1, &[0x05, 0x06, 0x60, 0x3b, 0xb1]);
    let locals = locals_before_return(&reg, &mut thread);
    assert_eq!(locals[0], Type::Int(5));
    assert_eq!(run_to_end(&mut thread, &reg, &mut vec![]), Ok(Type::Void));
}

fn static_call_classes() -> Vec<u8> {
    let mut b = ClassBuilder::new("A", "java/lang/Object");
    let add = b.method_ref("A", "add", "(II)I");
    b.method("add", "(II)I", 2, 2, &[0x1a, 0x1b, 0x60, 0xac]);
    let [hi, lo] = add.to_be_bytes();
    b.method("main", "()V", 2, 1, &[0x07, 0x10, 0x07, 0xb8, hi, lo, 0x3b, 0xb1]);
    b.finish()
}

#[test]
fn static_call() {
    let reg = registry_of(&[static_call_classes()]);
    let mut thread = Thread::new(b"A", b"main:()V", &reg).unwrap();
    let locals = locals_before_return(&reg, &mut thread);
    assert_eq!(locals[0], Type::Int(11));
}

#[test]
fn static_call_frame_discipline() {
    let reg = registry_of(&[static_call_classes()]);
    let mut thread = Thread::new(b"A", b"main:()V", &reg).unwrap();
    thread.step(&reg).unwrap();
    thread.step(&reg).unwrap();
    assert_eq!(thread.frame_stack[0].operand_stack, vec![Type::Int(4), Type::Int(7)]);
    thread.step(&reg).unwrap();
    assert_eq!(thread.frame_stack.len(), 2);
    assert_eq!(thread.frame_stack[0].operand_stack.len(), 0);
    assert_eq!(thread.frame_stack[1].locals, vec![Type::Int(4), Type::Int(7)]);
    for _ in 0..4 {
        thread.step(&reg).unwrap();
    }
    assert_eq!(thread.frame_stack.len(), 1);
    assert_eq!(thread.frame_stack[0].operand_stack, vec![Type::Int(11)]);
    assert_eq!(thread.pc, 6);
}

#[test]
fn branch_taken() {
    let code = [0x03, 0x99, 0x00, 0x05, 0x04, 0xac, 0x05, 0xac];
    assert_eq!(result_of("()I", 0, &code), Ok(Type::Int(2)));
}

#[test]
fn branch_not_taken() {
    let code = [0x04, 0x99, 0x00, 0x05, 0x04, 0xac, 0x05, 0xac];
    assert_eq!(result_of("()I", 0, &code), Ok(Type::Int(1)));
}

#[test]
fn wrapping() {
    let mut b = ClassBuilder::new("T", "java/lang/Object");
    let max = b.integer(i32::MAX);
    let [hi, lo] = max.to_be_bytes();
    b.method("m", "()I", 2, 0, &[0x13, hi, lo, 0x04, 0x60, 0xac]);
    let reg = registry_of(&[b.finish()]);
    let mut thread = Thread::new(b"T", b"m:()I", &reg).unwrap();
    assert_eq!(run_to_end(&mut thread, &reg, &mut vec![]), Ok(Type::Int(i32::MIN)));
}

#[test]
fn native_bridge() {
    let mut ps = ClassBuilder::new("ru/khlevnov/PrintStream", "java/lang/Object");
    ps.native_method("print", "(I)V");
    let mut main = ClassBuilder::new("ru/khlevnov/Main", "java/lang/Object");
    let print = main.method_ref("ru/khlevnov/PrintStream", "print", "(I)V");
    let [hi, lo] = print.to_be_bytes();
    main.method("main", "()V", 1, 0, &[0x08, 0xb8, hi, lo, 0xb1]);
    let mut reg = registry_of(&[ps.finish(), main.finish()]);
    reg.add_native(b"ru/khlevnov/PrintStream.print:(I)V");
    let mut thread = Thread::new(b"ru/khlevnov/Main", b"main:()V", &reg).unwrap();
    match thread.run(&reg, 100).unwrap() {
        Step::Native { key, args } => {
            assert_eq!(key, b"ru/khlevnov/PrintStream.print:(I)V".to_vec());
            assert_eq!(args, vec![Type::Int(5)]);
        }
        other => panic!("expected a native call, got {:?}", other),
    }
    assert!(thread.frame_stack[0].operand_stack.is_empty());
    thread.push_result(Type::Void);
    assert!(thread.frame_stack[0].operand_stack.is_empty());
    assert!(matches!(thread.run(&reg, 100), Ok(Step::Done(Type::Void))));
}

#[test]
fn native_not_registered() {
    let mut ps = ClassBuilder::new("P", "java/lang/Object");
    ps.native_method("print", "(I)V");
    let mut main = ClassBuilder::new("M", "java/lang/Object");
    let print = main.method_ref("P", "print", "(I)V");
    let [hi, lo] = print.to_be_bytes();
    main.method("main", "()V", 1, 0, &[0x08, 0xb8, hi, lo, 0xb1]);
    let reg = registry_of(&[ps.finish(), main.finish()]);
    let mut thread = Thread::new(b"M", b"main:()V", &reg).unwrap();
    assert_eq!(thread.run(&reg, 100).err(), Some(VmError::NativeNotFound(b"P.print:(I)V".to_vec())));
}

#[test]
fn int_arithmetic_wraps() {
    // 0x10000 * 0x10000 wraps to 0; MIN - 1 wraps to MAX.
    let mut b = ClassBuilder::new("T", "java/lang/Object");
    let big = b.integer(0x10000);
    let min = b.integer(i32::MIN);
    b.method("mul", "()I", 2, 0, &[0x13, (big >> 8) as u8, big as u8, 0x13, (big >> 8) as u8, big as u8, 0x68, 0xac]);
    b.method("sub", "()I", 2, 0, &[0x13, (min >> 8) as u8, min as u8, 0x04, 0x64, 0xac]);
    let reg = registry_of(&[b.finish()]);
    let mut t = Thread::new(b"T", b"mul:()I", &reg).unwrap();
    assert_eq!(run_to_end(&mut t, &reg, &mut vec![]), Ok(Type::Int(0)));
    let mut t = Thread::new(b"T", b"sub:()I", &reg).unwrap();
    assert_eq!(run_to_end(&mut t, &reg, &mut vec![]), Ok(Type::Int(i32::MAX)));
}

#[test]
fn long_arithmetic_wraps() {
    let mut b = ClassBuilder::new("T", "java/lang/Object");
    let max = b.long(i64::MAX);
    let [hi, lo] = max.to_be_bytes();
    b.method("m", "()J", 2, 0, &[0x14, hi, lo, 0x0a, 0x61, 0xad]);
    let reg = registry_of(&[b.finish()]);
    let mut t = Thread::new(b"T", b"m:()J", &reg).unwrap();
    assert_eq!(run_to_end(&mut t, &reg, &mut vec![]), Ok(Type::Long(i64::MIN)));
}

#[test]
fn division_rounds_toward_zero() {
    // -7 / 2 == -3, -7 % 2 == -1, MIN / -1 == MIN
    assert_eq!(result_of("()I", 0, &[0x10, 0xf9, 0x05, 0x6c, 0xac]), Ok(Type::Int(-3)));
    assert_eq!(result_of("()I", 0, &[0x10, 0xf9, 0x05, 0x70, 0xac]), Ok(Type::Int(-1)));
    let mut b = ClassBuilder::new("T", "java/lang/Object");
    let min = b.integer(i32::MIN);
    let [hi, lo] = min.to_be_bytes();
    b.method("m", "()I", 2, 0, &[0x13, hi, lo, 0x02, 0x6c, 0xac]);
    let reg = registry_of(&[b.finish()]);
    let mut t = Thread::new(b"T", b"m:()I", &reg).unwrap();
    assert_eq!(run_to_end(&mut t, &reg, &mut vec![]), Ok(Type::Int(i32::MIN)));
}

#[test]
fn division_by_zero() {
    assert_eq!(result_of("()I", 0, &[0x04, 0x03, 0x6c, 0xac]), Err(VmError::DivisionByZero));
}

#[test]
fn bitwise_and_push_operands() {
    // SIPUSH -2 (0xfffe), BIPUSH 6, IAND -> 6; IOR with 1 -> 7
    assert_eq!(result_of("()I", 0, &[0x11, 0xff, 0xfe, 0x10, 0x06, 0x7e, 0x04, 0x80, 0xac]), Ok(Type::Int(7)));
}

#[test]
fn goto_zero_stays() {
    let (reg, mut thread) = single_method("()V", 0, &[0xa7, 0x00, 0x00]);
    for _ in 0..3 {
        assert!(matches!(thread.step(&reg), Ok(Step::Continue)));
        assert_eq!(thread.pc, 0);
    }
    assert!(matches!(thread.run(&reg, 50), Ok(Step::Continue)));
    assert_eq!(thread.pc, 0);
}

#[test]
fn goto_three_advances() {
    let (reg, mut thread) = single_method("()V", 0, &[0xa7, 0x00, 0x03, 0xb1]);
    assert!(matches!(thread.step(&reg), Ok(Step::Continue)));
    assert_eq!(thread.pc, 3);
    assert!(matches!(thread.step(&reg), Ok(Step::Done(Type::Void))));
}

#[test]
fn backward_branch_loop() {
    // i = 3; while (i != 0) i = i - 1; return i
    let code = [0x06, 0x3b, 0x1a, 0x99, 0x00, 0x0a, 0x1a, 0x04, 0x64, 0x3b, 0xa7, 0xff, 0xf8, 0x1a, 0xac];
    assert_eq!(result_of("()I", 1, &code), Ok(Type::Int(0)));
}

#[test]
fn descriptor_iij_order() {
    assert_eq!(parse_params(b"(IIJ)V"), Ok(vec![b'I', b'I', b'J']));
    let mut b = ClassBuilder::new("T", "java/lang/Object");
    let callee = b.method_ref("T", "f", "(IIJ)V");
    b.method("f", "(IIJ)V", 0, 3, &[0xb1]);
    let [hi, lo] = callee.to_be_bytes();
    b.method("main", "()V", 3, 0, &[0x04, 0x05, 0x09, 0xb8, hi, lo, 0xb1]);
    let reg = registry_of(&[b.finish()]);
    let mut t = Thread::new(b"T", b"main:()V", &reg).unwrap();
    for _ in 0..4 {
        t.step(&reg).unwrap();
    }
    assert_eq!(t.frame_stack[1].locals, vec![Type::Int(1), Type::Int(2), Type::Long(0)]);
    assert_eq!(t.frame_stack[0].operand_stack.len(), 0);
}

#[test]
fn descriptor_errors() {
    assert_eq!(parse_params(b"(Ljava/lang/String;)V"), Err(VmError::UnsupportedDescriptor));
    assert_eq!(parse_params(b"([I)V"), Err(VmError::UnsupportedDescriptor));
    assert_eq!(parse_params(b"IJ)V"), Err(VmError::DescriptorParse));
    assert_eq!(parse_params(b"(IQ)V"), Err(VmError::DescriptorParse));
    assert_eq!(parse_params(b"(II"), Err(VmError::DescriptorParse));
    assert_eq!(parse_params(b"()V"), Ok(vec![]));
    assert_eq!(parse_params(b"(FD)D"), Ok(vec![b'F', b'D']));
}

#[test]
fn float_ops_go_to_host() {
    // FCONST_1, FCONST_2, FADD -> host adds; I2F -> host converts
    let (reg, mut thread) = single_method("()F", 0, &[0x0c, 0x0d, 0x62, 0xae]);
    match thread.run(&reg, 10).unwrap() {
        Step::FloatOp { opcode, lhs, rhs } => {
            assert_eq!(opcode, 0x62);
            assert_eq!(lhs, Type::Float(1.0f32.to_bits()));
            assert_eq!(rhs, Type::Float(2.0f32.to_bits()));
        }
        other => panic!("expected a float op, got {:?}", other),
    }
    thread.push_result(Type::Float(3.0f32.to_bits()));
    assert!(matches!(thread.run(&reg, 10), Ok(Step::Done(Type::Float(bits))) if bits == 3.0f32.to_bits()));
    let (reg, mut thread) = single_method("()F", 0, &[0x08, 0x86, 0xae]);
    assert!(matches!(thread.run(&reg, 10), Ok(Step::IntToFloat(5))));
}

#[test]
fn double_constant_bits() {
    assert_eq!(result_of("()D", 0, &[0x0f, 0xaf]), Ok(Type::Double(1.0f64.to_bits())));
}

#[test]
fn interpreter_errors() {
    assert_eq!(result_of("()V", 0, &[0xff]), Err(VmError::UnsupportedOpcode(0xff)));
    assert_eq!(result_of("()V", 0, &[0x60]), Err(VmError::StackUnderflow));
    assert_eq!(result_of("()V", 0, &[0x04, 0x09, 0x60]), Err(VmError::TypeMismatch));
    assert_eq!(result_of("()I", 0, &[0x09, 0xac]), Err(VmError::TypeMismatch));
    assert_eq!(result_of("()V", 0, &[0x1a]), Err(VmError::OutOfRange));
    assert_eq!(result_of("()V", 0, &[0x00]), Err(VmError::OutOfRange));
    assert_eq!(result_of("()V", 0, &[0xa7, 0xff, 0x00]), Err(VmError::OutOfRange));
    assert_eq!(result_of("()V", 0, &[0x12, 0x01]), Err(VmError::WrongConstantKind));
}

#[test]
fn missing_callee() {
    let mut b = ClassBuilder::new("T", "java/lang/Object");
    let gone = b.method_ref("Gone", "f", "()V");
    let absent = b.method_ref("T", "g", "()V");
    b.method("a", "()V", 0, 0, &[0xb8, (gone >> 8) as u8, gone as u8, 0xb1]);
    b.method("b", "()V", 0, 0, &[0xb8, (absent >> 8) as u8, absent as u8, 0xb1]);
    let reg = registry_of(&[b.finish()]);
    let mut t = Thread::new(b"T", b"a:()V", &reg).unwrap();
    assert_eq!(t.run(&reg, 10).err(), Some(VmError::ClassNotFound(b"Gone".to_vec())));
    let mut t = Thread::new(b"T", b"b:()V", &reg).unwrap();
    assert_eq!(t.run(&reg, 10).err(), Some(VmError::NoSuchMethod));
    assert_eq!(Thread::new(b"T", b"zz:()V", &reg).err(), Some(VmError::NoSuchMethod));
    assert_eq!(Thread::new(b"Q", b"a:()V", &reg).err(), Some(VmError::ClassNotFound(b"Q".to_vec())));
}

#[test]
fn decoder_index_alignment() {
    let mut b = ClassBuilder::new("T", "java/lang/Object");
    let l = b.long(-2);
    let i = b.integer(9);
    assert_eq!(i, l + 2);
    let bytes = b.finish();
    let cf = ClassFile::from_bytes(&bytes).unwrap();
    assert_eq!(cf.constant_pool.len() + 1, cf.constant_pool_count as usize);
    assert!(matches!(cf.constant_pool[l as usize - 1], ConstantInfo::Long(ref x) if x.value == -2));
    assert!(matches!(cf.constant_pool[l as usize], ConstantInfo::Unusable));
    assert!(matches!(cf.constant_pool[i as usize - 1], ConstantInfo::Integer(ref x) if x.value == 9));
}

#[test]
fn decoder_fields_round_trip() {
    let mut b = ClassBuilder::new("pkg/T", "java/lang/Object");
    b.method("m", "()V", 3, 4, &[0xb1]);
    let bytes = b.finish();
    let cf = ClassFile::from_bytes(&bytes).unwrap();
    assert_eq!(cf.magic, 0xCAFEBABE);
    assert_eq!(cf.major_version, 52);
    assert_eq!(cf.access_flags, 0x0021);
    assert_eq!(cf.this_class, b.this_class);
    assert_eq!(cf.super_class, b.super_class);
    assert_eq!(cf.methods.len(), 1);
    assert_eq!(cf.methods[0].attributes.len(), 1);
    assert_eq!(cf.methods[0].attributes[0].attribute_name_index, b.code_name);
    let class = ClassLoader::new("x").define_class(&bytes).unwrap();
    assert_eq!(class.this_class().unwrap(), b"pkg/T".to_vec());
    assert_eq!(class.super_class().unwrap(), b"java/lang/Object".to_vec());
    let m = class.method(b"m:()V").unwrap();
    assert_eq!((m.max_stack, m.max_locals, m.code.clone()), (3, 4, vec![0xb1]));
    assert!(!m.is_native());
}

#[test]
fn decoder_errors() {
    assert_eq!(ClassFile::from_bytes(&[0xCA, 0xFE]).err(), Some(VmError::TruncatedInput(0)));
    assert_eq!(ClassFile::from_bytes(&[0xCA, 0xFE, 0xBA, 0xBE, 0, 0]).err(), Some(VmError::TruncatedInput(4)));
    assert_eq!(ClassFile::from_bytes(&[0xCA, 0xFE, 0xBA, 0xBF, 0, 0]).err(), Some(VmError::BadMagic));
    let mut ok = ClassBuilder::new("T", "java/lang/Object").finish();
    ok.truncate(ok.len() - 1);
    assert_eq!(ClassFile::from_bytes(&ok).err(), Some(VmError::TruncatedInput(ok.len() as u64 - 1)));
    // A Utf8 constant cut short reports where the constant starts.
    let mut b = ClassBuilder::new("T", "java/lang/Object");
    let start = 10 + b.pool.len();
    b.pool.extend_from_slice(&[1u8, 0, 9, b'a']);
    b.count += 1;
    let mut bytes = b.finish();
    bytes.truncate(start + 4);
    assert_eq!(ClassFile::from_bytes(&bytes).err(), Some(VmError::TruncatedInput(start as u64)));
    let mut b = ClassBuilder::new("T", "java/lang/Object");
    b.push_entry(&[2u8, 0, 0], 1);
    assert_eq!(ClassFile::from_bytes(&b.finish()).err(), Some(VmError::UnsupportedConstant(2)));
    let mut b = ClassBuilder::new("T", "java/lang/Object");
    b.push_entry(&[1u8, 0, 2, 0xff, 0xfe], 1);
    assert_eq!(ClassFile::from_bytes(&b.finish()).err(), Some(VmError::BadUtf8));
}

#[test]
fn linker_errors() {
    let loader = ClassLoader::new("x");
    let mut b = ClassBuilder::new("T", "java/lang/Object");
    b.raw_method(ACC_PUBLIC_STATIC, "m", "()V", &[]);
    assert_eq!(loader.define_class(&b.finish()).err(), Some(VmError::MissingCode));
    let mut b = ClassBuilder::new("T", "java/lang/Object");
    let a = b.code_attribute(0, 0, &[0xb1]);
    b.raw_method(ACC_PUBLIC_STATIC, "m", "()V", &[a.clone(), a]);
    assert_eq!(loader.define_class(&b.finish()).err(), Some(VmError::AmbiguousCode));
    let mut b = ClassBuilder::new("T", "java/lang/Object");
    b.push_entry(&[7u8, 0, 0x40], 1);
    assert_eq!(loader.define_class(&b.finish()).err(), Some(VmError::WrongConstantKind));
    let mut b = ClassBuilder::new("T", "java/lang/Object");
    b.native_method("n", "()V");
    let class = loader.define_class(&b.finish()).unwrap();
    let m = class.method(b"n:()V").unwrap();
    assert!(m.is_native());
    assert_eq!((m.max_stack, m.max_locals, m.code.len()), (0, 0, 0));
}

#[test]
fn eager_loading_order() {
    let mut base = ClassBuilder::new("app/Base", "java/lang/Object");
    base.method("<clinit>", "()V", 0, 0, &[0xb1]);
    let mut helper = ClassBuilder::new("app/Helper", "java/lang/Object");
    helper.method("<clinit>", "()V", 0, 0, &[0xb1]);
    let mut main = ClassBuilder::new("app/Main", "app/Base");
    main.class("app/Helper");
    main.method("main", "([Ljava/lang/String;)V", 0, 1, &[0xb1]);
    let sources = [
        ("app/Main", main.finish()),
        ("app/Base", base.finish()),
        ("app/Helper", helper.finish()),
    ];
    let mut vm = VirtualMachine::new("classes", b"app.Main");
    assert_eq!(vm.main_class, b"app/Main".to_vec());
    let mut asked = vec![];
    while let Some(name) = vm.next_load() {
        let bytes = &sources.iter().find(|(n, _)| n.as_bytes() == name.as_slice()).unwrap().1;
        asked.push(String::from_utf8(name).unwrap());
        vm.provide(bytes).unwrap();
    }
    assert_eq!(asked, vec!["app/Main", "app/Base", "app/Helper"]);
    let queue: Vec<String> = vm.initialization_queue.iter().map(|n| String::from_utf8(n.clone()).unwrap()).collect();
    assert_eq!(queue, vec!["app/Base", "app/Main", "app/Helper"]);
    let inits: Vec<Vec<u8>> = vm.initialize();
    assert_eq!(inits, vec![b"app/Base".to_vec(), b"app/Helper".to_vec()]);
    let mut t = vm.main_thread().unwrap();
    assert_eq!(t.frame_stack[0].locals, vec![Type::Null]);
    assert!(matches!(t.run(&vm.registry, 10), Ok(Step::Done(Type::Void))));
}

#[test]
fn registry_replaces_same_name() {
    let mut reg = Registry::new();
    let loader = ClassLoader::new("x");
    let mut b = ClassBuilder::new("T", "java/lang/Object");
    b.method("a", "()V", 0, 0, &[0xb1]);
    reg.add_class(loader.define_class(&b.finish()).unwrap()).unwrap();
    let mut b = ClassBuilder::new("T", "java/lang/Object");
    b.method("b", "()V", 0, 0, &[0xb1]);
    reg.add_class(loader.define_class(&b.finish()).unwrap()).unwrap();
    assert_eq!(reg.classes.len(), 1);
    assert!(reg.class(b"T").unwrap().method(b"b:()V").is_some());
    assert!(reg.class(b"T").unwrap().method(b"a:()V").is_none());
    assert!(!reg.native_method(b"x"));
    reg.add_native(b"x");
    assert!(reg.native_method(b"x"));
}

fn encode_attribute(out: &mut Vec<u8>, a: &smerdvm::class_file::AttributeInfo) {
    out.extend_from_slice(&a.attribute_name_index.to_be_bytes());
    out.extend_from_slice(&(a.info.len() as u32).to_be_bytes());
    out.extend_from_slice(&a.info);
}

fn encode(cf: &ClassFile) -> Vec<u8> {
    let mut out = vec![];
    out.extend_from_slice(&cf.magic.to_be_bytes());
    out.extend_from_slice(&cf.minor_version.to_be_bytes());
    out.extend_from_slice(&cf.major_version.to_be_bytes());
    out.extend_from_slice(&cf.constant_pool_count.to_be_bytes());
    for c in &cf.constant_pool {
        match c {
            ConstantInfo::Class(i) => { out.push(7); out.extend_from_slice(&i.name_index.to_be_bytes()); }
            ConstantInfo::FieldRef(i) => { out.push(9); out.extend_from_slice(&i.class_index.to_be_bytes()); out.extend_from_slice(&i.name_and_type_index.to_be_bytes()); }
            ConstantInfo::MethodRef(i) => { out.push(10); out.extend_from_slice(&i.class_index.to_be_bytes()); out.extend_from_slice(&i.name_and_type_index.to_be_bytes()); }
            ConstantInfo::String(i) => { out.push(8); out.extend_from_slice(&i.string_index.to_be_bytes()); }
            ConstantInfo::Integer(i) => { out.push(3); out.extend_from_slice(&i.value.to_be_bytes()); }
            ConstantInfo::Float(i) => { out.push(4); out.extend_from_slice(&i.bits.to_be_bytes()); }
            ConstantInfo::Long(i) => { out.push(5); out.extend_from_slice(&i.value.to_be_bytes()); }
            ConstantInfo::Double(i) => { out.push(6); out.extend_from_slice(&i.bits.to_be_bytes()); }
            ConstantInfo::NameAndType(i) => { out.push(12); out.extend_from_slice(&i.name_index.to_be_bytes()); out.extend_from_slice(&i.descriptor_index.to_be_bytes()); }
            ConstantInfo::Utf8(i) => { out.push(1); out.extend_from_slice(&(i.value.len() as u16).to_be_bytes()); out.extend_from_slice(&i.value); }
            ConstantInfo::Unusable => {}
        }
    }
    out.extend_from_slice(&cf.access_flags.to_be_bytes());
    out.extend_from_slice(&cf.this_class.to_be_bytes());
    out.extend_from_slice(&cf.super_class.to_be_bytes());
    out.extend_from_slice(&(cf.interfaces.len() as u16).to_be_bytes());
    for i in &cf.interfaces {
        out.extend_from_slice(&i.to_be_bytes());
    }
    out.extend_from_slice(&(cf.fields.len() as u16).to_be_bytes());
    for f in &cf.fields {
        out.extend_from_slice(&f.access_flags.to_be_bytes());
        out.extend_from_slice(&f.name_index.to_be_bytes());
        out.extend_from_slice(&f.descriptor_index.to_be_bytes());
        out.extend_from_slice(&(f.attributes.len() as u16).to_be_bytes());
        for a in &f.attributes {
            encode_attribute(&mut out, a);
        }
    }
    out.extend_from_slice(&(cf.methods.len() as u16).to_be_bytes());
    for m in &cf.methods {
        out.extend_from_slice(&m.access_flags.to_be_bytes());
        out.extend_from_slice(&m.name_index.to_be_bytes());
        out.extend_from_slice(&m.descriptor_index.to_be_bytes());
        out.extend_from_slice(&(m.attributes.len() as u16).to_be_bytes());
        for a in &m.attributes {
            encode_attribute(&mut out, a);
        }
    }
    out.extend_from_slice(&(cf.attributes.len() as u16).to_be_bytes());
    for a in &cf.attributes {
        encode_attribute(&mut out, a);
    }
    out
}

#[test]
fn decode_then_encode_reproduces_bytes() {
    let mut b = ClassBuilder::new("r/T", "java/lang/Object");
    b.integer(-5);
    b.long(1 << 40);
    b.push_entry(&[4u8, 0x3f, 0x80, 0, 0], 1);
    b.push_entry(&[6u8, 0x40, 0, 0, 0, 0, 0, 0, 0], 2);
    b.push_entry(&[8u8, 0, 1], 1);
    b.method_ref("r/T", "f", "(IJFD)V");
    b.push_entry(&[9u8, 0, 2, 0, 3], 1);
    b.method("f", "(IJFD)V", 0, 4, &[0xb1]);
    b.native_method("g", "()V");
    let bytes = b.finish();
    let cf = ClassFile::from_bytes(&bytes).unwrap();
    assert_eq!(encode(&cf), bytes);
    let mut longer = bytes.clone();
    longer.extend_from_slice(&[1, 2, 3]);
    let cf = ClassFile::from_bytes(&longer).unwrap();
    assert_eq!(encode(&cf), bytes);
}

#[test]
fn dotted_class_names() {
    assert_eq!(to_dotted(b"a/b/C"), b"a.b.C".to_vec());
    assert_eq!(to_dotted(b""), Vec::<u8>::new());
    let vm = VirtualMachine::new("cp", b"x.y.Main");
    assert_eq!(vm.main_class, b"x/y/Main".to_vec());
    assert_eq!(vm.main_thread().err(), Some(VmError::ClassNotFound(b"x/y/Main".to_vec())));
}

#[test]
fn truncated_code_attribute() {
    let loader = ClassLoader::new("x");
    let mut b = ClassBuilder::new("T", "java/lang/Object");
    let mut a = vec![];
    a.extend_from_slice(&b.code_name.to_be_bytes());
    a.extend_from_slice(&6u32.to_be_bytes());
    a.extend_from_slice(&[0, 1, 0, 1, 0, 0]);
    b.raw_method(ACC_PUBLIC_STATIC, "m", "()V", &[a]);
    assert_eq!(loader.define_class(&b.finish()).err(), Some(VmError::TruncatedInput(0)));
}

#[test]
fn code_attribute_parts() {
    let ca = CodeAttribute::from(&[0, 2, 0, 1, 0, 0, 0, 1, 0xb1, 0, 0, 0, 0]).unwrap();
    assert_eq!((ca.max_stack, ca.max_locals, ca.code.clone()), (2, 1, vec![0xb1]));
    assert!(ca.exception_table.is_empty());
    assert!(ca.attributes.is_empty());
    let info = [
        0, 1, 0, 0, 0, 0, 0, 1, 0xb1, // sizes and code
        0, 1, 0, 0, 0, 1, 0, 7, 0, 3, // one exception-table row
        0, 1, 0, 9, 0, 0, 0, 2, 0xaa, 0xbb, // one nested attribute
    ];
    let ca = CodeAttribute::from(&info).unwrap();
    assert_eq!(ca.exception_table.len(), 1);
    let row = &ca.exception_table[0];
    assert_eq!((row.start_pc, row.end_pc, row.handler_pc, row.catch_type), (0, 1, 7, 3));
    assert_eq!(ca.attributes.len(), 1);
    assert_eq!(ca.attributes[0].attribute_name_index, 9);
    assert_eq!(ca.attributes[0].info, vec![0xaa, 0xbb]);
    assert_eq!(CodeAttribute::from(&info[..12]).err(), Some(VmError::TruncatedInput(11)));
    assert_eq!(CodeAttribute::from(&info[..5]).err(), Some(VmError::TruncatedInput(0)));
}
