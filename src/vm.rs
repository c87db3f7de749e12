use vstd::prelude::*;
use crate::class::Class;
use crate::class_loader::ClassLoader;
use crate::class_file::{ClassFile, decodes_to, decode_error};
use crate::class::{class_links, class_linked, class_error};
use crate::class::last_with_key;
use crate::constant_pool::{class_entries, class_name_of, is_class_at, copy_bytes};
use crate::error::VmError;
use crate::registry::{Registry, bytes_eq};
use crate::thread::Thread;
use crate::value::Type;

verus! {

/// The bytes of `java/lang/Object`, the root that is never loaded.
pub open spec fn object_name() -> Seq<u8> {
    seq![106u8, 97, 118, 97, 47, 108, 97, 110, 103, 47, 79, 98, 106, 101, 99, 116]
}

/// The bytes of `<clinit>:()V`, the key of a class initialiser.
pub open spec fn clinit_key() -> Seq<u8> {
    seq![60u8, 99, 108, 105, 110, 105, 116, 62, 58, 40, 41, 86]
}

/// The bytes of `main:([Ljava/lang/String;)V`, the key of the entry point.
pub open spec fn main_key() -> Seq<u8> {
    seq![
        109u8, 97, 105, 110, 58, 40, 91, 76, 106, 97, 118, 97, 47, 108, 97, 110, 103, 47, 83,
        116, 114, 105, 110, 103, 59, 41, 86,
    ]
}

/// A dotted class name in internal form: each `.` becomes `/`.
pub open spec fn internal_name(dotted: Seq<u8>) -> Seq<u8> {
    dotted.map_values(|b: u8| if b == 46u8 { 47u8 } else { b })
}

/// Whether the class registered as `name` has an initialiser.
pub open spec fn has_initializer(reg: &Registry, name: Seq<u8>) -> bool {
    exists|i: int| 0 <= i < reg.names@.len() && (#[trigger] reg.names@[i])@ == name
        && exists|j: int| 0 <= j < reg.classes@[i].methods@.len()
            && (#[trigger] reg.classes@[i].methods@[j]).key() == clinit_key()
}

/// The names among `names` whose class has an initialiser, in order.
pub open spec fn with_initializer(reg: &Registry, names: Seq<Seq<u8>>) -> Seq<Seq<u8>>
    decreases names.len(),
{
    if names.len() == 0 {
        seq![]
    } else if has_initializer(reg, names.last()) {
        with_initializer(reg, names.drop_last()).push(names.last())
    } else {
        with_initializer(reg, names.drop_last())
    }
}

/// An internal class name in dotted form: each `/` becomes `.`.
pub open spec fn dotted_name(internal: Seq<u8>) -> Seq<u8> {
    internal.map_values(|b: u8| if b == 47u8 { 46u8 } else { b })
}

/// The dotted form of an internal class name, as error messages show it.
pub fn to_dotted(internal: &[u8]) -> (r: Vec<u8>)
    ensures
        r@ == dotted_name(internal@),
{
    let mut out: Vec<u8> = Vec::new();
    let mut i: usize = 0;
    while i < internal.len()
        invariant
            i <= internal@.len(),
            out@ == dotted_name(internal@.subrange(0, i as int)),
        decreases internal@.len() - i,
    {
        let b = internal[i];
        out.push(if b == 47u8 { 46u8 } else { b });
        i = i + 1;
        assert(out@ =~= dotted_name(internal@.subrange(0, i as int)));
    }
    assert(internal@.subrange(0, internal@.len() as int) =~= internal@);
    out
}

/// Work left for loading: a class to load, or a loaded class to register
/// once its superclass is in.
pub enum Task {
    Load(Vec<u8>),
    Finish(Class),
}

/// What a task stands for.
pub ghost enum TaskView {
    Load(Seq<u8>),
    Finish(Class),
}

impl Task {
    pub open spec fn view(&self) -> TaskView {
        match self {
            Task::Load(n) => TaskView::Load(n@),
            Task::Finish(c) => TaskView::Finish(*c),
        }
    }

    pub open spec fn wf(&self) -> bool {
        match self {
            Task::Load(_) => true,
            Task::Finish(c) => c.wf() && is_class_at(c.constant_pool@, c.this_class as int),
        }
    }
}

/// Works through `tasks` from the last, with `classes` registered by name:
/// skips a load of a registered class or of `java/lang/Object`, registers a
/// finished class under its name (replacing one of that name) and queues the
/// name, and stops at the first other load. Gives the classes registered
/// then, the names queued on the way, the class to read, and how many tasks
/// are left.
pub open spec fn drain(classes: Map<Seq<u8>, Class>, tasks: Seq<TaskView>)
    -> (Map<Seq<u8>, Class>, Seq<Seq<u8>>, Option<Seq<u8>>, nat)
    decreases tasks.len(),
{
    if tasks.len() == 0 {
        (classes, seq![], None, 0)
    } else {
        let rest = tasks.drop_last();
        match tasks.last() {
            TaskView::Load(n) => if n != object_name() && !classes.dom().contains(n) {
                (classes, seq![], Some(n), rest.len())
            } else {
                drain(classes, rest)
            },
            TaskView::Finish(c) => {
                let d = drain(classes.insert(c.name(), c), rest);
                (d.0, seq![c.name()] + d.1, d.2, d.3)
            },
        }
    }
}

/// Loads the main class and what it refers to, superclasses first, and
/// records the order in which classes are registered: the order of their
/// initialisers.
pub struct VirtualMachine {
    pub class_loader: ClassLoader,
    pub main_class: Vec<u8>,
    pub registry: Registry,
    pub initialization_queue: Vec<Vec<u8>>,
    pub pending: Vec<Task>,
}

/// Whether `name` is `java/lang/Object`.
pub fn is_object_name(name: &[u8]) -> (r: bool)
    ensures
        r == (name@ == object_name()),
{
    let object: [u8; 16] = [106u8, 97, 118, 97, 47, 108, 97, 110, 103, 47, 79, 98, 106, 101, 99, 116];
    assert(object@ =~= object_name());
    bytes_eq(name, object.as_slice())
}

impl VirtualMachine {
    pub open spec fn wf(&self) -> bool {
        &&& self.registry.wf()
        &&& forall|i: int| 0 <= i < self.pending@.len() ==> (#[trigger] self.pending@[i]).wf()
    }

    pub open spec fn queue_view(&self) -> Seq<Seq<u8>> {
        self.initialization_queue@.map_values(|n: Vec<u8>| n@)
    }

    pub open spec fn pending_view(&self) -> Seq<TaskView> {
        self.pending@.map_values(|t: Task| t@)
    }

    /// A machine for `main_class`, given in dotted form, about to load it.
    pub fn new(class_path: &str, main_class: &[u8]) -> (r: VirtualMachine)
        ensures
            r.wf(),
            r.main_class@ == internal_name(main_class@),
            r.class_loader.class_path@ == class_path@,
            r.registry.classes@.len() == 0,
            r.registry.natives@.len() == 0,
            r.initialization_queue@.len() == 0,
            r.pending_view() == seq![TaskView::Load(internal_name(main_class@))],
    {
        let mut name: Vec<u8> = Vec::new();
        let mut i: usize = 0;
        while i < main_class.len()
            invariant
                i <= main_class@.len(),
                name@ == internal_name(main_class@.subrange(0, i as int)),
            decreases main_class@.len() - i,
        {
            let b = main_class[i];
            name.push(if b == 46u8 { 47u8 } else { b });
            i = i + 1;
            assert(name@ =~= internal_name(main_class@.subrange(0, i as int)));
        }
        assert(main_class@.subrange(0, main_class@.len() as int) =~= main_class@);
        let task_name = copy_bytes(name.as_slice());
        let mut pending: Vec<Task> = Vec::new();
        pending.push(Task::Load(task_name));
        let vm = VirtualMachine {
            class_loader: ClassLoader::new(class_path),
            main_class: name,
            registry: Registry::new(),
            initialization_queue: Vec::new(),
            pending,
        };
        assert(vm.pending_view() =~= seq![TaskView::Load(internal_name(main_class@))]);
        vm
    }

    /// Works through pending tasks until a class must be read: returns its
    /// internal name, or `None` when loading is complete. A class that is
    /// registered already, or `java/lang/Object`, is skipped; a finished
    /// class is registered and queued for initialisation.
    pub fn next_load(&mut self) -> (r: Option<Vec<u8>>)
        requires
            old(self).wf(),
        ensures
            final(self).wf(),
            final(self).main_class == old(self).main_class,
            final(self).registry.natives@ == old(self).registry.natives@,
            ({
                let d = drain(old(self).registry.classes_by_name(), old(self).pending_view());
                &&& final(self).registry.classes_by_name() == d.0
                &&& final(self).queue_view() == old(self).queue_view() + d.1
                &&& (match r {
                    Some(n) => d.2 == Some(n@),
                    None => d.2 is None,
                })
                &&& final(self).pending_view() == old(self).pending_view().subrange(0, d.3 as int)
            }),
    {
        let ghost total = drain(old(self).registry.classes_by_name(), old(self).pending_view());
        let ghost added: Seq<Seq<u8>> = seq![];
        while self.pending.len() > 0
            invariant
                self.wf(),
                self.main_class == old(self).main_class,
                self.registry.natives@ == old(self).registry.natives@,
                self.pending@.len() <= old(self).pending@.len(),
                self.pending_view() == old(self).pending_view().subrange(0, self.pending@.len() as int),
                self.queue_view() == old(self).queue_view() + added,
                total == drain(old(self).registry.classes_by_name(), old(self).pending_view()),
                ({
                    let d = drain(self.registry.classes_by_name(), self.pending_view());
                    total == (d.0, added + d.1, d.2, d.3)
                }),
            decreases self.pending@.len(),
        {
            let ghost before = self.pending_view();
            let ghost classes_before = self.registry.classes_by_name();
            let task = self.pending.pop().unwrap();
            assert(self.pending_view() =~= before.drop_last());
            assert(self.pending_view() =~= old(self).pending_view().subrange(0, self.pending@.len() as int));
            match task {
                Task::Load(name) => {
                    let known = self.registry.index_of(name.as_slice()).is_some();
                    assert(known == classes_before.dom().contains(name@));
                    if !is_object_name(name.as_slice()) && !known {
                        proof {
                            assert(before.last() == TaskView::Load(name@));
                            assert(drain(classes_before, before) == (
                                classes_before,
                                Seq::<Seq<u8>>::empty(),
                                Some(name@),
                                (before.len() - 1) as nat,
                            ));
                            assert(added + Seq::<Seq<u8>>::empty() =~= added);
                        }
                        return Some(name);
                    }
                },
                Task::Finish(class) => {
                    let name = match class.this_class() {
                        Ok(n) => n,
                        Err(_) => Vec::new(),
                    };
                    let ghost q = self.queue_view();
                    let ghost cv = class;
                    let _ = self.registry.add_class(class);
                    self.initialization_queue.push(name);
                    proof {
                        assert(before.last() == TaskView::Finish(cv));
                        assert(self.registry.classes_by_name() == classes_before.insert(name@, cv));
                        assert(self.queue_view() =~= q.push(name@));
                        let d = drain(self.registry.classes_by_name(), self.pending_view());
                        assert(added + (seq![name@] + d.1) =~= added.push(name@) + d.1);
                        added = added.push(name@);
                        assert(self.queue_view() =~= old(self).queue_view() + added);
                    }
                },
            }
        }
        assert(added + seq![] =~= added);
        None
    }

    /// Hands over the bytes of the class that `next_load` asked for. The
    /// class is decoded and linked; then its superclass is loaded, the class
    /// is registered, and the classes its pool names are loaded in pool order.
    pub fn provide(&mut self, bytes: &[u8]) -> (r: Result<(), VmError>)
        requires
            old(self).wf(),
        ensures
            final(self).wf(),
            final(self).main_class == old(self).main_class,
            final(self).registry == old(self).registry,
            final(self).initialization_queue == old(self).initialization_queue,
            r is Err ==> final(self).pending_view() == old(self).pending_view(),
            decode_error(bytes@) is Some ==> r == Err::<(), VmError>(decode_error(bytes@)->0),
            decode_error(bytes@) is None ==> exists|cf: ClassFile| {
                &&& #[trigger] decodes_to(bytes@, cf)
                &&& r is Ok <==> class_links(cf) && is_class_at(cf.constant_pool@, cf.super_class as int)
                &&& r is Err && !class_links(cf) ==> class_error(cf, r->Err_0)
                &&& r is Err && class_links(cf) ==> r->Err_0 == VmError::WrongConstantKind
                &&& r is Ok ==> exists|c: Class| {
                    let refs = class_entries(cf.constant_pool@, cf.constant_pool@.len() as int);
                    &&& #[trigger] class_linked(cf, c)
                    &&& final(self).pending_view() =~= old(self).pending_view()
                        + Seq::new(refs.len(), |i: int| TaskView::Load(refs[refs.len() - 1 - i]))
                        + seq![
                            TaskView::Finish(c),
                            TaskView::Load(class_name_of(cf.constant_pool@, cf.super_class as int)),
                        ]
                }
            },
    {
        let class = self.class_loader.define_class(bytes)?;
        let ghost cf = choose|cf: ClassFile| {
            &&& #[trigger] decodes_to(bytes@, cf)
            &&& class_links(cf)
            &&& class_linked(cf, class)
        };
        let super_name = class.super_class()?;
        let refs = class.constant_pool.classes();
        let ghost c = class;
        let ghost start = self.pending_view();
        let mut i: usize = refs.len();
        while i > 0
            invariant
                self.wf(),
                self.main_class == old(self).main_class,
                self.registry == old(self).registry,
                self.initialization_queue == old(self).initialization_queue,
                i <= refs@.len(),
                self.pending_view() =~= start + Seq::new((refs@.len() - i) as nat,
                    |j: int| TaskView::Load(refs@[refs@.len() - 1 - j]@)),
            decreases i,
        {
            i = i - 1;
            let name = copy_bytes(refs[i].as_slice());
            let ghost prev = self.pending_view();
            let ghost name_view = name@;
            self.pending.push(Task::Load(name));
            assert(self.pending_view() =~= prev.push(TaskView::Load(name_view)));
            assert(self.pending_view() =~= start + Seq::new((refs@.len() - i) as nat,
                |j: int| TaskView::Load(refs@[refs@.len() - 1 - j]@)));
        }
        let ghost cv = class;
        let ghost sname = super_name@;
        let ghost prev = self.pending_view();
        self.pending.push(Task::Finish(class));
        self.pending.push(Task::Load(super_name));
        assert(self.pending_view() =~= prev.push(TaskView::Finish(cv)).push(TaskView::Load(sname)));
        proof {
            let entries = class_entries(c.constant_pool@, c.constant_pool@.len() as int);
            assert(Seq::new((refs@.len() - 0) as nat, |j: int| TaskView::Load(refs@[refs@.len() - 1 - j]@))
                =~= Seq::new(entries.len(), |j: int| TaskView::Load(entries[entries.len() - 1 - j])));
        }
        Ok(())
    }

    /// The registered classes that have an initialiser, in the order they
    /// were registered.
    pub fn initialize(&self) -> (r: Vec<Vec<u8>>)
        requires
            self.registry.wf(),
        ensures
            r@.map_values(|n: Vec<u8>| n@) == with_initializer(
                &self.registry,
                self.initialization_queue@.map_values(|n: Vec<u8>| n@),
            ),
    {
        let key = clinit_key_bytes();
        let ghost names = self.initialization_queue@.map_values(|n: Vec<u8>| n@);
        let mut out: Vec<Vec<u8>> = Vec::new();
        let mut i: usize = 0;
        while i < self.initialization_queue.len()
            invariant
                self.registry.wf(),
                key@ == clinit_key(),
                names == self.initialization_queue@.map_values(|n: Vec<u8>| n@),
                i <= self.initialization_queue@.len(),
                out@.map_values(|n: Vec<u8>| n@) == with_initializer(&self.registry, names.subrange(0, i as int)),
            decreases self.initialization_queue@.len() - i,
        {
            let name = &self.initialization_queue[i];
            let ghost prev = out@;
            assert(names.subrange(0, i + 1).drop_last() =~= names.subrange(0, i as int));
            assert(names.subrange(0, i + 1).last() == name@);
            match self.registry.class(name.as_slice()) {
                Ok(class) => {
                    let ghost k = choose|k: int| 0 <= k < self.registry.classes@.len()
                        && (#[trigger] self.registry.names@[k])@ == name@ && *class == self.registry.classes@[k];
                    if class.method(key.as_slice()).is_some() {
                        out.push(copy_bytes(name.as_slice()));
                        assert(out@.map_values(|n: Vec<u8>| n@) =~= prev.map_values(|n: Vec<u8>| n@).push(name@));
                        assert(has_initializer(&self.registry, name@));
                    } else {
                        assert(!has_initializer(&self.registry, name@)) by {
                            if has_initializer(&self.registry, name@) {
                                let k2 = choose|k2: int| 0 <= k2 < self.registry.names@.len()
                                    && (#[trigger] self.registry.names@[k2])@ == name@
                                    && exists|j: int| 0 <= j < self.registry.classes@[k2].methods@.len()
                                        && (#[trigger] self.registry.classes@[k2].methods@[j]).key() == clinit_key();
                                if k2 != k {
                                    assert(self.registry.names@[k2]@ != self.registry.names@[k]@);
                                }
                            }
                        }
                    }
                },
                Err(_) => {
                    assert(!has_initializer(&self.registry, name@));
                },
            }
            i = i + 1;
        }
        assert(names.subrange(0, names.len() as int) =~= names);
        out
    }

    /// A thread about to run `main:([Ljava/lang/String;)V` of the main class,
    /// with no arguments.
    pub fn main_thread(&self) -> (r: Result<Thread, VmError>)
        requires
            self.registry.wf(),
        ensures
            r is Ok ==> r->Ok_0.wf(&self.registry),
            !self.registry.has_class(self.main_class@) ==> r is Err && r->Err_0 is ClassNotFound,
            r is Ok <==> self.registry.has_class(self.main_class@) && last_with_key(
                self.registry.classes@[crate::thread::class_slot(&self.registry, self.main_class@)->0].methods@,
                main_key(),
            ) is Some,
            r is Ok ==> ({
                let ci = crate::thread::class_slot(&self.registry, self.main_class@)->0;
                let ms = self.registry.classes@[ci].methods@;
                let mi = last_with_key(ms, main_key())->0;
                r->Ok_0@ == crate::thread::ThreadView {
                    frames: seq![crate::thread::FrameView {
                        class_index: ci,
                        method_index: mi,
                        locals: Seq::new(ms[mi].max_locals as nat, |i: int| Type::Null),
                        stack: seq![],
                        return_address: 0,
                    }],
                    pc: 0,
                }
            }),
    {
        let key = main_key_bytes();
        Thread::new(self.main_class.as_slice(), key.as_slice(), &self.registry)
    }
}

/// The bytes of `<clinit>:()V`.
pub fn clinit_key_bytes() -> (r: Vec<u8>)
    ensures
        r@ == clinit_key(),
{
    let a: [u8; 12] = [60u8, 99, 108, 105, 110, 105, 116, 62, 58, 40, 41, 86];
    assert(a@ =~= clinit_key());
    copy_bytes(a.as_slice())
}

/// The bytes of `main:([Ljava/lang/String;)V`.
pub fn main_key_bytes() -> (r: Vec<u8>)
    ensures
        r@ == main_key(),
{
    let a: [u8; 27] = [
        109u8, 97, 105, 110, 58, 40, 91, 76, 106, 97, 118, 97, 47, 108, 97, 110, 103, 47, 83,
        116, 114, 105, 110, 103, 59, 41, 86,
    ];
    assert(a@ =~= main_key());
    copy_bytes(a.as_slice())
}

} // verus!
