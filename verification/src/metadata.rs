//! What a module of 32-bit code says about its globals and the arguments of its
//! functions, as the compiler gives it, as it is stored, and as it is kept.
use crate::name_table::{copy_bytes, find, new_table, positions, put};
use rustc_hash::FxHashMap;
use vstd::prelude::*;
use vstd::utf8::encode_utf8;

verus! {

/// Size and alignment of an argument of a function.
#[derive(Clone, Copy, PartialEq, Eq, Structural, Debug)]
pub struct FunctionArgInfo {
    pub size: u32,
    pub align: u32,
}

/// A copy of a list of arguments.
fn copy_args(args: &Vec<FunctionArgInfo>) -> (copy: Vec<FunctionArgInfo>)
    ensures
        copy@ == args@,
{
    let mut copy: Vec<FunctionArgInfo> = Vec::new();
    let mut i: usize = 0;
    while i < args.len()
        invariant
            i <= args@.len(),
            copy@ == args@.take(i as int),
        decreases args@.len() - i,
    {
        copy.push(args[i]);
        i += 1;
    }
    assert(args@.take(i as int) =~= args@);
    copy
}

/// A global of a module of 32-bit code, as the compiler describes it.
pub struct GlobalMetadata {
    pub name: String,
    pub initializer: Vec<u8>,
    pub align: u32,
}

/// What the compiler says about a module of 32-bit code.
pub struct ModuleMetadata32Bit {
    pub globals: Vec<GlobalMetadata>,
    /// For each function, size and alignment of each of its arguments.
    pub explicit_args_size_align: Vec<(String, Vec<(u32, u32)>)>,
}

/// A 32-bit number as it is stored: the least significant byte first.
#[derive(Clone, Copy)]
pub struct ArchivedU32 {
    pub bytes: [u8; 4],
}

/// A global as it is stored.
pub struct ArchivedGlobal {
    pub name: String,
    pub initializer: Vec<u8>,
    pub align: ArchivedU32,
}

/// The description of a module as it is stored.
pub struct ArchivedModuleMetadata32Bit {
    pub globals: Vec<ArchivedGlobal>,
    pub explicit_args_size_align: Vec<(String, Vec<(ArchivedU32, ArchivedU32)>)>,
}

/// A global of a module of 32-bit code.
pub struct Global32Bit {
    /// The name, without a NUL byte.
    pub name: Vec<u8>,
    pub initializer: Vec<u8>,
    pub align: u32,
}

/// The arguments of functions, by the name of the function.
pub struct ArgTable {
    lists: Vec<Vec<FunctionArgInfo>>,
    by_name: FxHashMap<Vec<u8>, usize>,
}

/// What is kept about a module of 32-bit code.
pub struct Metadata32Bit {
    pub globals: Vec<Global32Bit>,
    pub explicit_args_size_align: ArgTable,
}

/// Name, initializer and alignment of a global.
pub type GlobalView = (Seq<u8>, Seq<u8>, u32);

/// The arguments that a list of size and alignment describes.
pub open spec fn arg_infos(args: Seq<(u32, u32)>) -> Seq<FunctionArgInfo> {
    args.map_values(|a: (u32, u32)| (FunctionArgInfo { size: a.0, align: a.1 }))
}

/// The arguments by the name of the function. Of two entries for one function the later counts.
pub open spec fn args_table(entries: Seq<(String, Vec<(u32, u32)>)>) -> Map<
    Seq<u8>,
    Seq<FunctionArgInfo>,
>
    decreases entries.len(),
{
    if entries.len() == 0 {
        Map::empty()
    } else {
        args_table(entries.drop_last()).insert(
            encode_utf8(entries.last().0@),
            arg_infos(entries.last().1@),
        )
    }
}

/// The globals by name, initializer and alignment.
pub open spec fn globals_table(globals: Seq<GlobalMetadata>) -> Seq<GlobalView> {
    globals.map_values(|g: GlobalMetadata| (encode_utf8(g.name@), g.initializer@, g.align))
}

/// The kept globals by name, initializer and alignment.
pub open spec fn kept_globals(globals: Seq<Global32Bit>) -> Seq<GlobalView> {
    globals.map_values(|g: Global32Bit| (g.name@, g.initializer@, g.align))
}

/// Whether no name of a global holds a NUL byte.
pub open spec fn names_without_nul(globals: Seq<GlobalMetadata>) -> bool {
    forall|i: int|
        0 <= i < globals.len() ==> !encode_utf8((#[trigger] globals[i]).name@).contains(0)
}

impl ArchivedU32 {
    /// The stored number.
    pub open spec fn value(self) -> nat {
        self.bytes@[0] as nat + self.bytes@[1] as nat * 0x100 + self.bytes@[2] as nat * 0x1_0000
            + self.bytes@[3] as nat * 0x100_0000
    }

    /// The stored number.
    pub fn to_native(&self) -> (n: u32)
        ensures
            n == self.value(),
    {
        self.bytes[0] as u32 + self.bytes[1] as u32 * 0x100 + self.bytes[2] as u32 * 0x1_0000
            + self.bytes[3] as u32 * 0x100_0000
    }
}

/// Whether `archived` is `meta` as it is stored.
pub open spec fn archives(archived: ArchivedModuleMetadata32Bit, meta: ModuleMetadata32Bit) -> bool {
    &&& archived.globals@.len() == meta.globals@.len()
    &&& forall|i: int|
        #![trigger archived.globals@[i]]
        #![trigger meta.globals@[i]]
        0 <= i < meta.globals@.len() ==> {
            &&& archived.globals@[i].name@ == meta.globals@[i].name@
            &&& archived.globals@[i].initializer@ == meta.globals@[i].initializer@
            &&& archived.globals@[i].align.value() == meta.globals@[i].align
        }
    &&& archived.explicit_args_size_align@.len() == meta.explicit_args_size_align@.len()
    &&& forall|i: int|
        #![trigger archived.explicit_args_size_align@[i]]
        #![trigger meta.explicit_args_size_align@[i]]
        0 <= i < meta.explicit_args_size_align@.len() ==> {
            &&& archived.explicit_args_size_align@[i].0@ == meta.explicit_args_size_align@[i].0@
            &&& archives_args(
                archived.explicit_args_size_align@[i].1@,
                meta.explicit_args_size_align@[i].1@,
            )
        }
}

/// Whether `archived` is the list `args` as it is stored.
pub open spec fn archives_args(
    archived: Seq<(ArchivedU32, ArchivedU32)>,
    args: Seq<(u32, u32)>,
) -> bool {
    &&& archived.len() == args.len()
    &&& forall|i: int|
        #![trigger archived[i]]
        #![trigger args[i]]
        0 <= i < args.len() ==> archived[i].0.value() == args[i].0 && archived[i].1.value()
            == args[i].1
}

impl ArchivedModuleMetadata32Bit {
    /// The stored description.
    pub fn to_native(&self) -> (meta: ModuleMetadata32Bit)
        ensures
            archives(*self, meta),
    {
        let mut globals: Vec<GlobalMetadata> = Vec::new();
        let mut i: usize = 0;
        while i < self.globals.len()
            invariant
                i <= self.globals@.len(),
                globals@.len() == i,
                forall|k: int|
                    #![trigger self.globals@[k]]
                    #![trigger globals@[k]]
                    0 <= k < i ==> {
                        &&& self.globals@[k].name@ == globals@[k].name@
                        &&& self.globals@[k].initializer@ == globals@[k].initializer@
                        &&& self.globals@[k].align.value() == globals@[k].align
                    },
            decreases self.globals@.len() - i,
        {
            let global = &self.globals[i];
            globals.push(
                GlobalMetadata {
                    name: global.name.clone(),
                    initializer: copy_bytes(global.initializer.as_slice()),
                    align: global.align.to_native(),
                },
            );
            i += 1;
        }
        let mut explicit_args_size_align: Vec<(String, Vec<(u32, u32)>)> = Vec::new();
        let mut f: usize = 0;
        while f < self.explicit_args_size_align.len()
            invariant
                f <= self.explicit_args_size_align@.len(),
                explicit_args_size_align@.len() == f,
                forall|k: int|
                    #![trigger self.explicit_args_size_align@[k]]
                    #![trigger explicit_args_size_align@[k]]
                    0 <= k < f ==> {
                        &&& self.explicit_args_size_align@[k].0@ == explicit_args_size_align@[k].0@
                        &&& archives_args(
                            self.explicit_args_size_align@[k].1@,
                            explicit_args_size_align@[k].1@,
                        )
                    },
            decreases self.explicit_args_size_align@.len() - f,
        {
            let stored = &self.explicit_args_size_align[f];
            let mut args: Vec<(u32, u32)> = Vec::new();
            let mut a: usize = 0;
            while a < stored.1.len()
                invariant
                    a <= stored.1@.len(),
                    archives_args(stored.1@.take(a as int), args@),
                decreases stored.1@.len() - a,
            {
                args.push((stored.1[a].0.to_native(), stored.1[a].1.to_native()));
                a += 1;
            }
            assert(stored.1@.take(a as int) =~= stored.1@);
            explicit_args_size_align.push((stored.0.clone(), args));
            f += 1;
        }
        ModuleMetadata32Bit { globals, explicit_args_size_align }
    }
}

impl View for ArgTable {
    type V = Map<Seq<u8>, Seq<FunctionArgInfo>>;

    closed spec fn view(&self) -> Map<Seq<u8>, Seq<FunctionArgInfo>> {
        Map::new(
            |name: Seq<u8>| positions(self.by_name).dom().contains(name),
            |name: Seq<u8>| self.lists@[positions(self.by_name)[name] as int]@,
        )
    }
}

impl ArgTable {
    /// Every position in the table is one of the lists.
    pub closed spec fn wf(&self) -> bool {
        forall|name: Seq<u8>|
            #![trigger positions(self.by_name)[name]]
            positions(self.by_name).dom().contains(name) ==> positions(self.by_name)[name]
                < self.lists@.len()
    }

    /// A table without functions.
    pub fn new() -> (table: Self)
        ensures
            table.wf(),
            table@ == Map::<Seq<u8>, Seq<FunctionArgInfo>>::empty(),
    {
        let table = ArgTable { lists: Vec::new(), by_name: new_table() };
        assert(table@ =~= Map::<Seq<u8>, Seq<FunctionArgInfo>>::empty());
        table
    }

    /// Sets the arguments of a function. Earlier ones are replaced.
    pub fn insert(&mut self, name: Vec<u8>, infos: Vec<FunctionArgInfo>)
        requires
            old(self).wf(),
        ensures
            final(self).wf(),
            final(self)@ == old(self)@.insert(name@, infos@),
    {
        let position: usize = self.lists.len();
        let ghost key = name@;
        let ghost before = *self;
        self.lists.push(infos);
        put(&mut self.by_name, name, position);
        assert forall|n: Seq<u8>| #![trigger positions(self.by_name)[n]] positions(
            self.by_name,
        ).dom().contains(n) implies positions(self.by_name)[n] < self.lists@.len() by {
            if n != key {
                assert(positions(before.by_name)[n] < before.lists@.len());
            }
        }
        assert forall|n: Seq<u8>| before@.dom().contains(n) && n != key implies (
        #[trigger] self@[n]) == before@[n] by {
            assert(positions(before.by_name)[n] < before.lists@.len());
        }
        assert(self@ =~= before@.insert(key, infos@));
    }

    /// The arguments of a function, where they are known.
    pub fn get(&self, name: &[u8]) -> (args: Option<Vec<FunctionArgInfo>>)
        requires
            self.wf(),
        ensures
            match args {
                Some(list) => self@.dom().contains(name@) && list@ == self@[name@],
                None => !self@.dom().contains(name@),
            },
    {
        match find(&self.by_name, name) {
            Some(position) => {
                assert(positions(self.by_name)[name@] < self.lists@.len());
                Some(copy_args(&self.lists[position]))
            },
            None => None,
        }
    }
}

/// Whether `kept` says what the description `meta` says.
pub open spec fn keeps(kept: Metadata32Bit, meta: ModuleMetadata32Bit) -> bool {
    &&& kept.globals_view() == globals_table(meta.globals@)
    &&& kept.explicit_args_size_align@ == args_table(meta.explicit_args_size_align@)
}

/// Whether `kept` says what the stored description `archived` says.
pub open spec fn keeps_archived(kept: Metadata32Bit, archived: ArchivedModuleMetadata32Bit) -> bool {
    exists|meta: ModuleMetadata32Bit| #[trigger] archives(archived, meta) && keeps(kept, meta)
}

/// Whether no name of a stored global holds a NUL byte.
pub open spec fn archived_names_without_nul(globals: Seq<ArchivedGlobal>) -> bool {
    forall|i: int|
        0 <= i < globals.len() ==> !encode_utf8((#[trigger] globals[i]).name@).contains(0)
}

impl Metadata32Bit {
    /// The globals by name, initializer and alignment.
    pub open spec fn globals_view(&self) -> Seq<GlobalView> {
        kept_globals(self.globals@)
    }

    /// The table of arguments is in order.
    pub open spec fn wf(&self) -> bool {
        self.explicit_args_size_align.wf()
    }

    /// What is kept of the description of a freshly compiled module.
    pub fn new(meta: &ModuleMetadata32Bit) -> (kept: Self)
        requires
            names_without_nul(meta.globals@),
        ensures
            kept.wf(),
            keeps(kept, *meta),
    {
        let mut globals: Vec<Global32Bit> = Vec::new();
        let mut i: usize = 0;
        while i < meta.globals.len()
            invariant
                i <= meta.globals@.len(),
                kept_globals(globals@) == globals_table(meta.globals@.take(i as int)),
            decreases meta.globals@.len() - i,
        {
            let global = &meta.globals[i];
            let ghost kept = globals@;
            globals.push(
                Global32Bit {
                    name: copy_bytes(global.name.as_str().as_bytes()),
                    initializer: copy_bytes(global.initializer.as_slice()),
                    align: global.align,
                },
            );
            i += 1;
            proof {
                let mapped = kept_globals(globals@);
                let wanted = globals_table(meta.globals@.take(i as int));
                let earlier = globals_table(meta.globals@.take(i - 1));
                assert(kept_globals(kept) == earlier);
                assert(kept.len() == kept_globals(kept).len());
                assert forall|k: int| 0 <= k < i implies mapped[k] == wanted[k] by {
                    if k < i - 1 {
                        assert(kept_globals(kept)[k] == earlier[k]);
                        assert(globals@[k] == kept[k]);
                    }
                }
                assert(mapped =~= wanted);
            }
        }
        assert(meta.globals@.take(i as int) =~= meta.globals@);
        let mut table = ArgTable::new();
        let mut f: usize = 0;
        while f < meta.explicit_args_size_align.len()
            invariant
                f <= meta.explicit_args_size_align@.len(),
                table.wf(),
                table@ == args_table(meta.explicit_args_size_align@.take(f as int)),
            decreases meta.explicit_args_size_align@.len() - f,
        {
            let entry = &meta.explicit_args_size_align[f];
            let mut infos: Vec<FunctionArgInfo> = Vec::new();
            let mut a: usize = 0;
            while a < entry.1.len()
                invariant
                    a <= entry.1@.len(),
                    infos@ == arg_infos(entry.1@.take(a as int)),
                decreases entry.1@.len() - a,
            {
                infos.push(FunctionArgInfo { size: entry.1[a].0, align: entry.1[a].1 });
                a += 1;
                assert(infos@ =~= arg_infos(entry.1@.take(a as int)));
            }
            assert(entry.1@.take(a as int) =~= entry.1@);
            table.insert(copy_bytes(entry.0.as_str().as_bytes()), infos);
            f += 1;
            assert(meta.explicit_args_size_align@.take(f as int).drop_last()
                =~= meta.explicit_args_size_align@.take(f - 1));
        }
        assert(meta.explicit_args_size_align@.take(f as int) =~= meta.explicit_args_size_align@);
        Metadata32Bit { globals, explicit_args_size_align: table }
    }

    /// What is kept of the description of a module that comes from the cache.
    pub fn from_archived(archived: &ArchivedModuleMetadata32Bit) -> (kept: Self)
        requires
            archived_names_without_nul(archived.globals@),
        ensures
            kept.wf(),
            keeps_archived(kept, *archived),
    {
        let meta = archived.to_native();
        assert forall|i: int| 0 <= i < meta.globals@.len() implies !encode_utf8(
            (#[trigger] meta.globals@[i]).name@,
        ).contains(0) by {
            assert(archived.globals@[i].name@ == meta.globals@[i].name@);
        }
        Metadata32Bit::new(&meta)
    }
}

/// A module read back from the cache says what the freshly compiled module said.
pub proof fn archived_module_reads_like_the_compiled_one(
    archived: ArchivedModuleMetadata32Bit,
    compiled: ModuleMetadata32Bit,
    fresh: Metadata32Bit,
    read: Metadata32Bit,
)
    requires
        archives(archived, compiled),
        keeps(fresh, compiled),
        keeps_archived(read, archived),
    ensures
        read.globals_view() == fresh.globals_view(),
        read.explicit_args_size_align@ == fresh.explicit_args_size_align@,
{
    let stored = choose|meta: ModuleMetadata32Bit| #[trigger]
        archives(archived, meta) && keeps(read, meta);
    assert forall|i: int| 0 <= i < compiled.globals@.len() implies globals_table(
        compiled.globals@,
    )[i] == globals_table(stored.globals@)[i] by {
        assert(archived.globals@[i].name@ == compiled.globals@[i].name@);
    }
    assert(globals_table(compiled.globals@) =~= globals_table(stored.globals@));
    let n = compiled.explicit_args_size_align@.len() as int;
    lemma_same_args_table(
        archived.explicit_args_size_align@,
        compiled.explicit_args_size_align@,
        stored.explicit_args_size_align@,
        n,
    );
    assert(compiled.explicit_args_size_align@.take(n) =~= compiled.explicit_args_size_align@);
    assert(stored.explicit_args_size_align@.take(n) =~= stored.explicit_args_size_align@);
}

/// Two lists that are stored in the same way make the same table.
proof fn lemma_same_args_table(
    archived: Seq<(String, Vec<(ArchivedU32, ArchivedU32)>)>,
    a: Seq<(String, Vec<(u32, u32)>)>,
    b: Seq<(String, Vec<(u32, u32)>)>,
    n: int,
)
    requires
        0 <= n <= a.len(),
        a.len() == archived.len(),
        b.len() == archived.len(),
        forall|i: int|
            #![trigger a[i]]
            0 <= i < a.len() ==> archived[i].0@ == a[i].0@ && archives_args(
                archived[i].1@,
                a[i].1@,
            ),
        forall|i: int|
            #![trigger b[i]]
            0 <= i < b.len() ==> archived[i].0@ == b[i].0@ && archives_args(
                archived[i].1@,
                b[i].1@,
            ),
    ensures
        args_table(a.take(n)) == args_table(b.take(n)),
    decreases n,
{
    if n > 0 {
        lemma_same_args_table(archived, a, b, n - 1);
        assert(a.take(n).drop_last() =~= a.take(n - 1));
        assert(b.take(n).drop_last() =~= b.take(n - 1));
        let x = a[n - 1].1@;
        let y = b[n - 1].1@;
        assert(a[n - 1].0@ == b[n - 1].0@);
        assert forall|i: int| 0 <= i < x.len() implies x[i] == y[i] by {
            assert(archived[n - 1].1@[i].0.value() == x[i].0);
            assert(archived[n - 1].1@[i].0.value() == y[i].0);
        }
        assert(x =~= y);
    } else {
        assert(a.take(n) =~= b.take(n));
    }
}

/// Whether a list of kept arguments says of each argument what the metadata say: as many, each of
/// the same size and the same alignment.
pub open spec fn describes_args(list: Seq<FunctionArgInfo>, args: Seq<(u32, u32)>) -> bool {
    &&& list.len() == args.len()
    &&& forall|i: int|
        0 <= i < args.len() ==> (#[trigger] list[i]).size == args[i].0 && list[i].align == args[i].1
}

/// Whether entry `k` is the last one for its function.
pub open spec fn is_last_entry(entries: Seq<(String, Vec<(u32, u32)>)>, k: int) -> bool {
    &&& 0 <= k < entries.len()
    &&& forall|j: int| k < j < entries.len() ==> (#[trigger] entries[j]).0@ != entries[k].0@
}

/// Different names have different bytes.
proof fn lemma_encoding_is_injective(a: Seq<char>, b: Seq<char>)
    requires
        encode_utf8(a) == encode_utf8(b),
    ensures
        a == b,
{
    vstd::utf8::encode_utf8_decode_utf8(a);
    vstd::utf8::encode_utf8_decode_utf8(b);
}

/// What the table says of the last entry for a function, and of a function without an entry.
pub(crate) proof fn lemma_args_table(entries: Seq<(String, Vec<(u32, u32)>)>)
    ensures
        forall|k: int| #[trigger]
            is_last_entry(entries, k) ==> args_table(entries).dom().contains(
                encode_utf8(entries[k].0@),
            ) && describes_args(args_table(entries)[encode_utf8(entries[k].0@)], entries[k].1@),
        forall|name: Seq<u8>| #[trigger]
            args_table(entries).dom().contains(name) ==> exists|k: int|
                0 <= k < entries.len() && encode_utf8((#[trigger] entries[k]).0@) == name,
    decreases entries.len(),
{
    if entries.len() > 0 {
        let less = entries.drop_last();
        let last = entries.len() - 1;
        lemma_args_table(less);
        assert forall|k: int| #[trigger] is_last_entry(entries, k) implies args_table(
            entries,
        ).dom().contains(encode_utf8(entries[k].0@)) && describes_args(
            args_table(entries)[encode_utf8(entries[k].0@)],
            entries[k].1@,
        ) by {
            if k < last {
                assert(entries[last].0@ != entries[k].0@);
                assert(is_last_entry(less, k)) by {
                    assert forall|j: int| k < j < less.len() implies (#[trigger] less[j]).0@
                        != less[k].0@ by {
                        assert(entries[j].0@ != entries[k].0@);
                    }
                }
                if encode_utf8(entries[last].0@) == encode_utf8(entries[k].0@) {
                    lemma_encoding_is_injective(entries[last].0@, entries[k].0@);
                }
            }
        }
        assert forall|name: Seq<u8>| #[trigger]
            args_table(entries).dom().contains(name) implies exists|k: int|
            0 <= k < entries.len() && encode_utf8((#[trigger] entries[k]).0@) == name by {
            if name == encode_utf8(entries[last].0@) {
            } else {
                assert(args_table(less).dom().contains(name));
                let k = choose|k: int|
                    0 <= k < less.len() && encode_utf8((#[trigger] less[k]).0@) == name;
                assert(entries[k] == less[k]);
            }
        }
    }
}

/// Whether what is kept of a module says what its description says: every global with its name,
/// initializer and alignment, and of every function the arguments of its last entry, one by one.
/// Functions without an entry have none.
pub open spec fn says_the_same(kept: Metadata32Bit, meta: ModuleMetadata32Bit) -> bool {
    &&& kept.globals@.len() == meta.globals@.len()
    &&& forall|i: int|
        0 <= i < meta.globals@.len() ==> {
            &&& (#[trigger] kept.globals@[i]).name@ == encode_utf8(meta.globals@[i].name@)
            &&& kept.globals@[i].initializer@ == meta.globals@[i].initializer@
            &&& kept.globals@[i].align == meta.globals@[i].align
        }
    &&& forall|k: int, name: &[u8], args: Option<Vec<FunctionArgInfo>>|
        #[trigger] is_last_entry(meta.explicit_args_size_align@, k) && name@ == encode_utf8(
            meta.explicit_args_size_align@[k].0@,
        ) && #[trigger] call_ensures(ArgTable::get, (&kept.explicit_args_size_align, name), args)
            ==> (args matches Some(list) && describes_args(
            list@,
            meta.explicit_args_size_align@[k].1@,
        ))
    &&& forall|name: &[u8], args: Option<Vec<FunctionArgInfo>>|
        (forall|k: int|
            0 <= k < meta.explicit_args_size_align@.len() ==> encode_utf8(
                (#[trigger] meta.explicit_args_size_align@[k]).0@,
            ) != name@) && #[trigger] call_ensures(
            ArgTable::get,
            (&kept.explicit_args_size_align, name),
            args,
        ) ==> args is None
}

/// What `keeps` means, field by field.
pub(crate) proof fn lemma_keeps_says_the_same(kept: Metadata32Bit, meta: ModuleMetadata32Bit)
    requires
        keeps(kept, meta),
    ensures
        says_the_same(kept, meta),
{
    lemma_args_table(meta.explicit_args_size_align@);
    assert(kept.globals_view().len() == kept.globals@.len());
    assert(globals_table(meta.globals@).len() == meta.globals@.len());
    assert forall|i: int| 0 <= i < meta.globals@.len() implies {
        &&& (#[trigger] kept.globals@[i]).name@ == encode_utf8(meta.globals@[i].name@)
        &&& kept.globals@[i].initializer@ == meta.globals@[i].initializer@
        &&& kept.globals@[i].align == meta.globals@[i].align
    } by {
        assert(kept.globals_view()[i] == globals_table(meta.globals@)[i]);
    }
}

/// What is kept of a freshly compiled module says what its description says.
pub proof fn fresh_metadata_say_the_same(meta: &ModuleMetadata32Bit, kept: Metadata32Bit)
    requires
        call_ensures(Metadata32Bit::new, (meta,), kept),
    ensures
        says_the_same(kept, *meta),
{
    lemma_keeps_says_the_same(kept, *meta);
}

/// A number is stored with the least significant byte first.
pub proof fn stored_number_is_its_bytes(stored: &ArchivedU32, n: u32)
    requires
        call_ensures(ArchivedU32::to_native, (stored,), n),
    ensures
        n % 256 == stored.bytes@[0],
        n / 256 % 256 == stored.bytes@[1],
        n / 65536 % 256 == stored.bytes@[2],
        n / 16777216 == stored.bytes@[3],
{
}

/// Whether a stored description is that of a module: the same globals in the same order, and the same
/// arguments, every number stored with the least significant byte first.
pub open spec fn is_stored_form(archived: ArchivedModuleMetadata32Bit, meta: ModuleMetadata32Bit) -> bool {
    &&& archived.globals@.len() == meta.globals@.len()
    &&& forall|i: int|
        0 <= i < meta.globals@.len() ==> {
            &&& (#[trigger] meta.globals@[i]).name@ == archived.globals@[i].name@
            &&& meta.globals@[i].initializer@ == archived.globals@[i].initializer@
            &&& stored_as(archived.globals@[i].align, meta.globals@[i].align)
        }
    &&& archived.explicit_args_size_align@.len() == meta.explicit_args_size_align@.len()
    &&& forall|f: int|
        0 <= f < meta.explicit_args_size_align@.len() ==> (
        #[trigger] meta.explicit_args_size_align@[f]).0@ == archived.explicit_args_size_align@[f].0@
    &&& forall|f: int|
        0 <= f < meta.explicit_args_size_align@.len() ==> (
        #[trigger] meta.explicit_args_size_align@[f]).1@.len()
            == archived.explicit_args_size_align@[f].1@.len()
    &&& forall|f: int, a: int|
        0 <= f < meta.explicit_args_size_align@.len() && 0 <= a
            < meta.explicit_args_size_align@[f].1@.len() ==> {
            &&& stored_as(
                archived.explicit_args_size_align@[f].1@[a].0,
                (#[trigger] meta.explicit_args_size_align@[f].1@[a]).0,
            )
            &&& stored_as(
                archived.explicit_args_size_align@[f].1@[a].1,
                meta.explicit_args_size_align@[f].1@[a].1,
            )
        }
}

/// Whether a number is stored in these bytes, the least significant first.
pub open spec fn stored_as(stored: ArchivedU32, n: u32) -> bool {
    &&& n % 256 == stored.bytes@[0]
    &&& n / 256 % 256 == stored.bytes@[1]
    &&& n / 65536 % 256 == stored.bytes@[2]
    &&& n / 16777216 == stored.bytes@[3]
}

/// What is kept of a module that comes from the cache says what is stored of it.
pub proof fn stored_metadata_say_the_same(archived: &ArchivedModuleMetadata32Bit, kept: Metadata32Bit)
    requires
        call_ensures(Metadata32Bit::from_archived, (archived,), kept),
    ensures
        exists|meta: ModuleMetadata32Bit| #[trigger]
            is_stored_form(*archived, meta) && says_the_same(kept, meta),
{
    lemma_keeping_the_stored(archived, kept);
}

/// Keeping what is stored is saying it.
pub(crate) proof fn lemma_keeping_the_stored(
    archived: &ArchivedModuleMetadata32Bit,
    kept: Metadata32Bit,
)
    requires
        keeps_archived(kept, *archived),
    ensures
        exists|meta: ModuleMetadata32Bit| #[trigger]
            is_stored_form(*archived, meta) && says_the_same(kept, meta),
{
    let meta = choose|meta: ModuleMetadata32Bit| #[trigger]
        archives(*archived, meta) && keeps(kept, meta);
    lemma_keeps_says_the_same(kept, meta);
    assert(is_stored_form(*archived, meta)) by {
        assert forall|i: int| 0 <= i < meta.globals@.len() implies {
            &&& (#[trigger] meta.globals@[i]).name@ == archived.globals@[i].name@
            &&& meta.globals@[i].initializer@ == archived.globals@[i].initializer@
            &&& stored_as(archived.globals@[i].align, meta.globals@[i].align)
        } by {
            lemma_stored_as(archived.globals@[i].align, meta.globals@[i].align);
        }
        assert forall|f: int, a: int|
            0 <= f < meta.explicit_args_size_align@.len() && 0 <= a
                < meta.explicit_args_size_align@[f].1@.len() implies {
            &&& stored_as(
                archived.explicit_args_size_align@[f].1@[a].0,
                (#[trigger] meta.explicit_args_size_align@[f].1@[a]).0,
            )
            &&& stored_as(
                archived.explicit_args_size_align@[f].1@[a].1,
                meta.explicit_args_size_align@[f].1@[a].1,
            )
        } by {
            let there = archived.explicit_args_size_align@[f].1@;
            let here = meta.explicit_args_size_align@[f].1@;
            assert(archives_args(there, here));
            assert(there[a].0.value() == here[a].0);
            lemma_stored_as(there[a].0, here[a].0);
            lemma_stored_as(there[a].1, here[a].1);
        }
    }
}

/// The bytes of a stored number.
proof fn lemma_stored_as(stored: ArchivedU32, n: u32)
    requires
        stored.value() == n,
    ensures
        stored_as(stored, n),
{
}

/// The arguments that are kept of a function are those of its last entry: as many, each with the size
/// and the alignment that the description gives it.
pub proof fn kept_arguments_are_those_described(
    meta: &ModuleMetadata32Bit,
    kept: Metadata32Bit,
    k: int,
    name: &[u8],
    args: Option<Vec<FunctionArgInfo>>,
)
    requires
        call_ensures(Metadata32Bit::new, (meta,), kept),
        call_ensures(ArgTable::get, (&kept.explicit_args_size_align, name), args),
        0 <= k < meta.explicit_args_size_align@.len(),
        forall|j: int|
            k < j < meta.explicit_args_size_align@.len() ==> (
            #[trigger] meta.explicit_args_size_align@[j]).0@ != meta.explicit_args_size_align@[k].0@,
        name@ == encode_utf8(meta.explicit_args_size_align@[k].0@),
    ensures
        args matches Some(list) && list@.len() == meta.explicit_args_size_align@[k].1@.len() && (
        forall|i: int|
            0 <= i < list@.len() ==> (#[trigger] list@[i]).size
                == meta.explicit_args_size_align@[k].1@[i].0 && list@[i].align
                == meta.explicit_args_size_align@[k].1@[i].1),
{
    lemma_keeps_says_the_same(kept, *meta);
    assert(is_last_entry(meta.explicit_args_size_align@, k));
}

/// What is put in for a name is what is found under it, and nothing changes for other names.
pub proof fn arguments_are_found_under_their_name(
    table: &mut ArgTable,
    name: Vec<u8>,
    infos: Vec<FunctionArgInfo>,
    other: &[u8],
    before: Option<Vec<FunctionArgInfo>>,
    after: Option<Vec<FunctionArgInfo>>,
)
    requires
        call_ensures(ArgTable::insert, (table, name, infos), ()),
        call_ensures(ArgTable::get, (&*old(table), other), before),
        call_ensures(ArgTable::get, (&*final(table), other), after),
    ensures
        other@ == name@ ==> after is Some && after->Some_0@ == infos@,
        other@ != name@ ==> (after is Some <==> before is Some),
        other@ != name@ && before is Some ==> after->Some_0@ == before->Some_0@,
{
}

} // verus!
