//! Loaded modules and their functions. A function is asked of the driver once, and found again by
//! its name.
use crate::error::CuError;
use crate::load::LoadedModule;
use crate::metadata::{
    describes_args, fresh_metadata_say_the_same, is_last_entry, lemma_args_table, FunctionArgInfo,
    Metadata32Bit, ModuleMetadata32Bit,
};
use crate::name_table::{copy_bytes, find, new_table, positions, put};
use rustc_hash::FxHashMap;
use vstd::prelude::*;
use vstd::utf8::encode_utf8;

verus! {

/// A function of a loaded module.
pub struct Function {
    /// The handle that the driver knows the function by.
    pub base: usize,
    pub sm_version: u32,
    /// Sizes and alignments of the arguments, for a function of 32-bit code.
    pub explicit_args_size_align: Option<Vec<FunctionArgInfo>>,
    pub name: Vec<u8>,
}

/// Functions in the order in which they were asked for.
pub struct FunctionTable {
    functions: Vec<Function>,
    by_name: FxHashMap<Vec<u8>, usize>,
}

/// Whether a function of this name is among the functions.
pub open spec fn has_function(functions: Seq<Function>, name: Seq<u8>) -> bool {
    exists|i: int| 0 <= i < functions.len() && (#[trigger] functions[i]).name@ == name
}

/// Whether no two functions have the same name.
pub open spec fn distinct_names(functions: Seq<Function>) -> bool {
    forall|i: int, j: int|
        0 <= i < j < functions.len() ==> (#[trigger] functions[i]).name@ != (
        #[trigger] functions[j]).name@
}

/// Whether asking for the function `name` gave `r` and led from the functions `before` to the
/// functions `after`.
///
/// A function that is there is given, and nothing is asked of the driver. Otherwise `resolve` is
/// asked for its handle: a function that it finds is added, and a failure changes nothing.
pub open spec fn got_function<E, R: FnOnce(usize, Vec<u8>) -> Result<usize, E>>(
    resolve: R,
    module: usize,
    sm_version: u32,
    name: Seq<u8>,
    explicit_args_size_align: Option<Seq<FunctionArgInfo>>,
    before: Seq<Function>,
    after: Seq<Function>,
    r: Result<usize, E>,
) -> bool {
    if has_function(before, name) {
        &&& after == before
        &&& r matches Ok(position) && position < before.len() && before[position as int].name@
            == name
    } else {
        exists|asked: Vec<u8>, handle: Result<usize, E>|
            {
                &&& asked@ == name
                &&& #[trigger] resolve.ensures((module, asked), handle)
                &&& match handle {
                    Err(error) => r == Err::<usize, E>(error) && after == before,
                    Ok(base) => {
                        &&& r matches Ok(position) && position == before.len()
                        &&& after.len() == before.len() + 1
                        &&& after.drop_last() == before
                        &&& after.last().base == base
                        &&& after.last().sm_version == sm_version
                        &&& after.last().name@ == name
                        &&& match (after.last().explicit_args_size_align, explicit_args_size_align) {
                            (Some(kept), Some(args)) => kept@ == args,
                            (None, None) => true,
                            _ => false,
                        }
                    },
                }
            }
    }
}

impl FunctionTable {
    /// The functions.
    pub closed spec fn functions(&self) -> Seq<Function> {
        self.functions@
    }

    /// The table finds exactly the functions by their names, and no name occurs twice.
    pub closed spec fn wf(&self) -> bool {
        &&& distinct_names(self.functions@)
        &&& forall|name: Seq<u8>|
            #![trigger positions(self.by_name).dom().contains(name)]
            positions(self.by_name).dom().contains(name) ==> positions(self.by_name)[name]
                < self.functions@.len() && self.functions@[positions(
                self.by_name,
            )[name] as int].name@ == name
        &&& forall|i: int|
            0 <= i < self.functions@.len() ==> positions(self.by_name).dom().contains(
                (#[trigger] self.functions@[i]).name@,
            )
    }

    /// A table without functions.
    pub fn new() -> (table: Self)
        ensures
            table.wf(),
            table.functions() == Seq::<Function>::empty(),
    {
        let table = FunctionTable { functions: Vec::new(), by_name: new_table() };
        assert(table.functions@ =~= Seq::<Function>::empty());
        table
    }

    /// The function at a position that was given for it.
    pub fn function(&self, position: usize) -> (function: &Function)
        requires
            position < self.functions().len(),
        ensures
            *function == self.functions()[position as int],
    {
        &self.functions[position]
    }

    /// The position of the function `name`, which is asked of the driver where it is not known yet.
    pub fn get_function<E, R: FnOnce(usize, Vec<u8>) -> Result<usize, E>>(
        &mut self,
        module: usize,
        sm_version: u32,
        name: Vec<u8>,
        explicit_args_size_align: Option<Vec<FunctionArgInfo>>,
        resolve: R,
    ) -> (r: Result<usize, E>)
        requires
            old(self).wf(),
            forall|asked: Vec<u8>|
                asked@ == name@ && !has_function(old(self).functions(), name@) ==> #[trigger]
                resolve.requires((module, asked)),
        ensures
            final(self).wf(),
            distinct_names(final(self).functions()),
            got_function(
                resolve,
                module,
                sm_version,
                name@,
                match explicit_args_size_align {
                    Some(args) => Some(args@),
                    None => None,
                },
                old(self).functions(),
                final(self).functions(),
                r,
            ),
    {
        let ghost before = self.functions@;
        let ghost key = name@;
        match find(&self.by_name, name.as_slice()) {
            Some(position) => {
                assert(positions(self.by_name).dom().contains(key));
                Ok(position)
            },
            None => {
                assert(!has_function(before, key)) by {
                    if has_function(before, key) {
                        let i = choose|i: int|
                            0 <= i < before.len() && (#[trigger] before[i]).name@ == key;
                        assert(positions(self.by_name).dom().contains(before[i].name@));
                    }
                }
                let asked = copy_bytes(name.as_slice());
                let handle = resolve(module, asked);
                assert(resolve.ensures((module, asked), handle));
                match handle {
                    Err(error) => Err(error),
                    Ok(base) => {
                        let position: usize = self.functions.len();
                        let kept = copy_bytes(name.as_slice());
                        let ghost table = positions(self.by_name);
                        self.functions.push(
                            Function { base, sm_version, explicit_args_size_align, name: kept },
                        );
                        put(&mut self.by_name, name, position);
                        proof {
                            let after = self.functions@;
                            assert(after.drop_last() =~= before);
                            assert forall|n: Seq<u8>|
                                #![trigger positions(self.by_name).dom().contains(n)]
                                positions(self.by_name).dom().contains(n) implies positions(
                                self.by_name,
                            )[n] < after.len() && after[positions(self.by_name)[n] as int].name@
                                == n by {
                                if n != key {
                                    assert(table.dom().contains(n));
                                }
                            }
                            assert forall|i: int| 0 <= i < after.len() implies positions(
                                self.by_name,
                            ).dom().contains((#[trigger] after[i]).name@) by {
                                if i < before.len() {
                                    assert(table.dom().contains(before[i].name@));
                                }
                            }
                        }
                        Ok(position)
                    },
                }
            },
        }
    }
}

/// A loaded module.
pub struct Module {
    /// The handle that the driver knows the module by.
    pub base: usize,
    pub sm_version: u32,
    /// What is kept about a module of 32-bit code.
    pub bit32: Option<Metadata32Bit>,
    pub functions: FunctionTable,
}

impl Module {
    /// The parts of the module are in order.
    pub open spec fn wf(&self) -> bool {
        &&& self.functions.wf()
        &&& self.bit32 matches Some(metadata) ==> metadata.wf()
    }

    /// The arguments that are kept for a function.
    pub open spec fn explicit_args(&self, name: Seq<u8>) -> Option<Seq<FunctionArgInfo>> {
        match self.bit32 {
            Some(metadata) => if metadata.explicit_args_size_align@.dom().contains(name) {
                Some(metadata.explicit_args_size_align@[name])
            } else {
                None
            },
            None => None,
        }
    }

    /// A module of which no function has been asked for.
    pub fn new(base: usize, sm_version: u32, bit32: Option<Metadata32Bit>) -> (module: Self)
        requires
            bit32 matches Some(metadata) ==> metadata.wf(),
        ensures
            module.wf(),
            module.base == base,
            module.sm_version == sm_version,
            module.bit32 == bit32,
            module.functions.functions() == Seq::<Function>::empty(),
    {
        Module { base, sm_version, bit32, functions: FunctionTable::new() }
    }

    /// The position of the function `name`, which is asked of the driver where it is not known yet.
    pub fn get_function<E, R: FnOnce(usize, Vec<u8>) -> Result<usize, E>>(
        &mut self,
        name: &[u8],
        resolve: R,
    ) -> (r: Result<usize, E>)
        requires
            old(self).wf(),
            forall|asked: Vec<u8>|
                asked@ == name@ && !has_function(old(self).functions.functions(), name@)
                    ==> #[trigger] resolve.requires((old(self).base, asked)),
        ensures
            final(self).wf(),
            final(self).base == old(self).base,
            final(self).sm_version == old(self).sm_version,
            final(self).bit32 == old(self).bit32,
            distinct_names(final(self).functions.functions()),
            got_function(
                resolve,
                old(self).base,
                old(self).sm_version,
                name@,
                old(self).explicit_args(name@),
                old(self).functions.functions(),
                final(self).functions.functions(),
                r,
            ),
    {
        let explicit_args = match &self.bit32 {
            Some(metadata) => metadata.explicit_args_size_align.get(name),
            None => None,
        };
        self.functions.get_function(
            self.base,
            self.sm_version,
            copy_bytes(name),
            explicit_args,
            resolve,
        )
    }
}

/// Whether `r` is the module that was loaded, with no function asked for yet.
pub open spec fn is_fresh(loaded: Result<LoadedModule, CuError>, r: Result<Module, CuError>) -> bool {
    match loaded {
        Ok(l) => r matches Ok(module) && {
            &&& module.wf()
            &&& module.base == l.base
            &&& module.sm_version == l.sm_version
            &&& module.bit32 == l.bit32
            &&& module.functions.functions() == Seq::<Function>::empty()
        },
        Err(error) => r == Err::<Module, CuError>(error),
    }
}

/// Whether `r` is what an image comes to: an image that cannot be read holds no binary.
pub open spec fn image_loaded<I, H: FnOnce(I) -> Result<LoadedModule, CuError>>(
    load_library: H,
    image: Option<I>,
    r: Result<Module, CuError>,
) -> bool {
    match image {
        None => r == Err::<Module, CuError>(CuError::NoBinaryForGpu),
        Some(library) => exists|loaded: Result<LoadedModule, CuError>| #[trigger]
            load_library.ensures((library,), loaded) && is_fresh(loaded, r),
    }
}

/// Loads a module from an image in memory. `image` is what the image was recognised as, and
/// `load_library` translates and loads it.
pub fn load_data<I, H: FnOnce(I) -> Result<LoadedModule, CuError>>(
    image: Option<I>,
    load_library: H,
) -> (r: Result<Module, CuError>)
    requires
        image matches Some(library) ==> load_library.requires((library,)),
        forall|library: I, loaded: LoadedModule| #[trigger]
            load_library.ensures((library,), Ok(loaded)) ==> loaded.wf(),
    ensures
        image_loaded(load_library, image, r),
{
    match image {
        None => Err(CuError::NoBinaryForGpu),
        Some(library) => match load_library(library) {
            Ok(loaded) => {
                let ghost whole = loaded;
                let module = Module::new(loaded.base, loaded.sm_version, loaded.bit32);
                assert(load_library.ensures((library,), Ok::<LoadedModule, CuError>(whole)));
                Ok(module)
            },
            Err(error) => Err(error),
        },
    }
}

/// Whether `image` is what the file at the path was read as, with a NUL byte behind it.
pub open spec fn is_image_at<F: FnOnce(String) -> Option<Vec<u8>>>(
    read: F,
    path: Option<String>,
    image: Vec<u8>,
) -> bool {
    path is Some && exists|content: Vec<u8>| #[trigger]
        read.ensures((path->Some_0,), Some(content)) && image@ == content@.push(0)
}

/// Loads a module from a file. `path` is the path of the file, where that is valid Unicode, `read`
/// reads it, and `recognise` says what the image is. The image ends in a NUL byte in case it is
/// text.
pub fn load<
    I,
    F: FnOnce(String) -> Option<Vec<u8>>,
    G: FnOnce(Vec<u8>) -> Option<I>,
    H: FnOnce(I) -> Result<LoadedModule, CuError>,
>(path: Option<String>, read: F, recognise: G, load_library: H) -> (r: Result<Module, CuError>)
    requires
        path matches Some(name) ==> read.requires((name,)),
        forall|image: Vec<u8>| is_image_at(read, path, image) ==> #[trigger] recognise.requires((image,)),
        forall|image: Vec<u8>, library: I|
            is_image_at(read, path, image) && #[trigger] recognise.ensures((image,), Some(library))
                ==> load_library.requires((library,)),
        forall|library: I, loaded: LoadedModule| #[trigger]
            load_library.ensures((library,), Ok(loaded)) ==> loaded.wf(),
    ensures
        match path {
            None => r == Err::<Module, CuError>(CuError::InvalidValue),
            Some(name) => {
                ||| {
                    &&& read.ensures((name,), None::<Vec<u8>>)
                    &&& r == Err::<Module, CuError>(CuError::InvalidValue)
                }
                ||| exists|image: Vec<u8>, library: Option<I>|
                    {
                        &&& is_image_at(read, path, image)
                        &&& #[trigger] recognise.ensures((image,), library)
                        &&& image_loaded(load_library, library, r)
                    }
            },
        },
{
    let name = match path {
        Some(name) => name,
        None => {
            return Err(CuError::InvalidValue);
        },
    };
    match read(name) {
        None => Err(CuError::InvalidValue),
        Some(content) => {
            let mut image = content;
            image.push(0);
            assert(read.ensures((name,), Some(content)));
            assert(is_image_at(read, path, image));
            let library = recognise(image);
            assert(recognise.ensures((image,), library));
            load_data(library, load_library)
        },
    }
}

/// When functions of a module are loaded.
#[derive(Clone, Copy, PartialEq, Eq, Structural, Debug)]
pub enum LoadingMode {
    Eager,
    Lazy,
}

/// When functions of a module are loaded: not before they are asked for.
pub fn get_loading_mode() -> (mode: LoadingMode)
    ensures
        mode == LoadingMode::Lazy,
{
    LoadingMode::Lazy
}

/// A function that was found once is found again, as it was and at the same position, and nothing
/// changes, whatever the driver would answer now. It is a function that there is, so the driver may
/// not even be asked.
pub proof fn functions_are_resolved_once<E, R: FnOnce(usize, Vec<u8>) -> Result<usize, E>>(
    first: R,
    second: R,
    module: usize,
    sm_version: u32,
    name: Seq<u8>,
    args: Option<Seq<FunctionArgInfo>>,
    other_args: Option<Seq<FunctionArgInfo>>,
    before: Seq<Function>,
    between: Seq<Function>,
    after: Seq<Function>,
    r: Result<usize, E>,
    again: Result<usize, E>,
)
    requires
        distinct_names(between),
        got_function(first, module, sm_version, name, args, before, between, r),
        r is Ok,
        got_function(second, module, sm_version, name, other_args, between, after, again),
    ensures
        has_function(between, name),
        after == between,
        again is Ok,
        again->Ok_0 == r->Ok_0,
{
    let position = r->Ok_0 as int;
    assert(between[position].name@ == name);
    assert(has_function(between, name));
    let other = again->Ok_0 as int;
    if other < position {
        assert(between[other].name@ != between[position].name@);
    } else if position < other {
        assert(between[position].name@ != between[other].name@);
    }
}

/// Asking for a function leaves the functions that were there at their positions.
pub proof fn functions_stay_where_they_are<E, R: FnOnce(usize, Vec<u8>) -> Result<usize, E>>(
    resolve: R,
    module: usize,
    sm_version: u32,
    name: Seq<u8>,
    args: Option<Seq<FunctionArgInfo>>,
    before: Seq<Function>,
    after: Seq<Function>,
    r: Result<usize, E>,
    position: int,
)
    requires
        got_function(resolve, module, sm_version, name, args, before, after, r),
        0 <= position < before.len(),
    ensures
        position < after.len(),
        after[position] == before[position],
{
    if after != before {
        assert(after.drop_last()[position] == after[position]);
    }
}

/// A function that is asked for the first time is what the driver and the metadata say: the handle
/// that the driver gives for this very name in this very module, the version of the module, and of a
/// module of 32-bit code every argument with its size and alignment. A failure is the driver's, and
/// leaves no trace.
pub proof fn new_function_is_what_was_resolved<E, R: FnOnce(usize, Vec<u8>) -> Result<usize, E>>(
    module: &mut Module,
    name: &[u8],
    resolve: R,
    meta: &ModuleMetadata32Bit,
    kept: Metadata32Bit,
    k: int,
    r: Result<usize, E>,
)
    requires
        call_ensures(Module::get_function::<E, R>, (module, name, resolve), r),
        call_ensures(Metadata32Bit::new, (meta,), kept),
        old(module).bit32 == Some(kept),
        0 <= k < meta.explicit_args_size_align@.len(),
        forall|j: int|
            k < j < meta.explicit_args_size_align@.len() ==> (
            #[trigger] meta.explicit_args_size_align@[j]).0@ != meta.explicit_args_size_align@[k].0@,
        name@ == encode_utf8(meta.explicit_args_size_align@[k].0@),
        forall|i: int|
            0 <= i < old(module).functions.functions().len() ==> (
            #[trigger] old(module).functions.functions()[i]).name@ != name@,
    ensures
        exists|asked: Vec<u8>, handle: Result<usize, E>|
            {
                &&& asked@ == name@
                &&& #[trigger] resolve.ensures((old(module).base, asked), handle)
                &&& handle matches Err(error) ==> r == Err::<usize, E>(error) && final(module).functions.functions()
                    == old(module).functions.functions()
                &&& handle matches Ok(base) ==> {
                    let known = old(module).functions.functions();
                    let after = final(module).functions.functions();
                    let args = meta.explicit_args_size_align@[k].1@;
                    &&& r is Ok
                    &&& r->Ok_0 == known.len()
                    &&& after.len() == known.len() + 1
                    &&& forall|i: int| 0 <= i < known.len() ==> #[trigger] after[i] == known[i]
                    &&& after.last().base == base
                    &&& after.last().name@ == name@
                    &&& after.last().sm_version == old(module).sm_version
                    &&& after.last().explicit_args_size_align is Some
                    &&& after.last().explicit_args_size_align->Some_0@.len() == args.len()
                    &&& forall|i: int|
                        0 <= i < args.len() ==> (
                        #[trigger] after.last().explicit_args_size_align->Some_0@[i]).size
                            == args[i].0
                    &&& forall|i: int|
                        0 <= i < args.len() ==> (
                        #[trigger] after.last().explicit_args_size_align->Some_0@[i]).align
                            == args[i].1
                }
            },
{
    let known = old(module).functions.functions();
    let after = final(module).functions.functions();
    assert(!has_function(known, name@));
    fresh_metadata_say_the_same(meta, kept);
    lemma_args_table(meta.explicit_args_size_align@);
    assert(is_last_entry(meta.explicit_args_size_align@, k));
    let (asked, handle) = choose|asked: Vec<u8>, handle: Result<usize, E>|
        {
            &&& asked@ == name@
            &&& #[trigger] resolve.ensures((old(module).base, asked), handle)
            &&& match handle {
                Err(error) => r == Err::<usize, E>(error) && after == known,
                Ok(base) => {
                    &&& r matches Ok(position) && position == known.len()
                    &&& after.len() == known.len() + 1
                    &&& after.drop_last() == known
                    &&& after.last().base == base
                    &&& after.last().sm_version == old(module).sm_version
                    &&& after.last().name@ == name@
                    &&& match (
                        after.last().explicit_args_size_align,
                        old(module).explicit_args(name@),
                    ) {
                        (Some(kept), Some(args)) => kept@ == args,
                        (None, None) => true,
                        _ => false,
                    }
                },
            }
        };
    assert(resolve.ensures((old(module).base, asked), handle));
    if handle is Ok {
        assert forall|i: int| 0 <= i < known.len() implies #[trigger] after[i] == known[i] by {
            assert(after.drop_last()[i] == after[i]);
        }
        let args = meta.explicit_args_size_align@[k].1@;
        let list = kept.explicit_args_size_align@[name@];
        assert(describes_args(list, args));
        assert(old(module).explicit_args(name@) == Some(list));
        let own = after.last().explicit_args_size_align->Some_0@;
        assert(own == list);
        assert forall|i: int| 0 <= i < args.len() implies (#[trigger] own[i]).size == args[i].0
            && own[i].align == args[i].1 by {
            assert(list[i].size == args[i].0);
        }
    }
}

/// A module that was loaded is what the device loaded: its handle, its version and its metadata, with
/// no function asked for yet. An image that cannot be recognised holds no binary.
pub proof fn loaded_module_is_what_was_loaded<I, H: FnOnce(I) -> Result<LoadedModule, CuError>>(
    image: Option<I>,
    load_library: H,
    r: Result<Module, CuError>,
)
    requires
        call_ensures(load_data::<I, H>, (image, load_library), r),
    ensures
        image is None ==> r is Err && r->Err_0 == CuError::NoBinaryForGpu,
        image matches Some(library) ==> exists|loaded: Result<LoadedModule, CuError>|
            {
                &&& #[trigger] load_library.ensures((library,), loaded)
                &&& loaded matches Err(error) ==> r is Err && r->Err_0 == error
                &&& loaded matches Ok(l) ==> {
                    &&& r is Ok
                    &&& r->Ok_0.base == l.base
                    &&& r->Ok_0.sm_version == l.sm_version
                    &&& r->Ok_0.bit32 == l.bit32
                    &&& r->Ok_0.functions.functions().len() == 0
                }
            },
{
}

/// The image of a file is its content, byte for byte, and a NUL byte.
pub proof fn image_is_the_content_of_the_file<
    I,
    F: FnOnce(String) -> Option<Vec<u8>>,
    G: FnOnce(Vec<u8>) -> Option<I>,
    H: FnOnce(I) -> Result<LoadedModule, CuError>,
>(path: Option<String>, read: F, recognise: G, load_library: H, r: Result<Module, CuError>)
    requires
        call_ensures(load::<I, F, G, H>, (path, read, recognise, load_library), r),
        r is Ok,
    ensures
        path is Some,
        exists|content: Vec<u8>, image: Vec<u8>, library: I|
            {
                &&& #[trigger] read.ensures((path->Some_0,), Some(content))
                &&& image@.len() == content@.len() + 1
                &&& image@[content@.len() as int] == 0
                &&& forall|i: int| 0 <= i < content@.len() ==> #[trigger] image@[i] == content@[i]
                &&& #[trigger] recognise.ensures((image,), Some(library))
            },
{
    let (image, library) = choose|image: Vec<u8>, library: Option<I>|
        {
            &&& is_image_at(read, path, image)
            &&& #[trigger] recognise.ensures((image,), library)
            &&& image_loaded(load_library, library, r)
        };
    let content = choose|content: Vec<u8>| #[trigger]
        read.ensures((path->Some_0,), Some(content)) && image@ == content@.push(0);
    assert(read.ensures((path->Some_0,), Some(content)));
    assert(recognise.ensures((image,), Some(library->Some_0)));
}

/// A function that was found before is found again without a change: the module stays as it is, and
/// the result is the place of a function of that name.
pub proof fn known_function_is_found_again<E, R: FnOnce(usize, Vec<u8>) -> Result<usize, E>>(
    module: &mut Module,
    name: &[u8],
    resolve: R,
    k: int,
    r: Result<usize, E>,
)
    requires
        call_ensures(Module::get_function::<E, R>, (module, name, resolve), r),
        0 <= k < old(module).functions.functions().len(),
        old(module).functions.functions()[k].name@ == name@,
        forall|i: int|
            0 <= i < old(module).functions.functions().len() && i != k ==> (
            #[trigger] old(module).functions.functions()[i]).name@ != name@,
    ensures
        r is Ok,
        r->Ok_0 == k,
        final(module).functions.functions() == old(module).functions.functions(),
        final(module).base == old(module).base,
        final(module).sm_version == old(module).sm_version,
        final(module).bit32 == old(module).bit32,
{
    assert(has_function(old(module).functions.functions(), name@));
    let found = r->Ok_0 as int;
    assert(old(module).functions.functions()[found].name@ == name@);
}

/// A module that is not of 32-bit code, or says nothing of a function, has no arguments for it.
pub proof fn undescribed_function_has_no_arguments<
    E,
    R: FnOnce(usize, Vec<u8>) -> Result<usize, E>,
>(module: &mut Module, name: &[u8], resolve: R, r: Result<usize, E>)
    requires
        call_ensures(Module::get_function::<E, R>, (module, name, resolve), r),
        old(module).bit32 is None,
        forall|i: int|
            0 <= i < old(module).functions.functions().len() ==> (
            #[trigger] old(module).functions.functions()[i]).name@ != name@,
        r is Ok,
    ensures
        final(module).functions.functions().len() == old(module).functions.functions().len() + 1,
        final(module).functions.functions().last().explicit_args_size_align is None,
        final(module).functions.functions().last().name@ == name@,
        exists|asked: Vec<u8>|
            asked@ == name@ && #[trigger] resolve.ensures(
                (old(module).base, asked),
                Ok(final(module).functions.functions().last().base),
            ),
{
    let known = old(module).functions.functions();
    assert(!has_function(known, name@));
}

/// The function at a position is the one that is kept there.
pub proof fn function_stands_at_its_position<'a>(
    table: &'a FunctionTable,
    position: usize,
    function: &'a Function,
)
    requires
        call_ensures(FunctionTable::function, (table, position), function),
    ensures
        *function == table.functions()[position as int],
{
}

/// Functions are loaded when they are asked for.
pub proof fn loading_is_lazy(mode: LoadingMode)
    requires
        call_ensures(get_loading_mode, (), mode),
    ensures
        mode is Lazy,
{
}

} // verus!
