//! From an image to a loaded module: the translation comes from the cache where it is there, and is
//! made and stored otherwise.
//!
//! The functions that wait and that are told things work on something outside. It is handed from one
//! call of them to the next and given back at the end, so that every call is made once: `from` and
//! `to` are what it was before and after.
use crate::cache::{
    attempts_come_to, attempts_gave, binary_of, found_in, insertion_ends_so, lookup_led, no_rows,
    opening_gave, removing_gave, storing_gave, touched, Lookup, ModuleCache, StoreError, ATTEMPTS,
};
use crate::cache_key::{
    blake3_hex, cumode_text, get_cache_key, legacy_key, lemma_recorded, recorded, CacheIdentity,
    ExtraCacheAttributes, ModuleKey,
};
use crate::clock::is_clock_time;
use crate::error::CuError;
use crate::metadata::{
    archived_module_reads_like_the_compiled_one, archived_names_without_nul, archives, keeps,
    is_stored_form, keeps_archived, lemma_keeping_the_stored, lemma_keeps_says_the_same,
    names_without_nul, says_the_same, ArchivedModuleMetadata32Bit, Metadata32Bit, ModuleMetadata32Bit,
};
use crate::ptx::{
    are_texts_of, best_of, best_ptx, collect_ptx, count_kernels_declared, empty_module, is_best,
    is_empty_module, kernels_declared, lemma_best_of, lemma_texts_of, may_parse, parsed_from, ptx_texts,
    texts_view, CodeModule, PtxModule,
};
use crate::target::{is_cumode, runs_in_cumode};
use crate::text::{decimal, lemma_decimal_value, replaced, text_of_bytes, u32_of_text};
use vstd::prelude::*;
use vstd::utf8::{decode_utf8, encode_utf8, valid_utf8};

verus! {

/// A cache and the key of the module that is being loaded.
pub struct KeyedCache<'a> {
    pub cache: ModuleCache,
    pub key: ModuleKey<'a>,
}

/// What an object that was compiled earlier says about itself.
pub struct StoredMetadata {
    pub sm_version: u32,
    pub metadata32: Option<ArchivedModuleMetadata32Bit>,
}

/// A translated module.
pub struct Translated {
    pub binary: Vec<u8>,
    pub sm_version: u32,
    pub metadata32: Option<Metadata32Bit>,
}

impl Translated {
    /// The metadata that are kept are in order.
    pub open spec fn wf(&self) -> bool {
        self.metadata32 matches Some(metadata) ==> metadata.wf()
    }
}

/// Something that is worth telling.
pub enum Report {
    /// Which PTX was picked: of how many texts, for which version, and how many of its directives
    /// were not recognised.
    Picked { texts: usize, sm_version: u32, invalid_directives: usize },
    /// The cached translation has no kernels in it, though the PTX declares this many.
    EmptyEntry(usize),
    /// The translation came out without kernels, though the PTX declares this many.
    EmptyTranslation(usize),
    /// The translation could not be written to the cache.
    NotStored(StoreError),
    /// The PTX could not be translated.
    NotTranslated(String),
    /// The translation could not be compiled.
    NotCompiled(String),
}

/// The entry that was made before CU mode was an attribute.
pub open spec fn legacy_identity(identity: CacheIdentity) -> CacheIdentity {
    CacheIdentity {
        backend_key: replaced(identity.backend_key, cumode_text(), Seq::empty()),
        ..identity
    }
}

/// Whether an entry can answer for a key: the entry of the key itself, and in CU mode also the one
/// from before CU mode was an attribute.
pub open spec fn answers_for(entry: CacheIdentity, key: CacheIdentity, cumode: bool) -> bool {
    entry == key || (cumode && entry == legacy_identity(key))
}

/// Whether the metadata that is kept are those that the object holds.
pub open spec fn same_metadata32(
    kept: Option<Metadata32Bit>,
    stored: Option<ArchivedModuleMetadata32Bit>,
) -> bool {
    match (kept, stored) {
        (Some(k), Some(s)) => k.wf() && keeps_archived(k, s),
        (None, None) => true,
        _ => false,
    }
}

/// Whether `count` finds that an object lacks the kernels that were asked for.
pub open spec fn found_empty<C: Fn(&Vec<u8>) -> Option<usize>>(
    count: C,
    object: Vec<u8>,
    kernels_wanted: usize,
) -> bool {
    kernels_wanted > 0 && count.ensures((&object,), Some(0usize))
}

/// Whether `count` finds no fault with an object. An object that it cannot read counts as good:
/// only a definite "no kernels" is evidence against it.
pub open spec fn found_good<C: Fn(&Vec<u8>) -> Option<usize>>(
    count: C,
    object: Vec<u8>,
    kernels_wanted: usize,
) -> bool {
    kernels_wanted > 0 ==> exists|kernels: Option<usize>| #[trigger]
        count.ensures((&object,), kernels) && kernels != Some(0usize)
}

/// Whether `r` is what an object that says `stored` about itself comes to.
pub open spec fn comes_to(
    object: Vec<u8>,
    stored: Option<StoredMetadata>,
    r: Option<Translated>,
) -> bool {
    match stored {
        Some(metadata) => r matches Some(found) && {
            &&& found.binary@ == object@
            &&& found.sm_version == metadata.sm_version
            &&& same_metadata32(found.metadata32, metadata.metadata32)
        },
        None => r is None,
    }
}

/// Whether `r` is what an object found in the cache comes to when it is not thrown out.
pub open spec fn read_back<V: Fn(&Vec<u8>) -> Option<StoredMetadata>>(
    read: V,
    object: Vec<u8>,
    r: Option<Translated>,
) -> bool {
    exists|stored: Option<StoredMetadata>|
        {
            &&& #[trigger] read.ensures((&object,), stored)
            &&& comes_to(object, stored, r)
        }
}

/// Whether `legacy` is the key of the entry from before CU mode was an attribute.
pub open spec fn is_legacy_of(legacy: ModuleKey, key: ModuleKey) -> bool {
    legacy.identity() == legacy_identity(key.identity()) && legacy.last_access == key.last_access
}

/// Whether the lookups of a module may end so, find this object under this key, and lead from
/// `before` to `after`. The entry of the key itself is looked up first, and after a miss in CU mode
/// the one from before CU mode was an attribute, where that is another entry.
pub open spec fn finding_led(
    before: ModuleCache,
    after: ModuleCache,
    key: ModuleKey,
    cumode: bool,
    first: Lookup,
    second: Option<Lookup>,
    found: Option<(ModuleKey, Vec<u8>)>,
) -> bool {
    if first is Found || !cumode || legacy_identity(key.identity()) == key.identity() {
        &&& lookup_led(before, after, &key, first)
        &&& second is None
        &&& found == match first {
            Lookup::Found(object) => Some((key, object)),
            _ => None,
        }
    } else {
        exists|missed: ModuleCache, legacy: ModuleKey|
            {
                &&& #[trigger] lookup_led(before, missed, &key, first)
                &&& #[trigger] is_legacy_of(legacy, key)
                &&& second matches Some(lookup)
                &&& lookup_led(missed, after, &legacy, lookup)
                &&& found == match lookup {
                    Lookup::Found(object) => Some((legacy, object)),
                    _ => None,
                }
            }
    }
}

/// Whether `r` is what an object found under the key `entry` comes to, and the cache went from
/// `before` to `after`. An object without the kernels that were asked for is thrown out, under the
/// key it was found under, so that it is not found again: `removed` is how the statement for that
/// ended.
pub open spec fn judged<
    O,
    C: Fn(&Vec<u8>) -> Option<usize>,
    V: Fn(&Vec<u8>) -> Option<StoredMetadata>,
    N: Fn(O, Report) -> O,
>(
    count: C,
    read: V,
    report: N,
    from: O,
    to: O,
    kernels_wanted: usize,
    entry: ModuleKey,
    object: Vec<u8>,
    before: ModuleCache,
    after: ModuleCache,
    removed: Option<bool>,
    r: Option<Translated>,
) -> bool {
    match removed {
        Some(done) => {
            &&& found_empty(count, object, kernels_wanted)
            &&& report.ensures((from, Report::EmptyEntry(kernels_wanted)), to)
            &&& removing_gave(before, after, &entry, done)
            &&& r is None
        },
        None => {
            &&& found_good(count, object, kernels_wanted)
            &&& read_back(read, object, r)
            &&& after == before
            &&& to == from
        },
    }
}

/// Whether `r` is what looking a module up in a cache comes to, when the lookups ended as `first` and
/// `second`, and the statement that throws an object out, where there was one, as `removed`. The
/// cache went from `before` to `after`.
pub open spec fn looked_up_so<
    O,
    C: Fn(&Vec<u8>) -> Option<usize>,
    V: Fn(&Vec<u8>) -> Option<StoredMetadata>,
    N: Fn(O, Report) -> O,
>(
    count: C,
    read: V,
    report: N,
    from: O,
    to: O,
    kernels_wanted: usize,
    cumode: bool,
    before: KeyedCache,
    after: KeyedCache,
    first: Lookup,
    second: Option<Lookup>,
    removed: Option<bool>,
    r: Option<Translated>,
) -> bool {
    &&& after.key == before.key
    &&& exists|searched: ModuleCache, found: Option<(ModuleKey, Vec<u8>)>|
        {
            &&& #[trigger] finding_led(
                before.cache,
                searched,
                before.key,
                cumode,
                first,
                second,
                found,
            )
            &&& match found {
                Some((entry, object)) => judged(
                    count,
                    read,
                    report,
                    from,
                    to,
                    kernels_wanted,
                    entry,
                    object,
                    searched,
                    after.cache,
                    removed,
                    r,
                ),
                None => removed is None && r is None && after.cache == searched && to == from,
            }
        }
}

/// Whether `r` is what looking a module up in a cache comes to, however its statements may have
/// ended, and the cache went from `before` to `after`.
pub open spec fn looked_up<
    O,
    C: Fn(&Vec<u8>) -> Option<usize>,
    V: Fn(&Vec<u8>) -> Option<StoredMetadata>,
    N: Fn(O, Report) -> O,
>(
    count: C,
    read: V,
    report: N,
    from: O,
    to: O,
    kernels_wanted: usize,
    cumode: bool,
    before: KeyedCache,
    after: KeyedCache,
    r: Option<Translated>,
) -> bool {
    exists|first: Lookup, second: Option<Lookup>, removed: Option<bool>| #[trigger]
        looked_up_so(
            count,
            read,
            report,
            from,
            to,
            kernels_wanted,
            cumode,
            before,
            after,
            first,
            second,
            removed,
            r,
        )
}

/// Whether `r` is what looking a module up comes to, where there is a cache at all.
pub open spec fn slot_load<
    O,
    C: Fn(&Vec<u8>) -> Option<usize>,
    V: Fn(&Vec<u8>) -> Option<StoredMetadata>,
    N: Fn(O, Report) -> O,
>(
    count: C,
    read: V,
    report: N,
    from: O,
    to: O,
    kernels_wanted: usize,
    cumode: bool,
    before: Option<KeyedCache>,
    after: Option<KeyedCache>,
    r: Option<Translated>,
) -> bool {
    match before {
        None => after is None && r is None && to == from,
        Some(b) => after matches Some(a) && looked_up(
            count,
            read,
            report,
            from,
            to,
            kernels_wanted,
            cumode,
            b,
            a,
            r,
        ),
    }
}

/// Whether a module may be looked up: an object may be read, its kernels counted where kernels are
/// asked for, and it may be told of one that has none of them.
pub open spec fn may_look_up<
    O,
    C: Fn(&Vec<u8>) -> Option<usize>,
    V: Fn(&Vec<u8>) -> Option<StoredMetadata>,
    N: Fn(O, Report) -> O,
>(count: C, read: V, report: N, kernels_wanted: usize) -> bool {
    &&& forall|bytes: &Vec<u8>| kernels_wanted > 0 ==> #[trigger] count.requires((bytes,))
    &&& forall|bytes: &Vec<u8>|
        found_good(count, *bytes, kernels_wanted) ==> #[trigger] read.requires((bytes,))
    &&& forall|bytes: &Vec<u8>, metadata: StoredMetadata, archived: ArchivedModuleMetadata32Bit|
        #[trigger] read.ensures((bytes,), Some(metadata)) && metadata.metadata32 == Some(archived)
            ==> #[trigger] archived_names_without_nul(archived.globals@)
    &&& forall|object: Vec<u8>, from: O| #[trigger]
        found_empty(count, object, kernels_wanted) ==> #[trigger] report.requires(
            (from, Report::EmptyEntry(kernels_wanted)),
        )
}

/// Whether an object has to be thrown out: kernels were asked for, and it is known to have none.
///
/// Only a definite "no kernels" counts. A count that could not be made is a statement about the
/// counting and not about the object.
pub fn lacks_kernels(kernels_wanted: usize, kernels: Option<usize>) -> (lacks: bool)
    ensures
        lacks == (kernels_wanted > 0 && kernels == Some(0usize)),
{
    kernels_wanted > 0 && match kernels {
        Some(n) => n == 0,
        None => false,
    }
}

/// What an object found in the cache comes to, by what it says about itself. An object that says
/// nothing is of no use.
pub fn translated_from(object: Vec<u8>, stored: Option<StoredMetadata>) -> (r: Option<Translated>)
    requires
        stored matches Some(metadata) ==> metadata.metadata32 matches Some(archived)
            ==> archived_names_without_nul(archived.globals@),
    ensures
        comes_to(object, stored, r),
{
    match stored {
        Some(metadata) => {
            let metadata32 = match &metadata.metadata32 {
                Some(archived) => Some(Metadata32Bit::from_archived(archived)),
                None => None,
            };
            let sm_version: u32 = metadata.sm_version;
            Some(Translated { binary: object, sm_version, metadata32 })
        },
        None => None,
    }
}

/// The object that two lookups found, and the key that it was found under. `first` is what the
/// lookup under `key` gave; `second` is the legacy key and what the lookup under it gave, where there
/// was one.
///
/// An object that has to be thrown out must be removed through the key it was found under: the two
/// keys name different entries.
pub fn found_entry<'a>(
    key: ModuleKey<'a>,
    first: Option<Vec<u8>>,
    second: Option<(ModuleKey<'a>, Option<Vec<u8>>)>,
) -> (found: Option<(ModuleKey<'a>, Vec<u8>)>)
    ensures
        found == match (first, second) {
            (Some(object), _) => Some((key, object)),
            (None, Some((legacy, Some(object)))) => Some((legacy, object)),
            _ => None,
        },
{
    match first {
        Some(object) => Some((key, object)),
        None => match second {
            Some((legacy, Some(object))) => Some((legacy, object)),
            _ => None,
        },
    }
}

/// Takes the translation of a module from the cache, where the cache has one that can be right.
///
/// `count` counts the kernels of an object, where it can read it. `read` reads what the object says
/// about itself.
pub fn load_cached_binary<
    'a,
    O,
    C: Fn(&Vec<u8>) -> Option<usize>,
    V: Fn(&Vec<u8>) -> Option<StoredMetadata>,
    N: Fn(O, Report) -> O,
>(
    cache_with_key: &mut Option<KeyedCache<'a>>,
    kernels_wanted: usize,
    cumode: bool,
    count: &C,
    read: &V,
    outside: O,
    report: &N,
) -> (end: (O, Option<Translated>))
    requires
        may_look_up(*count, *read, *report, kernels_wanted),
    ensures
        end.1 matches Some(found) ==> found.wf(),
        slot_load(
            *count,
            *read,
            *report,
            outside,
            end.0,
            kernels_wanted,
            cumode,
            *old(cache_with_key),
            *final(cache_with_key),
            end.1,
        ),
{
    match cache_with_key {
        None => (outside, None),
        Some(keyed) => {
            let ghost before = *keyed;
            let first = keyed.cache.get_module_binary(&keyed.key);
            let ghost missed = keyed.cache;
            let ghost lookup = choose|lookup: Lookup| #[trigger]
                lookup_led(before.cache, missed, &before.key, lookup) && first == binary_of(lookup);
            let ghost mut other: Option<Lookup> = None;
            let second = if first.is_none() {
                match legacy_key(&keyed.key, cumode) {
                    Some(legacy) => {
                        let binary = keyed.cache.get_module_binary(&legacy);
                        proof {
                            let end = choose|end: Lookup| #[trigger]
                                lookup_led(missed, keyed.cache, &legacy, end) && binary == binary_of(
                                    end,
                                );
                            other = Some(end);
                            assert(is_legacy_of(legacy, before.key));
                        }
                        Some((legacy, binary))
                    },
                    None => None,
                }
            } else {
                None
            };
            let found = found_entry(keyed.key.clone(), first, second);
            let ghost searched = keyed.cache;
            assert(finding_led(
                before.cache,
                searched,
                before.key,
                cumode,
                lookup,
                other,
                found,
            ));
            let (entry, object) = match found {
                Some(pair) => pair,
                None => {
                    assert(looked_up_so(
                        *count,
                        *read,
                        *report,
                        outside,
                        outside,
                        kernels_wanted,
                        cumode,
                        before,
                        *keyed,
                        lookup,
                        other,
                        None,
                        None,
                    ));
                    return (outside, None);
                },
            };
            if kernels_wanted > 0 && lacks_kernels(kernels_wanted, count(&object)) {
                assert(found_empty(*count, object, kernels_wanted));
                let told = report(outside, Report::EmptyEntry(kernels_wanted));
                let removed: bool = keyed.cache.remove_module(&entry);
                assert(looked_up_so(
                    *count,
                    *read,
                    *report,
                    outside,
                    told,
                    kernels_wanted,
                    cumode,
                    before,
                    *keyed,
                    lookup,
                    other,
                    Some(removed),
                    None,
                ));
                return (told, None);
            }
            let ghost bytes = object;
            assert(found_good(*count, object, kernels_wanted));
            let stored = read(&object);
            let r = translated_from(object, stored);
            assert(read_back(*read, bytes, r));
            assert(looked_up_so(
                *count,
                *read,
                *report,
                outside,
                outside,
                kernels_wanted,
                cumode,
                before,
                *keyed,
                lookup,
                other,
                None,
                r,
            ));
            (outside, r)
        },
    }
}

/// What a translation depends on besides the PTX.
#[derive(Clone, Copy, Debug)]
pub struct PtxAttributes {
    pub clock_rate: u32,
    pub cumode: bool,
    pub ignore_maxnreg: bool,
    pub num_vgpr_override: Option<u32>,
}

/// A module translated to intermediate code, which is of type `T`, and what is known about it.
pub struct Translation<T> {
    pub code: T,
    pub sm_version: u32,
    pub metadata32: Option<ModuleMetadata32Bit>,
}

/// The part of the attributes that the translation depends on.
pub open spec fn ptx_attributes(attributes: ExtraCacheAttributes) -> PtxAttributes {
    PtxAttributes {
        clock_rate: attributes.clock_rate,
        cumode: attributes.cumode,
        ignore_maxnreg: attributes.ignore_maxnreg,
        num_vgpr_override: attributes.num_vgpr_override,
    }
}

/// Whether the metadata that are kept are those of a translation.
pub open spec fn fresh_metadata32(
    kept: Option<Metadata32Bit>,
    metadata32: Option<ModuleMetadata32Bit>,
) -> bool {
    match (kept, metadata32) {
        (Some(k), Some(m)) => k.wf() && keeps(k, m),
        (None, None) => true,
        _ => false,
    }
}

/// Whether writing an object under a key may end so. That it could not be stored is told, with the
/// reason, and is no failure.
pub open spec fn stored<O, W: Fn(O, u64) -> O, N: Fn(O, Report) -> O>(
    pause: W,
    report: N,
    from: O,
    to: O,
    object: Seq<u8>,
    before: ModuleCache,
    after: ModuleCache,
    key: ModuleKey,
    outcome: Result<(), StoreError>,
) -> bool {
    exists|bytes: &[u8], written: O|
        {
            &&& bytes@ == object
            &&& #[trigger] storing_gave(pause, from, written, before, after, &key, bytes, outcome)
            &&& match outcome {
                Ok(_) => to == written,
                Err(error) => report.ensures((written, Report::NotStored(error)), to),
            }
        }
}

/// Whether an object was stored under the key of the cache, where there is a cache, and that key was
/// stamped with a time that the clock gave.
pub open spec fn slot_stored<O, W: Fn(O, u64) -> O, N: Fn(O, Report) -> O>(
    pause: W,
    report: N,
    from: O,
    to: O,
    object: Seq<u8>,
    before: Option<KeyedCache>,
    after: Option<KeyedCache>,
) -> bool {
    match (before, after) {
        (Some(b), Some(a)) => keyed_stored(pause, report, from, to, object, b, a),
        (None, None) => to == from,
        _ => false,
    }
}

/// Whether an object was stored under the key of the cache, stamped with a time that the clock gave.
pub open spec fn keyed_stored<O, W: Fn(O, u64) -> O, N: Fn(O, Report) -> O>(
    pause: W,
    report: N,
    from: O,
    to: O,
    object: Seq<u8>,
    before: KeyedCache,
    after: KeyedCache,
) -> bool {
    &&& after.key == (ModuleKey { last_access: after.key.last_access, ..before.key })
    &&& is_clock_time(after.key.last_access)
    &&& exists|outcome: Result<(), StoreError>| #[trigger]
        stored(pause, report, from, to, object, before.cache, after.cache, after.key, outcome)
}

/// Whether translating the module may give this.
pub open spec fn translating_gave<
    D,
    T,
    X: FnOnce(PtxModule<D>, PtxAttributes) -> Result<Translation<T>, String>,
>(
    translate: X,
    attributes: ExtraCacheAttributes,
    ast: PtxModule<D>,
    outcome: Result<Translation<T>, String>,
) -> bool {
    translate.ensures((ast, ptx_attributes(attributes)), outcome)
}

/// Whether compiling a translation of the module may give this. The number of parts that names the
/// cache entry is the one that governs code generation.
pub open spec fn compiling_gave<
    D,
    T,
    X: FnOnce(PtxModule<D>, PtxAttributes) -> Result<Translation<T>, String>,
    Y: FnOnce(&str, T, u32) -> Result<Vec<u8>, String>,
>(
    translate: X,
    compile: Y,
    gcn_arch: &str,
    attributes: ExtraCacheAttributes,
    ast: PtxModule<D>,
    translation: Translation<T>,
    outcome: Result<Vec<u8>, String>,
) -> bool {
    &&& translating_gave(translate, attributes, ast, Ok(translation))
    &&& compile.ensures((gcn_arch, translation.code, attributes.codegen_parts), outcome)
}

/// Whether `r` is what a compiled object comes to. An object without the kernels that were asked
/// for is refused, and not stored.
pub open spec fn finished<O, T, C: Fn(&Vec<u8>) -> Option<usize>, W: Fn(O, u64) -> O, N: Fn(O, Report) -> O>(
    count: C,
    pause: W,
    report: N,
    from: O,
    to: O,
    kernels_wanted: usize,
    translation: Translation<T>,
    object: Vec<u8>,
    before: Option<KeyedCache>,
    after: Option<KeyedCache>,
    r: Result<Translated, CuError>,
) -> bool {
    ||| {
        &&& found_empty(count, object, kernels_wanted)
        &&& report.ensures((from, Report::EmptyTranslation(kernels_wanted)), to)
        &&& r == Err::<Translated, CuError>(CuError::Unknown)
        &&& after == before
    }
    ||| {
        &&& found_good(count, object, kernels_wanted)
        &&& r matches Ok(translated)
        &&& translated.binary@ == object@
        &&& translated.sm_version == translation.sm_version
        &&& fresh_metadata32(translated.metadata32, translation.metadata32)
        &&& slot_stored(pause, report, from, to, object@, before, after)
    }
}

/// Whether `r` is what compiling a translation comes to.
pub open spec fn compiled<
    O,
    D,
    T,
    X: FnOnce(PtxModule<D>, PtxAttributes) -> Result<Translation<T>, String>,
    Y: FnOnce(&str, T, u32) -> Result<Vec<u8>, String>,
    C: Fn(&Vec<u8>) -> Option<usize>,
    W: Fn(O, u64) -> O,
    N: Fn(O, Report) -> O,
>(
    translate: X,
    compile: Y,
    count: C,
    pause: W,
    report: N,
    from: O,
    to: O,
    gcn_arch: &str,
    attributes: ExtraCacheAttributes,
    ast: PtxModule<D>,
    kernels_wanted: usize,
    translation: Translation<T>,
    before: Option<KeyedCache>,
    after: Option<KeyedCache>,
    r: Result<Translated, CuError>,
) -> bool {
    exists|outcome: Result<Vec<u8>, String>|
        {
            &&& #[trigger] compiling_gave(
                translate,
                compile,
                gcn_arch,
                attributes,
                ast,
                translation,
                outcome,
            )
            &&& match outcome {
                Err(message) => {
                    &&& report.ensures((from, Report::NotCompiled(message)), to)
                    &&& r == Err::<Translated, CuError>(CuError::Unknown)
                    &&& after == before
                },
                Ok(object) => finished(
                    count,
                    pause,
                    report,
                    from,
                    to,
                    kernels_wanted,
                    translation,
                    object,
                    before,
                    after,
                    r,
                ),
            }
        }
}

/// Whether `r` is what translating and compiling a module comes to.
pub open spec fn translated_and_compiled<
    O,
    D,
    T,
    X: FnOnce(PtxModule<D>, PtxAttributes) -> Result<Translation<T>, String>,
    Y: FnOnce(&str, T, u32) -> Result<Vec<u8>, String>,
    C: Fn(&Vec<u8>) -> Option<usize>,
    W: Fn(O, u64) -> O,
    N: Fn(O, Report) -> O,
>(
    translate: X,
    compile: Y,
    count: C,
    pause: W,
    report: N,
    from: O,
    to: O,
    gcn_arch: &str,
    attributes: ExtraCacheAttributes,
    ast: PtxModule<D>,
    kernels_wanted: usize,
    before: Option<KeyedCache>,
    after: Option<KeyedCache>,
    r: Result<Translated, CuError>,
) -> bool {
    exists|outcome: Result<Translation<T>, String>|
        {
            &&& #[trigger] translating_gave(translate, attributes, ast, outcome)
            &&& match outcome {
                Err(message) => {
                    &&& report.ensures((from, Report::NotTranslated(message)), to)
                    &&& r == Err::<Translated, CuError>(CuError::Unknown)
                    &&& after == before
                },
                Ok(translation) => compiled(
                    translate,
                    compile,
                    count,
                    pause,
                    report,
                    from,
                    to,
                    gcn_arch,
                    attributes,
                    ast,
                    kernels_wanted,
                    translation,
                    before,
                    after,
                    r,
                ),
            }
        }
}

/// Whether a module may be translated and compiled: each step after the one before it succeeded, and
/// nothing is told but what happened.
pub open spec fn may_compile<
    O,
    D,
    T,
    X: FnOnce(PtxModule<D>, PtxAttributes) -> Result<Translation<T>, String>,
    Y: FnOnce(&str, T, u32) -> Result<Vec<u8>, String>,
    C: Fn(&Vec<u8>) -> Option<usize>,
    W: Fn(O, u64) -> O,
    N: Fn(O, Report) -> O,
>(
    translate: X,
    compile: Y,
    count: C,
    pause: W,
    report: N,
    gcn_arch: &str,
    attributes: ExtraCacheAttributes,
    ast: PtxModule<D>,
    kernels_wanted: usize,
) -> bool {
    &&& translate.requires((ast, ptx_attributes(attributes)))
    &&& forall|translation: Translation<T>, metadata32: ModuleMetadata32Bit|
        #[trigger] translating_gave(translate, attributes, ast, Ok(translation))
            && translation.metadata32 == Some(metadata32) ==> #[trigger] names_without_nul(
            metadata32.globals@,
        )
    &&& forall|translation: Translation<T>| #[trigger]
        translating_gave(translate, attributes, ast, Ok(translation)) ==> compile.requires(
            (gcn_arch, translation.code, attributes.codegen_parts),
        )
    &&& forall|translation: Translation<T>, object: Vec<u8>| #[trigger]
        compiling_gave(
            translate,
            compile,
            gcn_arch,
            attributes,
            ast,
            translation,
            Ok(object),
        ) ==> may_finish(count, pause, report, kernels_wanted, object)
    &&& forall|message: String, from: O|
        translating_gave(translate, attributes, ast, Err::<Translation<T>, String>(message))
            ==> #[trigger] report.requires((from, Report::NotTranslated(message)))
    &&& forall|translation: Translation<T>, message: String, from: O| #[trigger]
        compiling_gave(
            translate,
            compile,
            gcn_arch,
            attributes,
            ast,
            translation,
            Err::<Vec<u8>, String>(message),
        ) ==> #[trigger] report.requires((from, Report::NotCompiled(message)))
}

/// Whether a compiled object may be looked at and stored.
pub open spec fn may_finish<O, C: Fn(&Vec<u8>) -> Option<usize>, W: Fn(O, u64) -> O, N: Fn(O, Report) -> O>(
    count: C,
    pause: W,
    report: N,
    kernels_wanted: usize,
    object: Vec<u8>,
) -> bool {
    &&& kernels_wanted > 0 ==> count.requires((&object,))
    &&& found_empty(count, object, kernels_wanted) ==> forall|from: O| #[trigger]
        report.requires((from, Report::EmptyTranslation(kernels_wanted)))
    &&& found_good(count, object, kernels_wanted) ==> forall|from: O, k: u64|
        k < ATTEMPTS - 1 ==> #[trigger] pause.requires((from, 1u64 << k))
    &&& found_good(count, object, kernels_wanted) ==> forall|
        database: Seq<char>,
        key: &ModuleKey,
        bytes: &[u8],
        error: StoreError,
        from: O,
    |
        #[trigger] insertion_ends_so(database, key, bytes, Err::<(), StoreError>(error)) && bytes@
            == object@ ==> #[trigger] report.requires((from, Report::NotStored(error)))
}

/// What an insertion that failed says of its last attempt.
proof fn lemma_failed_insertion<O, W: Fn(O, u64) -> O>(
    pause: W,
    from: O,
    to: O,
    before: ModuleCache,
    after: ModuleCache,
    key: &ModuleKey,
    bytes: &[u8],
    error: StoreError,
)
    requires
        storing_gave(pause, from, to, before, after, key, bytes, Err::<(), StoreError>(error)),
    ensures
        insertion_ends_so(before.database(), key, bytes, Err::<(), StoreError>(error)),
{
    let outcomes = choose|outcomes: Seq<Result<(), StoreError>>| #[trigger]
        attempts_gave(before.0, key, bytes, outcomes) && attempts_come_to(
            outcomes,
            Err::<(), StoreError>(error),
        );
    assert(outcomes[outcomes.len() - 1] == outcomes.last());
}

/// Translates and compiles a module, and stores the object in the cache.
///
/// `translate` turns PTX into intermediate code, `compile` turns that into an object, cutting it into
/// a number of parts, and `pause` waits for a number of milliseconds when the cache is busy. The
/// number of parts that names the cache entry is the one that governs code generation.
pub fn compile_and_cache<
    'a,
    O,
    D,
    T,
    X: FnOnce(PtxModule<D>, PtxAttributes) -> Result<Translation<T>, String>,
    Y: FnOnce(&str, T, u32) -> Result<Vec<u8>, String>,
    C: Fn(&Vec<u8>) -> Option<usize>,
    W: Fn(O, u64) -> O,
    N: Fn(O, Report) -> O,
>(
    gcn_arch: &str,
    attributes: ExtraCacheAttributes,
    ast: PtxModule<D>,
    kernels_wanted: usize,
    cache_with_key: &mut Option<KeyedCache<'a>>,
    translate: X,
    compile: Y,
    count: &C,
    outside: O,
    pause: W,
    report: &N,
) -> (end: (O, Result<Translated, CuError>))
    requires
        may_compile(
            translate,
            compile,
            *count,
            pause,
            *report,
            gcn_arch,
            attributes,
            ast,
            kernels_wanted,
        ),
    ensures
        end.1 matches Ok(translated) ==> translated.wf(),
        translated_and_compiled(
            translate,
            compile,
            *count,
            pause,
            *report,
            outside,
            end.0,
            gcn_arch,
            attributes,
            ast,
            kernels_wanted,
            *old(cache_with_key),
            *final(cache_with_key),
            end.1,
        ),
{
    let wanted = PtxAttributes {
        clock_rate: attributes.clock_rate,
        cumode: attributes.cumode,
        ignore_maxnreg: attributes.ignore_maxnreg,
        num_vgpr_override: attributes.num_vgpr_override,
    };
    let ghost before = *cache_with_key;
    let outcome = translate(ast, wanted);
    assert(translating_gave(translate, attributes, ast, outcome));
    let translation = match outcome {
        Ok(translation) => translation,
        Err(message) => {
            let told = report(outside, Report::NotTranslated(message));
            return (told, Err(CuError::Unknown));
        },
    };
    let ghost whole = translation;
    let sm_version: u32 = translation.sm_version;
    let metadata32 = match &translation.metadata32 {
        Some(metadata) => Some(Metadata32Bit::new(metadata)),
        None => None,
    };
    let outcome = compile(gcn_arch, translation.code, attributes.codegen_parts);
    assert(compiling_gave(translate, compile, gcn_arch, attributes, ast, whole, outcome));
    let object = match outcome {
        Ok(object) => object,
        Err(message) => {
            let told = report(outside, Report::NotCompiled(message));
            return (told, Err(CuError::Unknown));
        },
    };
    assert(may_finish(*count, pause, *report, kernels_wanted, object));
    if kernels_wanted > 0 && lacks_kernels(kernels_wanted, count(&object)) {
        assert(found_empty(*count, object, kernels_wanted));
        let told = report(outside, Report::EmptyTranslation(kernels_wanted));
        return (told, Err(CuError::Unknown));
    }
    assert(found_good(*count, object, kernels_wanted));
    let told = match cache_with_key {
        None => outside,
        Some(keyed) => {
            keyed.key.last_access = ModuleCache::time_now();
            let ghost start = keyed.cache;
            let bytes = object.as_slice();
            let (written, outcome) = keyed.cache.insert_module(
                &keyed.key,
                bytes,
                outside,
                pause,
            );
            let ghost ended = outcome;
            assert(storing_gave(
                pause,
                outside,
                written,
                start,
                keyed.cache,
                &keyed.key,
                bytes,
                outcome,
            ));
            let told = match outcome {
                Ok(_) => written,
                Err(error) => {
                    proof {
                        lemma_failed_insertion(
                            pause,
                            outside,
                            written,
                            start,
                            keyed.cache,
                            &keyed.key,
                            bytes,
                            error,
                        );
                    }
                    report(written, Report::NotStored(error))
                },
            };
            assert(stored(
                pause,
                *report,
                outside,
                told,
                object@,
                start,
                keyed.cache,
                keyed.key,
                ended,
            ));
            told
        },
    };
    let translated = Translated { binary: object, sm_version, metadata32 };
    assert(slot_stored(pause, *report, outside, told, object@, before, *cache_with_key));
    (told, Ok(translated))
}

/// What is read off a device.
pub struct Device {
    /// In kilohertz.
    pub clock_rate: i32,
    /// The name of the architecture, up to the first NUL byte.
    pub gcn_arch_name: Vec<u8>,
}

/// The bytes before the first NUL byte.
pub open spec fn up_to_nul(bytes: Seq<u8>) -> Seq<u8>
    decreases bytes.len(),
{
    if bytes.len() == 0 || bytes[0] == 0 {
        Seq::empty()
    } else {
        seq![bytes[0]] + up_to_nul(bytes.drop_first())
    }
}

/// Where the first NUL byte is.
proof fn lemma_up_to_nul(bytes: Seq<u8>, n: int)
    requires
        0 <= n < bytes.len(),
        bytes[n] == 0,
        forall|i: int| 0 <= i < n ==> bytes[i] != 0,
    ensures
        up_to_nul(bytes) == bytes.take(n),
    decreases n,
{
    if n > 0 {
        lemma_up_to_nul(bytes.drop_first(), n - 1);
        assert(bytes.take(n) =~= seq![bytes[0]] + bytes.drop_first().take(n - 1));
    } else {
        assert(bytes.take(0) =~= Seq::<u8>::empty());
    }
}

/// The name of the architecture of a device. A name that is no valid text is not accepted.
pub fn get_gcn_arch(device: &Device) -> (arch: Result<String, CuError>)
    requires
        device.gcn_arch_name@.contains(0),
    ensures
        match arch {
            Ok(name) => valid_utf8(up_to_nul(device.gcn_arch_name@)) && name@ == decode_utf8(
                up_to_nul(device.gcn_arch_name@),
            ),
            Err(error) => !valid_utf8(up_to_nul(device.gcn_arch_name@)) && error
                == CuError::Unknown,
        },
{
    let name = &device.gcn_arch_name;
    let mut bytes: Vec<u8> = Vec::new();
    let length: usize = name.len();
    let mut i: usize = 0;
    while name[i] != 0
        invariant
            name@.contains(0),
            length == name@.len(),
            i < length,
            bytes@ == name@.take(i as int),
            forall|k: int| 0 <= k < i ==> name@[k] != 0,
        decreases name@.len() - i,
    {
        bytes.push(name[i]);
        proof {
            let nul = choose|k: int| 0 <= k < name@.len() && name@[k] == 0;
            assert(i < nul);
        }
        i += 1;
        assert(bytes@ =~= name@.take(i as int));
    }
    proof {
        lemma_up_to_nul(name@, i as int);
    }
    match text_of_bytes(bytes) {
        Some(text) => Ok(text),
        None => Err(CuError::Unknown),
    }
}

/// Whether `key` is the key for a translation of `text`.
pub open spec fn is_key_of(
    key: ModuleKey,
    text: Seq<char>,
    isa: Seq<char>,
    attributes: ExtraCacheAttributes,
    zluda_version: Seq<char>,
) -> bool {
    &&& key.hash@ == blake3_hex(encode_utf8(text))
    &&& key.compiler_version@ == "builtin"@
    &&& key.zluda_version@ == zluda_version
    &&& key.device@ == isa
    &&& key.backend_key@ == attributes.text()
    &&& is_clock_time(key.last_access)
}

/// Whether `keyed` is the cache `opened` with the key for a translation of `text`.
pub open spec fn is_keyed(
    keyed: Option<KeyedCache>,
    opened: Option<ModuleCache>,
    text: Seq<char>,
    isa: Seq<char>,
    attributes: ExtraCacheAttributes,
    zluda_version: Seq<char>,
) -> bool {
    match opened {
        Some(cache) => keyed matches Some(k) && {
            &&& k.cache == cache
            &&& is_key_of(k.key, text, isa, attributes, zluda_version)
        },
        None => keyed is None,
    }
}

/// Whether `keyed` is the cache for a translation of `text`. There is none without a text or
/// without a path; with both there is one if the cache could be opened.
pub open spec fn is_cache_for(
    keyed: Option<KeyedCache>,
    text: Option<Seq<char>>,
    cache_path: Option<&str>,
    isa: Seq<char>,
    attributes: ExtraCacheAttributes,
    zluda_version: Seq<char>,
) -> bool {
    match (text, cache_path) {
        (Some(t), Some(path)) => {
            &&& exists|opened: Option<ModuleCache>|
                {
                    &&& #[trigger] opening_gave(path, opened)
                    &&& is_keyed(keyed, opened, t, isa, attributes, zluda_version)
                }
            &&& keyed matches Some(k) ==> k.cache.patience() == 5000
            &&& keyed matches Some(k) ==> path@ == ":memory:"@ ==> k.cache.private()
                && k.cache.rows() == no_rows()
        },
        _ => keyed is None,
    }
}

/// A cache together with the key for a translation of `text`, where the cache could be opened.
pub fn keyed_cache<'a>(
    opened: Option<ModuleCache>,
    text: &str,
    isa: &'a str,
    attributes: &ExtraCacheAttributes,
    zluda_version: &'a str,
) -> (keyed: Option<KeyedCache<'a>>)
    ensures
        is_keyed(keyed, opened, text@, isa@, *attributes, zluda_version@),
{
    match opened {
        Some(cache) => match get_cache_key(isa, text, attributes, zluda_version) {
            Some(key) => Some(KeyedCache { cache, key }),
            None => None,
        },
        None => None,
    }
}

/// Opens the cache and makes the key for a translation of `text`.
pub fn open_cache<'a>(
    text: Option<&str>,
    cache_path: Option<&str>,
    isa: &'a str,
    attributes: &ExtraCacheAttributes,
    zluda_version: &'a str,
) -> (opened: Option<KeyedCache<'a>>)
    ensures
        is_cache_for(
            opened,
            match text {
                Some(t) => Some(t@),
                None => None,
            },
            cache_path,
            isa@,
            *attributes,
            zluda_version@,
        ),
{
    match (text, cache_path) {
        (Some(text), Some(path)) => keyed_cache(
            ModuleCache::open(path),
            text,
            isa,
            attributes,
            zluda_version,
        ),
        _ => None,
    }
}

/// What loading a module depends on besides the image and the device.
pub struct LoadSettings<'a> {
    pub is_debug: bool,
    /// Where the cache is, if there is one.
    pub cache_path: Option<&'a str>,
    /// What identifies the compiler.
    pub zluda_version: &'a str,
    pub codegen_parts: u32,
    /// Whether CU mode was chosen, if a mode was.
    pub cumode: Option<bool>,
    /// The value of `ZLUDA_IGNORE_MAXNREG`.
    pub ignore_maxnreg: Option<&'a str>,
    /// The value of `ZLUDA_NUM_VGPR`.
    pub num_vgpr: Option<&'a str>,
}

impl<'a> LoadSettings<'a> {
    /// The attributes of a translation for a device.
    pub open spec fn attributes(&self, clock_rate: i32, arch: Seq<char>) -> ExtraCacheAttributes {
        ExtraCacheAttributes {
            is_debug: self.is_debug,
            clock_rate: clock_rate as u32,
            cumode: runs_in_cumode(arch, self.cumode),
            ignore_maxnreg: self.ignore_maxnreg matches Some(value) && value@ == "1"@,
            num_vgpr_override: match self.num_vgpr {
                Some(value) => u32_of_text(value@),
                None => None,
            },
            codegen_parts: self.codegen_parts,
        }
    }
}

/// A module that the device has loaded.
pub struct LoadedModule {
    /// The handle that the driver knows the module by.
    pub base: usize,
    pub sm_version: u32,
    pub bit32: Option<Metadata32Bit>,
}

impl LoadedModule {
    /// The metadata that are kept are in order.
    pub open spec fn wf(&self) -> bool {
        self.bit32 matches Some(metadata) ==> metadata.wf()
    }
}

/// Whether `r` is what a module comes to after its lookup in the cache: what was found, with the cache
/// as it is, or what compiling it comes to.
pub open spec fn found_or_compiled<
    O,
    D,
    T,
    X: FnOnce(PtxModule<D>, PtxAttributes) -> Result<Translation<T>, String>,
    Y: FnOnce(&str, T, u32) -> Result<Vec<u8>, String>,
    C: Fn(&Vec<u8>) -> Option<usize>,
    W: Fn(O, u64) -> O,
    N: Fn(O, Report) -> O,
>(
    translate: X,
    compile: Y,
    count: C,
    pause: W,
    report: N,
    from: O,
    to: O,
    arch: &str,
    attributes: ExtraCacheAttributes,
    module: PtxModule<D>,
    kernels_wanted: usize,
    cached: Option<Translated>,
    cache: Option<KeyedCache>,
    after: Option<KeyedCache>,
    r: Result<Translated, CuError>,
) -> bool {
    match cached {
        Some(found) => r == Ok::<Translated, CuError>(found) && after == cache && to == from,
        None => translated_and_compiled(
            translate,
            compile,
            count,
            pause,
            report,
            from,
            to,
            arch,
            attributes,
            module,
            kernels_wanted,
            cache,
            after,
            r,
        ),
    }
}

/// Whether the translation of `module` was taken from the cache `before` or made, `r` is what it came
/// to, and the cache is `after` then.
pub open spec fn found_or_made<
    O,
    D,
    T,
    X: FnOnce(PtxModule<D>, PtxAttributes) -> Result<Translation<T>, String>,
    Y: FnOnce(&str, T, u32) -> Result<Vec<u8>, String>,
    C: Fn(&Vec<u8>) -> Option<usize>,
    V: Fn(&Vec<u8>) -> Option<StoredMetadata>,
    W: Fn(O, u64) -> O,
    N: Fn(O, Report) -> O,
>(
    translate: X,
    compile: Y,
    count: C,
    read: V,
    pause: W,
    report: N,
    from: O,
    to: O,
    module: PtxModule<D>,
    arch: &str,
    attributes: ExtraCacheAttributes,
    kernels_wanted: usize,
    before: Option<KeyedCache>,
    after: Option<KeyedCache>,
    r: Result<Translated, CuError>,
) -> bool {
    exists|looked_up: Option<KeyedCache>, cached: Option<Translated>, told: O|
        {
            &&& #[trigger] slot_load(
                count,
                read,
                report,
                from,
                told,
                kernels_wanted,
                attributes.cumode,
                before,
                looked_up,
                cached,
            )
            &&& found_or_compiled(
                translate,
                compile,
                count,
                pause,
                report,
                told,
                to,
                arch,
                attributes,
                module,
                kernels_wanted,
                cached,
                looked_up,
                after,
                r,
            )
        }
}

/// Whether the translation of `module` was taken from the cache of its text or made, and `r` is what
/// it came to.
pub open spec fn provided<
    O,
    D,
    T,
    X: FnOnce(PtxModule<D>, PtxAttributes) -> Result<Translation<T>, String>,
    Y: FnOnce(&str, T, u32) -> Result<Vec<u8>, String>,
    C: Fn(&Vec<u8>) -> Option<usize>,
    V: Fn(&Vec<u8>) -> Option<StoredMetadata>,
    W: Fn(O, u64) -> O,
    N: Fn(O, Report) -> O,
>(
    translate: X,
    compile: Y,
    count: C,
    read: V,
    pause: W,
    report: N,
    from: O,
    to: O,
    text: Option<Seq<char>>,
    module: PtxModule<D>,
    settings: LoadSettings,
    arch: &str,
    attributes: ExtraCacheAttributes,
    r: Result<Translated, CuError>,
) -> bool {
    exists|opened: Option<KeyedCache>, after: Option<KeyedCache>|
        {
            &&& is_cache_for(
                opened,
                text,
                settings.cache_path,
                arch@,
                attributes,
                settings.zluda_version@,
            )
            &&& #[trigger] found_or_made(
                translate,
                compile,
                count,
                read,
                pause,
                report,
                from,
                to,
                module,
                arch,
                attributes,
                kernels_declared(module.directives@) as usize,
                opened,
                after,
                r,
            )
        }
}

/// Whether the translation of `module` may be taken from the cache `before`, and made after a miss.
/// After a hit nothing is translated, compiled or stored.
pub open spec fn may_find_or_make<
    O,
    D,
    T,
    X: FnOnce(PtxModule<D>, PtxAttributes) -> Result<Translation<T>, String>,
    Y: FnOnce(&str, T, u32) -> Result<Vec<u8>, String>,
    C: Fn(&Vec<u8>) -> Option<usize>,
    V: Fn(&Vec<u8>) -> Option<StoredMetadata>,
    W: Fn(O, u64) -> O,
    N: Fn(O, Report) -> O,
>(
    translate: X,
    compile: Y,
    count: C,
    read: V,
    pause: W,
    report: N,
    module: PtxModule<D>,
    arch: &str,
    attributes: ExtraCacheAttributes,
    kernels_wanted: usize,
    before: Option<KeyedCache>,
) -> bool {
    &&& may_look_up(count, read, report, kernels_wanted)
    &&& forall|looked_up: Option<KeyedCache>, from: O, to: O| #[trigger]
        slot_load(
            count,
            read,
            report,
            from,
            to,
            kernels_wanted,
            attributes.cumode,
            before,
            looked_up,
            None,
        ) ==> may_compile(
            translate,
            compile,
            count,
            pause,
            report,
            arch,
            attributes,
            module,
            kernels_wanted,
        )
}

/// Whether the translation of `module` may be taken from the cache of its text, and made after a
/// miss.
pub open spec fn may_provide<
    O,
    D,
    T,
    X: FnOnce(PtxModule<D>, PtxAttributes) -> Result<Translation<T>, String>,
    Y: FnOnce(&str, T, u32) -> Result<Vec<u8>, String>,
    C: Fn(&Vec<u8>) -> Option<usize>,
    V: Fn(&Vec<u8>) -> Option<StoredMetadata>,
    W: Fn(O, u64) -> O,
    N: Fn(O, Report) -> O,
>(
    translate: X,
    compile: Y,
    count: C,
    read: V,
    pause: W,
    report: N,
    text: Option<Seq<char>>,
    module: PtxModule<D>,
    settings: LoadSettings,
    arch: &str,
    attributes: ExtraCacheAttributes,
) -> bool {
    forall|opened: Option<KeyedCache>| #[trigger]
        is_cache_for(
            opened,
            text,
            settings.cache_path,
            arch@,
            attributes,
            settings.zluda_version@,
        ) ==> may_find_or_make(
            translate,
            compile,
            count,
            read,
            pause,
            report,
            module,
            arch,
            attributes,
            kernels_declared(module.directives@) as usize,
            opened,
        )
}

/// The characters of a text, where there is one.
pub open spec fn text_view(text: Option<&str>) -> Option<Seq<char>> {
    match text {
        Some(t) => Some(t@),
        None => None,
    }
}

/// Takes the translation of `module` from the cache, or makes it and stores it there.
pub fn find_or_make<
    'a,
    O,
    D,
    T,
    X: FnOnce(PtxModule<D>, PtxAttributes) -> Result<Translation<T>, String>,
    Y: FnOnce(&str, T, u32) -> Result<Vec<u8>, String>,
    C: Fn(&Vec<u8>) -> Option<usize>,
    V: Fn(&Vec<u8>) -> Option<StoredMetadata>,
    W: Fn(O, u64) -> O,
    N: Fn(O, Report) -> O,
>(
    cache_with_key: &mut Option<KeyedCache<'a>>,
    module: PtxModule<D>,
    kernels_wanted: usize,
    arch: &str,
    attributes: ExtraCacheAttributes,
    translate: X,
    compile: Y,
    count: &C,
    read: &V,
    outside: O,
    pause: W,
    report: &N,
) -> (end: (O, Result<Translated, CuError>))
    requires
        may_find_or_make(
            translate,
            compile,
            *count,
            *read,
            pause,
            *report,
            module,
            arch,
            attributes,
            kernels_wanted,
            *old(cache_with_key),
        ),
    ensures
        end.1 matches Ok(translated) ==> translated.wf(),
        found_or_made(
            translate,
            compile,
            *count,
            *read,
            pause,
            *report,
            outside,
            end.0,
            module,
            arch,
            attributes,
            kernels_wanted,
            *old(cache_with_key),
            *final(cache_with_key),
            end.1,
        ),
{
    let ghost before = *cache_with_key;
    let (told, cached) = load_cached_binary(
        cache_with_key,
        kernels_wanted,
        attributes.cumode,
        count,
        read,
        outside,
        report,
    );
    assert(slot_load(
        *count,
        *read,
        *report,
        outside,
        told,
        kernels_wanted,
        attributes.cumode,
        before,
        *cache_with_key,
        cached,
    ));
    match cached {
        Some(found) => (told, Ok(found)),
        None => compile_and_cache(
            arch,
            attributes,
            module,
            kernels_wanted,
            cache_with_key,
            translate,
            compile,
            count,
            told,
            pause,
            report,
        ),
    }
}

/// Takes the translation of `module` from the cache of its text, or makes it.
pub fn provide<
    O,
    D,
    T,
    X: FnOnce(PtxModule<D>, PtxAttributes) -> Result<Translation<T>, String>,
    Y: FnOnce(&str, T, u32) -> Result<Vec<u8>, String>,
    C: Fn(&Vec<u8>) -> Option<usize>,
    V: Fn(&Vec<u8>) -> Option<StoredMetadata>,
    W: Fn(O, u64) -> O,
    N: Fn(O, Report) -> O,
>(
    text: Option<&str>,
    module: PtxModule<D>,
    settings: &LoadSettings,
    arch: &str,
    attributes: ExtraCacheAttributes,
    translate: X,
    compile: Y,
    count: &C,
    read: &V,
    outside: O,
    pause: W,
    report: &N,
) -> (end: (O, Result<Translated, CuError>))
    requires
        may_provide(
            translate,
            compile,
            *count,
            *read,
            pause,
            *report,
            text_view(text),
            module,
            *settings,
            arch,
            attributes,
        ),
    ensures
        end.1 matches Ok(translated) ==> translated.wf(),
        provided(
            translate,
            compile,
            *count,
            *read,
            pause,
            *report,
            outside,
            end.0,
            text_view(text),
            module,
            *settings,
            arch,
            attributes,
            end.1,
        ),
{
    let kernels_wanted: usize = count_kernels_declared(&module);
    let mut cache_with_key = open_cache(
        text,
        settings.cache_path,
        arch,
        &attributes,
        settings.zluda_version,
    );
    assert(is_cache_for(
        cache_with_key,
        text_view(text),
        settings.cache_path,
        arch@,
        attributes,
        settings.zluda_version@,
    ));
    find_or_make(
        &mut cache_with_key,
        module,
        kernels_wanted,
        arch,
        attributes,
        translate,
        compile,
        count,
        read,
        outside,
        pause,
        report,
    )
}

/// Whether `arch` is the name of the architecture of a device.
pub open spec fn is_arch_of(arch: &str, device: Device) -> bool {
    &&& valid_utf8(up_to_nul(device.gcn_arch_name@))
    &&& arch@ == decode_utf8(up_to_nul(device.gcn_arch_name@))
}

/// Whether `r` is what an image comes to on a device when `module` was picked from it.
pub open spec fn loaded_on<
    O,
    D,
    T,
    X: FnOnce(PtxModule<D>, PtxAttributes) -> Result<Translation<T>, String>,
    Y: FnOnce(&str, T, u32) -> Result<Vec<u8>, String>,
    C: Fn(&Vec<u8>) -> Option<usize>,
    V: Fn(&Vec<u8>) -> Option<StoredMetadata>,
    L: FnOnce(&Vec<u8>) -> Result<usize, CuError>,
    W: Fn(O, u64) -> O,
    N: Fn(O, Report) -> O,
>(
    translate: X,
    compile: Y,
    count: C,
    read: V,
    load: L,
    pause: W,
    report: N,
    from: O,
    to: O,
    text: Option<Seq<char>>,
    module: PtxModule<D>,
    settings: LoadSettings,
    device: Device,
    r: Result<LoadedModule, CuError>,
) -> bool {
    exists|arch: &str, translated: Result<Translated, CuError>|
        {
            &&& is_arch_of(arch, device)
            &&& #[trigger] provided(
                translate,
                compile,
                count,
                read,
                pause,
                report,
                from,
                to,
                text,
                module,
                settings,
                arch,
                settings.attributes(device.clock_rate, arch@),
                translated,
            )
            &&& match translated {
                Err(error) => r == Err::<LoadedModule, CuError>(error),
                Ok(object) => exists|handle: Result<usize, CuError>|
                    {
                        &&& #[trigger] load.ensures((&object.binary,), handle)
                        &&& match handle {
                            Err(error) => r == Err::<LoadedModule, CuError>(error),
                            Ok(base) => r matches Ok(module) && {
                                &&& module.base == base
                                &&& module.sm_version == object.sm_version
                                &&& module.bit32 == object.metadata32
                            },
                        }
                    },
            }
        }
}

/// Whether it was told which module was picked, and `r` is what the image comes to then.
pub open spec fn loaded<
    O,
    D,
    T,
    Q: FnOnce() -> Result<Device, CuError>,
    X: FnOnce(PtxModule<D>, PtxAttributes) -> Result<Translation<T>, String>,
    Y: FnOnce(&str, T, u32) -> Result<Vec<u8>, String>,
    C: Fn(&Vec<u8>) -> Option<usize>,
    V: Fn(&Vec<u8>) -> Option<StoredMetadata>,
    L: FnOnce(&Vec<u8>) -> Result<usize, CuError>,
    W: Fn(O, u64) -> O,
    N: Fn(O, Report) -> O,
>(
    properties: Q,
    translate: X,
    compile: Y,
    count: C,
    read: V,
    load: L,
    pause: W,
    report: N,
    from: O,
    to: O,
    texts: usize,
    text: Option<Seq<char>>,
    module: PtxModule<D>,
    settings: LoadSettings,
    r: Result<LoadedModule, CuError>,
) -> bool {
    exists|told: O, device: Result<Device, CuError>|
        {
            &&& report.ensures((from, picking_report(texts, module)), told)
            &&& #[trigger] properties.ensures((), device)
            &&& #[trigger] loaded_by(
                translate,
                compile,
                count,
                read,
                load,
                pause,
                report,
                told,
                to,
                text,
                module,
                settings,
                device,
                r,
            )
        }
}

/// Whether `r` is what an image comes to when `module` was picked from it and asking for the device
/// gave this.
pub open spec fn loaded_by<
    O,
    D,
    T,
    X: FnOnce(PtxModule<D>, PtxAttributes) -> Result<Translation<T>, String>,
    Y: FnOnce(&str, T, u32) -> Result<Vec<u8>, String>,
    C: Fn(&Vec<u8>) -> Option<usize>,
    V: Fn(&Vec<u8>) -> Option<StoredMetadata>,
    L: FnOnce(&Vec<u8>) -> Result<usize, CuError>,
    W: Fn(O, u64) -> O,
    N: Fn(O, Report) -> O,
>(
    translate: X,
    compile: Y,
    count: C,
    read: V,
    load: L,
    pause: W,
    report: N,
    from: O,
    to: O,
    text: Option<Seq<char>>,
    module: PtxModule<D>,
    settings: LoadSettings,
    device: Result<Device, CuError>,
    r: Result<LoadedModule, CuError>,
) -> bool {
    match device {
        Err(error) => r == Err::<LoadedModule, CuError>(error) && to == from,
        Ok(device) => if valid_utf8(up_to_nul(device.gcn_arch_name@)) {
            loaded_on(
                translate,
                compile,
                count,
                read,
                load,
                pause,
                report,
                from,
                to,
                text,
                module,
                settings,
                device,
                r,
            )
        } else {
            r == Err::<LoadedModule, CuError>(CuError::Unknown) && to == from
        },
    }
}

/// What is told about the module that was picked out of a number of texts.
pub open spec fn picking_report<D>(texts: usize, module: PtxModule<D>) -> Report {
    Report::Picked {
        texts,
        sm_version: module.sm_version,
        invalid_directives: module.invalid_directives,
    }
}

/// Whether the picked module may be translated for the architecture `arch` of a device, and what
/// comes of that may be loaded.
pub open spec fn may_load_on<
    O,
    D,
    T,
    X: FnOnce(PtxModule<D>, PtxAttributes) -> Result<Translation<T>, String>,
    Y: FnOnce(&str, T, u32) -> Result<Vec<u8>, String>,
    C: Fn(&Vec<u8>) -> Option<usize>,
    V: Fn(&Vec<u8>) -> Option<StoredMetadata>,
    L: FnOnce(&Vec<u8>) -> Result<usize, CuError>,
    W: Fn(O, u64) -> O,
    N: Fn(O, Report) -> O,
>(
    translate: X,
    compile: Y,
    count: C,
    read: V,
    load: L,
    pause: W,
    report: N,
    text: Option<Seq<char>>,
    module: PtxModule<D>,
    settings: LoadSettings,
    arch: &str,
    attributes: ExtraCacheAttributes,
) -> bool {
    &&& may_provide(
        translate,
        compile,
        count,
        read,
        pause,
        report,
        text,
        module,
        settings,
        arch,
        attributes,
    )
    &&& forall|translated: Translated, from: O, to: O| #[trigger]
        provided(
            translate,
            compile,
            count,
            read,
            pause,
            report,
            from,
            to,
            text,
            module,
            settings,
            arch,
            attributes,
            Ok(translated),
        ) ==> load.requires((&translated.binary,))
}

/// Whether the picked module may be loaded: the device may be asked for, and what follows may be
/// done for the device that comes back.
pub open spec fn may_load<
    O,
    D,
    T,
    Q: FnOnce() -> Result<Device, CuError>,
    X: FnOnce(PtxModule<D>, PtxAttributes) -> Result<Translation<T>, String>,
    Y: FnOnce(&str, T, u32) -> Result<Vec<u8>, String>,
    C: Fn(&Vec<u8>) -> Option<usize>,
    V: Fn(&Vec<u8>) -> Option<StoredMetadata>,
    L: FnOnce(&Vec<u8>) -> Result<usize, CuError>,
    W: Fn(O, u64) -> O,
    N: Fn(O, Report) -> O,
>(
    properties: Q,
    translate: X,
    compile: Y,
    count: C,
    read: V,
    load: L,
    pause: W,
    report: N,
    texts: usize,
    text: Option<Seq<char>>,
    module: PtxModule<D>,
    settings: LoadSettings,
) -> bool {
    &&& forall|from: O| #[trigger] report.requires((from, picking_report(texts, module)))
    &&& properties.requires(())
    &&& forall|device: Device| #[trigger]
        properties.ensures((), Ok(device)) ==> device.gcn_arch_name@.contains(0)
    &&& forall|device: Device, arch: &str|
        #[trigger] properties.ensures((), Ok(device)) && #[trigger] is_arch_of(arch, device)
            ==> may_load_on(
            translate,
            compile,
            count,
            read,
            load,
            pause,
            report,
            text,
            module,
            settings,
            arch,
            settings.attributes(device.clock_rate, arch@),
        )
}

/// Loads the module that was picked from an image. `text` is its text, where it has one.
fn load_picked<
    O,
    D,
    T,
    Q: FnOnce() -> Result<Device, CuError>,
    X: FnOnce(PtxModule<D>, PtxAttributes) -> Result<Translation<T>, String>,
    Y: FnOnce(&str, T, u32) -> Result<Vec<u8>, String>,
    C: Fn(&Vec<u8>) -> Option<usize>,
    V: Fn(&Vec<u8>) -> Option<StoredMetadata>,
    L: FnOnce(&Vec<u8>) -> Result<usize, CuError>,
    W: Fn(O, u64) -> O,
    N: Fn(O, Report) -> O,
>(
    texts: usize,
    text: Option<&str>,
    module: PtxModule<D>,
    settings: &LoadSettings,
    properties: Q,
    translate: X,
    compile: Y,
    count: &C,
    read: &V,
    load: L,
    outside: O,
    pause: W,
    report: &N,
) -> (end: (O, Result<LoadedModule, CuError>))
    requires
        may_load(
            properties,
            translate,
            compile,
            *count,
            *read,
            load,
            pause,
            *report,
            texts,
            text_view(text),
            module,
            *settings,
        ),
    ensures
        end.1 matches Ok(module) ==> module.wf(),
        loaded(
            properties,
            translate,
            compile,
            *count,
            *read,
            load,
            pause,
            *report,
            outside,
            end.0,
            texts,
            text_view(text),
            module,
            *settings,
            end.1,
        ),
{
    let told = report(
        outside,
        Report::Picked {
            texts,
            sm_version: module.sm_version,
            invalid_directives: module.invalid_directives,
        },
    );
    let asked = properties();
    assert(properties.ensures((), asked));
    let device = match asked {
        Ok(device) => device,
        Err(error) => {
            assert(loaded_by(
                translate,
                compile,
                *count,
                *read,
                load,
                pause,
                *report,
                told,
                told,
                text_view(text),
                module,
                *settings,
                asked,
                Err::<LoadedModule, CuError>(error),
            ));
            return (told, Err(error));
        },
    };
    let arch = match get_gcn_arch(&device) {
        Ok(arch) => arch,
        Err(error) => {
            assert(loaded_by(
                translate,
                compile,
                *count,
                *read,
                load,
                pause,
                *report,
                told,
                told,
                text_view(text),
                module,
                *settings,
                asked,
                Err::<LoadedModule, CuError>(error),
            ));
            return (told, Err(error));
        },
    };
    let arch = arch.as_str();
    assert(is_arch_of(arch, device));
    let attributes = ExtraCacheAttributes::from_settings(
        device.clock_rate,
        settings.is_debug,
        is_cumode(arch, settings.cumode),
        settings.codegen_parts,
        settings.ignore_maxnreg,
        settings.num_vgpr,
    );
    assert(attributes == settings.attributes(device.clock_rate, arch@));
    let (done, outcome) = provide(
        text,
        module,
        settings,
        arch,
        attributes,
        translate,
        compile,
        count,
        read,
        told,
        pause,
        report,
    );
    assert(provided(
        translate,
        compile,
        *count,
        *read,
        pause,
        *report,
        told,
        done,
        text_view(text),
        module,
        *settings,
        arch,
        attributes,
        outcome,
    ));
    let r = match outcome {
        Ok(translated) => {
            let loaded = load(&translated.binary);
            assert(load.ensures((&translated.binary,), loaded));
            match loaded {
                Ok(base) => Ok(
                    LoadedModule {
                        base,
                        sm_version: translated.sm_version,
                        bit32: translated.metadata32,
                    },
                ),
                Err(error) => Err(error),
            }
        },
        Err(error) => Err(error),
    };
    assert(loaded_by(
        translate,
        compile,
        *count,
        *read,
        load,
        pause,
        *report,
        told,
        done,
        text_view(text),
        module,
        *settings,
        asked,
        r,
    ));
    (done, r)
}

/// Whether `texts` are the PTX texts of the image, and `picked` is the one to translate by what
/// parsing them came to.
pub open spec fn picking_gave<D, P: Fn(&String) -> Option<PtxModule<D>>>(
    parse: P,
    image: Seq<CodeModule>,
    texts: Seq<String>,
    picked: Option<(usize, PtxModule<D>)>,
) -> bool {
    &&& texts_view(texts) == ptx_texts(image)
    &&& exists|answers: Seq<Option<PtxModule<D>>>, from: int| #[trigger]
        parsed_from(parse, texts, answers, from) && is_best(answers, from, picked)
}

/// Picks the best PTX module of an image, translates it for the device or takes the translation
/// from the cache, and loads the result.
///
/// `parse` parses PTX text, `properties` asks for the current device, and `load` hands an object to
/// the device. An image without any PTX is refused in a debug build, before the device is asked for,
/// and loads as an empty module otherwise.
pub fn get_best_ptx_and_compile<
    O,
    D,
    T,
    P: Fn(&String) -> Option<PtxModule<D>>,
    Q: FnOnce() -> Result<Device, CuError>,
    X: FnOnce(PtxModule<D>, PtxAttributes) -> Result<Translation<T>, String>,
    Y: FnOnce(&str, T, u32) -> Result<Vec<u8>, String>,
    C: Fn(&Vec<u8>) -> Option<usize>,
    V: Fn(&Vec<u8>) -> Option<StoredMetadata>,
    L: FnOnce(&Vec<u8>) -> Result<usize, CuError>,
    W: Fn(O, u64) -> O,
    N: Fn(O, Report) -> O,
>(
    image: Vec<CodeModule>,
    settings: &LoadSettings,
    parse: P,
    properties: Q,
    translate: X,
    compile: Y,
    count: &C,
    read: &V,
    load: L,
    outside: O,
    pause: W,
    report: &N,
) -> (end: (O, Result<LoadedModule, CuError>))
    requires
        forall|texts: Seq<String>|
            texts_view(texts) == ptx_texts(image@) ==> #[trigger] may_parse(parse, texts),
        forall|texts: Seq<String>, index: usize, module: PtxModule<D>| #[trigger]
            picking_gave(parse, image@, texts, Some((index, module))) ==> may_load(
                properties,
                translate,
                compile,
                *count,
                *read,
                load,
                pause,
                *report,
                texts.len() as usize,
                Some(texts[index as int]@),
                module,
                *settings,
            ),
        forall|texts: Seq<String>, empty: PtxModule<D>|
            !settings.is_debug && #[trigger] picking_gave(
                parse,
                image@,
                texts,
                None::<(usize, PtxModule<D>)>,
            ) && #[trigger] is_empty_module(empty) ==> may_load(
                properties,
                translate,
                compile,
                *count,
                *read,
                load,
                pause,
                *report,
                texts.len() as usize,
                None,
                empty,
                *settings,
            ),
    ensures
        end.1 matches Ok(module) ==> module.wf(),
        exists|texts: Seq<String>, picked: Option<(usize, PtxModule<D>)>|
            {
                &&& #[trigger] picking_gave(parse, image@, texts, picked)
                &&& match picked {
                    Some((index, module)) => loaded(
                        properties,
                        translate,
                        compile,
                        *count,
                        *read,
                        load,
                        pause,
                        *report,
                        outside,
                        end.0,
                        texts.len() as usize,
                        Some(texts[index as int]@),
                        module,
                        *settings,
                        end.1,
                    ),
                    None => if settings.is_debug {
                        end.1 == Err::<LoadedModule, CuError>(CuError::NoBinaryForGpu) && end.0
                            == outside
                    } else {
                        exists|empty: PtxModule<D>|
                            {
                                &&& is_empty_module(empty)
                                &&& #[trigger] loaded(
                                    properties,
                                    translate,
                                    compile,
                                    *count,
                                    *read,
                                    load,
                                    pause,
                                    *report,
                                    outside,
                                    end.0,
                                    texts.len() as usize,
                                    None,
                                    empty,
                                    *settings,
                                    end.1,
                                )
                            }
                    },
                }
            },
{
    let texts = collect_ptx(image);
    let picked = best_ptx(&texts, parse);
    assert(picking_gave(parse, image@, texts@, picked));
    let available: usize = texts.len();
    match picked {
        Some((index, module)) => load_picked(
            available,
            Some(texts[index].as_str()),
            module,
            settings,
            properties,
            translate,
            compile,
            count,
            read,
            load,
            outside,
            pause,
            report,
        ),
        None => {
            if settings.is_debug {
                return (outside, Err(CuError::NoBinaryForGpu));
            }
            let empty = empty_module();
            assert(is_empty_module(empty));
            load_picked(
                available,
                None,
                empty,
                settings,
                properties,
                translate,
                compile,
                count,
                read,
                load,
                outside,
                pause,
                report,
            )
        },
    }
}

/// Only an entry that can answer for the key is used: its own, and in CU mode the one from before CU
/// mode was an attribute.
pub proof fn only_entries_that_answer_are_used(
    before: ModuleCache,
    after: ModuleCache,
    key: ModuleKey,
    cumode: bool,
    first: Lookup,
    second: Option<Lookup>,
    entry: ModuleKey,
    object: Vec<u8>,
)
    requires
        finding_led(before, after, key, cumode, first, second, Some((entry, object))),
    ensures
        answers_for(entry.identity(), key.identity(), cumode),
        entry.last_access == key.last_access,
{
}

/// Whether the kernels of an object with these bytes are always counted, and there are none.
pub open spec fn counts_as_empty<C: Fn(&Vec<u8>) -> Option<usize>>(count: C, binary: Seq<u8>) -> bool {
    forall|object: Vec<u8>, kernels: Option<usize>|
        object@ == binary && #[trigger] count.ensures((&object,), kernels) ==> kernels == Some(
            0usize,
        )
}

/// Which object lookups find that could be run: that of the key, and without one, in CU mode, that
/// from before CU mode was an attribute. Nothing but the time of the entry changes.
proof fn lemma_what_is_found(
    before: ModuleCache,
    after: ModuleCache,
    key: ModuleKey,
    cumode: bool,
    first: Lookup,
    second: Option<Lookup>,
    found: Option<(ModuleKey, Vec<u8>)>,
    entry: CacheIdentity,
    binary: Seq<u8>,
)
    requires
        finding_led(before, after, key, cumode, first, second, found),
        before.private(),
        !(first is Failed),
        second != Some(Lookup::Failed),
        found_in(before.rows(), entry) == Some(binary),
        entry == key.identity() || {
            &&& cumode
            &&& entry == legacy_identity(key.identity())
            &&& found_in(before.rows(), key.identity()) is None
        },
    ensures
        after.private(),
        found matches Some((e, object)) && e.identity() == entry && e.last_access == key.last_access
            && object@ == binary,
        entry == key.identity() ==> (found matches Some((e, object)) && e == key),
        after.rows() == touched(before.rows(), entry, key.last_access),
{
    if entry == key.identity() {
        assert(first is Found) by {
            if !(first is Found) {
                if cumode && legacy_identity(key.identity()) != key.identity() {
                    let missed = choose|missed: ModuleCache| #[trigger]
                        lookup_led(before, missed, &key, first);
                    assert(first is Absent);
                }
            }
        }
    } else {
        if first is Found {
            assert(lookup_led(before, after, &key, first));
        }
        let (missed, legacy) = choose|missed: ModuleCache, legacy: ModuleKey|
            {
                &&& #[trigger] lookup_led(before, missed, &key, first)
                &&& #[trigger] is_legacy_of(legacy, key)
                &&& second matches Some(lookup)
                &&& lookup_led(missed, after, &legacy, lookup)
                &&& found == match lookup {
                    Lookup::Found(object) => Some((legacy, object)),
                    _ => None,
                }
            };
        let lookup = second->Some_0;
        assert(lookup != Lookup::Failed);
        assert(missed.rows() == before.rows());
        assert(lookup is Found);
    }
}

/// An entry without the kernels that were asked for is gone once it was looked up, where every
/// statement could be run, and every other entry stays. In CU mode that goes for the entry from
/// before CU mode was an attribute as well, where the key has no entry of its own: it is removed
/// under its own key.
pub proof fn empty_entry_is_not_found_again<
    O,
    C: Fn(&Vec<u8>) -> Option<usize>,
    V: Fn(&Vec<u8>) -> Option<StoredMetadata>,
    N: Fn(O, Report) -> O,
>(
    count: C,
    read: V,
    report: N,
    from: O,
    to: O,
    kernels_wanted: usize,
    cumode: bool,
    before: KeyedCache,
    after: KeyedCache,
    first: Lookup,
    second: Option<Lookup>,
    removed: Option<bool>,
    r: Option<Translated>,
    binary: Seq<u8>,
    entry: CacheIdentity,
)
    requires
        looked_up_so(
            count,
            read,
            report,
            from,
            to,
            kernels_wanted,
            cumode,
            before,
            after,
            first,
            second,
            removed,
            r,
        ),
        before.cache.private(),
        !(first is Failed),
        second != Some(Lookup::Failed),
        removed != Some(false),
        kernels_wanted > 0,
        counts_as_empty(count, binary),
        found_in(before.cache.rows(), entry) == Some(binary),
        entry == before.key.identity() || {
            &&& cumode
            &&& entry == legacy_identity(before.key.identity())
            &&& found_in(before.cache.rows(), before.key.identity()) is None
        },
    ensures
        r is None,
        after.key == before.key,
        after.cache.private(),
        after.cache.rows() == before.cache.rows().remove(entry),
{
    let (searched, found) = choose|searched: ModuleCache, found: Option<(ModuleKey, Vec<u8>)>|
        {
            &&& #[trigger] finding_led(
                before.cache,
                searched,
                before.key,
                cumode,
                first,
                second,
                found,
            )
            &&& match found {
                Some((e, object)) => judged(
                    count,
                    read,
                    report,
                    from,
                    to,
                    kernels_wanted,
                    e,
                    object,
                    searched,
                    after.cache,
                    removed,
                    r,
                ),
                None => removed is None && r is None && after.cache == searched && to == from,
            }
        };
    lemma_what_is_found(
        before.cache,
        searched,
        before.key,
        cumode,
        first,
        second,
        found,
        entry,
        binary,
    );
    let (e, object) = found->Some_0;
    if removed is None {
        let kernels = choose|kernels: Option<usize>| #[trigger]
            count.ensures((&object,), kernels) && kernels != Some(0usize);
        assert(count.ensures((&object,), kernels));
    }
    assert(after.cache.rows() =~= before.cache.rows().remove(entry));
}

/// What was stored is what the next lookup under the same key comes to, where that lookup could be
/// run: the same bytes are judged and read.
pub proof fn stored_translation_is_found<
    O,
    C: Fn(&Vec<u8>) -> Option<usize>,
    V: Fn(&Vec<u8>) -> Option<StoredMetadata>,
    W: Fn(O, u64) -> O,
    N: Fn(O, Report) -> O,
>(
    count: C,
    read: V,
    pause: W,
    report: N,
    storing: (O, O),
    loading: (O, O),
    object: Seq<u8>,
    kernels_wanted: usize,
    cumode: bool,
    before: ModuleCache,
    key: ModuleKey,
    next: KeyedCache,
    after: KeyedCache,
    first: Lookup,
    second: Option<Lookup>,
    removed: Option<bool>,
    r: Option<Translated>,
)
    requires
        before.private(),
        found_in(before.rows(), key.identity()) is None,
        stored(
            pause,
            report,
            storing.0,
            storing.1,
            object,
            before,
            next.cache,
            key,
            Ok::<(), StoreError>(()),
        ),
        next.key.identity() == key.identity(),
        looked_up_so(
            count,
            read,
            report,
            loading.0,
            loading.1,
            kernels_wanted,
            cumode,
            next,
            after,
            first,
            second,
            removed,
            r,
        ),
        !(first is Failed),
        second != Some(Lookup::Failed),
    ensures
        exists|found: Vec<u8>, searched: ModuleCache|
            found@ == object && #[trigger] judged(
                count,
                read,
                report,
                loading.0,
                loading.1,
                kernels_wanted,
                next.key,
                found,
                searched,
                after.cache,
                removed,
                r,
            ),
{
    let (searched, found) = choose|searched: ModuleCache, found: Option<(ModuleKey, Vec<u8>)>|
        {
            &&& #[trigger] finding_led(
                next.cache,
                searched,
                next.key,
                cumode,
                first,
                second,
                found,
            )
            &&& match found {
                Some((e, o)) => judged(
                    count,
                    read,
                    report,
                    loading.0,
                    loading.1,
                    kernels_wanted,
                    e,
                    o,
                    searched,
                    after.cache,
                    removed,
                    r,
                ),
                None => removed is None && r is None && after.cache == searched && loading.1
                    == loading.0,
            }
        };
    lemma_what_is_found(
        next.cache,
        searched,
        next.key,
        cumode,
        first,
        second,
        found,
        next.key.identity(),
        object,
    );
}

/// Whether `read` gives, of an object with these bytes, the version and the stored form of the
/// metadata of a translation.
pub open spec fn reads_as<T, V: Fn(&Vec<u8>) -> Option<StoredMetadata>>(
    read: V,
    object: Seq<u8>,
    translation: Translation<T>,
) -> bool {
    forall|bytes: Vec<u8>, metadata: Option<StoredMetadata>|
        bytes@ == object && #[trigger] read.ensures((&bytes,), metadata) ==> {
            &&& metadata matches Some(found)
            &&& found.sm_version == translation.sm_version
            &&& match (found.metadata32, translation.metadata32) {
                (Some(archived), Some(fresh)) => archives(archived, fresh),
                (None, None) => true,
                _ => false,
            }
        }
}

/// Whether `count` never finds that an object with these bytes lacks kernels.
pub open spec fn counts_as_good<C: Fn(&Vec<u8>) -> Option<usize>>(count: C, object: Seq<u8>) -> bool {
    forall|bytes: Vec<u8>, kernels: Option<usize>|
        bytes@ == object && #[trigger] count.ensures((&bytes,), kernels) ==> kernels != Some(
            0usize,
        )
}

/// Whether two translated modules agree: the same bytes, the same version, and the same metadata
/// field by field.
pub open spec fn same_translated(a: Translated, b: Translated) -> bool {
    &&& a.binary@ == b.binary@
    &&& a.sm_version == b.sm_version
    &&& match (a.metadata32, b.metadata32) {
        (Some(x), Some(y)) => {
            &&& x.globals_view() == y.globals_view()
            &&& x.explicit_args_size_align@ == y.explicit_args_size_align@
        },
        (None, None) => true,
        _ => false,
    }
}

/// What compiling a module gave, and stored, is what the next lookup under the same key gives, in
/// either mode: the same bytes, the same version, and the same metadata field by field.
///
/// Nothing was stored under the key before, the insertion succeeded, the lookup could be run, and
/// what is read off the stored object is what the translation says of itself.
pub proof fn loading_gives_back_what_compiling_gave<
    O,
    T,
    C: Fn(&Vec<u8>) -> Option<usize>,
    V: Fn(&Vec<u8>) -> Option<StoredMetadata>,
    W: Fn(O, u64) -> O,
    N: Fn(O, Report) -> O,
>(
    count: C,
    read: V,
    pause: W,
    report: N,
    storing: (O, O),
    loading: (O, O),
    translation: Translation<T>,
    translated: Translated,
    object: Vec<u8>,
    kernels_wanted: usize,
    cumode: bool,
    before: KeyedCache,
    next: KeyedCache,
    after: KeyedCache,
    first: Lookup,
    second: Option<Lookup>,
    removed: Option<bool>,
    r: Option<Translated>,
)
    requires
        before.cache.private(),
        found_in(before.cache.rows(), before.key.identity()) is None,
        finished(
            count,
            pause,
            report,
            storing.0,
            storing.1,
            kernels_wanted,
            translation,
            object,
            Some(before),
            Some(next),
            Ok(translated),
        ),
        stored(
            pause,
            report,
            storing.0,
            storing.1,
            object@,
            before.cache,
            next.cache,
            next.key,
            Ok::<(), StoreError>(()),
        ),
        looked_up_so(
            count,
            read,
            report,
            loading.0,
            loading.1,
            kernels_wanted,
            cumode,
            next,
            after,
            first,
            second,
            removed,
            r,
        ),
        !(first is Failed),
        second != Some(Lookup::Failed),
        kernels_wanted > 0 ==> counts_as_good(count, object@),
        reads_as(read, object@, translation),
    ensures
        r matches Some(found) && same_translated(found, translated),
{
    assert(keyed_stored(pause, report, storing.0, storing.1, object@, before, next));
    stored_translation_is_found(
        count,
        read,
        pause,
        report,
        storing,
        loading,
        object@,
        kernels_wanted,
        cumode,
        before.cache,
        next.key,
        next,
        after,
        first,
        second,
        removed,
        r,
    );
    let (found, searched) = choose|found: Vec<u8>, searched: ModuleCache|
        found@ == object@ && #[trigger] judged(
            count,
            read,
            report,
            loading.0,
            loading.1,
            kernels_wanted,
            next.key,
            found,
            searched,
            after.cache,
            removed,
            r,
        );
    if removed is Some {
        assert(count.ensures((&found,), Some(0usize)));
    }
    let metadata = choose|metadata: Option<StoredMetadata>|
        {
            &&& #[trigger] read.ensures((&found,), metadata)
            &&& comes_to(found, metadata, r)
        };
    let archived = metadata->Some_0.metadata32;
    if archived is Some {
        archived_module_reads_like_the_compiled_one(
            archived->Some_0,
            translation.metadata32->Some_0,
            translated.metadata32->Some_0,
            r->Some_0.metadata32->Some_0,
        );
    }
}

/// Whether a module was translated with the attributes `handed`, what came of it was compiled for
/// `arch` in `parts` parts, and the end is what that comes to: a translation or a compilation that
/// failed is told and comes to an unknown error, and so does an object without the kernels that were
/// asked for; any other object is given back with the version of the translation.
pub open spec fn made_with<
    O,
    D,
    T,
    X: FnOnce(PtxModule<D>, PtxAttributes) -> Result<Translation<T>, String>,
    Y: FnOnce(&str, T, u32) -> Result<Vec<u8>, String>,
    C: Fn(&Vec<u8>) -> Option<usize>,
    N: Fn(O, Report) -> O,
>(
    translate: X,
    compile: Y,
    count: C,
    report: N,
    arch: &str,
    module: PtxModule<D>,
    handed: PtxAttributes,
    parts: u32,
    kernels_wanted: usize,
    from: O,
    end: (O, Result<Translated, CuError>),
) -> bool {
    exists|outcome: Result<Translation<T>, String>|
        {
            &&& #[trigger] translate.ensures((module, handed), outcome)
            &&& end.1 is Err ==> end.1->Err_0 == CuError::Unknown
            &&& match outcome {
                Err(message) => end.1 is Err && report.ensures(
                    (from, Report::NotTranslated(message)),
                    end.0,
                ),
                Ok(translation) => exists|built: Result<Vec<u8>, String>|
                    {
                        &&& #[trigger] compile.ensures((arch, outcome->Ok_0.code, parts), built)
                        &&& match built {
                            Err(message) => end.1 is Err && report.ensures(
                                (from, Report::NotCompiled(message)),
                                end.0,
                            ),
                            Ok(object) => match end.1 {
                                Err(_) => {
                                    &&& kernels_wanted > 0
                                    &&& count.ensures((&object,), Some(0usize))
                                    &&& report.ensures(
                                        (from, Report::EmptyTranslation(kernels_wanted)),
                                        end.0,
                                    )
                                },
                                Ok(translated) => {
                                    &&& translated.binary@ == object@
                                    &&& translated.sm_version == translation.sm_version
                                    &&& kept_of(translated.metadata32, translation.metadata32)
                                },
                            },
                        }
                    },
            }
        }
}

/// Whether the metadata that are kept say what a description says: where there is none there are none,
/// and every function that is described keeps the sizes and alignments of its arguments.
pub open spec fn kept_of(
    kept: Option<Metadata32Bit>,
    described: Option<ModuleMetadata32Bit>,
) -> bool {
    match (kept, described) {
        (Some(k), Some(m)) => says_the_same(k, m),
        (None, None) => true,
        _ => false,
    }
}

/// Metadata that are those of a translation say the same.
proof fn lemma_kept_of(kept: Option<Metadata32Bit>, described: Option<ModuleMetadata32Bit>)
    requires
        fresh_metadata32(kept, described),
    ensures
        kept_of(kept, described),
{
    if kept is Some {
        lemma_keeps_says_the_same(kept->Some_0, described->Some_0);
    }
}

/// What translating and compiling comes to is made with the attributes.
proof fn lemma_made_with<
    O,
    D,
    T,
    X: FnOnce(PtxModule<D>, PtxAttributes) -> Result<Translation<T>, String>,
    Y: FnOnce(&str, T, u32) -> Result<Vec<u8>, String>,
    C: Fn(&Vec<u8>) -> Option<usize>,
    W: Fn(O, u64) -> O,
    N: Fn(O, Report) -> O,
>(
    translate: X,
    compile: Y,
    count: C,
    pause: W,
    report: N,
    from: O,
    to: O,
    arch: &str,
    attributes: ExtraCacheAttributes,
    module: PtxModule<D>,
    kernels_wanted: usize,
    before: Option<KeyedCache>,
    after: Option<KeyedCache>,
    r: Result<Translated, CuError>,
    handed: PtxAttributes,
)
    requires
        translated_and_compiled(
            translate,
            compile,
            count,
            pause,
            report,
            from,
            to,
            arch,
            attributes,
            module,
            kernels_wanted,
            before,
            after,
            r,
        ),
        handed.cumode == attributes.cumode,
        handed.clock_rate == attributes.clock_rate,
        handed.ignore_maxnreg == attributes.ignore_maxnreg,
        handed.num_vgpr_override == attributes.num_vgpr_override,
    ensures
        made_with(
            translate,
            compile,
            count,
            report,
            arch,
            module,
            handed,
            attributes.codegen_parts,
            kernels_wanted,
            from,
            (to, r),
        ),
        r is Err ==> after == before,
{
    let outcome = choose|outcome: Result<Translation<T>, String>|
        {
            &&& #[trigger] translating_gave(translate, attributes, module, outcome)
            &&& match outcome {
                Err(message) => {
                    &&& report.ensures((from, Report::NotTranslated(message)), to)
                    &&& r == Err::<Translated, CuError>(CuError::Unknown)
                    &&& after == before
                },
                Ok(translation) => compiled(
                    translate,
                    compile,
                    count,
                    pause,
                    report,
                    from,
                    to,
                    arch,
                    attributes,
                    module,
                    kernels_wanted,
                    translation,
                    before,
                    after,
                    r,
                ),
            }
        };
    assert(handed == ptx_attributes(attributes));
    assert(translate.ensures((module, handed), outcome));
    if let Ok(translation) = outcome {
        let built = choose|built: Result<Vec<u8>, String>|
            {
                &&& #[trigger] compiling_gave(
                    translate,
                    compile,
                    arch,
                    attributes,
                    module,
                    translation,
                    built,
                )
                &&& match built {
                    Err(message) => {
                        &&& report.ensures((from, Report::NotCompiled(message)), to)
                        &&& r == Err::<Translated, CuError>(CuError::Unknown)
                        &&& after == before
                    },
                    Ok(object) => finished(
                        count,
                        pause,
                        report,
                        from,
                        to,
                        kernels_wanted,
                        translation,
                        object,
                        before,
                        after,
                        r,
                    ),
                }
            };
        assert(compile.ensures(
            (arch, outcome->Ok_0.code, attributes.codegen_parts),
            built,
        ));
        if let Ok(translated) = r {
            lemma_kept_of(translated.metadata32, translation.metadata32);
        }
    }
}

/// The translator is handed the attributes that name the cache entry: the mode, the clock rate, the
/// dropped directive and the register budget are each the one of the attributes. The compiler is
/// handed the architecture, the code that the translator gave, and the number of parts of the
/// attributes. Wherever there is an error the cache is as before.
pub proof fn translator_gets_the_attributes<
    'a,
    O,
    D,
    T,
    X: FnOnce(PtxModule<D>, PtxAttributes) -> Result<Translation<T>, String>,
    Y: FnOnce(&str, T, u32) -> Result<Vec<u8>, String>,
    C: Fn(&Vec<u8>) -> Option<usize>,
    W: Fn(O, u64) -> O,
    N: Fn(O, Report) -> O,
>(
    gcn_arch: &str,
    attributes: ExtraCacheAttributes,
    ast: PtxModule<D>,
    kernels_wanted: usize,
    cache_with_key: &mut Option<KeyedCache<'a>>,
    translate: X,
    compile: Y,
    count: &C,
    outside: O,
    pause: W,
    report: &N,
    end: (O, Result<Translated, CuError>),
)
    requires
        call_ensures(
            compile_and_cache::<O, D, T, X, Y, C, W, N>,
            (
                gcn_arch,
                attributes,
                ast,
                kernels_wanted,
                cache_with_key,
                translate,
                compile,
                count,
                outside,
                pause,
                report,
            ),
            end,
        ),
    ensures
        exists|handed: PtxAttributes|
            {
                &&& #[trigger] made_with(
                    translate,
                    compile,
                    *count,
                    *report,
                    gcn_arch,
                    ast,
                    handed,
                    attributes.codegen_parts,
                    kernels_wanted,
                    outside,
                    end,
                )
                &&& handed.cumode == attributes.cumode
                &&& handed.clock_rate == attributes.clock_rate
                &&& handed.ignore_maxnreg == attributes.ignore_maxnreg
                &&& handed.num_vgpr_override == attributes.num_vgpr_override
            },
        end.1 is Err ==> *final(cache_with_key) == *old(cache_with_key),
{
    lemma_made_with(
        translate,
        compile,
        *count,
        pause,
        *report,
        outside,
        end.0,
        gcn_arch,
        attributes,
        ast,
        kernels_wanted,
        *old(cache_with_key),
        *final(cache_with_key),
        end.1,
        PtxAttributes {
            clock_rate: attributes.clock_rate,
            cumode: attributes.cumode,
            ignore_maxnreg: attributes.ignore_maxnreg,
            num_vgpr_override: attributes.num_vgpr_override,
        },
    );
}

/// Whether a cache is kept under a key that records these attributes, where there is a cache. There is
/// none without a text or without a path.
pub open spec fn recorded_in(
    opened: Option<KeyedCache>,
    text: Option<Seq<char>>,
    settings: LoadSettings,
    arch: Seq<char>,
    is_debug: bool,
    parts: u32,
    handed: PtxAttributes,
) -> bool {
    match opened {
        Some(keyed) => {
            &&& text is Some
            &&& settings.cache_path is Some
            &&& keyed.key.hash@ == blake3_hex(encode_utf8(text->Some_0))
            &&& keyed.key.compiler_version@ == "builtin"@
            &&& keyed.key.zluda_version@ == settings.zluda_version@
            &&& keyed.key.device@ == arch
            &&& keyed.key.backend_key@ == recorded(
                is_debug,
                handed.clock_rate,
                handed.cumode,
                handed.ignore_maxnreg,
                handed.num_vgpr_override,
                parts,
            )
        },
        None => true,
    }
}

/// Whether a translation was found in the cache or made, where the translator is handed what the key
/// of the cache records.
pub open spec fn provided_with<
    O,
    D,
    T,
    X: FnOnce(PtxModule<D>, PtxAttributes) -> Result<Translation<T>, String>,
    Y: FnOnce(&str, T, u32) -> Result<Vec<u8>, String>,
    C: Fn(&Vec<u8>) -> Option<usize>,
    N: Fn(O, Report) -> O,
>(
    translate: X,
    compile: Y,
    count: C,
    report: N,
    text: Option<Seq<char>>,
    module: PtxModule<D>,
    settings: LoadSettings,
    arch: &str,
    attributes: ExtraCacheAttributes,
    kernels_wanted: usize,
    end: (O, Result<Translated, CuError>),
) -> bool {
    exists|opened: Option<KeyedCache>, handed: PtxAttributes|
        {
            &&& #[trigger] recorded_in(
                opened,
                text,
                settings,
                arch@,
                attributes.is_debug,
                attributes.codegen_parts,
                handed,
            )
            &&& handed.cumode == attributes.cumode
            &&& handed.clock_rate == attributes.clock_rate
            &&& handed.ignore_maxnreg == attributes.ignore_maxnreg
            &&& handed.num_vgpr_override == attributes.num_vgpr_override
            &&& (opened is Some && end.1 is Ok) || exists|told: O| #[trigger]
                made_with(
                    translate,
                    compile,
                    count,
                    report,
                    arch,
                    module,
                    handed,
                    attributes.codegen_parts,
                    kernels_wanted,
                    told,
                    end,
                )
        }
}

/// What is provided is provided so.
proof fn lemma_provided_with<
    O,
    D,
    T,
    X: FnOnce(PtxModule<D>, PtxAttributes) -> Result<Translation<T>, String>,
    Y: FnOnce(&str, T, u32) -> Result<Vec<u8>, String>,
    C: Fn(&Vec<u8>) -> Option<usize>,
    V: Fn(&Vec<u8>) -> Option<StoredMetadata>,
    W: Fn(O, u64) -> O,
    N: Fn(O, Report) -> O,
>(
    translate: X,
    compile: Y,
    count: C,
    read: V,
    pause: W,
    report: N,
    from: O,
    to: O,
    text: Option<Seq<char>>,
    module: PtxModule<D>,
    settings: LoadSettings,
    arch: &str,
    attributes: ExtraCacheAttributes,
    r: Result<Translated, CuError>,
)
    requires
        provided(
            translate,
            compile,
            count,
            read,
            pause,
            report,
            from,
            to,
            text,
            module,
            settings,
            arch,
            attributes,
            r,
        ),
    ensures
        provided_with(
            translate,
            compile,
            count,
            report,
            text,
            module,
            settings,
            arch,
            attributes,
            kernels_declared(module.directives@) as usize,
            (to, r),
        ),
{
    let wanted = kernels_declared(module.directives@) as usize;
    let (opened, after) = choose|opened: Option<KeyedCache>, after: Option<KeyedCache>|
        {
            &&& is_cache_for(
                opened,
                text,
                settings.cache_path,
                arch@,
                attributes,
                settings.zluda_version@,
            )
            &&& #[trigger] found_or_made(
                translate,
                compile,
                count,
                read,
                pause,
                report,
                from,
                to,
                module,
                arch,
                attributes,
                wanted,
                opened,
                after,
                r,
            )
        };
    let (looked_up, cached, told) = choose|
        looked_up: Option<KeyedCache>,
        cached: Option<Translated>,
        told: O,
    |
        {
            &&& #[trigger] slot_load(
                count,
                read,
                report,
                from,
                told,
                wanted,
                attributes.cumode,
                opened,
                looked_up,
                cached,
            )
            &&& found_or_compiled(
                translate,
                compile,
                count,
                pause,
                report,
                told,
                to,
                arch,
                attributes,
                module,
                wanted,
                cached,
                looked_up,
                after,
                r,
            )
        };
    let handed = PtxAttributes {
        clock_rate: attributes.clock_rate,
        cumode: attributes.cumode,
        ignore_maxnreg: attributes.ignore_maxnreg,
        num_vgpr_override: attributes.num_vgpr_override,
    };
    lemma_recorded(attributes);
    if cached is None {
        lemma_made_with(
            translate,
            compile,
            count,
            pause,
            report,
            told,
            to,
            arch,
            attributes,
            module,
            wanted,
            looked_up,
            after,
            r,
            handed,
        );
    }
    assert(recorded_in(
        opened,
        text,
        settings,
        arch@,
        attributes.is_debug,
        attributes.codegen_parts,
        handed,
    ));
}

/// The translator is handed what the key of the same load records: for every architecture and all
/// attributes, the mode, the clock rate, the dropped directive and the register budget that a module is
/// translated with are those that the text of the key writes, and so is the number of parts that it is
/// compiled in.
pub proof fn translator_gets_what_the_key_records<
    O,
    D,
    T,
    X: FnOnce(PtxModule<D>, PtxAttributes) -> Result<Translation<T>, String>,
    Y: FnOnce(&str, T, u32) -> Result<Vec<u8>, String>,
    C: Fn(&Vec<u8>) -> Option<usize>,
    V: Fn(&Vec<u8>) -> Option<StoredMetadata>,
    W: Fn(O, u64) -> O,
    N: Fn(O, Report) -> O,
>(
    text: Option<&str>,
    module: PtxModule<D>,
    settings: &LoadSettings,
    arch: &str,
    attributes: ExtraCacheAttributes,
    translate: X,
    compile: Y,
    count: &C,
    read: &V,
    outside: O,
    pause: W,
    report: &N,
    end: (O, Result<Translated, CuError>),
)
    requires
        call_ensures(
            provide::<O, D, T, X, Y, C, V, W, N>,
            (
                text,
                module,
                settings,
                arch,
                attributes,
                translate,
                compile,
                count,
                read,
                outside,
                pause,
                report,
            ),
            end,
        ),
    ensures
        provided_with(
            translate,
            compile,
            *count,
            *report,
            match text {
                Some(t) => Some(t@),
                None => None,
            },
            module,
            *settings,
            arch,
            attributes,
            kernels_declared(module.directives@) as usize,
            end,
        ),
{
    lemma_provided_with(
        translate,
        compile,
        *count,
        *read,
        pause,
        *report,
        outside,
        end.0,
        text_view(text),
        module,
        *settings,
        arch,
        attributes,
        end.1,
    );
}

/// Whether these are the attributes of a load on a device: the clock rate of the device, the mode that
/// was chosen, and without a choice CU mode unless the name of the architecture starts with `gfx10`,
/// `gfx11` or `gfx12`; the rest as the settings say.
pub open spec fn are_attributes_of_load(
    a: ExtraCacheAttributes,
    settings: LoadSettings,
    device: Device,
    arch: Seq<char>,
) -> bool {
    let family = arch.take(5);
    &&& device.clock_rate >= 0 ==> a.clock_rate == device.clock_rate
    &&& device.clock_rate < 0 ==> a.clock_rate == device.clock_rate + 0x1_0000_0000
    &&& settings.cumode is Some ==> a.cumode == settings.cumode->Some_0
    &&& settings.cumode is None ==> (a.cumode <==> !(arch.len() >= 5 && (family == "gfx10"@ || family
        == "gfx11"@ || family == "gfx12"@)))
    &&& a.is_debug == settings.is_debug
    &&& a.codegen_parts == settings.codegen_parts
    &&& a.ignore_maxnreg <==> (settings.ignore_maxnreg is Some && settings.ignore_maxnreg->Some_0@
        == seq!['1'])
    &&& settings.num_vgpr is None ==> a.num_vgpr_override is None
    &&& settings.num_vgpr is Some ==> forall|n: u32|
        settings.num_vgpr->Some_0@ == #[trigger] decimal(n as nat) ==> a.num_vgpr_override == Some(n)
}

/// The attributes that the settings give are those of the load.
proof fn lemma_attributes_of_load(settings: LoadSettings, device: Device, arch: Seq<char>)
    ensures
        are_attributes_of_load(
            settings.attributes(device.clock_rate, arch),
            settings,
            device,
            arch,
        ),
{
    let rate = device.clock_rate;
    assert(rate >= 0 ==> (rate as u32) as int == rate) by (bit_vector);
    assert(rate < 0 ==> (rate as u32) as int == rate + 0x1_0000_0000) by (bit_vector);
    reveal_strlit("1");
    assert("1"@ =~= seq!['1']);
    reveal_strlit("gfx10");
    reveal_strlit("gfx11");
    reveal_strlit("gfx12");
    if arch.len() >= 5 {
        assert(arch.subrange(0, 5) =~= arch.take(5));
    }
    if settings.num_vgpr is Some {
        assert forall|n: u32| settings.num_vgpr->Some_0@ == #[trigger] decimal(n as nat) implies
            u32_of_text(settings.num_vgpr->Some_0@) == Some(n) by {
            lemma_decimal_value(n as nat);
        }
    }
}

/// Whether a module that was picked was translated for the device with the attributes of the load and
/// handed to the device, and `end` is what that came to. Every error is the one that was met: that of
/// asking for the device, an unknown one for a name that is no text, that of the translation, or that
/// of the device.
pub open spec fn loaded_with<
    O,
    D,
    T,
    Q: FnOnce() -> Result<Device, CuError>,
    X: FnOnce(PtxModule<D>, PtxAttributes) -> Result<Translation<T>, String>,
    Y: FnOnce(&str, T, u32) -> Result<Vec<u8>, String>,
    C: Fn(&Vec<u8>) -> Option<usize>,
    L: FnOnce(&Vec<u8>) -> Result<usize, CuError>,
    N: Fn(O, Report) -> O,
>(
    properties: Q,
    translate: X,
    compile: Y,
    count: C,
    load: L,
    report: N,
    text: Option<Seq<char>>,
    module: PtxModule<D>,
    settings: LoadSettings,
    end: (O, Result<LoadedModule, CuError>),
) -> bool {
    exists|asked: Result<Device, CuError>|
        {
            &&& #[trigger] properties.ensures((), asked)
            &&& match asked {
                Err(error) => end.1 is Err && end.1->Err_0 == error,
                Ok(device) => if valid_utf8(up_to_nul(device.gcn_arch_name@)) {
                    exists|arch: &str, a: ExtraCacheAttributes, translated: Result<Translated, CuError>|
                        {
                            &&& encode_utf8(arch@) == up_to_nul(device.gcn_arch_name@)
                            &&& are_attributes_of_load(a, settings, device, arch@)
                            &&& #[trigger] provided_with(
                                translate,
                                compile,
                                count,
                                report,
                                text,
                                module,
                                settings,
                                arch,
                                a,
                                kernels_declared(module.directives@) as usize,
                                (end.0, translated),
                            )
                            &&& match translated {
                                Err(error) => end.1 is Err && end.1->Err_0 == error,
                                Ok(object) => exists|handle: Result<usize, CuError>|
                                    {
                                        &&& #[trigger] load.ensures(
                                            (&translated->Ok_0.binary,),
                                            handle,
                                        )
                                        &&& match handle {
                                            Err(error) => end.1 is Err && end.1->Err_0 == error,
                                            Ok(base) => {
                                                &&& end.1 is Ok
                                                &&& end.1->Ok_0.base == base
                                                &&& end.1->Ok_0.sm_version == object.sm_version
                                                &&& end.1->Ok_0.bit32 == object.metadata32
                                            },
                                        }
                                    },
                            }
                        }
                } else {
                    end.1 is Err && end.1->Err_0 == CuError::Unknown
                },
            }
        }
}

/// What is loaded is loaded so, after it was told which module was picked.
proof fn lemma_loaded_with<
    O,
    D,
    T,
    Q: FnOnce() -> Result<Device, CuError>,
    X: FnOnce(PtxModule<D>, PtxAttributes) -> Result<Translation<T>, String>,
    Y: FnOnce(&str, T, u32) -> Result<Vec<u8>, String>,
    C: Fn(&Vec<u8>) -> Option<usize>,
    V: Fn(&Vec<u8>) -> Option<StoredMetadata>,
    L: FnOnce(&Vec<u8>) -> Result<usize, CuError>,
    W: Fn(O, u64) -> O,
    N: Fn(O, Report) -> O,
>(
    properties: Q,
    translate: X,
    compile: Y,
    count: C,
    read: V,
    load: L,
    pause: W,
    report: N,
    from: O,
    to: O,
    texts: usize,
    text: Option<Seq<char>>,
    module: PtxModule<D>,
    settings: LoadSettings,
    r: Result<LoadedModule, CuError>,
)
    requires
        loaded(
            properties,
            translate,
            compile,
            count,
            read,
            load,
            pause,
            report,
            from,
            to,
            texts,
            text,
            module,
            settings,
            r,
        ),
    ensures
        loaded_with(
            properties,
            translate,
            compile,
            count,
            load,
            report,
            text,
            module,
            settings,
            (to, r),
        ),
        exists|told: O| #[trigger]
            report.ensures(
                (
                    from,
                    Report::Picked {
                        texts,
                        sm_version: module.sm_version,
                        invalid_directives: module.invalid_directives,
                    },
                ),
                told,
            ),
{
    let (told, asked) = choose|told: O, device: Result<Device, CuError>|
        {
            &&& report.ensures((from, picking_report(texts, module)), told)
            &&& #[trigger] properties.ensures((), device)
            &&& #[trigger] loaded_by(
                translate,
                compile,
                count,
                read,
                load,
                pause,
                report,
                told,
                to,
                text,
                module,
                settings,
                device,
                r,
            )
        };
    assert(properties.ensures((), asked));
    if let Ok(device) = asked {
        if valid_utf8(up_to_nul(device.gcn_arch_name@)) {
            let (arch, translated) = choose|arch: &str, translated: Result<Translated, CuError>|
                {
                    &&& is_arch_of(arch, device)
                    &&& #[trigger] provided(
                        translate,
                        compile,
                        count,
                        read,
                        pause,
                        report,
                        told,
                        to,
                        text,
                        module,
                        settings,
                        arch,
                        settings.attributes(device.clock_rate, arch@),
                        translated,
                    )
                    &&& match translated {
                        Err(error) => r == Err::<LoadedModule, CuError>(error),
                        Ok(object) => exists|handle: Result<usize, CuError>|
                            {
                                &&& #[trigger] load.ensures((&object.binary,), handle)
                                &&& match handle {
                                    Err(error) => r == Err::<LoadedModule, CuError>(error),
                                    Ok(base) => r matches Ok(module) && {
                                        &&& module.base == base
                                        &&& module.sm_version == object.sm_version
                                        &&& module.bit32 == object.metadata32
                                    },
                                }
                            },
                    }
                };
            let a = settings.attributes(device.clock_rate, arch@);
            lemma_attributes_of_load(settings, device, arch@);
            vstd::utf8::decode_utf8_encode_utf8(up_to_nul(device.gcn_arch_name@));
            lemma_provided_with(
                translate,
                compile,
                count,
                read,
                pause,
                report,
                told,
                to,
                text,
                module,
                settings,
                arch,
                a,
                translated,
            );
        }
    }
}

/// Whether the texts are those of an image, in their order and none left out, and the module is the best
/// of them.
pub open spec fn is_pick_of<D, P: Fn(&String) -> Option<PtxModule<D>>>(
    parse: P,
    image: Seq<CodeModule>,
    texts: Seq<String>,
    picked: Option<(usize, PtxModule<D>)>,
) -> bool {
    &&& exists|views: Seq<Seq<char>>, places: Seq<int>|
        {
            &&& #[trigger] are_texts_of(views, image, places)
            &&& views.len() == texts.len()
            &&& forall|i: int| 0 <= i < texts.len() ==> #[trigger] views[i] == texts[i]@
        }
    &&& exists|answers: Seq<Option<PtxModule<D>>>, from: int| #[trigger]
        best_of(parse, texts, answers, from, picked)
}

/// What picking gave is the pick.
proof fn lemma_pick_of<D, P: Fn(&String) -> Option<PtxModule<D>>>(
    parse: P,
    image: Seq<CodeModule>,
    texts: Seq<String>,
    picked: Option<(usize, PtxModule<D>)>,
)
    requires
        picking_gave(parse, image, texts, picked),
    ensures
        is_pick_of(parse, image, texts, picked),
{
    let places = lemma_texts_of(image);
    let views = texts_view(texts);
    assert(are_texts_of(views, image, places));
    let (answers, from) = choose|answers: Seq<Option<PtxModule<D>>>, from: int| #[trigger]
        parsed_from(parse, texts, answers, from) && is_best(answers, from, picked);
    lemma_best_of(parse, texts, answers, from, picked);
}

/// What loading an image does. The texts of the image are parsed and one is picked; where there is one
/// it is loaded, under the key of its text. Where there is none, a debug build refuses the image, and
/// any other loads an empty module, which no cache holds.
///
/// The module is translated with the attributes of the load, which are those that the key records.
pub proof fn image_is_loaded_with_its_attributes<
    O,
    D,
    T,
    P: Fn(&String) -> Option<PtxModule<D>>,
    Q: FnOnce() -> Result<Device, CuError>,
    X: FnOnce(PtxModule<D>, PtxAttributes) -> Result<Translation<T>, String>,
    Y: FnOnce(&str, T, u32) -> Result<Vec<u8>, String>,
    C: Fn(&Vec<u8>) -> Option<usize>,
    V: Fn(&Vec<u8>) -> Option<StoredMetadata>,
    L: FnOnce(&Vec<u8>) -> Result<usize, CuError>,
    W: Fn(O, u64) -> O,
    N: Fn(O, Report) -> O,
>(
    image: Vec<CodeModule>,
    settings: &LoadSettings,
    parse: P,
    properties: Q,
    translate: X,
    compile: Y,
    count: &C,
    read: &V,
    load: L,
    outside: O,
    pause: W,
    report: &N,
    end: (O, Result<LoadedModule, CuError>),
)
    requires
        call_ensures(
            get_best_ptx_and_compile::<O, D, T, P, Q, X, Y, C, V, L, W, N>,
            (
                image,
                settings,
                parse,
                properties,
                translate,
                compile,
                count,
                read,
                load,
                outside,
                pause,
                report,
            ),
            end,
        ),
    ensures
        exists|texts: Seq<String>, picked: Option<(usize, PtxModule<D>)>|
            {
                &&& #[trigger] is_pick_of(parse, image@, texts, picked)
                &&& match picked {
                    Some((index, module)) => {
                        &&& loaded_with(
                            properties,
                            translate,
                            compile,
                            *count,
                            load,
                            *report,
                            Some(texts[index as int]@),
                            module,
                            *settings,
                            end,
                        )
                        &&& exists|told: O| #[trigger]
                            report.ensures(
                                (
                                    outside,
                                    Report::Picked {
                                        texts: texts.len() as usize,
                                        sm_version: picked->Some_0.1.sm_version,
                                        invalid_directives: picked->Some_0.1.invalid_directives,
                                    },
                                ),
                                told,
                            )
                    },
                    None => if settings.is_debug {
                        end.1 is Err && end.1->Err_0 == CuError::NoBinaryForGpu && end.0 == outside
                    } else {
                        exists|empty: PtxModule<D>|
                            {
                                &&& empty.directives@.len() == 0
                                &&& empty.ptx_version == (1u8, 0u8)
                                &&& empty.sm_version == 0
                                &&& empty.invalid_directives == usize::MAX
                                &&& empty.address_size == 64
                                &&& #[trigger] loaded_with(
                                    properties,
                                    translate,
                                    compile,
                                    *count,
                                    load,
                                    *report,
                                    None,
                                    empty,
                                    *settings,
                                    end,
                                )
                            }
                    },
                }
            },
{
    let (texts, picked) = choose|texts: Seq<String>, picked: Option<(usize, PtxModule<D>)>|
        {
            &&& #[trigger] picking_gave(parse, image@, texts, picked)
            &&& match picked {
                Some((index, module)) => loaded(
                    properties,
                    translate,
                    compile,
                    *count,
                    *read,
                    load,
                    pause,
                    *report,
                    outside,
                    end.0,
                    texts.len() as usize,
                    Some(texts[index as int]@),
                    module,
                    *settings,
                    end.1,
                ),
                None => if settings.is_debug {
                    end.1 == Err::<LoadedModule, CuError>(CuError::NoBinaryForGpu) && end.0
                        == outside
                } else {
                    exists|empty: PtxModule<D>|
                        {
                            &&& is_empty_module(empty)
                            &&& #[trigger] loaded(
                                properties,
                                translate,
                                compile,
                                *count,
                                *read,
                                load,
                                pause,
                                *report,
                                outside,
                                end.0,
                                texts.len() as usize,
                                None,
                                empty,
                                *settings,
                                end.1,
                            )
                        }
                },
            }
        };
    lemma_pick_of(parse, image@, texts, picked);
    if let Some((index, module)) = picked {
        lemma_loaded_with(
            properties,
            translate,
            compile,
            *count,
            *read,
            load,
            pause,
            *report,
            outside,
            end.0,
            texts.len() as usize,
            Some(texts[index as int]@),
            module,
            *settings,
            end.1,
        );
    } else if !settings.is_debug {
        let empty = choose|empty: PtxModule<D>|
            {
                &&& is_empty_module(empty)
                &&& #[trigger] loaded(
                    properties,
                    translate,
                    compile,
                    *count,
                    *read,
                    load,
                    pause,
                    *report,
                    outside,
                    end.0,
                    texts.len() as usize,
                    None,
                    empty,
                    *settings,
                    end.1,
                )
            };
        lemma_loaded_with(
            properties,
            translate,
            compile,
            *count,
            *read,
            load,
            pause,
            *report,
            outside,
            end.0,
            texts.len() as usize,
            None,
            empty,
            *settings,
            end.1,
        );
    }
}

/// Only a definite count of none, where kernels were asked for, speaks against an object.
pub proof fn only_a_definite_none_counts(kernels_wanted: usize, kernels: Option<usize>, lacks: bool)
    requires
        call_ensures(lacks_kernels, (kernels_wanted, kernels), lacks),
    ensures
        kernels_wanted == 0 ==> !lacks,
        kernels is None ==> !lacks,
        kernels is Some && kernels_wanted > 0 ==> (lacks <==> kernels->Some_0 == 0),
{
}

/// Whether a translation is what an object says about itself, with the bytes of the object.
pub open spec fn is_of_object(translated: Translated, object: Seq<u8>, stored: StoredMetadata) -> bool {
    &&& translated.binary@ == object
    &&& translated.sm_version == stored.sm_version
    &&& match (translated.metadata32, stored.metadata32) {
        (Some(kept), Some(archived)) => exists|meta: ModuleMetadata32Bit| #[trigger]
            is_stored_form(archived, meta) && says_the_same(kept, meta),
        (None, None) => true,
        _ => false,
    }
}

/// What an object comes to is what it says.
proof fn lemma_is_of_object(object: Vec<u8>, stored: StoredMetadata, r: Option<Translated>)
    requires
        comes_to(object, Some(stored), r),
    ensures
        r is Some,
        is_of_object(r->Some_0, object@, stored),
{
    if stored.metadata32 is Some {
        lemma_keeping_the_stored(&stored.metadata32->Some_0, r->Some_0.metadata32->Some_0);
    }
}

/// An object from the cache comes to its own bytes and to what it says about itself; one that says
/// nothing comes to nothing.
pub proof fn object_comes_to_what_it_says(
    object: Vec<u8>,
    stored: Option<StoredMetadata>,
    r: Option<Translated>,
)
    requires
        call_ensures(translated_from, (object, stored), r),
    ensures
        r is Some <==> stored is Some,
        r is Some ==> is_of_object(r->Some_0, object@, stored->Some_0),
{
    if stored is Some {
        lemma_is_of_object(object, stored->Some_0, r);
    }
}

/// The name of the architecture is what stands before the first NUL byte, if that is text.
pub proof fn name_stands_before_the_nul(device: &Device, n: int, arch: Result<String, CuError>)
    requires
        call_ensures(get_gcn_arch, (device,), arch),
        0 <= n < device.gcn_arch_name@.len(),
        device.gcn_arch_name@[n] == 0,
        forall|i: int| 0 <= i < n ==> (#[trigger] device.gcn_arch_name@[i]) != 0,
    ensures
        arch is Ok <==> valid_utf8(device.gcn_arch_name@.take(n)),
        arch is Ok ==> encode_utf8(arch->Ok_0@) == device.gcn_arch_name@.take(n),
        arch is Err ==> arch->Err_0 == CuError::Unknown,
{
    lemma_up_to_nul(device.gcn_arch_name@, n);
    if arch is Ok {
        vstd::utf8::decode_utf8_encode_utf8(device.gcn_arch_name@.take(n));
    }
}

/// The object of the key itself goes before that of the older key, and each goes with the key that it
/// was found under.
pub proof fn own_entry_goes_first<'a>(
    key: ModuleKey<'a>,
    first: Option<Vec<u8>>,
    second: Option<(ModuleKey<'a>, Option<Vec<u8>>)>,
    found: Option<(ModuleKey<'a>, Vec<u8>)>,
)
    requires
        call_ensures(found_entry, (key, first, second), found),
    ensures
        first is Some ==> found == Some((key, first->Some_0)),
        first is None && second is Some && second->Some_0.1 is Some ==> found == Some(
            (second->Some_0.0, second->Some_0.1->Some_0),
        ),
        first is None && (second is None || second->Some_0.1 is None) ==> found is None,
{
}

/// A cache goes with the key that records the text, the device, the compiler and every attribute; there
/// is a key wherever there is a cache.
pub proof fn cache_goes_with_its_key<'a>(
    opened: Option<ModuleCache>,
    text: &str,
    isa: &'a str,
    a: &ExtraCacheAttributes,
    zluda_version: &'a str,
    keyed: Option<KeyedCache<'a>>,
)
    requires
        call_ensures(keyed_cache, (opened, text, isa, a, zluda_version), keyed),
    ensures
        keyed is Some <==> opened is Some,
        keyed is Some ==> {
            let k = keyed->Some_0;
            &&& k.cache == opened->Some_0
            &&& k.key.hash@ == blake3_hex(encode_utf8(text@))
            &&& k.key.compiler_version@ == "builtin"@
            &&& k.key.zluda_version@ == zluda_version@
            &&& k.key.device@ == isa@
            &&& k.key.backend_key@ == recorded(
                a.is_debug,
                a.clock_rate,
                a.cumode,
                a.ignore_maxnreg,
                a.num_vgpr_override,
                a.codegen_parts,
            )
        },
{
    lemma_recorded(*a);
}

/// Whether an entry may stand for a key: it is the one of the key, or in CU mode one that differs from
/// it in nothing but the text of the attributes, from which the mode is taken out.
pub open spec fn may_stand_for(entry: CacheIdentity, key: ModuleKey, cumode: bool) -> bool {
    &&& entry.hash == key.hash@
    &&& entry.compiler_version == key.compiler_version@
    &&& entry.zluda_version == key.zluda_version@
    &&& entry.device == key.device@
    &&& entry.backend_key == key.backend_key@ || cumode && entry.backend_key == replaced(
        key.backend_key@,
        ",\"cumode\":true"@,
        Seq::empty(),
    )
}

/// What is taken from a cache that is nobody else's is the object of an entry that may stand for the
/// key, unless kernels were asked for and it has none, and what that object says about itself. Without
/// a cache there is nothing. Where nothing is taken, nothing is told but that an entry is empty.
pub proof fn cached_translation_is_the_stored_one<
    'a,
    O,
    C: Fn(&Vec<u8>) -> Option<usize>,
    V: Fn(&Vec<u8>) -> Option<StoredMetadata>,
    N: Fn(O, Report) -> O,
>(
    slot: &mut Option<KeyedCache<'a>>,
    kernels_wanted: usize,
    cumode: bool,
    count: &C,
    read: &V,
    outside: O,
    report: &N,
    end: (O, Option<Translated>),
)
    requires
        call_ensures(
            load_cached_binary::<O, C, V, N>,
            (slot, kernels_wanted, cumode, count, read, outside, report),
            end,
        ),
        *old(slot) is Some ==> (*old(slot))->Some_0.cache.private(),
    ensures
        *final(slot) is Some <==> *old(slot) is Some,
        *old(slot) is None ==> end.1 is None && end.0 == outside,
        *old(slot) is Some ==> (*final(slot))->Some_0.key == (*old(slot))->Some_0.key
            && (*final(slot))->Some_0.cache.private(),
        end.1 is Some ==> end.0 == outside,
        end.1 is Some ==> exists|entry: CacheIdentity, object: Vec<u8>, stored: StoredMetadata|
            {
                &&& #[trigger] may_stand_for(entry, (*old(slot))->Some_0.key, cumode)
                &&& (*old(slot))->Some_0.cache.rows().dom().contains(entry)
                &&& (*old(slot))->Some_0.cache.rows()[entry].binary == object@
                &&& #[trigger] read.ensures((&object,), Some(stored))
                &&& is_of_object(end.1->Some_0, object@, stored)
                &&& kernels_wanted > 0 ==> exists|kernels: Option<usize>| #[trigger]
                    count.ensures((&object,), kernels) && kernels != Some(0usize)
            },
        end.1 is None ==> end.0 == outside || kernels_wanted > 0 && report.ensures(
            (outside, Report::EmptyEntry(kernels_wanted)),
            end.0,
        ) && exists|object: Vec<u8>| #[trigger] count.ensures((&object,), Some(0usize)),
{
    if *old(slot) is Some {
        let before = (*old(slot))->Some_0;
        let after = (*final(slot))->Some_0;
        let (first, second, removed) = choose|
            first: Lookup,
            second: Option<Lookup>,
            removed: Option<bool>,
        |
            #[trigger] looked_up_so(
                *count,
                *read,
                *report,
                outside,
                end.0,
                kernels_wanted,
                cumode,
                before,
                after,
                first,
                second,
                removed,
                end.1,
            );
        let (searched, found) = choose|
            searched: ModuleCache,
            found: Option<(ModuleKey, Vec<u8>)>,
        |
            {
                &&& #[trigger] finding_led(
                    before.cache,
                    searched,
                    before.key,
                    cumode,
                    first,
                    second,
                    found,
                )
                &&& match found {
                    Some((entry, object)) => judged(
                        *count,
                        *read,
                        *report,
                        outside,
                        end.0,
                        kernels_wanted,
                        entry,
                        object,
                        searched,
                        after.cache,
                        removed,
                        end.1,
                    ),
                    None => removed is None && end.1 is None && after.cache == searched && end.0
                        == outside,
                }
            };
        if let Some((entry, object)) = found {
            assert(may_stand_for(entry.identity(), before.key, cumode));
            assert(before.cache.rows().dom().contains(entry.identity()));
            assert(before.cache.rows()[entry.identity()].binary == object@);
            if end.1 is Some {
                let stored = choose|stored: Option<StoredMetadata>|
                    {
                        &&& #[trigger] read.ensures((&object,), stored)
                        &&& comes_to(object, stored, end.1)
                    };
                lemma_is_of_object(object, stored->Some_0, end.1);
                assert(read.ensures((&object,), Some(stored->Some_0)));
            }
        }
    }
}

/// There is no cache without a text or without a path. With both, what is opened is the cache in that
/// file, under the key that records the text, the device, the compiler and every attribute.
pub proof fn opened_cache_goes_with_its_key<'a>(
    text: Option<&str>,
    cache_path: Option<&str>,
    isa: &'a str,
    a: &ExtraCacheAttributes,
    zluda_version: &'a str,
    opened: Option<KeyedCache<'a>>,
)
    requires
        call_ensures(open_cache, (text, cache_path, isa, a, zluda_version), opened),
    ensures
        opened is Some ==> {
            let k = opened->Some_0;
            &&& text is Some
            &&& cache_path is Some
            &&& k.cache.patience() == 5000
            &&& k.key.hash@ == blake3_hex(encode_utf8(text->Some_0@))
            &&& k.key.compiler_version@ == "builtin"@
            &&& k.key.zluda_version@ == zluda_version@
            &&& k.key.device@ == isa@
            &&& k.key.backend_key@ == recorded(
                a.is_debug,
                a.clock_rate,
                a.cumode,
                a.ignore_maxnreg,
                a.num_vgpr_override,
                a.codegen_parts,
            )
        },
        text is Some && cache_path is Some && opened is None ==> opening_gave(
            cache_path->Some_0,
            None,
        ),
{
    lemma_recorded(*a);
}

/// A translation is made only where none was found, and then with the attributes; what was found is
/// given as it is, and nothing is translated, compiled or stored for it.
pub proof fn what_is_not_found_is_made<
    'a,
    O,
    D,
    T,
    X: FnOnce(PtxModule<D>, PtxAttributes) -> Result<Translation<T>, String>,
    Y: FnOnce(&str, T, u32) -> Result<Vec<u8>, String>,
    C: Fn(&Vec<u8>) -> Option<usize>,
    V: Fn(&Vec<u8>) -> Option<StoredMetadata>,
    W: Fn(O, u64) -> O,
    N: Fn(O, Report) -> O,
>(
    slot: &mut Option<KeyedCache<'a>>,
    module: PtxModule<D>,
    kernels_wanted: usize,
    arch: &str,
    attributes: ExtraCacheAttributes,
    translate: X,
    compile: Y,
    count: &C,
    read: &V,
    outside: O,
    pause: W,
    report: &N,
    end: (O, Result<Translated, CuError>),
)
    requires
        call_ensures(
            find_or_make::<O, D, T, X, Y, C, V, W, N>,
            (
                slot,
                module,
                kernels_wanted,
                arch,
                attributes,
                translate,
                compile,
                count,
                read,
                outside,
                pause,
                report,
            ),
            end,
        ),
    ensures
        exists|looked_up: Option<KeyedCache>, cached: Option<Translated>, told: O|
            {
                &&& #[trigger] slot_load(
                    *count,
                    *read,
                    *report,
                    outside,
                    told,
                    kernels_wanted,
                    attributes.cumode,
                    *old(slot),
                    looked_up,
                    cached,
                )
                &&& cached is Some ==> end.1 is Ok && end.1->Ok_0 == cached->Some_0 && end.0 == told
                    && *final(slot) == looked_up
                &&& cached is None ==> exists|handed: PtxAttributes|
                    {
                        &&& #[trigger] made_with(
                            translate,
                            compile,
                            *count,
                            *report,
                            arch,
                            module,
                            handed,
                            attributes.codegen_parts,
                            kernels_wanted,
                            told,
                            end,
                        )
                        &&& handed.cumode == attributes.cumode
                        &&& handed.clock_rate == attributes.clock_rate
                        &&& handed.ignore_maxnreg == attributes.ignore_maxnreg
                        &&& handed.num_vgpr_override == attributes.num_vgpr_override
                    }
            },
{
    let (looked_up, cached, told) = choose|
        looked_up: Option<KeyedCache>,
        cached: Option<Translated>,
        told: O,
    |
        {
            &&& #[trigger] slot_load(
                *count,
                *read,
                *report,
                outside,
                told,
                kernels_wanted,
                attributes.cumode,
                *old(slot),
                looked_up,
                cached,
            )
            &&& found_or_compiled(
                translate,
                compile,
                *count,
                pause,
                *report,
                told,
                end.0,
                arch,
                attributes,
                module,
                kernels_wanted,
                cached,
                looked_up,
                *final(slot),
                end.1,
            )
        };
    if cached is None {
        lemma_made_with(
            translate,
            compile,
            *count,
            pause,
            *report,
            told,
            end.0,
            arch,
            attributes,
            module,
            kernels_wanted,
            looked_up,
            *final(slot),
            end.1,
            PtxAttributes {
                clock_rate: attributes.clock_rate,
                cumode: attributes.cumode,
                ignore_maxnreg: attributes.ignore_maxnreg,
                num_vgpr_override: attributes.num_vgpr_override,
            },
        );
    }
}

/// Whether a cache that is nobody else's holds an object under its key, stamped with the time of the
/// key, unless an entry was there already, which then stands as it was; or else it is as before, and it
/// was told that the object could not be stored. No other entry changed.
pub open spec fn holds_after<O, N: Fn(O, Report) -> O>(
    report: N,
    to: O,
    object: Seq<u8>,
    before: KeyedCache,
    after: KeyedCache,
) -> bool {
    let key = before.key.identity();
    &&& after.key.identity() == key
    &&& is_clock_time(after.key.last_access)
    &&& after.cache.private()
    &&& forall|other: CacheIdentity|
        other != key ==> (#[trigger] after.cache.rows().dom().contains(other)
            <==> before.cache.rows().dom().contains(other))
    &&& forall|other: CacheIdentity|
        before.cache.rows().dom().contains(other) ==> #[trigger] after.cache.rows()[other]
            == before.cache.rows()[other]
    &&& {
        ||| {
            &&& after.cache.rows().dom().contains(key)
            &&& !before.cache.rows().dom().contains(key) ==> {
                &&& after.cache.rows()[key].binary == object
                &&& after.cache.rows()[key].last_access == after.key.last_access
            }
        }
        ||| {
            &&& after.cache.rows() == before.cache.rows()
            &&& exists|written: O, error: StoreError| #[trigger]
                report.ensures((written, Report::NotStored(error)), to)
        }
    }
}

/// Storing leaves the object in the cache.
proof fn lemma_holds_after<O, W: Fn(O, u64) -> O, N: Fn(O, Report) -> O>(
    pause: W,
    report: N,
    from: O,
    to: O,
    object: Seq<u8>,
    before: KeyedCache,
    after: KeyedCache,
)
    requires
        keyed_stored(pause, report, from, to, object, before, after),
        before.cache.private(),
    ensures
        holds_after(report, to, object, before, after),
{
    let outcome = choose|outcome: Result<(), StoreError>| #[trigger]
        stored(pause, report, from, to, object, before.cache, after.cache, after.key, outcome);
    let (bytes, written) = choose|bytes: &[u8], written: O|
        {
            &&& bytes@ == object
            &&& #[trigger] storing_gave(
                pause,
                from,
                written,
                before.cache,
                after.cache,
                &after.key,
                bytes,
                outcome,
            )
            &&& match outcome {
                Ok(_) => to == written,
                Err(error) => report.ensures((written, Report::NotStored(error)), to),
            }
        };
    if let Err(error) = outcome {
        assert(report.ensures((written, Report::NotStored(error)), to));
    }
}

/// An object that was compiled is stored under the key of the cache, where there is one.
pub proof fn compiled_object_is_stored<
    'a,
    O,
    D,
    T,
    X: FnOnce(PtxModule<D>, PtxAttributes) -> Result<Translation<T>, String>,
    Y: FnOnce(&str, T, u32) -> Result<Vec<u8>, String>,
    C: Fn(&Vec<u8>) -> Option<usize>,
    W: Fn(O, u64) -> O,
    N: Fn(O, Report) -> O,
>(
    gcn_arch: &str,
    attributes: ExtraCacheAttributes,
    ast: PtxModule<D>,
    kernels_wanted: usize,
    slot: &mut Option<KeyedCache<'a>>,
    translate: X,
    compile: Y,
    count: &C,
    outside: O,
    pause: W,
    report: &N,
    end: (O, Result<Translated, CuError>),
)
    requires
        call_ensures(
            compile_and_cache::<O, D, T, X, Y, C, W, N>,
            (
                gcn_arch,
                attributes,
                ast,
                kernels_wanted,
                slot,
                translate,
                compile,
                count,
                outside,
                pause,
                report,
            ),
            end,
        ),
        end.1 is Ok,
        *old(slot) is Some ==> (*old(slot))->Some_0.cache.private(),
    ensures
        *final(slot) is Some <==> *old(slot) is Some,
        *old(slot) is None ==> end.0 == outside,
        *old(slot) is Some ==> holds_after(
            *report,
            end.0,
            end.1->Ok_0.binary@,
            (*old(slot))->Some_0,
            (*final(slot))->Some_0,
        ),
{
    let outcome = choose|outcome: Result<Translation<T>, String>|
        {
            &&& #[trigger] translating_gave(translate, attributes, ast, outcome)
            &&& match outcome {
                Err(message) => {
                    &&& report.ensures((outside, Report::NotTranslated(message)), end.0)
                    &&& end.1 == Err::<Translated, CuError>(CuError::Unknown)
                    &&& *final(slot) == *old(slot)
                },
                Ok(translation) => compiled(
                    translate,
                    compile,
                    *count,
                    pause,
                    *report,
                    outside,
                    end.0,
                    gcn_arch,
                    attributes,
                    ast,
                    kernels_wanted,
                    translation,
                    *old(slot),
                    *final(slot),
                    end.1,
                ),
            }
        };
    let translation = outcome->Ok_0;
    let built = choose|built: Result<Vec<u8>, String>|
        {
            &&& #[trigger] compiling_gave(
                translate,
                compile,
                gcn_arch,
                attributes,
                ast,
                translation,
                built,
            )
            &&& match built {
                Err(message) => {
                    &&& report.ensures((outside, Report::NotCompiled(message)), end.0)
                    &&& end.1 == Err::<Translated, CuError>(CuError::Unknown)
                    &&& *final(slot) == *old(slot)
                },
                Ok(object) => finished(
                    *count,
                    pause,
                    *report,
                    outside,
                    end.0,
                    kernels_wanted,
                    translation,
                    object,
                    *old(slot),
                    *final(slot),
                    end.1,
                ),
            }
        };
    let object = built->Ok_0;
    assert(slot_stored(
        pause,
        *report,
        outside,
        end.0,
        object@,
        *old(slot),
        *final(slot),
    ));
    if *old(slot) is Some {
        lemma_holds_after(
            pause,
            *report,
            outside,
            end.0,
            object@,
            (*old(slot))->Some_0,
            (*final(slot))->Some_0,
        );
    }
}

} // verus!
