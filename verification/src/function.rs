//! What is answered about a function, and what is handed to the driver when it is launched.
use crate::error::CuError;
use crate::module::Function;
use crate::text;
use crate::text::{decimal, trimmed_to, u32_of_text};
use vstd::prelude::*;

verus! {

/// An attribute of a function.
#[derive(Clone, Copy, PartialEq, Eq, Structural, Debug)]
pub enum FunctionAttribute {
    NumRegs,
    PtxVersion,
    BinaryVersion,
    ClusterSizeMustBeSet,
    RequiredClusterWidth,
    RequiredClusterHeight,
    RequiredClusterDepth,
    NonPortableClusterSizeAllowed,
    ClusterSchedulingPolicyPreference,
    /// Another attribute, by its number.
    Other(i32),
}

/// How a function divides the memory next to the processor between cache and shared memory.
#[derive(Clone, Copy, PartialEq, Eq, Structural, Debug)]
pub enum CacheConfig {
    NoPreference,
    PreferShared,
    PreferL1,
    PreferEqual,
}

/// The value of an attribute that the driver is not asked about.
pub open spec fn known_attribute(attribute: FunctionAttribute, sm_version: u32) -> Option<i32> {
    match attribute {
        FunctionAttribute::PtxVersion => Some(sm_version as i32),
        FunctionAttribute::BinaryVersion => Some(120i32),
        FunctionAttribute::NumRegs | FunctionAttribute::Other(_) => None,
        // There are no clusters.
        _ => Some(0i32),
    }
}

/// The value of an attribute for which the driver gave `value`. No function uses no registers.
pub open spec fn corrected_attribute(attribute: FunctionAttribute, value: i32) -> i32 {
    if attribute == FunctionAttribute::NumRegs && value < 1 {
        1i32
    } else {
        value
    }
}

/// The value of an attribute for which the driver gave `value`.
pub fn correct_attribute(attribute: FunctionAttribute, value: i32) -> (corrected: i32)
    ensures
        corrected == corrected_attribute(attribute, value),
{
    match attribute {
        FunctionAttribute::NumRegs => if value < 1 {
            1
        } else {
            value
        },
        _ => value,
    }
}

/// The value of an attribute of a function. `query` asks the driver for it.
pub fn get_attribute<Q: FnOnce(usize, FunctionAttribute) -> Result<i32, CuError>>(
    attribute: FunctionAttribute,
    func: &Function,
    query: Q,
) -> (value: Result<i32, CuError>)
    requires
        known_attribute(attribute, func.sm_version) is None ==> query.requires(
            (func.base, attribute),
        ),
    ensures
        match known_attribute(attribute, func.sm_version) {
            Some(known) => value == Ok::<i32, CuError>(known),
            None => exists|answer: Result<i32, CuError>|
                {
                    &&& #[trigger] query.ensures((func.base, attribute), answer)
                    &&& value == match answer {
                        Ok(given) => Ok::<i32, CuError>(corrected_attribute(attribute, given)),
                        Err(error) => Err(error),
                    }
                },
        },
{
    match attribute {
        FunctionAttribute::PtxVersion => {
            return Ok(#[verifier::truncate] (func.sm_version as i32));
        },
        FunctionAttribute::BinaryVersion => {
            return Ok(120);
        },
        FunctionAttribute::ClusterSizeMustBeSet
        | FunctionAttribute::RequiredClusterWidth
        | FunctionAttribute::RequiredClusterHeight
        | FunctionAttribute::RequiredClusterDepth
        | FunctionAttribute::NonPortableClusterSizeAllowed
        | FunctionAttribute::ClusterSchedulingPolicyPreference => {
            return Ok(0);
        },
        _ => {},
    }
    match query(func.base, attribute) {
        Ok(given) => Ok(correct_attribute(attribute, given)),
        Err(error) => Err(error),
    }
}

/// Whether an attribute is one of the versions, which cannot be set.
pub open spec fn is_version(attribute: FunctionAttribute) -> bool {
    attribute == FunctionAttribute::PtxVersion || attribute == FunctionAttribute::BinaryVersion
}

/// Sets an attribute of a function. The versions cannot be set; everything else is left to the
/// driver, which `forward` asks.
pub fn set_attribute<F: FnOnce(usize, FunctionAttribute, i32) -> Result<(), CuError>>(
    func: &Function,
    attribute: FunctionAttribute,
    value: i32,
    forward: F,
) -> (r: Result<(), CuError>)
    requires
        !is_version(attribute) ==> forward.requires((func.base, attribute, value)),
    ensures
        if is_version(attribute) {
            r == Err::<(), CuError>(CuError::NotSupported)
        } else {
            forward.ensures((func.base, attribute, value), r)
        },
{
    match attribute {
        FunctionAttribute::PtxVersion | FunctionAttribute::BinaryVersion => Err(
            CuError::NotSupported,
        ),
        _ => forward(func.base, attribute, value),
    }
}

/// Accepts any preference: there is nothing to divide.
pub fn set_cache_config(_func: &Function, _config: CacheConfig) -> (r: Result<(), CuError>)
    ensures
        r == Ok::<(), CuError>(()),
{
    Ok(())
}

/// The largest group that the backend was promised, from the value of
/// `ZLUDA_FLAT_WORK_GROUP_SIZE`.
pub fn promised_group_size(setting: Option<&str>) -> (limit: Option<u32>)
    ensures
        match setting {
            Some(value) => exists|inner: Seq<char>| #[trigger]
                trimmed_to(value@, inner) && limit == u32_of_text(inner),
            None => limit is None,
        },
{
    match setting {
        Some(value) => text::parse_u32(text::trim(value).as_str()),
        None => None,
    }
}

/// The smaller of a product and the largest 32-bit number.
pub open spec fn saturated(product: int) -> int {
    if product > u32::MAX {
        u32::MAX as int
    } else {
        product
    }
}

/// The product, or the largest number where the product is larger.
fn saturating_product(x: u32, y: u32) -> (product: u32)
    ensures
        product == saturated(x * y),
{
    assert(x * y <= 0xffff_ffff * 0xffff_ffff) by (nonlinear_arith)
        requires
            0 <= x <= 0xffff_ffff,
            0 <= y <= 0xffff_ffff,
    ;
    let product: u64 = x as u64 * y as u64;
    if product > u32::MAX as u64 {
        u32::MAX
    } else {
        product as u32
    }
}

/// How many threads a group has, or the largest number where it has more.
pub fn threads_per_group(block: (u32, u32, u32)) -> (threads: u32)
    ensures
        threads == saturated(block.0 * block.1 * block.2),
{
    let area: u32 = saturating_product(block.0, block.1);
    let threads: u32 = saturating_product(area, block.2);
    proof {
        let product = block.0 * block.1;
        let depth = block.2 as int;
        if product > u32::MAX {
            if depth == 0 {
                assert(product * depth == 0) by (nonlinear_arith)
                    requires
                        depth == 0,
                ;
                assert(area * depth == 0) by (nonlinear_arith)
                    requires
                        depth == 0,
                ;
            } else {
                assert(product * depth >= product) by (nonlinear_arith)
                    requires
                        depth >= 1,
                        product >= 0,
                ;
                assert(area * depth >= area) by (nonlinear_arith)
                    requires
                        depth >= 1,
                        area >= 0,
                ;
            }
        }
    }
    threads
}

/// A launch with more threads per group than the backend was promised.
#[derive(Clone, Copy, PartialEq, Eq, Structural, Debug)]
pub struct BrokenPromise {
    pub limit: u32,
    pub threads: u32,
}

/// Whether a launch breaks the promise, and how.
///
/// Breaking it does not corrupt anything: the dispatch is refused, with an error that says nothing
/// about why, so it is said here.
pub fn broken_promise(promised: Option<u32>, block: (u32, u32, u32)) -> (broken: Option<BrokenPromise>)
    ensures
        broken == promise_broken_by(promised, block),
{
    match promised {
        Some(limit) => {
            let threads: u32 = threads_per_group(block);
            if threads > limit {
                Some(BrokenPromise { limit, threads })
            } else {
                None
            }
        },
        None => None,
    }
}

/// How a launch breaks the promise, if it does.
pub open spec fn promise_broken_by(promised: Option<u32>, block: (u32, u32, u32)) -> Option<
    BrokenPromise,
> {
    match promised {
        Some(limit) => {
            let threads = saturated(block.0 * block.1 * block.2);
            if threads > limit {
                Some(BrokenPromise { limit, threads: threads as u32 })
            } else {
                None
            }
        },
        None => None,
    }
}

/// How many entries of a list of launch parameters are looked at. It is a guard against a list that
/// is not terminated at all rather than a real limit: the defined markers only allow two pairs.
pub const MAX_ENTRIES: usize = 16;

/// What ends a list of launch parameters for the driver. What the program ends it with is null.
pub const LAUNCH_PARAM_END: usize = 3;

/// Whether none of the markers among the entries is null. Markers stand at the even positions, each
/// before its value.
pub open spec fn no_terminator(entries: Seq<usize>) -> bool {
    forall|i: int| 0 <= i < entries.len() && i % 2 == 0 ==> #[trigger] entries[i] != 0
}

/// Whether `entry` gave these entries, in order from the start of the list.
pub open spec fn entries_read<F: Fn(usize) -> usize>(entry: F, entries: Seq<usize>) -> bool {
    forall|i: int|
        0 <= i < entries.len() ==> entry.ensures((i as usize,), #[trigger] entries[i])
}

/// Whether `r` is the list for the driver, after `entries` were read of the list of the program:
/// the same pairs, with the other terminator.
pub open spec fn extra_translated(entries: Seq<usize>, r: Result<Vec<usize>, CuError>) -> bool {
    match r {
        Ok(list) => {
            &&& entries.len() > 0
            &&& entries.len() <= MAX_ENTRIES
            &&& entries.len() % 2 == 1
            &&& no_terminator(entries.drop_last())
            &&& entries.last() == 0
            &&& list@ == entries.drop_last().push(LAUNCH_PARAM_END)
        },
        Err(error) => {
            &&& entries.len() == MAX_ENTRIES
            &&& no_terminator(entries)
            &&& error == CuError::InvalidValue
        },
    }
}

/// Rebuilds a list of launch parameters with the terminator of the driver. `entry` reads an entry
/// of the list; it is never asked for one behind the terminator.
pub fn translate_extra<F: Fn(usize) -> usize>(entry: F) -> (r: Result<Vec<usize>, CuError>)
    requires
        forall|entries: Seq<usize>| #[trigger]
            entries_read(entry, entries) && no_terminator(entries) && entries.len() < MAX_ENTRIES
                ==> entry.requires((entries.len() as usize,)),
    ensures
        exists|entries: Seq<usize>| #[trigger]
            entries_read(entry, entries) && extra_translated(entries, r),
{
    let mut translated: Vec<usize> = Vec::new();
    let mut i: usize = 0;
    while i < MAX_ENTRIES
        invariant
            forall|entries: Seq<usize>| #[trigger]
                entries_read(entry, entries) && no_terminator(entries) && entries.len()
                    < MAX_ENTRIES ==> entry.requires((entries.len() as usize,)),
            i <= MAX_ENTRIES,
            i % 2 == 0,
            translated@.len() == i,
            entries_read(entry, translated@),
            no_terminator(translated@),
        decreases MAX_ENTRIES - i,
    {
        let ghost before = translated@;
        let marker: usize = entry(i);
        assert(entries_read(entry, before.push(marker)));
        if marker == 0 {
            let ghost entries = before.push(marker);
            assert(entries.drop_last() =~= before);
            translated.push(LAUNCH_PARAM_END);
            let r = Ok(translated);
            assert(extra_translated(entries, r));
            return r;
        }
        translated.push(marker);
        assert(no_terminator(translated@));
        let value: usize = entry(i + 1);
        translated.push(value);
        i += 2;
    }
    Err(CuError::InvalidValue)
}

/// How a kernel is launched.
#[derive(Clone, Copy, Debug)]
pub struct Launch {
    pub grid: (u32, u32, u32),
    pub block: (u32, u32, u32),
    pub shared_mem_bytes: u32,
    /// The handle of the stream.
    pub stream: usize,
    /// The address of the array of arguments, or null.
    pub kernel_params: usize,
}

/// Launches a kernel. `extra` reads the list of launch parameters, where there is one, `warn` tells
/// of a promise that the launch breaks, and `submit` hands the launch to the driver.
pub fn launch_kernel<
    F: Fn(usize) -> usize,
    N: FnOnce(BrokenPromise),
    S: FnOnce(usize, Launch, Option<Vec<usize>>) -> Result<(), CuError>,
>(
    func: &Function,
    launch: Launch,
    extra: Option<F>,
    promised: Option<u32>,
    warn: N,
    submit: S,
) -> (r: Result<(), CuError>)
    requires
        extra matches Some(entry) ==> forall|entries: Seq<usize>| #[trigger]
            entries_read(entry, entries) && no_terminator(entries) && entries.len() < MAX_ENTRIES
                ==> entry.requires((entries.len() as usize,)),
        forall|broken: BrokenPromise|
            promise_broken_by(promised, launch.block) == Some(broken) ==> #[trigger] warn.requires(
                (broken,),
            ),
        extra is None ==> submit.requires((func.base, launch, None::<Vec<usize>>)),
        forall|entries: Seq<usize>, list: Vec<usize>|
            (extra matches Some(entry) && entries_read(entry, entries)) && #[trigger]
            extra_translated(entries, Ok::<Vec<usize>, CuError>(list)) ==> submit.requires(
                (func.base, launch, Some(list)),
            ),
    ensures
        promise_broken_by(promised, launch.block) matches Some(broken) ==> warn.ensures(
            (broken,),
            (),
        ),
        match extra {
            None => submit.ensures((func.base, launch, None::<Vec<usize>>), r),
            Some(entry) => exists|entries: Seq<usize>, list: Result<Vec<usize>, CuError>|
                {
                    &&& entries_read(entry, entries)
                    &&& #[trigger] extra_translated(entries, list)
                    &&& match list {
                        Ok(translated) => submit.ensures(
                            (func.base, launch, Some(translated)),
                            r,
                        ),
                        Err(error) => r == Err::<(), CuError>(error),
                    }
                },
        },
{
    match broken_promise(promised, launch.block) {
        Some(broken) => warn(broken),
        None => {},
    }
    match extra {
        None => submit(func.base, launch, None),
        Some(entry) => match translate_extra(entry) {
            Ok(translated) => submit(func.base, launch, Some(translated)),
            Err(error) => Err(error),
        },
    }
}

/// A list of launch parameters determines what the driver gets: two readings of the same entries
/// give the same list.
pub proof fn extra_is_determined(
    memory: Seq<usize>,
    first: Seq<usize>,
    second: Seq<usize>,
    a: Result<Vec<usize>, CuError>,
    b: Result<Vec<usize>, CuError>,
)
    requires
        first.is_prefix_of(memory),
        second.is_prefix_of(memory),
        extra_translated(first, a),
        extra_translated(second, b),
    ensures
        first == second,
        a is Ok == b is Ok,
        a is Ok ==> a->Ok_0@ == b->Ok_0@,
{
    assert forall|i: int| 0 <= i < first.len() && i < second.len() implies first[i] == second[i] by {
        assert(first[i] == memory[i]);
        assert(second[i] == memory[i]);
    }
    if first.len() < second.len() {
        if a is Ok {
            let last = first.len() - 1;
            assert(second[last] == 0);
            if b is Ok {
                assert(second.drop_last()[last] == 0);
            }
        }
    } else if second.len() < first.len() {
        if b is Ok {
            let last = second.len() - 1;
            assert(first[last] == 0);
            if a is Ok {
                assert(first.drop_last()[last] == 0);
            }
        }
    }
    assert(first =~= second);
}

/// A list that is accepted reaches the driver entry for entry, whatever the entries are: the same
/// markers and values in the same places, up to the terminator, and the driver's terminator in the
/// place of the program's. It is accepted if and only if a null marker stands among its first
/// sixteen entries, and nothing behind that marker matters.
pub proof fn driver_gets_every_entry<F: Fn(usize) -> usize>(
    entry: F,
    memory: Seq<usize>,
    r: Result<Vec<usize>, CuError>,
)
    requires
        call_ensures(translate_extra::<F>, (entry,), r),
        memory.len() >= 16,
        forall|i: usize, value: usize|
            i < memory.len() && #[trigger] entry.ensures((i,), value) ==> value == memory[i as int],
    ensures
        r matches Ok(list) ==> {
            let last = list@.len() - 1;
            &&& 0 <= last < 16
            &&& last % 2 == 0
            &&& list@[last] == 3
            &&& memory[last] == 0
            &&& forall|i: int| 0 <= i < last ==> #[trigger] list@[i] == memory[i]
            &&& forall|i: int| 0 <= i < last && i % 2 == 0 ==> #[trigger] memory[i] != 0
        },
        r matches Err(error) ==> {
            &&& error == CuError::InvalidValue
            &&& forall|i: int| 0 <= i < 16 && i % 2 == 0 ==> #[trigger] memory[i] != 0
        },
{
    let entries = choose|entries: Seq<usize>| #[trigger]
        entries_read(entry, entries) && extra_translated(entries, r);
    assert forall|i: int| 0 <= i < entries.len() implies #[trigger] entries[i] == memory[i] by {
        assert(entry.ensures((i as usize,), entries[i]));
    }
    match r {
        Ok(list) => {
            let last = list@.len() - 1;
            assert(entries.len() == list@.len());
            assert forall|i: int| 0 <= i < last implies #[trigger] list@[i] == memory[i] by {
                assert(list@[i] == entries.drop_last()[i]);
                assert(entries[i] == memory[i]);
            }
            assert forall|i: int| 0 <= i < last && i % 2 == 0 implies #[trigger] memory[i] != 0 by {
                assert(entries.drop_last()[i] != 0);
                assert(entries[i] == memory[i]);
            }
            assert(entries[last] == memory[last]);
        },
        Err(_) => {
            assert forall|i: int| 0 <= i < 16 && i % 2 == 0 implies #[trigger] memory[i] != 0 by {
                assert(entries[i] == memory[i]);
            }
        },
    }
}

/// Whether reading an entry of the list gives what is in memory.
pub open spec fn reads_memory<F: Fn(usize) -> usize>(entry: F, memory: Seq<usize>) -> bool {
    forall|i: usize, value: usize|
        i < memory.len() && #[trigger] entry.ensures((i,), value) ==> value == memory[i as int]
}

/// A launch reaches the driver as the program asked for it: the same function, grid, block, memory,
/// stream and arguments, and of a list of launch parameters every entry up to its terminator. A list
/// without a terminator among its first sixteen entries is refused.
pub proof fn launch_reaches_the_driver<
    F: Fn(usize) -> usize,
    N: FnOnce(BrokenPromise),
    S: FnOnce(usize, Launch, Option<Vec<usize>>) -> Result<(), CuError>,
>(
    func: &Function,
    launch: Launch,
    extra: Option<F>,
    promised: Option<u32>,
    warn: N,
    submit: S,
    memory: Seq<usize>,
    r: Result<(), CuError>,
)
    requires
        call_ensures(
            launch_kernel::<F, N, S>,
            (func, launch, extra, promised, warn, submit),
            r,
        ),
        memory.len() >= 16,
        extra matches Some(entry) ==> reads_memory(entry, memory),
    ensures
        extra is None ==> submit.ensures((func.base, launch, None::<Vec<usize>>), r),
        extra is Some ==> {
            ||| exists|list: Vec<usize>|
                {
                    &&& #[trigger] submit.ensures((func.base, launch, Some(list)), r)
                    &&& 0 < list@.len() <= 15
                    &&& list@.last() == 3
                    &&& memory[list@.len() - 1] == 0
                    &&& forall|i: int| 0 <= i < list@.len() - 1 ==> #[trigger] list@[i] == memory[i]
                }
            ||| {
                &&& r == Err::<(), CuError>(CuError::InvalidValue)
                &&& forall|i: int| 0 <= i < 16 && i % 2 == 0 ==> #[trigger] memory[i] != 0
            }
        },
{
    if extra is Some {
        let entry = extra->Some_0;
        let (entries, list) = choose|entries: Seq<usize>, list: Result<Vec<usize>, CuError>|
            {
                &&& entries_read(entry, entries)
                &&& #[trigger] extra_translated(entries, list)
                &&& match list {
                    Ok(translated) => submit.ensures((func.base, launch, Some(translated)), r),
                    Err(error) => r == Err::<(), CuError>(error),
                }
            };
        assert forall|i: int| 0 <= i < entries.len() implies #[trigger] entries[i] == memory[i] by {
            assert(entry.ensures((i as usize,), entries[i]));
        }
        match list {
            Ok(translated) => {
                assert(submit.ensures((func.base, launch, Some(translated)), r));
                assert forall|i: int| 0 <= i < translated@.len() - 1 implies #[trigger]
                    translated@[i] == memory[i] by {
                    assert(translated@[i] == entries.drop_last()[i]);
                    assert(entries[i] == memory[i]);
                }
                assert(entries[translated@.len() - 1] == memory[translated@.len() - 1]);
            },
            Err(_) => {
                assert forall|i: int| 0 <= i < 16 && i % 2 == 0 implies #[trigger] memory[i] != 0 by {
                    assert(entries[i] == memory[i]);
                }
            },
        }
    }
}

/// A launch with more threads in a group than were promised is told of, with the promise and the
/// number of threads, which counts no higher than 32 bits do.
pub proof fn broken_promise_is_told<
    F: Fn(usize) -> usize,
    N: FnOnce(BrokenPromise),
    S: FnOnce(usize, Launch, Option<Vec<usize>>) -> Result<(), CuError>,
>(
    func: &Function,
    launch: Launch,
    extra: Option<F>,
    limit: u32,
    warn: N,
    submit: S,
    told: Option<BrokenPromise>,
    r: Result<(), CuError>,
)
    requires
        call_ensures(
            launch_kernel::<F, N, S>,
            (func, launch, extra, Some(limit), warn, submit),
            r,
        ),
        call_ensures(broken_promise, (Some(limit), launch.block), told),
    ensures
        ({
            let threads = launch.block.0 * launch.block.1 * launch.block.2;
            &&& limit < threads && limit < u32::MAX <==> told is Some
            &&& told matches Some(broken) ==> {
                &&& broken.limit == limit
                &&& threads <= u32::MAX ==> broken.threads == threads
                &&& threads > u32::MAX ==> broken.threads == u32::MAX
                &&& warn.ensures((broken,), ())
            }
        }),
{
}

/// What is answered about the attributes of a function: its own version, a fixed binary version, no
/// clusters, and of everything else what the driver says, but at least one register.
pub proof fn answers_about_attributes<Q: FnOnce(usize, FunctionAttribute) -> Result<i32, CuError>>(
    attribute: FunctionAttribute,
    func: &Function,
    query: Q,
    value: Result<i32, CuError>,
)
    requires
        call_ensures(get_attribute::<Q>, (attribute, func, query), value),
    ensures
        match attribute {
            FunctionAttribute::PtxVersion => value is Ok && value->Ok_0 == (if func.sm_version
                <= i32::MAX {
                func.sm_version as int
            } else {
                func.sm_version - 0x1_0000_0000
            }),
            FunctionAttribute::BinaryVersion => value is Ok && value->Ok_0 == 120,
            FunctionAttribute::NumRegs => exists|answer: Result<i32, CuError>|
                {
                    &&& #[trigger] query.ensures((func.base, attribute), answer)
                    &&& answer is Err ==> value == answer
                    &&& answer matches Ok(given) ==> value is Ok && value->Ok_0 >= 1 && (
                    value->Ok_0 == given || given < 1 && value->Ok_0 == 1)
                },
            FunctionAttribute::Other(_) => query.ensures((func.base, attribute), value),
            FunctionAttribute::ClusterSizeMustBeSet
            | FunctionAttribute::RequiredClusterWidth
            | FunctionAttribute::RequiredClusterHeight
            | FunctionAttribute::RequiredClusterDepth
            | FunctionAttribute::NonPortableClusterSizeAllowed
            | FunctionAttribute::ClusterSchedulingPolicyPreference => value is Ok && value->Ok_0 == 0,
        },
{
    let version = func.sm_version;
    assert(version <= 0x7fff_ffff ==> (version as i32) as int == version) by (bit_vector);
    assert(version > 0x7fff_ffff ==> (version as i32) as int == version - 0x1_0000_0000)
        by (bit_vector);
}

/// Only the two versions cannot be set; everything else is set as the driver sets it, with the value
/// that was given.
pub proof fn setting_reaches_the_driver<
    F: FnOnce(usize, FunctionAttribute, i32) -> Result<(), CuError>,
>(func: &Function, attribute: FunctionAttribute, value: i32, forward: F, r: Result<(), CuError>)
    requires
        call_ensures(set_attribute::<F>, (func, attribute, value, forward), r),
    ensures
        attribute is PtxVersion || attribute is BinaryVersion ==> r == Err::<(), CuError>(
            CuError::NotSupported,
        ),
        !(attribute is PtxVersion || attribute is BinaryVersion) ==> forward.ensures(
            (func.base, attribute, value),
            r,
        ),
{
}

/// A promised size is the number that the setting writes, whatever white space is around it.
pub proof fn promise_is_the_number_written(
    setting: &str,
    before: Seq<char>,
    n: u32,
    after: Seq<char>,
    limit: Option<u32>,
)
    requires
        call_ensures(promised_group_size, (Some(setting),), limit),
        setting@ == before + decimal(n as nat) + after,
        forall|i: int| 0 <= i < before.len() ==> text::is_space(#[trigger] before[i]),
        forall|i: int| 0 <= i < after.len() ==> text::is_space(#[trigger] after[i]),
    ensures
        limit == Some(n),
{
    let inner = choose|inner: Seq<char>| #[trigger]
        trimmed_to(setting@, inner) && limit == u32_of_text(inner);
    let digits = decimal(n as nat);
    text::lemma_decimal_value(n as nat);
    let from = before.len() as int;
    let to = from + digits.len();
    assert(setting@.subrange(from, to) =~= digits);
    assert forall|i: int| to <= i < setting@.len() implies text::is_space(#[trigger] setting@[i]) by {
        assert(setting@[i] == after[i - to]);
    }
    assert forall|i: int| 0 <= i < from implies text::is_space(#[trigger] setting@[i]) by {
        assert(setting@[i] == before[i]);
    }
    assert(text::trimmed_range(setting@, from, to));
    assert(text::is_digit(digits[0]) && text::is_digit(digits[digits.len() - 1]));
    text::trimming_is_unique(setting@, inner, digits);
}

/// No function uses no registers; every other answer of the driver stands.
pub proof fn answer_of_the_driver_stands(attribute: FunctionAttribute, value: i32, corrected: i32)
    requires
        call_ensures(correct_attribute, (attribute, value), corrected),
    ensures
        attribute is NumRegs && value < 1 ==> corrected == 1,
        !(attribute is NumRegs && value < 1) ==> corrected == value,
{
}

/// A group has as many threads as the three sizes have as a product, up to the largest number.
pub proof fn threads_are_the_product(block: (u32, u32, u32), threads: u32)
    requires
        call_ensures(threads_per_group, (block,), threads),
    ensures
        block.0 * block.1 * block.2 <= u32::MAX ==> threads == block.0 * block.1 * block.2,
        block.0 * block.1 * block.2 > u32::MAX ==> threads == u32::MAX,
{
}

/// Every preference is accepted.
pub proof fn every_preference_is_accepted(func: &Function, config: CacheConfig, r: Result<(), CuError>)
    requires
        call_ensures(set_cache_config, (func, config), r),
    ensures
        r is Ok,
{
}

} // verus!
