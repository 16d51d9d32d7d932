//! Cutting a module into parts for code generation, and comparing the kernels of two builds of
//! the same module.
use crate::target::path_to_cstring;
use crate::text;
use crate::text::{decimal, lower, u32_of_text};
use vstd::prelude::*;

verus! {

/// The name of a kernel and how many bytes of code it has.
pub struct KernelSize {
    pub name: String,
    pub size: u64,
}

/// A kernel that came out larger in the fused build than in the unfused one.
pub struct KernelGrowth {
    pub name: String,
    pub unfused: u64,
    pub fused: u64,
}

/// Kernels smaller than this are too small to trust a ratio of sizes from.
pub const SMALLEST_COMPARED_KERNEL: u64 = 4096;

/// How many bytes of code `entries` count for the kernel `name` in all.
pub open spec fn code_size(entries: Seq<KernelSize>, name: Seq<char>) -> nat
    decreases entries.len(),
{
    if entries.len() == 0 {
        0
    } else {
        code_size(entries.drop_last(), name) + if entries.last().name@ == name {
            entries.last().size as nat
        } else {
            0
        }
    }
}

/// Whether `entries` mention the kernel `name`.
pub open spec fn mentions(entries: Seq<KernelSize>, name: Seq<char>) -> bool {
    exists|i: int| 0 <= i < entries.len() && (#[trigger] entries[i]).name@ == name
}

/// Whether no kernel is mentioned twice.
pub open spec fn one_entry_each(entries: Seq<KernelSize>) -> bool {
    forall|i: int, j: int|
        0 <= i < j < entries.len() ==> (#[trigger] entries[i]).name@ != (#[trigger] entries[j]).name@
}

/// The entries of all the objects of a build, one object after the other.
pub open spec fn all_entries(objects: Seq<Vec<KernelSize>>) -> Seq<KernelSize>
    decreases objects.len(),
{
    if objects.len() == 0 {
        Seq::empty()
    } else {
        all_entries(objects.drop_last()) + objects.last()@
    }
}

/// Whether the code of every kernel that `entries` mention can be counted in 64 bits.
pub open spec fn sizes_fit(entries: Seq<KernelSize>) -> bool {
    forall|name: Seq<char>| #[trigger] code_size(entries, name) <= u64::MAX
}

/// The size of `name` in a build, or `otherwise` where the build does not have it.
pub open spec fn size_or(entries: Seq<KernelSize>, name: Seq<char>, otherwise: u64) -> nat {
    if mentions(entries, name) {
        code_size(entries, name)
    } else {
        otherwise as nat
    }
}

/// Whether a kernel of the unfused build counts in the comparison: it is large enough, and it
/// grew.
pub open spec fn grew(unfused: KernelSize, fused: Seq<KernelSize>) -> bool {
    &&& unfused.size >= SMALLEST_COMPARED_KERNEL
    &&& size_or(fused, unfused.name@, unfused.size) > unfused.size
}

/// Name, unfused size and fused size of each kernel that counts in the comparison, in the order of
/// the unfused build.
pub open spec fn growth_table(unfused: Seq<KernelSize>, fused: Seq<KernelSize>) -> Seq<
    (Seq<char>, nat, nat),
>
    decreases unfused.len(),
{
    if unfused.len() == 0 {
        Seq::empty()
    } else {
        let before = growth_table(unfused.drop_last(), fused);
        let last = unfused.last();
        if grew(last, fused) {
            before.push((last.name@, last.size as nat, size_or(fused, last.name@, last.size)))
        } else {
            before
        }
    }
}

/// A list of growths as name, unfused size and fused size.
pub open spec fn listed_growths(growths: Seq<KernelGrowth>) -> Seq<(Seq<char>, nat, nat)> {
    growths.map_values(|g: KernelGrowth| (g.name@, g.unfused as nat, g.fused as nat))
}

/// The most parts that a module is cut into.
pub const MOST_PARTS: u32 = 32;

/// A number of parts within the bounds: at least one, and at most thirty-two.
pub open spec fn within_bounds(parts: int) -> u32 {
    if parts < 1 {
        1u32
    } else if parts > MOST_PARTS {
        MOST_PARTS
    } else {
        parts as u32
    }
}

/// Whether a value of `ZLUDA_CODEGEN_PARTS` is neither a number nor `auto`.
pub open spec fn is_illegal_setting(value: Seq<char>) -> bool {
    lower(value) != "auto"@ && u32_of_text(value) is None
}

/// The complaint about such a value.
pub open spec fn setting_complaint(value: Seq<char>) -> Seq<char> {
    "ZLUDA_CODEGEN_PARTS is neither a number nor auto: "@ + value
}

/// How many parts a module is cut into.
pub open spec fn parts_of(setting: Option<&str>, parallelism: Option<usize>) -> u32 {
    match setting {
        None => 1u32,
        Some(value) => if lower(value@) == "auto"@ {
            match parallelism {
                Some(threads) => within_bounds(threads as int),
                None => 1u32,
            }
        } else {
            match u32_of_text(value@) {
                Some(number) => within_bounds(number as int),
                None => 1u32,
            }
        },
    }
}

/// How many parts to cut the module into before generating code, from the value of
/// `ZLUDA_CODEGEN_PARTS` and the number of threads this machine runs at once, where it is known.
///
/// Absent keeps the whole module in one piece. Off by default on purpose: splitting narrows what
/// the optimiser can see, so the code that comes out is not the same code. Each part takes a thread,
/// so there are never more than thirty-two. The case of `auto` does not matter. A value that means
/// nothing is complained about to `report`, and counts as absent.
pub fn codegen_parts<N: FnOnce(String)>(
    setting: Option<&str>,
    parallelism: Option<usize>,
    report: N,
) -> (parts: u32)
    requires
        forall|complaint: String|
            (setting matches Some(value) && is_illegal_setting(value@) && complaint@
                == setting_complaint(value@)) ==> #[trigger] report.requires((complaint,)),
    ensures
        parts == parts_of(setting, parallelism),
        1 <= parts <= MOST_PARTS,
        setting matches Some(value) ==> is_illegal_setting(value@) ==> exists|complaint: String|
            complaint@ == setting_complaint(value@) && #[trigger] report.ensures((complaint,), ()),
{
    match setting {
        None => 1,
        Some(value) => if text::same_in_lower_case(value, "auto") {
            match parallelism {
                Some(threads) => if threads < 1 {
                    1
                } else if threads > MOST_PARTS as usize {
                    MOST_PARTS
                } else {
                    threads as u32
                },
                None => 1,
            }
        } else {
            match text::parse_u32(value) {
                Some(number) => if number < 1 {
                    1
                } else if number > MOST_PARTS {
                    MOST_PARTS
                } else {
                    number
                },
                None => {
                    let mut complaint =
                        "ZLUDA_CODEGEN_PARTS is neither a number nor auto: ".to_owned();
                    complaint.append(value);
                    report(complaint);
                    assert(report.ensures((complaint,), ()));
                    1
                },
            }
        },
    }
}

/// Whether each module is built with and without fusion, from the value of `ZLUDA_SELECTIVE_FUSE`.
/// It doubles the time that a translation takes, so it is off unless asked for: an empty value and
/// a zero turn it off too.
pub fn selective_fuse_requested(setting: Option<&str>) -> (requested: bool)
    ensures
        requested == (setting matches Some(value) && value@.len() != 0 && value@ != "0"@),
{
    match setting {
        Some(value) => !value.is_empty() && !text::same(value, "0"),
        None => false,
    }
}

/// The name of the file that part `index` of a split module is written to.
pub fn part_file_name(index: u32) -> (name: String)
    ensures
        name@ == part_name(index as nat),
{
    let mut name = "part_".to_owned();
    name.append(text::decimal_of(index).as_str());
    name.append(".bc");
    name
}

/// The message for a module that could not be split. `detail` is what the splitter had to say.
pub fn split_failure(detail: Option<&str>) -> (message: String)
    ensures
        message@ == "Failed to split module: "@ + match detail {
            Some(text) => text@,
            None => "no parts produced"@,
        },
{
    let mut message = "Failed to split module: ".to_owned();
    match detail {
        Some(text) => message.append(text),
        None => message.append("no parts produced"),
    }
    message
}

/// What came of generating code for one part of a split module.
pub enum PartOutcome {
    Object(Vec<u8>),
    /// The bitcode of the part could not be parsed.
    Unparsed,
    /// The code generator failed, with a message.
    Failed(String),
    /// The thread that worked on the part panicked.
    Panicked,
}

/// The message for a part that came to no object.
pub open spec fn part_failure_text(outcome: PartOutcome) -> Seq<char> {
    match outcome {
        PartOutcome::Object(_) => Seq::empty(),
        PartOutcome::Unparsed => "Failed to parse a module part"@,
        PartOutcome::Failed(message) => message@,
        PartOutcome::Panicked => "a code generation thread panicked"@,
    }
}

/// Whether `r` is what the parts come to together: all their objects in order, or the message of
/// the first part that has none.
pub open spec fn collected(outcomes: Seq<PartOutcome>, r: Result<Vec<Vec<u8>>, String>) -> bool {
    match r {
        Ok(objects) => {
            &&& objects@.len() == outcomes.len()
            &&& forall|i: int|
                0 <= i < outcomes.len() ==> (#[trigger] outcomes[i]) == PartOutcome::Object(
                    objects@[i],
                )
        },
        Err(message) => exists|k: int|
            {
                &&& 0 <= k < outcomes.len()
                &&& !(#[trigger] outcomes[k] is Object)
                &&& message@ == part_failure_text(outcomes[k])
                &&& forall|i: int| 0 <= i < k ==> (#[trigger] outcomes[i]) is Object
            },
    }
}

/// The objects of all parts, or the message of the first part that has none.
pub fn collect_objects(outcomes: Vec<PartOutcome>) -> (r: Result<Vec<Vec<u8>>, String>)
    ensures
        collected(outcomes@, r),
{
    let ghost all = outcomes@;
    let mut objects: Vec<Vec<u8>> = Vec::new();
    for outcome in iter: outcomes
        invariant
            iter.seq() == all,
            objects@.len() == iter.index(),
            forall|i: int|
                0 <= i < iter.index() ==> (#[trigger] all[i]) == PartOutcome::Object(objects@[i]),
    {
        assert(all[iter.index() as int] == outcome);
        match outcome {
            PartOutcome::Object(object) => objects.push(object),
            PartOutcome::Unparsed => {
                return Err("Failed to parse a module part".to_owned());
            },
            PartOutcome::Failed(message) => {
                return Err(message);
            },
            PartOutcome::Panicked => {
                return Err("a code generation thread panicked".to_owned());
            },
        }
    }
    Ok(objects)
}

/// What a splitter says: how many parts it wrote, and a message where it has one.
pub struct Split {
    pub written: u32,
    pub detail: Option<String>,
}

/// A file that could not be read: its path as it is shown, and the reason.
pub struct ReadFailure {
    pub path: String,
    pub reason: String,
}

/// The name of the file that part `index` of a split module is written to.
pub open spec fn part_name(index: nat) -> Seq<char> {
    "part_"@ + decimal(index) + ".bc"@
}

/// Whether reading the file of part `index` gave `bitcode`.
pub open spec fn part_read<R: Fn(String) -> Result<Vec<u8>, ReadFailure>>(
    read: R,
    index: nat,
    bitcode: Vec<u8>,
) -> bool {
    exists|name: String|
        name@ == part_name(index) && #[trigger] read.ensures(
            (name,),
            Ok::<Vec<u8>, ReadFailure>(bitcode),
        )
}

/// Whether reading the files of the first parts gave `parts`.
pub open spec fn parts_read<R: Fn(String) -> Result<Vec<u8>, ReadFailure>>(
    read: R,
    parts: Seq<Vec<u8>>,
) -> bool {
    forall|i: int|
        0 <= i < parts.len() ==> #[trigger] part_read(read, i as nat, parts[i])
}

/// Whether `r` is what comes of reading the `written` parts and generating code for them.
pub open spec fn emitted_from_files<
    R: Fn(String) -> Result<Vec<u8>, ReadFailure>,
    G: FnOnce(Vec<Vec<u8>>) -> Vec<PartOutcome>,
>(read: R, generate: G, written: u32, r: Result<Vec<Vec<u8>>, String>) -> bool {
    ||| exists|parts: Vec<Vec<u8>>, outcomes: Vec<PartOutcome>|
        {
            &&& parts@.len() == written
            &&& parts_read(read, parts@)
            &&& #[trigger] generate.ensures((parts,), outcomes)
            &&& outcomes@.len() == written
            &&& collected(outcomes@, r)
        }
    ||| exists|parts: Seq<Vec<u8>>, name: String, failure: ReadFailure|
        {
            &&& parts.len() < written
            &&& #[trigger] parts_read(read, parts)
            &&& name@ == part_name(parts.len())
            &&& #[trigger] read.ensures((name,), Err::<Vec<u8>, ReadFailure>(failure))
            &&& r matches Err(message)
            &&& message@ == "Failed to read "@ + failure.path@ + ": "@ + failure.reason@
        }
}

/// Whether `r` is what comes of splitting the module into files that start with `prefix` and
/// generating code for the parts.
pub open spec fn emitted_from_prefix<
    S: FnOnce(String, u32) -> Split,
    R: Fn(String) -> Result<Vec<u8>, ReadFailure>,
    G: FnOnce(Vec<Vec<u8>>) -> Vec<PartOutcome>,
>(
    split: S,
    read: R,
    generate: G,
    prefix: Option<String>,
    parts: u32,
    r: Result<Vec<Vec<u8>>, String>,
) -> bool {
    match prefix {
        None => r matches Err(message) && message@ == "path is not valid as str"@,
        Some(path) => if path@.contains('\0') {
            r matches Err(message) && message@ == "path includes invalid null byte"@
        } else {
            exists|name: String, answer: Split|
                {
                    &&& name@ == path@
                    &&& #[trigger] split.ensures((name, parts), answer)
                    &&& if answer.written == 0 {
                        r matches Err(message) && message@ == split_failure_text(answer.detail)
                    } else {
                        emitted_from_files(read, generate, answer.written, r)
                    }
                }
        },
    }
}

/// The message for a module that could not be split.
pub open spec fn split_failure_text(detail: Option<String>) -> Seq<char> {
    "Failed to split module: "@ + match detail {
        Some(text) => text@,
        None => "no parts produced"@,
    }
}

/// Whether the module may be split into files that start with `prefix`: the directory was made, and
/// the prefix can be handed to the splitter.
pub open spec fn may_split<D: FnOnce() -> Result<Option<String>, String>>(
    create: D,
    prefix: String,
) -> bool {
    exists|path: String|
        {
            &&& #[trigger] create.ensures((), Ok::<Option<String>, String>(Some(path)))
            &&& !path@.contains('\0')
            &&& prefix@ == path@
        }
}

/// Whether splitting the module may give this answer.
pub open spec fn splitting_gave<
    D: FnOnce() -> Result<Option<String>, String>,
    S: FnOnce(String, u32) -> Split,
>(create: D, split: S, parts: u32, answer: Split) -> bool {
    exists|prefix: String|
        may_split(create, prefix) && #[trigger] split.ensures((prefix, parts), answer)
}

/// Whether the files of the `written` parts may be read, each after the ones before it, and code
/// generated once all of them were read.
pub open spec fn may_emit<
    R: Fn(String) -> Result<Vec<u8>, ReadFailure>,
    G: FnOnce(Vec<Vec<u8>>) -> Vec<PartOutcome>,
>(read: R, generate: G, written: u32) -> bool {
    &&& forall|name: String, before: Seq<Vec<u8>>|
        before.len() < written && name@ == part_name(before.len()) && #[trigger] parts_read(
            read,
            before,
        ) ==> #[trigger] read.requires((name,))
    &&& forall|bitcode: Vec<Vec<u8>>|
        written > 0 && bitcode@.len() == written && parts_read(read, bitcode@) ==> #[trigger]
        generate.requires((bitcode,))
}

/// Cuts an already optimised module up and generates code for each part.
///
/// `create` makes a directory for the parts and gives the path that their names start with, where
/// that is valid Unicode. `split` cuts the module up and writes the parts, `read` reads the file of
/// a part, and `generate` generates code for all of them at once.
///
/// The module must be optimised first, whole: helpers that the parts share are dropped from a part
/// in which nobody calls them.
pub fn emit_objects_in_parallel<
    D: FnOnce() -> Result<Option<String>, String>,
    S: FnOnce(String, u32) -> Split,
    R: Fn(String) -> Result<Vec<u8>, ReadFailure>,
    G: FnOnce(Vec<Vec<u8>>) -> Vec<PartOutcome>,
>(parts: u32, create: D, split: S, read: R, generate: G) -> (r: Result<Vec<Vec<u8>>, String>)
    requires
        create.requires(()),
        forall|prefix: String|
            may_split(create, prefix) ==> #[trigger] split.requires((prefix, parts)),
        forall|answer: Split| #[trigger]
            splitting_gave(create, split, parts, answer) ==> may_emit(
                read,
                generate,
                answer.written,
            ),
        forall|bitcode: Vec<Vec<u8>>, outcomes: Vec<PartOutcome>| #[trigger]
            generate.ensures((bitcode,), outcomes) ==> outcomes@.len() == bitcode@.len(),
    ensures
        exists|created: Result<Option<String>, String>|
            {
                &&& #[trigger] create.ensures((), created)
                &&& match created {
                    Err(reason) => r matches Err(message) && message@
                        == "Failed to create temp dir: "@ + reason@,
                    Ok(prefix) => emitted_from_prefix(split, read, generate, prefix, parts, r),
                }
            },
{
    let created = create();
    let prefix = match created {
        Err(reason) => {
            let mut message = "Failed to create temp dir: ".to_owned();
            message.append(reason.as_str());
            return Err(message);
        },
        Ok(prefix) => prefix,
    };
    let name = match path_to_cstring(
        match &prefix {
            Some(path) => Some(path.as_str()),
            None => None,
        },
    ) {
        Ok(name) => name,
        Err(message) => {
            return Err(message);
        },
    };
    assert(may_split(create, name)) by {
        assert(create.ensures((), Ok::<Option<String>, String>(Some(prefix->Some_0))));
    }
    let answer = split(name, parts);
    assert(splitting_gave(create, split, parts, answer));
    if answer.written == 0 {
        return Err(
            split_failure(
                match &answer.detail {
                    Some(detail) => Some(detail.as_str()),
                    None => None,
                },
            ),
        );
    }
    let mut bitcodes: Vec<Vec<u8>> = Vec::new();
    let mut i: u32 = 0;
    while i < answer.written
        invariant
            may_emit(read, generate, answer.written),
            i <= answer.written,
            bitcodes@.len() == i,
            parts_read(read, bitcodes@),
            create.ensures((), created),
            created == Ok::<Option<String>, String>(prefix),
            prefix matches Some(path) && !path@.contains('\0') && name@ == path@,
            split.ensures((name, parts), answer),
        decreases answer.written - i,
    {
        let file = part_file_name(i);
        assert(parts_read(read, bitcodes@));
        match read(file) {
            Ok(bitcode) => {
                let ghost before = bitcodes@;
                bitcodes.push(bitcode);
                i += 1;
                let ghost after = bitcodes@;
                assert forall|k: int| 0 <= k < after.len() implies #[trigger] part_read(
                    read,
                    k as nat,
                    after[k],
                ) by {
                    if k < before.len() {
                        assert(part_read(read, k as nat, before[k]));
                    } else {
                        assert(read.ensures((file,), Ok::<Vec<u8>, ReadFailure>(after[k])));
                    }
                }
                assert(parts_read(read, after));
            },
            Err(failure) => {
                let mut message = "Failed to read ".to_owned();
                message.append(failure.path.as_str());
                message.append(": ");
                message.append(failure.reason.as_str());
                assert(parts_read(read, bitcodes@));
                return Err(message);
            },
        }
    }
    let outcomes = generate(bitcodes);
    assert(generate.ensures((bitcodes,), outcomes));
    collect_objects(outcomes)
}

/// What `code_size` and `mentions` say of a list with one more entry.
proof fn lemma_code_size_push(entries: Seq<KernelSize>, entry: KernelSize, name: Seq<char>)
    ensures
        code_size(entries.push(entry), name) == code_size(entries, name) + if entry.name@ == name {
            entry.size as nat
        } else {
            0
        },
        mentions(entries.push(entry), name) == (mentions(entries, name) || entry.name@ == name),
{
    assert(entries.push(entry).drop_last() =~= entries);
    if mentions(entries, name) {
        let i = choose|i: int| 0 <= i < entries.len() && (#[trigger] entries[i]).name@ == name;
        assert(entries.push(entry)[i].name@ == name);
    }
    if entry.name@ == name {
        assert(entries.push(entry)[entries.len() as int].name@ == name);
    }
    if mentions(entries.push(entry), name) && entry.name@ != name {
        let i = choose|i: int|
            0 <= i < entries.push(entry).len() && (#[trigger] entries.push(entry)[i]).name@ == name;
        assert(entries[i].name@ == name);
    }
}

/// A kernel that is not mentioned has no code, and in a list with one entry for each kernel the
/// code of a kernel is the size of its entry.
proof fn lemma_single_entry(entries: Seq<KernelSize>, name: Seq<char>)
    requires
        one_entry_each(entries),
    ensures
        !mentions(entries, name) ==> code_size(entries, name) == 0,
        forall|i: int|
            0 <= i < entries.len() && (#[trigger] entries[i]).name@ == name ==> code_size(
                entries,
                name,
            ) == entries[i].size,
    decreases entries.len(),
{
    if entries.len() > 0 {
        let rest = entries.drop_last();
        assert(one_entry_each(rest)) by {
            assert forall|i: int, j: int| 0 <= i < j < rest.len() implies (#[trigger] rest[i]).name@
                != (#[trigger] rest[j]).name@ by {
                assert(entries[i].name@ != entries[j].name@);
            }
        }
        lemma_single_entry(rest, name);
        lemma_code_size_push(rest, entries.last(), name);
        assert(rest.push(entries.last()) =~= entries);
        if entries.last().name@ == name {
            assert(!mentions(rest, name)) by {
                assert forall|i: int| 0 <= i < rest.len() implies (#[trigger] rest[i]).name@ != name by {
                    assert(entries[i].name@ != entries[entries.len() - 1].name@);
                }
            }
        }
        assert forall|i: int| 0 <= i < entries.len() && (#[trigger] entries[i]).name@ == name implies code_size(
            entries,
            name,
        ) == entries[i].size by {
            if i < rest.len() {
                assert(rest[i].name@ == name);
                assert(entries[i].name@ != entries[entries.len() - 1].name@);
            }
        }
    }
}

/// A longer list counts no less for any kernel.
proof fn lemma_code_size_prefix(entries: Seq<KernelSize>, k: int, name: Seq<char>)
    requires
        0 <= k <= entries.len(),
    ensures
        code_size(entries.take(k), name) <= code_size(entries, name),
    decreases entries.len() - k,
{
    if k < entries.len() {
        assert(entries.take(k + 1) =~= entries.take(k).push(entries[k]));
        lemma_code_size_push(entries.take(k), entries[k], name);
        lemma_code_size_prefix(entries, k + 1, name);
    } else {
        assert(entries.take(k) =~= entries);
    }
}

/// The position of a kernel in a list.
fn position_of(entries: &Vec<KernelSize>, name: &String) -> (r: Option<usize>)
    ensures
        match r {
            Some(i) => i < entries@.len() && entries@[i as int].name@ == name@,
            None => !mentions(entries@, name@),
        },
{
    let mut i: usize = 0;
    while i < entries.len()
        invariant
            i <= entries@.len(),
            forall|k: int| 0 <= k < i ==> (#[trigger] entries@[k]).name@ != name@,
        decreases entries@.len() - i,
    {
        if entries[i].name == *name {
            return Some(i);
        }
        i += 1;
    }
    None
}

/// Counts one more entry.
fn count_entry(totals: &mut Vec<KernelSize>, entry: &KernelSize)
    requires
        one_entry_each(old(totals)@),
        code_size(old(totals)@, entry.name@) + entry.size <= u64::MAX,
    ensures
        one_entry_each(final(totals)@),
        forall|name: Seq<char>|
            #![trigger code_size(final(totals)@, name)]
            code_size(final(totals)@, name) == code_size(old(totals)@, name) + if entry.name@
                == name {
                entry.size as nat
            } else {
                0
            },
        forall|name: Seq<char>|
            #![trigger mentions(final(totals)@, name)]
            mentions(final(totals)@, name) == (mentions(old(totals)@, name) || entry.name@ == name),
{
    let ghost before = totals@;
    match position_of(totals, &entry.name) {
        Some(i) => {
            proof {
                lemma_single_entry(before, entry.name@);
                assert(before[i as int].name@ == entry.name@);
            }
            let sum: u64 = totals[i].size + entry.size;
            let name = totals[i].name.clone();
            totals.set(i, KernelSize { name, size: sum });
            proof {
                let after = totals@;
                assert forall|a: int, b: int| 0 <= a < b < after.len() implies (#[trigger] after[a]).name@
                    != (#[trigger] after[b]).name@ by {
                    assert(before[a].name@ != before[b].name@);
                }
                assert forall|name: Seq<char>| #![trigger code_size(after, name)] code_size(
                    after,
                    name,
                ) == code_size(before, name) + (if entry.name@ == name {
                    entry.size as nat
                } else {
                    0
                }) by {
                    lemma_single_entry(before, name);
                    lemma_single_entry(after, name);
                    if mentions(before, name) {
                        let k = choose|k: int|
                            0 <= k < before.len() && (#[trigger] before[k]).name@ == name;
                        assert(after[k].name@ == name);
                        if entry.name@ == name && k != i {
                            assert(before[k].name@ == before[i as int].name@);
                        }
                    } else {
                        assert(!mentions(after, name)) by {
                            assert forall|k: int| 0 <= k < after.len() implies (#[trigger] after[k]).name@
                                != name by {
                                assert(before[k].name@ != name);
                            }
                        }
                        assert(before[i as int].name@ != name);
                    }
                }
                assert forall|name: Seq<char>| #![trigger mentions(after, name)] mentions(
                    after,
                    name,
                ) == (mentions(before, name) || entry.name@ == name) by {
                    if mentions(before, name) {
                        let k = choose|k: int|
                            0 <= k < before.len() && (#[trigger] before[k]).name@ == name;
                        assert(after[k].name@ == name);
                    }
                    if mentions(after, name) {
                        let k = choose|k: int|
                            0 <= k < after.len() && (#[trigger] after[k]).name@ == name;
                        assert(before[k].name@ == name);
                    }
                    if entry.name@ == name {
                        assert(after[i as int].name@ == name);
                    }
                }
            }
        },
        None => {
            totals.push(KernelSize { name: entry.name.clone(), size: entry.size });
            proof {
                let after = totals@;
                let added = after.last();
                assert(after =~= before.push(added));
                assert forall|a: int, b: int| 0 <= a < b < after.len() implies (#[trigger] after[a]).name@
                    != (#[trigger] after[b]).name@ by {
                    if b < before.len() {
                        assert(before[a].name@ != before[b].name@);
                    } else {
                        assert(before[a].name@ != entry.name@);
                    }
                }
                assert forall|name: Seq<char>| #![trigger code_size(after, name)] code_size(
                    after,
                    name,
                ) == code_size(before, name) + (if entry.name@ == name {
                    entry.size as nat
                } else {
                    0
                }) by {
                    lemma_code_size_push(before, added, name);
                }
                assert forall|name: Seq<char>| #![trigger mentions(after, name)] mentions(
                    after,
                    name,
                ) == (mentions(before, name) || entry.name@ == name) by {
                    lemma_code_size_push(before, added, name);
                }
            }
        },
    }
}

/// A kernel that is not mentioned has no code.
proof fn lemma_unmentioned(entries: Seq<KernelSize>, name: Seq<char>)
    requires
        !mentions(entries, name),
    ensures
        code_size(entries, name) == 0,
    decreases entries.len(),
{
    if entries.len() > 0 {
        assert(entries.last().name@ != name) by {
            assert(entries[entries.len() - 1] == entries.last());
        }
        if mentions(entries.drop_last(), name) {
            let i = choose|i: int|
                0 <= i < entries.len() - 1 && (#[trigger] entries.drop_last()[i]).name@ == name;
            assert(entries[i].name@ == name);
        }
        lemma_unmentioned(entries.drop_last(), name);
    }
}

/// The code size of a kernel over all objects, where it can be counted in 64 bits.
fn total_size_of(objects: &Vec<Vec<KernelSize>>, name: &str) -> (total: Option<u64>)
    ensures
        match total {
            Some(size) => size == code_size(all_entries(objects@), name@),
            None => code_size(all_entries(objects@), name@) > u64::MAX,
        },
{
    let ghost every = all_entries(objects@);
    let mut total: u64 = 0;
    let mut o: usize = 0;
    assert(objects@.take(0) =~= Seq::empty());
    while o < objects.len()
        invariant
            o <= objects@.len(),
            every == all_entries(objects@),
            total == code_size(all_entries(objects@.take(o as int)), name@),
        decreases objects@.len() - o,
    {
        let object = &objects[o];
        let ghost earlier = all_entries(objects@.take(o as int));
        proof {
            assert(objects@.take(o + 1).drop_last() =~= objects@.take(o as int));
            lemma_prefix_of_all(objects@, o + 1);
        }
        let ghost upto = all_entries(objects@.take(o + 1));
        let mut k: usize = 0;
        assert(earlier + object@.take(0) =~= earlier);
        while k < object.len()
            invariant
                k <= object@.len(),
                upto == earlier + object@,
                every == all_entries(objects@),
                upto.len() <= every.len(),
                upto == every.take(upto.len() as int),
                total == code_size(earlier + object@.take(k as int), name@),
            decreases object@.len() - k,
        {
            let ghost counted = earlier + object@.take(k as int);
            let ghost entry = object@[k as int];
            proof {
                assert(earlier + object@.take(k + 1) =~= counted.push(entry));
                lemma_code_size_push(counted, entry, name@);
            }
            if text::same(object[k].name.as_str(), name) {
                if object[k].size > u64::MAX - total {
                    proof {
                        assert(counted.push(entry) =~= every.take(counted.len() as int + 1));
                        lemma_code_size_prefix(every, counted.len() as int + 1, name@);
                    }
                    return None;
                }
                total = total + object[k].size;
            }
            k += 1;
        }
        assert(object@.take(k as int) =~= object@);
        o += 1;
    }
    assert(objects@.take(o as int) =~= objects@);
    Some(total)
}

/// Whether the code of every kernel of a build can be counted in 64 bits.
pub fn kernel_sizes_fit(objects: &Vec<Vec<KernelSize>>) -> (fit: bool)
    ensures
        fit == sizes_fit(all_entries(objects@)),
{
    let ghost every = all_entries(objects@);
    let mut o: usize = 0;
    assert(objects@.take(0) =~= Seq::empty());
    while o < objects.len()
        invariant
            o <= objects@.len(),
            every == all_entries(objects@),
            forall|i: int|
                0 <= i < all_entries(objects@.take(o as int)).len() ==> code_size(
                    every,
                    (#[trigger] all_entries(objects@.take(o as int))[i]).name@,
                ) <= u64::MAX,
        decreases objects@.len() - o,
    {
        let object = &objects[o];
        let ghost earlier = all_entries(objects@.take(o as int));
        assert(objects@.take(o + 1).drop_last() =~= objects@.take(o as int));
        let mut k: usize = 0;
        while k < object.len()
            invariant
                k <= object@.len(),
                every == all_entries(objects@),
                forall|i: int|
                    0 <= i < k ==> code_size(every, (#[trigger] object@[i]).name@) <= u64::MAX,
            decreases object@.len() - k,
        {
            if total_size_of(objects, object[k].name.as_str()).is_none() {
                assert(code_size(every, object@[k as int].name@) > u64::MAX);
                return false;
            }
            k += 1;
        }
        proof {
            let upto = all_entries(objects@.take(o + 1));
            assert(upto == earlier + object@);
            assert forall|i: int| 0 <= i < upto.len() implies code_size(
                every,
                (#[trigger] upto[i]).name@,
            ) <= u64::MAX by {
                if i < earlier.len() {
                    assert(upto[i] == earlier[i]);
                } else {
                    assert(upto[i] == object@[i - earlier.len()]);
                }
            }
        }
        o += 1;
    }
    assert(objects@.take(o as int) =~= objects@);
    proof {
        assert forall|name: Seq<char>| #[trigger] code_size(every, name) <= u64::MAX by {
            if mentions(every, name) {
                let i = choose|i: int| 0 <= i < every.len() && (#[trigger] every[i]).name@ == name;
                assert(code_size(every, every[i].name@) <= u64::MAX);
            } else {
                lemma_unmentioned(every, name);
            }
        }
    }
    true
}

/// The code size of every kernel of a build, each kernel once. A kernel that several objects
/// mention is counted over all of them.
pub fn kernel_sizes(objects: &Vec<Vec<KernelSize>>) -> (totals: Vec<KernelSize>)
    requires
        sizes_fit(all_entries(objects@)),
    ensures
        one_entry_each(totals@),
        forall|name: Seq<char>|
            #![trigger mentions(totals@, name)]
            mentions(totals@, name) == mentions(all_entries(objects@), name),
        forall|name: Seq<char>|
            #![trigger code_size(totals@, name)]
            code_size(totals@, name) == code_size(all_entries(objects@), name),
{
    let mut totals: Vec<KernelSize> = Vec::new();
    let ghost every = all_entries(objects@);
    let mut o: usize = 0;
    assert(objects@.take(0) =~= Seq::empty());
    while o < objects.len()
        invariant
            o <= objects@.len(),
            every == all_entries(objects@),
            sizes_fit(every),
            one_entry_each(totals@),
            forall|name: Seq<char>|
                #![trigger mentions(totals@, name)]
                mentions(totals@, name) == mentions(all_entries(objects@.take(o as int)), name),
            forall|name: Seq<char>|
                #![trigger code_size(totals@, name)]
                code_size(totals@, name) == code_size(all_entries(objects@.take(o as int)), name),
        decreases objects@.len() - o,
    {
        let object = &objects[o];
        let ghost earlier = all_entries(objects@.take(o as int));
        proof {
            assert(objects@.take(o + 1).drop_last() =~= objects@.take(o as int));
            lemma_prefix_of_all(objects@, o + 1);
        }
        let ghost upto = all_entries(objects@.take(o + 1));
        let mut k: usize = 0;
        assert(earlier + object@.take(0) =~= earlier);
        while k < object.len()
            invariant
                k <= object@.len(),
                upto == earlier + object@,
                sizes_fit(every),
                upto.len() <= every.len(),
                upto == every.take(upto.len() as int),
                one_entry_each(totals@),
                forall|name: Seq<char>|
                    #![trigger mentions(totals@, name)]
                    mentions(totals@, name) == mentions(earlier + object@.take(k as int), name),
                forall|name: Seq<char>|
                    #![trigger code_size(totals@, name)]
                    code_size(totals@, name) == code_size(earlier + object@.take(k as int), name),
            decreases object@.len() - k,
        {
            let ghost counted = earlier + object@.take(k as int);
            let ghost entry = object@[k as int];
            proof {
                assert(earlier + object@.take(k + 1) =~= counted.push(entry));
                lemma_code_size_push(counted, entry, entry.name@);
                assert(counted.push(entry) =~= every.take(counted.len() as int + 1));
                lemma_code_size_prefix(every, counted.len() as int + 1, entry.name@);
                assert(code_size(every, entry.name@) <= u64::MAX);
            }
            count_entry(&mut totals, &object[k]);
            proof {
                assert forall|name: Seq<char>| #![trigger mentions(totals@, name)] mentions(
                    totals@,
                    name,
                ) == mentions(earlier + object@.take(k + 1), name) by {
                    lemma_code_size_push(counted, entry, name);
                }
                assert forall|name: Seq<char>| #![trigger code_size(totals@, name)] code_size(
                    totals@,
                    name,
                ) == code_size(earlier + object@.take(k + 1), name) by {
                    lemma_code_size_push(counted, entry, name);
                }
            }
            k += 1;
        }
        assert(object@.take(k as int) =~= object@);
        o += 1;
    }
    assert(objects@.take(o as int) =~= objects@);
    totals
}

/// The entries of the first objects come first.
proof fn lemma_prefix_of_all(objects: Seq<Vec<KernelSize>>, k: int)
    requires
        0 <= k <= objects.len(),
    ensures
        all_entries(objects.take(k)).len() <= all_entries(objects).len(),
        all_entries(objects.take(k)) == all_entries(objects).take(
            all_entries(objects.take(k)).len() as int,
        ),
    decreases objects.len() - k,
{
    if k < objects.len() {
        lemma_prefix_of_all(objects, k + 1);
        assert(objects.take(k + 1).drop_last() =~= objects.take(k));
        assert(all_entries(objects.take(k)) =~= all_entries(objects).take(
            all_entries(objects.take(k)).len() as int,
        ));
    } else {
        assert(objects.take(k) =~= objects);
        assert(all_entries(objects).take(all_entries(objects).len() as int) =~= all_entries(objects));
    }
}

/// The kernels that fusion made larger, from the sizes of the two builds.
///
/// Kernels too small to trust a ratio from are left out, and so are those that fusion did not
/// make larger: the signal is in the ones it grew.
pub fn kernel_growths(unfused: &Vec<KernelSize>, fused: &Vec<KernelSize>) -> (growths: Vec<
    KernelGrowth,
>)
    requires
        one_entry_each(fused@),
    ensures
        listed_growths(growths@) == growth_table(unfused@, fused@),
{
    let mut growths: Vec<KernelGrowth> = Vec::new();
    let mut i: usize = 0;
    assert(listed_growths(growths@) =~= growth_table(unfused@.take(0), fused@));
    while i < unfused.len()
        invariant
            i <= unfused@.len(),
            one_entry_each(fused@),
            listed_growths(growths@) == growth_table(unfused@.take(i as int), fused@),
        decreases unfused@.len() - i,
    {
        let kernel = &unfused[i];
        let fused_size: u64 = match position_of(fused, &kernel.name) {
            Some(k) => {
                proof {
                    lemma_single_entry(fused@, kernel.name@);
                    assert(fused@[k as int].name@ == kernel.name@);
                }
                fused[k].size
            },
            None => kernel.size,
        };
        assert(fused_size == size_or(fused@, kernel.name@, kernel.size));
        assert(unfused@.take(i + 1).drop_last() =~= unfused@.take(i as int));
        let ghost before = growths@;
        if kernel.size >= SMALLEST_COMPARED_KERNEL && fused_size > kernel.size {
            growths.push(
                KernelGrowth { name: kernel.name.clone(), unfused: kernel.size, fused: fused_size },
            );
            assert(listed_growths(growths@) =~= listed_growths(before).push(
                (kernel.name@, kernel.size as nat, fused_size as nat),
            ));
        }
        i += 1;
    }
    assert(unfused@.take(i as int) =~= unfused@);
    growths
}

/// The number of parts is 1 without a setting, the number of threads that run at once where the
/// setting is `auto`, and otherwise the number that it writes; it is never below 1 or above 32. A
/// setting that is neither counts as none, and is complained about word for word.
pub proof fn parts_are_as_set<N: FnOnce(String)>(
    setting: Option<&str>,
    parallelism: Option<usize>,
    report: N,
    parts: u32,
    auto: bool,
    number: Option<u32>,
)
    requires
        call_ensures(codegen_parts::<N>, (setting, parallelism, report), parts),
        setting is Some ==> call_ensures(
            text::same_in_lower_case,
            (setting->Some_0, "auto"),
            auto,
        ),
        setting is Some ==> call_ensures(text::parse_u32, (setting->Some_0,), number),
    ensures
        1 <= parts <= 32,
        setting is None ==> parts == 1,
        setting is Some && auto ==> match parallelism {
            None => parts == 1,
            Some(threads) => (1 <= threads <= 32 ==> parts == threads) && (threads < 1 ==> parts == 1)
                && (threads > 32 ==> parts == 32),
        },
        setting is Some && !auto ==> match number {
            Some(n) => (1 <= n <= 32 ==> parts == n) && (n < 1 ==> parts == 1) && (n > 32 ==> parts
                == 32),
            None => parts == 1 && exists|complaint: String|
                complaint@ == "ZLUDA_CODEGEN_PARTS is neither a number nor auto: "@
                    + setting->Some_0@ && #[trigger] report.ensures((complaint,), ()),
        },
{
}

/// Fusion is tried both ways if the setting is there, holds something and is not a zero.
pub proof fn fusion_is_tried_if_asked_for(setting: Option<&str>, requested: bool)
    requires
        call_ensures(selective_fuse_requested, (setting,), requested),
    ensures
        setting is None ==> !requested,
        setting is Some ==> (requested <==> setting->Some_0@ != Seq::<char>::empty()
            && setting->Some_0@ != seq!['0']),
{
    reveal_strlit("0");
    assert("0"@ =~= seq!['0']);
    if setting is Some && setting->Some_0@.len() == 0 {
        assert(setting->Some_0@ =~= Seq::<char>::empty());
    }
}

/// The file of a part has the number of the part in its name, so no two parts share one.
pub proof fn parts_have_files_of_their_own(index: u32, other: u32, name: String, other_name: String)
    requires
        call_ensures(part_file_name, (index,), name),
        call_ensures(part_file_name, (other,), other_name),
    ensures
        name@ == "part_"@ + decimal(index as nat) + ".bc"@,
        index != other ==> name@ != other_name@,
{
    if name@ == other_name@ {
        let p = "part_"@;
        let q = ".bc"@;
        let a = decimal(index as nat);
        let b = decimal(other as nat);
        assert(name@.len() == p.len() + a.len() + q.len());
        assert(other_name@.len() == p.len() + b.len() + q.len());
        assert(name@.subrange(p.len() as int, (p.len() + a.len()) as int) =~= a);
        assert(other_name@.subrange(p.len() as int, (p.len() + b.len()) as int) =~= b);
        text::lemma_decimal_value(index as nat);
        text::lemma_decimal_value(other as nat);
    }
}

/// What is said of a module that could not be split ends with what the splitter said.
pub proof fn splitter_is_quoted(detail: Option<&str>, message: String)
    requires
        call_ensures(split_failure, (detail,), message),
    ensures
        detail is Some ==> message@ == "Failed to split module: "@ + detail->Some_0@,
        detail is None ==> message@ == "Failed to split module: "@ + "no parts produced"@,
{
}

/// The objects of all parts are given in the order of the parts, if every part has one; otherwise what
/// is said is what is said of the first part that has none.
pub proof fn objects_come_in_order(outcomes: Vec<PartOutcome>, r: Result<Vec<Vec<u8>>, String>)
    requires
        call_ensures(collect_objects, (outcomes,), r),
    ensures
        r is Ok <==> forall|i: int|
            0 <= i < outcomes@.len() ==> (#[trigger] outcomes@[i]) is Object,
        r is Ok ==> r->Ok_0@.len() == outcomes@.len() && forall|i: int|
            0 <= i < outcomes@.len() ==> (#[trigger] outcomes@[i])->Object_0 == r->Ok_0@[i],
        forall|k: int|
            #![trigger outcomes@[k]]
            0 <= k < outcomes@.len() && !(outcomes@[k] is Object) && (forall|i: int|
                0 <= i < k ==> (#[trigger] outcomes@[i]) is Object) ==> match outcomes@[k] {
                PartOutcome::Object(_) => false,
                PartOutcome::Unparsed => r is Err && r->Err_0@ == "Failed to parse a module part"@,
                PartOutcome::Failed(message) => r is Err && r->Err_0@ == message@,
                PartOutcome::Panicked => r is Err && r->Err_0@
                    == "a code generation thread panicked"@,
            },
{
    if r is Err {
        let first = choose|k: int|
            {
                &&& 0 <= k < outcomes@.len()
                &&& !(#[trigger] outcomes@[k] is Object)
                &&& r->Err_0@ == part_failure_text(outcomes@[k])
                &&& forall|i: int| 0 <= i < k ==> (#[trigger] outcomes@[i]) is Object
            };
        assert(!(outcomes@[first] is Object));
        assert forall|k: int|
            #![trigger outcomes@[k]]
            0 <= k < outcomes@.len() && !(outcomes@[k] is Object) && (forall|i: int|
                0 <= i < k ==> (#[trigger] outcomes@[i]) is Object) implies k == first by {
            if k < first {
                assert(outcomes@[k] is Object);
            }
            if first < k {
                assert(outcomes@[first] is Object);
            }
        }
    }
}

/// Whether reading the file of this name gave `content`.
pub open spec fn read_under<R: Fn(String) -> Result<Vec<u8>, ReadFailure>>(
    read: R,
    name: Seq<char>,
    content: Vec<u8>,
) -> bool {
    exists|file: String|
        file@ == name && #[trigger] read.ensures((file,), Ok::<Vec<u8>, ReadFailure>(content))
}

/// What a split compilation that succeeds does: the module is cut into the number of parts that was
/// asked for, under the path that was made; the file of every part that was written is read, code is
/// generated for all of them at once and in their order, and the objects are those that came of it.
pub proof fn every_part_is_read_and_generated<
    D: FnOnce() -> Result<Option<String>, String>,
    S: FnOnce(String, u32) -> Split,
    R: Fn(String) -> Result<Vec<u8>, ReadFailure>,
    G: FnOnce(Vec<Vec<u8>>) -> Vec<PartOutcome>,
>(parts: u32, create: D, split: S, read: R, generate: G, r: Result<Vec<Vec<u8>>, String>) -> (trace: (
    String,
    String,
    Split,
    Vec<Vec<u8>>,
    Vec<PartOutcome>,
))
    requires
        call_ensures(emit_objects_in_parallel::<D, S, R, G>, (parts, create, split, read, generate), r),
        r is Ok,
    ensures
        ({
            let (path, prefix, answer, bitcodes, outcomes) = trace;
            &&& create.ensures((), Ok::<Option<String>, String>(Some(path)))
            &&& prefix@ == path@
            &&& split.ensures((prefix, parts), answer)
            &&& answer.written >= 1
            &&& bitcodes@.len() == answer.written
            &&& forall|i: int|
                0 <= i < answer.written ==> read_under(
                    read,
                    "part_"@ + decimal(i as nat) + ".bc"@,
                    #[trigger] bitcodes@[i],
                )
            &&& generate.ensures((bitcodes,), outcomes)
            &&& outcomes@.len() == answer.written
            &&& r->Ok_0@.len() == answer.written
            &&& forall|i: int|
                0 <= i < answer.written ==> (#[trigger] outcomes@[i]) == PartOutcome::Object(
                    r->Ok_0@[i],
                )
        }),
{
    let created = choose|created: Result<Option<String>, String>|
        {
            &&& #[trigger] create.ensures((), created)
            &&& match created {
                Err(reason) => r matches Err(message) && message@ == "Failed to create temp dir: "@
                    + reason@,
                Ok(prefix) => emitted_from_prefix(split, read, generate, prefix, parts, r),
            }
        };
    let path = created->Ok_0->Some_0;
    let (prefix, answer) = choose|name: String, answer: Split|
        {
            &&& name@ == path@
            &&& #[trigger] split.ensures((name, parts), answer)
            &&& if answer.written == 0 {
                r matches Err(message) && message@ == split_failure_text(answer.detail)
            } else {
                emitted_from_files(read, generate, answer.written, r)
            }
        };
    let (bitcodes, outcomes) = choose|bitcodes: Vec<Vec<u8>>, outcomes: Vec<PartOutcome>|
        {
            &&& bitcodes@.len() == answer.written
            &&& parts_read(read, bitcodes@)
            &&& #[trigger] generate.ensures((bitcodes,), outcomes)
            &&& outcomes@.len() == answer.written
            &&& collected(outcomes@, r)
        };
    assert forall|i: int| 0 <= i < answer.written implies read_under(
        read,
        "part_"@ + decimal(i as nat) + ".bc"@,
        #[trigger] bitcodes@[i],
    ) by {
        assert(part_read(read, i as nat, bitcodes@[i]));
    }
    (path, prefix, answer, bitcodes, outcomes)
}

/// What is said where a split compilation comes to nothing: that the directory could not be made and
/// why, that its path cannot be handed on, what the splitter said, which file could not be read and
/// why, or what is said of the first part without an object.
pub proof fn split_failures_are_told<
    D: FnOnce() -> Result<Option<String>, String>,
    S: FnOnce(String, u32) -> Split,
    R: Fn(String) -> Result<Vec<u8>, ReadFailure>,
    G: FnOnce(Vec<Vec<u8>>) -> Vec<PartOutcome>,
>(parts: u32, create: D, split: S, read: R, generate: G, r: Result<Vec<Vec<u8>>, String>)
    requires
        call_ensures(emit_objects_in_parallel::<D, S, R, G>, (parts, create, split, read, generate), r),
        r is Err,
    ensures
        exists|created: Result<Option<String>, String>|
            {
                &&& #[trigger] create.ensures((), created)
                &&& match created {
                    Err(reason) => r->Err_0@ == "Failed to create temp dir: "@ + reason@,
                    Ok(None) => r->Err_0@ == "path is not valid as str"@,
                    Ok(Some(path)) => if path@.contains('\0') {
                        r->Err_0@ == "path includes invalid null byte"@
                    } else {
                        exists|prefix: String, answer: Split|
                            {
                                &&& prefix@ == path@
                                &&& #[trigger] split.ensures((prefix, parts), answer)
                                &&& answer.written == 0 ==> r->Err_0@ == "Failed to split module: "@
                                    + (match answer.detail {
                                    Some(text) => text@,
                                    None => "no parts produced"@,
                                })
                                &&& answer.written > 0 ==> {
                                    ||| exists|bitcodes: Vec<Vec<u8>>, outcomes: Vec<PartOutcome>|
                                        {
                                            &&& #[trigger] generate.ensures((bitcodes,), outcomes)
                                            &&& bitcodes@.len() == answer.written
                                            &&& outcomes@.len() == answer.written
                                            &&& exists|k: int|
                                                {
                                                    &&& 0 <= k < outcomes@.len()
                                                    &&& match #[trigger] outcomes@[k] {
                                                        PartOutcome::Object(_) => false,
                                                        PartOutcome::Unparsed => r->Err_0@
                                                            == "Failed to parse a module part"@,
                                                        PartOutcome::Failed(message) => r->Err_0@
                                                            == message@,
                                                        PartOutcome::Panicked => r->Err_0@
                                                            == "a code generation thread panicked"@,
                                                    }
                                                }
                                        }
                                    ||| exists|k: nat, name: String, failure: ReadFailure|
                                        {
                                            &&& k < answer.written
                                            &&& name@ == "part_"@ + #[trigger] decimal(k) + ".bc"@
                                            &&& #[trigger] read.ensures(
                                                (name,),
                                                Err::<Vec<u8>, ReadFailure>(failure),
                                            )
                                            &&& r->Err_0@ == "Failed to read "@ + failure.path@
                                                + ": "@ + failure.reason@
                                        }
                                }
                            }
                    },
                }
            },
{
    let created = choose|created: Result<Option<String>, String>|
        {
            &&& #[trigger] create.ensures((), created)
            &&& match created {
                Err(reason) => r matches Err(message) && message@ == "Failed to create temp dir: "@
                    + reason@,
                Ok(prefix) => emitted_from_prefix(split, read, generate, prefix, parts, r),
            }
        };
    assert(create.ensures((), created));
    if let Ok(Some(path)) = created {
        if !path@.contains('\0') {
            let (prefix, answer) = choose|name: String, answer: Split|
                {
                    &&& name@ == path@
                    &&& #[trigger] split.ensures((name, parts), answer)
                    &&& if answer.written == 0 {
                        r matches Err(message) && message@ == split_failure_text(answer.detail)
                    } else {
                        emitted_from_files(read, generate, answer.written, r)
                    }
                };
            assert(split.ensures((prefix, parts), answer));
            if answer.written > 0 {
                if exists|bitcodes: Vec<Vec<u8>>, outcomes: Vec<PartOutcome>|
                    {
                        &&& bitcodes@.len() == answer.written
                        &&& parts_read(read, bitcodes@)
                        &&& #[trigger] generate.ensures((bitcodes,), outcomes)
                        &&& outcomes@.len() == answer.written
                        &&& collected(outcomes@, r)
                    } {
                } else {
                    let (before, name, failure) = choose|
                        before: Seq<Vec<u8>>,
                        name: String,
                        failure: ReadFailure,
                    |
                        {
                            &&& before.len() < answer.written
                            &&& #[trigger] parts_read(read, before)
                            &&& name@ == part_name(before.len())
                            &&& #[trigger] read.ensures(
                                (name,),
                                Err::<Vec<u8>, ReadFailure>(failure),
                            )
                            &&& r matches Err(message)
                            &&& message@ == "Failed to read "@ + failure.path@ + ": "@
                                + failure.reason@
                        };
                    assert(name@ == "part_"@ + decimal(before.len()) + ".bc"@);
                }
            }
        }
    }
}

/// Whether a list says of a kernel that it has this much code.
pub open spec fn says_of(totals: Seq<KernelSize>, name: Seq<char>, size: int) -> bool {
    exists|i: int|
        0 <= i < totals.len() && (#[trigger] totals[i]).name@ == name && totals[i].size == size
}

/// Every entry of every object is counted once, for its kernel and for no other: one entry more in the
/// last object adds its size to the total of its kernel, or starts one, and leaves all the others; an
/// object without entries changes nothing, and without objects there is nothing.
pub proof fn every_entry_is_counted_once(
    objects: &Vec<Vec<KernelSize>>,
    longer: &Vec<Vec<KernelSize>>,
    entry: KernelSize,
    totals: Vec<KernelSize>,
    more: Vec<KernelSize>,
    name: Seq<char>,
)
    requires
        call_ensures(kernel_sizes, (objects,), totals),
        call_ensures(kernel_sizes, (longer,), more),
        objects@.len() > 0,
        longer@.len() == objects@.len(),
        longer@.drop_last() == objects@.drop_last(),
        longer@.last()@ == objects@.last()@.push(entry),
    ensures
        forall|i: int, j: int|
            0 <= i < j < totals@.len() ==> (#[trigger] totals@[i]).name@ != (
            #[trigger] totals@[j]).name@,
        name != entry.name@ ==> forall|size: int| #[trigger]
            says_of(more@, name, size) <==> says_of(totals@, name, size),
        forall|size: int| #[trigger]
            says_of(totals@, entry.name@, size) ==> says_of(
                more@,
                entry.name@,
                size + entry.size,
            ),
        (forall|size: int| !#[trigger] says_of(totals@, entry.name@, size)) ==> says_of(
            more@,
            entry.name@,
            entry.size as int,
        ),
{
    let a = all_entries(objects@);
    let b = all_entries(longer@);
    assert(b =~= a.push(entry)) by {
        assert(longer@.last()@ == objects@.last()@.push(entry));
    }
    lemma_code_size_push(a, entry, name);
    lemma_code_size_push(a, entry, entry.name@);
    assert forall|size: int| name != entry.name@ implies (#[trigger] says_of(more@, name, size)
        <==> says_of(totals@, name, size)) by {
        lemma_says_of(totals@, name, size);
        lemma_says_of(more@, name, size);
    }
    assert forall|size: int| #[trigger] says_of(totals@, entry.name@, size) implies says_of(
        more@,
        entry.name@,
        size + entry.size,
    ) by {
        lemma_says_of(totals@, entry.name@, size);
        lemma_says_of(more@, entry.name@, size + entry.size);
    }
    if forall|size: int| !#[trigger] says_of(totals@, entry.name@, size) {
        lemma_says_of(totals@, entry.name@, code_size(totals@, entry.name@) as int);
        lemma_unmentioned(totals@, entry.name@);
        lemma_says_of(more@, entry.name@, entry.size as int);
    }
}

/// What a list with one entry for each kernel says of a kernel.
proof fn lemma_says_of(totals: Seq<KernelSize>, name: Seq<char>, size: int)
    requires
        one_entry_each(totals),
    ensures
        says_of(totals, name, size) <==> mentions(totals, name) && code_size(totals, name) == size,
{
    lemma_single_entry(totals, name);
    if mentions(totals, name) {
        let i = choose|i: int| 0 <= i < totals.len() && (#[trigger] totals[i]).name@ == name;
        assert(code_size(totals, name) == totals[i].size);
    }
}

/// Without objects there are no kernels, and an object without entries adds none.
pub proof fn empty_object_adds_no_kernel(
    objects: &Vec<Vec<KernelSize>>,
    longer: &Vec<Vec<KernelSize>>,
    totals: Vec<KernelSize>,
    more: Vec<KernelSize>,
    name: Seq<char>,
    size: int,
)
    requires
        call_ensures(kernel_sizes, (objects,), totals),
        call_ensures(kernel_sizes, (longer,), more),
        longer@.len() == objects@.len() + 1,
        longer@.drop_last() == objects@,
        longer@.last()@.len() == 0,
    ensures
        says_of(more@, name, size) <==> says_of(totals@, name, size),
        objects@.len() == 0 ==> totals@.len() == 0,
{
    assert(all_entries(longer@) =~= all_entries(objects@));
    lemma_says_of(totals@, name, size);
    lemma_says_of(more@, name, size);
    if objects@.len() == 0 && totals@.len() > 0 {
        assert(mentions(totals@, totals@[0].name@));
    }
}

/// Two entries of one list count together.
proof fn lemma_two_entries(entries: Seq<KernelSize>, i: int, j: int)
    requires
        0 <= i < j < entries.len(),
        entries[i].name@ == entries[j].name@,
    ensures
        code_size(entries, entries[i].name@) >= entries[i].size + entries[j].size,
{
    let name = entries[i].name@;
    lemma_code_size_push(entries.take(i), entries[i], name);
    assert(entries.take(i + 1) =~= entries.take(i).push(entries[i]));
    lemma_code_size_prefix(entries.take(j), i + 1, name);
    assert(entries.take(j).take(i + 1) =~= entries.take(i + 1));
    lemma_code_size_push(entries.take(j), entries[j], name);
    assert(entries.take(j + 1) =~= entries.take(j).push(entries[j]));
    lemma_code_size_prefix(entries, j + 1, name);
}

/// The sizes fit where no kernel is mentioned twice, and do not where two entries of one kernel are
/// more than 64 bits hold together.
pub proof fn sizes_fit_unless_a_kernel_overflows(
    object: Vec<KernelSize>,
    objects: &Vec<Vec<KernelSize>>,
    fit: bool,
)
    requires
        call_ensures(kernel_sizes_fit, (objects,), fit),
        objects@ == seq![object],
    ensures
        (forall|i: int, j: int|
            0 <= i < j < object@.len() ==> (#[trigger] object@[i]).name@ != (
            #[trigger] object@[j]).name@) ==> fit,
        forall|i: int, j: int|
            0 <= i < j < object@.len() && (#[trigger] object@[i]).name@ == (
            #[trigger] object@[j]).name@ && object@[i].size + object@[j].size > u64::MAX ==> !fit,
{
    let every = all_entries(objects@);
    assert(objects@.drop_last() =~= Seq::empty());
    assert(all_entries(objects@.drop_last()) =~= Seq::empty());
    assert(objects@.last() == object);
    assert(every =~= object@);
    if forall|i: int, j: int|
        0 <= i < j < object@.len() ==> (#[trigger] object@[i]).name@ != (
        #[trigger] object@[j]).name@ {
        assert forall|name: Seq<char>| #[trigger] code_size(every, name) <= u64::MAX by {
            lemma_single_entry(every, name);
            if mentions(every, name) {
                let i = choose|i: int| 0 <= i < every.len() && (#[trigger] every[i]).name@ == name;
                assert(code_size(every, name) == every[i].size);
            }
        }
    }
    assert forall|i: int, j: int|
        0 <= i < j < object@.len() && (#[trigger] object@[i]).name@ == (#[trigger] object@[j]).name@
            && object@[i].size + object@[j].size > u64::MAX implies !fit by {
        lemma_two_entries(object@, i, j);
        assert(code_size(every, object@[i].name@) > u64::MAX);
    }
}

/// Of the kernels of the unfused build exactly those are listed that have at least 4096 bytes there and
/// more in the fused build, in their order and with both sizes: one kernel more adds one at the end if
/// that holds of it, and nothing otherwise.
pub proof fn kernels_that_grew_are_listed(
    unfused: &Vec<KernelSize>,
    longer: &Vec<KernelSize>,
    fused: &Vec<KernelSize>,
    kernel: KernelSize,
    growths: Vec<KernelGrowth>,
    more: Vec<KernelGrowth>,
)
    requires
        call_ensures(kernel_growths, (unfused, fused), growths),
        call_ensures(kernel_growths, (longer, fused), more),
        longer@ == unfused@.push(kernel),
        forall|i: int, j: int|
            0 <= i < j < fused@.len() ==> (#[trigger] fused@[i]).name@ != (
            #[trigger] fused@[j]).name@,
    ensures
        unfused@.len() == 0 ==> growths@.len() == 0,
        forall|i: int|
            0 <= i < growths@.len() ==> i < more@.len() && {
                &&& (#[trigger] growths@[i]).name@ == more@[i].name@
                &&& growths@[i].unfused == more@[i].unfused
                &&& growths@[i].fused == more@[i].fused
            },
        forall|k: int|
            0 <= k < fused@.len() && (#[trigger] fused@[k]).name@ == kernel.name@ && fused@[k].size
                > kernel.size && kernel.size >= 4096 ==> {
                &&& more@.len() == growths@.len() + 1
                &&& more@.last().name@ == kernel.name@
                &&& more@.last().unfused == kernel.size
                &&& more@.last().fused == fused@[k].size
            },
        kernel.size < 4096 ==> more@.len() == growths@.len(),
        (forall|k: int|
            0 <= k < fused@.len() && (#[trigger] fused@[k]).name@ == kernel.name@ ==> fused@[k].size
                <= kernel.size) ==> more@.len() == growths@.len(),
{
    assert(longer@.drop_last() =~= unfused@);
    lemma_single_entry(fused@, kernel.name@);
    let a = listed_growths(growths@);
    let b = listed_growths(more@);
    assert(a.len() == growths@.len() && b.len() == more@.len());
    assert forall|i: int| 0 <= i < growths@.len() implies i < more@.len() && {
        &&& (#[trigger] growths@[i]).name@ == more@[i].name@
        &&& growths@[i].unfused == more@[i].unfused
        &&& growths@[i].fused == more@[i].fused
    } by {
        assert(a[i] == (
            growths@[i].name@,
            growths@[i].unfused as nat,
            growths@[i].fused as nat,
        ));
        assert(b[i] == (more@[i].name@, more@[i].unfused as nat, more@[i].fused as nat));
    }
    if b.len() > a.len() {
        assert(b.last() == (
            more@.last().name@,
            more@.last().unfused as nat,
            more@.last().fused as nat,
        ));
    }
    if mentions(fused@, kernel.name@) {
        let k = choose|k: int| 0 <= k < fused@.len() && (#[trigger] fused@[k]).name@ == kernel.name@;
        assert(size_or(fused@, kernel.name@, kernel.size) == fused@[k].size);
    }
}

} // verus!
