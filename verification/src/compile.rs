//! How a translated module becomes an executable: which steps are taken, in which order, and what
//! comes of it when one of them fails.
//!
//! The steps themselves belong to the code generator and to the file system. A [`Compilation`] says
//! which step is next and takes the answer to it; [`compile`] runs one from start to end.
use vstd::prelude::*;

verus! {

/// What the steps of a compilation depend on.
#[derive(Clone, Copy, PartialEq, Eq, Structural, Debug)]
pub struct Settings {
    /// How many parts the module is cut into for code generation.
    pub parts: u32,
    /// Whether the module is built with and without fused matrix multiplications.
    pub selective: bool,
    /// Whether somebody looks at the intermediate results.
    pub hook: bool,
    /// Whether there is a description of a module of 32-bit code.
    pub metadata32: bool,
}

/// The modules that are linked into one.
#[derive(Clone, Copy, PartialEq, Eq, Structural, Debug)]
pub enum Source {
    Main,
    Attributes,
    Constants,
    PtxImpl,
    Ockl,
}

/// The linked module, and the copy of it that is built with fused multiplications.
#[derive(Clone, Copy, PartialEq, Eq, Structural, Debug)]
pub enum Candidate {
    Linked,
    Duplicate,
}

/// Whether matrix multiplications are fused.
#[derive(Clone, Copy, PartialEq, Eq, Structural, Debug)]
pub enum Fusion {
    Off,
    On,
    /// As the environment says.
    FromEnvironment,
}

/// An intermediate result that can be looked at.
#[derive(Clone, Copy, PartialEq, Eq, Structural, Debug)]
pub enum Listing {
    Linked,
    Optimized,
    Assembly,
    Object,
    Executable,
}

/// The temporary files.
#[derive(Clone, Copy, PartialEq, Eq, Structural, Debug)]
pub enum TemporaryFile {
    Object(usize),
    Section,
    Section32,
    Executable,
}

/// A step of a compilation.
#[derive(Clone, Copy, PartialEq, Eq, Structural, Debug)]
pub enum Step {
    /// Set the code generator up, once per process.
    Initialize,
    /// Parse the bitcode of a module.
    Parse(Source),
    /// Verify a parsed module.
    Verify(Source),
    /// Make the module of device library constants.
    DefineConstants,
    /// Link a module into the linked one.
    Link(Source),
    VerifyLinked,
    /// Hand an intermediate result to whoever looks at them.
    Show(Listing),
    /// Say that the listings of the optimised module and of its assembly are not shown, because the
    /// module is cut into parts.
    TellListingsSkipped,
    /// Copy the linked module.
    DuplicateLinked,
    /// Say whether multiplications are fused.
    SetFusion(Fusion),
    MakeTargetMachine,
    Optimize(Candidate),
    /// Generate assembly text of the linked module.
    EmitAssembly,
    /// Generate one object.
    EmitObject(Candidate),
    /// Cut the module into this many parts and generate an object for each.
    EmitParts(Candidate, u32),
    /// Decide by the sizes of the kernels whether the fused build is kept.
    CompareSizes,
    CreateFile(TemporaryFile),
    WriteFile(TemporaryFile),
    /// Turn the path of a file into what the linker takes.
    NameFile(TemporaryFile),
    LinkExecutable,
    ReadExecutable,
}

/// The answer to a step.
pub enum Outcome {
    Done,
    Failed(String),
    /// The generated objects.
    Objects(Vec<Vec<u8>>),
    /// Whether the fused build is kept.
    KeepFused(bool),
    /// The linked executable.
    Executable(Vec<u8>),
}

/// The number that the code generator knows a fusion setting by.
pub fn fusion_code(fusion: Fusion) -> (code: i32)
    ensures
        fusion is Off ==> code == 0,
        fusion is On ==> code == 1,
        fusion is FromEnvironment ==> code == -1,
{
    match fusion {
        Fusion::Off => 0,
        Fusion::On => 1,
        Fusion::FromEnvironment => -1,
    }
}

/// The name that an intermediate result is shown under.
pub open spec fn listing_name_text(listing: Listing) -> Seq<char> {
    match listing {
        Listing::Linked => "linked.ll"@,
        Listing::Optimized => "opt.ll"@,
        Listing::Assembly => "asm"@,
        Listing::Object => "o"@,
        Listing::Executable => "elf"@,
    }
}

/// The name that an intermediate result is shown under.
pub fn listing_name(listing: Listing) -> (name: &'static str)
    ensures
        name@ == listing_name_text(listing),
{
    match listing {
        Listing::Linked => "linked.ll",
        Listing::Optimized => "opt.ll",
        Listing::Assembly => "asm",
        Listing::Object => "o",
        Listing::Executable => "elf",
    }
}

/// What the name of a temporary file starts with.
pub open spec fn file_prefix_text(file: TemporaryFile) -> Seq<char> {
    match file {
        TemporaryFile::Object(_) => "zluda.o"@,
        TemporaryFile::Section => "zluda_section"@,
        TemporaryFile::Section32 => "zluda32_section"@,
        TemporaryFile::Executable => "zluda.elf"@,
    }
}

/// What the name of a temporary file starts with.
pub fn file_prefix(file: TemporaryFile) -> (prefix: &'static str)
    ensures
        prefix@ == file_prefix_text(file),
{
    match file {
        TemporaryFile::Object(_) => "zluda.o",
        TemporaryFile::Section => "zluda_section",
        TemporaryFile::Section32 => "zluda32_section",
        TemporaryFile::Executable => "zluda.elf",
    }
}

/// Whether a step can fail.
pub open spec fn fallible(step: Step) -> bool {
    !(step is Show || step is TellListingsSkipped || step is DuplicateLinked || step is SetFusion
        || step is CompareSizes)
}

/// Whether an outcome is an answer to a step.
pub open spec fn answers(step: Step, outcome: Outcome) -> bool {
    match outcome {
        Outcome::Failed(_) => fallible(step),
        Outcome::Objects(objects) => match step {
            Step::EmitObject(_) => objects@.len() == 1,
            Step::EmitParts(_, _) => objects@.len() > 0,
            _ => false,
        },
        Outcome::KeepFused(_) => step is CompareSizes,
        Outcome::Executable(_) => step is ReadExecutable,
        Outcome::Done => !(step is EmitObject || step is EmitParts || step is CompareSizes
            || step is ReadExecutable),
    }
}

/// The message of a compilation whose step failed for the reason `detail`.
pub open spec fn failure_text(step: Step, detail: Seq<char>) -> Seq<char> {
    match step {
        Step::Parse(_) => "Failed to parse bitcode"@,
        Step::CreateFile(_) => "Failed to create temporary file: "@ + detail,
        Step::WriteFile(TemporaryFile::Object(_)) => "Failed to write object file: "@ + detail,
        Step::WriteFile(TemporaryFile::Section) => "Failed to write metadata section: "@ + detail,
        Step::WriteFile(TemporaryFile::Section32) => "Failed to write 32-bit metadata section: "@
            + detail,
        Step::ReadExecutable => "Failed to read executable file"@,
        _ => detail,
    }
}

/// `steps` if `wanted`, and nothing otherwise.
pub open spec fn only_if(wanted: bool, steps: Seq<Step>) -> Seq<Step> {
    if wanted {
        steps
    } else {
        Seq::empty()
    }
}

/// Loading the libraries and linking everything into one module.
pub open spec fn linking(s: Settings) -> Seq<Step> {
    seq![
        Step::Initialize,
        Step::Parse(Source::PtxImpl),
        Step::Verify(Source::PtxImpl),
        Step::Parse(Source::Ockl),
        Step::Verify(Source::Ockl),
        Step::DefineConstants,
        Step::Link(Source::Main),
        Step::Link(Source::Attributes),
        Step::Link(Source::Constants),
        Step::Link(Source::PtxImpl),
        Step::Link(Source::Ockl),
        Step::VerifyLinked,
    ] + only_if(s.hook, seq![Step::Show(Listing::Linked)])
}

/// Generating the code of an optimised module, in parts or in one piece.
pub open spec fn emission(s: Settings, candidate: Candidate) -> Step {
    if s.parts > 1 {
        Step::EmitParts(candidate, s.parts)
    } else {
        Step::EmitObject(candidate)
    }
}

/// Building the module without and with fusion, and choosing one of the builds.
pub open spec fn selective_generation(s: Settings) -> Seq<Step> {
    seq![
        Step::DuplicateLinked,
        Step::SetFusion(Fusion::Off),
        Step::MakeTargetMachine,
        Step::Optimize(Candidate::Linked),
        emission(s, Candidate::Linked),
        Step::SetFusion(Fusion::On),
        Step::MakeTargetMachine,
        Step::Optimize(Candidate::Duplicate),
        emission(s, Candidate::Duplicate),
        Step::SetFusion(Fusion::FromEnvironment),
        Step::CompareSizes,
    ]
}

/// Building the module in the ordinary way.
pub open spec fn ordinary_generation(s: Settings) -> Seq<Step> {
    seq![Step::MakeTargetMachine, Step::Optimize(Candidate::Linked)] + only_if(
        s.hook && s.parts <= 1,
        seq![Step::Show(Listing::Optimized), Step::EmitAssembly, Step::Show(Listing::Assembly)],
    ) + only_if(s.hook && s.parts > 1, seq![Step::TellListingsSkipped]) + seq![
        emission(s, Candidate::Linked),
    ]
}

/// The steps up to the objects.
pub open spec fn up_to_objects(s: Settings) -> Seq<Step> {
    linking(s) + (if s.selective {
        selective_generation(s)
    } else {
        ordinary_generation(s)
    })
}

/// Writing each object to a file of its own.
pub open spec fn object_files(objects: nat) -> Seq<Step>
    decreases objects,
{
    if objects == 0 {
        Seq::empty()
    } else {
        object_files((objects - 1) as nat) + seq![
            Step::CreateFile(TemporaryFile::Object((objects - 1) as usize)),
            Step::WriteFile(TemporaryFile::Object((objects - 1) as usize)),
        ]
    }
}

/// The files that the linker takes, in its order: the objects, then the metadata sections.
pub open spec fn linker_inputs(s: Settings, objects: nat) -> Seq<TemporaryFile> {
    Seq::new(objects, |i: int| TemporaryFile::Object(i as usize)) + seq![TemporaryFile::Section]
        + if s.metadata32 {
        seq![TemporaryFile::Section32]
    } else {
        Seq::empty()
    }
}

/// Naming the files of a list.
pub open spec fn naming(files: Seq<TemporaryFile>) -> Seq<Step> {
    files.map_values(|file: TemporaryFile| Step::NameFile(file))
}

/// The steps from the objects to the executable.
pub open spec fn from_objects(s: Settings, objects: nat) -> Seq<Step> {
    only_if(s.hook, seq![Step::Show(Listing::Object)]) + object_files(objects) + seq![
        Step::CreateFile(TemporaryFile::Section),
        Step::CreateFile(TemporaryFile::Executable),
        Step::WriteFile(TemporaryFile::Section),
    ] + only_if(
        s.metadata32,
        seq![
            Step::CreateFile(TemporaryFile::Section32),
            Step::WriteFile(TemporaryFile::Section32),
        ],
    ) + naming(linker_inputs(s, objects)) + seq![
        Step::NameFile(TemporaryFile::Executable),
        Step::LinkExecutable,
        Step::ReadExecutable,
    ] + only_if(s.hook, seq![Step::Show(Listing::Executable)])
}

/// Where the answer stands that holds the objects of the build without fusion.
pub open spec fn unfused_at(s: Settings) -> int {
    if s.selective {
        linking(s).len() as int + 4
    } else {
        up_to_objects(s).len() - 1
    }
}

/// Where the answer stands that holds the objects of the build with fusion.
pub open spec fn fused_at(s: Settings) -> int {
    linking(s).len() as int + 8
}

/// Where the answer stands that holds the objects that were chosen.
pub open spec fn chosen_at(s: Settings, outcomes: Seq<Outcome>) -> int {
    if s.selective && outcomes[up_to_objects(s).len() - 1] == Outcome::KeepFused(true) {
        fused_at(s)
    } else {
        unfused_at(s)
    }
}

/// The objects that are linked.
pub open spec fn chosen_objects(s: Settings, outcomes: Seq<Outcome>) -> Seq<Vec<u8>> {
    outcomes[chosen_at(s, outcomes)]->Objects_0@
}

/// The position of the first failure, or the number of outcomes where nothing failed.
pub open spec fn first_failure(outcomes: Seq<Outcome>) -> int
    decreases outcomes.len(),
{
    if outcomes.len() == 0 {
        0
    } else {
        let before = first_failure(outcomes.drop_last());
        if before < outcomes.len() - 1 || outcomes.last() is Failed {
            before
        } else {
            outcomes.len() as int
        }
    }
}

/// The steps of a compilation in which nothing fails, as far as they are known.
pub open spec fn planned(s: Settings, outcomes: Seq<Outcome>) -> Seq<Step> {
    if first_failure(outcomes) < up_to_objects(s).len() {
        up_to_objects(s)
    } else {
        up_to_objects(s) + from_objects(s, chosen_objects(s, outcomes).len())
    }
}

/// Whether a position lies in the attempt to build with fusion.
pub open spec fn in_fused_attempt(s: Settings, at: int) -> bool {
    s.selective && linking(s).len() + 6 <= at <= fused_at(s)
}

/// The step that follows the given outcomes, if the compilation is not over.
///
/// A failure ends it, except that the fusion setting is given back first if the attempt to build
/// with fusion failed.
pub open spec fn next_step(s: Settings, outcomes: Seq<Outcome>) -> Option<Step> {
    let failed = first_failure(outcomes);
    if failed == outcomes.len() {
        if outcomes.len() < planned(s, outcomes).len() {
            Some(planned(s, outcomes)[outcomes.len() as int])
        } else {
            None
        }
    } else if in_fused_attempt(s, failed) && outcomes.len() == failed + 1 {
        Some(Step::SetFusion(Fusion::FromEnvironment))
    } else {
        None
    }
}

/// Where the answer stands that holds the executable.
pub open spec fn executable_at(s: Settings, outcomes: Seq<Outcome>) -> int {
    planned(s, outcomes).len() - (if s.hook {
        2int
    } else {
        1int
    })
}

/// What a compilation that is over came to: the executable, or the message of the first failure.
pub open spec fn verdict(s: Settings, outcomes: Seq<Outcome>) -> Result<Seq<u8>, Seq<char>> {
    let failed = first_failure(outcomes);
    if failed < outcomes.len() {
        Err(failure_text(planned(s, outcomes)[failed], outcomes[failed]->Failed_0@))
    } else {
        Ok(outcomes[executable_at(s, outcomes)]->Executable_0@)
    }
}

/// Whether the outcomes are answers to the steps of a compilation, one after the other.
pub open spec fn is_run(s: Settings, outcomes: Seq<Outcome>) -> bool {
    forall|i: int|
        0 <= i < outcomes.len() ==> (#[trigger] next_step(s, outcomes.take(i)) matches Some(step)
            && answers(step, outcomes[i]))
}

/// Appends steps to a plan.
fn append_steps(plan: &mut Vec<Step>, steps: &Vec<Step>)
    ensures
        final(plan)@ == old(plan)@ + steps@,
{
    let mut i: usize = 0;
    let ghost before = plan@;
    while i < steps.len()
        invariant
            i <= steps@.len(),
            plan@ == before + steps@.take(i as int),
        decreases steps@.len() - i,
    {
        plan.push(steps[i]);
        i += 1;
        assert(plan@ =~= before + steps@.take(i as int));
    }
    assert(steps@.take(i as int) =~= steps@);
}

/// Generating the code of an optimised module.
fn emission_step(s: Settings, candidate: Candidate) -> (step: Step)
    ensures
        step == emission(s, candidate),
{
    if s.parts > 1 {
        Step::EmitParts(candidate, s.parts)
    } else {
        Step::EmitObject(candidate)
    }
}

/// The steps of linking.
fn linking_steps(s: Settings) -> (plan: Vec<Step>)
    ensures
        plan@ == linking(s),
{
    let mut plan: Vec<Step> = vec![
        Step::Initialize,
        Step::Parse(Source::PtxImpl),
        Step::Verify(Source::PtxImpl),
        Step::Parse(Source::Ockl),
        Step::Verify(Source::Ockl),
        Step::DefineConstants,
        Step::Link(Source::Main),
        Step::Link(Source::Attributes),
        Step::Link(Source::Constants),
        Step::Link(Source::PtxImpl),
        Step::Link(Source::Ockl),
        Step::VerifyLinked,
    ];
    if s.hook {
        plan.push(Step::Show(Listing::Linked));
    }
    assert(plan@ =~= linking(s));
    plan
}

/// The steps up to the objects.
fn steps_up_to_objects(s: Settings) -> (plan: Vec<Step>)
    ensures
        plan@ == up_to_objects(s),
{
    let mut plan = linking_steps(s);
    if s.selective {
        let steps: Vec<Step> = vec![
            Step::DuplicateLinked,
            Step::SetFusion(Fusion::Off),
            Step::MakeTargetMachine,
            Step::Optimize(Candidate::Linked),
            emission_step(s, Candidate::Linked),
            Step::SetFusion(Fusion::On),
            Step::MakeTargetMachine,
            Step::Optimize(Candidate::Duplicate),
            emission_step(s, Candidate::Duplicate),
            Step::SetFusion(Fusion::FromEnvironment),
            Step::CompareSizes,
        ];
        assert(steps@ =~= selective_generation(s));
        append_steps(&mut plan, &steps);
    } else {
        let mut steps: Vec<Step> = vec![
            Step::MakeTargetMachine,
            Step::Optimize(Candidate::Linked),
        ];
        if s.hook && s.parts <= 1 {
            steps.push(Step::Show(Listing::Optimized));
            steps.push(Step::EmitAssembly);
            steps.push(Step::Show(Listing::Assembly));
        }
        if s.hook && s.parts > 1 {
            steps.push(Step::TellListingsSkipped);
        }
        steps.push(emission_step(s, Candidate::Linked));
        assert(steps@ =~= ordinary_generation(s));
        append_steps(&mut plan, &steps);
    }
    plan
}

/// The steps from the objects to the executable.
fn steps_from_objects(s: Settings, objects: usize) -> (plan: Vec<Step>)
    ensures
        plan@ == from_objects(s, objects as nat),
{
    let mut plan: Vec<Step> = Vec::new();
    if s.hook {
        plan.push(Step::Show(Listing::Object));
    }
    let ghost shown = only_if(s.hook, seq![Step::Show(Listing::Object)]);
    assert(plan@ =~= shown);
    let mut i: usize = 0;
    assert(plan@ =~= shown + object_files(0));
    while i < objects
        invariant
            i <= objects,
            plan@ == shown + object_files(i as nat),
        decreases objects - i,
    {
        plan.push(Step::CreateFile(TemporaryFile::Object(i)));
        plan.push(Step::WriteFile(TemporaryFile::Object(i)));
        i += 1;
        assert(plan@ =~= shown + object_files(i as nat));
    }
    plan.push(Step::CreateFile(TemporaryFile::Section));
    plan.push(Step::CreateFile(TemporaryFile::Executable));
    plan.push(Step::WriteFile(TemporaryFile::Section));
    if s.metadata32 {
        plan.push(Step::CreateFile(TemporaryFile::Section32));
        plan.push(Step::WriteFile(TemporaryFile::Section32));
    }
    let ghost written = plan@;
    assert(written =~= shown + object_files(objects as nat) + seq![
        Step::CreateFile(TemporaryFile::Section),
        Step::CreateFile(TemporaryFile::Executable),
        Step::WriteFile(TemporaryFile::Section),
    ] + only_if(
        s.metadata32,
        seq![
            Step::CreateFile(TemporaryFile::Section32),
            Step::WriteFile(TemporaryFile::Section32),
        ],
    ));
    let mut n: usize = 0;
    while n < objects
        invariant
            n <= objects,
            plan@ == written + Seq::new(
                n as nat,
                |i: int| Step::NameFile(TemporaryFile::Object(i as usize)),
            ),
        decreases objects - n,
    {
        plan.push(Step::NameFile(TemporaryFile::Object(n)));
        n += 1;
        assert(plan@ =~= written + Seq::new(
            n as nat,
            |i: int| Step::NameFile(TemporaryFile::Object(i as usize)),
        ));
    }
    plan.push(Step::NameFile(TemporaryFile::Section));
    if s.metadata32 {
        plan.push(Step::NameFile(TemporaryFile::Section32));
    }
    assert(plan@ =~= written + naming(linker_inputs(s, objects as nat)));
    plan.push(Step::NameFile(TemporaryFile::Executable));
    plan.push(Step::LinkExecutable);
    plan.push(Step::ReadExecutable);
    if s.hook {
        plan.push(Step::Show(Listing::Executable));
    }
    assert(plan@ =~= from_objects(s, objects as nat));
    plan
}

/// Where the first failure is, in terms of the outcomes themselves.
proof fn lemma_first_failure(outcomes: Seq<Outcome>)
    ensures
        0 <= first_failure(outcomes) <= outcomes.len(),
        forall|i: int| 0 <= i < first_failure(outcomes) ==> !(#[trigger] outcomes[i] is Failed),
        first_failure(outcomes) < outcomes.len() ==> outcomes[first_failure(outcomes)] is Failed,
    decreases outcomes.len(),
{
    if outcomes.len() > 0 {
        lemma_first_failure(outcomes.drop_last());
        assert forall|i: int| 0 <= i < first_failure(outcomes) implies !(
        #[trigger] outcomes[i] is Failed) by {
            if i < outcomes.len() - 1 {
                assert(outcomes.drop_last()[i] == outcomes[i]);
            }
        }
    }
}

/// Where the first failure of a prefix is.
proof fn lemma_first_failure_of_prefix(outcomes: Seq<Outcome>, n: int)
    requires
        0 <= n <= outcomes.len(),
    ensures
        first_failure(outcomes.take(n)) == (if first_failure(outcomes) < n {
            first_failure(outcomes)
        } else {
            n
        }),
{
    lemma_first_failure(outcomes);
    lemma_first_failure(outcomes.take(n));
    let whole = first_failure(outcomes);
    let part = first_failure(outcomes.take(n));
    if part < n {
        assert(outcomes[part] is Failed);
    }
    if whole < n {
        assert(outcomes.take(n)[whole] is Failed);
    }
}

/// What the lengths of the fixed parts of a plan are.
proof fn lemma_fixed_lengths(s: Settings)
    ensures
        linking(s).len() == if s.hook {
            13int
        } else {
            12int
        },
        s.selective ==> up_to_objects(s).len() == linking(s).len() + 11,
        !s.selective ==> up_to_objects(s).len() == linking(s).len() + if !s.hook {
            3int
        } else if s.parts <= 1 {
            6int
        } else {
            4int
        },
        up_to_objects(s)[unfused_at(s)] == emission(s, Candidate::Linked),
        0 <= unfused_at(s) < up_to_objects(s).len(),
        s.selective ==> up_to_objects(s)[fused_at(s)] == emission(s, Candidate::Duplicate)
            && fused_at(s) < up_to_objects(s).len(),
        s.selective ==> up_to_objects(s).last() is CompareSizes,
{
}

/// In a run in which nothing has failed, every outcome answers the step of the plan that stands
/// at its place.
proof fn lemma_run_follows_plan(s: Settings, outcomes: Seq<Outcome>, i: int)
    requires
        is_run(s, outcomes),
        0 <= i < outcomes.len(),
        i <= first_failure(outcomes),
    ensures
        i < planned(s, outcomes).len(),
        answers(planned(s, outcomes)[i], outcomes[i]),
        next_step(s, outcomes.take(i)) == Some(planned(s, outcomes)[i]),
{
    lemma_fixed_lengths(s);
    lemma_first_failure_of_prefix(outcomes, i);
    let prefix = outcomes.take(i);
    assert(next_step(s, prefix) is Some);
    if i >= up_to_objects(s).len() {
        assert(chosen_at(s, prefix) == chosen_at(s, outcomes)) by {
            assert(prefix[up_to_objects(s).len() - 1] == outcomes[up_to_objects(s).len() - 1]);
        }
        assert(prefix[chosen_at(s, prefix)] == outcomes[chosen_at(s, prefix)]);
    } else {
        assert(planned(s, prefix) == up_to_objects(s));
        assert(planned(s, outcomes).take(up_to_objects(s).len() as int) =~= up_to_objects(s));
        assert(planned(s, outcomes)[i] == planned(s, outcomes).take(
            up_to_objects(s).len() as int,
        )[i]);
    }
}

/// Once the plan up to the objects is through, there are objects.
proof fn lemma_objects_are_there(s: Settings, outcomes: Seq<Outcome>)
    requires
        is_run(s, outcomes),
        first_failure(outcomes) >= up_to_objects(s).len(),
    ensures
        outcomes[unfused_at(s)] is Objects,
        s.selective ==> outcomes[fused_at(s)] is Objects,
        s.selective ==> outcomes[up_to_objects(s).len() - 1] is KeepFused,
        outcomes[chosen_at(s, outcomes)] is Objects,
        chosen_objects(s, outcomes).len() > 0,
        0 <= chosen_at(s, outcomes) < up_to_objects(s).len() <= outcomes.len(),
{
    lemma_first_failure(outcomes);
    lemma_fixed_lengths(s);
    let n = up_to_objects(s).len() as int;
    assert(planned(s, outcomes).take(n) =~= up_to_objects(s));
    lemma_run_follows_plan(s, outcomes, unfused_at(s));
    assert(planned(s, outcomes)[unfused_at(s)] == planned(s, outcomes).take(n)[unfused_at(s)]);
    if s.selective {
        lemma_run_follows_plan(s, outcomes, fused_at(s));
        assert(planned(s, outcomes)[fused_at(s)] == planned(s, outcomes).take(n)[fused_at(s)]);
        lemma_run_follows_plan(s, outcomes, n - 1);
        assert(planned(s, outcomes)[n - 1] == planned(s, outcomes).take(n)[n - 1]);
    }
}

/// Where the executable is read.
proof fn lemma_executable_is_read(s: Settings, objects: nat)
    ensures
        from_objects(s, objects).len() >= 3,
        from_objects(s, objects)[from_objects(s, objects).len() - (if s.hook {
            2int
        } else {
            1int
        })] is ReadExecutable,
{
}

/// What the steps are that write the objects.
proof fn lemma_object_files(objects: nat)
    ensures
        object_files(objects).len() == 2 * objects,
        forall|i: int|
            0 <= i < object_files(objects).len() ==> (#[trigger] object_files(objects)[i]) == if i
                % 2 == 0 {
                Step::CreateFile(TemporaryFile::Object((i / 2) as usize))
            } else {
                Step::WriteFile(TemporaryFile::Object((i / 2) as usize))
            },
    decreases objects,
{
    if objects > 0 {
        lemma_object_files((objects - 1) as nat);
    }
}

/// Which steps stand between the objects and the executable.
proof fn lemma_kinds_from_objects(s: Settings, objects: nat, i: int)
    requires
        0 <= i < from_objects(s, objects).len(),
    ensures
        ({
            let step = from_objects(s, objects)[i];
            ||| step is CreateFile
            ||| step is WriteFile
            ||| step is NameFile
            ||| step is LinkExecutable
            ||| step is ReadExecutable
            ||| s.hook && (step == Step::Show(Listing::Object) || step == Step::Show(
                Listing::Executable,
            ))
        }),
{
    lemma_object_files(objects);
    let shown = only_if(s.hook, seq![Step::Show(Listing::Object)]);
    let k = i - shown.len();
    if 0 <= k < object_files(objects).len() {
        assert(from_objects(s, objects)[i] == object_files(objects)[k]);
    }
}

/// The sizes are compared at the end of the steps up to the objects, and nowhere else.
proof fn lemma_where_sizes_are_compared(s: Settings, outcomes: Seq<Outcome>)
    requires
        is_run(s, outcomes),
        next_step(s, outcomes) == Some(Step::CompareSizes),
    ensures
        s.selective,
        first_failure(outcomes) == outcomes.len(),
        outcomes.len() == up_to_objects(s).len() - 1,
{
    lemma_first_failure(outcomes);
    lemma_fixed_lengths(s);
    let at = outcomes.len() as int;
    if at >= up_to_objects(s).len() {
        lemma_kinds_from_objects(
            s,
            chosen_objects(s, outcomes).len(),
            at - up_to_objects(s).len(),
        );
    }
}

/// The executable is shown last of all, and nowhere else.
proof fn lemma_show_executable_is_last(s: Settings, objects: nat, i: int)
    requires
        0 <= i < from_objects(s, objects).len(),
        from_objects(s, objects)[i] == Step::Show(Listing::Executable),
    ensures
        i == from_objects(s, objects).len() - 1,
        s.hook,
{
    lemma_object_files(objects);
    let shown = only_if(s.hook, seq![Step::Show(Listing::Object)]);
    if shown.len() <= i < shown.len() + object_files(objects).len() {
        assert(from_objects(s, objects)[i] == object_files(objects)[i - shown.len()]);
    }
}

/// Nothing is shown of the executable before there are objects.
proof fn lemma_kinds_up_to_objects(s: Settings, i: int)
    requires
        0 <= i < up_to_objects(s).len(),
    ensures
        up_to_objects(s)[i] != Step::Show(Listing::Executable),
{
    if i >= linking(s).len() {
        let k = i - linking(s).len();
        if s.selective {
            assert(up_to_objects(s)[i] == selective_generation(s)[k]);
        } else {
            assert(up_to_objects(s)[i] == ordinary_generation(s)[k]);
        }
    } else {
        assert(up_to_objects(s)[i] == linking(s)[i]);
    }
}

/// The executable is shown right after it has been read.
proof fn lemma_where_the_executable_is_shown(s: Settings, outcomes: Seq<Outcome>)
    requires
        is_run(s, outcomes),
        next_step(s, outcomes) == Some(Step::Show(Listing::Executable)),
    ensures
        outcomes.len() > 0,
        outcomes.last() is Executable,
{
    lemma_first_failure(outcomes);
    let at = outcomes.len() as int;
    let fixed = up_to_objects(s).len() as int;
    if at < fixed {
        lemma_kinds_up_to_objects(s, at);
    }
    let n = chosen_objects(s, outcomes).len();
    assert(planned(s, outcomes)[at] == from_objects(s, n)[at - fixed]);
    lemma_show_executable_is_last(s, n, at - fixed);
    lemma_executable_is_read(s, n);
    lemma_run_follows_plan(s, outcomes, at - 1);
    assert(planned(s, outcomes)[at - 1] == from_objects(s, n)[at - fixed - 1]);
}

/// A run that is over and in which nothing failed has taken every step of its plan.
proof fn lemma_run_ends_with_the_plan(s: Settings, outcomes: Seq<Outcome>)
    requires
        is_run(s, outcomes),
        next_step(s, outcomes) is None,
        first_failure(outcomes) == outcomes.len(),
    ensures
        outcomes.len() == planned(s, outcomes).len(),
        outcomes.len() >= up_to_objects(s).len(),
{
    lemma_fixed_lengths(s);
    if outcomes.len() > 0 {
        lemma_run_follows_plan(s, outcomes, outcomes.len() - 1);
    }
}

/// The stage of a run: before the objects, from the objects on, and after a failure.
spec fn stages_left(s: Settings, outcomes: Seq<Outcome>) -> nat {
    if first_failure(outcomes) < outcomes.len() {
        0
    } else if outcomes.len() < up_to_objects(s).len() {
        2
    } else {
        1
    }
}

/// The number of steps to the end of the stage, at most.
spec fn steps_left(s: Settings, outcomes: Seq<Outcome>) -> int {
    if first_failure(outcomes) < outcomes.len() {
        first_failure(outcomes) + 2 - outcomes.len()
    } else {
        planned(s, outcomes).len() - outcomes.len()
    }
}

/// Every step brings a run nearer to its end.
proof fn lemma_steps_left(s: Settings, outcomes: Seq<Outcome>, outcome: Outcome)
    requires
        is_run(s, outcomes),
        next_step(s, outcomes) is Some,
    ensures
        ({
            let after = outcomes.push(outcome);
            ||| stages_left(s, after) < stages_left(s, outcomes)
            ||| stages_left(s, after) == stages_left(s, outcomes) && 0 <= steps_left(s, after)
                < steps_left(s, outcomes)
        }),
{
    let after = outcomes.push(outcome);
    assert(after.drop_last() =~= outcomes);
    lemma_first_failure(outcomes);
    lemma_first_failure(after);
    if first_failure(outcomes) == outcomes.len() && outcomes.len() >= up_to_objects(s).len() {
        lemma_objects_are_there(s, outcomes);
        assert(after[up_to_objects(s).len() - 1] == outcomes[up_to_objects(s).len() - 1]);
        assert(chosen_at(s, after) == chosen_at(s, outcomes));
        assert(after[chosen_at(s, after)] == outcomes[chosen_at(s, after)]);
    }
}

/// A compilation in progress.
pub struct Compilation {
    settings: Settings,
    plan: Vec<Step>,
    fixed: usize,
    outcomes: Vec<Outcome>,
    failed: Option<usize>,
}

/// The message of a compilation whose step failed for the reason `detail`.
fn failure_message(step: Step, detail: &str) -> (message: String)
    ensures
        message@ == failure_text(step, detail@),
{
    let mut message: String;
    match step {
        Step::Parse(_) => {
            message = "Failed to parse bitcode".to_owned();
        },
        Step::CreateFile(_) => {
            message = "Failed to create temporary file: ".to_owned();
            message.append(detail);
        },
        Step::WriteFile(TemporaryFile::Object(_)) => {
            message = "Failed to write object file: ".to_owned();
            message.append(detail);
        },
        Step::WriteFile(TemporaryFile::Section) => {
            message = "Failed to write metadata section: ".to_owned();
            message.append(detail);
        },
        Step::WriteFile(TemporaryFile::Section32) => {
            message = "Failed to write 32-bit metadata section: ".to_owned();
            message.append(detail);
        },
        Step::ReadExecutable => {
            message = "Failed to read executable file".to_owned();
        },
        _ => {
            message = detail.to_owned();
        },
    }
    message
}

impl Compilation {
    /// The settings of the compilation.
    pub closed spec fn settings(&self) -> Settings {
        self.settings
    }

    /// The answers so far.
    pub closed spec fn outcomes(&self) -> Seq<Outcome> {
        self.outcomes@
    }

    /// The answers belong to a run, and the plan is the one that they lead to.
    pub closed spec fn wf(&self) -> bool {
        &&& is_run(self.settings, self.outcomes@)
        &&& self.plan@ == planned(self.settings, self.outcomes@)
        &&& self.fixed == up_to_objects(self.settings).len()
        &&& self.failed == if first_failure(self.outcomes@) < self.outcomes@.len() {
            Some(first_failure(self.outcomes@) as usize)
        } else {
            None
        }
    }

    /// A compilation that has not started.
    pub fn new(settings: Settings) -> (compilation: Self)
        ensures
            compilation.wf(),
            compilation.settings() == settings,
            compilation.outcomes() == Seq::<Outcome>::empty(),
    {
        let plan = steps_up_to_objects(settings);
        let fixed: usize = plan.len();
        proof {
            lemma_fixed_lengths(settings);
        }
        let compilation = Compilation { settings, plan, fixed, outcomes: Vec::new(), failed: None };
        assert(compilation.outcomes@ =~= Seq::<Outcome>::empty());
        compilation
    }

    /// The step to take next. `None` when the compilation is over.
    pub fn step(&self) -> (step: Option<Step>)
        requires
            self.wf(),
        ensures
            step == next_step(self.settings(), self.outcomes()),
    {
        proof {
            lemma_first_failure(self.outcomes@);
            lemma_fixed_lengths(self.settings);
        }
        let taken: usize = self.outcomes.len();
        match self.failed {
            None => if taken < self.plan.len() {
                Some(self.plan[taken])
            } else {
                None
            },
            Some(failed) => {
                let linked: usize = if self.settings.hook {
                    13
                } else {
                    12
                };
                if self.settings.selective && linked + 6 <= failed && failed <= linked + 8 && taken
                    - 1 == failed {
                    Some(Step::SetFusion(Fusion::FromEnvironment))
                } else {
                    None
                }
            },
        }
    }

    /// Takes the answer to the step.
    pub fn record(&mut self, outcome: Outcome)
        requires
            old(self).wf(),
            next_step(old(self).settings(), old(self).outcomes()) matches Some(step) && answers(
                step,
                outcome,
            ),
        ensures
            final(self).wf(),
            final(self).settings() == old(self).settings(),
            final(self).outcomes() == old(self).outcomes().push(outcome),
    {
        let ghost before = self.outcomes@;
        let ghost after = before.push(outcome);
        let ghost s = self.settings;
        let at: usize = self.outcomes.len();
        let failure: bool = match &outcome {
            Outcome::Failed(_) => true,
            _ => false,
        };
        proof {
            lemma_fixed_lengths(s);
            lemma_first_failure(before);
            lemma_first_failure(after);
            assert(after.drop_last() =~= before);
            assert(after.take(at as int) =~= before);
            assert forall|i: int| 0 <= i < after.len() implies (#[trigger] next_step(
                s,
                after.take(i),
            ) matches Some(step) && answers(step, after[i])) by {
                if i < before.len() {
                    assert(after.take(i) =~= before.take(i));
                    assert(next_step(s, before.take(i)) is Some);
                }
            }
            assert(is_run(s, after));
        }
        self.outcomes.push(outcome);
        if self.failed.is_none() {
            if failure {
                self.failed = Some(at);
                proof {
                    if at >= up_to_objects(s).len() {
                        lemma_objects_are_there(s, after);
                        lemma_objects_are_there(s, before);
                        assert(chosen_at(s, after) == chosen_at(s, before)) by {
                            assert(after[up_to_objects(s).len() - 1] == before[up_to_objects(s).len()
                                - 1]);
                        }
                    }
                }
            } else if self.outcomes.len() == self.fixed {
                proof {
                    lemma_objects_are_there(s, after);
                }
                let chosen: usize = self.chosen_position();
                let objects: usize = match &self.outcomes[chosen] {
                    Outcome::Objects(objects) => objects.len(),
                    _ => 0,
                };
                let steps = steps_from_objects(self.settings, objects);
                append_steps(&mut self.plan, &steps);
            } else {
                proof {
                    if at >= up_to_objects(s).len() {
                        lemma_objects_are_there(s, after);
                        lemma_objects_are_there(s, before);
                        assert(chosen_at(s, after) == chosen_at(s, before)) by {
                            assert(after[up_to_objects(s).len() - 1] == before[up_to_objects(s).len()
                                - 1]);
                        }
                    }
                }
            }
        }
    }

    /// Where the objects stand that were chosen.
    fn chosen_position(&self) -> (position: usize)
        requires
            is_run(self.settings, self.outcomes@),
            first_failure(self.outcomes@) >= up_to_objects(self.settings).len(),
            self.fixed == up_to_objects(self.settings).len(),
        ensures
            position == chosen_at(self.settings, self.outcomes@),
    {
        proof {
            lemma_fixed_lengths(self.settings);
            lemma_objects_are_there(self.settings, self.outcomes@);
        }
        if self.settings.selective {
            match &self.outcomes[self.fixed - 1] {
                Outcome::KeepFused(true) => self.fixed - 3,
                _ => self.fixed - 7,
            }
        } else {
            self.fixed - 1
        }
    }

    /// The objects that are linked, once they are chosen.
    ///
    /// Any of them serves as the model for the metadata sections: all that is read from it is the
    /// header, which they share.
    pub fn objects(&self) -> (objects: &Vec<Vec<u8>>)
        requires
            self.wf(),
            first_failure(self.outcomes()) >= up_to_objects(self.settings()).len(),
        ensures
            objects@ == chosen_objects(self.settings(), self.outcomes()),
            objects@.len() > 0,
    {
        proof {
            lemma_objects_are_there(self.settings, self.outcomes@);
        }
        let chosen: usize = self.chosen_position();
        match &self.outcomes[chosen] {
            Outcome::Objects(objects) => objects,
            _ => vstd::pervasive::unreached(),
        }
    }

    /// The objects of one of the two builds, when their sizes are to be compared.
    pub fn build(&self, candidate: Candidate) -> (objects: &Vec<Vec<u8>>)
        requires
            self.wf(),
            next_step(self.settings(), self.outcomes()) == Some(Step::CompareSizes),
        ensures
            Outcome::Objects(*objects) == self.outcomes()[match candidate {
                Candidate::Linked => unfused_at(self.settings()),
                Candidate::Duplicate => fused_at(self.settings()),
            }],
    {
        proof {
            lemma_where_sizes_are_compared(self.settings, self.outcomes@);
            lemma_first_failure(self.outcomes@);
            lemma_fixed_lengths(self.settings);
            lemma_run_follows_plan(self.settings, self.outcomes@, unfused_at(self.settings));
            lemma_run_follows_plan(self.settings, self.outcomes@, fused_at(self.settings));
        }
        let at: usize = match candidate {
            Candidate::Linked => self.outcomes.len() - 6,
            Candidate::Duplicate => self.outcomes.len() - 2,
        };
        match &self.outcomes[at] {
            Outcome::Objects(objects) => objects,
            _ => vstd::pervasive::unreached(),
        }
    }

    /// The executable, when it is shown.
    pub fn executable(&self) -> (executable: &Vec<u8>)
        requires
            self.wf(),
            next_step(self.settings(), self.outcomes()) == Some(Step::Show(Listing::Executable)),
        ensures
            Outcome::Executable(*executable) == self.outcomes().last(),
    {
        proof {
            lemma_where_the_executable_is_shown(self.settings, self.outcomes@);
        }
        match &self.outcomes[self.outcomes.len() - 1] {
            Outcome::Executable(executable) => executable,
            _ => vstd::pervasive::unreached(),
        }
    }

    /// What the compilation came to, when it is over.
    pub fn result(self) -> (r: Result<Vec<u8>, String>)
        requires
            self.wf(),
            next_step(self.settings(), self.outcomes()) is None,
        ensures
            match r {
                Ok(executable) => verdict(self.settings(), self.outcomes()) == Ok::<
                    Seq<u8>,
                    Seq<char>,
                >(executable@),
                Err(message) => verdict(self.settings(), self.outcomes()) == Err::<
                    Seq<u8>,
                    Seq<char>,
                >(message@),
            },
    {
        let ghost s = self.settings;
        let ghost outcomes = self.outcomes@;
        proof {
            lemma_first_failure(outcomes);
            lemma_fixed_lengths(s);
        }
        match self.failed {
            Some(failed) => {
                proof {
                    lemma_run_follows_plan(s, outcomes, failed as int);
                }
                match &self.outcomes[failed] {
                    Outcome::Failed(detail) => Err(
                        failure_message(self.plan[failed], detail.as_str()),
                    ),
                    _ => vstd::pervasive::unreached(),
                }
            },
            None => {
                proof {
                    lemma_executable_is_read(s, chosen_objects(s, outcomes).len());
                    lemma_run_ends_with_the_plan(s, outcomes);
                    lemma_run_follows_plan(s, outcomes, executable_at(s, outcomes));
                }
                let mut answers = self.outcomes;
                if self.settings.hook {
                    let shown = answers.pop();
                }
                match answers.pop() {
                    Some(Outcome::Executable(executable)) => Ok(executable),
                    _ => vstd::pervasive::unreached(),
                }
            },
        }
    }
}

/// Whether the settings exclude each other. The description of a 32-bit module speaks of the module
/// as a whole, and would be kept with one part only.
pub open spec fn excluded(s: Settings) -> bool {
    s.metadata32 && s.parts > 1
}

/// The message of a compilation whose settings exclude each other.
pub open spec fn exclusion_text() -> Seq<char> {
    "A module with 32-bit metadata cannot be split"@
}

/// Whether `perform` led from one state of the outside to the next when it was asked for the step
/// that follows the given outcomes, and gave this outcome.
pub open spec fn step_led<O, P: Fn(O, &Compilation, Step) -> (O, Outcome)>(
    perform: P,
    s: Settings,
    before: Seq<Outcome>,
    from: O,
    to: O,
    outcome: Outcome,
) -> bool {
    exists|state: Compilation|
        {
            &&& state.settings() == s
            &&& #[trigger] state.outcomes() == before
            &&& next_step(s, before) matches Some(step) && perform.ensures(
                (from, &state, step),
                (to, outcome),
            )
        }
}

/// Whether the outcomes were given by `perform`, each when it was asked for the step that was next.
/// The states of the outside form a chain with one link for each outcome: every step was performed
/// once.
pub open spec fn performed<O, P: Fn(O, &Compilation, Step) -> (O, Outcome)>(
    perform: P,
    s: Settings,
    outcomes: Seq<Outcome>,
    chain: Seq<O>,
) -> bool {
    &&& chain.len() == outcomes.len() + 1
    &&& forall|i: int|
        0 <= i < outcomes.len() ==> step_led(
            perform,
            s,
            outcomes.take(i),
            chain[i],
            chain[i + 1],
            #[trigger] outcomes[i],
        )
}

/// Whether the executable or the message is what a compilation that is over came to.
pub open spec fn is_verdict(s: Settings, outcomes: Seq<Outcome>, r: Result<Vec<u8>, String>) -> bool {
    match r {
        Ok(executable) => verdict(s, outcomes) == Ok::<Seq<u8>, Seq<char>>(executable@),
        Err(message) => verdict(s, outcomes) == Err::<Seq<u8>, Seq<char>>(message@),
    }
}

/// Whether a compilation with these settings has come to this state and takes this step next.
pub open spec fn is_next(settings: Settings, state: &Compilation, step: Step) -> bool {
    &&& !excluded(settings)
    &&& state.wf()
    &&& state.settings() == settings
    &&& next_step(settings, state.outcomes()) == Some(step)
}

/// Compiles a module: takes the steps that the settings ask for, in their order and each once, and
/// ends with the executable or with the message of the first step that failed. Settings that exclude
/// each other are refused before any step.
///
/// `outside` is whatever `perform` works on. It is handed from step to step, and given back at the
/// end.
pub fn compile<O, P: Fn(O, &Compilation, Step) -> (O, Outcome)>(
    settings: Settings,
    outside: O,
    perform: P,
) -> (end: (O, Result<Vec<u8>, String>))
    requires
        forall|from: O, state: &Compilation, step: Step|
            is_next(settings, state, step) ==> #[trigger] perform.requires((from, state, step)),
        forall|from: O, state: &Compilation, step: Step, to: O, outcome: Outcome|
            is_next(settings, state, step) && (#[trigger] perform.ensures(
                (from, state, step),
                (to, outcome),
            )) ==> answers(step, outcome),
    ensures
        if excluded(settings) {
            &&& end.0 == outside
            &&& end.1 matches Err(message) && message@ == exclusion_text()
        } else {
            exists|outcomes: Seq<Outcome>, chain: Seq<O>|
                {
                    &&& is_run(settings, outcomes)
                    &&& next_step(settings, outcomes) is None
                    &&& #[trigger] performed(perform, settings, outcomes, chain)
                    &&& chain[0] == outside
                    &&& chain.last() == end.0
                    &&& is_verdict(settings, outcomes, end.1)
                }
        },
{
    if settings.metadata32 && settings.parts > 1 {
        return (outside, Err("A module with 32-bit metadata cannot be split".to_owned()));
    }
    let mut current = outside;
    let mut state = Compilation::new(settings);
    let ghost mut chain: Seq<O> = seq![current];
    loop
        invariant
            !excluded(settings),
            forall|from: O, state: &Compilation, step: Step|
                is_next(settings, state, step) ==> #[trigger] perform.requires(
                    (from, state, step),
                ),
            forall|from: O, state: &Compilation, step: Step, to: O, outcome: Outcome|
                is_next(settings, state, step) && (#[trigger] perform.ensures(
                    (from, state, step),
                    (to, outcome),
                )) ==> answers(step, outcome),
            state.wf(),
            state.settings() == settings,
            is_run(settings, state.outcomes()),
            performed(perform, settings, state.outcomes(), chain),
            chain[0] == outside,
            chain.last() == current,
        ensures
            next_step(settings, state.outcomes()) is None,
        decreases stages_left(settings, state.outcomes()), steps_left(settings, state.outcomes()),
    {
        match state.step() {
            None => {
                break ;
            },
            Some(step) => {
                let ghost before = state.outcomes();
                let ghost asked = state;
                let ghost links = chain;
                let ghost from = current;
                assert(is_next(settings, &state, step));
                let (to, outcome) = perform(current, &state, step);
                current = to;
                let ghost given = outcome;
                state.record(outcome);
                proof {
                    chain = links.push(current);
                    let after = state.outcomes();
                    assert(step_led(perform, settings, before, from, current, given)) by {
                        assert(asked.outcomes() == before);
                    }
                    assert forall|i: int| 0 <= i < after.len() implies step_led(
                        perform,
                        settings,
                        after.take(i),
                        chain[i],
                        chain[i + 1],
                        #[trigger] after[i],
                    ) by {
                        if i < before.len() {
                            assert(after[i] == before[i]);
                            assert(after.take(i) =~= before.take(i));
                        } else {
                            assert(after.take(i) =~= before);
                        }
                    }
                    lemma_steps_left(settings, before, given);
                }
            },
        }
    }
    assert(performed(perform, settings, state.outcomes(), chain));
    (current, state.result())
}

/// The fusion setting that a run leaves behind, where it has touched it.
pub open spec fn fusion_after(s: Settings, outcomes: Seq<Outcome>) -> Option<Fusion>
    decreases outcomes.len(),
{
    if outcomes.len() == 0 {
        None
    } else {
        match next_step(s, outcomes.drop_last()) {
            Some(Step::SetFusion(fusion)) => Some(fusion),
            _ => fusion_after(s, outcomes.drop_last()),
        }
    }
}

/// Where the fusion setting changes as long as nothing fails.
proof fn lemma_fusion_along_the_plan(s: Settings, outcomes: Seq<Outcome>, n: int)
    requires
        is_run(s, outcomes),
        0 <= n <= outcomes.len(),
        n <= first_failure(outcomes) + 1,
    ensures
        fusion_after(s, outcomes.take(n)) == if !s.selective || n < linking(s).len() + 2 {
            None::<Fusion>
        } else if n < linking(s).len() + 6 {
            Some(Fusion::Off)
        } else if n < linking(s).len() + 10 {
            Some(Fusion::On)
        } else {
            Some(Fusion::FromEnvironment)
        },
    decreases n,
{
    lemma_fixed_lengths(s);
    lemma_first_failure(outcomes);
    if n > 0 {
        let at = n - 1;
        lemma_fusion_along_the_plan(s, outcomes, at);
        assert(outcomes.take(n).drop_last() =~= outcomes.take(at));
        lemma_run_follows_plan(s, outcomes, at);
        let fixed = up_to_objects(s).len() as int;
        if at < fixed {
            assert(planned(s, outcomes)[at] == up_to_objects(s)[at]);
            if at < linking(s).len() {
                assert(up_to_objects(s)[at] == linking(s)[at]);
            } else if s.selective {
                assert(up_to_objects(s)[at] == selective_generation(s)[at - linking(s).len()]);
            } else {
                assert(up_to_objects(s)[at] == ordinary_generation(s)[at - linking(s).len()]);
            }
        } else {
            let objects = chosen_objects(s, outcomes).len();
            lemma_kinds_from_objects(s, objects, at - fixed);
            assert(planned(s, outcomes)[at] == from_objects(s, objects)[at - fixed]);
        }
    }
}

/// Once something has failed, at most one more step is taken, and that only to give the fusion
/// setting back.
pub proof fn failure_ends_the_compilation(s: Settings, outcomes: Seq<Outcome>)
    requires
        is_run(s, outcomes),
        first_failure(outcomes) < outcomes.len(),
    ensures
        outcomes.len() == first_failure(outcomes) + 1 || {
            &&& outcomes.len() == first_failure(outcomes) + 2
            &&& in_fused_attempt(s, first_failure(outcomes))
            &&& next_step(s, outcomes.drop_last()) == Some(
                Step::SetFusion(Fusion::FromEnvironment),
            )
        },
{
    let failed = first_failure(outcomes);
    lemma_first_failure(outcomes);
    if outcomes.len() > failed + 1 {
        let last = outcomes.len() - 1;
        assert(next_step(s, outcomes.take(last)) is Some);
        lemma_first_failure_of_prefix(outcomes, last);
        assert(outcomes.take(last) =~= outcomes.drop_last());
    }
}

/// However a compilation ends, it does not leave fusion turned on: whoever built with fusion hands
/// the decision back to the environment, whether the build succeeded or not.
pub proof fn fusion_is_never_left_on(s: Settings, outcomes: Seq<Outcome>)
    requires
        is_run(s, outcomes),
        next_step(s, outcomes) is None,
    ensures
        fusion_after(s, outcomes) != Some(Fusion::On),
        s.selective && first_failure(outcomes) == outcomes.len() ==> fusion_after(s, outcomes)
            == Some(Fusion::FromEnvironment),
        !s.selective ==> fusion_after(s, outcomes) is None,
{
    lemma_fixed_lengths(s);
    lemma_first_failure(outcomes);
    let failed = first_failure(outcomes);
    let all = outcomes.len() as int;
    assert(outcomes.take(all) =~= outcomes);
    if failed == all {
        lemma_run_ends_with_the_plan(s, outcomes);
        lemma_fusion_along_the_plan(s, outcomes, all);
    } else {
        failure_ends_the_compilation(s, outcomes);
        lemma_fusion_along_the_plan(s, outcomes, failed + 1);
        if all == failed + 1 {
            lemma_run_follows_plan(s, outcomes, failed);
            if s.selective && failed < up_to_objects(s).len() && failed >= linking(s).len() {
                assert(planned(s, outcomes)[failed] == up_to_objects(s)[failed]);
                assert(up_to_objects(s)[failed] == selective_generation(s)[failed - linking(
                    s,
                ).len()]);
            }
        }
    }
}

/// A compilation that succeeded has taken every step of its plan, and its result is what was read
/// after linking.
pub proof fn success_takes_every_step(s: Settings, outcomes: Seq<Outcome>)
    requires
        is_run(s, outcomes),
        next_step(s, outcomes) is None,
        verdict(s, outcomes) is Ok,
    ensures
        outcomes.len() == planned(s, outcomes).len(),
        forall|i: int|
            0 <= i < outcomes.len() ==> next_step(s, outcomes.take(i)) == Some(
                #[trigger] planned(s, outcomes)[i],
            ),
        planned(s, outcomes)[executable_at(s, outcomes)] is ReadExecutable,
{
    lemma_first_failure(outcomes);
    lemma_run_ends_with_the_plan(s, outcomes);
    assert forall|i: int| 0 <= i < outcomes.len() implies next_step(s, outcomes.take(i)) == Some(
        #[trigger] planned(s, outcomes)[i],
    ) by {
        lemma_run_follows_plan(s, outcomes, i);
    }
    lemma_executable_is_read(s, chosen_objects(s, outcomes).len());
}

/// A module is optimised whole before code is generated for it, in one piece or in parts.
pub proof fn modules_are_optimized_before_they_are_split(s: Settings, i: int, candidate: Candidate)
    requires
        0 <= i < up_to_objects(s).len(),
        up_to_objects(s)[i] == Step::EmitObject(candidate) || (up_to_objects(
            s,
        )[i] matches Step::EmitParts(c, _) && c == candidate),
    ensures
        exists|k: int| 0 <= k < i && #[trigger] up_to_objects(s)[k] == Step::Optimize(candidate),
{
    lemma_fixed_lengths(s);
    let n = linking(s).len() as int;
    if i < n {
        assert(up_to_objects(s)[i] == linking(s)[i]);
    } else if s.selective {
        assert(up_to_objects(s)[i] == selective_generation(s)[i - n]);
        assert(up_to_objects(s)[n + 3] == selective_generation(s)[3]);
        assert(up_to_objects(s)[n + 7] == selective_generation(s)[7]);
    } else {
        assert(up_to_objects(s)[i] == ordinary_generation(s)[i - n]);
        assert(up_to_objects(s)[n + 1] == ordinary_generation(s)[1]);
    }
}

/// Nothing is shown when nobody looks, and the listings of the optimised module and of its assembly
/// are only shown of a module that is built once and in one piece.
pub proof fn what_is_shown(s: Settings, objects: nat, i: int)
    requires
        0 <= i < (up_to_objects(s) + from_objects(s, objects)).len(),
        (up_to_objects(s) + from_objects(s, objects))[i] is Show,
    ensures
        s.hook,
        ({
            let shown = (up_to_objects(s) + from_objects(s, objects))[i]->Show_0;
            shown == Listing::Optimized || shown == Listing::Assembly ==> !s.selective && s.parts
                <= 1
        }),
{
    lemma_fixed_lengths(s);
    let n = linking(s).len() as int;
    let fixed = up_to_objects(s).len() as int;
    let step = (up_to_objects(s) + from_objects(s, objects))[i];
    if i >= fixed {
        lemma_kinds_from_objects(s, objects, i - fixed);
        assert(step == from_objects(s, objects)[i - fixed]);
    } else if i < n {
        assert(step == linking(s)[i]);
    } else if s.selective {
        assert(step == selective_generation(s)[i - n]);
    } else {
        assert(step == ordinary_generation(s)[i - n]);
    }
}

/// A module is only ever cut into at least two parts: fewer leave it whole.
pub proof fn no_module_is_cut_into_fewer_than_two(s: Settings, i: int, candidate: Candidate, parts: u32)
    requires
        0 <= i < up_to_objects(s).len(),
        up_to_objects(s)[i] == Step::EmitParts(candidate, parts),
    ensures
        parts == s.parts,
        parts >= 2,
{
    let n = linking(s).len() as int;
    if i < n {
        assert(up_to_objects(s)[i] == linking(s)[i]);
    } else if s.selective {
        assert(up_to_objects(s)[i] == selective_generation(s)[i - n]);
    } else {
        assert(up_to_objects(s)[i] == ordinary_generation(s)[i - n]);
    }
}

/// Whether a step is only taken because somebody looks.
pub open spec fn for_the_eye(step: Step) -> bool {
    step is Show || step is EmitAssembly || step is TellListingsSkipped
}

/// The steps that are taken for the result, rather than to look at what comes before it.
pub open spec fn unseen(steps: Seq<Step>) -> Seq<Step>
    decreases steps.len(),
{
    if steps.len() == 0 {
        Seq::empty()
    } else {
        let before = unseen(steps.drop_last());
        if for_the_eye(steps.last()) {
            before
        } else {
            before.push(steps.last())
        }
    }
}

/// Lists can be gone through one after the other.
proof fn lemma_unseen_add(a: Seq<Step>, b: Seq<Step>)
    ensures
        unseen(a + b) == unseen(a) + unseen(b),
    decreases b.len(),
{
    if b.len() == 0 {
        assert(a + b =~= a);
        assert(unseen(a) + unseen(b) =~= unseen(a));
    } else {
        lemma_unseen_add(a, b.drop_last());
        assert((a + b).drop_last() =~= a + b.drop_last());
        assert(unseen(a + b) =~= unseen(a) + unseen(b));
    }
}

/// A list in which nothing is shown stays as it is.
proof fn lemma_nothing_to_see(steps: Seq<Step>)
    requires
        forall|i: int|
            0 <= i < steps.len() ==> !for_the_eye(#[trigger] steps[i]),
    ensures
        unseen(steps) == steps,
    decreases steps.len(),
{
    if steps.len() > 0 {
        lemma_nothing_to_see(steps.drop_last());
        assert(steps.drop_last().push(steps.last()) =~= steps);
    }
}

/// A list in which everything is shown goes.
proof fn lemma_everything_to_see(steps: Seq<Step>)
    requires
        forall|i: int|
            0 <= i < steps.len() ==> for_the_eye(#[trigger] steps[i]),
    ensures
        unseen(steps) == Seq::<Step>::empty(),
    decreases steps.len(),
{
    if steps.len() > 0 {
        lemma_everything_to_see(steps.drop_last());
    }
}

/// What is shown before the objects are there, and what is not.
proof fn lemma_unseen_up_to_objects(s: Settings)
    ensures
        unseen(up_to_objects(s)) == up_to_objects(Settings { hook: false, ..s }),
{
    let plain = Settings { hook: false, ..s };
    let linked = linking(plain);
    let shown = only_if(s.hook, seq![Step::Show(Listing::Linked)]);
    assert(linking(s) =~= linked + shown);
    lemma_unseen_add(linked, shown);
    lemma_nothing_to_see(linked);
    lemma_everything_to_see(shown);
    assert(unseen(linking(s)) =~= linked);
    if s.selective {
        lemma_unseen_add(linking(s), selective_generation(s));
        lemma_nothing_to_see(selective_generation(s));
    } else {
        let start = seq![Step::MakeTargetMachine, Step::Optimize(Candidate::Linked)];
        let listings = only_if(
            s.hook && s.parts <= 1,
            seq![Step::Show(Listing::Optimized), Step::EmitAssembly, Step::Show(Listing::Assembly)],
        );
        let told = only_if(s.hook && s.parts > 1, seq![Step::TellListingsSkipped]);
        let end = seq![emission(s, Candidate::Linked)];
        lemma_unseen_add(linking(s), ordinary_generation(s));
        lemma_unseen_add(start + listings + told, end);
        lemma_unseen_add(start + listings, told);
        lemma_unseen_add(start, listings);
        lemma_everything_to_see(told);
        lemma_nothing_to_see(start);
        lemma_everything_to_see(listings);
        lemma_nothing_to_see(end);
        assert(unseen(ordinary_generation(s)) =~= ordinary_generation(plain));
    }
}

/// What is shown once the objects are there, and what is not.
proof fn lemma_unseen_from_objects(s: Settings, objects: nat)
    ensures
        unseen(from_objects(s, objects)) == from_objects(
            Settings { hook: false, ..s },
            objects,
        ),
{
    let plain = Settings { hook: false, ..s };
    let first = only_if(s.hook, seq![Step::Show(Listing::Object)]);
    let last = only_if(s.hook, seq![Step::Show(Listing::Executable)]);
    let middle = from_objects(plain, objects);
    assert(from_objects(s, objects) =~= first + middle + last);
    lemma_unseen_add(first + middle, last);
    lemma_unseen_add(first, middle);
    lemma_everything_to_see(first);
    lemma_everything_to_see(last);
    assert forall|i: int| 0 <= i < middle.len() implies !for_the_eye(#[trigger] middle[i]) by {
        lemma_kinds_from_objects(plain, objects, i);
    }
    lemma_nothing_to_see(middle);
    assert(unseen(from_objects(s, objects)) =~= middle);
}

/// Looking at the intermediate results changes nothing else: what is done besides is what is done
/// when nobody looks.
pub proof fn looking_changes_nothing(s: Settings, objects: nat)
    ensures
        unseen(up_to_objects(s) + from_objects(s, objects)) == up_to_objects(
            Settings { hook: false, ..s },
        ) + from_objects(Settings { hook: false, ..s }, objects),
{
    lemma_unseen_add(up_to_objects(s), from_objects(s, objects));
    lemma_unseen_up_to_objects(s);
    lemma_unseen_from_objects(s, objects);
}

/// The file of an object.
pub open spec fn object_file(i: int) -> TemporaryFile {
    TemporaryFile::Object(i as usize)
}

/// Whether these steps take the modules to their objects, one after the other and none besides.
///
/// The libraries are parsed and verified, everything is linked and verified, and code is generated:
/// in the ordinary way, or without and with fusion where that is asked for, of the whole module or of
/// as many parts as are asked for.
#[verifier::opaque]
pub open spec fn generates(s: Settings, plan: Seq<Step>) -> bool {
    let g = if s.hook {
        13int
    } else {
        12int
    };
    let emit = |c: Candidate|
        if s.parts >= 2 {
            Step::EmitParts(c, s.parts)
        } else {
            Step::EmitObject(c)
        };
    &&& plan.len() == if s.selective {
        g + 11
    } else if !s.hook {
        g + 3
    } else if s.parts >= 2 {
        g + 4
    } else {
        g + 6
    }
    &&& plan[0] is Initialize
    &&& plan[1] == Step::Parse(Source::PtxImpl)
    &&& plan[2] == Step::Verify(Source::PtxImpl)
    &&& plan[3] == Step::Parse(Source::Ockl)
    &&& plan[4] == Step::Verify(Source::Ockl)
    &&& plan[5] is DefineConstants
    &&& plan[6] == Step::Link(Source::Main)
    &&& plan[7] == Step::Link(Source::Attributes)
    &&& plan[8] == Step::Link(Source::Constants)
    &&& plan[9] == Step::Link(Source::PtxImpl)
    &&& plan[10] == Step::Link(Source::Ockl)
    &&& plan[11] is VerifyLinked
    &&& s.hook ==> plan[12] == Step::Show(Listing::Linked)
    &&& !s.selective ==> {
        &&& plan[g] is MakeTargetMachine
        &&& plan[g + 1] == Step::Optimize(Candidate::Linked)
        &&& s.hook && s.parts >= 2 ==> plan[g + 2] is TellListingsSkipped
        &&& s.hook && s.parts < 2 ==> {
            &&& plan[g + 2] == Step::Show(Listing::Optimized)
            &&& plan[g + 3] is EmitAssembly
            &&& plan[g + 4] == Step::Show(Listing::Assembly)
        }
        &&& plan.last() == emit(Candidate::Linked)
    }
    &&& s.selective ==> {
        &&& plan[g] is DuplicateLinked
        &&& plan[g + 1] == Step::SetFusion(Fusion::Off)
        &&& plan[g + 2] is MakeTargetMachine
        &&& plan[g + 3] == Step::Optimize(Candidate::Linked)
        &&& plan[g + 4] == emit(Candidate::Linked)
        &&& plan[g + 5] == Step::SetFusion(Fusion::On)
        &&& plan[g + 6] is MakeTargetMachine
        &&& plan[g + 7] == Step::Optimize(Candidate::Duplicate)
        &&& plan[g + 8] == emit(Candidate::Duplicate)
        &&& plan[g + 9] == Step::SetFusion(Fusion::FromEnvironment)
        &&& plan[g + 10] is CompareSizes
    }
}

/// Whether these steps take `n` objects to the executable, one after the other and none besides.
///
/// Every object is written to a file of its own, then the metadata sections are; all of them are
/// named for the linker in that order, and the executable is read after linking.
#[verifier::opaque]
pub open spec fn links(s: Settings, n: nat, plan: Seq<Step>) -> bool {
    let h = if s.hook {
        1int
    } else {
        0int
    };
    let m = if s.metadata32 {
        1int
    } else {
        0int
    };
    let p = h + 2 * n + 3 + 2 * m;
    let q = p + n + 1 + m;
    &&& plan.len() == q + 3 + h
    &&& s.hook ==> plan[0] == Step::Show(Listing::Object)
    &&& forall|i: int|
        0 <= i < n ==> {
            &&& plan[h + 2 * i] == Step::CreateFile(#[trigger] object_file(i))
            &&& plan[h + 2 * i + 1] == Step::WriteFile(object_file(i))
            &&& plan[p + i] == Step::NameFile(object_file(i))
        }
    &&& plan[h + 2 * n] == Step::CreateFile(TemporaryFile::Section)
    &&& plan[h + 2 * n + 1] == Step::CreateFile(TemporaryFile::Executable)
    &&& plan[h + 2 * n + 2] == Step::WriteFile(TemporaryFile::Section)
    &&& s.metadata32 ==> plan[h + 2 * n + 3] == Step::CreateFile(TemporaryFile::Section32)
    &&& s.metadata32 ==> plan[h + 2 * n + 4] == Step::WriteFile(TemporaryFile::Section32)
    &&& plan[p + n] == Step::NameFile(TemporaryFile::Section)
    &&& s.metadata32 ==> plan[p + n + 1] == Step::NameFile(TemporaryFile::Section32)
    &&& plan[q] == Step::NameFile(TemporaryFile::Executable)
    &&& plan[q + 1] is LinkExecutable
    &&& plan[q + 2] is ReadExecutable
    &&& s.hook ==> plan[q + 3] == Step::Show(Listing::Executable)
}

/// The plan takes the modules to their objects.
proof fn lemma_layout_up_to_objects(s: Settings)
    ensures
        generates(s, up_to_objects(s)),
{
    reveal(generates);
    lemma_fixed_lengths(s);
    let plan = up_to_objects(s);
    let g = linking(s).len() as int;
    assert forall|i: int| 0 <= i < g implies plan[i] == #[trigger] linking(s)[i] by {}
    if s.selective {
        assert forall|i: int| 0 <= i < 11 implies plan[g + i] == #[trigger] selective_generation(
            s,
        )[i] by {}
    } else {
        assert forall|i: int|
            0 <= i < ordinary_generation(s).len() implies plan[g + i]
            == #[trigger] ordinary_generation(s)[i] by {}
    }
}

/// The plan takes the objects to the executable.
proof fn lemma_layout_from_objects(s: Settings, n: nat)
    ensures
        links(s, n, from_objects(s, n)),
{
    reveal(links);
    let h = if s.hook {
        1int
    } else {
        0int
    };
    let m = if s.metadata32 {
        1int
    } else {
        0int
    };
    let p = h + 2 * n + 3 + 2 * m;
    let q = p + n + 1 + m;
    lemma_object_files(n);
    let a = only_if(s.hook, seq![Step::Show(Listing::Object)]);
    let b = object_files(n);
    let c = seq![
        Step::CreateFile(TemporaryFile::Section),
        Step::CreateFile(TemporaryFile::Executable),
        Step::WriteFile(TemporaryFile::Section),
    ];
    let d = only_if(
        s.metadata32,
        seq![
            Step::CreateFile(TemporaryFile::Section32),
            Step::WriteFile(TemporaryFile::Section32),
        ],
    );
    let e = naming(linker_inputs(s, n));
    let f = seq![
        Step::NameFile(TemporaryFile::Executable),
        Step::LinkExecutable,
        Step::ReadExecutable,
    ];
    let g = only_if(s.hook, seq![Step::Show(Listing::Executable)]);
    let plan = from_objects(s, n);
    assert(plan == a + b + c + d + e + f + g);
    assert(a.len() == h && b.len() == 2 * n && c.len() == 3 && d.len() == 2 * m && e.len() == n + 1
        + m && f.len() == 3 && g.len() == h);
    assert forall|i: int| 0 <= i < n implies {
        &&& plan[h + 2 * i] == Step::CreateFile(#[trigger] object_file(i))
        &&& plan[h + 2 * i + 1] == Step::WriteFile(object_file(i))
        &&& plan[p + i] == Step::NameFile(object_file(i))
    } by {
        assert(plan[h + 2 * i] == b[2 * i]);
        assert(plan[h + 2 * i + 1] == b[2 * i + 1]);
        assert(plan[p + i] == e[i]);
        assert(linker_inputs(s, n)[i] == object_file(i));
    }
    assert(plan[h + 2 * n] == c[0] && plan[h + 2 * n + 1] == c[1] && plan[h + 2 * n + 2] == c[2]);
    if s.metadata32 {
        assert(plan[h + 2 * n + 3] == d[0] && plan[h + 2 * n + 4] == d[1]);
    }
    assert(plan[p + n] == e[n as int]);
    assert(linker_inputs(s, n)[n as int] == TemporaryFile::Section);
    if s.metadata32 {
        assert(plan[p + n + 1] == e[(n + 1) as int]);
    }
    assert(plan[q] == f[0] && plan[q + 1] == f[1] && plan[q + 2] == f[2]);
    if s.hook {
        assert(plan[q + 3] == g[0]);
    }
}

/// Whether a file is made, then written, then named for the linker, and the linker runs after that.
pub open spec fn is_linked(
    plan: Seq<Step>,
    file: TemporaryFile,
    created: int,
    written: int,
    named: int,
    linked: int,
) -> bool {
    &&& 0 <= created < written < named < linked < plan.len()
    &&& plan[created] == Step::CreateFile(file)
    &&& plan[written] == Step::WriteFile(file)
    &&& plan[named] == Step::NameFile(file)
    &&& plan[linked] is LinkExecutable
}

/// A plan that takes objects to the executable links every one of them.
proof fn lemma_linked_in(s: Settings, n: nat, plan: Seq<Step>, i: int)
    requires
        links(s, n, plan),
    ensures
        0 <= i < n ==> exists|created: int, written: int, named: int, linked: int|
            #[trigger] is_linked(plan, object_file(i), created, written, named, linked),
        exists|created: int, written: int, named: int, linked: int|
            #[trigger] is_linked(plan, TemporaryFile::Section, created, written, named, linked),
        s.metadata32 ==> exists|created: int, written: int, named: int, linked: int|
            #[trigger] is_linked(plan, TemporaryFile::Section32, created, written, named, linked),
{
    reveal(links);
    let h = if s.hook {
        1int
    } else {
        0int
    };
    let m = if s.metadata32 {
        1int
    } else {
        0int
    };
    let p = h + 2 * n + 3 + 2 * m;
    let q = p + n + 1 + m;
    if 0 <= i < n {
        assert(is_linked(plan, object_file(i), h + 2 * i, h + 2 * i + 1, p + i, q + 1));
    }
    assert(is_linked(plan, TemporaryFile::Section, h + 2 * n, h + 2 * n + 2, p + n, q + 1));
    if s.metadata32 {
        assert(is_linked(
            plan,
            TemporaryFile::Section32,
            h + 2 * n + 3,
            h + 2 * n + 4,
            p + n + 1,
            q + 1,
        ));
    }
}

/// What is linked by the end of a plan is linked by the whole.
proof fn lemma_linked_in_the_whole(
    before: Seq<Step>,
    plan: Seq<Step>,
    file: TemporaryFile,
)
    requires
        exists|created: int, written: int, named: int, linked: int|
            #[trigger] is_linked(plan, file, created, written, named, linked),
    ensures
        exists|created: int, written: int, named: int, linked: int|
            #[trigger] is_linked(before + plan, file, created, written, named, linked),
{
    let (c, w, d, l) = choose|created: int, written: int, named: int, linked: int|
        #[trigger] is_linked(plan, file, created, written, named, linked);
    let k = before.len() as int;
    assert(is_linked(before + plan, file, k + c, k + w, k + d, k + l));
}

/// Every object of the build that was chosen is linked: in a compilation that succeeded a file is
/// made for it and it is written to the file, the file is named for the linker after that, and the
/// linker runs after that. The same goes for the metadata sections.
pub proof fn every_object_is_linked(s: Settings, outcomes: Seq<Outcome>, i: int)
    requires
        is_run(s, outcomes),
        next_step(s, outcomes) is None,
        verdict(s, outcomes) is Ok,
        0 <= i < chosen_objects(s, outcomes).len(),
    ensures
        planned(s, outcomes).len() == outcomes.len(),
        exists|created: int, written: int, named: int, linked: int|
            #[trigger] is_linked(
                planned(s, outcomes),
                TemporaryFile::Object(i as usize),
                created,
                written,
                named,
                linked,
            ),
        exists|created: int, written: int, named: int, linked: int|
            #[trigger] is_linked(
                planned(s, outcomes),
                TemporaryFile::Section,
                created,
                written,
                named,
                linked,
            ),
        s.metadata32 ==> exists|created: int, written: int, named: int, linked: int|
            #[trigger] is_linked(
                planned(s, outcomes),
                TemporaryFile::Section32,
                created,
                written,
                named,
                linked,
            ),
{
    lemma_first_failure(outcomes);
    lemma_run_ends_with_the_plan(s, outcomes);
    let n = chosen_objects(s, outcomes).len();
    lemma_layout_from_objects(s, n);
    lemma_linked_in(s, n, from_objects(s, n), i);
    lemma_linked_in_the_whole(up_to_objects(s), from_objects(s, n), object_file(i));
    lemma_linked_in_the_whole(up_to_objects(s), from_objects(s, n), TemporaryFile::Section);
    if s.metadata32 {
        lemma_linked_in_the_whole(up_to_objects(s), from_objects(s, n), TemporaryFile::Section32);
    }
}

/// Whether a step was performed at this place, with the answers before it at hand, and did not fail.
pub open spec fn done_at<O, P: Fn(O, &Compilation, Step) -> (O, Outcome)>(
    perform: P,
    chain: Seq<O>,
    outcomes: Seq<Outcome>,
    at: int,
    step: Step,
) -> bool {
    &&& 0 <= at < outcomes.len()
    &&& !(outcomes[at] is Failed)
    &&& exists|state: Compilation|
        {
            &&& #[trigger] state.outcomes() == outcomes.take(at)
            &&& perform.ensures((chain[at], &state, step), (chain[at + 1], outcomes[at]))
        }
}

/// Whether these steps were performed one after the other from this place on, and none failed.
pub open spec fn done_from<O, P: Fn(O, &Compilation, Step) -> (O, Outcome)>(
    perform: P,
    chain: Seq<O>,
    outcomes: Seq<Outcome>,
    from: int,
    steps: Seq<Step>,
) -> bool {
    forall|k: int|
        0 <= k < steps.len() ==> done_at(perform, chain, outcomes, from + k, #[trigger] steps[k])
}

/// Every step of the plan was performed at its place, in a compilation in which nothing failed.
proof fn lemma_plan_is_done<O, P: Fn(O, &Compilation, Step) -> (O, Outcome)>(
    s: Settings,
    perform: P,
    chain: Seq<O>,
    outcomes: Seq<Outcome>,
)
    requires
        is_run(s, outcomes),
        performed(perform, s, outcomes, chain),
        first_failure(outcomes) == outcomes.len(),
    ensures
        forall|i: int|
            0 <= i < outcomes.len() ==> done_at(
                perform,
                chain,
                outcomes,
                i,
                #[trigger] planned(s, outcomes)[i],
            ),
{
    lemma_first_failure(outcomes);
    assert forall|i: int| 0 <= i < outcomes.len() implies done_at(
        perform,
        chain,
        outcomes,
        i,
        #[trigger] planned(s, outcomes)[i],
    ) by {
        lemma_run_follows_plan(s, outcomes, i);
        assert(step_led(perform, s, outcomes.take(i), chain[i], chain[i + 1], outcomes[i]));
    }
}

/// What a compilation that succeeds does. The steps that take the modules to their objects are
/// performed, then the steps that take every object of the chosen build to the executable, each once
/// and nothing else. The chosen build is the one with fusion if there is one and the comparison of the
/// sizes kept it. What is given back is what was read as the executable.
#[verifier::rlimit(40)]
pub proof fn successful_compilation<O, P: Fn(O, &Compilation, Step) -> (O, Outcome)>(
    s: Settings,
    outside: O,
    perform: P,
    end: (O, Result<Vec<u8>, String>),
) -> (trace: (Seq<O>, Seq<Outcome>, Seq<Step>, Seq<Step>))
    requires
        call_ensures(compile::<O, P>, (s, outside, perform), end),
        end.1 is Ok,
    ensures
        !(s.metadata32 && s.parts >= 2),
        ({
            let (chain, outcomes, first, rest) = trace;
            let g = if s.hook {
                13int
            } else {
                12int
            };
            let chosen = if !s.selective {
                first.len() - 1
            } else if outcomes[g + 10] == Outcome::KeepFused(true) {
                g + 8
            } else {
                g + 4
            };
            let read = outcomes.len() - if s.hook {
                2int
            } else {
                1int
            };
            &&& chain.len() == outcomes.len() + 1
            &&& chain[0] == outside
            &&& chain.last() == end.0
            &&& outcomes.len() == first.len() + rest.len()
            &&& done_from(perform, chain, outcomes, 0, first)
            &&& done_from(perform, chain, outcomes, first.len() as int, rest)
            &&& generates(s, first)
            &&& outcomes[chosen] is Objects
            &&& outcomes[chosen]->Objects_0@.len() >= 1
            &&& links(s, outcomes[chosen]->Objects_0@.len(), rest)
            &&& rest[read - first.len()] is ReadExecutable
            &&& outcomes[read] is Executable
            &&& outcomes[read]->Executable_0@ == end.1->Ok_0@
        }),
{
    let (outcomes, chain) = choose|outcomes: Seq<Outcome>, chain: Seq<O>|
        {
            &&& is_run(s, outcomes)
            &&& next_step(s, outcomes) is None
            &&& #[trigger] performed(perform, s, outcomes, chain)
            &&& chain[0] == outside
            &&& chain.last() == end.0
            &&& is_verdict(s, outcomes, end.1)
        };
    lemma_first_failure(outcomes);
    lemma_run_ends_with_the_plan(s, outcomes);
    lemma_objects_are_there(s, outcomes);
    lemma_plan_is_done(s, perform, chain, outcomes);
    lemma_fixed_lengths(s);
    lemma_layout_up_to_objects(s);
    let n = chosen_objects(s, outcomes).len();
    lemma_layout_from_objects(s, n);
    lemma_executable_is_read(s, n);
    lemma_run_follows_plan(s, outcomes, executable_at(s, outcomes));
    let plan = planned(s, outcomes);
    let first = up_to_objects(s);
    let fixed = first.len() as int;
    let rest = from_objects(s, n);
    assert(plan == first + rest);
    assert(done_from(perform, chain, outcomes, 0, first)) by {
        assert forall|k: int| 0 <= k < fixed implies done_at(
            perform,
            chain,
            outcomes,
            0 + k,
            #[trigger] first[k],
        ) by {
            assert(plan[k] == first[k]);
        }
    }
    assert(done_from(perform, chain, outcomes, fixed, rest)) by {
        assert forall|k: int| 0 <= k < rest.len() implies done_at(
            perform,
            chain,
            outcomes,
            fixed + k,
            #[trigger] rest[k],
        ) by {
            assert(plan[fixed + k] == rest[k]);
        }
    }
    (chain, outcomes, first, rest)
}

/// Whether a step was performed at this place, with the answers before it at hand.
pub open spec fn asked_at<O, P: Fn(O, &Compilation, Step) -> (O, Outcome)>(
    perform: P,
    chain: Seq<O>,
    outcomes: Seq<Outcome>,
    at: int,
    step: Step,
) -> bool {
    &&& 0 <= at < outcomes.len()
    &&& exists|state: Compilation|
        {
            &&& #[trigger] state.outcomes() == outcomes.take(at)
            &&& perform.ensures((chain[at], &state, step), (chain[at + 1], outcomes[at]))
        }
}

/// Settings that ask for 32-bit metadata and a split are refused, and nothing is done.
pub proof fn excluded_settings_are_refused<O, P: Fn(O, &Compilation, Step) -> (O, Outcome)>(
    s: Settings,
    outside: O,
    perform: P,
    end: (O, Result<Vec<u8>, String>),
)
    requires
        call_ensures(compile::<O, P>, (s, outside, perform), end),
        s.metadata32,
        s.parts >= 2,
    ensures
        end.0 == outside,
        end.1 is Err,
        end.1->Err_0@ == "A module with 32-bit metadata cannot be split"@,
{
}

/// What a compilation that fails does. The steps are those of one that succeeds, up to the first that
/// fails; what is said is what that step is said to have failed for. Nothing follows it, except that
/// the fusion setting is given back where the build with fusion failed.
#[verifier::rlimit(40)]
pub proof fn failed_compilation<O, P: Fn(O, &Compilation, Step) -> (O, Outcome)>(
    s: Settings,
    outside: O,
    perform: P,
    end: (O, Result<Vec<u8>, String>),
) -> (trace: (Seq<O>, Seq<Outcome>, Seq<Step>, Seq<Step>, int, Step))
    requires
        call_ensures(compile::<O, P>, (s, outside, perform), end),
        end.1 is Err,
        !(s.metadata32 && s.parts >= 2),
    ensures
        ({
            let (chain, outcomes, first, rest, failed, step) = trace;
            let g = if s.hook {
                13int
            } else {
                12int
            };
            let chosen = if !s.selective {
                first.len() - 1
            } else if outcomes[g + 10] == Outcome::KeepFused(true) {
                g + 8
            } else {
                g + 4
            };
            let fixed = first.len() as int;
            let detail = outcomes[failed]->Failed_0@;
            &&& chain.len() == outcomes.len() + 1
            &&& chain[0] == outside
            &&& chain.last() == end.0
            &&& 0 <= failed < outcomes.len()
            &&& outcomes[failed] is Failed
            &&& generates(s, first)
            &&& asked_at(perform, chain, outcomes, failed, step)
            &&& failed < fixed ==> step == first[failed] && done_from(
                perform,
                chain,
                outcomes,
                0,
                first.take(failed),
            )
            &&& failed >= fixed ==> {
                &&& outcomes[chosen] is Objects
                &&& links(s, outcomes[chosen]->Objects_0@.len(), rest)
                &&& failed < fixed + rest.len()
                &&& step == rest[failed - fixed]
                &&& done_from(perform, chain, outcomes, 0, first)
                &&& done_from(perform, chain, outcomes, fixed, rest.take(failed - fixed))
            }
            &&& end.1->Err_0@ == match step {
                Step::Parse(_) => "Failed to parse bitcode"@,
                Step::CreateFile(_) => "Failed to create temporary file: "@ + detail,
                Step::WriteFile(TemporaryFile::Object(_)) => "Failed to write object file: "@
                    + detail,
                Step::WriteFile(TemporaryFile::Section) => "Failed to write metadata section: "@
                    + detail,
                Step::WriteFile(TemporaryFile::Section32) =>
                    "Failed to write 32-bit metadata section: "@ + detail,
                Step::ReadExecutable => "Failed to read executable file"@,
                _ => detail,
            }
            &&& if s.selective && g + 6 <= failed <= g + 8 {
                outcomes.len() == failed + 2 && asked_at(
                    perform,
                    chain,
                    outcomes,
                    failed + 1,
                    Step::SetFusion(Fusion::FromEnvironment),
                )
            } else {
                outcomes.len() == failed + 1
            }
        }),
{
    let (outcomes, chain) = choose|outcomes: Seq<Outcome>, chain: Seq<O>|
        {
            &&& is_run(s, outcomes)
            &&& next_step(s, outcomes) is None
            &&& #[trigger] performed(perform, s, outcomes, chain)
            &&& chain[0] == outside
            &&& chain.last() == end.0
            &&& is_verdict(s, outcomes, end.1)
        };
    let failed = first_failure(outcomes);
    lemma_first_failure(outcomes);
    lemma_fixed_lengths(s);
    lemma_layout_up_to_objects(s);
    failure_ends_the_compilation(s, outcomes);
    lemma_run_follows_plan(s, outcomes, failed);
    let plan = planned(s, outcomes);
    let first = up_to_objects(s);
    let fixed = first.len() as int;
    let n = chosen_objects(s, outcomes).len();
    let rest = from_objects(s, n);
    let step = plan[failed];
    assert(step_led(
        perform,
        s,
        outcomes.take(failed),
        chain[failed],
        chain[failed + 1],
        outcomes[failed],
    ));
    assert(asked_at(perform, chain, outcomes, failed, step));
    assert forall|i: int| 0 <= i < failed implies done_at(
        perform,
        chain,
        outcomes,
        i,
        #[trigger] plan[i],
    ) by {
        lemma_run_follows_plan(s, outcomes, i);
        assert(step_led(perform, s, outcomes.take(i), chain[i], chain[i + 1], outcomes[i]));
    }
    if failed < fixed {
        let done = first.take(failed);
        assert forall|k: int| 0 <= k < done.len() implies done_at(
            perform,
            chain,
            outcomes,
            0 + k,
            #[trigger] done[k],
        ) by {
            assert(plan[k] == done[k]);
        }
    } else {
        lemma_objects_are_there(s, outcomes);
        lemma_layout_from_objects(s, n);
        assert(plan == first + rest);
        assert forall|k: int| 0 <= k < first.len() implies done_at(
            perform,
            chain,
            outcomes,
            0 + k,
            #[trigger] first[k],
        ) by {
            assert(plan[k] == first[k]);
        }
        let done = rest.take(failed - fixed);
        assert forall|k: int| 0 <= k < done.len() implies done_at(
            perform,
            chain,
            outcomes,
            fixed + k,
            #[trigger] done[k],
        ) by {
            assert(plan[fixed + k] == done[k]);
        }
    }
    if outcomes.len() == failed + 2 {
        assert(outcomes.take(failed + 1) =~= outcomes.drop_last());
        assert(step_led(
            perform,
            s,
            outcomes.take(failed + 1),
            chain[failed + 1],
            chain[failed + 2],
            outcomes[failed + 1],
        ));
        assert(asked_at(
            perform,
            chain,
            outcomes,
            failed + 1,
            Step::SetFusion(Fusion::FromEnvironment),
        ));
    }
    (chain, outcomes, first, rest, failed, step)
}

/// The objects that are linked are those of the only build, or of the one that the comparison kept.
pub proof fn linked_objects_are_those_chosen(compilation: &Compilation, objects: &Vec<Vec<u8>>)
    requires
        call_ensures(Compilation::objects, (compilation,), objects),
    ensures
        ({
            let s = compilation.settings();
            let answers = compilation.outcomes();
            let g = if s.hook {
                13int
            } else {
                12int
            };
            let at = if s.selective && answers[g + 10] == Outcome::KeepFused(true) {
                g + 8
            } else if s.selective {
                g + 4
            } else if !s.hook {
                g + 2
            } else if s.parts >= 2 {
                g + 3
            } else {
                g + 5
            };
            objects@ == answers[at]->Objects_0@
        }),
{
    lemma_fixed_lengths(compilation.settings());
}

/// The builds that are compared are the one without fusion and the one with fusion.
pub proof fn builds_are_told_apart(
    compilation: &Compilation,
    unfused: &Vec<Vec<u8>>,
    fused: &Vec<Vec<u8>>,
)
    requires
        call_ensures(Compilation::build, (compilation, Candidate::Linked), unfused),
        call_ensures(Compilation::build, (compilation, Candidate::Duplicate), fused),
        compilation.settings().selective,
    ensures
        ({
            let g = if compilation.settings().hook {
                13int
            } else {
                12int
            };
            &&& compilation.outcomes()[g + 4] == Outcome::Objects(*unfused)
            &&& compilation.outcomes()[g + 8] == Outcome::Objects(*fused)
        }),
{
    lemma_fixed_lengths(compilation.settings());
}

/// The executable that is shown is the last answer.
pub proof fn shown_executable_is_the_one_read(compilation: &Compilation, executable: &Vec<u8>)
    requires
        call_ensures(Compilation::executable, (compilation,), executable),
    ensures
        compilation.outcomes().last() == Outcome::Executable(*executable),
{
}

/// What intermediate results and temporary files are called, and which number stands for which fusion
/// setting.
pub proof fn names_and_numbers_are_these(
    listing: Listing,
    name: &'static str,
    file: TemporaryFile,
    prefix: &'static str,
    fusion: Fusion,
    code: i32,
)
    requires
        call_ensures(listing_name, (listing,), name),
        call_ensures(file_prefix, (file,), prefix),
        call_ensures(fusion_code, (fusion,), code),
    ensures
        listing is Linked ==> name@ == "linked.ll"@,
        listing is Optimized ==> name@ == "opt.ll"@,
        listing is Assembly ==> name@ == "asm"@,
        listing is Object ==> name@ == "o"@,
        listing is Executable ==> name@ == "elf"@,
        file is Object ==> prefix@ == "zluda.o"@,
        file is Section ==> prefix@ == "zluda_section"@,
        file is Section32 ==> prefix@ == "zluda32_section"@,
        file is Executable ==> prefix@ == "zluda.elf"@,
        fusion is Off ==> code == 0,
        fusion is On ==> code == 1,
        fusion is FromEnvironment ==> code == -1,
{
}

/// A compilation starts with no answers, and asks for the code generator to be set up.
pub proof fn compilation_starts_with_setting_up(
    settings: Settings,
    compilation: Compilation,
    step: Option<Step>,
)
    requires
        call_ensures(Compilation::new, (settings,), compilation),
        call_ensures(Compilation::step, (&compilation,), step),
    ensures
        compilation.settings() == settings,
        compilation.outcomes().len() == 0,
        step == Some(Step::Initialize),
{
    lemma_layout_up_to_objects(settings);
    lemma_fixed_lengths(settings);
    reveal(generates);
}

/// An answer is kept behind the earlier ones.
pub proof fn answers_are_kept_in_order(compilation: &mut Compilation, outcome: Outcome)
    requires
        call_ensures(Compilation::record, (compilation, outcome), ()),
    ensures
        final(compilation).settings() == old(compilation).settings(),
        final(compilation).outcomes().len() == old(compilation).outcomes().len() + 1,
        final(compilation).outcomes().last() == outcome,
        forall|i: int|
            0 <= i < old(compilation).outcomes().len() ==> (
            #[trigger] final(compilation).outcomes()[i]) == old(compilation).outcomes()[i],
{
}

/// What a compilation that is over comes to is what was read as the executable, if nothing failed; and
/// otherwise there is an error.
pub proof fn result_is_what_was_read(compilation: Compilation, r: Result<Vec<u8>, String>)
    requires
        call_ensures(Compilation::result, (compilation,), r),
        compilation.wf(),
        next_step(compilation.settings(), compilation.outcomes()) is None,
    ensures
        r is Err <==> exists|i: int|
            0 <= i < compilation.outcomes().len() && (#[trigger] compilation.outcomes()[i]) is Failed,
        r is Ok ==> {
            let answers = compilation.outcomes();
            let read = answers.len() - if compilation.settings().hook {
                2int
            } else {
                1int
            };
            answers[read] == Outcome::Executable(answers[read]->Executable_0)
                && answers[read]->Executable_0@ == r->Ok_0@
        },
{
    let s = compilation.settings();
    let outcomes = compilation.outcomes();
    lemma_first_failure(outcomes);
    if r is Ok {
        lemma_run_ends_with_the_plan(s, outcomes);
        lemma_executable_is_read(s, chosen_objects(s, outcomes).len());
        lemma_run_follows_plan(s, outcomes, executable_at(s, outcomes));
    } else {
        assert(outcomes[first_failure(outcomes)] is Failed);
    }
}

/// Whether a file was made, then written, then named for the linker, and the linker ran after that.
pub open spec fn went_to_the_linker<O, P: Fn(O, &Compilation, Step) -> (O, Outcome)>(
    perform: P,
    chain: Seq<O>,
    outcomes: Seq<Outcome>,
    file: TemporaryFile,
    created: int,
    written: int,
    named: int,
    linked: int,
) -> bool {
    &&& created < written < named < linked
    &&& done_at(perform, chain, outcomes, created, Step::CreateFile(file))
    &&& done_at(perform, chain, outcomes, written, Step::WriteFile(file))
    &&& done_at(perform, chain, outcomes, named, Step::NameFile(file))
    &&& done_at(perform, chain, outcomes, linked, Step::LinkExecutable)
}

/// Whether a file went to the linker.
pub open spec fn reached_the_linker<O, P: Fn(O, &Compilation, Step) -> (O, Outcome)>(
    perform: P,
    chain: Seq<O>,
    outcomes: Seq<Outcome>,
    file: TemporaryFile,
) -> bool {
    exists|created: int, written: int, named: int, linked: int| #[trigger]
        went_to_the_linker(perform, chain, outcomes, file, created, written, named, linked)
}

/// How many steps take the modules to their objects.
proof fn lemma_length_of_generation(s: Settings, plan: Seq<Step>)
    requires
        generates(s, plan),
    ensures
        !s.selective ==> plan.len() == if !s.hook {
            15int
        } else if s.parts >= 2 {
            17int
        } else {
            19int
        },
{
    reveal(generates);
}

/// What a plan links went to the linker when the plan was done.
proof fn lemma_went_to_the_linker<O, P: Fn(O, &Compilation, Step) -> (O, Outcome)>(
    perform: P,
    chain: Seq<O>,
    outcomes: Seq<Outcome>,
    from: int,
    plan: Seq<Step>,
    file: TemporaryFile,
)
    requires
        done_from(perform, chain, outcomes, from, plan),
        exists|created: int, written: int, named: int, linked: int|
            #[trigger] is_linked(plan, file, created, written, named, linked),
    ensures
        reached_the_linker(perform, chain, outcomes, file),
{
    let (c, w, d, l) = choose|created: int, written: int, named: int, linked: int|
        #[trigger] is_linked(plan, file, created, written, named, linked);
    assert(done_at(perform, chain, outcomes, from + c, plan[c]));
    assert(done_at(perform, chain, outcomes, from + w, plan[w]));
    assert(done_at(perform, chain, outcomes, from + d, plan[d]));
    assert(done_at(perform, chain, outcomes, from + l, plan[l]));
    assert(went_to_the_linker(
        perform,
        chain,
        outcomes,
        file,
        from + c,
        from + w,
        from + d,
        from + l,
    ));
}

/// In a compilation that succeeds every object of the chosen build goes to the linker, and so do the
/// metadata: each is written to a file of its own, that file is named after that, and the linker runs
/// after that. It does not matter how many objects there are, nor what else the settings ask for.
pub proof fn every_object_goes_to_the_linker<O, P: Fn(O, &Compilation, Step) -> (O, Outcome)>(
    s: Settings,
    outside: O,
    perform: P,
    end: (O, Result<Vec<u8>, String>),
) -> (trace: (Seq<O>, Seq<Outcome>))
    requires
        call_ensures(compile::<O, P>, (s, outside, perform), end),
        end.1 is Ok,
    ensures
        ({
            let (chain, outcomes) = trace;
            let g = if s.hook {
                13int
            } else {
                12int
            };
            let chosen = if s.selective && outcomes[g + 10] == Outcome::KeepFused(true) {
                g + 8
            } else if s.selective {
                g + 4
            } else if !s.hook {
                g + 2
            } else if s.parts >= 2 {
                g + 3
            } else {
                g + 5
            };
            &&& chain[0] == outside
            &&& chain.last() == end.0
            &&& outcomes[chosen] is Objects
            &&& forall|i: int|
                0 <= i < outcomes[chosen]->Objects_0@.len() ==> reached_the_linker(
                    perform,
                    chain,
                    outcomes,
                    #[trigger] object_file(i),
                )
            &&& reached_the_linker(perform, chain, outcomes, TemporaryFile::Section)
            &&& s.metadata32 ==> reached_the_linker(
                perform,
                chain,
                outcomes,
                TemporaryFile::Section32,
            )
        }),
{
    let (chain, outcomes, first, rest) = successful_compilation(s, outside, perform, end);
    lemma_length_of_generation(s, first);
    let g = if s.hook {
        13int
    } else {
        12int
    };
    let chosen = if !s.selective {
        first.len() - 1
    } else if outcomes[g + 10] == Outcome::KeepFused(true) {
        g + 8
    } else {
        g + 4
    };
    let n = outcomes[chosen]->Objects_0@.len();
    let from = first.len() as int;
    assert forall|i: int| 0 <= i < n implies reached_the_linker(
        perform,
        chain,
        outcomes,
        #[trigger] object_file(i),
    ) by {
        lemma_linked_in(s, n, rest, i);
        lemma_went_to_the_linker(perform, chain, outcomes, from, rest, object_file(i));
    }
    lemma_linked_in(s, n, rest, 0);
    lemma_went_to_the_linker(perform, chain, outcomes, from, rest, TemporaryFile::Section);
    if s.metadata32 {
        lemma_went_to_the_linker(perform, chain, outcomes, from, rest, TemporaryFile::Section32);
    }
    (chain, outcomes)
}

} // verus!
