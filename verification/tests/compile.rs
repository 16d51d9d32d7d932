use zluda::compile::{
    compile, file_prefix, fusion_code, listing_name, Candidate, Compilation, Fusion, Listing,
    Outcome, Settings, Source, Step, TemporaryFile,
};

const PLAIN: Settings = Settings {
    parts: 1,
    selective: false,
    hook: false,
    metadata32: false,
};

fn linking() -> Vec<Step> {
    vec![
        Step::Initialize,
        Step::Parse(Source::PtxImpl),
        Step::Verify(Source::PtxImpl),
        Step::Parse(Source::Ockl),
        Step::Verify(Source::Ockl),
        Step::DefineConstants,
        Step::Link(Source::Main),
        Step::Link(Source::Attributes),
        Step::Link(Source::Constants),
        Step::Link(Source::PtxImpl),
        Step::Link(Source::Ockl),
        Step::VerifyLinked,
    ]
}

fn run(settings: Settings, fails: Option<Step>, keep: bool) -> (Result<Vec<u8>, String>, Vec<Step>) {
    let (steps, result) = compile(settings, vec![], |mut steps: Vec<Step>, state: &Compilation, step| {
        steps.push(step);
        if Some(step) == fails {
            return (steps, Outcome::Failed("reason".to_string()));
        }
        let outcome = match step {
            Step::EmitObject(Candidate::Linked) => Outcome::Objects(vec![vec![1]]),
            Step::EmitObject(Candidate::Duplicate) => Outcome::Objects(vec![vec![9]]),
            Step::EmitParts(candidate, n) => Outcome::Objects(
                (0..n as u8)
                    .map(|i| vec![if candidate == Candidate::Linked { 10 } else { 20 } + i])
                    .collect(),
            ),
            Step::CompareSizes => {
                assert!(!state.build(Candidate::Linked).is_empty());
                assert!(state.build(Candidate::Linked) != state.build(Candidate::Duplicate));
                Outcome::KeepFused(keep)
            }
            Step::ReadExecutable => Outcome::Executable(state.objects().concat()),
            Step::Show(Listing::Executable) => {
                assert_eq!(*state.executable(), state.objects().concat());
                Outcome::Done
            }
            _ => Outcome::Done,
        };
        (steps, outcome)
    });
    (result, steps)
}

#[test]
fn ordinary_compilation() {
    let (result, steps) = run(PLAIN, None, false);
    assert_eq!(result, Ok(vec![1]));
    let mut wanted = linking();
    wanted.extend([
        Step::MakeTargetMachine,
        Step::Optimize(Candidate::Linked),
        Step::EmitObject(Candidate::Linked),
        Step::CreateFile(TemporaryFile::Object(0)),
        Step::WriteFile(TemporaryFile::Object(0)),
        Step::CreateFile(TemporaryFile::Section),
        Step::CreateFile(TemporaryFile::Executable),
        Step::WriteFile(TemporaryFile::Section),
        Step::NameFile(TemporaryFile::Object(0)),
        Step::NameFile(TemporaryFile::Section),
        Step::NameFile(TemporaryFile::Executable),
        Step::LinkExecutable,
        Step::ReadExecutable,
    ]);
    assert_eq!(steps, wanted);
}

#[test]
fn compilation_with_a_hook() {
    let (result, steps) = run(Settings { hook: true, ..PLAIN }, None, false);
    assert_eq!(result, Ok(vec![1]));
    let shown: Vec<Step> = steps
        .iter()
        .copied()
        .filter(|s| matches!(s, Step::Show(_)))
        .collect();
    assert_eq!(
        shown,
        vec![
            Step::Show(Listing::Linked),
            Step::Show(Listing::Optimized),
            Step::Show(Listing::Assembly),
            Step::Show(Listing::Object),
            Step::Show(Listing::Executable),
        ]
    );
    let (_, plain) = run(PLAIN, None, false);
    let rest: Vec<Step> = steps
        .into_iter()
        .filter(|s| !matches!(s, Step::Show(_) | Step::EmitAssembly))
        .collect();
    assert_eq!(rest, plain);
}

#[test]
fn compilation_in_parts() {
    let settings = Settings { parts: 3, hook: true, ..PLAIN };
    let (result, steps) = run(settings, None, false);
    assert_eq!(result, Ok(vec![10, 11, 12]));
    assert!(!steps.contains(&Step::Show(Listing::Optimized)));
    assert!(!steps.contains(&Step::EmitAssembly));
    let optimized = steps.iter().position(|s| *s == Step::Optimize(Candidate::Linked)).unwrap();
    assert_eq!(steps[optimized + 1], Step::TellListingsSkipped);
    assert_eq!(steps[optimized + 2], Step::EmitParts(Candidate::Linked, 3));
    let quiet = run(Settings { hook: false, ..settings }, None, false).1;
    assert!(!quiet.contains(&Step::TellListingsSkipped));
    let named: Vec<Step> = steps
        .into_iter()
        .filter(|s| matches!(s, Step::NameFile(_)))
        .collect();
    assert_eq!(
        named,
        vec![
            Step::NameFile(TemporaryFile::Object(0)),
            Step::NameFile(TemporaryFile::Object(1)),
            Step::NameFile(TemporaryFile::Object(2)),
            Step::NameFile(TemporaryFile::Section),
            Step::NameFile(TemporaryFile::Executable),
        ]
    );
}

#[test]
fn metadata32_excludes_parts() {
    for selective in [false, true] {
        let settings = Settings { parts: 2, metadata32: true, selective, ..PLAIN };
        let (result, steps) = run(settings, None, false);
        assert_eq!(
            result,
            Err("A module with 32-bit metadata cannot be split".to_string())
        );
        assert!(steps.is_empty());
        let whole = Settings { parts: 1, ..settings };
        let (result, steps) = run(whole, None, false);
        assert_eq!(result, Ok(vec![1]));
        let named: Vec<Step> = steps
            .into_iter()
            .filter(|s| matches!(s, Step::NameFile(_)))
            .collect();
        assert_eq!(
            named,
            vec![
                Step::NameFile(TemporaryFile::Object(0)),
                Step::NameFile(TemporaryFile::Section),
                Step::NameFile(TemporaryFile::Section32),
                Step::NameFile(TemporaryFile::Executable),
            ]
        );
    }
}

#[test]
fn selective_compilation() {
    let settings = Settings { selective: true, ..PLAIN };
    let (result, steps) = run(settings, None, false);
    assert_eq!(result, Ok(vec![1]));
    assert_eq!(
        steps[12..23],
        [
            Step::DuplicateLinked,
            Step::SetFusion(Fusion::Off),
            Step::MakeTargetMachine,
            Step::Optimize(Candidate::Linked),
            Step::EmitObject(Candidate::Linked),
            Step::SetFusion(Fusion::On),
            Step::MakeTargetMachine,
            Step::Optimize(Candidate::Duplicate),
            Step::EmitObject(Candidate::Duplicate),
            Step::SetFusion(Fusion::FromEnvironment),
            Step::CompareSizes,
        ]
    );
    assert_eq!(run(settings, None, true).0, Ok(vec![9]));
    let split = Settings { parts: 2, hook: true, ..settings };
    assert_eq!(run(split, None, false).0, Ok(vec![10, 11]));
    assert_eq!(run(split, None, true).0, Ok(vec![20, 21]));
}

#[test]
fn failed_fused_build_gives_the_setting_back() {
    let settings = Settings { selective: true, ..PLAIN };
    let (result, steps) = run(settings, Some(Step::Optimize(Candidate::Duplicate)), true);
    assert_eq!(result, Err("reason".to_string()));
    assert_eq!(
        steps[steps.len() - 2..],
        [
            Step::Optimize(Candidate::Duplicate),
            Step::SetFusion(Fusion::FromEnvironment)
        ]
    );
    let (result, steps) = run(settings, Some(Step::Optimize(Candidate::Linked)), true);
    assert_eq!(result, Err("reason".to_string()));
    assert_eq!(steps.last(), Some(&Step::Optimize(Candidate::Linked)));
}

#[test]
fn failures_of_a_compilation() {
    for (step, message) in [
        (Step::Initialize, "reason"),
        (Step::Parse(Source::Ockl), "Failed to parse bitcode"),
        (Step::Verify(Source::PtxImpl), "reason"),
        (Step::DefineConstants, "reason"),
        (Step::Link(Source::Main), "reason"),
        (Step::VerifyLinked, "reason"),
        (Step::EmitParts(Candidate::Linked, 2), "reason"),
        (
            Step::CreateFile(TemporaryFile::Object(1)),
            "Failed to create temporary file: reason",
        ),
        (
            Step::WriteFile(TemporaryFile::Object(1)),
            "Failed to write object file: reason",
        ),
        (
            Step::WriteFile(TemporaryFile::Section),
            "Failed to write metadata section: reason",
        ),
        (
            Step::WriteFile(TemporaryFile::Section32),
            "Failed to write 32-bit metadata section: reason",
        ),
        (Step::NameFile(TemporaryFile::Executable), "reason"),
        (Step::LinkExecutable, "reason"),
        (Step::ReadExecutable, "Failed to read executable file"),
    ] {
        let split = Settings { parts: 2, ..PLAIN };
        let described = Settings { metadata32: true, ..PLAIN };
        let settings = match step {
            Step::WriteFile(TemporaryFile::Section32) => described,
            _ => split,
        };
        let (result, steps) = run(settings, Some(step), false);
        assert_eq!(result, Err(message.to_string()));
        assert_eq!(steps.last(), Some(&step));
    }
}

#[test]
fn names_of_results_and_files() {
    assert_eq!(listing_name(Listing::Linked), "linked.ll");
    assert_eq!(listing_name(Listing::Optimized), "opt.ll");
    assert_eq!(listing_name(Listing::Assembly), "asm");
    assert_eq!(listing_name(Listing::Object), "o");
    assert_eq!(listing_name(Listing::Executable), "elf");
    assert_eq!(file_prefix(TemporaryFile::Object(4)), "zluda.o");
    assert_eq!(file_prefix(TemporaryFile::Section), "zluda_section");
    assert_eq!(file_prefix(TemporaryFile::Section32), "zluda32_section");
    assert_eq!(file_prefix(TemporaryFile::Executable), "zluda.elf");
    assert_eq!(fusion_code(Fusion::Off), 0);
    assert_eq!(fusion_code(Fusion::On), 1);
    assert_eq!(fusion_code(Fusion::FromEnvironment), -1);
}
