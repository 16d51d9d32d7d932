use std::cell::RefCell;
use zluda::codegen::{
    codegen_parts, collect_objects, emit_objects_in_parallel, kernel_growths, kernel_sizes,
    kernel_sizes_fit, part_file_name, selective_fuse_requested, split_failure, KernelSize, PartOutcome, ReadFailure,
    Split,
};

fn size(name: &str, size: u64) -> KernelSize {
    KernelSize {
        name: name.to_string(),
        size,
    }
}

#[test]
fn parts_are_opt_in() {
    let parts = |setting: Option<&str>, threads: Option<usize>| {
        let complaints = RefCell::new(Vec::new());
        let parts = codegen_parts(setting, threads, |c| complaints.borrow_mut().push(c));
        (parts, complaints.into_inner())
    };
    assert_eq!(parts(None, Some(16)), (1, vec![]));
    assert_eq!(parts(Some("auto"), Some(16)), (16, vec![]));
    assert_eq!(parts(Some("Auto"), Some(16)), (16, vec![]));
    assert_eq!(parts(Some("AUTO"), Some(128)), (32, vec![]));
    assert_eq!(parts(Some("auto"), None), (1, vec![]));
    assert_eq!(parts(Some("4"), Some(16)), (4, vec![]));
    assert_eq!(parts(Some("0"), Some(16)), (1, vec![]));
    assert_eq!(parts(Some("32"), Some(16)), (32, vec![]));
    assert_eq!(parts(Some("33"), Some(16)), (32, vec![]));
    assert_eq!(parts(Some("100000"), Some(16)), (32, vec![]));
    assert_eq!(
        parts(Some("many"), Some(16)),
        (1, vec!["ZLUDA_CODEGEN_PARTS is neither a number nor auto: many".to_string()])
    );
    assert_eq!(
        parts(Some(""), Some(16)),
        (1, vec!["ZLUDA_CODEGEN_PARTS is neither a number nor auto: ".to_string()])
    );
}

#[test]
fn selective_fusion_is_opt_in() {
    assert!(!selective_fuse_requested(None));
    assert!(!selective_fuse_requested(Some("")));
    assert!(!selective_fuse_requested(Some("0")));
    assert!(selective_fuse_requested(Some("1")));
    assert!(selective_fuse_requested(Some("2.5")));
}

#[test]
fn names_and_messages_of_parts() {
    assert_eq!(part_file_name(0), "part_0.bc");
    assert_eq!(part_file_name(12), "part_12.bc");
    assert_eq!(split_failure(Some("bad")), "Failed to split module: bad");
    assert_eq!(
        split_failure(None),
        "Failed to split module: no parts produced"
    );
}

#[test]
fn objects_of_all_parts() {
    assert_eq!(
        collect_objects(vec![
            PartOutcome::Object(vec![1]),
            PartOutcome::Object(vec![2, 3])
        ]),
        Ok(vec![vec![1], vec![2, 3]])
    );
    assert_eq!(
        collect_objects(vec![
            PartOutcome::Object(vec![1]),
            PartOutcome::Unparsed,
            PartOutcome::Panicked
        ]),
        Err("Failed to parse a module part".to_string())
    );
    assert_eq!(
        collect_objects(vec![PartOutcome::Panicked, PartOutcome::Failed("x".into())]),
        Err("a code generation thread panicked".to_string())
    );
    assert_eq!(
        collect_objects(vec![PartOutcome::Failed("no registers".into())]),
        Err("no registers".to_string())
    );
}

#[test]
fn parallel_emission() {
    let read = RefCell::new(Vec::new());
    let objects = emit_objects_in_parallel(
        3,
        || Ok(Some("/tmp/x/part_".to_string())),
        |prefix, parts| {
            assert_eq!(prefix, "/tmp/x/part_");
            assert_eq!(parts, 3);
            Split {
                written: 2,
                detail: None,
            }
        },
        |name| {
            let bytes = name.as_bytes().to_vec();
            read.borrow_mut().push(name);
            Ok(bytes)
        },
        |bitcodes| {
            bitcodes
                .into_iter()
                .map(|mut b| {
                    b.reverse();
                    PartOutcome::Object(b)
                })
                .collect()
        },
    );
    assert_eq!(*read.borrow(), vec!["part_0.bc", "part_1.bc"]);
    assert_eq!(objects, Ok(vec![b"cb.0_trap".to_vec(), b"cb.1_trap".to_vec()]));
}

#[test]
fn parallel_emission_failures() {
    let emit = |created: Result<Option<String>, String>, written: u32, readable: usize| {
        emit_objects_in_parallel(
            2,
            || created,
            |_, _| Split {
                written,
                detail: Some("oops".to_string()),
            },
            |name| {
                if readable > 0 && name == "part_0.bc" {
                    Ok(vec![])
                } else {
                    Err(ReadFailure {
                        path: format!("/d/{name}"),
                        reason: "gone".to_string(),
                    })
                }
            },
            |_| vec![PartOutcome::Unparsed],
        )
    };
    let path = Ok(Some("/d/part_".to_string()));
    assert_eq!(
        emit(Err("full".into()), 1, 1),
        Err("Failed to create temp dir: full".to_string())
    );
    assert_eq!(emit(Ok(None), 1, 1), Err("path is not valid as str".to_string()));
    assert_eq!(
        emit(Ok(Some("a\0b".into())), 1, 1),
        Err("path includes invalid null byte".to_string())
    );
    assert_eq!(
        emit(path.clone(), 0, 1),
        Err("Failed to split module: oops".to_string())
    );
    assert_eq!(
        emit(path.clone(), 2, 1),
        Err("Failed to read /d/part_1.bc: gone".to_string())
    );
    assert_eq!(
        emit(path.clone(), 1, 0),
        Err("Failed to read /d/part_0.bc: gone".to_string())
    );
    assert_eq!(
        emit(path, 1, 1),
        Err("Failed to parse a module part".to_string())
    );
}

#[test]
fn sizes_of_kernels_add_up_over_the_objects() {
    let totals = kernel_sizes(&vec![
        vec![size("a", 10), size("b", 20)],
        vec![],
        vec![size("a", 5)],
    ]);
    let mut pairs: Vec<(String, u64)> = totals.into_iter().map(|k| (k.name, k.size)).collect();
    pairs.sort();
    assert_eq!(pairs, vec![("a".to_string(), 15), ("b".to_string(), 20)]);
}

#[test]
fn sizes_that_can_be_counted() {
    assert!(kernel_sizes_fit(&vec![]));
    assert!(kernel_sizes_fit(&vec![vec![size("a", u64::MAX)], vec![size("b", u64::MAX)]]));
    assert!(!kernel_sizes_fit(&vec![vec![size("a", u64::MAX)], vec![size("b", 1), size("a", 1)]]));
    assert!(kernel_sizes_fit(&vec![vec![size("a", u64::MAX - 1)], vec![size("a", 1)]]));
}

#[test]
fn growing_kernels() {
    let unfused = vec![
        size("small", 4095),
        size("edge", 4096),
        size("same", 8192),
        size("shrunk", 8192),
        size("missing", 8192),
        size("vit", 5000),
    ];
    let fused = vec![
        size("small", 9000),
        size("edge", 4097),
        size("same", 8192),
        size("shrunk", 8000),
        size("vit", 11000),
        size("new", 9999),
    ];
    let growths: Vec<(String, u64, u64)> = kernel_growths(&unfused, &fused)
        .into_iter()
        .map(|g| (g.name, g.unfused, g.fused))
        .collect();
    assert_eq!(
        growths,
        vec![
            ("edge".to_string(), 4096, 4097),
            ("vit".to_string(), 5000, 11000)
        ]
    );
}
