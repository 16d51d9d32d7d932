use std::cell::RefCell;
use zluda::error::CuError;
use zluda::function::{
    broken_promise, correct_attribute, get_attribute, launch_kernel, promised_group_size,
    set_attribute, set_cache_config, threads_per_group, translate_extra, BrokenPromise, CacheConfig,
    FunctionAttribute, Launch,
};
use zluda::module::Function;
use zluda::support::{
    cuda_driver_path, missing_driver_message, nvidia_tests_available, CUDA_DRIVER_PATH_OTHER,
};

fn function() -> Function {
    Function {
        base: 11,
        sm_version: 89,
        explicit_args_size_align: None,
        name: b"kernel".to_vec(),
    }
}

const CLUSTERS: [FunctionAttribute; 6] = [
    FunctionAttribute::ClusterSizeMustBeSet,
    FunctionAttribute::RequiredClusterWidth,
    FunctionAttribute::RequiredClusterHeight,
    FunctionAttribute::RequiredClusterDepth,
    FunctionAttribute::NonPortableClusterSizeAllowed,
    FunctionAttribute::ClusterSchedulingPolicyPreference,
];

#[test]
fn attributes_of_a_function() {
    let f = function();
    let never = |_: usize, _: FunctionAttribute| -> Result<i32, CuError> { unreachable!() };
    assert_eq!(get_attribute(FunctionAttribute::PtxVersion, &f, never), Ok(89));
    assert_eq!(get_attribute(FunctionAttribute::BinaryVersion, &f, never), Ok(120));
    for attribute in CLUSTERS {
        assert_eq!(get_attribute(attribute, &f, never), Ok(0));
    }
    for (given, answer) in [(0, 1), (-5, 1), (1, 1), (64, 64)] {
        assert_eq!(
            get_attribute(FunctionAttribute::NumRegs, &f, |base, attribute| {
                assert_eq!((base, attribute), (11, FunctionAttribute::NumRegs));
                Ok(given)
            }),
            Ok(answer)
        );
        assert_eq!(correct_attribute(FunctionAttribute::Other(0), given), given);
    }
    assert_eq!(get_attribute(FunctionAttribute::Other(3), &f, |_, _| Ok(0)), Ok(0));
    assert_eq!(
        get_attribute(FunctionAttribute::NumRegs, &f, |_, _| Err(CuError::Driver(1))),
        Err(CuError::Driver(1))
    );
}

#[test]
fn setting_attributes() {
    let f = function();
    let never = |_: usize, _: FunctionAttribute, _: i32| -> Result<(), CuError> { unreachable!() };
    assert_eq!(
        set_attribute(&f, FunctionAttribute::PtxVersion, 1, never),
        Err(CuError::NotSupported)
    );
    assert_eq!(
        set_attribute(&f, FunctionAttribute::BinaryVersion, 1, never),
        Err(CuError::NotSupported)
    );
    assert_eq!(
        set_attribute(&f, FunctionAttribute::Other(8), 65536, |base, attribute, value| {
            assert_eq!((base, attribute, value), (11, FunctionAttribute::Other(8), 65536));
            Err(CuError::InvalidValue)
        }),
        Err(CuError::InvalidValue)
    );
    assert_eq!(set_attribute(&f, FunctionAttribute::NumRegs, 1, |_, _, _| Ok(())), Ok(()));
    assert_eq!(set_cache_config(&f, CacheConfig::PreferL1), Ok(()));
}

#[test]
fn promised_sizes() {
    assert_eq!(promised_group_size(None), None);
    assert_eq!(promised_group_size(Some(" 256\n")), Some(256));
    assert_eq!(promised_group_size(Some("many")), None);
    assert_eq!(promised_group_size(Some("")), None);
    assert_eq!(threads_per_group((8, 8, 4)), 256);
    assert_eq!(threads_per_group((65536, 65536, 1)), u32::MAX);
    assert_eq!(threads_per_group((65536, 65536, 0)), 0);
    assert_eq!(threads_per_group((u32::MAX, 1, 1)), u32::MAX);
    assert_eq!(broken_promise(Some(256), (8, 8, 4)), None);
    assert_eq!(
        broken_promise(Some(255), (8, 8, 4)),
        Some(BrokenPromise { limit: 255, threads: 256 })
    );
    assert_eq!(broken_promise(None, (1024, 1024, 1024)), None);
}

fn translate(list: &[usize]) -> (Result<Vec<usize>, CuError>, usize) {
    let read = RefCell::new(0);
    let r = translate_extra(|i: usize| {
        *read.borrow_mut() += 1;
        list[i]
    });
    (r, read.into_inner())
}

#[test]
fn lists_of_launch_parameters() {
    assert_eq!(translate(&[1, 100, 2, 200, 0]), (Ok(vec![1, 100, 2, 200, 3]), 5));
    assert_eq!(translate(&[0]), (Ok(vec![3]), 1));
    assert_eq!(translate(&[2, 0, 1, 0, 0]), (Ok(vec![2, 0, 1, 0, 3]), 5));
    let mut long = vec![7; 14];
    long.push(0);
    assert_eq!(translate(&long).0.unwrap().len(), 15);
    assert_eq!(translate(&[7; 16]), (Err(CuError::InvalidValue), 16));
}

#[test]
fn launching_a_kernel() {
    let f = function();
    let launch = Launch {
        grid: (2, 3, 4),
        block: (16, 16, 2),
        shared_mem_bytes: 1024,
        stream: 5,
        kernel_params: 6,
    };
    let warned = RefCell::new(Vec::new());
    let go = |extra: Option<Vec<usize>>, promised: Option<u32>| {
        let given = RefCell::new(None);
        let r = launch_kernel(
            &f,
            launch,
            extra.map(|list| move |i: usize| list[i]),
            promised,
            |broken| warned.borrow_mut().push(broken),
            |base, l, list| {
                assert_eq!(base, 11);
                assert_eq!((l.grid, l.block), (launch.grid, launch.block));
                assert_eq!((l.shared_mem_bytes, l.stream, l.kernel_params), (1024, 5, 6));
                *given.borrow_mut() = Some(list);
                Err(CuError::Driver(719))
            },
        );
        (r, given.into_inner())
    };
    assert_eq!(go(None, None), (Err(CuError::Driver(719)), Some(None)));
    assert_eq!(
        go(Some(vec![1, 9, 0]), Some(512)),
        (Err(CuError::Driver(719)), Some(Some(vec![1, 9, 3])))
    );
    assert!(warned.borrow().is_empty());
    assert_eq!(go(Some(vec![1; 16]), Some(511)), (Err(CuError::InvalidValue), None));
    assert_eq!(*warned.borrow(), vec![BrokenPromise { limit: 511, threads: 512 }]);
}

#[test]
fn tests_against_the_driver() {
    assert_eq!(cuda_driver_path(false), CUDA_DRIVER_PATH_OTHER);
    assert_eq!(cuda_driver_path(false), "/usr/lib/x86_64-linux-gnu/libcuda.so.1");
    assert_eq!(cuda_driver_path(true), "C:\\Windows\\System32\\nvcuda.dll");
    let mut warned = false;
    let r = nvidia_tests_available("/lib/x", true, true, &mut warned);
    assert!(r.available && r.notice.is_none() && !warned);
    let r = nvidia_tests_available("/lib/x", false, false, &mut warned);
    assert!(!r.available && warned);
    assert_eq!(
        r.notice.unwrap(),
        "[zluda] /lib/x not found: skipping every *_nvidia test. Set ZLUDA_REQUIRE_CUDA=1 to fail instead.\n"
    );
    let r = nvidia_tests_available("/lib/x", false, false, &mut warned);
    assert!(!r.available && r.notice.is_none() && warned);
    assert_eq!(
        missing_driver_message("/lib/x"),
        "ZLUDA_REQUIRE_CUDA is set, but the NVIDIA driver is not at /lib/x"
    );
}
