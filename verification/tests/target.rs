use std::cell::{Cell, RefCell};
use zluda::target::{
    chosen_mode, create_oclc_constants, gcn_arch_in_range, get_isa_version_from_gcn_arch, init_globals, is_cumode,
    llvm_options, make_target_machine, path_to_cstring, targeting_generic_family, CodeGenOptLevel, CodeModel,
    Initialization, RelocMode,
};

#[test]
fn isa_versions() {
    assert_eq!(get_isa_version_from_gcn_arch("gfx1030"), Ok(10300));
    assert_eq!(get_isa_version_from_gcn_arch("gfx1100"), Ok(11000));
    assert_eq!(get_isa_version_from_gcn_arch("gfx1151"), Ok(11501));
    assert_eq!(get_isa_version_from_gcn_arch("gfx1201"), Ok(12001));
    assert_eq!(get_isa_version_from_gcn_arch("gfx906"), Ok(9006));
    let error = Err("could not get ISA version from gcn_arch".to_string());
    assert_eq!(get_isa_version_from_gcn_arch("gfx90a"), error);
    assert_eq!(get_isa_version_from_gcn_arch(""), error);
    assert_eq!(get_isa_version_from_gcn_arch("gfx9-generic"), error);
}

#[test]
fn family_has_the_version_of_its_first_member() {
    for (family, member) in [
        ("gfx10-3-generic", "gfx1030"),
        ("gfx11-generic", "gfx1100"),
        ("gfx12-generic", "gfx1200"),
    ] {
        assert_eq!(
            get_isa_version_from_gcn_arch(family),
            get_isa_version_from_gcn_arch(member)
        );
        assert!(get_isa_version_from_gcn_arch(family).is_ok());
    }
}

#[test]
fn isa_version_range() {
    assert!(gcn_arch_in_range("gfx1030"));
    assert!(gcn_arch_in_range("nothing"));
    assert!(gcn_arch_in_range("gfx12-generic"));
    assert!(!gcn_arch_in_range("gfx4294967295"));
    assert!(gcn_arch_in_range("gfx429496700"));
    assert_eq!(get_isa_version_from_gcn_arch("gfx429496700"), Ok(4294967000));
}

#[test]
fn constants_of_a_compilation() {
    let table = |arch: &str, generic: bool| -> Vec<(&'static str, u32)> {
        create_oclc_constants(arch, generic)
            .unwrap()
            .iter()
            .map(|c| (c.name, c.value))
            .collect()
    };
    assert_eq!(
        table("gfx1030", false),
        vec![
            ("__oclc_wavefrontsize64", 0),
            ("__oclc_wavefrontsize_log2", 5),
            ("__oclc_ABI_version", 500),
            ("__oclc_ISA_version", 10300),
            ("__oclc_unsafe_math_opt", 0),
            ("__oclc_correctly_rounded_sqrt32", 1),
            ("__oclc_finite_only_opt", 0),
        ]
    );
    assert_eq!(table("gfx12-generic", true)[2], ("__oclc_ABI_version", 600));
    assert_eq!(table("gfx12-generic", true)[3], ("__oclc_ISA_version", 12000));
    assert!(create_oclc_constants("gfx", false).is_err());
}

#[test]
fn abi_version_and_code_object_version_agree() {
    assert_eq!(
        llvm_options(false),
        vec![
            "llvm_zluda",
            "-ignore-tti-inline-compatible",
            "-amdgpu-internalize-symbols",
            "-amdhsa-code-object-version=5",
        ]
    );
    assert_eq!(llvm_options(true)[3], "-amdhsa-code-object-version=6");
    assert!(targeting_generic_family(Some("gfx12-generic")));
    assert!(!targeting_generic_family(Some("gfx1200")));
    assert!(!targeting_generic_family(None));
}

#[test]
fn target_machine() {
    let config = make_target_machine("gfx1100", true).unwrap();
    assert_eq!(config.triple, "amdgcn-amd-amdhsa");
    assert_eq!(config.cpu, "gfx1100");
    assert_eq!(config.features, "-wavefrontsize64,+cumode");
    let by_default = is_cumode("gfx1201", chosen_mode(None, |_| unreachable!()));
    let config = make_target_machine("gfx1201", by_default).unwrap();
    assert_eq!(config.features, "-wavefrontsize64,-cumode");
    assert_eq!(config.opt_level, CodeGenOptLevel::Aggressive);
    assert_eq!(config.reloc_mode, RelocMode::TargetDefault);
    assert_eq!(config.code_model, CodeModel::TargetDefault);
    assert_eq!(
        make_target_machine("gfx\01100", false).err(),
        Some("invalid gcn_arch".to_string())
    );
}

#[test]
fn paths_for_the_linker() {
    assert_eq!(path_to_cstring(Some("/tmp/zluda.o1")), Ok("/tmp/zluda.o1".to_string()));
    assert_eq!(
        path_to_cstring(None),
        Err("path is not valid as str".to_string())
    );
    assert_eq!(
        path_to_cstring(Some("/tmp/\0")),
        Err("path includes invalid null byte".to_string())
    );
}

#[test]
fn setting_the_code_generator_up() {
    let known = Cell::new(false);
    let r = init_globals(true, |options| {
        assert_eq!(options, llvm_options(true));
        Ok(())
    }, || known.set(true));
    assert_eq!(r, Ok(()));
    assert!(known.get());
    known.set(false);
    let r = init_globals(false, |_| Err("unknown option".to_string()), || known.set(true));
    assert_eq!(r, Err("unknown option".to_string()));
    assert!(!known.get());
}

#[test]
fn modes_of_architectures() {
    let mode = |setting: Option<&str>| {
        let complaints = RefCell::new(Vec::new());
        let mode = chosen_mode(setting, |c| complaints.borrow_mut().push(c));
        (mode, complaints.into_inner().len())
    };
    for value in ["1", "true", "TRUE", "True", "cu", "CU", "Cu"] {
        assert_eq!(mode(Some(value)), (Some(true), 0));
    }
    for value in ["0", "false", "False", "wgp", "WGP", "Wgp"] {
        assert_eq!(mode(Some(value)), (Some(false), 0));
    }
    for value in ["yes", "", "wgp mode"] {
        assert_eq!(mode(Some(value)), (None, 1));
    }
    assert_eq!(mode(None), (None, 0));
    for arch in ["gfx1030", "gfx1100", "gfx1201", "gfx12-generic"] {
        assert!(!is_cumode(arch, None));
        assert!(is_cumode(arch, Some(true)));
    }
    for arch in ["gfx906", "gfx942", ""] {
        assert!(is_cumode(arch, None));
        assert!(!is_cumode(arch, Some(false)));
    }
}

#[test]
fn code_generator_is_set_up_once() {
    let parsed = Cell::new(0);
    let mut state = Initialization::new();
    for _ in 0..3 {
        let r = state.ensure(
            false,
            |_| {
                parsed.set(parsed.get() + 1);
                Err("unknown option".to_string())
            },
            || unreachable!(),
        );
        assert_eq!(r, Err("unknown option".to_string()));
    }
    assert_eq!(parsed.get(), 1);
    let known = Cell::new(0);
    let mut state = Initialization::new();
    for _ in 0..2 {
        assert_eq!(state.ensure(true, |_| Ok(()), || known.set(known.get() + 1)), Ok(()));
    }
    assert_eq!(known.get(), 1);
}
