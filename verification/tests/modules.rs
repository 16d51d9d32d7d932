use std::cell::Cell;
use zluda::error::CuError;
use zluda::load::LoadedModule;
use zluda::metadata::{
    ArchivedGlobal, ArchivedModuleMetadata32Bit, ArchivedU32, FunctionArgInfo, GlobalMetadata,
    Metadata32Bit, ModuleMetadata32Bit,
};
use zluda::module::{get_loading_mode, load, load_data, LoadingMode, Module};
use zluda::ptx::{
    best_ptx, collect_ptx, count_kernels_declared, empty_module, CodeModule, Directive, PtxModule,
};

fn archived(n: u32) -> ArchivedU32 {
    ArchivedU32 {
        bytes: n.to_le_bytes(),
    }
}

fn metadata() -> ModuleMetadata32Bit {
    ModuleMetadata32Bit {
        globals: vec![
            GlobalMetadata {
                name: "table".to_string(),
                initializer: vec![1, 2, 3],
                align: 4,
            },
            GlobalMetadata {
                name: "g\u{e9}".to_string(),
                initializer: vec![],
                align: 0x01020304,
            },
        ],
        explicit_args_size_align: vec![
            ("f".to_string(), vec![(1, 1)]),
            ("g".to_string(), vec![]),
            ("f".to_string(), vec![(4, 4), (70000, 8)]),
        ],
    }
}

fn stored() -> ArchivedModuleMetadata32Bit {
    let meta = metadata();
    ArchivedModuleMetadata32Bit {
        globals: meta
            .globals
            .into_iter()
            .map(|g| ArchivedGlobal {
                name: g.name,
                initializer: g.initializer,
                align: archived(g.align),
            })
            .collect(),
        explicit_args_size_align: meta
            .explicit_args_size_align
            .into_iter()
            .map(|(name, args)| {
                let args = args.into_iter().map(|(s, a)| (archived(s), archived(a))).collect();
                (name, args)
            })
            .collect(),
    }
}

#[test]
fn stored_numbers() {
    assert_eq!(archived(0x01020304).to_native(), 0x01020304);
    assert_eq!(archived(u32::MAX).to_native(), u32::MAX);
    let one = ArchivedU32 { bytes: [1, 0, 0, 0] };
    assert_eq!(one.to_native(), 1);
}

#[test]
fn stored_metadata_read_like_fresh_ones() {
    for kept in [
        Metadata32Bit::new(&metadata()),
        Metadata32Bit::from_archived(&stored()),
    ] {
        assert_eq!(kept.globals.len(), 2);
        assert_eq!(kept.globals[0].name, b"table");
        assert_eq!(kept.globals[0].initializer, vec![1, 2, 3]);
        assert_eq!(kept.globals[0].align, 4);
        assert_eq!(kept.globals[1].name, "g\u{e9}".as_bytes());
        assert_eq!(kept.globals[1].align, 0x01020304);
        let args = &kept.explicit_args_size_align;
        assert_eq!(
            args.get(b"f"),
            Some(vec![
                FunctionArgInfo { size: 4, align: 4 },
                FunctionArgInfo { size: 70000, align: 8 },
            ])
        );
        assert_eq!(args.get(b"g"), Some(vec![]));
        assert_eq!(args.get(b"h"), None);
        assert_eq!(args.get(b""), None);
    }
}

#[test]
fn functions_are_asked_for_once() {
    let mut module = Module::new(77, 89, Some(Metadata32Bit::new(&metadata())));
    let asked = Cell::new(0);
    let resolve = |base: usize, name: Vec<u8>| -> Result<usize, CuError> {
        asked.set(asked.get() + 1);
        assert_eq!(base, 77);
        if name == b"absent" {
            Err(CuError::Driver(500))
        } else {
            Ok(1000 + asked.get())
        }
    };
    let f = module.get_function(b"f", resolve).unwrap();
    assert_eq!(module.functions.function(f).base, 1001);
    assert_eq!(module.get_function(b"absent", resolve), Err(CuError::Driver(500)));
    let h = module.get_function(b"h\xff", resolve).unwrap();
    assert_eq!(asked.get(), 3);
    assert_eq!(module.get_function(b"f", resolve), Ok(f));
    assert_eq!(module.get_function(b"h\xff", resolve), Ok(h));
    assert_eq!(asked.get(), 3);
    assert_eq!(module.get_function(b"absent", resolve), Err(CuError::Driver(500)));
    assert_eq!(asked.get(), 4);
    let function = module.functions.function(f);
    assert_eq!(function.base, 1001);
    assert_eq!(function.sm_version, 89);
    assert_eq!(function.name, b"f");
    assert_eq!(function.explicit_args_size_align.as_ref().unwrap().len(), 2);
    assert!(module.functions.function(h).explicit_args_size_align.is_none());
}

#[test]
fn loading_an_image() {
    let loaded = |library: u8| -> Result<LoadedModule, CuError> {
        if library == 0 {
            Err(CuError::Unknown)
        } else {
            Ok(LoadedModule {
                base: library as usize,
                sm_version: 75,
                bit32: None,
            })
        }
    };
    let module = load_data(Some(3), loaded).ok().unwrap();
    assert_eq!((module.base, module.sm_version), (3, 75));
    assert!(module.bit32.is_none());
    assert_eq!(load_data(Some(0), loaded).err(), Some(CuError::Unknown));
    assert_eq!(load_data(None, loaded).err(), Some(CuError::NoBinaryForGpu));

    let from_file = |path: Option<&str>| {
        load(
            path.map(|p| p.to_string()),
            |p| if p == "/there" { Some(vec![5, 6]) } else { None },
            |image: Vec<u8>| {
                assert_eq!(image, vec![5, 6, 0]);
                Some(image[0])
            },
            loaded,
        )
    };
    assert_eq!(from_file(Some("/there")).ok().unwrap().base, 5);
    assert_eq!(from_file(Some("/nowhere")).err(), Some(CuError::InvalidValue));
    assert_eq!(from_file(None).err(), Some(CuError::InvalidValue));
    assert_eq!(get_loading_mode(), LoadingMode::Lazy);
}

fn ptx(sm_version: u32, invalid_directives: usize) -> PtxModule<()> {
    PtxModule {
        ptx_version: (8, 0),
        sm_version,
        directives: vec![],
        invalid_directives,
        address_size: 64,
    }
}

#[test]
fn texts_of_an_image() {
    let texts = collect_ptx(vec![
        CodeModule::Text("first".to_string()),
        CodeModule::Unreadable,
        CodeModule::File { ptx: false, content: Some(b"elf".to_vec()) },
        CodeModule::File { ptx: true, content: None },
        CodeModule::File { ptx: true, content: Some(vec![0xff]) },
        CodeModule::File { ptx: true, content: Some("zw\u{f6}lf".as_bytes().to_vec()) },
    ]);
    assert_eq!(texts, vec!["first", "zw\u{f6}lf"]);
}

fn pick(invalid: &[Option<usize>]) -> (Option<usize>, usize) {
    let parsed = Cell::new(0);
    let texts: Vec<String> = (0..invalid.len()).map(|i| i.to_string()).collect();
    let picked = best_ptx(&texts, |text: &String| {
        parsed.set(parsed.get() + 1);
        let i: usize = text.parse().unwrap();
        invalid[i].map(|n| ptx(i as u32, n))
    });
    if let Some((i, module)) = &picked {
        assert_eq!(module.sm_version, *i as u32);
    }
    (picked.map(|(i, _)| i), parsed.get())
}

#[test]
fn best_module_of_an_image() {
    assert_eq!(pick(&[]), (None, 0));
    assert_eq!(pick(&[None, None]), (None, 2));
    assert_eq!(pick(&[Some(0), Some(0), Some(0)]), (Some(2), 1));
    assert_eq!(pick(&[Some(0), Some(0), Some(1)]), (Some(1), 2));
    assert_eq!(pick(&[Some(2), Some(1), Some(3)]), (Some(1), 3));
    assert_eq!(pick(&[Some(2), Some(2), None]), (Some(1), 3));
    assert_eq!(pick(&[Some(0), None, Some(9)]), (Some(0), 3));
}

#[test]
fn kernels_of_a_module() {
    let mut module = ptx(50, 0);
    assert_eq!(count_kernels_declared(&module), 0);
    module.directives = vec![
        Directive::Kernel(()),
        Directive::Other(()),
        Directive::Function(()),
        Directive::Kernel(()),
    ];
    assert_eq!(count_kernels_declared(&module), 2);
    let empty: PtxModule<()> = empty_module();
    assert_eq!(empty.ptx_version, (1, 0));
    assert_eq!(empty.sm_version, 0);
    assert_eq!(empty.directives.len(), 0);
    assert_eq!(empty.invalid_directives, usize::MAX);
    assert_eq!(empty.address_size, 64);
}
