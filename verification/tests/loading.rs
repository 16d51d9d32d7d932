use std::cell::{Cell, RefCell};
use zluda::cache::ModuleCache;
use zluda::cache_key::{cache_key_at, legacy_key, ExtraCacheAttributes, ModuleKey};
use zluda::error::CuError;
use zluda::load::{
    compile_and_cache, found_entry, get_best_ptx_and_compile, get_gcn_arch, keyed_cache,
    lacks_kernels, load_cached_binary,
    open_cache, translated_from, Device, KeyedCache, LoadSettings, LoadedModule, Report,
    StoredMetadata, Translation,
};
use zluda::metadata::{
    ArchivedGlobal, ArchivedModuleMetadata32Bit, ArchivedU32, FunctionArgInfo, GlobalMetadata,
    ModuleMetadata32Bit,
};
use zluda::ptx::{CodeModule, Directive, PtxModule};

fn attributes() -> ExtraCacheAttributes {
    ExtraCacheAttributes {
        is_debug: false,
        clock_rate: 100,
        cumode: true,
        ignore_maxnreg: false,
        num_vgpr_override: None,
        codegen_parts: 1,
    }
}

fn key() -> ModuleKey<'static> {
    cache_key_at("gfx1100", "text", &attributes(), "v", 10).unwrap()
}

fn slot() -> Option<KeyedCache<'static>> {
    Some(KeyedCache {
        cache: ModuleCache::open(":memory:").unwrap(),
        key: key(),
    })
}

fn tell(mut reports: Vec<String>, report: Report) -> Vec<String> {
    reports.push(match report {
        Report::Picked { texts, sm_version, invalid_directives } => {
            format!("picked {texts} {sm_version} {invalid_directives}")
        }
        Report::EmptyEntry(n) => format!("empty entry {n}"),
        Report::EmptyTranslation(n) => format!("empty translation {n}"),
        Report::NotStored(error) => format!("not stored {}", error.message),
        Report::NotTranslated(message) => format!("not translated {message}"),
        Report::NotCompiled(message) => format!("not compiled {message}"),
    });
    reports
}

/// An object of these tests: the number of kernels and the version, where they can be read.
fn count(object: &Vec<u8>) -> Option<usize> {
    object.first().copied().filter(|n| *n != 255).map(|n| n as usize)
}

fn read(object: &Vec<u8>) -> Option<StoredMetadata> {
    object.get(1).map(|n| StoredMetadata {
        sm_version: *n as u32,
        metadata32: None,
    })
}

fn cached(slot: &mut Option<KeyedCache>, wanted: usize, cumode: bool) -> (Option<(Vec<u8>, u32)>, Vec<String>) {
    let (reports, r) = load_cached_binary(slot, wanted, cumode, &count, &read, vec![], &tell);
    (r.map(|t| (t.binary, t.sm_version)), reports)
}

fn store(slot: &mut Option<KeyedCache>, key: &ModuleKey, object: &[u8]) {
    let cache = &mut slot.as_mut().unwrap().cache;
    cache.insert_module(key, object, (), |(), _| ()).1.unwrap();
}

#[test]
fn entry_is_found() {
    let mut slot = slot();
    assert_eq!(cached(&mut slot, 1, true), (None, vec![]));
    store(&mut slot, &key(), &[3, 89, 7]);
    assert_eq!(cached(&mut slot, 1, true), (Some((vec![3, 89, 7], 89)), vec![]));
    assert_eq!(cached(&mut slot, 0, false), (Some((vec![3, 89, 7], 89)), vec![]));
    assert_eq!(cached(&mut None, 1, true), (None, vec![]));
}

#[test]
fn legacy_entry_answers_for_its_mode_only() {
    let mut slot = slot();
    let legacy = legacy_key(&key(), true).unwrap();
    store(&mut slot, &legacy, &[1, 75]);
    assert_eq!(cached(&mut slot, 1, false).0, None);
    assert_eq!(cached(&mut slot, 1, true).0, Some((vec![1, 75], 75)));
    store(&mut slot, &key(), &[2, 80]);
    assert_eq!(cached(&mut slot, 1, true).0, Some((vec![2, 80], 80)));
}

#[test]
fn entry_without_kernels_is_thrown_out() {
    for stored in [key(), legacy_key(&key(), true).unwrap()] {
        let mut slot = slot();
        store(&mut slot, &stored, &[0, 89]);
        assert_eq!(cached(&mut slot, 0, true).0, Some((vec![0, 89], 89)));
        assert_eq!(cached(&mut slot, 2, true), (None, vec!["empty entry 2".to_string()]));
        assert_eq!(cached(&mut slot, 2, true), (None, vec![]));
        let cache = &mut slot.as_mut().unwrap().cache;
        assert_eq!(cache.get_module_binary(&stored), None);
    }
}

#[test]
fn uncountable_entry_is_trusted() {
    let mut slot = slot();
    store(&mut slot, &key(), &[255, 89]);
    assert_eq!(cached(&mut slot, 2, true).0, Some((vec![255, 89], 89)));
    let mut slot = self::slot();
    store(&mut slot, &key(), &[5]);
    assert_eq!(cached(&mut slot, 2, true), (None, vec![]));
    let cache = &mut slot.as_mut().unwrap().cache;
    assert_eq!(cache.get_module_binary(&key()), Some(vec![5]));
    assert!(lacks_kernels(1, Some(0)));
    assert!(!lacks_kernels(0, Some(0)));
    assert!(!lacks_kernels(1, None));
    assert!(!lacks_kernels(1, Some(1)));
    assert!(translated_from(vec![1], None).is_none());
}

fn ptx(text: &str, kernels: usize) -> PtxModule<String> {
    PtxModule {
        ptx_version: (8, 0),
        sm_version: 90,
        directives: (0..kernels).map(|_| Directive::Kernel(text.to_string())).collect(),
        invalid_directives: 0,
        address_size: 64,
    }
}

fn compiled(
    slot: &mut Option<KeyedCache>,
    wanted: usize,
    translated: Result<(), &str>,
    object: Result<Vec<u8>, &str>,
) -> (Result<(Vec<u8>, u32, usize), CuError>, Vec<String>) {
    let (reports, r) = compile_and_cache(
        "gfx1100",
        attributes(),
        ptx("text", wanted),
        wanted,
        slot,
        |module, attributes| {
            assert_eq!(module.directives.len(), wanted);
            assert_eq!((attributes.clock_rate, attributes.cumode), (100, true));
            assert_eq!((attributes.ignore_maxnreg, attributes.num_vgpr_override), (false, None));
            translated.map_err(|e| e.to_string()).map(|()| Translation {
                code: 17,
                sm_version: 90,
                metadata32: Some(ModuleMetadata32Bit {
                    globals: vec![GlobalMetadata {
                        name: "g".to_string(),
                        initializer: vec![],
                        align: 1,
                    }],
                    explicit_args_size_align: vec![],
                }),
            })
        },
        |arch, code, parts| {
            assert_eq!((arch, code, parts), ("gfx1100", 17, 1));
            object.map_err(|e| e.to_string())
        },
        &count,
        vec![],
        |reports, _| reports,
        &tell,
    );
    let r = r.map(|t| (t.binary, t.sm_version, t.metadata32.unwrap().globals.len()));
    (r, reports)
}

#[test]
fn translation_is_stored() {
    let mut slot = slot();
    let (r, reports) = compiled(&mut slot, 1, Ok(()), Ok(vec![1, 90]));
    assert_eq!(r, Ok((vec![1, 90], 90, 1)));
    assert!(reports.is_empty());
    let keyed = slot.as_mut().unwrap();
    assert!(keyed.key.last_access > 1_600_000_000_000);
    assert_eq!(keyed.cache.get_module_binary(&key()), Some(vec![1, 90]));
    assert_eq!(compiled(&mut None, 1, Ok(()), Ok(vec![255])).0, Ok((vec![255], 90, 1)));
}

#[test]
fn failed_and_empty_translations_are_not_stored() {
    let mut slot = slot();
    let unknown = Err(CuError::Unknown);
    assert_eq!(
        compiled(&mut slot, 1, Err("bad"), Ok(vec![1])),
        (unknown.clone(), vec!["not translated bad".to_string()])
    );
    assert_eq!(
        compiled(&mut slot, 1, Ok(()), Err("worse")),
        (unknown.clone(), vec!["not compiled worse".to_string()])
    );
    assert_eq!(
        compiled(&mut slot, 3, Ok(()), Ok(vec![0])),
        (unknown, vec!["empty translation 3".to_string()])
    );
    let keyed = slot.as_mut().unwrap();
    assert_eq!(keyed.key.last_access, 10);
    assert_eq!(keyed.cache.get_module_binary(&key()), None);
    assert_eq!(compiled(&mut slot, 0, Ok(()), Ok(vec![0])).0, Ok((vec![0], 90, 1)));
}

#[test]
fn names_of_architectures() {
    let device = |name: &[u8]| Device {
        clock_rate: 0,
        gcn_arch_name: name.to_vec(),
    };
    assert_eq!(get_gcn_arch(&device(b"gfx1100\0garbage")), Ok("gfx1100".to_string()));
    assert_eq!(get_gcn_arch(&device(b"\0")), Ok(String::new()));
    assert_eq!(get_gcn_arch(&device(b"gfx\xff\0")), Err(CuError::Unknown));
}

#[test]
fn cache_needs_a_text_and_a_path() {
    let open = |text, path| open_cache(text, path, "gfx1100", &attributes(), "v").is_some();
    assert!(open(Some("text"), Some(":memory:")));
    assert!(!open(None, Some(":memory:")));
    assert!(!open(Some("text"), None));
    assert!(!open(Some("text"), Some("/nowhere/at/all/zluda2.db")));
    let keyed = open_cache(Some("text"), Some(":memory:"), "gfx1100", &attributes(), "v").unwrap();
    assert_eq!(keyed.key.hash, key().hash);
    assert_eq!(keyed.key.backend_key, key().backend_key);
}

struct Run {
    translated: Cell<usize>,
    compiled: Cell<usize>,
    device: Result<&'static [u8], CuError>,
    loads: Result<usize, CuError>,
    is_debug: bool,
    cache_path: Option<String>,
    reports: RefCell<Vec<String>>,
}

impl Run {
    fn new() -> Run {
        Run {
            translated: Cell::new(0),
            compiled: Cell::new(0),
            device: Ok(b"gfx1201\0"),
            loads: Ok(44),
            is_debug: false,
            cache_path: None,
            reports: RefCell::new(Vec::new()),
        }
    }

    fn load(&self, texts: &[&str]) -> Result<LoadedModule, CuError> {
        let settings = LoadSettings {
            is_debug: self.is_debug,
            cache_path: self.cache_path.as_deref(),
            zluda_version: "v",
            codegen_parts: 2,
            cumode: Some(true),
            ignore_maxnreg: Some("1"),
            num_vgpr: Some("96"),
        };
        let (reports, r) = get_best_ptx_and_compile(
            texts.iter().map(|t| CodeModule::Text(t.to_string())).collect(),
            &settings,
            |text: &String| if text == "bad" { None } else { Some(ptx(text, 1)) },
            || {
                self.device.map(|name| Device {
                    clock_rate: 2400,
                    gcn_arch_name: name.to_vec(),
                })
            },
            |module, attributes| {
                self.translated.set(self.translated.get() + 1);
                assert!(attributes.cumode && attributes.ignore_maxnreg);
                assert_eq!(attributes.num_vgpr_override, Some(96));
                assert_eq!(attributes.clock_rate, 2400);
                Ok(Translation {
                    code: module.directives.len() as u8,
                    sm_version: module.sm_version,
                    metadata32: None,
                })
            },
            |arch, code, parts| {
                self.compiled.set(self.compiled.get() + 1);
                assert_eq!((arch, parts), ("gfx1201", 2));
                Ok(vec![code, 90])
            },
            &count,
            &read,
            |object: &Vec<u8>| {
                assert_eq!(object.len(), 2);
                self.loads
            },
            self.reports.take(),
            |reports, _| reports,
            &tell,
        );
        self.reports.replace(reports);
        r
    }
}

#[test]
fn module_is_translated_once() {
    let dir = tempfile::tempdir().unwrap();
    let mut run = Run::new();
    run.cache_path = Some(dir.path().join("zluda2.db").to_str().unwrap().to_string());
    for _ in 0..3 {
        let module = run.load(&["one", "two"]).ok().unwrap();
        assert_eq!((module.base, module.sm_version), (44, 90));
        assert!(module.bit32.is_none());
    }
    assert_eq!((run.translated.get(), run.compiled.get()), (1, 1));
    assert_eq!(*run.reports.borrow(), vec!["picked 2 90 0"; 3]);
    assert!(run.load(&["two", "one"]).is_ok());
    assert_eq!(run.translated.get(), 2);
    run.is_debug = true;
    assert!(run.load(&["two", "one"]).is_ok());
    assert_eq!(run.translated.get(), 3);
    run.cache_path = None;
    assert!(run.load(&["two", "one"]).is_ok());
    assert_eq!(run.translated.get(), 4);
}

#[test]
fn images_that_do_not_load() {
    let mut run = Run::new();
    assert_eq!(run.load(&["bad"]).ok().map(|m| (m.base, m.sm_version)), Some((44, 0)));
    assert_eq!(run.compiled.get(), 1);
    run.is_debug = true;
    assert_eq!(run.load(&["bad"]).err(), Some(CuError::NoBinaryForGpu));
    run.device = Err(CuError::Driver(101));
    run.reports.borrow_mut().clear();
    assert_eq!(run.load(&[]).err(), Some(CuError::NoBinaryForGpu));
    assert!(run.reports.borrow().is_empty());
    run.device = Ok(b"gfx1201\0");
    assert_eq!(run.compiled.get(), 1);
    run.loads = Err(CuError::Driver(209));
    assert_eq!(run.load(&["good"]).err(), Some(CuError::Driver(209)));
    run.device = Ok(b"\xc3\0");
    assert_eq!(run.load(&["good"]).err(), Some(CuError::Unknown));
    run.device = Err(CuError::Driver(101));
    assert_eq!(run.load(&["good"]).err(), Some(CuError::Driver(101)));
}

#[test]
fn entry_that_lookups_found() {
    let legacy = || legacy_key(&key(), true).unwrap();
    let found = |first: Option<Vec<u8>>, second: Option<Option<Vec<u8>>>| {
        found_entry(key(), first, second.map(|binary| (legacy(), binary)))
            .map(|(entry, object)| (entry.backend_key, object))
    };
    assert_eq!(found(Some(vec![1]), None), Some((key().backend_key, vec![1])));
    assert_eq!(
        found(Some(vec![1]), Some(Some(vec![2]))),
        Some((key().backend_key, vec![1]))
    );
    assert_eq!(
        found(None, Some(Some(vec![2]))),
        Some((legacy().backend_key, vec![2]))
    );
    assert_eq!(found(None, Some(None)), None);
    assert_eq!(found(None, None), None);
}

#[test]
fn cache_that_was_opened_gets_a_key() {
    let keyed = |opened| keyed_cache(opened, "text", "gfx1100", &attributes(), "v");
    assert!(keyed(None).is_none());
    let keyed = keyed(ModuleCache::open(":memory:")).unwrap();
    assert_eq!(keyed.key.hash, key().hash);
    assert_eq!(keyed.key.zluda_version, "v");
    assert!(keyed.key.last_access > 1_600_000_000_000);
}

#[test]
fn loading_gives_back_what_was_compiled() {
    let stored = |object: &Vec<u8>| {
        assert_eq!(*object, vec![2, 7]);
        let number = |n: u32| ArchivedU32 { bytes: n.to_le_bytes() };
        Some(StoredMetadata {
            sm_version: 86,
            metadata32: Some(ArchivedModuleMetadata32Bit {
                globals: vec![ArchivedGlobal {
                    name: "table".to_string(),
                    initializer: vec![9, 8],
                    align: number(300),
                }],
                explicit_args_size_align: vec![("f".to_string(), vec![(number(4), number(2))])],
            }),
        })
    };
    for cumode in [false, true] {
        let mut slot = slot();
        let (_, compiled) = compile_and_cache(
            "gfx1100",
            attributes(),
            ptx("text", 2),
            2,
            &mut slot,
            |_, _| {
                Ok(Translation {
                    code: (),
                    sm_version: 86,
                    metadata32: Some(ModuleMetadata32Bit {
                        globals: vec![GlobalMetadata {
                            name: "table".to_string(),
                            initializer: vec![9, 8],
                            align: 300,
                        }],
                        explicit_args_size_align: vec![("f".to_string(), vec![(4, 2)])],
                    }),
                })
            },
            |_, _, _| Ok(vec![2, 7]),
            &count,
            vec![],
            |reports, _| reports,
            &tell,
        );
        let (reports, loaded) =
            load_cached_binary(&mut slot, 2, cumode, &count, &stored, vec![], &tell);
        assert!(reports.is_empty());
        for translated in [compiled.ok().unwrap(), loaded.unwrap()] {
            assert_eq!(translated.binary, vec![2, 7]);
            assert_eq!(translated.sm_version, 86);
            let metadata = translated.metadata32.unwrap();
            assert_eq!(metadata.globals.len(), 1);
            assert_eq!(metadata.globals[0].name, b"table");
            assert_eq!(metadata.globals[0].initializer, vec![9, 8]);
            assert_eq!(metadata.globals[0].align, 300);
            assert_eq!(
                metadata.explicit_args_size_align.get(b"f"),
                Some(vec![FunctionArgInfo { size: 4, align: 2 }])
            );
        }
    }
}
