use zluda::cache_key::{cache_key_at, get_cache_key, legacy_key, ExtraCacheAttributes};
use zluda::digest::{check_lfs_file, ptx_impl_digest, zluda_version, PtxImplDigest};

fn attributes() -> ExtraCacheAttributes {
    ExtraCacheAttributes {
        is_debug: false,
        clock_rate: 2500000,
        cumode: true,
        ignore_maxnreg: false,
        num_vgpr_override: None,
        codegen_parts: 1,
    }
}

#[test]
fn attributes_as_text() {
    assert_eq!(
        attributes().serialize().unwrap(),
        r#"{"is_debug":false,"clock_rate":2500000,"cumode":true,"codegen_parts":1}"#
    );
    let tuned = ExtraCacheAttributes {
        is_debug: true,
        cumode: false,
        ignore_maxnreg: true,
        num_vgpr_override: Some(96),
        codegen_parts: 8,
        ..attributes()
    };
    assert_eq!(
        tuned.serialize().unwrap(),
        r#"{"is_debug":true,"clock_rate":2500000,"cumode":false,"ignore_maxnreg":true,"num_vgpr_override":96,"codegen_parts":8}"#
    );
}

#[test]
fn different_attributes_have_different_texts() {
    let all = [
        attributes(),
        ExtraCacheAttributes { is_debug: true, ..attributes() },
        ExtraCacheAttributes { clock_rate: 1, ..attributes() },
        ExtraCacheAttributes { cumode: false, ..attributes() },
        ExtraCacheAttributes { ignore_maxnreg: true, ..attributes() },
        ExtraCacheAttributes { num_vgpr_override: Some(0), ..attributes() },
        ExtraCacheAttributes { num_vgpr_override: Some(1), ..attributes() },
        ExtraCacheAttributes { codegen_parts: 2, ..attributes() },
    ];
    for (i, a) in all.iter().enumerate() {
        for (j, b) in all.iter().enumerate() {
            assert_eq!(a.serialize() == b.serialize(), i == j);
        }
    }
}

#[test]
fn attributes_from_settings() {
    let a = ExtraCacheAttributes::from_settings(-1, true, false, 3, Some("1"), Some("128"));
    assert_eq!(a.clock_rate, u32::MAX);
    assert!(a.is_debug && !a.cumode && a.ignore_maxnreg);
    assert_eq!(a.num_vgpr_override, Some(128));
    assert_eq!(a.codegen_parts, 3);
    let b = ExtraCacheAttributes::from_settings(7, false, true, 1, Some("true"), Some("many"));
    assert!(!b.ignore_maxnreg);
    assert_eq!(b.num_vgpr_override, None);
    assert_eq!(b.clock_rate, 7);
}

#[test]
fn key_of_a_module() {
    let key = cache_key_at("gfx1201", "abc", &attributes(), "version", 42).unwrap();
    assert_eq!(
        key.hash,
        "6437b3ac38465133ffb63b75273a8db548c558465d79db03fd359c6cd5bd9d85"
    );
    assert_eq!(key.compiler_version, "builtin");
    assert_eq!(key.zluda_version, "version");
    assert_eq!(key.device, "gfx1201");
    assert_eq!(Some(key.backend_key), attributes().serialize());
    assert_eq!(key.last_access, 42);
    let empty = get_cache_key("gfx1201", "", &attributes(), "version").unwrap();
    assert_eq!(
        empty.hash,
        "af1349b9f5f9a1a6a0404dea36dcc9499bcb25c9adc112b7cc9a93cae41f3262"
    );
    assert!(empty.last_access > 1_600_000_000_000);
}

#[test]
fn legacy_key_lacks_the_mode() {
    let key = cache_key_at("gfx1100", "text", &attributes(), "v", 1).unwrap();
    let legacy = legacy_key(&key, true).unwrap();
    assert_eq!(
        legacy.backend_key,
        r#"{"is_debug":false,"clock_rate":2500000,"codegen_parts":1}"#
    );
    assert_eq!(legacy.hash, key.hash);
    assert_eq!(legacy.device, key.device);
    assert!(legacy_key(&key, false).is_none());
    let other = ExtraCacheAttributes { cumode: false, ..attributes() };
    let key = cache_key_at("gfx1100", "text", &other, "v", 1).unwrap();
    assert!(legacy_key(&key, true).is_none());
}

#[test]
fn digest_of_files() {
    assert_eq!(ptx_impl_digest(&vec![]), 0xcbf29ce484222325);
    assert_eq!(
        ptx_impl_digest(&vec![b"abc".to_vec(), b"de".to_vec()]),
        0x664faaa4e67a6b78
    );
    assert_eq!(
        ptx_impl_digest(&vec![b"de".to_vec(), b"abc".to_vec()]),
        0x64c4ad6eca18e822
    );
    assert_eq!(
        ptx_impl_digest(&vec![b"abcde".to_vec(), vec![]]),
        0x3ed8cf501651145e
    );
}

#[test]
fn digest_does_not_depend_on_the_pieces() {
    let mut digest = PtxImplDigest::new();
    digest.update(b"a");
    digest.update(b"");
    digest.update(b"bc");
    digest.end_file();
    digest.update(b"de");
    digest.end_file();
    assert_eq!(digest.value(), 0x664faaa4e67a6b78);
}

#[test]
fn version_of_the_compiler() {
    assert_eq!(
        zluda_version("f00dcafe", 0x1234),
        "f00dcafe/0000000000001234/fp8-inline-r1"
    );
    assert_eq!(
        zluda_version("", u64::MAX),
        "/ffffffffffffffff/fp8-inline-r1"
    );
}

#[test]
fn stubs_are_told_from_libraries() {
    assert!(check_lfs_file(*b"MZ"));
    assert!(!check_lfs_file(*b"ve"));
    assert!(!check_lfs_file(*b"ZM"));
}
