use registry_engine::cache::RegistryCache;
use registry_engine::codec::{decode_module, decode_registry, encode_module, encode_registry};
use registry_engine::data::{Module, Registry, RepositoryMetadata, Version};
use registry_engine::negotiate::{
    ModuleBody, RegistryBody, accepts_protobuf, negotiate_module, negotiate_registry,
};
use registry_engine::query::{get_by_name, list_modules, registry_info, search};
use registry_engine::LoadError;

use std::io::Write;

fn module(name: &str, versions: &[&str], description: Option<&str>) -> Module {
    Module {
        name: name.to_string(),
        versions: versions.iter().map(|v| Version { version: v.to_string() }).collect(),
        repository_metadata: description.map(|d| RepositoryMetadata { description: d.to_string() }),
    }
}

fn sample_registry() -> Registry {
    Registry {
        registry_url: "https://registry.example/registry.pb.gz".to_string(),
        modules: vec![
            module("abc", &["1.2.0", "1.1.0"], Some("Widget Foo")),
            module("xyz", &["0.3.1"], Some("bar")),
        ],
    }
}

fn gzip(data: &[u8]) -> Vec<u8> {
    let mut enc = flate2::write::GzEncoder::new(Vec::new(), flate2::Compression::default());
    enc.write_all(data).unwrap();
    enc.finish().unwrap()
}

fn assert_modules_equal(a: &Module, b: &Module) {
    assert_eq!(a.name, b.name);
    assert_eq!(a.versions.len(), b.versions.len());
    for (va, vb) in a.versions.iter().zip(b.versions.iter()) {
        assert_eq!(va.version, vb.version);
    }
    match (&a.repository_metadata, &b.repository_metadata) {
        (None, None) => {}
        (Some(ma), Some(mb)) => assert_eq!(ma.description, mb.description),
        _ => panic!("metadata presence differs"),
    }
}

#[test]
fn search_matches_description_case_insensitively() {
    let reg = sample_registry();
    let r = search(&reg, "foo");
    assert_eq!(r.len(), 1);
    assert_eq!(r[0].name, "abc");
    assert_eq!(r[0].latest_version, "1.2.0");
    assert_eq!(r[0].description, "Widget Foo");
}

#[test]
fn search_matches_name_case_insensitively() {
    let reg = sample_registry();
    let r = search(&reg, "XYZ");
    assert_eq!(r.len(), 1);
    assert_eq!(r[0].name, "xyz");
}

#[test]
fn search_without_match_is_empty() {
    let reg = sample_registry();
    let r = search(&reg, "zzz");
    assert_eq!(r.len(), 0);
}

#[test]
fn search_caps_at_twenty_in_source_order() {
    let mut modules = Vec::new();
    for i in 0..25 {
        modules.push(module(&format!("mod{:02}", i), &["1.0.0"], None));
    }
    let reg = Registry { registry_url: "u".to_string(), modules };
    let r = search(&reg, "mod");
    assert_eq!(r.len(), 20);
    for (i, item) in r.iter().enumerate() {
        assert_eq!(item.name, format!("mod{:02}", i));
    }
}

#[test]
fn empty_query_matches_every_module() {
    let reg = sample_registry();
    let r = search(&reg, "");
    assert_eq!(r.len(), 2);
    assert_eq!(r[0].name, "abc");
    assert_eq!(r[1].name, "xyz");
}

#[test]
fn lookup_is_exact_and_case_sensitive() {
    let reg = sample_registry();
    let found = get_by_name(&reg, &"abc".to_string());
    assert!(found.is_some());
    assert_eq!(found.unwrap().name, "abc");
    assert!(get_by_name(&reg, &"ABC".to_string()).is_none());
    assert!(get_by_name(&reg, &"nope".to_string()).is_none());
}

#[test]
fn lookup_returns_first_of_duplicate_names() {
    let reg = Registry {
        registry_url: "u".to_string(),
        modules: vec![
            module("dup", &["1.0.0"], Some("first")),
            module("dup", &["2.0.0"], Some("second")),
        ],
    };
    let found = get_by_name(&reg, &"dup".to_string()).unwrap();
    assert_eq!(found.repository_metadata.as_ref().unwrap().description, "first");
}

#[test]
fn list_projects_every_module_with_defaults() {
    let reg = Registry {
        registry_url: "u".to_string(),
        modules: vec![
            module("no_versions", &[], Some("desc")),
            module("no_metadata", &["3.0.0", "2.0.0"], None),
        ],
    };
    let items = list_modules(&reg);
    assert_eq!(items.len(), 2);
    assert_eq!(items[0].name, "no_versions");
    assert_eq!(items[0].latest_version, "");
    assert_eq!(items[0].description, "desc");
    assert_eq!(items[1].name, "no_metadata");
    assert_eq!(items[1].latest_version, "3.0.0");
    assert_eq!(items[1].description, "");
}

#[test]
fn registry_info_summarizes() {
    let reg = sample_registry();
    let info = registry_info(&reg);
    assert_eq!(info.registry_url, "https://registry.example/registry.pb.gz");
    assert_eq!(info.module_count, 2);
}

#[test]
fn accept_header_negotiation() {
    assert!(accepts_protobuf(&Some("application/protobuf".to_string())));
    assert!(accepts_protobuf(&Some("application/x-protobuf".to_string())));
    assert!(accepts_protobuf(&Some("text/html, application/protobuf;q=0.9".to_string())));
    assert!(!accepts_protobuf(&Some("application/json".to_string())));
    assert!(!accepts_protobuf(&None));
}

#[test]
fn negotiated_module_body_is_binary_exactly_on_preference() {
    let reg = sample_registry();
    let m = get_by_name(&reg, &"abc".to_string()).unwrap();
    match negotiate_module(true, m) {
        ModuleBody::Binary(bytes) => {
            let back = decode_module(&bytes).unwrap();
            assert_modules_equal(&back, m);
        }
        ModuleBody::Textual => panic!("expected the binary body"),
    }
    match negotiate_module(false, m) {
        ModuleBody::Textual => {}
        ModuleBody::Binary(_) => panic!("expected the textual marker"),
    }
}

#[test]
fn negotiated_registry_body_is_binary_or_summary() {
    let reg = sample_registry();
    match negotiate_registry(true, &reg) {
        RegistryBody::Binary(bytes) => {
            let back = decode_registry(&bytes).unwrap();
            assert_eq!(back.registry_url, reg.registry_url);
            assert_eq!(back.modules.len(), 2);
        }
        RegistryBody::Summary(_) => panic!("expected the binary body"),
    }
    match negotiate_registry(false, &reg) {
        RegistryBody::Summary(info) => {
            assert_eq!(info.module_count, 2);
            assert_eq!(info.registry_url, reg.registry_url);
        }
        RegistryBody::Binary(_) => panic!("expected the summary"),
    }
}

#[test]
fn module_round_trips_through_the_binary_form() {
    let m = module("round", &["1.0.0", "0.9.0"], Some("päckage — unicode too"));
    let bytes = encode_module(&m);
    let back = decode_module(&bytes).unwrap();
    assert_modules_equal(&back, &m);

    let bare = module("bare", &[], None);
    let bytes = encode_module(&bare);
    let back = decode_module(&bytes).unwrap();
    assert_modules_equal(&back, &bare);
}

#[test]
fn registry_round_trips_through_the_binary_form() {
    let reg = sample_registry();
    let bytes = encode_registry(&reg);
    let back = decode_registry(&bytes).unwrap();
    assert_eq!(back.registry_url, reg.registry_url);
    assert_eq!(back.modules.len(), reg.modules.len());
    for (a, b) in back.modules.iter().zip(reg.modules.iter()) {
        assert_modules_equal(a, b);
    }
}

#[test]
fn decoding_rejects_malformed_documents() {
    assert!(decode_module(&[]).is_none());
    assert!(decode_registry(&[1, 2, 3]).is_none());
    // A valid module with trailing garbage is not a module document.
    let mut bytes = encode_module(&module("m", &[], None));
    bytes.push(0);
    assert!(decode_module(&bytes).is_none());
}

#[test]
fn population_succeeds_on_a_well_formed_blob() {
    let reg = sample_registry();
    let blob = gzip(&encode_registry(&reg));
    let mut cache = RegistryCache::new();
    assert!(cache.needs_population());
    assert!(cache.get().is_none());
    assert_eq!(cache.populate(&blob), Ok(()));
    assert!(!cache.needs_population());
    let snapshot = cache.get().unwrap();
    assert_eq!(snapshot.registry_url, reg.registry_url);
    assert_eq!(snapshot.modules.len(), 2);
    // Every further read observes the same snapshot, with no further work.
    let again = cache.get().unwrap();
    assert_eq!(again.registry_url, reg.registry_url);
    assert_eq!(again.modules.len(), 2);
}

#[test]
fn failed_population_leaves_the_cache_empty() {
    let mut cache = RegistryCache::new();

    // Not a gzip stream at all.
    assert_eq!(cache.populate(&[0xde, 0xad, 0xbe, 0xef]), Err(LoadError::Decompression));
    assert!(cache.needs_population());
    assert!(cache.get().is_none());

    // A truncated gzip stream must fail rather than yield a partial buffer.
    let reg = sample_registry();
    let blob = gzip(&encode_registry(&reg));
    let truncated = &blob[..blob.len() / 2];
    assert_eq!(cache.populate(truncated), Err(LoadError::Decompression));
    assert!(cache.needs_population());

    // Well-formed gzip of a malformed document.
    let bad = gzip(&[9, 9, 9]);
    assert_eq!(cache.populate(&bad), Err(LoadError::Decode));
    assert!(cache.needs_population());

    // The cache is not poisoned: the same cache still accepts a good blob.
    assert_eq!(cache.populate(&blob), Ok(()));
    assert!(!cache.needs_population());
}

#[test]
fn search_keeps_source_order_across_gaps() {
    let reg = Registry {
        registry_url: "u".to_string(),
        modules: vec![
            module("alpha", &["1.0.0"], Some("x")),
            module("beta", &["1.0.0"], None),
            module("gamma", &["1.0.0"], Some("the alphabet")),
        ],
    };
    let r = search(&reg, "ALPHA");
    assert_eq!(r.len(), 2);
    assert_eq!(r[0].name, "alpha");
    assert_eq!(r[1].name, "gamma");
}

#[test]
fn module_matching_by_name_and_description_appears_once() {
    let reg = Registry {
        registry_url: "u".to_string(),
        modules: vec![module("widget", &["1.0.0"], Some("A widget library"))],
    };
    let r = search(&reg, "widget");
    assert_eq!(r.len(), 1);
    assert_eq!(r[0].name, "widget");
}
