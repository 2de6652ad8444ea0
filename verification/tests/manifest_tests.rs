use wit2wadm::manifest::{base_manifest, create_manifest, manifest_for_component, resolve_empty_strings};
use wit2wadm::model::{Properties, TraitProperty};

#[test]
fn test_manifest_for_component() {}

#[test]
fn wit2wadm() {
    let mut manifest = base_manifest("echo", "schmecho", "vecho");
    let basic_manifest = manifest_for_component(
        "echo",
        "myref.io",
        vec![
            "wasi:io/streams@0.2.0".to_string(),
            "wasmcloud:messaging/consumer@0.2.0".to_string(),
            "wasi:logging/logging".to_string(),
            "wasi:http/outgoing-handler@0.2.0".to_string(),
        ],
        vec![],
    )
    .expect("conversion should succeed");

    manifest.spec.components = basic_manifest;

    println!("{:?}", manifest.metadata.name);
    for component in &manifest.spec.components {
        println!("{:?}", component.name);
    }
}

#[test]
fn base_manifest_fields() {
    let m = base_manifest("echo", "An Echo Application", "v0.1.0");
    assert_eq!(m.api_version, "core.oam.dev/v1beta1");
    assert_eq!(m.kind, "Application");
    assert_eq!(m.metadata.name, "echo");
    assert_eq!(m.metadata.description, "An Echo Application");
    assert_eq!(m.metadata.version, "v0.1.0");
    assert_eq!(m.metadata.generated_by, "wit2wadm");
    assert_eq!(m.spec.components.len(), 0);
}

#[test]
fn empty_world_single_component() {
    let m = create_manifest("app", "desc", "v1", "app.io/img:1", vec![], vec![]).unwrap();
    assert_eq!(m.spec.components.len(), 1);
    let primary = &m.spec.components[0];
    assert_eq!(primary.name, "app");
    match &primary.properties {
        Properties::Component { image } => assert_eq!(image, "app.io/img:1"),
        _ => panic!("primary must be a component"),
    }
    let traits = primary.traits.as_ref().unwrap();
    assert_eq!(traits.len(), 1);
    assert_eq!(traits[0].trait_type, "spreadscaler");
    match &traits[0].properties {
        TraitProperty::SpreadScaler(s) => {
            assert_eq!(s.instances, 1);
            assert_eq!(s.spread.len(), 0);
        },
        _ => panic!("first trait must be the scaler"),
    }
}

#[test]
fn primary_scaler_precedes_links() {
    let m = create_manifest(
        "app",
        "d",
        "v",
        "img",
        vec!["wasi:keyvalue/store@0.2.0".to_string(), "custom:thing/iface@1.0.0".to_string()],
        vec![],
    )
    .unwrap();
    let primary = &m.spec.components[0];
    let traits = primary.traits.as_ref().unwrap();
    assert_eq!(traits.len(), 3);
    assert_eq!(traits[0].trait_type, "spreadscaler");
    for t in &traits[1..] {
        assert_eq!(t.trait_type, "link");
        assert!(matches!(t.properties, TraitProperty::Link(_)));
    }
}

#[test]
fn keyvalue_import_wiring() {
    let m = create_manifest(
        "app",
        "d",
        "v",
        "img",
        vec!["wasi:keyvalue/store@0.2.0".to_string()],
        vec![],
    )
    .unwrap();
    assert_eq!(m.spec.components.len(), 2);
    let primary = &m.spec.components[0];
    let traits = primary.traits.as_ref().unwrap();
    assert_eq!(traits.len(), 2);
    match &traits[1].properties {
        TraitProperty::Link(l) => {
            assert_eq!(l.target, "wasi:keyvalue-target");
            assert_eq!(l.namespace, "wasi");
            assert_eq!(l.package, "keyvalue");
            assert_eq!(l.interfaces, vec!["store".to_string()]);
            assert!(l.source_config.is_empty());
            assert!(l.target_config.is_empty());
            assert!(l.name.is_none());
        },
        _ => panic!("second trait must be a link"),
    }
    let provider = &m.spec.components[1];
    assert_eq!(provider.name, "wasi:keyvalue-target");
    match &provider.properties {
        Properties::Capability { image } => {
            assert_eq!(image, "ghcr.io/wasmcloud/keyvalue-redis:canary")
        },
        _ => panic!("provider must be a capability"),
    }
    assert!(provider.traits.is_none());
}

#[test]
fn http_export_links_back_to_primary() {
    let m = create_manifest(
        "app",
        "d",
        "v",
        "img",
        vec![],
        vec!["wasi:http/incoming-handler@0.2.0".to_string()],
    )
    .unwrap();
    assert_eq!(m.spec.components.len(), 2);
    let primary = &m.spec.components[0];
    assert_eq!(primary.traits.as_ref().unwrap().len(), 1);
    let provider = &m.spec.components[1];
    assert_eq!(provider.name, "wasi:http-source");
    match &provider.properties {
        Properties::Capability { image } => {
            assert_eq!(image, "ghcr.io/wasmcloud/http-server:canary")
        },
        _ => panic!("provider must be a capability"),
    }
    let ptraits = provider.traits.as_ref().unwrap();
    assert_eq!(ptraits.len(), 1);
    assert_eq!(ptraits[0].trait_type, "link");
    match &ptraits[0].properties {
        TraitProperty::Link(l) => {
            assert_eq!(l.target, "app");
            assert_eq!(l.namespace, "wasi");
            assert_eq!(l.package, "http");
            assert_eq!(l.interfaces, vec!["incoming-handler".to_string()]);
        },
        _ => panic!("provider trait must be a link"),
    }
}

#[test]
fn excluded_imports_add_nothing() {
    let m = create_manifest(
        "app",
        "d",
        "v",
        "img",
        vec![
            "wasi:io/streams@0.2.0".to_string(),
            "wasi:logging/logging".to_string(),
            "wasi:clocks/monotonic-clock@0.2.0".to_string(),
            "wasi:filesystem/preopens@0.2.0".to_string(),
            "wasi:cli/environment@0.2.0".to_string(),
            "wasi:sockets/tcp@0.2.0".to_string(),
            "wasi:random/random@0.2.0".to_string(),
            "wasi:http/types@0.2.0".to_string(),
            "wasmcloud:messaging/types@0.2.0".to_string(),
            "wasi:blobstore/types@0.2.0-draft".to_string(),
            "wasi:config/runtime@0.2.0-draft".to_string(),
            "wasmcloud:bus/lattice@1.0.0".to_string(),
        ],
        vec![],
    )
    .unwrap();
    assert_eq!(m.spec.components.len(), 1);
    assert_eq!(m.spec.components[0].traits.as_ref().unwrap().len(), 1);
}

#[test]
fn malformed_import_aborts() {
    let r = create_manifest(
        "app",
        "d",
        "v",
        "img",
        vec!["wasi:keyvalue/store@0.2.0".to_string(), "nonsense".to_string()],
        vec![],
    );
    match r {
        Err(wit2wadm::error::WadmError::MalformedIdentifier(s)) => assert_eq!(s, "nonsense"),
        _ => panic!("a malformed identifier must abort the conversion"),
    }
}

#[test]
fn malformed_export_aborts() {
    let r = create_manifest(
        "app",
        "d",
        "v",
        "img",
        vec![],
        vec!["ns:missing-slash".to_string()],
    );
    match r {
        Err(wit2wadm::error::WadmError::MalformedIdentifier(s)) => {
            assert_eq!(s, "ns:missing-slash")
        },
        _ => panic!("a malformed identifier must abort the conversion"),
    }
}

#[test]
fn resolve_empty_strings_defaults() {
    let (n, d, v, i) = resolve_empty_strings(
        String::new(),
        String::new(),
        String::new(),
        String::new(),
    );
    assert_eq!(n, "APPLICATION NAME");
    assert_eq!(d, "APPLICATION DESCRIPTION");
    assert_eq!(v, "v0.0.1");
    assert_eq!(i, "APPLICATION IMAGE");
}

#[test]
fn resolve_empty_strings_passthrough() {
    let (n, d, v, i) = resolve_empty_strings(
        "a".to_string(),
        "b".to_string(),
        "c".to_string(),
        "d".to_string(),
    );
    assert_eq!(n, "a");
    assert_eq!(d, "b");
    assert_eq!(v, "c");
    assert_eq!(i, "d");
}

#[test]
fn args_carry_invocation_values() {
    let a = wit2wadm::cli::Args {
        wit_folder_or_component: "wit".to_string(),
        world_name: Some("component".to_string()),
        app_name: None,
        app_description: None,
        app_version: None,
        app_image: None,
    };
    assert_eq!(a.wit_folder_or_component, "wit");
    assert_eq!(a.world_name.as_deref(), Some("component"));
    assert!(a.app_image.is_none());
}
