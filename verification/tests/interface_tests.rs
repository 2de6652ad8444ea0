use wit2wadm::error::WadmError;
use wit2wadm::interface::{combine_interfaces, CombinedInterface, Direction, DirectionalInterface};

fn group(
    namespace: &str,
    package: &str,
    version: Option<&str>,
    direction: Direction,
    interfaces: &[&str],
) -> CombinedInterface {
    CombinedInterface {
        namespace: namespace.to_string(),
        package: package.to_string(),
        version: version.map(|v| v.to_string()),
        direction,
        interfaces: interfaces.iter().map(|s| s.to_string()).collect(),
    }
}

#[test]
fn direction_as_str() {
    assert_eq!(Direction::Import.as_str(), "target");
    assert_eq!(Direction::Export.as_str(), "source");
}

#[test]
fn parse_well_known_interfaces() {
    let di = DirectionalInterface::parse_for_manifest(
        "wasi:http/incoming-handler@0.2.0",
        Direction::Export,
    )
    .unwrap()
    .unwrap();
    assert_eq!(di.namespace, "wasi");
    assert_eq!(di.package, "http");
    assert_eq!(di.interface, "incoming-handler");
    assert_eq!(di.version.as_deref(), Some("0.2.0"));
    assert!(matches!(di.direction, Direction::Export));

    let di = DirectionalInterface::parse_for_manifest(
        "wasmcloud:messaging/handler@0.2.0",
        Direction::Export,
    )
    .unwrap()
    .unwrap();
    assert_eq!(di.namespace, "wasmcloud");
    assert_eq!(di.package, "messaging");
    assert_eq!(di.interface, "handler");

    let di = DirectionalInterface::parse_for_manifest(
        "wasmcloud:messaging/consumer@0.2.0",
        Direction::Import,
    )
    .unwrap()
    .unwrap();
    assert_eq!(di.interface, "consumer");

    let di = DirectionalInterface::parse_for_manifest(
        "wasi:http/outgoing-handler@0.2.0",
        Direction::Import,
    )
    .unwrap()
    .unwrap();
    assert_eq!(di.interface, "outgoing-handler");
}

#[test]
fn parse_excluded_exact_identifiers() {
    let excluded = [
        "wasi:logging/logging",
        "wasi:random/random@0.2.0",
        "wasi:http/types@0.2.0",
        "wasmcloud:messaging/types@0.2.0",
        "wasi:blobstore/types@0.2.0-draft",
        "wasi:config/runtime@0.2.0-draft",
        "wasmcloud:bus/lattice@1.0.0",
    ];
    for id in excluded {
        let r = DirectionalInterface::parse_for_manifest(id, Direction::Import).unwrap();
        assert!(r.is_none(), "{} must be excluded", id);
        let r = DirectionalInterface::parse_for_manifest(id, Direction::Export).unwrap();
        assert!(r.is_none(), "{} must be excluded in both directions", id);
    }
}

#[test]
fn parse_excluded_prefix_families() {
    let excluded = [
        "wasi:io/streams@0.2.0",
        "wasi:clocks/wall-clock@0.2.0",
        "wasi:filesystem/types@0.2.0",
        "wasi:cli/stdout@0.2.0",
        "wasi:sockets/udp@0.2.0",
    ];
    for id in excluded {
        let r = DirectionalInterface::parse_for_manifest(id, Direction::Import).unwrap();
        assert!(r.is_none(), "{} must be excluded", id);
    }
}

#[test]
fn parse_generic_identifier() {
    let di = DirectionalInterface::parse_for_manifest("custom:pkg/iface@1.0.0", Direction::Import)
        .unwrap()
        .unwrap();
    assert_eq!(di.namespace, "custom");
    assert_eq!(di.package, "pkg");
    assert_eq!(di.interface, "iface");
    assert_eq!(di.version.as_deref(), Some("1.0.0"));

    let di = DirectionalInterface::parse_for_manifest("custom:pkg/iface", Direction::Import)
        .unwrap()
        .unwrap();
    assert_eq!(di.interface, "iface");
    assert!(di.version.is_none());
}

#[test]
fn parse_malformed_identifiers() {
    match DirectionalInterface::parse_for_manifest("nonsense", Direction::Import) {
        Err(WadmError::MalformedIdentifier(s)) => assert_eq!(s, "nonsense"),
        _ => panic!("an identifier without a namespace separator must fail"),
    }
    match DirectionalInterface::parse_for_manifest("ns:no-slash", Direction::Import) {
        Err(WadmError::MalformedIdentifier(s)) => assert_eq!(s, "ns:no-slash"),
        _ => panic!("an identifier without a package separator must fail"),
    }
}

#[test]
fn combine_groups_by_key() {
    let parse = |s: &str, d: Direction| {
        DirectionalInterface::parse_for_manifest(s, d).unwrap().unwrap()
    };
    let combined = combine_interfaces(vec![
        parse("wasi:keyvalue/store@0.2.0", Direction::Import),
        parse("custom:pkg/one@1.0.0", Direction::Import),
        parse("wasi:keyvalue/atomics@0.2.0", Direction::Import),
    ]);
    assert_eq!(combined.len(), 2);
    assert_eq!(combined[0].namespace, "wasi");
    assert_eq!(combined[0].package, "keyvalue");
    assert_eq!(combined[0].interfaces, vec!["store".to_string(), "atomics".to_string()]);
    assert_eq!(combined[1].namespace, "custom");
    assert_eq!(combined[1].interfaces, vec!["one".to_string()]);
}

#[test]
fn combine_keeps_directions_and_versions_apart() {
    let parse = |s: &str, d: Direction| {
        DirectionalInterface::parse_for_manifest(s, d).unwrap().unwrap()
    };
    let combined = combine_interfaces(vec![
        parse("custom:pkg/a@1.0.0", Direction::Import),
        parse("custom:pkg/b@2.0.0", Direction::Import),
        parse("custom:pkg/c@1.0.0", Direction::Export),
    ]);
    assert_eq!(combined.len(), 3);
}

#[test]
fn combine_does_not_deduplicate_names() {
    let parse = |s: &str, d: Direction| {
        DirectionalInterface::parse_for_manifest(s, d).unwrap().unwrap()
    };
    let combined = combine_interfaces(vec![
        parse("custom:pkg/a@1.0.0", Direction::Import),
        parse("custom:pkg/a@1.0.0", Direction::Import),
    ]);
    assert_eq!(combined.len(), 1);
    assert_eq!(combined[0].interfaces, vec!["a".to_string(), "a".to_string()]);
}

#[test]
fn combine_is_order_independent() {
    let parse = |s: &str, d: Direction| {
        DirectionalInterface::parse_for_manifest(s, d).unwrap().unwrap()
    };
    let forward = combine_interfaces(vec![
        parse("wasi:keyvalue/store@0.2.0", Direction::Import),
        parse("custom:pkg/one@1.0.0", Direction::Import),
        parse("wasi:keyvalue/atomics@0.2.0", Direction::Import),
    ]);
    let backward = combine_interfaces(vec![
        parse("wasi:keyvalue/atomics@0.2.0", Direction::Import),
        parse("custom:pkg/one@1.0.0", Direction::Import),
        parse("wasi:keyvalue/store@0.2.0", Direction::Import),
    ]);
    assert_eq!(forward.len(), backward.len());
    for f in &forward {
        let m = backward
            .iter()
            .find(|b| {
                b.namespace == f.namespace && b.package == f.package && b.version == f.version
                    && b.direction == f.direction
            })
            .expect("each key must appear in the permuted grouping");
        let mut fs: Vec<&String> = f.interfaces.iter().collect();
        let mut ms: Vec<&String> = m.interfaces.iter().collect();
        fs.sort();
        ms.sort();
        assert_eq!(fs, ms);
    }
}

#[test]
fn group_name_encodes_direction() {
    let g = group("wasi", "keyvalue", Some("0.2.0"), Direction::Import, &["store"]);
    assert_eq!(g.name(), "wasi:keyvalue-target");
    let g = group("wasi", "http", Some("0.2.0"), Direction::Export, &["incoming-handler"]);
    assert_eq!(g.name(), "wasi:http-source");
}

#[test]
fn capability_images_match_table() {
    let g = group("wasi", "blobstore", None, Direction::Import, &["blobstore"]);
    assert_eq!(g.capability_image().as_deref(), Some("ghcr.io/wasmcloud/blobstore-fs:canary"));
    let g = group("wasi", "blobstore", None, Direction::Export, &["blobstore"]);
    assert_eq!(g.capability_image().as_deref(), Some("ghcr.io/wasmcloud/blobstore-fs:canary"));
    let g = group("wasi", "http", Some("0.2.0"), Direction::Import, &["outgoing-handler"]);
    assert_eq!(g.capability_image().as_deref(), Some("ghcr.io/wasmcloud/http-client:canary"));
    let g = group("wasi", "http", Some("0.2.0"), Direction::Export, &["incoming-handler"]);
    assert_eq!(g.capability_image().as_deref(), Some("ghcr.io/wasmcloud/http-server:canary"));
    let g = group("wasi", "keyvalue", Some("0.2.0"), Direction::Import, &["store"]);
    assert_eq!(g.capability_image().as_deref(), Some("ghcr.io/wasmcloud/keyvalue-redis:canary"));
    let g = group("wasmcloud", "messaging", Some("0.2.0"), Direction::Import, &["consumer"]);
    assert_eq!(g.capability_image().as_deref(), Some("ghcr.io/wasmcloud/messaging-nats:canary"));
    let g = group("wasmcloud", "messaging", Some("0.2.0"), Direction::Export, &["handler"]);
    assert_eq!(g.capability_image().as_deref(), Some("ghcr.io/wasmcloud/messaging-nats:canary"));
}

#[test]
fn excluded_groups_have_no_image_and_no_link() {
    let excluded = [
        group("wasi", "logging", None, Direction::Import, &["logging"]),
        group("wasi", "io", Some("0.2.0"), Direction::Import, &["streams"]),
        group("wasi", "clocks", Some("0.2.0"), Direction::Import, &["wall-clock"]),
        group("wasi", "sockets", Some("0.2.0"), Direction::Import, &["tcp"]),
        group("wasi", "filesystem", Some("0.2.0"), Direction::Export, &["preopens"]),
        group("wasi", "cli", Some("0.2.0"), Direction::Import, &["stdout"]),
        group("wasi", "http", Some("0.2.0"), Direction::Import, &["types"]),
        group("wasi", "blobstore", None, Direction::Import, &["types"]),
        group("wasi", "random", Some("0.2.0"), Direction::Import, &["types"]),
        group("wasmcloud", "messaging", Some("0.2.0"), Direction::Import, &["types"]),
        group("wasi", "config", Some("0.2.0"), Direction::Import, &["runtime"]),
        group("wasmcloud", "bus", Some("1.0.0"), Direction::Import, &["lattice"]),
    ];
    for g in excluded {
        assert!(g.capability_image().is_none(), "{}:{} must carry no image", g.namespace, g.package);
        assert!(
            g.to_target_link_property().is_none(),
            "{}:{} must carry no link",
            g.namespace,
            g.package
        );
        assert!(g.to_capability_component().is_none());
    }
}

#[test]
fn placeholder_image_encodes_key() {
    let g = group("custom", "thing", Some("1.2.3"), Direction::Import, &["iface"]);
    assert_eq!(g.capability_image().as_deref(), Some("REGISTRY-IMAGE/custom-thing-target:1.2.3"));
    let g = group("custom", "thing", None, Direction::Export, &["iface"]);
    assert_eq!(g.capability_image().as_deref(), Some("REGISTRY-IMAGE/custom-thing-source:latest"));
    let g = group("wasi", "config", Some("0.2.0-draft"), Direction::Import, &["store"]);
    assert_eq!(
        g.capability_image().as_deref(),
        Some("REGISTRY-IMAGE/wasi-config-target:0.2.0-draft")
    );
}

#[test]
fn target_link_points_at_own_provider() {
    let g = group("wasi", "keyvalue", Some("0.2.0"), Direction::Import, &["store", "atomics"]);
    let l = g.to_target_link_property().unwrap();
    assert_eq!(l.target, "wasi:keyvalue-target");
    assert_eq!(l.namespace, "wasi");
    assert_eq!(l.package, "keyvalue");
    assert_eq!(l.interfaces, vec!["store".to_string(), "atomics".to_string()]);
}

#[test]
fn source_link_retargets() {
    let g = group("wasi", "http", Some("0.2.0"), Direction::Export, &["incoming-handler"]);
    let l = g.to_source_link_property("app").unwrap();
    assert_eq!(l.target, "app");
    assert_eq!(l.namespace, "wasi");
    assert_eq!(l.package, "http");
}

#[test]
fn capability_component_shape() {
    let g = group("wasmcloud", "messaging", Some("0.2.0"), Direction::Import, &["consumer"]);
    let c = g.to_capability_component().unwrap();
    assert_eq!(c.name, "wasmcloud:messaging-target");
    match &c.properties {
        wit2wadm::model::Properties::Capability { image } => {
            assert_eq!(image, "ghcr.io/wasmcloud/messaging-nats:canary")
        },
        _ => panic!("a provider must be a capability"),
    }
    assert!(c.traits.is_none());
}

#[test]
fn error_messages() {
    assert_eq!(
        WadmError::MalformedIdentifier("x".to_string()).message(),
        "invalid interface: x"
    );
    assert_eq!(
        WadmError::DependencyCycle("p".to_string()).message(),
        "package p depends on itself"
    );
    assert_eq!(
        WadmError::DuplicatePackage("p".to_string()).message(),
        "duplicate definitions of package p found"
    );
}
