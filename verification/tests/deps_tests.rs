use wit2wadm::deps::{order_packages, DependencyPackage};
use wit2wadm::error::WadmError;

fn pkg(name: &str, deps: &[&str]) -> DependencyPackage {
    DependencyPackage {
        name: name.to_string(),
        deps: deps.iter().map(|s| s.to_string()).collect(),
    }
}

fn position(out: &[DependencyPackage], name: &str) -> usize {
    out.iter().position(|p| p.name == name).expect("package must be in the output")
}

#[test]
fn orders_dependencies_before_dependents() {
    let out = order_packages(
        vec![pkg("a", &[]), pkg("b", &["a"]), pkg("c", &["a", "b"])],
        pkg("primary", &["c"]),
    )
    .unwrap();
    assert_eq!(out.len(), 4);
    assert!(position(&out, "a") < position(&out, "b"));
    assert!(position(&out, "b") < position(&out, "c"));
    assert!(position(&out, "c") < position(&out, "primary"));
    assert_eq!(out[3].name, "primary");
}

#[test]
fn primary_is_always_last() {
    let out = order_packages(vec![pkg("z", &[]), pkg("m", &["z"])], pkg("app", &[])).unwrap();
    assert_eq!(out.last().unwrap().name, "app");
}

#[test]
fn unresolved_names_are_skipped() {
    let out = order_packages(
        vec![pkg("q", &["somewhere:else"])],
        pkg("primary", &["q", "also:external"]),
    )
    .unwrap();
    assert_eq!(out.len(), 2);
    assert_eq!(out[0].name, "q");
    assert_eq!(out[1].name, "primary");
}

#[test]
fn self_dependency_is_a_cycle() {
    let r = order_packages(vec![pkg("s", &["s"])], pkg("primary", &[]));
    match r {
        Err(WadmError::DependencyCycle(name)) => assert_eq!(name, "s"),
        _ => panic!("a self-dependent package must fail with a cycle error"),
    }
}

#[test]
fn mutual_dependency_is_a_cycle() {
    let r = order_packages(vec![pkg("x", &["y"]), pkg("y", &["x"])], pkg("primary", &["x"]));
    assert!(matches!(r, Err(WadmError::DependencyCycle(_))));
}

#[test]
fn transitive_cycle_is_detected() {
    let r = order_packages(
        vec![pkg("a", &["b"]), pkg("b", &["c"]), pkg("c", &["a"])],
        pkg("primary", &[]),
    );
    assert!(matches!(r, Err(WadmError::DependencyCycle(_))));
}

#[test]
fn duplicate_names_are_rejected() {
    let r = order_packages(vec![pkg("d", &[]), pkg("d", &[])], pkg("primary", &[]));
    match r {
        Err(WadmError::DuplicatePackage(name)) => assert_eq!(name, "d"),
        _ => panic!("two packages with one name must fail"),
    }
}

#[test]
fn primary_name_collision_is_rejected() {
    let r = order_packages(vec![pkg("app", &[])], pkg("app", &[]));
    assert!(matches!(r, Err(WadmError::DuplicatePackage(_))));
}

#[test]
fn lone_primary_orders_fine() {
    let out = order_packages(vec![], pkg("only", &[])).unwrap();
    assert_eq!(out.len(), 1);
    assert_eq!(out[0].name, "only");
}

#[test]
fn packages_keep_their_dependency_lists() {
    let out = order_packages(vec![pkg("a", &[]), pkg("b", &["a"])], pkg("p", &["b"])).unwrap();
    let b = &out[position(&out, "b")];
    assert_eq!(b.deps, vec!["a".to_string()]);
    let p = &out[position(&out, "p")];
    assert_eq!(p.deps, vec!["b".to_string()]);
}
