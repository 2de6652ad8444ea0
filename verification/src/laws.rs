//! The laws of the conversion, stated and proved over the same spec functions
//! the executable contracts use: what exclusion guarantees, what the artifact
//! table fixes, and that grouping does not depend on input order.

use vstd::prelude::*;

use crate::interface::{
    find_group, group_of, lemma_find_group, same_key, spec_combine, spec_combo_excluded,
    spec_dir_str, spec_image, spec_parse, spec_placeholder_image, spec_provider,
    spec_target_link, spec_version_or_latest, Direction, SpecCombined, SpecInterface,
};
use crate::manifest::{
    spec_component_list, spec_export_provider, spec_parsed, spec_primary, spec_scaler_trait,
};
use crate::model::{SpecProperties, SpecTraitProperty};

verus! {

/// An identifier the host handles natively contributes nothing: appending it
/// to either identifier list leaves the synthesized component list unchanged.
pub proof fn lemma_excluded_identifier_ignored(
    name: Seq<char>,
    image: Seq<char>,
    imports: Seq<Seq<char>>,
    exports: Seq<Seq<char>>,
    s: Seq<char>,
)
    requires
        spec_parse(s, Direction::Import) is Excluded,
        spec_parse(s, Direction::Export) is Excluded,
    ensures
        spec_component_list(name, image, imports.push(s), exports) == spec_component_list(
            name,
            image,
            imports,
            exports,
        ),
        spec_component_list(name, image, imports, exports.push(s)) == spec_component_list(
            name,
            image,
            imports,
            exports,
        ),
{
    assert(imports.push(s).drop_last() =~= imports);
    assert(exports.push(s).drop_last() =~= exports);
    assert(spec_parsed(imports.push(s), Direction::Import) =~= spec_parsed(
        imports,
        Direction::Import,
    ));
    assert(spec_parsed(exports.push(s), Direction::Export) =~= spec_parsed(
        exports,
        Direction::Export,
    ));
}

/// An excluded interface group carries neither an artifact, nor a link trait,
/// nor a provider component, whether it is imported or exported.
pub proof fn lemma_excluded_group_yields_nothing(ci: SpecCombined, primary: Seq<char>)
    requires
        spec_combo_excluded(ci),
    ensures
        spec_image(ci) is None,
        spec_target_link(ci) is None,
        spec_provider(ci) is None,
        spec_export_provider(ci, primary) is None,
{
}

/// The fixed artifact table: every non-excluded group of a well-known
/// capability pair gets exactly the artifact the table names, with the
/// direction deciding between the HTTP client and server providers.
pub proof fn lemma_capability_artifacts(ci: SpecCombined)
    requires
        !spec_combo_excluded(ci),
    ensures
        ci.namespace == "wasi"@ && ci.package == "blobstore"@ ==> spec_image(ci) == Some(
            "ghcr.io/wasmcloud/blobstore-fs:canary"@,
        ),
        ci.namespace == "wasi"@ && ci.package == "http"@ && ci.direction == Direction::Import
            ==> spec_image(ci) == Some("ghcr.io/wasmcloud/http-client:canary"@),
        ci.namespace == "wasi"@ && ci.package == "http"@ && ci.direction == Direction::Export
            ==> spec_image(ci) == Some("ghcr.io/wasmcloud/http-server:canary"@),
        ci.namespace == "wasi"@ && ci.package == "keyvalue"@ ==> spec_image(ci) == Some(
            "ghcr.io/wasmcloud/keyvalue-redis:canary"@,
        ),
        ci.namespace == "wasmcloud"@ && ci.package == "messaging"@ ==> spec_image(ci) == Some(
            "ghcr.io/wasmcloud/messaging-nats:canary"@,
        ),
{
    reveal_strlit("wasi");
    reveal_strlit("wasmcloud");
    reveal_strlit("http");
    reveal_strlit("blobstore");
    reveal_strlit("keyvalue");
    reveal_strlit("messaging");
    assert("wasi"@.len() == 4);
    assert("wasmcloud"@.len() == 9);
    assert("http"@.len() == 4);
    assert("blobstore"@.len() == 9);
    assert("keyvalue"@.len() == 8);
    assert("messaging"@.len() == 9);
    assert("blobstore"@[0] == 'b');
    assert("messaging"@[0] == 'm');
}

/// Among the well-known capability pairs, only HTTP reads the direction: for
/// blobstore, keyvalue and messaging, flipping the direction leaves the
/// artifact unchanged.
pub proof fn lemma_direction_affects_only_http(a: SpecCombined, b: SpecCombined)
    requires
        !spec_combo_excluded(a),
        b == (SpecCombined { direction: b.direction, ..a }),
        (a.namespace == "wasi"@ && (a.package == "blobstore"@ || a.package == "keyvalue"@)) || (
        a.namespace == "wasmcloud"@ && a.package == "messaging"@),
    ensures
        spec_image(b) == spec_image(a),
{
    reveal_strlit("wasi");
    reveal_strlit("wasmcloud");
    reveal_strlit("http");
    reveal_strlit("blobstore");
    reveal_strlit("keyvalue");
    reveal_strlit("messaging");
    assert("wasi"@.len() == 4);
    assert("wasmcloud"@.len() == 9);
    assert("http"@.len() == 4);
    assert("blobstore"@.len() == 9);
    assert("keyvalue"@.len() == 8);
    assert("messaging"@.len() == 9);
    assert("blobstore"@[0] == 'b');
    assert("messaging"@[0] == 'm');
}

/// A custom interface group — one no table row names — gets the templated
/// placeholder artifact, which spells out the namespace, the package, the
/// direction tag and the version, with `latest` standing in for a missing
/// version.
pub proof fn lemma_placeholder_artifact(ci: SpecCombined)
    requires
        !spec_combo_excluded(ci),
        !(ci.namespace == "wasi"@ && (ci.package == "blobstore"@ || ci.package == "http"@
            || ci.package == "keyvalue"@)),
        !(ci.namespace == "wasmcloud"@ && ci.package == "messaging"@),
    ensures
        spec_image(ci) == Some(spec_placeholder_image(ci)),
        spec_placeholder_image(ci) == "REGISTRY-IMAGE/"@ + ci.namespace + "-"@ + ci.package + "-"@
            + spec_dir_str(ci.direction) + ":"@ + spec_version_or_latest(ci.version),
{
}

/// Two groups share the grouping key: namespace, package, version and
/// direction.
pub open spec fn same_group_key(a: SpecCombined, b: SpecCombined) -> bool {
    &&& a.namespace == b.namespace
    &&& a.package == b.package
    &&& a.version == b.version
    &&& a.direction == b.direction
}

/// Membership in a sequence splits into membership in all but the last
/// element, or being the last element.
proof fn lemma_contains_split(s: Seq<SpecInterface>)
    requires
        s.len() > 0,
    ensures
        forall|x: SpecInterface|
            #[trigger] s.contains(x) <==> (s.drop_last().contains(x) || x == s.last()),
{
    assert forall|x: SpecInterface|
        #[trigger] s.contains(x) <==> (s.drop_last().contains(x) || x == s.last()) by {
        if s.contains(x) {
            let w = choose|w: int| 0 <= w < s.len() && s[w] == x;
            if w < s.len() - 1 {
                assert(s.drop_last()[w] == x);
            }
        }
        if s.drop_last().contains(x) {
            let w = choose|w: int| 0 <= w < s.drop_last().len() && s.drop_last()[w] == x;
            assert(s[w] == x);
        }
        if x == s.last() {
            assert(s[s.len() - 1] == x);
        }
    }
}

/// Some group of `gs` carries the interface's grouping key.
pub open spec fn has_group_with_key(gs: Seq<SpecCombined>, di: SpecInterface) -> bool {
    exists|p: int| 0 <= p < gs.len() && same_key(gs[p], di)
}

/// The group's key is the key of some interface of the list.
pub open spec fn group_key_from(dis: Seq<SpecInterface>, g: SpecCombined) -> bool {
    exists|di: SpecInterface| dis.contains(di) && same_key(g, di)
}

/// Some interface of the list has the group's key and the given name.
pub open spec fn name_in_group_source(
    dis: Seq<SpecInterface>,
    g: SpecCombined,
    nm: Seq<char>,
) -> bool {
    exists|di: SpecInterface| dis.contains(di) && same_key(g, di) && di.interface == nm
}

/// Every interface of the list has a group with its key.
pub proof fn lemma_combine_covers(dis: Seq<SpecInterface>)
    ensures
        forall|di: SpecInterface|
            dis.contains(di) ==> #[trigger] has_group_with_key(spec_combine(dis), di),
    decreases dis.len(),
{
    if dis.len() > 0 {
        let rest = dis.drop_last();
        let x = dis.last();
        let gs = spec_combine(rest);
        let new = spec_combine(dis);
        lemma_combine_covers(rest);
        lemma_contains_split(dis);
        lemma_find_group(gs, x);
        assert forall|di: SpecInterface| dis.contains(di) implies #[trigger] has_group_with_key(
            new,
            di,
        ) by {
            match find_group(gs, x) {
                Some(i) => {
                    assert(new == gs.update(
                        i,
                        SpecCombined { interfaces: gs[i].interfaces.push(x.interface), ..gs[i] },
                    ));
                    if di == x {
                        assert(same_key(new[i], di));
                    } else {
                        assert(rest.contains(di));
                        assert(has_group_with_key(gs, di));
                        let p = choose|p: int| 0 <= p < gs.len() && same_key(gs[p], di);
                        assert(same_key(new[p], di));
                    }
                },
                None => {
                    assert(new == gs.push(group_of(x)));
                    if di == x {
                        assert(same_key(new[new.len() - 1], di));
                    } else {
                        assert(rest.contains(di));
                        assert(has_group_with_key(gs, di));
                        let p = choose|p: int| 0 <= p < gs.len() && same_key(gs[p], di);
                        assert(same_key(new[p], di));
                    }
                },
            }
        }
    }
}

/// Every group's key comes from some interface of the list.
pub proof fn lemma_combine_keys_from(dis: Seq<SpecInterface>)
    ensures
        forall|p: int|
            0 <= p < spec_combine(dis).len() ==> #[trigger] group_key_from(
                dis,
                spec_combine(dis)[p],
            ),
    decreases dis.len(),
{
    if dis.len() > 0 {
        let rest = dis.drop_last();
        let x = dis.last();
        let gs = spec_combine(rest);
        let new = spec_combine(dis);
        lemma_combine_keys_from(rest);
        lemma_contains_split(dis);
        lemma_find_group(gs, x);
        assert(dis.contains(x)) by {
            assert(dis[dis.len() - 1] == x);
        }
        assert forall|p: int| 0 <= p < new.len() implies #[trigger] group_key_from(
            dis,
            new[p],
        ) by {
            match find_group(gs, x) {
                Some(i) => {
                    assert(new == gs.update(
                        i,
                        SpecCombined { interfaces: gs[i].interfaces.push(x.interface), ..gs[i] },
                    ));
                    if p == i {
                        assert(same_key(new[p], x));
                    } else {
                        assert(new[p] == gs[p]);
                        assert(group_key_from(rest, gs[p]));
                        let di = choose|di: SpecInterface|
                            rest.contains(di) && same_key(gs[p], di);
                        assert(dis.contains(di) && same_key(new[p], di));
                    }
                },
                None => {
                    assert(new == gs.push(group_of(x)));
                    if p == new.len() - 1 {
                        assert(same_key(new[p], x));
                    } else {
                        assert(new[p] == gs[p]);
                        assert(group_key_from(rest, gs[p]));
                        let di = choose|di: SpecInterface|
                            rest.contains(di) && same_key(gs[p], di);
                        assert(dis.contains(di) && same_key(new[p], di));
                    }
                },
            }
        }
    }
}

/// No two groups share a key.
pub proof fn lemma_combine_distinct_keys(dis: Seq<SpecInterface>)
    ensures
        forall|p: int, q: int|
            #![trigger spec_combine(dis)[p], spec_combine(dis)[q]]
            0 <= p < q < spec_combine(dis).len() ==> !same_group_key(
                spec_combine(dis)[p],
                spec_combine(dis)[q],
            ),
    decreases dis.len(),
{
    if dis.len() > 0 {
        let rest = dis.drop_last();
        let x = dis.last();
        let gs = spec_combine(rest);
        let new = spec_combine(dis);
        lemma_combine_distinct_keys(rest);
        lemma_find_group(gs, x);
        assert forall|p: int, q: int|
            #![trigger new[p], new[q]]
            0 <= p < q < new.len() implies !same_group_key(new[p], new[q]) by {
            match find_group(gs, x) {
                Some(i) => {
                    assert(new == gs.update(
                        i,
                        SpecCombined { interfaces: gs[i].interfaces.push(x.interface), ..gs[i] },
                    ));
                    assert(same_group_key(new[i], gs[i]));
                    assert(!same_group_key(gs[p], gs[q]));
                },
                None => {
                    assert(new == gs.push(group_of(x)));
                    if q < gs.len() {
                        assert(!same_group_key(gs[p], gs[q]));
                    } else {
                        assert(new[q] == group_of(x));
                        if same_group_key(new[p], new[q]) {
                            assert(same_key(gs[p], x));
                        }
                    }
                },
            }
        }
    }
}

/// A group holds exactly the names of the interfaces that share its key.
#[verifier::rlimit(100)]
pub proof fn lemma_combine_names(dis: Seq<SpecInterface>)
    ensures
        forall|p: int, nm: Seq<char>|
            #![trigger spec_combine(dis)[p].interfaces.contains(nm)]
            0 <= p < spec_combine(dis).len() ==> (spec_combine(dis)[p].interfaces.contains(nm)
                <==> name_in_group_source(dis, spec_combine(dis)[p], nm)),
    decreases dis.len(),
{
    let new = spec_combine(dis);
    if dis.len() == 0 {
        assert(new =~= Seq::<SpecCombined>::empty());
    } else {
        let rest = dis.drop_last();
        let x = dis.last();
        let gs = spec_combine(rest);
        lemma_combine_names(rest);
        lemma_combine_distinct_keys(rest);
        lemma_combine_covers(rest);
        lemma_contains_split(dis);
        lemma_find_group(gs, x);
        assert(dis.contains(x)) by {
            assert(dis[dis.len() - 1] == x);
        }
        assert forall|p: int, nm: Seq<char>|
            #![trigger new[p].interfaces.contains(nm)]
            0 <= p < new.len() implies (new[p].interfaces.contains(nm)
            <==> name_in_group_source(dis, new[p], nm)) by {
            match find_group(gs, x) {
                Some(i) => {
                    let g2 = SpecCombined {
                        interfaces: gs[i].interfaces.push(x.interface),
                        ..gs[i]
                    };
                    assert(new == gs.update(i, g2));
                    if p == i {
                        if new[p].interfaces.contains(nm) {
                            let w = choose|w: int|
                                0 <= w < new[p].interfaces.len() && new[p].interfaces[w] == nm;
                            if w < gs[i].interfaces.len() {
                                assert(gs[i].interfaces.contains(nm));
                                assert(name_in_group_source(rest, gs[i], nm));
                                let di = choose|di: SpecInterface|
                                    rest.contains(di) && same_key(gs[i], di) && di.interface
                                        == nm;
                                assert(dis.contains(di) && same_key(new[p], di));
                            } else {
                                assert(nm == x.interface);
                                assert(same_key(new[p], x));
                            }
                        }
                        if name_in_group_source(dis, new[p], nm) {
                            let di = choose|di: SpecInterface|
                                dis.contains(di) && same_key(new[p], di) && di.interface == nm;
                            if di == x {
                                assert(new[p].interfaces[new[p].interfaces.len() - 1] == nm);
                            } else {
                                assert(rest.contains(di));
                                assert(name_in_group_source(rest, gs[i], nm));
                                assert(gs[i].interfaces.contains(nm));
                                let w = choose|w: int|
                                    0 <= w < gs[i].interfaces.len() && gs[i].interfaces[w] == nm;
                                assert(new[p].interfaces[w] == nm);
                            }
                        }
                    } else {
                        assert(new[p] == gs[p]);
                        if new[p].interfaces.contains(nm) {
                            assert(name_in_group_source(rest, gs[p], nm));
                            let di = choose|di: SpecInterface|
                                rest.contains(di) && same_key(gs[p], di) && di.interface == nm;
                            assert(dis.contains(di) && same_key(new[p], di));
                        }
                        if name_in_group_source(dis, new[p], nm) {
                            let di = choose|di: SpecInterface|
                                dis.contains(di) && same_key(new[p], di) && di.interface == nm;
                            if di == x {
                                assert(same_key(gs[p], x));
                                assert(same_key(gs[i], x));
                                assert(same_group_key(gs[p], gs[i]));
                                if p < i {
                                    assert(!same_group_key(gs[p], gs[i]));
                                } else {
                                    assert(!same_group_key(gs[i], gs[p]));
                                }
                            } else {
                                assert(rest.contains(di));
                                assert(name_in_group_source(rest, gs[p], nm));
                            }
                        }
                    }
                },
                None => {
                    assert(new == gs.push(group_of(x)));
                    if p < gs.len() {
                        assert(new[p] == gs[p]);
                        if new[p].interfaces.contains(nm) {
                            assert(name_in_group_source(rest, gs[p], nm));
                            let di = choose|di: SpecInterface|
                                rest.contains(di) && same_key(gs[p], di) && di.interface == nm;
                            assert(dis.contains(di) && same_key(new[p], di));
                        }
                        if name_in_group_source(dis, new[p], nm) {
                            let di = choose|di: SpecInterface|
                                dis.contains(di) && same_key(new[p], di) && di.interface == nm;
                            if di == x {
                                assert(same_key(gs[p], x));
                            } else {
                                assert(rest.contains(di));
                                assert(name_in_group_source(rest, gs[p], nm));
                            }
                        }
                    } else {
                        assert(new[p] == group_of(x));
                        assert(new[p].interfaces == seq![x.interface]);
                        if new[p].interfaces.contains(nm) {
                            let w = choose|w: int|
                                0 <= w < new[p].interfaces.len() && new[p].interfaces[w] == nm;
                            assert(nm == x.interface);
                            assert(same_key(new[p], x));
                        }
                        if name_in_group_source(dis, new[p], nm) {
                            let di = choose|di: SpecInterface|
                                dis.contains(di) && same_key(new[p], di) && di.interface == nm;
                            if di == x {
                                assert(new[p].interfaces[0] == nm);
                            } else {
                                assert(rest.contains(di));
                                assert(has_group_with_key(gs, di)) by {
                                    lemma_combine_covers(rest);
                                }
                                let p2 = choose|p2: int|
                                    0 <= p2 < gs.len() && same_key(gs[p2], di);
                                assert(same_key(gs[p2], x));
                            }
                        }
                    }
                },
            }
        }
    }
}

/// Some group of `gs` shares the group's key and has the same set of
/// interface names.
pub open spec fn has_matching_group(g: SpecCombined, gs: Seq<SpecCombined>) -> bool {
    exists|q: int|
        0 <= q < gs.len() && same_group_key(g, gs[q]) && g.interfaces.to_set()
            == gs[q].interfaces.to_set()
}

/// Grouping is order-independent: grouping any permutation of the input list
/// produces groups with the same keys and, key for key, the same set of
/// interface names; only the emission order and the name order within a group
/// may differ.
pub proof fn lemma_combine_order_independent(a: Seq<SpecInterface>, b: Seq<SpecInterface>)
    requires
        a.to_multiset() == b.to_multiset(),
    ensures
        forall|p: int|
            0 <= p < spec_combine(a).len() ==> #[trigger] has_matching_group(
                spec_combine(a)[p],
                spec_combine(b),
            ),
        forall|q: int|
            0 <= q < spec_combine(b).len() ==> #[trigger] has_matching_group(
                spec_combine(b)[q],
                spec_combine(a),
            ),
{
    broadcast use vstd::seq_lib::to_multiset_contains;

    assert forall|x: SpecInterface| #[trigger] a.contains(x) <==> b.contains(x) by {
        assert(a.to_multiset().count(x) == b.to_multiset().count(x));
        assert(a.contains(x) <==> a.to_multiset().count(x) > 0);
        assert(b.contains(x) <==> b.to_multiset().count(x) > 0);
    }
    lemma_matching_groups(a, b);
    lemma_matching_groups(b, a);
}

/// One direction of the order-independence argument: each group of `a` has a
/// matching group of `b`.
proof fn lemma_matching_groups(a: Seq<SpecInterface>, b: Seq<SpecInterface>)
    requires
        forall|x: SpecInterface| #[trigger] a.contains(x) <==> b.contains(x),
    ensures
        forall|p: int|
            0 <= p < spec_combine(a).len() ==> #[trigger] has_matching_group(
                spec_combine(a)[p],
                spec_combine(b),
            ),
{
    let ga = spec_combine(a);
    let gb = spec_combine(b);
    lemma_combine_keys_from(a);
    lemma_combine_covers(b);
    lemma_combine_names(a);
    lemma_combine_names(b);
    assert forall|p: int| 0 <= p < ga.len() implies #[trigger] has_matching_group(
        ga[p],
        gb,
    ) by {
        assert(group_key_from(a, ga[p]));
        let di = choose|di: SpecInterface| a.contains(di) && same_key(ga[p], di);
        assert(b.contains(di));
        assert(has_group_with_key(gb, di));
        let q = choose|q: int| 0 <= q < gb.len() && same_key(gb[q], di);
        assert(same_group_key(ga[p], gb[q]));
        assert forall|nm: Seq<char>|
            ga[p].interfaces.contains(nm) <==> #[trigger] gb[q].interfaces.contains(nm) by {
            if ga[p].interfaces.contains(nm) {
                assert(name_in_group_source(a, ga[p], nm));
                let d2 = choose|d2: SpecInterface|
                    a.contains(d2) && same_key(ga[p], d2) && d2.interface == nm;
                assert(b.contains(d2) && same_key(gb[q], d2));
                assert(name_in_group_source(b, gb[q], nm));
            }
            if gb[q].interfaces.contains(nm) {
                assert(name_in_group_source(b, gb[q], nm));
                let d2 = choose|d2: SpecInterface|
                    b.contains(d2) && same_key(gb[q], d2) && d2.interface == nm;
                assert(a.contains(d2) && same_key(ga[p], d2));
                assert(name_in_group_source(a, ga[p], nm));
            }
        }
        assert(ga[p].interfaces.to_set() =~= gb[q].interfaces.to_set());
        assert(has_matching_group(ga[p], gb));
    }
}

/// Every entry of the import link-trait list is a link trait.
proof fn lemma_import_traits_are_links(cis: Seq<SpecCombined>)
    ensures
        forall|j: int|
            0 <= j < crate::manifest::spec_import_link_traits(cis).len()
                ==> (#[trigger] crate::manifest::spec_import_link_traits(cis)[j]).trait_type
                == "link"@ && crate::manifest::spec_import_link_traits(cis)[j].properties is Link,
    decreases cis.len(),
{
    if cis.len() > 0 {
        lemma_import_traits_are_links(cis.drop_last());
    }
}

/// The primary component always carries exactly one scaling trait, with a
/// single instance and no spread constraints, and it stands before any link
/// traits: every later trait is a link.
pub proof fn lemma_primary_scaling(
    name: Seq<char>,
    image: Seq<char>,
    import_groups: Seq<SpecCombined>,
)
    ensures
        spec_primary(name, image, import_groups).traits matches Some(ts) && ts.len() >= 1 && ts[0]
            == spec_scaler_trait() && (spec_scaler_trait().properties matches
            SpecTraitProperty::SpreadScaler(sc) && sc.instances == 1 && sc.spread.len() == 0) && (
        forall|j: int| 1 <= j < ts.len() ==> (#[trigger] ts[j]).properties is Link),
{
    lemma_import_traits_are_links(import_groups);
    let ts = spec_primary(name, image, import_groups).traits->Some_0;
    assert forall|j: int| 1 <= j < ts.len() implies (#[trigger] ts[j]).properties is Link by {
        assert(ts[j] == crate::manifest::spec_import_link_traits(import_groups)[j - 1]);
    }
}

/// A world with no imports and no exports converts to a manifest with exactly
/// one component — the primary one — carrying a single scaling trait and no
/// links, and no providers.
pub proof fn lemma_empty_world(name: Seq<char>, image: Seq<char>)
    ensures
        spec_component_list(name, image, Seq::empty(), Seq::empty()) == seq![
            crate::model::SpecComponent {
                name,
                properties: SpecProperties::Component { image },
                traits: Some(seq![spec_scaler_trait()]),
            },
        ],
{
    let empty_ids = Seq::<Seq<char>>::empty();
    assert(spec_parsed(empty_ids, Direction::Import) =~= Seq::<SpecInterface>::empty());
    assert(spec_parsed(empty_ids, Direction::Export) =~= Seq::<SpecInterface>::empty());
    assert(spec_combine(Seq::<SpecInterface>::empty()) =~= Seq::<SpecCombined>::empty());
    assert(spec_component_list(name, image, empty_ids, empty_ids) =~~= seq![
        crate::model::SpecComponent {
            name,
            properties: SpecProperties::Component { image },
            traits: Some(seq![spec_scaler_trait()]),
        },
    ]);
}

} // verus!
