//! Synthesis and assembly of the manifest: the primary component with its
//! scaling and link traits, one provider component per non-excluded interface
//! group, and the document metadata around them.

use vstd::prelude::*;
use vstd::string::StrSliceExecFns;
use vstd::string::StringExecFns;

use crate::error::WadmError;
use crate::interface::{
    combine_interfaces, combined_views, iface_views, spec_combine, spec_malformed, spec_parse,
    spec_provider, spec_source_link, spec_target_link, CombinedInterface, Direction,
    DirectionalInterface, ParseOutcome, SpecCombined, SpecInterface,
};
use crate::model::{
    Component, Manifest, Metadata, Properties, SpecComponent, SpecLink, SpecManifest, SpecMetadata,
    SpecProperties, SpecSpecification, SpecSpreadScaler, SpecTrait, SpecTraitProperty,
    Specification, SpreadScalerProperty, Trait, TraitProperty,
};

verus! {

/// Some identifier of the list is malformed.
pub open spec fn spec_any_malformed(ss: Seq<Seq<char>>) -> bool {
    exists|i: int| 0 <= i < ss.len() && spec_malformed(ss[i])
}

/// `b` is the first malformed identifier of the list.
pub open spec fn spec_first_malformed_in(ss: Seq<Seq<char>>, b: Seq<char>) -> bool {
    exists|i: int|
        0 <= i < ss.len() && spec_malformed(ss[i]) && b == ss[i] && (forall|j: int|
            0 <= j < i ==> !spec_malformed(ss[j]))
}

/// The identifiers of a list that parse to an interface, in order, with the
/// excluded ones dropped.
pub open spec fn spec_parsed(ss: Seq<Seq<char>>, d: Direction) -> Seq<SpecInterface>
    decreases ss.len(),
{
    if ss.len() == 0 {
        Seq::empty()
    } else {
        spec_parsed(ss.drop_last(), d) + match spec_parse(ss.last(), d) {
            ParseOutcome::Parsed(di) => seq![di],
            _ => Seq::empty(),
        }
    }
}

/// The one scaling trait every primary component starts with: a single
/// instance, no spread constraints.
pub open spec fn spec_scaler_trait() -> SpecTrait {
    SpecTrait {
        trait_type: "spreadscaler"@,
        properties: SpecTraitProperty::SpreadScaler(
            SpecSpreadScaler { instances: 1, spread: Seq::empty() },
        ),
    }
}

/// A link trait entry around the given link.
pub open spec fn spec_link_trait(l: SpecLink) -> SpecTrait {
    SpecTrait { trait_type: "link"@, properties: SpecTraitProperty::Link(l) }
}

/// The link traits of the import groups, in group order: one per non-excluded
/// group, each wiring the primary component to that group's provider.
pub open spec fn spec_import_link_traits(cis: Seq<SpecCombined>) -> Seq<SpecTrait>
    decreases cis.len(),
{
    if cis.len() == 0 {
        Seq::empty()
    } else {
        spec_import_link_traits(cis.drop_last()) + match spec_target_link(cis.last()) {
            Some(l) => seq![spec_link_trait(l)],
            None => Seq::empty(),
        }
    }
}

/// The provider components of the import groups, in group order: one per
/// non-excluded group, with no traits of their own.
pub open spec fn spec_import_providers(cis: Seq<SpecCombined>) -> Seq<SpecComponent>
    decreases cis.len(),
{
    if cis.len() == 0 {
        Seq::empty()
    } else {
        spec_import_providers(cis.drop_last()) + match spec_provider(cis.last()) {
            Some(c) => seq![c],
            None => Seq::empty(),
        }
    }
}

/// The provider component of one export group: the group's provider carrying
/// a link trait that points back at the primary component. `None` unless both
/// the link and the artifact decision are present.
pub open spec fn spec_export_provider(ci: SpecCombined, primary: Seq<char>) -> Option<
    SpecComponent,
> {
    match spec_source_link(ci, primary) {
        None => None,
        Some(l) => match spec_provider(ci) {
            None => None,
            Some(c) => Some(SpecComponent { traits: Some(seq![spec_link_trait(l)]), ..c }),
        },
    }
}

/// The provider components of the export groups, in group order.
pub open spec fn spec_export_components(cis: Seq<SpecCombined>, primary: Seq<char>) -> Seq<
    SpecComponent,
>
    decreases cis.len(),
{
    if cis.len() == 0 {
        Seq::empty()
    } else {
        spec_export_components(cis.drop_last(), primary) + match spec_export_provider(
            cis.last(),
            primary,
        ) {
            Some(c) => seq![c],
            None => Seq::empty(),
        }
    }
}

/// The primary component: the caller's artifact, one scaling trait first,
/// then the import groups' link traits.
pub open spec fn spec_primary(
    name: Seq<char>,
    image: Seq<char>,
    import_groups: Seq<SpecCombined>,
) -> SpecComponent {
    SpecComponent {
        name,
        properties: SpecProperties::Component { image },
        traits: Some(seq![spec_scaler_trait()] + spec_import_link_traits(import_groups)),
    }
}

/// The full ordered component list of a conversion: the primary component,
/// then the import-derived providers, then the export-derived providers.
pub open spec fn spec_component_list(
    name: Seq<char>,
    image: Seq<char>,
    imports: Seq<Seq<char>>,
    exports: Seq<Seq<char>>,
) -> Seq<SpecComponent> {
    let import_groups = spec_combine(spec_parsed(imports, Direction::Import));
    let export_groups = spec_combine(spec_parsed(exports, Direction::Export));
    seq![spec_primary(name, image, import_groups)] + spec_import_providers(import_groups)
        + spec_export_components(export_groups, name)
}

/// Parses each identifier of a list in order, keeping the parsed interfaces
/// and dropping the excluded ones; the first malformed identifier aborts.
fn parse_list(items: &Vec<String>, d: Direction) -> (r: Result<
    Vec<DirectionalInterface>,
    WadmError,
>)
    ensures
        (r is Ok) <==> !spec_any_malformed(items.deep_view()),
        r matches Ok(v) ==> iface_views(v@) == spec_parsed(items.deep_view(), d),
        r matches Err(e) ==> e matches WadmError::MalformedIdentifier(b)
            && spec_first_malformed_in(items.deep_view(), b@),
{
    let ghost dv = items.deep_view();
    let mut out: Vec<DirectionalInterface> = Vec::new();
    let mut i: usize = 0;
    while i < items.len()
        invariant
            dv == items.deep_view(),
            i <= items.len(),
            items@.len() == dv.len(),
            iface_views(out@) == spec_parsed(dv.subrange(0, i as int), d),
            forall|j: int| 0 <= j < i ==> !spec_malformed(dv[j]),
        decreases items.len() - i,
    {
        proof {
            assert(dv.subrange(0, i + 1).drop_last() =~= dv.subrange(0, i as int));
            assert(dv.subrange(0, i + 1).last() == items@[i as int]@);
        }
        match DirectionalInterface::parse_for_manifest(items[i].as_str(), d) {
            Ok(Some(di)) => {
                out.push(di);
                proof {
                    assert(iface_views(out@) =~= spec_parsed(dv.subrange(0, i + 1), d));
                }
            },
            Ok(None) => {
                proof {
                    assert(iface_views(out@) =~= spec_parsed(dv.subrange(0, i + 1), d));
                }
            },
            Err(e) => {
                return Err(e);
            },
        }
        i += 1;
    }
    proof {
        assert(dv.subrange(0, dv.len() as int) =~= dv);
    }
    Ok(out)
}

/// Synthesizes the ordered component list of a manifest: the primary
/// component named `name` with artifact `image` and exactly one scaling trait
/// followed by the import link traits, then one provider component per
/// non-excluded import group, then one per export group, each export provider
/// carrying a link back to the primary component. The first malformed
/// identifier — imports before exports — aborts the conversion.
pub fn manifest_for_component(
    name: &str,
    image: &str,
    imports: Vec<String>,
    exports: Vec<String>,
) -> (r: Result<Vec<Component>, WadmError>)
    ensures
        (r is Ok) <==> !spec_any_malformed(imports.deep_view()) && !spec_any_malformed(
            exports.deep_view(),
        ),
        r matches Ok(cs) ==> cs.deep_view() == spec_component_list(
            name@,
            image@,
            imports.deep_view(),
            exports.deep_view(),
        ),
        r matches Err(e) ==> e matches WadmError::MalformedIdentifier(b) && (
        spec_first_malformed_in(imports.deep_view(), b@) || (!spec_any_malformed(
            imports.deep_view(),
        ) && spec_first_malformed_in(exports.deep_view(), b@))),
{
    let parsed_imports = match parse_list(&imports, Direction::Import) {
        Ok(v) => v,
        Err(e) => {
            return Err(e);
        },
    };
    let parsed_exports = match parse_list(&exports, Direction::Export) {
        Ok(v) => v,
        Err(e) => {
            return Err(e);
        },
    };
    let import_groups = combine_interfaces(parsed_imports);
    let export_groups = combine_interfaces(parsed_exports);
    let ghost igs = combined_views(import_groups@);
    let ghost egs = combined_views(export_groups@);

    let mut traits: Vec<Trait> = Vec::new();
    traits.push(
        Trait {
            trait_type: "spreadscaler".to_owned(),
            properties: TraitProperty::SpreadScaler(
                SpreadScalerProperty { instances: 1, spread: Vec::new() },
            ),
        },
    );
    proof {
        assert(traits.deep_view() =~~= seq![spec_scaler_trait()]);
    }
    let mut k: usize = 0;
    while k < import_groups.len()
        invariant
            igs == combined_views(import_groups@),
            k <= import_groups.len(),
            import_groups@.len() == igs.len(),
            traits.deep_view() == seq![spec_scaler_trait()] + spec_import_link_traits(
                igs.subrange(0, k as int),
            ),
        decreases import_groups.len() - k,
    {
        proof {
            assert(igs.subrange(0, k + 1).drop_last() =~= igs.subrange(0, k as int));
            assert(igs.subrange(0, k + 1).last() == import_groups@[k as int]@);
        }
        match (&import_groups[k]).to_target_link_property() {
            Some(l) => {
                let ghost lv = l@;
                let ghost old_td = traits.deep_view();
                traits.push(
                    Trait { trait_type: "link".to_owned(), properties: TraitProperty::Link(l) },
                );
                proof {
                    assert(spec_target_link(igs[k as int]) == Some(lv));
                    assert(traits.deep_view() =~~= old_td.push(spec_link_trait(lv)));
                    assert(spec_import_link_traits(igs.subrange(0, k + 1))
                        =~~= spec_import_link_traits(igs.subrange(0, k as int)) + seq![
                        spec_link_trait(lv),
                    ]);
                    assert(traits.deep_view() =~~= seq![spec_scaler_trait()]
                        + spec_import_link_traits(igs.subrange(0, k + 1)));
                }
            },
            None => {
                proof {
                    assert(traits.deep_view() =~~= seq![spec_scaler_trait()]
                        + spec_import_link_traits(igs.subrange(0, k + 1)));
                }
            },
        }
        k += 1;
    }
    proof {
        assert(igs.subrange(0, igs.len() as int) =~= igs);
    }

    let mut components: Vec<Component> = Vec::new();
    components.push(
        Component {
            name: name.to_owned(),
            properties: Properties::Component { image: image.to_owned() },
            traits: Some(traits),
        },
    );
    let ghost primary = spec_primary(name@, image@, igs);
    proof {
        assert(components.deep_view() =~~= seq![primary]);
    }
    let mut k2: usize = 0;
    while k2 < import_groups.len()
        invariant
            igs == combined_views(import_groups@),
            k2 <= import_groups.len(),
            import_groups@.len() == igs.len(),
            components.deep_view() == seq![primary] + spec_import_providers(
                igs.subrange(0, k2 as int),
            ),
        decreases import_groups.len() - k2,
    {
        proof {
            assert(igs.subrange(0, k2 + 1).drop_last() =~= igs.subrange(0, k2 as int));
            assert(igs.subrange(0, k2 + 1).last() == import_groups@[k2 as int]@);
        }
        match (&import_groups[k2]).to_capability_component() {
            Some(c) => {
                let ghost cv = c@;
                let ghost old_cd = components.deep_view();
                components.push(c);
                proof {
                    assert(spec_provider(igs[k2 as int]) == Some(cv));
                    assert(components.deep_view() =~~= old_cd.push(cv));
                    assert(spec_import_providers(igs.subrange(0, k2 + 1))
                        =~~= spec_import_providers(igs.subrange(0, k2 as int)) + seq![cv]);
                    assert(components.deep_view() =~~= seq![primary] + spec_import_providers(
                        igs.subrange(0, k2 + 1),
                    ));
                }
            },
            None => {
                proof {
                    assert(components.deep_view() =~~= seq![primary] + spec_import_providers(
                        igs.subrange(0, k2 + 1),
                    ));
                }
            },
        }
        k2 += 1;
    }
    proof {
        assert(igs.subrange(0, igs.len() as int) =~= igs);
    }

    let ghost before_exports = components.deep_view();
    let mut k3: usize = 0;
    while k3 < export_groups.len()
        invariant
            egs == combined_views(export_groups@),
            k3 <= export_groups.len(),
            export_groups@.len() == egs.len(),
            components.deep_view() == before_exports + spec_export_components(
                egs.subrange(0, k3 as int),
                name@,
            ),
        decreases export_groups.len() - k3,
    {
        proof {
            assert(egs.subrange(0, k3 + 1).drop_last() =~= egs.subrange(0, k3 as int));
            assert(egs.subrange(0, k3 + 1).last() == export_groups@[k3 as int]@);
        }
        match (&export_groups[k3]).to_source_link_property(name) {
            Some(l) => {
                match (&export_groups[k3]).to_capability_component() {
                    Some(c) => {
                        let mut link_traits: Vec<Trait> = Vec::new();
                        link_traits.push(
                            Trait {
                                trait_type: "link".to_owned(),
                                properties: TraitProperty::Link(l),
                            },
                        );
                        let provider = Component {
                            name: c.name,
                            properties: c.properties,
                            traits: Some(link_traits),
                        };
                        proof {
                            assert(provider@.traits matches Some(ts) && ts =~~= seq![
                                spec_link_trait(
                                    spec_source_link(export_groups@[k3 as int]@, name@)->Some_0,
                                ),
                            ]);
                            assert(provider@ =~~= spec_export_provider(
                                export_groups@[k3 as int]@,
                                name@,
                            )->Some_0);
                        }
                        let ghost pv = provider@;
                        let ghost old_cd = components.deep_view();
                        components.push(provider);
                        proof {
                            assert(spec_export_provider(egs[k3 as int], name@) == Some(pv));
                            assert(components.deep_view() =~~= old_cd.push(pv));
                            assert(spec_export_components(egs.subrange(0, k3 + 1), name@)
                                =~~= spec_export_components(egs.subrange(0, k3 as int), name@)
                                + seq![pv]);
                            assert(components.deep_view() =~~= before_exports
                                + spec_export_components(egs.subrange(0, k3 + 1), name@));
                        }
                    },
                    None => {
                        proof {
                            assert(components.deep_view() =~~= before_exports
                                + spec_export_components(egs.subrange(0, k3 + 1), name@));
                        }
                    },
                }
            },
            None => {
                proof {
                    assert(components.deep_view() =~~= before_exports + spec_export_components(
                        egs.subrange(0, k3 + 1),
                        name@,
                    ));
                }
            },
        }
        k3 += 1;
    }
    proof {
        assert(egs.subrange(0, egs.len() as int) =~= egs);
        assert(components.deep_view() =~~= spec_component_list(
            name@,
            image@,
            imports.deep_view(),
            exports.deep_view(),
        ));
    }
    Ok(components)
}

/// The document around a component list: fixed schema identifiers, the
/// caller's name, and the version and description annotations together with
/// the fixed generator label.
pub open spec fn spec_base_manifest(
    name: Seq<char>,
    description: Seq<char>,
    version: Seq<char>,
) -> SpecManifest {
    SpecManifest {
        api_version: "core.oam.dev/v1beta1"@,
        kind: "Application"@,
        metadata: SpecMetadata { name, version, description, generated_by: "wit2wadm"@ },
        spec: SpecSpecification { components: Seq::empty() },
    }
}

/// The complete manifest of a conversion.
pub open spec fn spec_manifest(
    name: Seq<char>,
    description: Seq<char>,
    version: Seq<char>,
    image: Seq<char>,
    imports: Seq<Seq<char>>,
    exports: Seq<Seq<char>>,
) -> SpecManifest {
    SpecManifest {
        spec: SpecSpecification {
            components: spec_component_list(name, image, imports, exports),
        },
        ..spec_base_manifest(name, description, version)
    }
}

/// Scaffolds the base manifest of an application: metadata only, no
/// components. Caller inputs are propagated verbatim, empty ones included.
pub fn base_manifest(name: &str, description: &str, version: &str) -> (r: Manifest)
    ensures
        r@ == spec_base_manifest(name@, description@, version@),
{
    let r = Manifest {
        api_version: "core.oam.dev/v1beta1".to_owned(),
        kind: "Application".to_owned(),
        metadata: Metadata {
            name: name.to_owned(),
            version: version.to_owned(),
            description: description.to_owned(),
            generated_by: "wit2wadm".to_owned(),
        },
        spec: Specification { components: Vec::new() },
    };
    proof {
        assert(r@ =~~= spec_base_manifest(name@, description@, version@));
    }
    r
}

/// Creates the manifest for a component from its metadata and the import and
/// export identifier lists of its WIT world. The first malformed identifier —
/// imports before exports — aborts the conversion; no partial manifest is
/// returned.
pub fn create_manifest(
    name: &str,
    description: &str,
    version: &str,
    image: &str,
    imports: Vec<String>,
    exports: Vec<String>,
) -> (r: Result<Manifest, WadmError>)
    ensures
        (r is Ok) <==> !spec_any_malformed(imports.deep_view()) && !spec_any_malformed(
            exports.deep_view(),
        ),
        r matches Ok(m) ==> m@ == spec_manifest(
            name@,
            description@,
            version@,
            image@,
            imports.deep_view(),
            exports.deep_view(),
        ),
        r matches Err(e) ==> e matches WadmError::MalformedIdentifier(b) && (
        spec_first_malformed_in(imports.deep_view(), b@) || (!spec_any_malformed(
            imports.deep_view(),
        ) && spec_first_malformed_in(exports.deep_view(), b@))),
{
    let ghost iv = imports.deep_view();
    let ghost ev = exports.deep_view();
    let components = match manifest_for_component(name, image, imports, exports) {
        Ok(cs) => cs,
        Err(e) => {
            return Err(e);
        },
    };
    let mut m = base_manifest(name, description, version);
    m.spec = Specification { components };
    proof {
        assert(m@ =~~= spec_manifest(name@, description@, version@, image@, iv, ev));
    }
    Ok(m)
}

/// Replaces empty caller inputs by the fixed defaults; non-empty inputs pass
/// through unchanged.
pub fn resolve_empty_strings(
    name: String,
    description: String,
    version: String,
    image: String,
) -> (r: (String, String, String, String))
    ensures
        r.0@ == if name@.len() == 0 { "APPLICATION NAME"@ } else { name@ },
        r.1@ == if description@.len() == 0 { "APPLICATION DESCRIPTION"@ } else { description@ },
        r.2@ == if version@.len() == 0 { "v0.0.1"@ } else { version@ },
        r.3@ == if image@.len() == 0 { "APPLICATION IMAGE"@ } else { image@ },
{
    let name = if name.as_str().is_empty() {
        "APPLICATION NAME".to_owned()
    } else {
        name
    };
    let description = if description.as_str().is_empty() {
        "APPLICATION DESCRIPTION".to_owned()
    } else {
        description
    };
    let version = if version.as_str().is_empty() {
        "v0.0.1".to_owned()
    } else {
        version
    };
    let image = if image.as_str().is_empty() {
        "APPLICATION IMAGE".to_owned()
    } else {
        image
    };
    (name, description, version, image)
}

} // verus!
