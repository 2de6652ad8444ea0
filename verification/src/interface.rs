//! Parsing and classification of WIT interface identifiers.
//!
//! An identifier has the canonical grammar `namespace:package/interface` with
//! an optional `@version` suffix. Identifiers that the host runtime satisfies
//! natively are excluded from the manifest; a small fixed set of well-known
//! identifiers is recognized before generic parsing; everything else is parsed
//! generically and must carry both separators.

use vstd::prelude::*;
use vstd::string::StrSliceExecFns;
use vstd::string::StringExecFns;

use crate::strutil::{
    find_char, find_char_in, opt_view, starts_with, str_eq, str_starts_with, clone_strings,
};
use crate::error::WadmError;
use crate::model::{
    Component, LinkProperty, Properties, SpecComponent, SpecLink, SpecProperties, opt_link_view,
    opt_component_view,
};

verus! {

/// The direction of an interface: imported or exported by the component.
#[derive(Clone, Copy, Debug, Hash, PartialEq, Eq, Structural)]
pub enum Direction {
    Import,
    Export,
}

/// The tag an interface direction contributes to provider and artifact names:
/// an import links the primary component to a target, an export links a
/// source back to the primary component.
pub open spec fn spec_dir_str(d: Direction) -> Seq<char> {
    match d {
        Direction::Import => "target"@,
        Direction::Export => "source"@,
    }
}

impl Direction {
    /// The direction's naming tag.
    pub fn as_str(&self) -> (r: &'static str)
        ensures
            r@ == spec_dir_str(*self),
    {
        match self {
            Direction::Import => "target",
            Direction::Export => "source",
        }
    }
}

/// View of a parsed directional interface.
#[verifier::ext_equal]
pub ghost struct SpecInterface {
    pub namespace: Seq<char>,
    pub package: Seq<char>,
    pub interface: Seq<char>,
    pub version: Option<Seq<char>>,
    pub direction: Direction,
}

/// One interface of a world, parsed into its parts, with the direction it was
/// declared in.
pub struct DirectionalInterface {
    pub namespace: String,
    pub package: String,
    pub interface: String,
    pub version: Option<String>,
    pub direction: Direction,
}

impl View for DirectionalInterface {
    type V = SpecInterface;

    open spec fn view(&self) -> SpecInterface {
        SpecInterface {
            namespace: self.namespace@,
            package: self.package@,
            interface: self.interface@,
            version: opt_view(self.version),
            direction: self.direction,
        }
    }
}

/// The fixed set of identifiers promoted to well-known structured interfaces
/// before generic parsing.
pub open spec fn spec_wellknown(s: Seq<char>, d: Direction) -> Option<SpecInterface> {
    if s == "wasi:http/incoming-handler@0.2.0"@ {
        Some(SpecInterface {
            namespace: "wasi"@,
            package: "http"@,
            interface: "incoming-handler"@,
            version: Some("0.2.0"@),
            direction: d,
        })
    } else if s == "wasi:http/outgoing-handler@0.2.0"@ {
        Some(SpecInterface {
            namespace: "wasi"@,
            package: "http"@,
            interface: "outgoing-handler"@,
            version: Some("0.2.0"@),
            direction: d,
        })
    } else if s == "wasmcloud:messaging/consumer@0.2.0"@ {
        Some(SpecInterface {
            namespace: "wasmcloud"@,
            package: "messaging"@,
            interface: "consumer"@,
            version: Some("0.2.0"@),
            direction: d,
        })
    } else if s == "wasmcloud:messaging/handler@0.2.0"@ {
        Some(SpecInterface {
            namespace: "wasmcloud"@,
            package: "messaging"@,
            interface: "handler"@,
            version: Some("0.2.0"@),
            direction: d,
        })
    } else {
        None
    }
}

/// Identifiers the host satisfies natively, matched exactly.
pub open spec fn spec_excluded_exact(s: Seq<char>) -> bool {
    ||| s == "wasi:logging/logging"@
    ||| s == "wasi:random/random@0.2.0"@
    ||| s == "wasi:http/types@0.2.0"@
    ||| s == "wasmcloud:messaging/types@0.2.0"@
    ||| s == "wasi:blobstore/types@0.2.0-draft"@
    ||| s == "wasi:config/runtime@0.2.0-draft"@
    ||| s == "wasmcloud:bus/lattice@1.0.0"@
}

/// Identifiers the host satisfies natively, matched by their
/// namespace/package prefix: I/O, clocks, filesystem, CLI and sockets.
pub open spec fn spec_excluded_prefix(s: Seq<char>) -> bool {
    ||| starts_with(s, "wasi:io/"@)
    ||| starts_with(s, "wasi:clocks/"@)
    ||| starts_with(s, "wasi:filesystem/"@)
    ||| starts_with(s, "wasi:cli/"@)
    ||| starts_with(s, "wasi:sockets/"@)
}

/// An identifier that never appears in a manifest, whatever its direction.
pub open spec fn spec_excluded(s: Seq<char>) -> bool {
    spec_excluded_exact(s) || spec_excluded_prefix(s)
}

/// Generic parsing of an identifier: namespace up to the first `:`, package
/// up to the following first `/`, then the interface name, split at the first
/// `@` from the version if one is present. `None` when a separator is absent.
pub open spec fn spec_generic_parse(s: Seq<char>) -> Option<
    (Seq<char>, Seq<char>, Seq<char>, Option<Seq<char>>),
> {
    match find_char(s, ':') {
        None => None,
        Some(i) => {
            let namespace = s.subrange(0, i);
            let rest = s.subrange(i + 1, s.len() as int);
            match find_char(rest, '/') {
                None => None,
                Some(j) => {
                    let package = rest.subrange(0, j);
                    let tail = rest.subrange(j + 1, rest.len() as int);
                    match find_char(tail, '@') {
                        None => Some((namespace, package, tail, None)),
                        Some(k) => Some(
                            (
                                namespace,
                                package,
                                tail.subrange(0, k),
                                Some(tail.subrange(k + 1, tail.len() as int)),
                            ),
                        ),
                    }
                },
            }
        },
    }
}

/// A non-excluded, non-well-known identifier that generic parsing rejects.
pub open spec fn spec_malformed(s: Seq<char>) -> bool {
    &&& spec_wellknown(s, Direction::Import) is None
    &&& !spec_excluded(s)
    &&& spec_generic_parse(s) is None
}

/// What parsing an identifier yields.
#[verifier::ext_equal]
pub ghost enum ParseOutcome {
    /// The host handles the interface natively; nothing enters the manifest.
    Excluded,
    /// A directional interface for the manifest.
    Parsed(SpecInterface),
    /// Unexpected host input: a required separator is missing.
    Malformed,
}

/// The decision `DirectionalInterface::parse_for_manifest` implements:
/// well-known identifiers first, then the exclusion lists, then generic
/// parsing.
pub open spec fn spec_parse(s: Seq<char>, d: Direction) -> ParseOutcome {
    match spec_wellknown(s, d) {
        Some(di) => ParseOutcome::Parsed(di),
        None => {
            if spec_excluded(s) {
                ParseOutcome::Excluded
            } else {
                match spec_generic_parse(s) {
                    None => ParseOutcome::Malformed,
                    Some((namespace, package, interface, version)) => ParseOutcome::Parsed(
                        SpecInterface { namespace, package, interface, version, direction: d },
                    ),
                }
            }
        },
    }
}

impl DirectionalInterface {
    /// Parses an interface identifier for the manifest. `Ok(None)` means the
    /// host handles the interface natively and nothing is emitted for it;
    /// an identifier missing its namespace or package separator is a fatal
    /// error carrying the identifier.
    pub fn parse_for_manifest(interface: &str, direction: Direction) -> (r: Result<
        Option<DirectionalInterface>,
        WadmError,
    >)
        ensures
            match spec_parse(interface@, direction) {
                ParseOutcome::Parsed(di) => r matches Ok(Some(x)) && x@ == di,
                ParseOutcome::Excluded => r matches Ok(None::<DirectionalInterface>),
                ParseOutcome::Malformed => r matches Err(e) && e matches
                    WadmError::MalformedIdentifier(b) && b@ == interface@,
            },
    {
        if str_eq(interface, "wasi:http/incoming-handler@0.2.0") {
            return Ok(Some(DirectionalInterface {
                namespace: "wasi".to_owned(),
                package: "http".to_owned(),
                interface: "incoming-handler".to_owned(),
                version: Some("0.2.0".to_owned()),
                direction,
            }));
        }
        if str_eq(interface, "wasi:http/outgoing-handler@0.2.0") {
            return Ok(Some(DirectionalInterface {
                namespace: "wasi".to_owned(),
                package: "http".to_owned(),
                interface: "outgoing-handler".to_owned(),
                version: Some("0.2.0".to_owned()),
                direction,
            }));
        }
        if str_eq(interface, "wasmcloud:messaging/consumer@0.2.0") {
            return Ok(Some(DirectionalInterface {
                namespace: "wasmcloud".to_owned(),
                package: "messaging".to_owned(),
                interface: "consumer".to_owned(),
                version: Some("0.2.0".to_owned()),
                direction,
            }));
        }
        if str_eq(interface, "wasmcloud:messaging/handler@0.2.0") {
            return Ok(Some(DirectionalInterface {
                namespace: "wasmcloud".to_owned(),
                package: "messaging".to_owned(),
                interface: "handler".to_owned(),
                version: Some("0.2.0".to_owned()),
                direction,
            }));
        }
        if str_eq(interface, "wasi:logging/logging") || str_eq(interface, "wasi:random/random@0.2.0")
            || str_eq(interface, "wasi:http/types@0.2.0") || str_eq(
            interface,
            "wasmcloud:messaging/types@0.2.0",
        ) || str_eq(interface, "wasi:blobstore/types@0.2.0-draft") || str_eq(
            interface,
            "wasi:config/runtime@0.2.0-draft",
        ) || str_eq(interface, "wasmcloud:bus/lattice@1.0.0") {
            return Ok(None);
        }
        if str_starts_with(interface, "wasi:io/") || str_starts_with(interface, "wasi:clocks/")
            || str_starts_with(interface, "wasi:filesystem/") || str_starts_with(
            interface,
            "wasi:cli/",
        ) || str_starts_with(interface, "wasi:sockets/") {
            return Ok(None);
        }
        let n = interface.unicode_len();
        let colon = match find_char_in(interface, ':') {
            None => {
                return Err(WadmError::MalformedIdentifier(interface.to_owned()));
            },
            Some(i) => i,
        };
        proof {
            crate::strutil::lemma_find_char(interface@, ':');
        }
        let namespace = interface.substring_char(0, colon);
        let rest = interface.substring_char(colon + 1, n);
        let slash = match find_char_in(rest, '/') {
            None => {
                return Err(WadmError::MalformedIdentifier(interface.to_owned()));
            },
            Some(j) => j,
        };
        proof {
            crate::strutil::lemma_find_char(rest@, '/');
        }
        let rn = rest.unicode_len();
        let package = rest.substring_char(0, slash);
        let tail = rest.substring_char(slash + 1, rn);
        let tn = tail.unicode_len();
        proof {
            crate::strutil::lemma_find_char(tail@, '@');
        }
        let (iface, version) = match find_char_in(tail, '@') {
            None => (tail, None),
            Some(k) => (tail.substring_char(0, k), Some(tail.substring_char(k + 1, tn).to_owned())),
        };
        Ok(Some(DirectionalInterface {
            namespace: namespace.to_owned(),
            package: package.to_owned(),
            interface: iface.to_owned(),
            version,
            direction,
        }))
    }
}

/// View of a group of interfaces sharing namespace, package, version and
/// direction.
#[verifier::ext_equal]
pub ghost struct SpecCombined {
    pub namespace: Seq<char>,
    pub package: Seq<char>,
    pub version: Option<Seq<char>>,
    pub direction: Direction,
    pub interfaces: Seq<Seq<char>>,
}

/// The interfaces of one (namespace, package, version, direction) key,
/// combined: the interface names are listed in first-seen order and are not
/// deduplicated.
pub struct CombinedInterface {
    pub namespace: String,
    pub package: String,
    pub version: Option<String>,
    pub direction: Direction,
    pub interfaces: Vec<String>,
}

impl View for CombinedInterface {
    type V = SpecCombined;

    open spec fn view(&self) -> SpecCombined {
        SpecCombined {
            namespace: self.namespace@,
            package: self.package@,
            version: opt_view(self.version),
            direction: self.direction,
            interfaces: self.interfaces.deep_view(),
        }
    }
}

/// The interface belongs to the group: the four key fields agree.
pub open spec fn same_key(g: SpecCombined, di: SpecInterface) -> bool {
    &&& g.namespace == di.namespace
    &&& g.package == di.package
    &&& g.version == di.version
    &&& g.direction == di.direction
}

/// Position of the first group whose key matches the interface, if any.
pub open spec fn find_group(gs: Seq<SpecCombined>, di: SpecInterface) -> Option<int>
    decreases gs.len(),
{
    if gs.len() == 0 {
        None
    } else if same_key(gs[0], di) {
        Some(0int)
    } else {
        match find_group(gs.drop_first(), di) {
            None => None,
            Some(i) => Some(i + 1),
        }
    }
}

/// `find_group` returns the first matching group; `None` means no group
/// matches.
pub proof fn lemma_find_group(gs: Seq<SpecCombined>, di: SpecInterface)
    ensures
        match find_group(gs, di) {
            None => forall|j: int| 0 <= j < gs.len() ==> !same_key(gs[j], di),
            Some(i) => 0 <= i < gs.len() && same_key(gs[i], di) && (forall|j: int|
                0 <= j < i ==> !same_key(gs[j], di)),
        },
    decreases gs.len(),
{
    if gs.len() > 0 && !same_key(gs[0], di) {
        lemma_find_group(gs.drop_first(), di);
        match find_group(gs.drop_first(), di) {
            None => {
                assert forall|j: int| 0 <= j < gs.len() implies !same_key(gs[j], di) by {
                    if j > 0 {
                        assert(gs[j] == gs.drop_first()[j - 1]);
                    }
                }
            },
            Some(i) => {
                assert(gs[i + 1] == gs.drop_first()[i]);
                assert forall|j: int| 0 <= j < i + 1 implies !same_key(gs[j], di) by {
                    if j > 0 {
                        assert(gs[j] == gs.drop_first()[j - 1]);
                    }
                }
            },
        }
    }
}

/// Whatever position satisfies the first-match description is the one
/// `find_group` returns.
pub proof fn lemma_find_group_is(gs: Seq<SpecCombined>, di: SpecInterface, i: int)
    requires
        0 <= i < gs.len(),
        same_key(gs[i], di),
        forall|j: int| 0 <= j < i ==> !same_key(gs[j], di),
    ensures
        find_group(gs, di) == Some(i),
    decreases gs.len(),
{
    if !same_key(gs[0], di) {
        assert(gs.drop_first()[i - 1] == gs[i]);
        assert forall|j: int| 0 <= j < i - 1 implies !same_key(gs.drop_first()[j], di) by {
            assert(gs.drop_first()[j] == gs[j + 1]);
        }
        lemma_find_group_is(gs.drop_first(), di, i - 1);
    }
}

/// No matching group means `find_group` returns `None`.
pub proof fn lemma_find_group_none(gs: Seq<SpecCombined>, di: SpecInterface)
    requires
        forall|j: int| 0 <= j < gs.len() ==> !same_key(gs[j], di),
    ensures
        find_group(gs, di) is None,
    decreases gs.len(),
{
    if gs.len() > 0 {
        assert forall|j: int| 0 <= j < gs.drop_first().len() implies !same_key(
            gs.drop_first()[j],
            di,
        ) by {
            assert(gs.drop_first()[j] == gs[j + 1]);
        }
        lemma_find_group_none(gs.drop_first(), di);
    }
}

/// The group a single interface opens.
pub open spec fn group_of(di: SpecInterface) -> SpecCombined {
    SpecCombined {
        namespace: di.namespace,
        package: di.package,
        version: di.version,
        direction: di.direction,
        interfaces: seq![di.interface],
    }
}

/// Adds one interface to a group list: appends its name to the first group
/// with the same key, or opens a new group at the end.
pub open spec fn spec_insert(gs: Seq<SpecCombined>, di: SpecInterface) -> Seq<SpecCombined> {
    match find_group(gs, di) {
        Some(i) => gs.update(
            i,
            SpecCombined { interfaces: gs[i].interfaces.push(di.interface), ..gs[i] },
        ),
        None => gs.push(group_of(di)),
    }
}

/// Grouping of a sequence of interfaces, processed left to right.
pub open spec fn spec_combine(dis: Seq<SpecInterface>) -> Seq<SpecCombined>
    decreases dis.len(),
{
    if dis.len() == 0 {
        Seq::empty()
    } else {
        spec_insert(spec_combine(dis.drop_last()), dis.last())
    }
}

/// Views of a sequence of parsed interfaces.
pub open spec fn iface_views(v: Seq<DirectionalInterface>) -> Seq<SpecInterface> {
    v.map_values(|d: DirectionalInterface| d@)
}

/// Views of a sequence of combined interfaces.
pub open spec fn combined_views(v: Seq<CombinedInterface>) -> Seq<SpecCombined> {
    v.map_values(|c: CombinedInterface| c@)
}

/// Position of the first group in `out` matching `di`, if any.
fn find_group_in(out: &Vec<CombinedInterface>, di: &DirectionalInterface) -> (r: Option<usize>)
    ensures
        match r {
            None => find_group(combined_views(out@), di@) is None,
            Some(i) => find_group(combined_views(out@), di@) == Some(i as int),
        },
{
    let mut j: usize = 0;
    while j < out.len()
        invariant
            j <= out.len(),
            forall|k: int| 0 <= k < j ==> !same_key(combined_views(out@)[k], di@),
        decreases out.len() - j,
    {
        let g = &out[j];
        let matches_key = str_eq(g.namespace.as_str(), di.namespace.as_str()) && str_eq(
            g.package.as_str(),
            di.package.as_str(),
        ) && crate::strutil::opt_str_eq(&g.version, &di.version) && g.direction == di.direction;
        if matches_key {
            proof {
                lemma_find_group_is(combined_views(out@), di@, j as int);
            }
            return Some(j);
        }
        j += 1;
    }
    proof {
        lemma_find_group_none(combined_views(out@), di@);
    }
    None
}

/// Combines parsed interfaces into one group per (namespace, package,
/// version, direction) key. Groups appear in the order their keys are first
/// seen; within a group the interface names keep input order.
pub fn combine_interfaces(interfaces: Vec<DirectionalInterface>) -> (r: Vec<CombinedInterface>)
    ensures
        combined_views(r@) == spec_combine(iface_views(interfaces@)),
{
    let mut out: Vec<CombinedInterface> = Vec::new();
    let mut i: usize = 0;
    while i < interfaces.len()
        invariant
            i <= interfaces.len(),
            combined_views(out@) == spec_combine(iface_views(interfaces@).subrange(0, i as int)),
        decreases interfaces.len() - i,
    {
        let di = &interfaces[i];
        let ghost views = iface_views(interfaces@);
        let ghost old_groups = combined_views(out@);
        proof {
            assert(views.subrange(0, i + 1).drop_last() =~= views.subrange(0, i as int));
            assert(views.subrange(0, i + 1).last() == di@);
        }
        match find_group_in(&out, di) {
            Some(j) => {
                proof {
                    lemma_find_group(old_groups, di@);
                }
                let mut g = out.remove(j);
                let ghost old_g = g@;
                g.interfaces.push(di.interface.clone());
                proof {
                    assert(g@.interfaces =~= old_g.interfaces.push(di@.interface));
                    assert(g@ =~= SpecCombined {
                        interfaces: old_groups[j as int].interfaces.push(di@.interface),
                        ..old_groups[j as int]
                    });
                }
                out.insert(j, g);
                proof {
                    assert(combined_views(out@) =~= spec_insert(old_groups, di@));
                }
            },
            None => {
                let mut names: Vec<String> = Vec::new();
                names.push(di.interface.clone());
                let g = CombinedInterface {
                    namespace: di.namespace.clone(),
                    package: di.package.clone(),
                    version: match &di.version {
                        Some(v) => Some(v.clone()),
                        None => None,
                    },
                    direction: di.direction,
                    interfaces: names,
                };
                proof {
                    assert(g@.interfaces =~= seq![di@.interface]);
                    assert(g@ =~= group_of(di@));
                }
                out.push(g);
                proof {
                    assert(combined_views(out@) =~= spec_insert(old_groups, di@));
                }
            },
        }
        i += 1;
    }
    proof {
        assert(iface_views(interfaces@).subrange(0, interfaces@.len() as int) =~= iface_views(
            interfaces@,
        ));
    }
    out
}

/// The deterministic name of the component a group gives rise to:
/// `namespace:package-` followed by the direction tag.
pub open spec fn spec_name(ci: SpecCombined) -> Seq<char> {
    ci.namespace + ":"@ + ci.package + "-"@ + spec_dir_str(ci.direction)
}

/// A group that carries neither an artifact nor a link: the host satisfies it
/// natively, or it only describes types rather than behavior.
pub open spec fn spec_combo_excluded(ci: SpecCombined) -> bool {
    ||| (ci.namespace == "wasi"@ && (ci.package == "logging"@ || ci.package == "io"@ || ci.package
        == "clocks"@ || ci.package == "sockets"@ || ci.package == "filesystem"@ || ci.package
        == "cli"@))
    ||| (((ci.namespace == "wasi"@ && (ci.package == "http"@ || ci.package == "blobstore"@
        || ci.package == "random"@)) || (ci.namespace == "wasmcloud"@ && ci.package
        == "messaging"@)) && ci.interfaces == seq!["types"@])
    ||| (ci.namespace == "wasi"@ && ci.package == "config"@ && ci.interfaces == seq!["runtime"@])
    ||| (ci.namespace == "wasmcloud"@ && ci.package == "bus"@)
}

/// The version segment of a placeholder artifact: the group's version, or
/// `latest` when none was given.
pub open spec fn spec_version_or_latest(v: Option<Seq<char>>) -> Seq<char> {
    match v {
        Some(x) => x,
        None => "latest"@,
    }
}

/// The templated artifact reference of a custom interface: it encodes the
/// namespace, package, direction tag and version.
pub open spec fn spec_placeholder_image(ci: SpecCombined) -> Seq<char> {
    "REGISTRY-IMAGE/"@ + ci.namespace + "-"@ + ci.package + "-"@ + spec_dir_str(ci.direction)
        + ":"@ + spec_version_or_latest(ci.version)
}

/// The artifact decision table: `None` for excluded groups, the fixed
/// well-known provider artifacts next (direction matters only for HTTP), and
/// a templated placeholder for everything else.
pub open spec fn spec_image(ci: SpecCombined) -> Option<Seq<char>> {
    if spec_combo_excluded(ci) {
        None
    } else if ci.namespace == "wasi"@ && ci.package == "blobstore"@ {
        Some("ghcr.io/wasmcloud/blobstore-fs:canary"@)
    } else if ci.namespace == "wasi"@ && ci.package == "http"@ && ci.direction
        == Direction::Import {
        Some("ghcr.io/wasmcloud/http-client:canary"@)
    } else if ci.namespace == "wasi"@ && ci.package == "http"@ {
        Some("ghcr.io/wasmcloud/http-server:canary"@)
    } else if ci.namespace == "wasi"@ && ci.package == "keyvalue"@ {
        Some("ghcr.io/wasmcloud/keyvalue-redis:canary"@)
    } else if ci.namespace == "wasmcloud"@ && ci.package == "messaging"@ {
        Some("ghcr.io/wasmcloud/messaging-nats:canary"@)
    } else {
        Some(spec_placeholder_image(ci))
    }
}

/// The link decision: every non-excluded group links, keyed by namespace and
/// package only; the link targets the group's deterministic component name.
pub open spec fn spec_target_link(ci: SpecCombined) -> Option<SpecLink> {
    if spec_combo_excluded(ci) {
        None
    } else {
        Some(SpecLink {
            target: spec_name(ci),
            namespace: ci.namespace,
            package: ci.package,
            interfaces: ci.interfaces,
            source_config: Seq::empty(),
            target_config: Seq::empty(),
            name: None,
        })
    }
}

/// The link decision with its target replaced: used for exports, where the
/// provider links back to the primary component.
pub open spec fn spec_source_link(ci: SpecCombined, target: Seq<char>) -> Option<SpecLink> {
    match spec_target_link(ci) {
        None => None,
        Some(l) => Some(SpecLink { target, ..l }),
    }
}

/// The provider component of a non-excluded group: named deterministically,
/// carrying the decided artifact and no traits of its own.
pub open spec fn spec_provider(ci: SpecCombined) -> Option<SpecComponent> {
    match spec_image(ci) {
        None => None,
        Some(image) => Some(SpecComponent {
            name: spec_name(ci),
            properties: SpecProperties::Capability { image },
            traits: None,
        }),
    }
}

impl CombinedInterface {
    /// The deterministic name of the component this group gives rise to.
    pub fn name(&self) -> (r: String)
        ensures
            r@ == spec_name(self@),
    {
        let mut s = self.namespace.clone();
        s.append(":");
        s.append(self.package.as_str());
        s.append("-");
        s.append(self.direction.as_str());
        s
    }

    /// The group's interface-name list is exactly the one name `which`.
    fn interfaces_exactly(&self, which: &str) -> (r: bool)
        ensures
            r == (self@.interfaces == seq![which@]),
    {
        if self.interfaces.len() == 1 {
            let e = str_eq(self.interfaces[0].as_str(), which);
            proof {
                if e {
                    assert(self@.interfaces =~= seq![which@]);
                } else {
                    assert(self@.interfaces[0] != seq![which@][0]);
                }
            }
            e
        } else {
            proof {
                assert(self@.interfaces.len() != seq![which@].len());
            }
            false
        }
    }

    /// Whether the group is excluded from the manifest altogether.
    fn is_combo_excluded(&self) -> (r: bool)
        ensures
            r == spec_combo_excluded(self@),
    {
        let ns = self.namespace.as_str();
        let pkg = self.package.as_str();
        let wasi = str_eq(ns, "wasi");
        let wasmcloud = str_eq(ns, "wasmcloud");
        if wasi && (str_eq(pkg, "logging") || str_eq(pkg, "io") || str_eq(pkg, "clocks") || str_eq(
            pkg,
            "sockets",
        ) || str_eq(pkg, "filesystem") || str_eq(pkg, "cli")) {
            return true;
        }
        if ((wasi && (str_eq(pkg, "http") || str_eq(pkg, "blobstore") || str_eq(pkg, "random")))
            || (wasmcloud && str_eq(pkg, "messaging"))) && self.interfaces_exactly("types") {
            return true;
        }
        if wasi && str_eq(pkg, "config") && self.interfaces_exactly("runtime") {
            return true;
        }
        if wasmcloud && str_eq(pkg, "bus") {
            return true;
        }
        false
    }

    /// The artifact reference of the capability provider this group needs, or
    /// `None` when the host satisfies it natively.
    pub fn capability_image(&self) -> (r: Option<String>)
        ensures
            opt_view(r) == spec_image(self@),
    {
        if self.is_combo_excluded() {
            return None;
        }
        let ns = self.namespace.as_str();
        let pkg = self.package.as_str();
        let wasi = str_eq(ns, "wasi");
        let wasmcloud = str_eq(ns, "wasmcloud");
        if wasi && str_eq(pkg, "blobstore") {
            return Some("ghcr.io/wasmcloud/blobstore-fs:canary".to_owned());
        }
        if wasi && str_eq(pkg, "http") {
            if self.direction == Direction::Import {
                return Some("ghcr.io/wasmcloud/http-client:canary".to_owned());
            } else {
                return Some("ghcr.io/wasmcloud/http-server:canary".to_owned());
            }
        }
        if wasi && str_eq(pkg, "keyvalue") {
            return Some("ghcr.io/wasmcloud/keyvalue-redis:canary".to_owned());
        }
        if wasmcloud && str_eq(pkg, "messaging") {
            return Some("ghcr.io/wasmcloud/messaging-nats:canary".to_owned());
        }
        let mut img = "REGISTRY-IMAGE/".to_owned();
        img.append(ns);
        img.append("-");
        img.append(pkg);
        img.append("-");
        img.append(self.direction.as_str());
        img.append(":");
        match &self.version {
            Some(v) => img.append(v.as_str()),
            None => img.append("latest"),
        }
        Some(img)
    }

    /// The link trait pointing at this group's own provider: attached to the
    /// primary component for imports. `None` when the group is excluded.
    pub fn to_target_link_property(&self) -> (r: Option<LinkProperty>)
        ensures
            opt_link_view(r) == spec_target_link(self@),
    {
        if self.is_combo_excluded() {
            return None;
        }
        let l = LinkProperty {
            target: self.name(),
            namespace: self.namespace.clone(),
            package: self.package.clone(),
            interfaces: clone_strings(&self.interfaces),
            source_config: Vec::new(),
            target_config: Vec::new(),
            name: None,
        };
        proof {
            assert(l@ =~= spec_target_link(self@)->Some_0);
        }
        Some(l)
    }

    /// The link trait of an export: the same link, retargeted at the primary
    /// component, to be carried by the provider itself.
    pub fn to_source_link_property(&self, target: &str) -> (r: Option<LinkProperty>)
        ensures
            opt_link_view(r) == spec_source_link(self@, target@),
    {
        match self.to_target_link_property() {
            None => None,
            Some(link) => {
                let mut l = link;
                l.target = target.to_owned();
                proof {
                    assert(l@ =~= spec_source_link(self@, target@)->Some_0);
                }
                Some(l)
            },
        }
    }

    /// The capability provider component of this group, or `None` when the
    /// host satisfies it natively.
    pub fn to_capability_component(&self) -> (r: Option<Component>)
        ensures
            opt_component_view(r) == spec_provider(self@),
    {
        match self.capability_image() {
            None => None,
            Some(image) => {
                let c = Component {
                    name: self.name(),
                    properties: Properties::Capability { image },
                    traits: None,
                };
                proof {
                    assert(c@ =~= spec_provider(self@)->Some_0);
                }
                Some(c)
            },
        }
    }
}

} // verus!
