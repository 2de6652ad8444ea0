//! The in-memory shape of a wadm application manifest, together with the
//! mathematical view of each piece. The conversion pipeline produces values of
//! these types; serializing them to YAML or JSON text is a caller's concern.

use vstd::prelude::*;

verus! {

/// View of a link trait: who it targets and which interfaces it covers.
#[verifier::ext_equal]
pub ghost struct SpecLink {
    pub target: Seq<char>,
    pub namespace: Seq<char>,
    pub package: Seq<char>,
    pub interfaces: Seq<Seq<char>>,
    pub source_config: Seq<Seq<char>>,
    pub target_config: Seq<Seq<char>>,
    pub name: Option<Seq<char>>,
}

/// A link trait: wires the component carrying it to `target` over the named
/// WIT interfaces.
pub struct LinkProperty {
    pub target: String,
    pub namespace: String,
    pub package: String,
    pub interfaces: Vec<String>,
    pub source_config: Vec<String>,
    pub target_config: Vec<String>,
    pub name: Option<String>,
}

impl View for LinkProperty {
    type V = SpecLink;

    open spec fn view(&self) -> SpecLink {
        SpecLink {
            target: self.target@,
            namespace: self.namespace@,
            package: self.package@,
            interfaces: self.interfaces.deep_view(),
            source_config: self.source_config.deep_view(),
            target_config: self.target_config.deep_view(),
            name: match self.name {
                Some(n) => Some(n@),
                None => None,
            },
        }
    }
}

/// View of a scaling trait.
#[verifier::ext_equal]
pub ghost struct SpecSpreadScaler {
    pub instances: int,
    pub spread: Seq<Seq<char>>,
}

/// A scaling trait: how many instances to run and over which named spread
/// requirements to place them.
pub struct SpreadScalerProperty {
    pub instances: usize,
    pub spread: Vec<String>,
}

impl View for SpreadScalerProperty {
    type V = SpecSpreadScaler;

    open spec fn view(&self) -> SpecSpreadScaler {
        SpecSpreadScaler { instances: self.instances as int, spread: self.spread.deep_view() }
    }
}

/// View of the payload of a trait entry.
#[verifier::ext_equal]
pub ghost enum SpecTraitProperty {
    SpreadScaler(SpecSpreadScaler),
    Link(SpecLink),
}

/// The payload of a trait entry.
pub enum TraitProperty {
    SpreadScaler(SpreadScalerProperty),
    Link(LinkProperty),
}

impl View for TraitProperty {
    type V = SpecTraitProperty;

    open spec fn view(&self) -> SpecTraitProperty {
        match self {
            TraitProperty::SpreadScaler(p) => SpecTraitProperty::SpreadScaler(p@),
            TraitProperty::Link(p) => SpecTraitProperty::Link(p@),
        }
    }
}

/// View of a trait entry.
#[verifier::ext_equal]
pub ghost struct SpecTrait {
    pub trait_type: Seq<char>,
    pub properties: SpecTraitProperty,
}

/// A trait entry attached to a component: a tag naming the trait's kind and
/// the matching payload.
pub struct Trait {
    pub trait_type: String,
    pub properties: TraitProperty,
}

impl View for Trait {
    type V = SpecTrait;

    open spec fn view(&self) -> SpecTrait {
        SpecTrait { trait_type: self.trait_type@, properties: self.properties@ }
    }
}

/// View of a component's properties.
#[verifier::ext_equal]
pub ghost enum SpecProperties {
    Component { image: Seq<char> },
    Capability { image: Seq<char> },
}

/// The properties of a manifest component: the primary application component
/// or a capability provider, each carrying its artifact reference.
pub enum Properties {
    Component { image: String },
    Capability { image: String },
}

impl View for Properties {
    type V = SpecProperties;

    open spec fn view(&self) -> SpecProperties {
        match self {
            Properties::Component { image } => SpecProperties::Component { image: image@ },
            Properties::Capability { image } => SpecProperties::Capability { image: image@ },
        }
    }
}

/// View of a deployable component record.
#[verifier::ext_equal]
pub ghost struct SpecComponent {
    pub name: Seq<char>,
    pub properties: SpecProperties,
    pub traits: Option<Seq<SpecTrait>>,
}

/// A deployable component record: a unique name, its properties and its
/// optional list of traits.
pub struct Component {
    pub name: String,
    pub properties: Properties,
    pub traits: Option<Vec<Trait>>,
}

impl View for Component {
    type V = SpecComponent;

    open spec fn view(&self) -> SpecComponent {
        SpecComponent {
            name: self.name@,
            properties: self.properties@,
            traits: match &self.traits {
                Some(ts) => Some(ts.deep_view()),
                None => None,
            },
        }
    }
}

impl DeepView for Component {
    type V = SpecComponent;

    open spec fn deep_view(&self) -> SpecComponent {
        self.view()
    }
}

impl DeepView for Trait {
    type V = SpecTrait;

    open spec fn deep_view(&self) -> SpecTrait {
        self.view()
    }
}

/// View of an optional link trait.
pub open spec fn opt_link_view(o: Option<LinkProperty>) -> Option<SpecLink> {
    match o {
        None => None,
        Some(l) => Some(l@),
    }
}

/// View of an optional component record.
pub open spec fn opt_component_view(o: Option<Component>) -> Option<SpecComponent> {
    match o {
        None => None,
        Some(c) => Some(c@),
    }
}

/// View of the manifest metadata.
#[verifier::ext_equal]
pub ghost struct SpecMetadata {
    pub name: Seq<char>,
    pub version: Seq<char>,
    pub description: Seq<char>,
    pub generated_by: Seq<char>,
}

/// Metadata of a manifest: its name, the version and description annotations,
/// and the label naming the generating tool.
pub struct Metadata {
    pub name: String,
    pub version: String,
    pub description: String,
    pub generated_by: String,
}

impl View for Metadata {
    type V = SpecMetadata;

    open spec fn view(&self) -> SpecMetadata {
        SpecMetadata {
            name: self.name@,
            version: self.version@,
            description: self.description@,
            generated_by: self.generated_by@,
        }
    }
}

/// View of the specification section.
#[verifier::ext_equal]
pub ghost struct SpecSpecification {
    pub components: Seq<SpecComponent>,
}

/// The specification section of a manifest: its ordered component list.
pub struct Specification {
    pub components: Vec<Component>,
}

impl View for Specification {
    type V = SpecSpecification;

    open spec fn view(&self) -> SpecSpecification {
        SpecSpecification { components: self.components.deep_view() }
    }
}

/// View of a whole manifest document.
#[verifier::ext_equal]
pub ghost struct SpecManifest {
    pub api_version: Seq<char>,
    pub kind: Seq<char>,
    pub metadata: SpecMetadata,
    pub spec: SpecSpecification,
}

/// A wadm application manifest document.
pub struct Manifest {
    pub api_version: String,
    pub kind: String,
    pub metadata: Metadata,
    pub spec: Specification,
}

impl View for Manifest {
    type V = SpecManifest;

    open spec fn view(&self) -> SpecManifest {
        SpecManifest {
            api_version: self.api_version@,
            kind: self.kind@,
            metadata: self.metadata@,
            spec: self.spec@,
        }
    }
}

} // verus!
