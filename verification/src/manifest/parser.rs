//! The registry of declared components, built from the markup events of a
//! manifest document.

use crate::manifest::component::{is_component_kind, Component, ComponentView};
use crate::text::{
    clone_optional, clone_texts, has_substring, insert_unique,
    lemma_insert_unique_no_duplicates, optional_view, owned, push_unique, str_contains, str_eq,
    views,
};
use vstd::prelude::*;
use vstd::string::*;
use xml::reader::{EventReader, XmlEvent};

verus! {

/// The error type of the markup reader.
#[verifier::external_type_specification]
#[verifier::external_body]
pub struct ExMarkupError(xml::reader::Error);

/// One attribute of an element: its local name and its value.
#[derive(Debug)]
pub struct Attribute {
    pub name: String,
    pub value: String,
}

/// What an `Attribute` holds.
pub struct AttributeView {
    pub name: Seq<char>,
    pub value: Seq<char>,
}

impl View for Attribute {
    type V = AttributeView;

    open spec fn view(&self) -> AttributeView {
        AttributeView { name: self.name@, value: self.value@ }
    }
}

/// One event of a markup document, reduced to what the registry reads:
/// an element opens with its attributes, an element closes, or anything else.
#[derive(Debug)]
pub enum MarkupEvent {
    Open { name: String, attributes: Vec<Attribute> },
    Close { name: String },
    Other,
}

/// What a `MarkupEvent` holds.
pub enum MarkupEventView {
    Open { name: Seq<char>, attributes: Seq<AttributeView> },
    Close { name: Seq<char> },
    Other,
}

impl View for MarkupEvent {
    type V = MarkupEventView;

    open spec fn view(&self) -> MarkupEventView {
        match self {
            MarkupEvent::Open { name, attributes } => MarkupEventView::Open {
                name: name@,
                attributes: views(attributes@),
            },
            MarkupEvent::Close { name } => MarkupEventView::Close { name: name@ },
            MarkupEvent::Other => MarkupEventView::Other,
        }
    }
}

/// Why a manifest could not be read.
#[derive(Debug)]
pub enum ManifestError {
    /// The document is not well-formed markup; the reader's message is kept.
    Malformed(String),
}

/// The events that the markup reader yields for a document, in order, or
/// `None` where the reader rejects the document.
pub uninterp spec fn markup_events(document: Seq<u8>) -> Option<Seq<MarkupEventView>>;

/// Runs `xml::reader::EventReader` over the document and collects its events,
/// each reduced to a `MarkupEvent` (local names only). The reader's result is
/// a function of the bytes alone, which is all that the contract claims: the
/// events are those named by `markup_events`, and the reader's first error
/// ends the reading. The reader's documentation does not rule out a panic;
/// no input is known on which it panics.
#[verifier::external_body]
fn read_markup(document: &[u8]) -> (read: Result<Vec<MarkupEvent>, xml::reader::Error>)
    ensures
        match read {
            Ok(events) => markup_events(document@) == Some(views(events@)),
            Err(_) => markup_events(document@) is None,
        },
{
    let mut events = Vec::new();
    for event in EventReader::new(document) {
        events.push(match event? {
            XmlEvent::StartElement { name, attributes, .. } => MarkupEvent::Open {
                name: name.local_name,
                attributes: attributes.into_iter().map(|a| Attribute { name: a.name.local_name, value: a.value }).collect(),
            },
            XmlEvent::EndElement { name } => MarkupEvent::Close { name: name.local_name },
            _ => MarkupEvent::Other,
        });
    }
    Ok(events)
}

/// The message of a reader error, through its `Display` form. Nothing is
/// claimed of the text.
#[verifier::external_body]
fn error_message(error: &xml::reader::Error) -> (message: String) {
    error.to_string()
}

/// The values of the attributes named `key`, in order.
pub open spec fn values_named(attributes: Seq<AttributeView>, key: Seq<char>) -> Seq<Seq<char>>
    decreases attributes.len(),
{
    if attributes.len() == 0 {
        Seq::empty()
    } else {
        let front = values_named(attributes.drop_last(), key);
        if attributes.last().name == key {
            front.push(attributes.last().value)
        } else {
            front
        }
    }
}

/// The value of the last attribute named `key`.
pub open spec fn last_value(attributes: Seq<AttributeView>, key: Seq<char>) -> Option<Seq<char>> {
    let values = values_named(attributes, key);
    if values.len() == 0 {
        None
    } else {
        Some(values.last())
    }
}

/// `set` with each of `values` added in turn unless it is already there.
pub open spec fn insert_all(set: Seq<Seq<char>>, values: Seq<Seq<char>>) -> Seq<Seq<char>>
    decreases values.len(),
{
    if values.len() == 0 {
        set
    } else {
        insert_unique(insert_all(set, values.drop_last()), values.last())
    }
}

/// The attributes as they are written into the declaration text.
pub open spec fn attributes_text(attributes: Seq<AttributeView>) -> Seq<char>
    decreases attributes.len(),
{
    if attributes.len() == 0 {
        Seq::empty()
    } else {
        attributes_text(attributes.drop_last()) + " "@ + attributes.last().name + "="@
            + attributes.last().value
    }
}

/// The text kept of a component's declaration.
pub open spec fn declaration_text(tag: Seq<char>, attributes: Seq<AttributeView>) -> Seq<char> {
    "<"@ + tag + attributes_text(attributes) + ">"@
}

/// What the filters of the manifest have declared since the last
/// `intent-filter` opened.
pub struct FacetsView {
    pub actions: Seq<Seq<char>>,
    pub categories: Seq<Seq<char>>,
    pub data_schemes: Seq<Seq<char>>,
    pub data_hosts: Seq<Seq<char>>,
    pub data_paths: Seq<Seq<char>>,
    pub mime_types: Seq<Seq<char>>,
    pub permissions: Seq<Seq<char>>,
}

impl FacetsView {
    pub open spec fn empty() -> FacetsView {
        FacetsView {
            actions: Seq::empty(),
            categories: Seq::empty(),
            data_schemes: Seq::empty(),
            data_hosts: Seq::empty(),
            data_paths: Seq::empty(),
            mime_types: Seq::empty(),
            permissions: Seq::empty(),
        }
    }

    /// No facet that stands for a set holds a value twice.
    pub open spec fn well_formed(self) -> bool {
        &&& self.actions.no_duplicates()
        &&& self.categories.no_duplicates()
        &&& self.data_schemes.no_duplicates()
        &&& self.data_hosts.no_duplicates()
        &&& self.data_paths.no_duplicates()
        &&& self.mime_types.no_duplicates()
    }
}

/// Where the manifest lies and which package is asked for.
pub struct ManifestSourceView {
    pub path: Seq<char>,
    pub directory: Seq<char>,
    pub package_filter: Option<Seq<char>>,
}

/// The state of the registry between two events.
pub struct RegistryView {
    pub in_manifest: bool,
    pub package: Seq<char>,
    pub shared_user_id: Option<Seq<char>>,
    pub current: Option<ComponentView>,
    pub facets: FacetsView,
    pub in_intent_filter: bool,
    pub line: nat,
    pub components: Seq<ComponentView>,
}

/// The phase that the registry is in, read off its state. The phases tell
/// where the reading stands; what the registry does with an element depends
/// on the element and on whether a filter is open, not on the phase.
#[derive(Debug, Clone, Copy, PartialEq, Eq, Structural)]
pub enum Phase {
    /// No `manifest` element is open.
    Neutral,
    /// The `manifest` element is open and no component declaration is.
    InManifest,
    /// A component declaration is open, outside any of its filters.
    InComponentDeclaration,
    /// An intent filter is open.
    InIntentFilter,
}

impl RegistryView {
    /// The state before the first event.
    pub open spec fn initial() -> RegistryView {
        RegistryView {
            in_manifest: false,
            package: Seq::empty(),
            shared_user_id: None,
            current: None,
            facets: FacetsView::empty(),
            in_intent_filter: false,
            line: 0,
            components: Seq::empty(),
        }
    }

    pub open spec fn phase(self) -> Phase {
        if self.in_intent_filter {
            Phase::InIntentFilter
        } else if self.current is Some {
            Phase::InComponentDeclaration
        } else if self.in_manifest {
            Phase::InManifest
        } else {
            Phase::Neutral
        }
    }
}

/// The qualified form of a declared name: a name that begins with a dot is
/// put behind the package.
pub open spec fn qualified_name(package: Seq<char>, declared: Seq<char>) -> Seq<char> {
    if declared.len() > 0 && declared[0] == '.' {
        package + declared
    } else {
        declared
    }
}

/// The component that an opening element declares under the name `declared`.
pub open spec fn declared_component(
    state: RegistryView,
    tag: Seq<char>,
    attributes: Seq<AttributeView>,
    declared: Seq<char>,
    source: ManifestSourceView,
) -> ComponentView {
    ComponentView {
        name: qualified_name(state.package, declared),
        class_name: qualified_name(state.package, declared),
        package: state.package,
        component_type: tag,
        exported: last_value(attributes, "exported"@) == Some("true"@),
        actions: Seq::empty(),
        categories: Seq::empty(),
        data_schemes: Seq::empty(),
        data_hosts: Seq::empty(),
        data_paths: Seq::empty(),
        data_mime_types: Seq::empty(),
        permissions: Seq::empty(),
        intent_filter_permissions: Seq::empty(),
        manifest_dir: source.directory,
        shared_user_id: state.shared_user_id,
        manifest_path: source.path,
        manifest_line: state.line,
        xml_element: Some(declaration_text(tag, attributes)),
    }
}

/// The facets after a `data` element inside a filter.
pub open spec fn facets_with_data(facets: FacetsView, attributes: Seq<AttributeView>) -> FacetsView {
    FacetsView {
        data_schemes: insert_all(facets.data_schemes, values_named(attributes, "scheme"@)),
        data_hosts: insert_all(facets.data_hosts, values_named(attributes, "host"@)),
        data_paths: insert_all(facets.data_paths, values_named(attributes, "path"@)),
        mime_types: insert_all(facets.mime_types, values_named(attributes, "mimeType"@)),
        ..facets
    }
}

/// The state after an element named `tag` has opened. `state.line` already
/// counts the element.
pub open spec fn after_open(
    state: RegistryView,
    tag: Seq<char>,
    attributes: Seq<AttributeView>,
    source: ManifestSourceView,
) -> RegistryView {
    if tag == "manifest"@ {
        RegistryView {
            in_manifest: true,
            package: match last_value(attributes, "package"@) {
                Some(package) => package,
                None => state.package,
            },
            shared_user_id: match last_value(attributes, "sharedUserId"@) {
                Some(id) => Some(id),
                None => state.shared_user_id,
            },
            ..state
        }
    } else if is_component_kind(tag) {
        match last_value(attributes, "name"@) {
            Some(declared) if declared.len() > 0 => RegistryView {
                current: Some(declared_component(state, tag, attributes, declared, source)),
                ..state
            },
            _ => state,
        }
    } else if tag == "intent-filter"@ {
        RegistryView { in_intent_filter: true, facets: FacetsView::empty(), ..state }
    } else if !state.in_intent_filter {
        state
    } else if tag == "action"@ {
        RegistryView {
            facets: FacetsView {
                actions: insert_all(state.facets.actions, values_named(attributes, "name"@)),
                ..state.facets
            },
            ..state
        }
    } else if tag == "category"@ {
        RegistryView {
            facets: FacetsView {
                categories: insert_all(state.facets.categories, values_named(attributes, "name"@)),
                ..state.facets
            },
            ..state
        }
    } else if tag == "data"@ {
        RegistryView { facets: facets_with_data(state.facets, attributes), ..state }
    } else if tag == "permission"@ {
        RegistryView {
            facets: FacetsView {
                permissions: state.facets.permissions + values_named(attributes, "name"@),
                ..state.facets
            },
            ..state
        }
    } else {
        state
    }
}

/// The component as it leaves the registry: with the facets seen last.
pub open spec fn merged(component: ComponentView, facets: FacetsView) -> ComponentView {
    ComponentView {
        actions: facets.actions,
        categories: facets.categories,
        data_schemes: facets.data_schemes,
        data_hosts: facets.data_hosts,
        data_paths: facets.data_paths,
        data_mime_types: facets.mime_types,
        intent_filter_permissions: facets.permissions,
        ..component
    }
}

/// The package filter lets a component of `package` pass.
pub open spec fn passes_filter(filter: Option<Seq<char>>, package: Seq<char>) -> bool {
    match filter {
        Some(wanted) => package == wanted,
        None => true,
    }
}

/// The state after an element named `tag` has closed.
pub open spec fn after_close(state: RegistryView, tag: Seq<char>, source: ManifestSourceView) -> RegistryView {
    if is_component_kind(tag) {
        match state.current {
            Some(component) => RegistryView {
                current: None,
                components: if passes_filter(source.package_filter, component.package) {
                    state.components.push(merged(component, state.facets))
                } else {
                    state.components
                },
                ..state
            },
            None => state,
        }
    } else if tag == "intent-filter"@ {
        RegistryView { in_intent_filter: false, ..state }
    } else if tag == "manifest"@ {
        RegistryView { in_manifest: false, ..state }
    } else {
        state
    }
}

/// The state after one event.
pub open spec fn after_event(
    state: RegistryView,
    event: MarkupEventView,
    source: ManifestSourceView,
) -> RegistryView {
    match event {
        MarkupEventView::Open { name, attributes } => after_open(
            RegistryView { line: state.line + 1, ..state },
            name,
            attributes,
            source,
        ),
        MarkupEventView::Close { name } => after_close(state, name, source),
        MarkupEventView::Other => state,
    }
}

/// The state after all of `events`, from the initial state.
pub open spec fn after_events(events: Seq<MarkupEventView>, source: ManifestSourceView) -> RegistryView
    decreases events.len(),
{
    if events.len() == 0 {
        RegistryView::initial()
    } else {
        after_event(after_events(events.drop_last(), source), events.last(), source)
    }
}

/// The components that a sequence of events declares.
pub open spec fn declared_components(
    events: Seq<MarkupEventView>,
    source: ManifestSourceView,
) -> Seq<ComponentView> {
    after_events(events, source).components
}

/// A component on its way through the registry names one of the four kinds,
/// and its name begins with a dot only where its package is empty or begins
/// with one.
pub open spec fn is_registered_form(component: ComponentView) -> bool {
    &&& component.kind_is_known()
    &&& component.name.len() > 0
    &&& component.package.len() > 0 && component.package[0] != '.' ==> component.name[0] != '.'
}

/// What holds of every state that the registry reaches.
pub open spec fn is_consistent(state: RegistryView, source: ManifestSourceView) -> bool {
    &&& state.facets.well_formed()
    &&& state.current matches Some(component) ==> is_registered_form(component)
    &&& forall|i: int|
        0 <= i < state.components.len() ==> {
            &&& is_registered_form(#[trigger] state.components[i])
            &&& state.components[i].well_formed()
            &&& passes_filter(source.package_filter, state.components[i].package)
        }
}

/// Adding values one by one keeps a set free of duplicates.
pub proof fn lemma_insert_all_no_duplicates(set: Seq<Seq<char>>, values: Seq<Seq<char>>)
    requires
        set.no_duplicates(),
    ensures
        insert_all(set, values).no_duplicates(),
    decreases values.len(),
{
    if values.len() > 0 {
        lemma_insert_all_no_duplicates(set, values.drop_last());
        lemma_insert_unique_no_duplicates(insert_all(set, values.drop_last()), values.last());
    }
}

/// One event keeps the registry consistent.
pub proof fn lemma_event_keeps_consistent(
    state: RegistryView,
    event: MarkupEventView,
    source: ManifestSourceView,
)
    requires
        is_consistent(state, source),
    ensures
        is_consistent(after_event(state, event, source), source),
{
    match event {
        MarkupEventView::Open { name, attributes } => {
            let facets = state.facets;
            lemma_insert_all_no_duplicates(facets.actions, values_named(attributes, "name"@));
            lemma_insert_all_no_duplicates(facets.categories, values_named(attributes, "name"@));
            lemma_insert_all_no_duplicates(facets.data_schemes, values_named(attributes, "scheme"@));
            lemma_insert_all_no_duplicates(facets.data_hosts, values_named(attributes, "host"@));
            lemma_insert_all_no_duplicates(facets.data_paths, values_named(attributes, "path"@));
            lemma_insert_all_no_duplicates(
                facets.mime_types,
                values_named(attributes, "mimeType"@),
            );
        },
        MarkupEventView::Close { name } => {
            let next = after_event(state, event, source);
            assert forall|i: int| 0 <= i < next.components.len() implies {
                &&& is_registered_form(#[trigger] next.components[i])
                &&& next.components[i].well_formed()
                &&& passes_filter(source.package_filter, next.components[i].package)
            } by {
                if i < state.components.len() {
                    assert(next.components[i] == state.components[i]);
                }
            }
        },
        MarkupEventView::Other => {},
    }
}

/// Every state that the registry reaches is consistent: each component that
/// it has let out names one of the four kinds, is qualified, holds no facet
/// value twice and passes the package filter.
pub proof fn lemma_registry_consistent(events: Seq<MarkupEventView>, source: ManifestSourceView)
    ensures
        is_consistent(after_events(events, source), source),
    decreases events.len(),
{
    if events.len() > 0 {
        lemma_registry_consistent(events.drop_last(), source);
        lemma_event_keeps_consistent(
            after_events(events.drop_last(), source),
            events.last(),
            source,
        );
    }
}

/// The facets of the filter that is being read.
#[derive(Debug)]
pub struct Facets {
    pub actions: Vec<String>,
    pub categories: Vec<String>,
    pub data_schemes: Vec<String>,
    pub data_hosts: Vec<String>,
    pub data_paths: Vec<String>,
    pub mime_types: Vec<String>,
    pub permissions: Vec<String>,
}

impl View for Facets {
    type V = FacetsView;

    open spec fn view(&self) -> FacetsView {
        FacetsView {
            actions: views(self.actions@),
            categories: views(self.categories@),
            data_schemes: views(self.data_schemes@),
            data_hosts: views(self.data_hosts@),
            data_paths: views(self.data_paths@),
            mime_types: views(self.mime_types@),
            permissions: views(self.permissions@),
        }
    }
}

/// Where the manifest lies and which package is asked for.
#[derive(Debug)]
pub struct ManifestSource {
    pub path: String,
    pub directory: String,
    pub package_filter: Option<String>,
}

impl View for ManifestSource {
    type V = ManifestSourceView;

    open spec fn view(&self) -> ManifestSourceView {
        ManifestSourceView {
            path: self.path@,
            directory: self.directory@,
            package_filter: optional_view(self.package_filter),
        }
    }
}

/// The registry: it takes the events of a manifest one by one and collects
/// the components that they declare.
#[derive(Debug)]
pub struct Registry {
    pub in_manifest: bool,
    pub package: String,
    pub shared_user_id: Option<String>,
    pub current: Option<Component>,
    pub facets: Facets,
    pub in_intent_filter: bool,
    pub line: usize,
    pub components: Vec<Component>,
}

/// The view of an optional component.
pub open spec fn optional_component(current: Option<Component>) -> Option<ComponentView> {
    match current {
        Some(component) => Some(component@),
        None => None,
    }
}

impl View for Registry {
    type V = RegistryView;

    open spec fn view(&self) -> RegistryView {
        RegistryView {
            in_manifest: self.in_manifest,
            package: self.package@,
            shared_user_id: optional_view(self.shared_user_id),
            current: optional_component(self.current),
            facets: self.facets@,
            in_intent_filter: self.in_intent_filter,
            line: self.line as nat,
            components: views(self.components@),
        }
    }
}

/// The values of the attributes named `key`, in order.
fn named_values(attributes: &Vec<Attribute>, key: &str) -> (values: Vec<String>)
    ensures
        views(values@) == values_named(views(attributes@), key@),
{
    let mut values: Vec<String> = Vec::new();
    let mut i: usize = 0;
    assert(views(attributes@).subrange(0, 0) =~= Seq::<AttributeView>::empty());
    assert(views(values@) =~= Seq::<Seq<char>>::empty());
    while i < attributes.len()
        invariant
            i <= attributes@.len(),
            views(values@) == values_named(views(attributes@).subrange(0, i as int), key@),
        decreases attributes@.len() - i,
    {
        let ghost before = values@;
        let ghost upto = views(attributes@).subrange(0, i + 1);
        assert(upto.drop_last() =~= views(attributes@).subrange(0, i as int));
        assert(upto.last() == attributes@[i as int]@);
        if str_eq(attributes[i].name.as_str(), key) {
            values.push(attributes[i].value.clone());
            assert(views(values@) =~= views(before).push(attributes@[i as int].value@));
        }
        i += 1;
    }
    assert(views(attributes@).subrange(0, attributes@.len() as int) =~= views(attributes@));
    values
}

/// The value of the last attribute named `key`.
fn last_named(attributes: &Vec<Attribute>, key: &str) -> (value: Option<String>)
    ensures
        optional_view(value) == last_value(views(attributes@), key@),
{
    let mut values = named_values(attributes, key);
    let ghost all = values@;
    let value = values.pop();
    proof {
        if all.len() > 0 {
            assert(views(all).last() == all.last()@);
        }
    }
    value
}

/// Adds each of `values` to `set` unless it is already there.
fn insert_each(set: &mut Vec<String>, values: Vec<String>)
    ensures
        views(final(set)@) == insert_all(views(old(set)@), views(values@)),
{
    let mut i: usize = 0;
    assert(views(values@).subrange(0, 0) =~= Seq::<Seq<char>>::empty());
    while i < values.len()
        invariant
            i <= values@.len(),
            views(set@) == insert_all(views(old(set)@), views(values@).subrange(0, i as int)),
        decreases values@.len() - i,
    {
        let ghost upto = views(values@).subrange(0, i + 1);
        assert(upto.drop_last() =~= views(values@).subrange(0, i as int));
        assert(upto.last() == values@[i as int]@);
        push_unique(set, values[i].clone());
        i += 1;
    }
    assert(views(values@).subrange(0, values@.len() as int) =~= views(values@));
}

/// Adds all of `values` at the end of `list`.
fn append_each(list: &mut Vec<String>, values: Vec<String>)
    ensures
        views(final(list)@) == views(old(list)@) + views(values@),
{
    let mut i: usize = 0;
    assert(views(list@) =~= views(old(list)@) + views(values@).subrange(0, 0));
    while i < values.len()
        invariant
            i <= values@.len(),
            views(list@) == views(old(list)@) + views(values@).subrange(0, i as int),
        decreases values@.len() - i,
    {
        let ghost before = list@;
        list.push(values[i].clone());
        assert(views(list@) =~= views(before).push(values@[i as int]@));
        assert(views(list@) =~= views(old(list)@) + views(values@).subrange(0, i + 1));
        i += 1;
    }
    assert(views(values@).subrange(0, values@.len() as int) =~= views(values@));
}

/// The text kept of a component's declaration.
fn declaration_of(tag: &str, attributes: &Vec<Attribute>) -> (text: String)
    ensures
        text@ == declaration_text(tag@, views(attributes@)),
{
    let mut text = owned("<");
    text.append(tag);
    let mut i: usize = 0;
    assert(views(attributes@).subrange(0, 0) =~= Seq::<AttributeView>::empty());
    assert("<"@ + tag@ + Seq::<char>::empty() =~= "<"@ + tag@);
    while i < attributes.len()
        invariant
            i <= attributes@.len(),
            text@ == "<"@ + tag@ + attributes_text(views(attributes@).subrange(0, i as int)),
        decreases attributes@.len() - i,
    {
        let ghost upto = views(attributes@).subrange(0, i + 1);
        let ghost front = attributes_text(views(attributes@).subrange(0, i as int));
        assert(upto.drop_last() =~= views(attributes@).subrange(0, i as int));
        assert(upto.last() == attributes@[i as int]@);
        text.append(" ");
        text.append(attributes[i].name.as_str());
        text.append("=");
        text.append(attributes[i].value.as_str());
        assert(text@ =~= "<"@ + tag@ + (front + " "@ + attributes@[i as int].name@ + "="@
            + attributes@[i as int].value@));
        i += 1;
    }
    assert(views(attributes@).subrange(0, attributes@.len() as int) =~= views(attributes@));
    text.append(">");
    text
}

/// Whether `kind` is one of the four kinds of component.
fn names_component_kind(kind: &str) -> (known: bool)
    ensures
        known == is_component_kind(kind@),
{
    str_eq(kind, "activity") || str_eq(kind, "service") || str_eq(kind, "receiver") || str_eq(
        kind,
        "provider",
    )
}

impl Facets {
    /// Facets with nothing declared.
    pub fn new() -> (facets: Self)
        ensures
            facets@ == FacetsView::empty(),
    {
        let facets = Facets {
            actions: Vec::new(),
            categories: Vec::new(),
            data_schemes: Vec::new(),
            data_hosts: Vec::new(),
            data_paths: Vec::new(),
            mime_types: Vec::new(),
            permissions: Vec::new(),
        };
        proof {
            let empty = FacetsView::empty();
            assert(facets@.actions =~= empty.actions);
            assert(facets@.categories =~= empty.categories);
            assert(facets@.data_schemes =~= empty.data_schemes);
            assert(facets@.data_hosts =~= empty.data_hosts);
            assert(facets@.data_paths =~= empty.data_paths);
            assert(facets@.mime_types =~= empty.mime_types);
            assert(facets@.permissions =~= empty.permissions);
        }
        facets
    }
}

impl Registry {
    /// The registry before the first event.
    pub fn new() -> (registry: Self)
        ensures
            registry@ == RegistryView::initial(),
    {
        let registry = Registry {
            in_manifest: false,
            package: String::new(),
            shared_user_id: None,
            current: None,
            facets: Facets::new(),
            in_intent_filter: false,
            line: 0,
            components: Vec::new(),
        };
        assert(registry@.components =~= RegistryView::initial().components);
        registry
    }

    /// The phase that the registry is in.
    pub fn phase(&self) -> (phase: Phase)
        ensures
            phase == self@.phase(),
    {
        if self.in_intent_filter {
            Phase::InIntentFilter
        } else if self.current.is_some() {
            Phase::InComponentDeclaration
        } else if self.in_manifest {
            Phase::InManifest
        } else {
            Phase::Neutral
        }
    }

    /// Takes an opening element. The line counter already counts it.
    fn open(&mut self, tag: &str, attributes: &Vec<Attribute>, source: &ManifestSource)
        ensures
            final(self)@ == after_open(old(self)@, tag@, views(attributes@), source@),
    {
        if str_eq(tag, "manifest") {
            self.in_manifest = true;
            match last_named(attributes, "package") {
                Some(package) => {
                    self.package = package;
                },
                None => {},
            }
            match last_named(attributes, "sharedUserId") {
                Some(id) => {
                    self.shared_user_id = Some(id);
                },
                None => {},
            }
        } else if names_component_kind(tag) {
            let declared = match last_named(attributes, "name") {
                Some(declared) => declared,
                None => {
                    return ;
                },
            };
            let letters = crate::text::to_chars(declared.as_str());
            if letters.len() == 0 {
                return ;
            }
            let exported = match last_named(attributes, "exported") {
                Some(value) => str_eq(value.as_str(), "true"),
                None => false,
            };
            let name = if letters[0] == '.' {
                let mut name = self.package.clone();
                name.append(declared.as_str());
                name
            } else {
                declared
            };
            let component = Component {
                name: name.clone(),
                class_name: name,
                package: self.package.clone(),
                component_type: owned(tag),
                exported,
                actions: Vec::new(),
                categories: Vec::new(),
                data_schemes: Vec::new(),
                data_hosts: Vec::new(),
                data_paths: Vec::new(),
                data_mime_types: Vec::new(),
                permissions: Vec::new(),
                intent_filter_permissions: Vec::new(),
                manifest_dir: source.directory.clone(),
                shared_user_id: clone_optional(&self.shared_user_id),
                manifest_path: source.path.clone(),
                manifest_line: self.line,
                xml_element: Some(declaration_of(tag, attributes)),
            };
            proof {
                let wanted = after_open(old(self)@, tag@, views(attributes@), source@).current->0;
                assert(component@.actions =~= wanted.actions);
                assert(component@.categories =~= wanted.categories);
                assert(component@.data_schemes =~= wanted.data_schemes);
                assert(component@.data_hosts =~= wanted.data_hosts);
                assert(component@.data_paths =~= wanted.data_paths);
                assert(component@.data_mime_types =~= wanted.data_mime_types);
                assert(component@.permissions =~= wanted.permissions);
                assert(component@.intent_filter_permissions =~= wanted.intent_filter_permissions);
                assert(component@ == wanted);
            }
            self.current = Some(component);
        } else if str_eq(tag, "intent-filter") {
            self.in_intent_filter = true;
            self.facets = Facets::new();
        } else if !self.in_intent_filter {
        } else if str_eq(tag, "action") {
            insert_each(&mut self.facets.actions, named_values(attributes, "name"));
        } else if str_eq(tag, "category") {
            insert_each(&mut self.facets.categories, named_values(attributes, "name"));
        } else if str_eq(tag, "data") {
            insert_each(&mut self.facets.data_schemes, named_values(attributes, "scheme"));
            insert_each(&mut self.facets.data_hosts, named_values(attributes, "host"));
            insert_each(&mut self.facets.data_paths, named_values(attributes, "path"));
            insert_each(&mut self.facets.mime_types, named_values(attributes, "mimeType"));
        } else if str_eq(tag, "permission") {
            append_each(&mut self.facets.permissions, named_values(attributes, "name"));
        }
    }

    /// Takes a closing element.
    fn close(&mut self, tag: &str, source: &ManifestSource)
        ensures
            final(self)@ == after_close(old(self)@, tag@, source@),
    {
        if names_component_kind(tag) {
            let current = self.current.take();
            match current {
                Some(mut component) => {
                    let passes = match &source.package_filter {
                        Some(wanted) => str_eq(component.package.as_str(), wanted.as_str()),
                        None => true,
                    };
                    if passes {
                        component.actions = clone_texts(&self.facets.actions);
                        component.categories = clone_texts(&self.facets.categories);
                        component.data_schemes = clone_texts(&self.facets.data_schemes);
                        component.data_hosts = clone_texts(&self.facets.data_hosts);
                        component.data_paths = clone_texts(&self.facets.data_paths);
                        component.data_mime_types = clone_texts(&self.facets.mime_types);
                        component.intent_filter_permissions = clone_texts(
                            &self.facets.permissions,
                        );
                        let ghost before = self.components@;
                        self.components.push(component);
                        assert(views(self.components@) =~= views(before).push(component@));
                    }
                },
                None => {},
            }
        } else if str_eq(tag, "intent-filter") {
            self.in_intent_filter = false;
        } else if str_eq(tag, "manifest") {
            self.in_manifest = false;
        }
    }

    /// Takes one event of the manifest.
    pub fn accept(&mut self, event: &MarkupEvent, source: &ManifestSource)
        requires
            old(self).line < usize::MAX,
        ensures
            final(self)@ == after_event(old(self)@, event@, source@),
    {
        match event {
            MarkupEvent::Open { name, attributes } => {
                self.line = self.line + 1;
                self.open(name.as_str(), attributes, source);
            },
            MarkupEvent::Close { name } => {
                self.close(name.as_str(), source);
            },
            MarkupEvent::Other => {},
        }
    }
}

/// The components that the events of a manifest declare, in the order in
/// which their declarations close.
pub fn collect_components(events: &Vec<MarkupEvent>, source: &ManifestSource) -> (components: Vec<
    Component,
>)
    ensures
        views(components@) == declared_components(views(events@), source@),
        forall|i: int|
            0 <= i < components@.len() ==> {
                &&& is_registered_form(#[trigger] components@[i]@)
                &&& components@[i]@.well_formed()
                &&& passes_filter(source@.package_filter, components@[i]@.package)
            },
{
    let mut registry = Registry::new();
    let mut i: usize = 0;
    assert(views(events@).subrange(0, 0) =~= Seq::<MarkupEventView>::empty());
    while i < events.len()
        invariant
            i <= events@.len(),
            registry.line <= i,
            registry@ == after_events(views(events@).subrange(0, i as int), source@),
        decreases events@.len() - i,
    {
        let ghost upto = views(events@).subrange(0, i + 1);
        assert(upto.drop_last() =~= views(events@).subrange(0, i as int));
        assert(upto.last() == events@[i as int]@);
        registry.accept(&events[i], source);
        i += 1;
    }
    proof {
        assert(views(events@).subrange(0, events@.len() as int) =~= views(events@));
        lemma_registry_consistent(views(events@), source@);
        assert forall|i: int| 0 <= i < registry.components@.len() implies {
            &&& is_registered_form(#[trigger] registry.components@[i]@)
            &&& registry.components@[i]@.well_formed()
            &&& passes_filter(source@.package_filter, registry.components@[i]@.package)
        } by {
            assert(views(registry.components@)[i] == registry.components@[i]@);
        }
    }
    registry.components
}

/// Reads a manifest document and collects the components that it declares.
/// The document is rejected exactly where the markup reader rejects it.
pub fn parse_manifest(document: &[u8], source: &ManifestSource) -> (parsed: Result<
    Vec<Component>,
    ManifestError,
>)
    ensures
        match parsed {
            Ok(components) => {
                &&& markup_events(document@) matches Some(events)
                &&& views(components@) == declared_components(events, source@)
                &&& forall|i: int|
                    0 <= i < components@.len() ==> {
                        &&& is_registered_form(#[trigger] components@[i]@)
                        &&& components@[i]@.well_formed()
                        &&& passes_filter(source@.package_filter, components@[i]@.package)
                    }
            },
            Err(_) => markup_events(document@) is None,
        },
{
    match read_markup(document) {
        Ok(events) => Ok(collect_components(&events, source)),
        Err(error) => Err(ManifestError::Malformed(error_message(&error))),
    }
}

/// Whether a file found under the project root is a manifest to read: it is
/// named `AndroidManifest.xml` and `test` occurs nowhere in its path.
pub fn is_manifest_file(path: &str, file_name: &str) -> (wanted: bool)
    ensures
        wanted == (!has_substring(path@, "test"@) && file_name@ == "AndroidManifest.xml"@),
{
    !str_contains(path, "test") && str_eq(file_name, "AndroidManifest.xml")
}

} // verus!
