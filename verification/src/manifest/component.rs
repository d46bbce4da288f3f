//! The entity that describes one declared component.

use crate::text::{
    after_last, before_first, before_last, clone_optional, clone_texts, dedup_texts, distinct,
    ends_with, first_part_end, from_chars, has_char, has_substring, last_part_begin,
    optional_view, owned, str_contains, to_chars, views,
};
use vstd::prelude::*;
use vstd::slice::slice_subrange;
use vstd::string::*;

verus! {

/// A component declared in a manifest. The six facets of its intent filters
/// are kept in the order in which they were first declared.
#[derive(Debug)]
pub struct Component {
    pub name: String,
    pub class_name: String,
    pub package: String,
    pub component_type: String,
    pub exported: bool,
    pub actions: Vec<String>,
    pub categories: Vec<String>,
    pub data_schemes: Vec<String>,
    pub data_hosts: Vec<String>,
    pub data_paths: Vec<String>,
    pub data_mime_types: Vec<String>,
    pub permissions: Vec<String>,
    pub intent_filter_permissions: Vec<String>,
    pub manifest_dir: String,
    pub shared_user_id: Option<String>,
    pub manifest_path: String,
    pub manifest_line: usize,
    pub xml_element: Option<String>,
}

/// What a `Component` holds, as mathematical values.
pub struct ComponentView {
    pub name: Seq<char>,
    pub class_name: Seq<char>,
    pub package: Seq<char>,
    pub component_type: Seq<char>,
    pub exported: bool,
    pub actions: Seq<Seq<char>>,
    pub categories: Seq<Seq<char>>,
    pub data_schemes: Seq<Seq<char>>,
    pub data_hosts: Seq<Seq<char>>,
    pub data_paths: Seq<Seq<char>>,
    pub data_mime_types: Seq<Seq<char>>,
    pub permissions: Seq<Seq<char>>,
    pub intent_filter_permissions: Seq<Seq<char>>,
    pub manifest_dir: Seq<char>,
    pub shared_user_id: Option<Seq<char>>,
    pub manifest_path: Seq<char>,
    pub manifest_line: nat,
    pub xml_element: Option<Seq<char>>,
}

impl View for Component {
    type V = ComponentView;

    open spec fn view(&self) -> ComponentView {
        ComponentView {
            name: self.name@,
            class_name: self.class_name@,
            package: self.package@,
            component_type: self.component_type@,
            exported: self.exported,
            actions: views(self.actions@),
            categories: views(self.categories@),
            data_schemes: views(self.data_schemes@),
            data_hosts: views(self.data_hosts@),
            data_paths: views(self.data_paths@),
            data_mime_types: views(self.data_mime_types@),
            permissions: views(self.permissions@),
            intent_filter_permissions: views(self.intent_filter_permissions@),
            manifest_dir: self.manifest_dir@,
            shared_user_id: optional_view(self.shared_user_id),
            manifest_path: self.manifest_path@,
            manifest_line: self.manifest_line as nat,
            xml_element: optional_view(self.xml_element),
        }
    }
}

impl ComponentView {
    /// No facet of the intent filters holds a value twice.
    pub open spec fn well_formed(self) -> bool {
        &&& self.actions.no_duplicates()
        &&& self.categories.no_duplicates()
        &&& self.data_schemes.no_duplicates()
        &&& self.data_hosts.no_duplicates()
        &&& self.data_paths.no_duplicates()
        &&& self.data_mime_types.no_duplicates()
    }

    /// The kind is one of the four that a manifest can declare.
    pub open spec fn kind_is_known(self) -> bool {
        is_component_kind(self.component_type)
    }
}

/// `kind` is one of `activity`, `service`, `receiver`, `provider`.
pub open spec fn is_component_kind(kind: Seq<char>) -> bool {
    kind == "activity"@ || kind == "service"@ || kind == "receiver"@ || kind == "provider"@
}

/// The kind that a source path names with one of its directories.
pub open spec fn kind_in_path(path: Seq<char>) -> Option<Seq<char>> {
    if has_substring(path, "/activity/"@) {
        Some("activity"@)
    } else if has_substring(path, "/service/"@) {
        Some("service"@)
    } else if has_substring(path, "/receiver/"@) {
        Some("receiver"@)
    } else if has_substring(path, "/provider/"@) {
        Some("provider"@)
    } else {
        None
    }
}

/// The file name of a path: its text after the last `/`.
pub open spec fn path_file(path: Seq<char>) -> Seq<char> {
    after_last(path, '/')
}

/// The name of the directory that holds the file of a path.
pub open spec fn path_package(path: Seq<char>) -> Seq<char> {
    after_last(before_last(path, '/'), '/')
}

/// The file name ends in `.java` or `.kt`.
pub open spec fn is_source_file_name(file: Seq<char>) -> bool {
    ".java"@.is_suffix_of(file) || ".kt"@.is_suffix_of(file)
}

/// The component that a source path stands for: its kind is named by a
/// directory of the path, its package is the directory of the file, its class
/// is the file name up to the first dot. Paths without a `/`, without a kind
/// or without a source-code extension stand for none.
pub open spec fn component_of_path(path: Seq<char>) -> Option<ComponentView> {
    let file = path_file(path);
    let package = path_package(path);
    let class_name = before_first(file, '.');
    if has_char(path, '/') && kind_in_path(path) is Some && is_source_file_name(file) {
        Some(
            ComponentView {
                name: package + "."@ + class_name,
                class_name,
                package,
                component_type: kind_in_path(path)->0,
                exported: false,
                actions: Seq::empty(),
                categories: Seq::empty(),
                data_schemes: Seq::empty(),
                data_hosts: Seq::empty(),
                data_paths: Seq::empty(),
                data_mime_types: Seq::empty(),
                permissions: Seq::empty(),
                intent_filter_permissions: Seq::empty(),
                manifest_dir: Seq::empty(),
                shared_user_id: None,
                manifest_path: Seq::empty(),
                manifest_line: 0,
                xml_element: None,
            },
        )
    } else {
        None
    }
}

/// The kind that `path` names with one of its directories.
fn kind_of_path(path: &str) -> (kind: Option<String>)
    ensures
        optional_view(kind) == kind_in_path(path@),
{
    if str_contains(path, "/activity/") {
        Some(owned("activity"))
    } else if str_contains(path, "/service/") {
        Some(owned("service"))
    } else if str_contains(path, "/receiver/") {
        Some(owned("receiver"))
    } else if str_contains(path, "/provider/") {
        Some(owned("provider"))
    } else {
        None
    }
}

impl Component {
    /// A component with the given fields. Each facet keeps the first
    /// occurrence of every value, in the order given.
    pub fn new(
        name: String,
        package: String,
        component_type: String,
        exported: bool,
        manifest_dir: String,
        manifest_path: String,
        manifest_line: usize,
        class_name: String,
        actions: Vec<String>,
        categories: Vec<String>,
        data_schemes: Vec<String>,
        data_hosts: Vec<String>,
        data_paths: Vec<String>,
        data_mime_types: Vec<String>,
        permissions: Vec<String>,
        intent_filter_permissions: Vec<String>,
        shared_user_id: Option<String>,
        xml_element: Option<String>,
    ) -> (component: Self)
        ensures
            component@ == (ComponentView {
                name: name@,
                class_name: class_name@,
                package: package@,
                component_type: component_type@,
                exported,
                actions: distinct(views(actions@)),
                categories: distinct(views(categories@)),
                data_schemes: distinct(views(data_schemes@)),
                data_hosts: distinct(views(data_hosts@)),
                data_paths: distinct(views(data_paths@)),
                data_mime_types: distinct(views(data_mime_types@)),
                permissions: views(permissions@),
                intent_filter_permissions: views(intent_filter_permissions@),
                manifest_dir: manifest_dir@,
                shared_user_id: optional_view(shared_user_id),
                manifest_path: manifest_path@,
                manifest_line: manifest_line as nat,
                xml_element: optional_view(xml_element),
            }),
            component@.well_formed(),
    {
        proof {
            crate::text::lemma_distinct(views(actions@));
            crate::text::lemma_distinct(views(categories@));
            crate::text::lemma_distinct(views(data_schemes@));
            crate::text::lemma_distinct(views(data_hosts@));
            crate::text::lemma_distinct(views(data_paths@));
            crate::text::lemma_distinct(views(data_mime_types@));
        }
        Component {
            name,
            class_name,
            package,
            component_type,
            exported,
            actions: dedup_texts(actions),
            categories: dedup_texts(categories),
            data_schemes: dedup_texts(data_schemes),
            data_hosts: dedup_texts(data_hosts),
            data_paths: dedup_texts(data_paths),
            data_mime_types: dedup_texts(data_mime_types),
            permissions,
            intent_filter_permissions,
            manifest_dir,
            shared_user_id,
            manifest_path,
            manifest_line,
            xml_element,
        }
    }

    /// The component that the source file at `path` stands for, if any.
    pub fn from_path(path: &str) -> (found: Option<Self>)
        ensures
            match found {
                Some(component) => component_of_path(path@) == Some(component@)
                    && component@.well_formed() && component@.kind_is_known(),
                None => component_of_path(path@) is None,
            },
    {
        let chars = to_chars(path);
        let whole = chars.as_slice();
        let file_begin = last_part_begin(whole, '/');
        if file_begin == 0 {
            return None;
        }
        let kind = match kind_of_path(path) {
            Some(kind) => kind,
            None => {
                return None;
            },
        };
        let file = slice_subrange(whole, file_begin, whole.len());
        let java = to_chars(".java");
        let kotlin = to_chars(".kt");
        if !ends_with(file, java.as_slice()) && !ends_with(file, kotlin.as_slice()) {
            return None;
        }
        let directory = slice_subrange(whole, 0, file_begin - 1);
        let package_begin = last_part_begin(directory, '/');
        let package = from_chars(directory, package_begin, directory.len());
        let class_end = first_part_end(file, '.');
        let class_name = from_chars(file, 0, class_end);
        let mut name = package.clone();
        name.append(".");
        name.append(class_name.as_str());
        let component = Component {
            name,
            class_name,
            package,
            component_type: kind,
            exported: false,
            actions: Vec::new(),
            categories: Vec::new(),
            data_schemes: Vec::new(),
            data_hosts: Vec::new(),
            data_paths: Vec::new(),
            data_mime_types: Vec::new(),
            permissions: Vec::new(),
            intent_filter_permissions: Vec::new(),
            manifest_dir: String::new(),
            shared_user_id: None,
            manifest_path: String::new(),
            manifest_line: 0,
            xml_element: None,
        };
        proof {
            let view = component_of_path(path@)->0;
            assert(component@.actions =~= view.actions);
            assert(component@.categories =~= view.categories);
            assert(component@.data_schemes =~= view.data_schemes);
            assert(component@.data_hosts =~= view.data_hosts);
            assert(component@.data_paths =~= view.data_paths);
            assert(component@.data_mime_types =~= view.data_mime_types);
            assert(component@.permissions =~= view.permissions);
            assert(component@.intent_filter_permissions =~= view.intent_filter_permissions);
        }
        Some(component)
    }

    /// Records the shared user id of the application that declares the
    /// component; nothing else changes.
    pub fn set_shared_user_id(&mut self, shared_user_id: String)
        ensures
            final(self)@ == (ComponentView {
                shared_user_id: Some(shared_user_id@),
                ..old(self)@
            }),
    {
        self.shared_user_id = Some(shared_user_id);
    }
}

impl Clone for Component {
    fn clone(&self) -> (copy: Self)
        ensures
            copy@ == self@,
    {
        Component {
            name: self.name.clone(),
            class_name: self.class_name.clone(),
            package: self.package.clone(),
            component_type: self.component_type.clone(),
            exported: self.exported,
            actions: clone_texts(&self.actions),
            categories: clone_texts(&self.categories),
            data_schemes: clone_texts(&self.data_schemes),
            data_hosts: clone_texts(&self.data_hosts),
            data_paths: clone_texts(&self.data_paths),
            data_mime_types: clone_texts(&self.data_mime_types),
            permissions: clone_texts(&self.permissions),
            intent_filter_permissions: clone_texts(&self.intent_filter_permissions),
            manifest_dir: self.manifest_dir.clone(),
            shared_user_id: clone_optional(&self.shared_user_id),
            manifest_path: self.manifest_path.clone(),
            manifest_line: self.manifest_line,
            xml_element: clone_optional(&self.xml_element),
        }
    }
}

} // verus!
