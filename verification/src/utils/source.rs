//! Location of the source file of a component, and the parameters that the
//! syntax tree of a source file shows.

use crate::manifest::component::Component;
use crate::text::{
    after_last, before_last, contains, contains_char, ends_with, from_chars,
    has_char, has_substring, last_part_begin, lowercase, optional_view, owned, same_chars,
    skip_run, skip_run_back, starts_with, str_contains, str_eq, to_chars, to_lowercase,
    trim_both, views,
};
use tree_sitter::{Node, Parser, Query, QueryCapture, QueryCursor};
use tree_sitter_java::language;
use vstd::prelude::*;
use vstd::slice::slice_subrange;
use vstd::string::*;

verus! {

/// The file name of a path: its text after the last `/`.
pub open spec fn file_name_of(path: Seq<char>) -> Seq<char> {
    after_last(path, '/')
}

/// The file name has an extension: a dot that is not its first character.
pub open spec fn has_extension(file: Seq<char>) -> bool {
    has_char(file, '.') && before_last(file, '.').len() > 0
}

/// The file name without its extension.
pub open spec fn stem_of(file: Seq<char>) -> Seq<char> {
    if has_extension(file) {
        before_last(file, '.')
    } else {
        file
    }
}

/// The extension of a file name: its text after the last dot.
pub open spec fn extension_of(file: Seq<char>) -> Option<Seq<char>> {
    if has_extension(file) {
        Some(after_last(file, '.'))
    } else {
        None
    }
}

/// The path names a file of source code: the lower-case form of its
/// extension is `java` or `kt`.
pub open spec fn is_source_path(path: Seq<char>) -> bool {
    extension_of(file_name_of(path)) matches Some(extension) && (lowercase(extension) == "java"@
        || lowercase(extension) == "kt"@)
}

/// The path lies in the directory or below it: the directory is in front of
/// it and ends where one of its components ends.
pub open spec fn is_under(path: Seq<char>, directory: Seq<char>) -> bool {
    &&& directory.is_prefix_of(path)
    &&& directory.len() == 0 || directory.last() == '/' || path.len() == directory.len()
        || path[directory.len() as int] == '/'
}

/// The simple name of a class: the text after the last dot of its name.
pub open spec fn simple_name(name: Seq<char>) -> Seq<char> {
    after_last(name, '.')
}

/// One file of the index: the name it is found under, and where it lies.
#[derive(Debug)]
pub struct IndexedFile {
    pub name: String,
    pub path: String,
}

/// What an `IndexedFile` holds.
pub struct IndexedFileView {
    pub name: Seq<char>,
    pub path: Seq<char>,
}

impl View for IndexedFile {
    type V = IndexedFileView;

    open spec fn view(&self) -> IndexedFileView {
        IndexedFileView { name: self.name@, path: self.path@ }
    }
}

/// Why no source file was found for a component.
#[derive(Debug, Clone, Copy, PartialEq, Eq, Structural)]
pub enum SourceNotFound {
    /// No file of the index comes into question.
    NoCandidate,
    /// More than one file comes into question.
    Ambiguous,
}

/// The paths of the files indexed under exactly `name`, in order.
pub open spec fn exact_candidates(files: Seq<IndexedFileView>, name: Seq<char>) -> Seq<Seq<char>>
    decreases files.len(),
{
    if files.len() == 0 {
        Seq::empty()
    } else {
        let front = exact_candidates(files.drop_last(), name);
        if files.last().name == name {
            front.push(files.last().path)
        } else {
            front
        }
    }
}

/// A file comes into question for `name` where one of the two names holds
/// the other, and the file lies under the directory.
pub open spec fn is_partial_candidate(file: IndexedFileView, name: Seq<char>, directory: Seq<char>) -> bool {
    (has_substring(file.name, name) || has_substring(name, file.name)) && is_under(
        file.path,
        directory,
    )
}

/// The paths of the files that come into question for `name`, in order.
pub open spec fn partial_candidates(
    files: Seq<IndexedFileView>,
    name: Seq<char>,
    directory: Seq<char>,
) -> Seq<Seq<char>>
    decreases files.len(),
{
    if files.len() == 0 {
        Seq::empty()
    } else {
        let front = partial_candidates(files.drop_last(), name, directory);
        if is_partial_candidate(files.last(), name, directory) {
            front.push(files.last().path)
        } else {
            front
        }
    }
}

/// The source file of the class `name`: the only file indexed under its
/// simple name, or else the only file that comes into question for it.
pub open spec fn located(files: Seq<IndexedFileView>, directory: Seq<char>, name: Seq<char>) -> Result<
    Seq<char>,
    SourceNotFound,
> {
    let wanted = simple_name(name);
    let exact = exact_candidates(files, wanted);
    let partial = partial_candidates(files, wanted, directory);
    if exact.len() == 1 {
        Ok(exact[0])
    } else if partial.len() == 1 {
        Ok(partial[0])
    } else if partial.len() == 0 {
        Err(SourceNotFound::NoCandidate)
    } else {
        Err(SourceNotFound::Ambiguous)
    }
}

/// One of the files lies at `path`.
pub open spec fn holds_path(files: Seq<IndexedFileView>, path: Seq<char>) -> bool {
    exists|i: int| 0 <= i < files.len() && (#[trigger] files[i]).path == path
}

/// No two files of the index lie at the same path.
pub open spec fn paths_distinct(files: Seq<IndexedFileView>) -> bool {
    forall|i: int, j: int|
        0 <= i < j < files.len() ==> (#[trigger] files[i]).path != (#[trigger] files[j]).path
}

/// The index after `path` was offered to it: a source file that the index
/// does not hold yet is added under its stem, any other path is passed over.
pub open spec fn index_with(files: Seq<IndexedFileView>, path: Seq<char>) -> Seq<IndexedFileView> {
    if is_source_path(path) && !holds_path(files, path) {
        files.push(IndexedFileView { name: stem_of(file_name_of(path)), path })
    } else {
        files
    }
}

/// The index that holds the source files among `paths`, in order.
pub open spec fn index_of(paths: Seq<Seq<char>>) -> Seq<IndexedFileView>
    decreases paths.len(),
{
    if paths.len() == 0 {
        Seq::empty()
    } else {
        index_with(index_of(paths.drop_last()), paths.last())
    }
}

/// Offering a path keeps the paths of an index distinct.
pub proof fn lemma_index_with_distinct(files: Seq<IndexedFileView>, path: Seq<char>)
    requires
        paths_distinct(files),
    ensures
        paths_distinct(index_with(files, path)),
{
}

/// An index built from paths holds every path once, however often it was
/// offered.
pub proof fn lemma_index_distinct(paths: Seq<Seq<char>>)
    ensures
        paths_distinct(index_of(paths)),
    decreases paths.len(),
{
    if paths.len() > 0 {
        lemma_index_distinct(paths.drop_last());
        lemma_index_with_distinct(index_of(paths.drop_last()), paths.last());
    }
}

/// Whether `path` lies in `directory` or below it.
pub fn lies_under(path: &[char], directory: &[char]) -> (under: bool)
    ensures
        under == is_under(path@, directory@),
{
    if !starts_with(path, directory) {
        return false;
    }
    directory.len() == 0 || directory[directory.len() - 1] == '/' || path.len() == directory.len()
        || path[directory.len()] == '/'
}

/// The stem of the file that `path` names, where it is a file of source code.
pub fn source_stem(path: &str) -> (stem: Option<String>)
    ensures
        match stem {
            Some(stem) => is_source_path(path@) && stem@ == stem_of(file_name_of(path@)),
            None => !is_source_path(path@),
        },
{
    let chars = to_chars(path);
    let whole = chars.as_slice();
    let begin = last_part_begin(whole, '/');
    let file = slice_subrange(whole, begin, whole.len());
    let dot = last_part_begin(file, '.');
    if dot <= 1 {
        return None;
    }
    let extension = to_lowercase(from_chars(file, dot, file.len()).as_str());
    if str_eq(extension.as_str(), "java") || str_eq(extension.as_str(), "kt") {
        Some(from_chars(file, 0, dot - 1))
    } else {
        None
    }
}

/// The index of the source files of a project, with the directory of the
/// manifest that the project is read from.
#[derive(Debug)]
pub struct SourceFileCache {
    files: Vec<IndexedFile>,
    manifest_dir: String,
}

/// What a `SourceFileCache` holds.
pub struct SourceFileCacheView {
    pub files: Seq<IndexedFileView>,
    pub manifest_dir: Seq<char>,
}

impl View for SourceFileCache {
    type V = SourceFileCacheView;

    closed spec fn view(&self) -> SourceFileCacheView {
        SourceFileCacheView { files: views(self.files@), manifest_dir: self.manifest_dir@ }
    }
}

impl SourceFileCache {
    /// An empty index for the project whose manifest lies in `manifest_dir`.
    pub fn new(manifest_dir: &str) -> (cache: Self)
        ensures
            cache@ == (SourceFileCacheView { files: Seq::empty(), manifest_dir: manifest_dir@ }),
            paths_distinct(cache@.files),
    {
        let cache = SourceFileCache { files: Vec::new(), manifest_dir: owned(manifest_dir) };
        assert(cache@.files =~= Seq::empty());
        cache
    }

    /// Whether the index holds a file at `path`.
    pub fn holds(&self, path: &str) -> (held: bool)
        ensures
            held == holds_path(self@.files, path@),
    {
        let mut i: usize = 0;
        while i < self.files.len()
            invariant
                i <= self.files@.len(),
                forall|j: int| 0 <= j < i ==> (#[trigger] views(self.files@)[j]).path != path@,
            decreases self.files@.len() - i,
        {
            assert(views(self.files@)[i as int] == self.files@[i as int]@);
            if str_eq(self.files[i].path.as_str(), path) {
                return true;
            }
            i += 1;
        }
        false
    }

    /// Offers a path found under the project root to the index.
    pub fn add_file(&mut self, path: &str)
        ensures
            final(self)@ == (SourceFileCacheView {
                files: index_with(old(self)@.files, path@),
                ..old(self)@
            }),
            paths_distinct(old(self)@.files) ==> paths_distinct(final(self)@.files),
    {
        proof {
            if paths_distinct(self@.files) {
                lemma_index_with_distinct(self@.files, path@);
            }
        }
        match source_stem(path) {
            Some(name) => {
                if !self.holds(path) {
                    let ghost before = self.files@;
                    let file = IndexedFile { name, path: owned(path) };
                    self.files.push(file);
                    assert(views(self.files@) =~= views(before).push(file@));
                }
            },
            None => {},
        }
    }

    /// The source file of a component, or why there is none.
    pub fn locate(&self, component: &Component) -> (found: Result<String, SourceNotFound>)
        ensures
            match found {
                Ok(path) => located(self@.files, self@.manifest_dir, component@.name) == Ok::<
                    Seq<char>,
                    SourceNotFound,
                >(path@),
                Err(error) => located(self@.files, self@.manifest_dir, component@.name) == Err::<
                    Seq<char>,
                    SourceNotFound,
                >(error),
            },
    {
        let name = to_chars(component.name.as_str());
        let begin = last_part_begin(name.as_slice(), '.');
        let wanted = slice_subrange(name.as_slice(), begin, name.len());
        let directory = to_chars(self.manifest_dir.as_str());
        let mut exact: Vec<String> = Vec::new();
        let mut partial: Vec<String> = Vec::new();
        let mut i: usize = 0;
        let ghost files = views(self.files@);
        assert(files.subrange(0, 0) =~= Seq::<IndexedFileView>::empty());
        assert(views(exact@) =~= Seq::<Seq<char>>::empty());
        assert(views(partial@) =~= Seq::<Seq<char>>::empty());
        while i < self.files.len()
            invariant
                i <= self.files@.len(),
                files == views(self.files@),
                wanted@ == simple_name(component@.name),
                directory@ == self.manifest_dir@,
                views(exact@) == exact_candidates(files.subrange(0, i as int), wanted@),
                views(partial@) == partial_candidates(
                    files.subrange(0, i as int),
                    wanted@,
                    directory@,
                ),
            decreases self.files@.len() - i,
        {
            let ghost upto = files.subrange(0, i + 1);
            assert(upto.drop_last() =~= files.subrange(0, i as int));
            assert(upto.last() == self.files@[i as int]@);
            let file = &self.files[i];
            let file_name = to_chars(file.name.as_str());
            if same_chars(file_name.as_slice(), wanted) {
                let ghost before = exact@;
                exact.push(file.path.clone());
                assert(views(exact@) =~= views(before).push(file.path@));
            }
            if contains(file_name.as_slice(), wanted) || contains(wanted, file_name.as_slice()) {
                let path = to_chars(file.path.as_str());
                if lies_under(path.as_slice(), directory.as_slice()) {
                    let ghost before = partial@;
                    partial.push(file.path.clone());
                    assert(views(partial@) =~= views(before).push(file.path@));
                }
            }
            i += 1;
        }
        assert(files.subrange(0, self.files@.len() as int) =~= files);
        if exact.len() == 1 {
            assert(views(exact@)[0] == exact@[0]@);
            Ok(exact[0].clone())
        } else if partial.len() == 1 {
            assert(views(partial@)[0] == partial@[0]@);
            Ok(partial[0].clone())
        } else if partial.len() == 0 {
            Err(SourceNotFound::NoCandidate)
        } else {
            Err(SourceNotFound::Ambiguous)
        }
    }

    /// The source file of a component, if exactly one comes into question.
    pub fn find_component_file(&self, component: &Component) -> (found: Option<String>)
        ensures
            match found {
                Some(path) => located(self@.files, self@.manifest_dir, component@.name) == Ok::<
                    Seq<char>,
                    SourceNotFound,
                >(path@),
                None => located(self@.files, self@.manifest_dir, component@.name) is Err,
            },
    {
        match self.locate(component) {
            Ok(path) => Some(path),
            Err(_) => None,
        }
    }
}

/// The source file of a component among the files found under the directory
/// of its manifest, or why there is none.
pub fn find_source_file(component: &Component, paths: &Vec<String>) -> (found: Result<
    String,
    SourceNotFound,
>)
    ensures
        match found {
            Ok(path) => located(index_of(views(paths@)), component@.manifest_dir, component@.name)
                == Ok::<Seq<char>, SourceNotFound>(path@),
            Err(error) => located(
                index_of(views(paths@)),
                component@.manifest_dir,
                component@.name,
            ) == Err::<Seq<char>, SourceNotFound>(error),
        },
{
    let mut cache = SourceFileCache::new(component.manifest_dir.as_str());
    let mut i: usize = 0;
    assert(views(paths@).subrange(0, 0) =~= Seq::<Seq<char>>::empty());
    while i < paths.len()
        invariant
            i <= paths@.len(),
            cache@.manifest_dir == component@.manifest_dir,
            cache@.files == index_of(views(paths@).subrange(0, i as int)),
        decreases paths@.len() - i,
    {
        let ghost upto = views(paths@).subrange(0, i + 1);
        assert(upto.drop_last() =~= views(paths@).subrange(0, i as int));
        assert(upto.last() == paths@[i as int]@);
        cache.add_file(paths[i].as_str());
        i += 1;
    }
    assert(views(paths@).subrange(0, paths@.len() as int) =~= views(paths@));
    cache.locate(component)
}

/// A parameter that the syntax tree of a source file shows: the key under
/// which an extra is read, its value or a placeholder for it, the type that
/// the accessor implies, and the accessor itself.
#[derive(Debug)]
pub struct IntentParameter {
    pub name: String,
    pub value: String,
    pub type_: String,
    pub method: String,
}

/// What a parameter of a syntax tree holds.
pub struct SourceParameterView {
    pub name: Seq<char>,
    pub value: Seq<char>,
    pub type_: Seq<char>,
    pub method: Seq<char>,
}

impl View for IntentParameter {
    type V = SourceParameterView;

    open spec fn view(&self) -> SourceParameterView {
        SourceParameterView {
            name: self.name@,
            value: self.value@,
            type_: self.type_@,
            method: self.method@,
        }
    }
}

impl Clone for IntentParameter {
    fn clone(&self) -> (copy: Self)
        ensures
            copy@ == self@,
    {
        IntentParameter {
            name: self.name.clone(),
            value: self.value.clone(),
            type_: self.type_.clone(),
            method: self.method.clone(),
        }
    }
}

/// A node of a syntax tree, reduced to its kind and the text it spans where
/// that is legible.
#[derive(Debug)]
pub struct Piece {
    pub kind: String,
    pub text: Option<String>,
}

/// What a `Piece` holds.
pub struct PieceView {
    pub kind: Seq<char>,
    pub text: Option<Seq<char>>,
}

impl View for Piece {
    type V = PieceView;

    open spec fn view(&self) -> PieceView {
        PieceView { kind: self.kind@, text: optional_view(self.text) }
    }
}

/// A node that a query has captured: the name it was captured under, the
/// node itself and its children.
#[derive(Debug)]
pub struct Capture {
    pub name: String,
    pub piece: Piece,
    pub children: Vec<Piece>,
}

/// What a `Capture` holds.
pub struct CaptureView {
    pub name: Seq<char>,
    pub piece: PieceView,
    pub children: Seq<PieceView>,
}

impl View for Capture {
    type V = CaptureView;

    open spec fn view(&self) -> CaptureView {
        CaptureView { name: self.name@, piece: self.piece@, children: views(self.children@) }
    }
}

/// One match of a query: its captures, in the order of the pattern.
#[derive(Debug)]
pub struct QueryMatch {
    pub captures: Vec<Capture>,
}

impl View for QueryMatch {
    type V = Seq<CaptureView>;

    open spec fn view(&self) -> Seq<CaptureView> {
        views(self.captures@)
    }
}

/// The source could not be parsed or queried.
#[derive(Debug, Clone, Copy, PartialEq, Eq, Structural)]
pub enum ParseFailure {
    /// The parser gave no tree, or took neither the grammar nor the pattern.
    NoTree,
}

/// The pattern that finds every invocation of a method, whatever it is
/// invoked on: the name of the method and the argument list are captured.
pub open spec fn invocation_pattern() -> Seq<char> {
    "(method_invocation name: (identifier) @name arguments: (argument_list) @arguments)"@
}

/// A syntax tree of `tree_sitter`.
#[verifier::external_type_specification]
#[verifier::external_body]
pub struct ExTree(tree_sitter::Tree);

/// A compiled query of `tree_sitter`.
#[verifier::external_type_specification]
#[verifier::external_body]
pub struct ExQuery(tree_sitter::Query);

/// The syntax tree that the Java grammar gives for a source; `None` where
/// the parser gives none.
pub uninterp spec fn java_tree(source: Seq<char>) -> Option<tree_sitter::Tree>;

/// The query that a pattern compiles to under the Java grammar; `None`
/// where the pattern is not a query.
pub uninterp spec fn java_query(pattern: Seq<char>) -> Option<tree_sitter::Query>;

/// The matches of a query in the syntax tree of a source, in the order in
/// which the query engine reports them.
pub uninterp spec fn tree_matches(
    tree: tree_sitter::Tree,
    query: tree_sitter::Query,
    source: Seq<char>,
) -> Seq<Seq<CaptureView>>;

/// The matches of a pattern in the syntax tree of a Java source; `None`
/// where the source cannot be parsed or the pattern cannot be compiled.
pub open spec fn java_query_matches(source: Seq<char>, pattern: Seq<char>) -> Option<
    Seq<Seq<CaptureView>>,
> {
    match (java_tree(source), java_query(pattern)) {
        (Some(tree), Some(query)) => Some(tree_matches(tree, query, source)),
        _ => None,
    }
}

/// `tree_sitter::Parser::parse` under the grammar of `tree_sitter_java`.
/// The tree depends on the source alone and is named `java_tree`.
#[verifier::external_body]
fn parse_java(source: &str) -> (parsed: Option<tree_sitter::Tree>)
    ensures
        parsed == java_tree(source@),
{
    let mut parser = Parser::new();
    parser.set_language(language()).ok()?;
    parser.parse(source, None)
}

/// `tree_sitter::Query::new` under the grammar of `tree_sitter_java`, for
/// the invocation pattern only: on other texts the compiler of queries may
/// panic. The query depends on the pattern alone and is named `java_query`.
#[verifier::external_body]
fn compile_query(pattern: &str) -> (compiled: Option<tree_sitter::Query>)
    requires
        pattern@ == invocation_pattern(),
    ensures
        compiled == java_query(pattern@),
{
    Query::new(language(), pattern).ok()
}

/// `tree_sitter::QueryCursor::matches` from the root of a tree that was
/// parsed from `source`. Every capture is handed out with its name, its
/// kind, its text and, of each of its children, the kind and the text. The
/// matches depend on the tree, the query and the source alone and are named
/// `tree_matches`.
#[verifier::external_body]
fn run_query(tree: &tree_sitter::Tree, query: &tree_sitter::Query, source: &str) -> (found: Vec<
    QueryMatch,
>)
    requires
        java_tree(source@) == Some(*tree),
    ensures
        views(found@) == tree_matches(*tree, *query, source@),
{
    let text = source.as_bytes();
    let piece = |n: Node| Piece { kind: n.kind().to_string(), text: n.utf8_text(text).ok().map(String::from) };
    let capture = |c: &QueryCapture| Capture {
        name: query.capture_names()[c.index as usize].clone(),
        piece: piece(c.node),
        children: c.node.children(&mut c.node.walk()).map(piece).collect(),
    };
    let mut cursor = QueryCursor::new();
    cursor.matches(query, tree.root_node(), text).map(|m| QueryMatch { captures: m.captures.iter().map(capture).collect() }).collect()
}

/// The matches of the invocation pattern in the syntax tree of a Java
/// source.
fn run_java_query(source: &str) -> (found: Option<Vec<QueryMatch>>)
    ensures
        match found {
            Some(matches) => java_query_matches(source@, invocation_pattern()) == Some(
                views(matches@),
            ),
            None => java_query_matches(source@, invocation_pattern()) is None,
        },
{
    let tree = match parse_java(source) {
        Some(tree) => tree,
        None => {
            return None;
        },
    };
    let pattern =
        "(method_invocation name: (identifier) @name arguments: (argument_list) @arguments)";
    match compile_query(pattern) {
        Some(query) => Some(run_query(&tree, &query, source)),
        None => None,
    }
}

/// The first of `captures` that was captured under `name`.
pub open spec fn capture_named(captures: Seq<CaptureView>, name: Seq<char>) -> Option<CaptureView>
    decreases captures.len(),
{
    if captures.len() == 0 {
        None
    } else {
        match capture_named(captures.drop_last(), name) {
            Some(capture) => Some(capture),
            None => if captures.last().name == name {
                Some(captures.last())
            } else {
                None
            },
        }
    }
}

/// The node is punctuation of an argument list.
pub open spec fn is_list_punctuation(piece: PieceView) -> bool {
    piece.kind == "("@ || piece.kind == ")"@ || piece.kind == ","@
}

/// The arguments among the children of an argument list: every child that
/// is not punctuation, in order.
pub open spec fn arguments(children: Seq<PieceView>) -> Seq<PieceView>
    decreases children.len(),
{
    if children.len() == 0 {
        Seq::empty()
    } else {
        let front = arguments(children.drop_last());
        if is_list_punctuation(children.last()) {
            front
        } else {
            front.push(children.last())
        }
    }
}

/// The text of a node, or `fallback` where it is not legible.
pub open spec fn text_or(piece: PieceView, fallback: Seq<char>) -> Seq<char> {
    match piece.text {
        Some(text) => text,
        None => fallback,
    }
}

/// The accessor reads an extra: its name begins with `get`, ends with
/// `Extra`, and is one line.
pub open spec fn is_extra_getter(method: Seq<char>) -> bool {
    &&& method.len() >= 8
    &&& "get"@.is_prefix_of(method)
    &&& "Extra"@.is_suffix_of(method)
    &&& !has_char(method, '\n')
}

/// The type that the name of an accessor implies.
pub open spec fn inferred_type(method: Seq<char>) -> Seq<char> {
    if has_substring(method, "String"@) {
        "string"@
    } else if has_substring(method, "Int"@) {
        "int"@
    } else if has_substring(method, "Float"@) || has_substring(method, "Double"@) {
        "float"@
    } else if has_substring(method, "Boolean"@) {
        "boolean"@
    } else {
        "unknown"@
    }
}

/// The parameter that stands for the data of an intent.
pub open spec fn data_parameter() -> SourceParameterView {
    SourceParameterView { name: "data"@, value: "uri"@, type_: "uri"@, method: "getData"@ }
}

/// The parameter that a call of the accessor `method` with the arguments
/// `given` shows: the key is the first argument without the quotes around
/// it; the value is the second argument, or the name of the type.
pub open spec fn extra_parameter(method: Seq<char>, given: Seq<PieceView>) -> SourceParameterView {
    let type_ = inferred_type(method);
    SourceParameterView {
        name: trim_both(text_or(given[0], "unknown"@), '"'),
        value: if given.len() > 1 {
            text_or(given[1], type_)
        } else {
            type_
        },
        type_,
        method,
    }
}

/// The arguments that a matched invocation passes.
pub open spec fn passed_arguments(captures: Seq<CaptureView>) -> Seq<PieceView> {
    match capture_named(captures, "arguments"@) {
        Some(list) => arguments(list.children),
        None => Seq::empty(),
    }
}

/// The parameter that a matched invocation shows, if any: a call of
/// `getData` without arguments shows the data parameter; a call of a getter
/// of extras with at least one argument shows an extra.
pub open spec fn match_parameter(captures: Seq<CaptureView>) -> Option<SourceParameterView> {
    match capture_named(captures, "name"@) {
        Some(name) => {
            let method = text_or(name.piece, Seq::empty());
            let given = passed_arguments(captures);
            if method == "getData"@ {
                if given.len() == 0 {
                    Some(data_parameter())
                } else {
                    None
                }
            } else if is_extra_getter(method) && given.len() > 0 {
                Some(extra_parameter(method, given))
            } else {
                None
            }
        },
        None => None,
    }
}

/// Two parameters have the same key, the same type and the same accessor.
pub open spec fn same_identity(a: SourceParameterView, b: SourceParameterView) -> bool {
    a.name == b.name && a.type_ == b.type_ && a.method == b.method
}

/// One of `params` has the identity of `param`.
pub open spec fn holds_identity(params: Seq<SourceParameterView>, param: SourceParameterView) -> bool {
    exists|i: int| 0 <= i < params.len() && same_identity(#[trigger] params[i], param)
}

/// No two of `params` have the same key, type and accessor.
pub open spec fn identities_distinct(params: Seq<SourceParameterView>) -> bool {
    forall|i: int, j: int|
        0 <= i < j < params.len() ==> !same_identity(#[trigger] params[i], #[trigger] params[j])
}

/// The parameters that the matches show, in order: each one once, where it
/// is first shown.
pub open spec fn extracted_parameters(matches: Seq<Seq<CaptureView>>) -> Seq<SourceParameterView>
    decreases matches.len(),
{
    if matches.len() == 0 {
        Seq::empty()
    } else {
        let front = extracted_parameters(matches.drop_last());
        match match_parameter(matches.last()) {
            Some(param) => if holds_identity(front, param) {
                front
            } else {
                front.push(param)
            },
            None => front,
        }
    }
}

/// The extracted parameters never hold two of the same key, type and
/// accessor.
pub proof fn lemma_extracted_distinct(matches: Seq<Seq<CaptureView>>)
    ensures
        identities_distinct(extracted_parameters(matches)),
    decreases matches.len(),
{
    if matches.len() > 0 {
        lemma_extracted_distinct(matches.drop_last());
    }
}

/// The position of the first of `captures` that was captured under `name`.
fn find_capture(captures: &Vec<Capture>, name: &str) -> (found: Option<usize>)
    ensures
        match found {
            Some(at) => at < captures@.len() && capture_named(views(captures@), name@) == Some(
                captures@[at as int]@,
            ),
            None => capture_named(views(captures@), name@) is None,
        },
{
    let mut found: Option<usize> = None;
    let mut i: usize = 0;
    let ghost all = views(captures@);
    assert(all.subrange(0, 0) =~= Seq::<CaptureView>::empty());
    while i < captures.len()
        invariant
            i <= captures@.len(),
            all == views(captures@),
            match found {
                Some(at) => at < i && capture_named(all.subrange(0, i as int), name@) == Some(
                    captures@[at as int]@,
                ),
                None => capture_named(all.subrange(0, i as int), name@) is None,
            },
        decreases captures@.len() - i,
    {
        let ghost upto = all.subrange(0, i + 1);
        assert(upto.drop_last() =~= all.subrange(0, i as int));
        assert(upto.last() == captures@[i as int]@);
        if found.is_none() && str_eq(captures[i].name.as_str(), name) {
            found = Some(i);
        }
        i += 1;
    }
    assert(all.subrange(0, captures@.len() as int) =~= all);
    found
}

/// The positions of the arguments among the children of an argument list.
fn argument_positions(children: &Vec<Piece>) -> (positions: Vec<usize>)
    ensures
        positions@.len() == arguments(views(children@)).len(),
        forall|k: int|
            0 <= k < positions@.len() ==> #[trigger] positions@[k] < children@.len()
                && children@[positions@[k] as int]@ == arguments(views(children@))[k],
{
    let mut positions: Vec<usize> = Vec::new();
    let mut i: usize = 0;
    let ghost all = views(children@);
    assert(all.subrange(0, 0) =~= Seq::<PieceView>::empty());
    while i < children.len()
        invariant
            i <= children@.len(),
            all == views(children@),
            positions@.len() == arguments(all.subrange(0, i as int)).len(),
            forall|k: int|
                0 <= k < positions@.len() ==> #[trigger] positions@[k] < i
                    && children@[positions@[k] as int]@ == arguments(all.subrange(0, i as int))[k],
        decreases children@.len() - i,
    {
        let ghost shorter = arguments(all.subrange(0, i as int));
        let ghost upto = all.subrange(0, i + 1);
        assert(upto.drop_last() =~= all.subrange(0, i as int));
        assert(upto.last() == children@[i as int]@);
        let kind = children[i].kind.as_str();
        let ghost listed = positions@;
        if !(str_eq(kind, "(") || str_eq(kind, ")") || str_eq(kind, ",")) {
            positions.push(i);
            assert(arguments(upto) == shorter.push(children@[i as int]@));
        } else {
            assert(arguments(upto) == shorter);
        }
        assert forall|k: int| 0 <= k < positions@.len() implies #[trigger] positions@[k] < i + 1
            && children@[positions@[k] as int]@ == arguments(upto)[k] by {
            if k < listed.len() {
                assert(positions@[k] == listed[k]);
                assert(arguments(upto)[k] == shorter[k]);
            }
        }
        i += 1;
    }
    assert(all.subrange(0, children@.len() as int) =~= all);
    positions
}

/// The text of a node, or `fallback` where it is not legible.
fn text_of_piece(piece: &Piece, fallback: &str) -> (text: String)
    ensures
        text@ == text_or(piece@, fallback@),
{
    match &piece.text {
        Some(text) => text.clone(),
        None => owned(fallback),
    }
}

/// Whether the accessor reads an extra.
fn reads_extra(method: &[char]) -> (reads: bool)
    ensures
        reads == is_extra_getter(method@),
{
    let get = to_chars("get");
    let extra = to_chars("Extra");
    method.len() >= 8 && starts_with(method, get.as_slice()) && ends_with(method, extra.as_slice())
        && !contains_char(method, '\n')
}

/// The type that the name of an accessor implies.
fn infer_type(method: &str) -> (type_: String)
    ensures
        type_@ == inferred_type(method@),
{
    if str_contains(method, "String") {
        owned("string")
    } else if str_contains(method, "Int") {
        owned("int")
    } else if str_contains(method, "Float") || str_contains(method, "Double") {
        owned("float")
    } else if str_contains(method, "Boolean") {
        owned("boolean")
    } else {
        owned("unknown")
    }
}

/// `text` without the runs of `c` at both ends.
pub fn trim_matches(text: &str, c: char) -> (trimmed: String)
    ensures
        trimmed@ == trim_both(text@, c),
{
    let chars = to_chars(text);
    let whole = chars.as_slice();
    let begin = skip_run(whole, c, 0);
    assert(whole@.subrange(0, whole@.len() as int) =~= whole@);
    let rest = slice_subrange(whole, begin, whole.len());
    let end = skip_run_back(rest, c, rest.len());
    assert(rest@.subrange(0, rest@.len() as int) =~= rest@);
    from_chars(rest, 0, end)
}

/// The view of an optional parameter.
pub open spec fn optional_source_parameter(param: Option<IntentParameter>) -> Option<
    SourceParameterView,
> {
    match param {
        Some(param) => Some(param@),
        None => None,
    }
}

/// The parameter that a matched invocation shows, if any.
pub fn parameter_of_match(found: &QueryMatch) -> (param: Option<IntentParameter>)
    ensures
        optional_source_parameter(param) == match_parameter(found@),
{
    let captures = &found.captures;
    let name = match find_capture(captures, "name") {
        Some(at) => &captures[at],
        None => {
            return None;
        },
    };
    let method = text_of_piece(&name.piece, "");
    proof {
        reveal_strlit("");
        assert(""@ =~= Seq::<char>::empty());
    }
    let list = match find_capture(captures, "arguments") {
        Some(at) => Some(&captures[at]),
        None => None,
    };
    if str_eq(method.as_str(), "getData") {
        let passes_none = match list {
            Some(list) => argument_positions(&list.children).len() == 0,
            None => true,
        };
        if passes_none {
            return Some(
                IntentParameter {
                    name: owned("data"),
                    value: owned("uri"),
                    type_: owned("uri"),
                    method: owned("getData"),
                },
            );
        }
        return None;
    }
    let letters = to_chars(method.as_str());
    if !reads_extra(letters.as_slice()) {
        return None;
    }
    let list = match list {
        Some(list) => list,
        None => {
            return None;
        },
    };
    let positions = argument_positions(&list.children);
    if positions.len() == 0 {
        return None;
    }
    let ghost given = arguments(views(list.children@));
    assert(list.children@[positions@[0] as int]@ == given[0]);
    let type_ = infer_type(method.as_str());
    let key = text_of_piece(&list.children[positions[0]], "unknown");
    let value = if positions.len() > 1 {
        assert(list.children@[positions@[1] as int]@ == given[1]);
        text_of_piece(&list.children[positions[1]], type_.as_str())
    } else {
        type_.clone()
    };
    Some(IntentParameter { name: trim_matches(key.as_str(), '"'), value, type_, method })
}

/// Whether one of `params` has the identity of `param`.
fn has_identity(params: &Vec<IntentParameter>, param: &IntentParameter) -> (found: bool)
    ensures
        found == holds_identity(views(params@), param@),
{
    let mut i: usize = 0;
    while i < params.len()
        invariant
            i <= params@.len(),
            forall|j: int| 0 <= j < i ==> !same_identity(#[trigger] views(params@)[j], param@),
        decreases params@.len() - i,
    {
        let other = &params[i];
        assert(views(params@)[i as int] == other@);
        if str_eq(other.name.as_str(), param.name.as_str()) && str_eq(
            other.type_.as_str(),
            param.type_.as_str(),
        ) && str_eq(other.method.as_str(), param.method.as_str()) {
            return true;
        }
        i += 1;
    }
    false
}

/// The parameters that the matches of the invocation pattern show: extras
/// read through a getter, and the data of the intent. No two of them have
/// the same key, type and accessor; of several such, the first one shown
/// stays.
pub fn parameters_of_matches(matches: &Vec<QueryMatch>) -> (params: Vec<IntentParameter>)
    ensures
        views(params@) == extracted_parameters(views(matches@)),
        identities_distinct(views(params@)),
{
    let mut params: Vec<IntentParameter> = Vec::new();
    let mut i: usize = 0;
    let ghost all = views(matches@);
    assert(all.subrange(0, 0) =~= Seq::<Seq<CaptureView>>::empty());
    assert(views(params@) =~= Seq::<SourceParameterView>::empty());
    while i < matches.len()
        invariant
            i <= matches@.len(),
            all == views(matches@),
            views(params@) == extracted_parameters(all.subrange(0, i as int)),
        decreases matches@.len() - i,
    {
        let ghost upto = all.subrange(0, i + 1);
        assert(upto.drop_last() =~= all.subrange(0, i as int));
        assert(upto.last() == matches@[i as int]@);
        match parameter_of_match(&matches[i]) {
            Some(param) => {
                if !has_identity(&params, &param) {
                    let ghost before = params@;
                    params.push(param);
                    assert(views(params@) =~= views(before).push(param@));
                }
            },
            None => {},
        }
        i += 1;
    }
    proof {
        assert(all.subrange(0, matches@.len() as int) =~= all);
        lemma_extracted_distinct(all);
    }
    params
}

/// The parameters that a Java source shows in its invocations of intent
/// accessors, or `NoTree` where the source cannot be parsed.
pub fn parse_intent_parameters(source: &str) -> (parsed: Result<Vec<IntentParameter>, ParseFailure>)
    ensures
        match parsed {
            Ok(params) => {
                &&& java_query_matches(source@, invocation_pattern()) matches Some(matches)
                &&& views(params@) == extracted_parameters(matches)
                &&& identities_distinct(views(params@))
            },
            Err(_) => java_query_matches(source@, invocation_pattern()) is None,
        },
{
    match run_java_query(source) {
        Some(matches) => Ok(parameters_of_matches(&matches)),
        None => Err(ParseFailure::NoTree),
    }
}

/// The argument tokens of one parameter, by its type: the data of the
/// intent goes under `-d`, an extra under the option of its type, and an
/// extra of another type as a string. The value of a string loses the
/// quotes around it.
pub open spec fn argument_of(param: SourceParameterView) -> Seq<char> {
    if param.type_ == "uri"@ {
        "-d "@ + param.value
    } else if param.type_ == "string"@ {
        "--es "@ + param.name + " "@ + trim_both(param.value, '"')
    } else if param.type_ == "int"@ {
        "--ei "@ + param.name + " "@ + param.value
    } else if param.type_ == "float"@ {
        "--ef "@ + param.name + " "@ + param.value
    } else if param.type_ == "boolean"@ {
        "--ez "@ + param.name + " "@ + param.value
    } else {
        "--es "@ + param.name + " "@ + param.value
    }
}

/// Two parameters have the same key and the same type.
pub open spec fn same_pair(a: SourceParameterView, b: SourceParameterView) -> bool {
    a.name == b.name && a.type_ == b.type_
}

/// One of `params` has the key and the type of `param`.
pub open spec fn holds_pair(params: Seq<SourceParameterView>, param: SourceParameterView) -> bool {
    exists|i: int| 0 <= i < params.len() && same_pair(#[trigger] params[i], param)
}

/// The argument tokens of the parameters, in order; a parameter whose key
/// and type both stand in an earlier parameter adds nothing.
pub open spec fn adb_arguments(params: Seq<SourceParameterView>) -> Seq<Seq<char>>
    decreases params.len(),
{
    if params.len() == 0 {
        Seq::empty()
    } else {
        let front = adb_arguments(params.drop_last());
        if holds_pair(params.drop_last(), params.last()) {
            front
        } else {
            front.push(argument_of(params.last()))
        }
    }
}

/// Parameters whose pairs of key and type all stand in `params` already add
/// no token behind them.
pub proof fn lemma_known_pairs_add_nothing(
    params: Seq<SourceParameterView>,
    more: Seq<SourceParameterView>,
)
    requires
        forall|i: int| 0 <= i < more.len() ==> holds_pair(params, #[trigger] more[i]),
    ensures
        adb_arguments(params + more) == adb_arguments(params),
    decreases more.len(),
{
    if more.len() == 0 {
        assert(params + more =~= params);
    } else {
        let front = more.drop_last();
        assert forall|i: int| 0 <= i < front.len() implies holds_pair(
            params,
            #[trigger] front[i],
        ) by {
            assert(front[i] == more[i]);
        }
        lemma_known_pairs_add_nothing(params, front);
        assert((params + more).drop_last() =~= params + front);
        assert((params + more).last() == more[more.len() - 1]);
        let last = more[more.len() - 1];
        assert(holds_pair(params, last));
        let at = choose|at: int| 0 <= at < params.len() && same_pair(#[trigger] params[at], last);
        assert((params + front)[at] == params[at]);
    }
}

/// Passing the same parameters twice over gives the tokens of passing them
/// once.
pub proof fn lemma_repeated_parameters_add_nothing(params: Seq<SourceParameterView>)
    ensures
        adb_arguments(params + params) == adb_arguments(params),
{
    assert forall|i: int| 0 <= i < params.len() implies holds_pair(
        params,
        #[trigger] params[i],
    ) by {
        assert(same_pair(params[i], params[i]));
    }
    lemma_known_pairs_add_nothing(params, params);
}

/// The argument tokens of one parameter.
fn argument_for(param: &IntentParameter) -> (argument: String)
    ensures
        argument@ == argument_of(param@),
{
    let kind = param.type_.as_str();
    if str_eq(kind, "uri") {
        let mut argument = owned("-d ");
        argument.append(param.value.as_str());
        return argument;
    }
    let is_text = str_eq(kind, "string");
    let mut argument = if is_text {
        owned("--es ")
    } else if str_eq(kind, "int") {
        owned("--ei ")
    } else if str_eq(kind, "float") {
        owned("--ef ")
    } else if str_eq(kind, "boolean") {
        owned("--ez ")
    } else {
        owned("--es ")
    };
    argument.append(param.name.as_str());
    argument.append(" ");
    if is_text {
        argument.append(trim_matches(param.value.as_str(), '"').as_str());
    } else {
        argument.append(param.value.as_str());
    }
    assert(argument@ =~= argument_of(param@));
    argument
}

/// Whether one of the first `upto` parameters has the key and the type of
/// `param`.
fn has_pair(parameters: &Vec<IntentParameter>, upto: usize, param: &IntentParameter) -> (found:
    bool)
    requires
        upto <= parameters@.len(),
    ensures
        found == holds_pair(views(parameters@).subrange(0, upto as int), param@),
{
    let ghost earlier = views(parameters@).subrange(0, upto as int);
    let mut j: usize = 0;
    while j < upto
        invariant
            j <= upto <= parameters@.len(),
            earlier == views(parameters@).subrange(0, upto as int),
            forall|k: int| 0 <= k < j ==> !same_pair(#[trigger] earlier[k], param@),
        decreases upto - j,
    {
        let other = &parameters[j];
        assert(earlier[j as int] == other@);
        if str_eq(other.name.as_str(), param.name.as_str()) && str_eq(
            other.type_.as_str(),
            param.type_.as_str(),
        ) {
            return true;
        }
        j += 1;
    }
    false
}

/// The argument tokens that pass the parameters to the launcher: one for
/// every pair of key and type, made from the first parameter that has it.
pub fn intent_parameters_to_adb_args(parameters: &Vec<IntentParameter>) -> (arguments: Vec<String>)
    ensures
        views(arguments@) == adb_arguments(views(parameters@)),
{
    let mut arguments: Vec<String> = Vec::new();
    let mut i: usize = 0;
    let ghost all = views(parameters@);
    assert(all.subrange(0, 0) =~= Seq::<SourceParameterView>::empty());
    assert(views(arguments@) =~= Seq::<Seq<char>>::empty());
    while i < parameters.len()
        invariant
            i <= parameters@.len(),
            all == views(parameters@),
            views(arguments@) == adb_arguments(all.subrange(0, i as int)),
        decreases parameters@.len() - i,
    {
        let ghost upto = all.subrange(0, i + 1);
        assert(upto.drop_last() =~= all.subrange(0, i as int));
        assert(upto.last() == parameters@[i as int]@);
        let param = &parameters[i];
        if !has_pair(parameters, i, param) {
            let ghost before = arguments@;
            let argument = argument_for(param);
            arguments.push(argument);
            assert(views(arguments@) =~= views(before).push(argument@));
        }
        i += 1;
    }
    assert(all.subrange(0, parameters@.len() as int) =~= all);
    arguments
}

} // verus!
