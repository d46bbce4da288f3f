//! Reconciliation of the evidence on a component into one parameter set,
//! and the command that it gives.
//!
//! The evidence comes from outside: the files under the project root, the
//! text of the source file, the reply of the inference. `advance` takes one
//! piece of evidence at a time and says what to fetch next, or how the
//! component is resolved.

use crate::llm::analyzer::{
    accepted_params, all_flags_known, basic_params, extract_intent_context, generate_basic_params,
    intent_context, interpret_reply, reply_parameters, validate_adb_command, validation_warnings,
    IntentParameter, IntentParameterView,
};
use crate::manifest::component::{Component, ComponentView};
use crate::text::{owned, str_eq, to_chars, views};
use crate::utils::adb::{start_command, ADBCommand};
use crate::utils::device::{lines_of, split_lines};
use crate::utils::source::{
    adb_arguments, extracted_parameters, find_source_file, index_of,
    intent_parameters_to_adb_args, invocation_pattern, java_query_matches, located,
    parse_intent_parameters, SourceParameterView,
};
use vstd::prelude::*;
use vstd::string::*;

verus! {

/// Where the parameters of a resolution come from.
#[derive(Debug, Clone, Copy, PartialEq, Eq, Structural)]
pub enum Origin {
    /// The syntax tree of the source file.
    SyntaxTree,
    /// The reply of the inference.
    Inferred,
    /// The manifest alone.
    Manifest,
}

/// Why a resolution rests on the manifest alone.
#[derive(Debug, Clone, Copy, PartialEq, Eq, Structural)]
pub enum Fallback {
    /// No single source file could be made out for the component.
    SourceNotFound,
    /// The source file could not be parsed, and no inference is configured.
    ParseFailure,
    /// The syntax tree shows no parameter, and no inference is configured.
    NothingShown,
    /// The source file could not be read.
    SourceUnreadable,
    /// No line of the source file is intent-relevant.
    NoContext,
    /// The inference failed, or its reply gave no parameter.
    InferenceFailure,
    /// Evidence came that had not been asked for.
    OutOfTurn,
}

/// How a component is resolved: the parameters, the argument tokens that
/// pass them where they come from the syntax tree, the warnings of the
/// validation, and why the manifest had to do, if it had.
#[derive(Debug)]
pub struct Resolution {
    pub origin: Origin,
    pub params: Vec<IntentParameter>,
    pub arguments: Vec<String>,
    pub warnings: Vec<String>,
    pub fallback: Option<Fallback>,
}

/// What a `Resolution` holds.
pub struct ResolutionView {
    pub origin: Origin,
    pub params: Seq<IntentParameterView>,
    pub arguments: Seq<Seq<char>>,
    pub warnings: Seq<Seq<char>>,
    pub fallback: Option<Fallback>,
}

impl View for Resolution {
    type V = ResolutionView;

    open spec fn view(&self) -> ResolutionView {
        ResolutionView {
            origin: self.origin,
            params: views(self.params@),
            arguments: views(self.arguments@),
            warnings: views(self.warnings@),
            fallback: self.fallback,
        }
    }
}

/// What the resolver waits for.
#[derive(Debug, Clone, Copy, PartialEq, Eq, Structural)]
pub enum Stage {
    Start,
    AwaitingFiles,
    AwaitingSource,
    AwaitingReply,
    Finished,
}

/// One piece of evidence.
#[derive(Debug)]
pub enum ResolveEvent {
    /// The resolution begins.
    Begin,
    /// The files under the directory of the manifest.
    FilesListed(Vec<String>),
    /// The text of the source file.
    SourceRead(String),
    /// The source file could not be read.
    ReadFailed,
    /// The text that the inference replied.
    Replied(String),
    /// The inference gave no reply.
    InferenceFailed,
}

/// What an event holds.
pub enum ResolveEventView {
    Begin,
    FilesListed(Seq<Seq<char>>),
    SourceRead(Seq<char>),
    ReadFailed,
    Replied(Seq<char>),
    InferenceFailed,
}

impl View for ResolveEvent {
    type V = ResolveEventView;

    open spec fn view(&self) -> ResolveEventView {
        match self {
            ResolveEvent::Begin => ResolveEventView::Begin,
            ResolveEvent::FilesListed(paths) => ResolveEventView::FilesListed(views(paths@)),
            ResolveEvent::SourceRead(text) => ResolveEventView::SourceRead(text@),
            ResolveEvent::ReadFailed => ResolveEventView::ReadFailed,
            ResolveEvent::Replied(reply) => ResolveEventView::Replied(reply@),
            ResolveEvent::InferenceFailed => ResolveEventView::InferenceFailed,
        }
    }
}

/// What is to be done next.
#[derive(Debug)]
pub enum ResolveAction {
    /// List the files under the directory of the manifest.
    ListFiles,
    /// Read the source file at this path.
    ReadSource(String),
    /// Hand this context to the inference.
    Infer(String),
    /// The component is resolved.
    Finish(Resolution),
    /// Nothing: the component was resolved before.
    Idle,
}

/// What an action holds.
pub enum ResolveActionView {
    ListFiles,
    ReadSource(Seq<char>),
    Infer(Seq<char>),
    Finish(ResolutionView),
    Idle,
}

impl View for ResolveAction {
    type V = ResolveActionView;

    open spec fn view(&self) -> ResolveActionView {
        match self {
            ResolveAction::ListFiles => ResolveActionView::ListFiles,
            ResolveAction::ReadSource(path) => ResolveActionView::ReadSource(path@),
            ResolveAction::Infer(context) => ResolveActionView::Infer(context@),
            ResolveAction::Finish(resolution) => ResolveActionView::Finish(resolution@),
            ResolveAction::Idle => ResolveActionView::Idle,
        }
    }
}

/// The flag under which a parameter of the syntax tree is passed: `-d` for
/// the data of the intent, `-e` for every extra.
pub open spec fn flag_of_type(type_: Seq<char>) -> Seq<char> {
    if type_ == "uri"@ {
        "-d"@
    } else {
        "-e"@
    }
}

/// A parameter of the syntax tree as an intent parameter.
pub open spec fn adapted(param: SourceParameterView) -> IntentParameterView {
    IntentParameterView {
        name: param.name,
        param_type: param.type_,
        value: param.value,
        flag: flag_of_type(param.type_),
    }
}

/// The parameters of the syntax tree as intent parameters, in order.
pub open spec fn adapted_all(found: Seq<SourceParameterView>) -> Seq<IntentParameterView> {
    Seq::new(found.len(), |i: int| adapted(found[i]))
}

/// The resolution that the parameters of the syntax tree give. They are
/// passed as argument tokens and are not validated.
pub open spec fn structural_resolution(found: Seq<SourceParameterView>) -> ResolutionView {
    ResolutionView {
        origin: Origin::SyntaxTree,
        params: adapted_all(found),
        arguments: adb_arguments(found),
        warnings: Seq::empty(),
        fallback: None,
    }
}

/// The resolution that the parameters of an inference give, validated.
pub open spec fn inferred_resolution(params: Seq<IntentParameterView>) -> ResolutionView {
    ResolutionView {
        origin: Origin::Inferred,
        params: accepted_params(params),
        arguments: Seq::empty(),
        warnings: validation_warnings(params),
        fallback: None,
    }
}

/// The resolution that the manifest alone gives, validated.
pub open spec fn manifest_resolution(component: ComponentView, why: Fallback) -> ResolutionView {
    ResolutionView {
        origin: Origin::Manifest,
        params: accepted_params(basic_params(component)),
        arguments: Seq::empty(),
        warnings: validation_warnings(basic_params(component)),
        fallback: Some(why),
    }
}

/// The parameters that the syntax tree of a source shows, or `None` where
/// the source cannot be parsed.
pub open spec fn source_parameters(text: Seq<char>) -> Option<Seq<SourceParameterView>> {
    match java_query_matches(text, invocation_pattern()) {
        Some(matches) => Some(extracted_parameters(matches)),
        None => None,
    }
}

/// What follows once the syntax tree has shown nothing: where an inference
/// is configured and the source has a context, the inference is asked;
/// else the manifest has to do.
pub open spec fn after_no_structure(
    component: ComponentView,
    inference: bool,
    text: Seq<char>,
    why: Fallback,
) -> (Stage, ResolveActionView) {
    let context = intent_context(lines_of(text));
    if !inference {
        (Stage::Finished, ResolveActionView::Finish(manifest_resolution(component, why)))
    } else if context.len() > 0 {
        (Stage::AwaitingReply, ResolveActionView::Infer(context))
    } else {
        (
            Stage::Finished,
            ResolveActionView::Finish(manifest_resolution(component, Fallback::NoContext)),
        )
    }
}

/// What the text of the source file leads to: the parameters of its syntax
/// tree where it shows any, else what follows without them.
pub open spec fn after_source(component: ComponentView, inference: bool, text: Seq<char>) -> (
    Stage,
    ResolveActionView,
) {
    match source_parameters(text) {
        Some(found) => if found.len() > 0 {
            (Stage::Finished, ResolveActionView::Finish(structural_resolution(found)))
        } else {
            after_no_structure(component, inference, text, Fallback::NothingShown)
        },
        None => after_no_structure(component, inference, text, Fallback::ParseFailure),
    }
}

/// The resolution that a reply gives: its parameters where it has any, else
/// the manifest's.
pub open spec fn reply_resolution(component: ComponentView, reply: Seq<char>) -> ResolutionView {
    match reply_parameters(reply) {
        Ok(params) => if params.len() > 0 {
            inferred_resolution(params)
        } else {
            manifest_resolution(component, Fallback::InferenceFailure)
        },
        Err(_) => manifest_resolution(component, Fallback::InferenceFailure),
    }
}

/// The next stage and the action that one piece of evidence leads to. In
/// order: the parameters of the syntax tree where it shows any; else those
/// of the inference, where one is configured and the source file gives a
/// context; else those of the manifest. Whatever fails on the way leads to
/// the manifest.
pub open spec fn advanced(
    component: ComponentView,
    inference: bool,
    stage: Stage,
    event: ResolveEventView,
) -> (Stage, ResolveActionView) {
    let finish = |why: Fallback|
        (Stage::Finished, ResolveActionView::Finish(manifest_resolution(component, why)));
    match (stage, event) {
        (Stage::Finished, _) => (Stage::Finished, ResolveActionView::Idle),
        (Stage::Start, ResolveEventView::Begin) => (
            Stage::AwaitingFiles,
            ResolveActionView::ListFiles,
        ),
        (Stage::AwaitingFiles, ResolveEventView::FilesListed(paths)) => match located(
            index_of(paths),
            component.manifest_dir,
            component.name,
        ) {
            Ok(path) => (Stage::AwaitingSource, ResolveActionView::ReadSource(path)),
            Err(_) => finish(Fallback::SourceNotFound),
        },
        (Stage::AwaitingSource, ResolveEventView::SourceRead(text)) => after_source(
            component,
            inference,
            text,
        ),
        (Stage::AwaitingSource, ResolveEventView::ReadFailed) => finish(
            Fallback::SourceUnreadable,
        ),
        (Stage::AwaitingReply, ResolveEventView::Replied(reply)) => (
            Stage::Finished,
            ResolveActionView::Finish(reply_resolution(component, reply)),
        ),
        (Stage::AwaitingReply, ResolveEventView::InferenceFailed) => finish(
            Fallback::InferenceFailure,
        ),
        _ => finish(Fallback::OutOfTurn),
    }
}

/// The parameters that are left after a validation carry known flags.
pub proof fn lemma_accepted_flags_known(params: Seq<IntentParameterView>)
    ensures
        all_flags_known(accepted_params(params)),
    decreases params.len(),
{
    if params.len() > 0 {
        lemma_accepted_flags_known(params.drop_last());
    }
}

/// Whatever the evidence, the parameters of a resolution carry one of the
/// six flags of the launcher.
pub proof fn lemma_resolved_flags_known(
    component: ComponentView,
    inference: bool,
    stage: Stage,
    event: ResolveEventView,
)
    ensures
        advanced(component, inference, stage, event).1 matches ResolveActionView::Finish(
            resolution,
        ) ==> all_flags_known(resolution.params),
{
    reveal_strlit("-d");
    reveal_strlit("-e");
    lemma_accepted_flags_known(basic_params(component));
    match event {
        ResolveEventView::Replied(reply) => {
            match reply_parameters(reply) {
                Ok(params) => {
                    lemma_accepted_flags_known(params);
                },
                Err(_) => {},
            }
        },
        _ => {},
    }
}

/// A parameter of the syntax tree as an intent parameter.
fn adapt(param: &crate::utils::source::IntentParameter) -> (out: IntentParameter)
    ensures
        out@ == adapted(param@),
{
    let flag = if str_eq(param.type_.as_str(), "uri") {
        owned("-d")
    } else {
        owned("-e")
    };
    IntentParameter {
        name: param.name.clone(),
        param_type: param.type_.clone(),
        value: param.value.clone(),
        flag,
    }
}

/// The resolution that the parameters of the syntax tree give.
pub fn resolve_from_structure(found: &Vec<crate::utils::source::IntentParameter>) -> (resolution:
    Resolution)
    ensures
        resolution@ == structural_resolution(views(found@)),
        all_flags_known(resolution@.params),
{
    let mut params: Vec<IntentParameter> = Vec::new();
    let mut i: usize = 0;
    while i < found.len()
        invariant
            i <= found@.len(),
            params@.len() == i,
            forall|j: int| 0 <= j < i ==> params@[j]@ == adapted(found@[j]@),
        decreases found@.len() - i,
    {
        params.push(adapt(&found[i]));
        i += 1;
    }
    let resolution = Resolution {
        origin: Origin::SyntaxTree,
        params,
        arguments: intent_parameters_to_adb_args(found),
        warnings: Vec::new(),
        fallback: None,
    };
    proof {
        assert(resolution@.params =~= adapted_all(views(found@)));
        assert(resolution@.warnings =~= Seq::<Seq<char>>::empty());
        reveal_strlit("-d");
        reveal_strlit("-e");
    }
    resolution
}

/// The resolution that the parameters of an inference give.
pub fn resolve_from_inference(params: &Vec<IntentParameter>) -> (resolution: Resolution)
    ensures
        resolution@ == inferred_resolution(views(params@)),
        all_flags_known(resolution@.params),
{
    let validation = validate_adb_command(params);
    let resolution = Resolution {
        origin: Origin::Inferred,
        params: validation.accepted,
        arguments: Vec::new(),
        warnings: validation.warnings,
        fallback: None,
    };
    assert(resolution@.arguments =~= Seq::<Seq<char>>::empty());
    resolution
}

/// The resolution that the manifest alone gives.
pub fn resolve_from_manifest(component: &Component, why: Fallback) -> (resolution: Resolution)
    ensures
        resolution@ == manifest_resolution(component@, why),
        all_flags_known(resolution@.params),
{
    let basic = generate_basic_params(component);
    let validation = validate_adb_command(&basic);
    let resolution = Resolution {
        origin: Origin::Manifest,
        params: validation.accepted,
        arguments: Vec::new(),
        warnings: validation.warnings,
        fallback: Some(why),
    };
    assert(resolution@.arguments =~= Seq::<Seq<char>>::empty());
    resolution
}

/// The resolution that the text of a reply gives.
pub fn resolve_from_reply(component: &Component, reply: &str) -> (resolution: Resolution)
    ensures
        resolution@ == reply_resolution(component@, reply@),
        all_flags_known(resolution@.params),
{
    match interpret_reply(reply) {
        Ok(params) => {
            if params.len() > 0 {
                resolve_from_inference(&params)
            } else {
                resolve_from_manifest(component, Fallback::InferenceFailure)
            }
        },
        Err(_) => resolve_from_manifest(component, Fallback::InferenceFailure),
    }
}

/// What follows once the syntax tree has shown nothing.
fn continue_without_structure(
    component: &Component,
    inference: bool,
    text: &str,
    why: Fallback,
) -> (next: (Stage, ResolveAction))
    ensures
        (next.0, next.1@) == after_no_structure(component@, inference, text@, why),
        next.1 matches ResolveAction::Finish(resolution) ==> all_flags_known(resolution@.params),
{
    if !inference {
        return (Stage::Finished, ResolveAction::Finish(resolve_from_manifest(component, why)));
    }
    let lines = split_lines(text);
    let context = extract_intent_context(lines.as_slice());
    if to_chars(context.as_str()).len() > 0 {
        (Stage::AwaitingReply, ResolveAction::Infer(context))
    } else {
        (
            Stage::Finished,
            ResolveAction::Finish(resolve_from_manifest(component, Fallback::NoContext)),
        )
    }
}

/// What the text of the source file leads to.
pub fn resolve_from_source(component: &Component, inference: bool, text: &str) -> (next: (
    Stage,
    ResolveAction,
))
    ensures
        (next.0, next.1@) == after_source(component@, inference, text@),
        next.1 matches ResolveAction::Finish(resolution) ==> all_flags_known(resolution@.params),
{
    match parse_intent_parameters(text) {
        Ok(found) => {
            if found.len() > 0 {
                (Stage::Finished, ResolveAction::Finish(resolve_from_structure(&found)))
            } else {
                continue_without_structure(component, inference, text, Fallback::NothingShown)
            }
        },
        Err(_) => continue_without_structure(component, inference, text, Fallback::ParseFailure),
    }
}

/// Takes one piece of evidence on a component and says what to do next.
pub fn advance(component: &Component, inference: bool, stage: Stage, event: ResolveEvent) -> (next:
    (Stage, ResolveAction))
    ensures
        (next.0, next.1@) == advanced(component@, inference, stage, event@),
        next.1 matches ResolveAction::Finish(resolution) ==> all_flags_known(resolution@.params),
{
    match stage {
        Stage::Finished => {
            return (Stage::Finished, ResolveAction::Idle);
        },
        _ => {},
    }
    match (stage, event) {
        (Stage::Start, ResolveEvent::Begin) => (Stage::AwaitingFiles, ResolveAction::ListFiles),
        (Stage::AwaitingFiles, ResolveEvent::FilesListed(paths)) => {
            match find_source_file(component, &paths) {
                Ok(path) => (Stage::AwaitingSource, ResolveAction::ReadSource(path)),
                Err(_) => (
                    Stage::Finished,
                    ResolveAction::Finish(
                        resolve_from_manifest(component, Fallback::SourceNotFound),
                    ),
                ),
            }
        },
        (Stage::AwaitingSource, ResolveEvent::SourceRead(text)) => resolve_from_source(
            component,
            inference,
            text.as_str(),
        ),
        (Stage::AwaitingSource, ResolveEvent::ReadFailed) => (
            Stage::Finished,
            ResolveAction::Finish(resolve_from_manifest(component, Fallback::SourceUnreadable)),
        ),
        (Stage::AwaitingReply, ResolveEvent::Replied(reply)) => (
            Stage::Finished,
            ResolveAction::Finish(resolve_from_reply(component, reply.as_str())),
        ),
        (Stage::AwaitingReply, ResolveEvent::InferenceFailed) => (
            Stage::Finished,
            ResolveAction::Finish(resolve_from_manifest(component, Fallback::InferenceFailure)),
        ),
        _ => (
            Stage::Finished,
            ResolveAction::Finish(resolve_from_manifest(component, Fallback::OutOfTurn)),
        ),
    }
}

/// The command of a resolved component. Parameters of the syntax tree stand
/// in it as their argument tokens, any others as a flag and a value.
pub open spec fn resolved_command(component: ComponentView, resolution: ResolutionView) -> Seq<
    char,
> {
    if resolution.origin == Origin::SyntaxTree {
        start_command(component, Seq::empty(), resolution.arguments)
    } else {
        start_command(component, resolution.params, Seq::empty())
    }
}

/// The command that starts a resolved component.
pub fn synthesize_command(component: &Component, resolution: &Resolution) -> (command: String)
    ensures
        command@ == resolved_command(component@, resolution@),
{
    let mut builder = ADBCommand::new();
    builder.set_component(component);
    match resolution.origin {
        Origin::SyntaxTree => {
            let mut i: usize = 0;
            assert(views(resolution.arguments@).subrange(0, 0) =~= Seq::<Seq<char>>::empty());
            while i < resolution.arguments.len()
                invariant
                    i <= resolution.arguments@.len(),
                    builder@.component == Some(component@),
                    builder@.intent_params == Seq::<IntentParameterView>::empty(),
                    builder@.extra_args == views(resolution.arguments@).subrange(0, i as int),
                decreases resolution.arguments@.len() - i,
            {
                builder.add_extra_arg(resolution.arguments[i].as_str());
                assert(views(resolution.arguments@).subrange(0, i as int).push(
                    resolution.arguments@[i as int]@,
                ) =~= views(resolution.arguments@).subrange(0, i + 1));
                i += 1;
            }
            assert(views(resolution.arguments@).subrange(0, resolution.arguments@.len() as int)
                =~= views(resolution.arguments@));
        },
        _ => {
            builder.set_intent_params(&resolution.params);
        },
    }
    match builder.build_command() {
        Ok(command) => command,
        Err(_) => String::new(),
    }
}

} // verus!
