//! Synthesis of the launcher command of a component.

use crate::llm::analyzer::{
    convert_to_intent_parameters, rendered, IntentParameter, IntentParameterView,
};
use crate::manifest::component::{Component, ComponentView};
use crate::text::{
    after_last, append_chars, contains, has_substring, last_piece, last_piece_begin,
    lemma_after_last_clean, lemma_after_last_skips, lemma_last_piece_of_char,
    lemma_last_piece_bounds, lemma_last_piece_shorter, lemma_last_split_absent,
    lemma_trim_start_result, has_char, occurs_at, owned,
    skip_run, starts_with, str_eq, to_chars, trim_start, views,
};
use vstd::prelude::*;
use vstd::slice::slice_subrange;
use vstd::string::*;

verus! {

/// Why no command could be built.
#[derive(Debug, Clone, Copy, PartialEq, Eq, Structural)]
pub enum CommandError {
    /// No component was set.
    NoComponent,
}

/// The name without the package in front of it and without the dots that
/// follow the package; the name itself where it does not begin with the
/// package.
pub open spec fn without_package(package: Seq<char>, name: Seq<char>) -> Seq<char> {
    if package.is_prefix_of(name) {
        trim_start(name.subrange(package.len() as int, name.len() as int), '.')
    } else {
        name
    }
}

/// `s` with a dot in front unless it begins with one.
pub open spec fn with_leading_dot(s: Seq<char>) -> Seq<char> {
    if s.len() > 0 && s[0] == '.' {
        s
    } else {
        seq!['.'] + s
    }
}

/// The name after the first two passes of the reduction.
pub open spec fn dotted_remainder(package: Seq<char>, name: Seq<char>) -> Seq<char> {
    with_leading_dot(without_package(package, name))
}

/// The name of a component relative to its package. Three passes: the package
/// in front is taken off; the remainder is made to begin with a dot; where
/// the package still occurs in it, it is cut at every match of the package,
/// the matches taken from left to right without overlap, and only the last
/// piece is kept, without leading dots.
pub open spec fn normalized_name(package: Seq<char>, name: Seq<char>) -> Seq<char> {
    let dotted = dotted_remainder(package, name);
    if has_substring(dotted, package) {
        trim_start(last_piece(dotted, package), '.')
    } else {
        dotted
    }
}

/// The third pass leaves the name as the first two made it.
pub open spec fn third_pass_rests(package: Seq<char>, name: Seq<char>) -> bool {
    !has_substring(dotted_remainder(package, name), package)
}

/// The reduction changes nothing when it is applied to its own result,
/// whenever its third pass had nothing to cut, the package is empty, or the
/// package is a single dot. In every other case the third pass leaves a
/// result without a leading dot, and a second application does not return
/// it.
pub proof fn lemma_normalization_idempotent(package: Seq<char>, name: Seq<char>)
    requires
        package.len() == 0 || package == seq!['.'] || third_pass_rests(package, name),
    ensures
        normalized_name(package, normalized_name(package, name)) == normalized_name(
            package,
            name,
        ),
{
    let once = normalized_name(package, name);
    let dotted = dotted_remainder(package, name);
    if package.len() == 0 {
        assert forall|s: Seq<char>| has_substring(s, package) by {
            assert(s.subrange(0, 0) =~= package);
            assert(occurs_at(s, package, 0));
        }
        assert(trim_start(Seq::<char>::empty(), '.') == Seq::<char>::empty());
    } else if third_pass_rests(package, name) {
        assert(once == dotted);
        assert(dotted.len() > 0 && dotted[0] == '.');
        if package.is_prefix_of(once) {
            assert(occurs_at(once, package, 0));
        }
        assert(without_package(package, once) == once);
        assert(with_leading_dot(once) == once);
    } else {
        assert(dotted.subrange(0, 1) =~= package);
        assert(occurs_at(dotted, package, 0));
        lemma_last_piece_of_char(dotted, '.');
        lemma_after_last_clean(dotted, '.');
        let kept = after_last(dotted, '.');
        assert(kept.len() > 0 ==> kept[0] != '.');
        assert(once == kept);
        if package.is_prefix_of(kept) {
            assert(kept.subrange(0, 1)[0] == package[0]);
        }
        assert(without_package(package, kept) == kept);
        let again = with_leading_dot(kept);
        assert(again == seq!['.'] + kept);
        assert(again.subrange(0, 1) =~= package);
        assert(occurs_at(again, package, 0));
        lemma_last_piece_of_char(again, '.');
        lemma_after_last_skips(again, '.', 0);
        assert(again.subrange(1, again.len() as int) =~= kept);
        lemma_last_split_absent(kept, '.');
    }
}

/// In every case that `lemma_normalization_idempotent` leaves out, a second
/// application of the reduction does not return the result of the first.
pub proof fn lemma_normalization_changes_cut_names(package: Seq<char>, name: Seq<char>)
    requires
        package.len() > 0,
        package != seq!['.'],
        !third_pass_rests(package, name),
    ensures
        normalized_name(package, normalized_name(package, name)) != normalized_name(
            package,
            name,
        ),
{
    let dotted = dotted_remainder(package, name);
    let once = normalized_name(package, name);
    lemma_trim_start_result(last_piece(dotted, package), '.');
    let rest = without_package(package, once);
    let again = with_leading_dot(rest);
    if package.is_prefix_of(once) {
        lemma_trim_start_result(once.subrange(package.len() as int, once.len() as int), '.');
    }
    if has_substring(again, package) {
        lemma_last_piece_shorter(again, package);
        lemma_trim_start_result(last_piece(again, package), '.');
        if !package.is_prefix_of(once) && package.len() == 1 && last_piece(again, package).len()
            == once.len() {
            assert(package =~= seq!['.']) by {
                assert(again.subrange(0, 1)[0] == package[0]);
            }
        }
    }
}

/// The command with every parameter added as a flag and a value.
pub open spec fn with_parameters(command: Seq<char>, params: Seq<IntentParameterView>) -> Seq<char>
    decreases params.len(),
{
    if params.len() == 0 {
        command
    } else {
        with_parameters(command, params.drop_last()) + " "@ + rendered(params.last())
    }
}

/// The command with every argument added behind a space.
pub open spec fn with_arguments(command: Seq<char>, arguments: Seq<Seq<char>>) -> Seq<char>
    decreases arguments.len(),
{
    if arguments.len() == 0 {
        command
    } else {
        with_arguments(command, arguments.drop_last()) + " "@ + arguments.last()
    }
}

/// The command that starts a component: the launcher, the package and the
/// normalized name, the parameters in their order, then the extra arguments.
pub open spec fn start_command(
    component: ComponentView,
    params: Seq<IntentParameterView>,
    arguments: Seq<Seq<char>>,
) -> Seq<char> {
    with_arguments(
        with_parameters(
            "adb shell am start -n "@ + component.package + "/"@ + normalized_name(
                component.package,
                component.name,
            ),
            params,
        ),
        arguments,
    )
}

/// The text holds no line feed.
pub open spec fn is_one_line(s: Seq<char>) -> bool {
    !has_char(s, '\n')
}

/// Two texts of one line each make one line together.
pub proof fn lemma_one_line_concat(a: Seq<char>, b: Seq<char>)
    requires
        is_one_line(a),
        is_one_line(b),
    ensures
        is_one_line(a + b),
{
    assert forall|i: int| 0 <= i < (a + b).len() implies (a + b)[i] != '\n' by {
        if i < a.len() {
            assert((a + b)[i] == a[i]);
        } else {
            assert((a + b)[i] == b[i - a.len()]);
        }
    }
}

/// A part of one line is one line.
pub proof fn lemma_one_line_part(s: Seq<char>, from: int, to: int)
    requires
        is_one_line(s),
        0 <= from <= to <= s.len(),
    ensures
        is_one_line(s.subrange(from, to)),
{
    assert forall|i: int| 0 <= i < to - from implies s.subrange(from, to)[i] != '\n' by {
        assert(s.subrange(from, to)[i] == s[from + i]);
    }
}

/// What `trim_start` leaves of one line is one line.
pub proof fn lemma_one_line_trimmed(s: Seq<char>, c: char)
    requires
        is_one_line(s),
    ensures
        is_one_line(trim_start(s, c)),
    decreases s.len(),
{
    if s.len() > 0 && s[0] == c {
        lemma_one_line_part(s, 1, s.len() as int);
        lemma_one_line_trimmed(s.drop_first(), c);
    }
}

/// The normalized form of a name of one line is one line.
pub proof fn lemma_normalized_one_line(package: Seq<char>, name: Seq<char>)
    requires
        is_one_line(name),
    ensures
        is_one_line(normalized_name(package, name)),
{
    let rest = without_package(package, name);
    if package.is_prefix_of(name) {
        lemma_one_line_part(name, package.len() as int, name.len() as int);
        lemma_one_line_trimmed(name.subrange(package.len() as int, name.len() as int), '.');
    }
    let dotted = with_leading_dot(rest);
    assert(is_one_line(seq!['.'])) by {
        assert(seq!['.'][0] != '\n');
    }
    lemma_one_line_concat(seq!['.'], rest);
    if package.len() > 0 {
        lemma_last_piece_bounds(dotted, package, 0, 0, 0);
        lemma_one_line_part(
            dotted,
            crate::text::last_piece_start(dotted, package, 0, 0),
            dotted.len() as int,
        );
    }
    lemma_one_line_trimmed(last_piece(dotted, package), '.');
}

/// Parameters of one line each keep a command on one line.
pub proof fn lemma_parameters_one_line(command: Seq<char>, params: Seq<IntentParameterView>)
    requires
        is_one_line(command),
        forall|i: int|
            0 <= i < params.len() ==> is_one_line(#[trigger] params[i].flag) && is_one_line(
                params[i].value,
            ),
    ensures
        is_one_line(with_parameters(command, params)),
    decreases params.len(),
{
    if params.len() > 0 {
        let front = params.drop_last();
        assert forall|i: int| 0 <= i < front.len() implies is_one_line(#[trigger] front[i].flag)
            && is_one_line(front[i].value) by {
            assert(front[i] == params[i]);
        }
        lemma_parameters_one_line(command, front);
        reveal_strlit(" ");
        let last = params[params.len() - 1];
        assert(is_one_line(last.flag) && is_one_line(last.value));
        lemma_one_line_concat(with_parameters(command, front), " "@);
        lemma_one_line_concat(last.flag, " "@);
        lemma_one_line_concat(last.flag + " "@, last.value);
        lemma_one_line_concat(with_parameters(command, front) + " "@, rendered(last));
    }
}

/// Arguments of one line each keep a command on one line.
pub proof fn lemma_arguments_one_line(command: Seq<char>, arguments: Seq<Seq<char>>)
    requires
        is_one_line(command),
        forall|i: int| 0 <= i < arguments.len() ==> is_one_line(#[trigger] arguments[i]),
    ensures
        is_one_line(with_arguments(command, arguments)),
    decreases arguments.len(),
{
    if arguments.len() > 0 {
        let front = arguments.drop_last();
        assert forall|i: int| 0 <= i < front.len() implies is_one_line(#[trigger] front[i]) by {
            assert(front[i] == arguments[i]);
        }
        lemma_arguments_one_line(command, front);
        reveal_strlit(" ");
        assert(is_one_line(arguments[arguments.len() - 1]));
        lemma_one_line_concat(with_arguments(command, front), " "@);
        lemma_one_line_concat(with_arguments(command, front) + " "@, arguments.last());
    }
}

/// The command of a component is a single line whenever the package, the
/// name, the flags and values of the parameters and the extra arguments each
/// are.
pub proof fn lemma_start_command_one_line(
    component: ComponentView,
    params: Seq<IntentParameterView>,
    arguments: Seq<Seq<char>>,
)
    requires
        is_one_line(component.package),
        is_one_line(component.name),
        forall|i: int|
            0 <= i < params.len() ==> is_one_line(#[trigger] params[i].flag) && is_one_line(
                params[i].value,
            ),
        forall|i: int| 0 <= i < arguments.len() ==> is_one_line(#[trigger] arguments[i]),
    ensures
        is_one_line(start_command(component, params, arguments)),
{
    reveal_strlit("adb shell am start -n ");
    reveal_strlit("/");
    let normalized = normalized_name(component.package, component.name);
    lemma_normalized_one_line(component.package, component.name);
    lemma_one_line_concat("adb shell am start -n "@, component.package);
    lemma_one_line_concat("adb shell am start -n "@ + component.package, "/"@);
    lemma_one_line_concat("adb shell am start -n "@ + component.package + "/"@, normalized);
    let head = "adb shell am start -n "@ + component.package + "/"@ + normalized;
    lemma_parameters_one_line(head, params);
    lemma_arguments_one_line(with_parameters(head, params), arguments);
}

/// The name of a component relative to its package.
pub fn normalize_name(package: &str, name: &str) -> (normalized: String)
    ensures
        normalized@ == normalized_name(package@, name@),
{
    let pattern = to_chars(package);
    let whole = to_chars(name);
    let mut dotted: Vec<char> = Vec::new();
    if starts_with(whole.as_slice(), pattern.as_slice()) {
        let rest = slice_subrange(whole.as_slice(), pattern.len(), whole.len());
        let begin = skip_run(rest, '.', 0);
        assert(rest@.subrange(0, rest@.len() as int) =~= rest@);
        if !(begin < rest.len() && rest[begin] == '.') {
            dotted.push('.');
        }
        let mut i: usize = begin;
        while i < rest.len()
            invariant
                begin <= i <= rest@.len(),
                dotted@ == with_leading_dot(rest@.subrange(begin as int, rest@.len() as int)).subrange(
                    0,
                    dotted@.len() as int,
                ),
                dotted@.len() == i - begin + (if begin < rest@.len() && rest@[begin as int] == '.' {
                    0int
                } else {
                    1int
                }),
            decreases rest@.len() - i,
        {
            dotted.push(rest[i]);
            i += 1;
        }
        assert(dotted@ =~= dotted_remainder(package@, name@));
    } else {
        if !(whole.len() > 0 && whole[0] == '.') {
            dotted.push('.');
        }
        let mut i: usize = 0;
        while i < whole.len()
            invariant
                i <= whole@.len(),
                dotted@ == with_leading_dot(whole@).subrange(0, dotted@.len() as int),
                dotted@.len() == i + (if whole@.len() > 0 && whole@[0] == '.' {
                    0int
                } else {
                    1int
                }),
            decreases whole@.len() - i,
        {
            dotted.push(whole[i]);
            i += 1;
        }
        assert(dotted@ =~= dotted_remainder(package@, name@));
    }
    let mut normalized = String::new();
    if contains(dotted.as_slice(), pattern.as_slice()) {
        if pattern.len() > 0 {
            let piece = last_piece_begin(dotted.as_slice(), pattern.as_slice());
            let begin = skip_run(dotted.as_slice(), '.', piece);
            append_chars(&mut normalized, dotted.as_slice(), begin, dotted.len());
        } else {
            assert(trim_start(Seq::<char>::empty(), '.') == Seq::<char>::empty());
        }
    } else {
        append_chars(&mut normalized, dotted.as_slice(), 0, dotted.len());
        assert(dotted@.subrange(0, dotted@.len() as int) =~= dotted@);
    }
    normalized
}

/// The builder of one launcher command.
#[derive(Debug)]
pub struct ADBCommand {
    component: Option<Component>,
    intent_params: Vec<IntentParameter>,
    extra_args: Vec<String>,
}

/// What an `ADBCommand` holds.
pub struct ADBCommandView {
    pub component: Option<ComponentView>,
    pub intent_params: Seq<IntentParameterView>,
    pub extra_args: Seq<Seq<char>>,
}

impl View for ADBCommand {
    type V = ADBCommandView;

    closed spec fn view(&self) -> ADBCommandView {
        ADBCommandView {
            component: match self.component {
                Some(component) => Some(component@),
                None => None,
            },
            intent_params: views(self.intent_params@),
            extra_args: views(self.extra_args@),
        }
    }
}

impl ADBCommand {
    /// A builder with no component, no parameters and no extra arguments.
    pub fn new() -> (command: Self)
        ensures
            command@ == (ADBCommandView {
                component: None,
                intent_params: Seq::empty(),
                extra_args: Seq::empty(),
            }),
    {
        let command = ADBCommand {
            component: None,
            intent_params: Vec::new(),
            extra_args: Vec::new(),
        };
        assert(command@.intent_params =~= Seq::empty());
        assert(command@.extra_args =~= Seq::empty());
        command
    }

    /// Sets the component that the command starts.
    pub fn set_component(&mut self, component: &Component)
        ensures
            final(self)@ == (ADBCommandView { component: Some(component@), ..old(self)@ }),
    {
        self.component = Some(component.clone());
    }

    /// Replaces the parameters of the command.
    pub fn set_intent_params(&mut self, params: &Vec<IntentParameter>)
        ensures
            final(self)@ == (ADBCommandView { intent_params: views(params@), ..old(self)@ }),
    {
        self.intent_params = convert_to_intent_parameters(params);
    }

    /// Adds one raw argument behind those already there.
    pub fn add_extra_arg(&mut self, arg: &str)
        ensures
            final(self)@ == (ADBCommandView {
                extra_args: old(self)@.extra_args.push(arg@),
                ..old(self)@
            }),
    {
        let ghost before = self.extra_args@;
        self.extra_args.push(owned(arg));
        assert(views(self.extra_args@) =~= views(before).push(arg@));
    }

    /// The command line, or `NoComponent` where no component was set.
    pub fn build_command(&self) -> (built: Result<String, CommandError>)
        ensures
            match built {
                Ok(command) => self@.component is Some && command@ == start_command(
                    self@.component->0,
                    self@.intent_params,
                    self@.extra_args,
                ),
                Err(error) => self@.component is None && error == CommandError::NoComponent,
            },
    {
        let component = match &self.component {
            Some(component) => component,
            None => {
                return Err(CommandError::NoComponent);
            },
        };
        let mut command = owned("adb shell am start -n ");
        command.append(component.package.as_str());
        command.append("/");
        command.append(normalize_name(component.package.as_str(), component.name.as_str()).as_str());
        let ghost head = command@;
        let mut i: usize = 0;
        assert(views(self.intent_params@).subrange(0, 0) =~= Seq::<IntentParameterView>::empty());
        while i < self.intent_params.len()
            invariant
                i <= self.intent_params@.len(),
                command@ == with_parameters(
                    head,
                    views(self.intent_params@).subrange(0, i as int),
                ),
            decreases self.intent_params@.len() - i,
        {
            let ghost upto = views(self.intent_params@).subrange(0, i + 1);
            assert(upto.drop_last() =~= views(self.intent_params@).subrange(0, i as int));
            assert(upto.last() == self.intent_params@[i as int]@);
            command.append(" ");
            command.append(self.intent_params[i].to_string().as_str());
            i += 1;
        }
        assert(views(self.intent_params@).subrange(0, self.intent_params@.len() as int)
            =~= views(self.intent_params@));
        let ghost middle = command@;
        let mut j: usize = 0;
        assert(views(self.extra_args@).subrange(0, 0) =~= Seq::<Seq<char>>::empty());
        while j < self.extra_args.len()
            invariant
                j <= self.extra_args@.len(),
                command@ == with_arguments(middle, views(self.extra_args@).subrange(0, j as int)),
            decreases self.extra_args@.len() - j,
        {
            let ghost upto = views(self.extra_args@).subrange(0, j + 1);
            assert(upto.drop_last() =~= views(self.extra_args@).subrange(0, j as int));
            assert(upto.last() == self.extra_args@[j as int]@);
            command.append(" ");
            command.append(self.extra_args[j].as_str());
            j += 1;
        }
        assert(views(self.extra_args@).subrange(0, self.extra_args@.len() as int) =~= views(
            self.extra_args@,
        ));
        Ok(command)
    }
}

/// The name as it is written behind the package in a launch command: a name
/// that begins with a dot is put behind the package.
pub open spec fn launch_name(component: ComponentView) -> Seq<char> {
    if component.name.len() > 0 && component.name[0] == '.' {
        component.package + component.name
    } else {
        component.name
    }
}

/// The command that addresses a component, by its kind: activities are
/// started, services are started as services, receivers get a broadcast,
/// providers get a content call. An unknown kind is addressed as an activity.
pub open spec fn base_command(component: ComponentView) -> Seq<char> {
    let target = component.package + "/"@ + launch_name(component);
    if component.component_type == "service"@ {
        "adb shell am startservice -n "@ + target
    } else if component.component_type == "receiver"@ {
        "adb shell am broadcast -n "@ + target
    } else if component.component_type == "provider"@ {
        "adb shell content call --uri content://"@ + target
    } else {
        "adb shell am start -n "@ + target
    }
}

/// The command once for every category, or alone where there is none.
pub open spec fn with_categories(command: Seq<char>, categories: Seq<Seq<char>>) -> Seq<Seq<char>> {
    if categories.len() == 0 {
        seq![command]
    } else {
        Seq::new(categories.len(), |i: int| command + " -c "@ + categories[i])
    }
}

/// The addresses under one host: one for every path, or the host alone.
pub open spec fn uris_of_host(prefix: Seq<char>, paths: Seq<Seq<char>>) -> Seq<Seq<char>> {
    if paths.len() == 0 {
        seq![prefix]
    } else {
        Seq::new(paths.len(), |i: int| prefix + paths[i])
    }
}

/// The addresses of one scheme under each of `hosts`, in order.
pub open spec fn uris_of_hosts(scheme: Seq<char>, hosts: Seq<Seq<char>>, paths: Seq<Seq<char>>) -> Seq<
    Seq<char>,
>
    decreases hosts.len(),
{
    if hosts.len() == 0 {
        Seq::empty()
    } else {
        uris_of_hosts(scheme, hosts.drop_last(), paths) + uris_of_host(
            scheme + "://"@ + hosts.last(),
            paths,
        )
    }
}

/// The addresses of one scheme: the bare scheme where no host is declared.
pub open spec fn uris_of_scheme(scheme: Seq<char>, hosts: Seq<Seq<char>>, paths: Seq<Seq<char>>) -> Seq<
    Seq<char>,
> {
    if hosts.len() == 0 {
        seq![scheme + "://"@]
    } else {
        uris_of_hosts(scheme, hosts, paths)
    }
}

/// Every address that the schemes, hosts and paths of a component spell.
pub open spec fn data_uris(schemes: Seq<Seq<char>>, hosts: Seq<Seq<char>>, paths: Seq<Seq<char>>) -> Seq<
    Seq<char>,
>
    decreases schemes.len(),
{
    if schemes.len() == 0 {
        Seq::empty()
    } else {
        data_uris(schemes.drop_last(), hosts, paths) + uris_of_scheme(schemes.last(), hosts, paths)
    }
}

/// The command with each of `values` in turn, quoted behind `flag`, each
/// time once for every category.
pub open spec fn quoted_commands(
    command: Seq<char>,
    flag: Seq<char>,
    values: Seq<Seq<char>>,
    categories: Seq<Seq<char>>,
) -> Seq<Seq<char>>
    decreases values.len(),
{
    if values.len() == 0 {
        Seq::empty()
    } else {
        quoted_commands(command, flag, values.drop_last(), categories) + with_categories(
            command + flag + "\""@ + values.last() + "\""@,
            categories,
        )
    }
}

/// The commands that carry data or a type: every address where a scheme is
/// declared, else every MIME type, else the command with its categories.
pub open spec fn detailed_commands(command: Seq<char>, component: ComponentView) -> Seq<Seq<char>> {
    if component.data_schemes.len() > 0 {
        quoted_commands(
            command,
            " -d "@,
            data_uris(component.data_schemes, component.data_hosts, component.data_paths),
            component.categories,
        )
    } else if component.data_mime_types.len() > 0 {
        quoted_commands(command, " -t "@, component.data_mime_types, component.categories)
    } else {
        with_categories(command, component.categories)
    }
}

/// The commands of each of `actions`, in order.
pub open spec fn commands_of_actions(
    base: Seq<char>,
    actions: Seq<Seq<char>>,
    component: ComponentView,
) -> Seq<Seq<char>>
    decreases actions.len(),
{
    if actions.len() == 0 {
        Seq::empty()
    } else {
        commands_of_actions(base, actions.drop_last(), component) + detailed_commands(
            base + " -a "@ + actions.last(),
            component,
        )
    }
}

/// Every launch command of a component. Without actions, categories, schemes
/// and MIME types it is the base command alone. Otherwise each action gives
/// its commands; a component without actions but with schemes gives one
/// command for every address.
pub open spec fn launch_commands(component: ComponentView) -> Seq<Seq<char>> {
    let base = base_command(component);
    if component.actions.len() == 0 && component.categories.len() == 0
        && component.data_schemes.len() == 0 && component.data_mime_types.len() == 0 {
        seq![base]
    } else if component.actions.len() == 0 && component.data_schemes.len() > 0 {
        quoted_commands(
            base,
            " -d "@,
            data_uris(component.data_schemes, component.data_hosts, component.data_paths),
            component.categories,
        )
    } else {
        commands_of_actions(base, component.actions, component)
    }
}

/// Adds `command` once for every category, or alone where there is none.
fn push_with_categories(out: &mut Vec<String>, command: &str, categories: &Vec<String>)
    ensures
        views(final(out)@) == views(old(out)@) + with_categories(command@, views(categories@)),
{
    if categories.len() == 0 {
        out.push(owned(command));
        assert(views(out@) =~= views(old(out)@) + seq![command@]);
        return ;
    }
    let ghost all = with_categories(command@, views(categories@));
    let mut i: usize = 0;
    assert(views(out@) =~= views(old(out)@) + all.subrange(0, 0));
    while i < categories.len()
        invariant
            i <= categories@.len(),
            categories@.len() > 0,
            all == with_categories(command@, views(categories@)),
            views(out@) == views(old(out)@) + all.subrange(0, i as int),
        decreases categories@.len() - i,
    {
        let mut text = owned(command);
        text.append(" -c ");
        text.append(categories[i].as_str());
        let ghost before = out@;
        out.push(text);
        assert(views(out@) =~= views(before).push(text@));
        assert(views(out@) =~= views(old(out)@) + all.subrange(0, i + 1));
        i += 1;
    }
    assert(all.subrange(0, categories@.len() as int) =~= all);
}

/// Adds the addresses under one host.
fn push_uris_of_host(out: &mut Vec<String>, prefix: &str, paths: &Vec<String>)
    ensures
        views(final(out)@) == views(old(out)@) + uris_of_host(prefix@, views(paths@)),
{
    if paths.len() == 0 {
        out.push(owned(prefix));
        assert(views(out@) =~= views(old(out)@) + seq![prefix@]);
        return ;
    }
    let ghost all = uris_of_host(prefix@, views(paths@));
    let mut i: usize = 0;
    assert(views(out@) =~= views(old(out)@) + all.subrange(0, 0));
    while i < paths.len()
        invariant
            i <= paths@.len(),
            paths@.len() > 0,
            all == uris_of_host(prefix@, views(paths@)),
            views(out@) == views(old(out)@) + all.subrange(0, i as int),
        decreases paths@.len() - i,
    {
        let mut text = owned(prefix);
        text.append(paths[i].as_str());
        let ghost before = out@;
        out.push(text);
        assert(views(out@) =~= views(before).push(text@));
        assert(views(out@) =~= views(old(out)@) + all.subrange(0, i + 1));
        i += 1;
    }
    assert(all.subrange(0, paths@.len() as int) =~= all);
}

/// Adds the addresses of one scheme.
fn push_uris_of_scheme(out: &mut Vec<String>, scheme: &str, hosts: &Vec<String>, paths: &Vec<String>)
    ensures
        views(final(out)@) == views(old(out)@) + uris_of_scheme(
            scheme@,
            views(hosts@),
            views(paths@),
        ),
{
    if hosts.len() == 0 {
        let mut text = owned(scheme);
        text.append("://");
        out.push(text);
        assert(views(out@) =~= views(old(out)@) + seq![scheme@ + "://"@]);
        return ;
    }
    let mut i: usize = 0;
    assert(views(hosts@).subrange(0, 0) =~= Seq::<Seq<char>>::empty());
    assert(views(out@) =~= views(old(out)@) + Seq::<Seq<char>>::empty());
    while i < hosts.len()
        invariant
            i <= hosts@.len(),
            views(out@) == views(old(out)@) + uris_of_hosts(
                scheme@,
                views(hosts@).subrange(0, i as int),
                views(paths@),
            ),
        decreases hosts@.len() - i,
    {
        let ghost upto = views(hosts@).subrange(0, i + 1);
        assert(upto.drop_last() =~= views(hosts@).subrange(0, i as int));
        assert(upto.last() == hosts@[i as int]@);
        let mut prefix = owned(scheme);
        prefix.append("://");
        prefix.append(hosts[i].as_str());
        let ghost before = views(out@);
        push_uris_of_host(out, prefix.as_str(), paths);
        assert(views(out@) =~= views(old(out)@) + uris_of_hosts(scheme@, upto, views(paths@)));
        i += 1;
    }
    assert(views(hosts@).subrange(0, hosts@.len() as int) =~= views(hosts@));
}

/// Every address that the schemes, hosts and paths of a component spell.
fn uris_of(component: &Component) -> (uris: Vec<String>)
    ensures
        views(uris@) == data_uris(
            component@.data_schemes,
            component@.data_hosts,
            component@.data_paths,
        ),
{
    let mut uris: Vec<String> = Vec::new();
    let schemes = &component.data_schemes;
    let mut i: usize = 0;
    assert(views(schemes@).subrange(0, 0) =~= Seq::<Seq<char>>::empty());
    assert(views(uris@) =~= Seq::<Seq<char>>::empty());
    while i < schemes.len()
        invariant
            i <= schemes@.len(),
            schemes@ == component.data_schemes@,
            views(uris@) == data_uris(
                views(schemes@).subrange(0, i as int),
                component@.data_hosts,
                component@.data_paths,
            ),
        decreases schemes@.len() - i,
    {
        let ghost upto = views(schemes@).subrange(0, i + 1);
        assert(upto.drop_last() =~= views(schemes@).subrange(0, i as int));
        assert(upto.last() == schemes@[i as int]@);
        push_uris_of_scheme(
            &mut uris,
            schemes[i].as_str(),
            &component.data_hosts,
            &component.data_paths,
        );
        i += 1;
    }
    assert(views(schemes@).subrange(0, schemes@.len() as int) =~= views(schemes@));
    uris
}

/// Adds the command with each of `values` in turn, quoted behind `flag`.
fn push_quoted(
    out: &mut Vec<String>,
    command: &str,
    flag: &str,
    values: &Vec<String>,
    categories: &Vec<String>,
)
    ensures
        views(final(out)@) == views(old(out)@) + quoted_commands(
            command@,
            flag@,
            views(values@),
            views(categories@),
        ),
{
    let mut i: usize = 0;
    assert(views(values@).subrange(0, 0) =~= Seq::<Seq<char>>::empty());
    assert(views(out@) =~= views(old(out)@) + Seq::<Seq<char>>::empty());
    while i < values.len()
        invariant
            i <= values@.len(),
            views(out@) == views(old(out)@) + quoted_commands(
                command@,
                flag@,
                views(values@).subrange(0, i as int),
                views(categories@),
            ),
        decreases values@.len() - i,
    {
        let ghost upto = views(values@).subrange(0, i + 1);
        assert(upto.drop_last() =~= views(values@).subrange(0, i as int));
        assert(upto.last() == values@[i as int]@);
        let mut text = owned(command);
        text.append(flag);
        text.append("\"");
        text.append(values[i].as_str());
        text.append("\"");
        push_with_categories(out, text.as_str(), categories);
        assert(views(out@) =~= views(old(out)@) + quoted_commands(
            command@,
            flag@,
            upto,
            views(categories@),
        ));
        i += 1;
    }
    assert(views(values@).subrange(0, values@.len() as int) =~= views(values@));
}

/// Adds the commands that carry data or a type.
fn push_detailed(out: &mut Vec<String>, command: &str, component: &Component)
    ensures
        views(final(out)@) == views(old(out)@) + detailed_commands(command@, component@),
{
    if component.data_schemes.len() > 0 {
        let uris = uris_of(component);
        push_quoted(out, command, " -d ", &uris, &component.categories);
    } else if component.data_mime_types.len() > 0 {
        push_quoted(out, command, " -t ", &component.data_mime_types, &component.categories);
    } else {
        push_with_categories(out, command, &component.categories);
    }
}

/// The command that addresses a component, by its kind.
fn base_command_of(component: &Component) -> (base: String)
    ensures
        base@ == base_command(component@),
{
    let kind = component.component_type.as_str();
    let mut base = if str_eq(kind, "service") {
        owned("adb shell am startservice -n ")
    } else if str_eq(kind, "receiver") {
        owned("adb shell am broadcast -n ")
    } else if str_eq(kind, "provider") {
        owned("adb shell content call --uri content://")
    } else {
        owned("adb shell am start -n ")
    };
    let ghost head = base@;
    let letters = to_chars(component.name.as_str());
    base.append(component.package.as_str());
    base.append("/");
    if letters.len() > 0 && letters[0] == '.' {
        base.append(component.package.as_str());
    }
    base.append(component.name.as_str());
    assert(base@ =~= head + (component@.package + "/"@ + launch_name(component@)));
    base
}

/// Every launch command of a component, in the order of its declarations.
pub fn generate_adb_commands(component: &Component) -> (commands: Vec<String>)
    ensures
        views(commands@) == launch_commands(component@),
{
    let mut commands: Vec<String> = Vec::new();
    let base = base_command_of(component);
    assert(views(commands@) =~= Seq::<Seq<char>>::empty());
    if component.actions.len() == 0 && component.categories.len() == 0
        && component.data_schemes.len() == 0 && component.data_mime_types.len() == 0 {
        commands.push(base);
        assert(views(commands@) =~= seq![base@]);
        return commands;
    }
    if component.actions.len() == 0 && component.data_schemes.len() > 0 {
        let uris = uris_of(component);
        push_quoted(&mut commands, base.as_str(), " -d ", &uris, &component.categories);
        assert(views(commands@) =~= launch_commands(component@));
        return commands;
    }
    let actions = &component.actions;
    let mut i: usize = 0;
    assert(views(actions@).subrange(0, 0) =~= Seq::<Seq<char>>::empty());
    while i < actions.len()
        invariant
            i <= actions@.len(),
            actions@ == component.actions@,
            views(commands@) == commands_of_actions(
                base@,
                views(actions@).subrange(0, i as int),
                component@,
            ),
        decreases actions@.len() - i,
    {
        let ghost upto = views(actions@).subrange(0, i + 1);
        assert(upto.drop_last() =~= views(actions@).subrange(0, i as int));
        assert(upto.last() == actions@[i as int]@);
        let mut command = base.clone();
        command.append(" -a ");
        command.append(actions[i].as_str());
        push_detailed(&mut commands, command.as_str(), component);
        i += 1;
    }
    assert(views(actions@).subrange(0, actions@.len() as int) =~= views(actions@));
    commands
}

} // verus!
