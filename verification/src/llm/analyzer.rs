//! Intent parameters: what a structured inference result holds, how the
//! context handed to the inference is cut out of a source file, and the
//! parameters that a manifest alone gives.

use crate::llm::json::{
    flag_of, items_of, json_document, json_flag, json_items, json_member, member, member_text,
    parse_document, text_member,
};
use crate::manifest::component::{Component, ComponentView};
use crate::utils::source::{file_name_of, is_source_path, source_stem, stem_of, SourceNotFound};
use crate::text::{
    contains, contains_char, distinct, eq_ignore_case, has_any_substring, has_char,
    has_substring, join, join_texts, lowered, owned, push_unique, str_eq, to_chars, views,
};
use vstd::prelude::*;
use vstd::string::*;

verus! {

/// One parameter of an invocation: what it is called, its declared type, its
/// value and the launcher flag under which it is passed.
#[derive(Debug)]
pub struct IntentParameter {
    pub name: String,
    pub param_type: String,
    pub value: String,
    pub flag: String,
}

/// What an `IntentParameter` holds.
pub struct IntentParameterView {
    pub name: Seq<char>,
    pub param_type: Seq<char>,
    pub value: Seq<char>,
    pub flag: Seq<char>,
}

impl View for IntentParameter {
    type V = IntentParameterView;

    open spec fn view(&self) -> IntentParameterView {
        IntentParameterView {
            name: self.name@,
            param_type: self.param_type@,
            value: self.value@,
            flag: self.flag@,
        }
    }
}

/// `flag` is one of the six flags of the launcher.
pub open spec fn is_launcher_flag(flag: Seq<char>) -> bool {
    flag == "-a"@ || flag == "-c"@ || flag == "-d"@ || flag == "-t"@ || flag == "-e"@ || flag
        == "-f"@
}

/// Every parameter carries one of the six flags of the launcher.
pub open spec fn all_flags_known(params: Seq<IntentParameterView>) -> bool {
    forall|i: int| 0 <= i < params.len() ==> is_launcher_flag(#[trigger] params[i].flag)
}

/// The parameter as it stands in a command: the flag, a space, the value.
pub open spec fn rendered(param: IntentParameterView) -> Seq<char> {
    param.flag + " "@ + param.value
}

/// Whether `flag` is one of the six flags of the launcher.
pub fn is_known_flag(flag: &str) -> (known: bool)
    ensures
        known == is_launcher_flag(flag@),
{
    str_eq(flag, "-a") || str_eq(flag, "-c") || str_eq(flag, "-d") || str_eq(flag, "-t")
        || str_eq(flag, "-e") || str_eq(flag, "-f")
}

impl IntentParameter {
    /// The parameter as it stands in a command.
    pub fn to_string(&self) -> (text: String)
        ensures
            text@ == rendered(self@),
    {
        let mut text = self.flag.clone();
        text.append(" ");
        text.append(self.value.as_str());
        text
    }
}

impl Clone for IntentParameter {
    fn clone(&self) -> (copy: Self)
        ensures
            copy@ == self@,
    {
        IntentParameter {
            name: self.name.clone(),
            param_type: self.param_type.clone(),
            value: self.value.clone(),
            flag: self.flag.clone(),
        }
    }
}

/// A copy of the parameters, in the same order.
pub fn convert_to_intent_parameters(params: &Vec<IntentParameter>) -> (copy: Vec<IntentParameter>)
    ensures
        views(copy@) == views(params@),
{
    let mut copy: Vec<IntentParameter> = Vec::new();
    let mut i: usize = 0;
    while i < params.len()
        invariant
            i <= params@.len(),
            copy@.len() == i,
            forall|j: int| 0 <= j < i ==> copy@[j]@ == params@[j]@,
        decreases params@.len() - i,
    {
        copy.push(params[i].clone());
        i += 1;
    }
    assert(views(copy@) =~= views(params@));
    copy
}

/// The fragments of accessor names that mark a line as intent-relevant:
/// getters and setters of the action, the categories, the data, the type,
/// the extras, the flags, the component, addresses and bundles.
pub open spec fn accessor_fragments() -> Seq<Seq<char>> {
    seq![
        "getAction"@,
        "hasAction"@,
        "setAction"@,
        "getCategories"@,
        "hasCategory"@,
        "addCategory"@,
        "getData"@,
        "setData"@,
        "getScheme"@,
        "getHost"@,
        "getPath"@,
        "getQuery"@,
        "getType"@,
        "setType"@,
        "resolveType"@,
        "getExtras"@,
        "getStringExtra"@,
        "getIntExtra"@,
        "getBooleanExtra"@,
        "getLongExtra"@,
        "getFloatExtra"@,
        "getDoubleExtra"@,
        "getParcelableExtra"@,
        "getFlags"@,
        "addFlags"@,
        "setFlags"@,
        "getComponent"@,
        "setComponent"@,
        "resolveActivity"@,
        "toUri"@,
        "parseUri"@,
        "normalize"@,
        "getBundle"@,
        "putExtra"@,
        "putExtras"@,
    ]
}

/// The fragments that show a value being read or changed through a call.
pub open spec fn verb_fragments() -> Seq<Seq<char>> {
    seq![
        ".get"@,
        ".set"@,
        ".has"@,
        ".add"@,
        ".put"@,
    ]
}

/// A line is intent-relevant where it holds one of the accessor fragments,
/// or the word `intent` together with one of the verb fragments.
pub open spec fn is_intent_line(line: Seq<char>) -> bool {
    has_any_substring(line, accessor_fragments()) || (has_substring(line, "intent"@)
        && has_any_substring(line, verb_fragments()))
}

/// The capture window between two lines: whether it is open, and how many
/// more lines with `{` than with `}` it has seen since it opened.
pub struct Window {
    pub open: bool,
    pub depth: int,
}

/// The window as a relevant line opens it anew; otherwise unchanged.
pub open spec fn window_entering(window: Window, line: Seq<char>) -> Window {
    if is_intent_line(line) {
        Window { open: true, depth: 0 }
    } else {
        window
    }
}

/// The window after `line`. An open window counts the line's braces, and
/// closes on a line with `}` that brings the count to zero.
pub open spec fn window_after(window: Window, line: Seq<char>) -> Window {
    let entered = window_entering(window, line);
    if !entered.open {
        entered
    } else {
        let depth = entered.depth + (if has_char(line, '{') {
            1int
        } else {
            0int
        }) - (if has_char(line, '}') {
            1int
        } else {
            0int
        });
        Window { open: !(has_char(line, '}') && depth == 0), depth }
    }
}

/// The window before line `n`.
pub open spec fn window_before(lines: Seq<Seq<char>>, n: nat) -> Window
    decreases n,
{
    if n == 0 {
        Window { open: false, depth: 0 }
    } else {
        window_after(window_before(lines, (n - 1) as nat), lines[n - 1])
    }
}

/// The lines in front of line `i` that a relevant line brings in: up to five.
pub open spec fn leading_lines(lines: Seq<Seq<char>>, i: int) -> Seq<Seq<char>> {
    lines.subrange(if i >= 5 { i - 5 } else { 0 }, i)
}

/// The lines behind line `i` that the closing of a window brings in: up to six.
pub open spec fn trailing_lines(lines: Seq<Seq<char>>, i: int) -> Seq<Seq<char>> {
    lines.subrange(i + 1, if i + 7 <= lines.len() { i + 7 } else { lines.len() as int })
}

/// The lines that reading line `i` offers to the context, in order: the
/// leading lines where the line is relevant, the line itself where the window
/// is open, the trailing lines where the window closes on it.
pub open spec fn offered_at(lines: Seq<Seq<char>>, i: int, window: Window) -> Seq<Seq<char>> {
    let line = lines[i];
    let leading = if is_intent_line(line) {
        leading_lines(lines, i)
    } else {
        Seq::empty()
    };
    let here = if window_entering(window, line).open {
        seq![line]
    } else {
        Seq::empty()
    };
    let trailing = if window_entering(window, line).open && !window_after(window, line).open {
        trailing_lines(lines, i)
    } else {
        Seq::empty()
    };
    leading + here + trailing
}

/// Every line offered while the first `n` lines are read, in order.
pub open spec fn offered(lines: Seq<Seq<char>>, n: nat) -> Seq<Seq<char>>
    decreases n,
{
    if n == 0 {
        Seq::empty()
    } else {
        offered(lines, (n - 1) as nat) + offered_at(
            lines,
            n - 1,
            window_before(lines, (n - 1) as nat),
        )
    }
}

/// The lines of the context: each offered line once, where it was first
/// offered.
pub open spec fn context_lines(lines: Seq<Seq<char>>) -> Seq<Seq<char>> {
    distinct(offered(lines, lines.len()))
}

/// The context: its lines joined by line feeds.
pub open spec fn intent_context(lines: Seq<Seq<char>>) -> Seq<char> {
    join(context_lines(lines), "\n"@)
}

/// No line stands twice among the lines of the context.
pub proof fn lemma_context_lines_distinct(lines: Seq<Seq<char>>)
    ensures
        context_lines(lines).no_duplicates(),
{
    crate::text::lemma_distinct(offered(lines, lines.len()));
}

/// The context depends on nothing but the lines and their order: equal line
/// sequences give equal contexts.
pub proof fn lemma_context_deterministic(first: Seq<Seq<char>>, second: Seq<Seq<char>>)
    requires
        first.len() == second.len(),
        forall|i: int| 0 <= i < first.len() ==> first[i] == second[i],
    ensures
        intent_context(first) == intent_context(second),
{
    assert(first =~= second);
}

/// No line is intent-relevant.
pub open spec fn no_relevant_line(lines: Seq<Seq<char>>) -> bool {
    forall|i: int| 0 <= i < lines.len() ==> !is_intent_line(#[trigger] lines[i])
}

/// An intent-relevant line is not empty.
pub proof fn lemma_relevant_line_nonempty(line: Seq<char>)
    requires
        is_intent_line(line),
    ensures
        line.len() > 0,
{
    reveal_strlit("getAction");
    reveal_strlit("hasAction");
    reveal_strlit("setAction");
    reveal_strlit("getCategories");
    reveal_strlit("hasCategory");
    reveal_strlit("addCategory");
    reveal_strlit("getData");
    reveal_strlit("setData");
    reveal_strlit("getScheme");
    reveal_strlit("getHost");
    reveal_strlit("getPath");
    reveal_strlit("getQuery");
    reveal_strlit("getType");
    reveal_strlit("setType");
    reveal_strlit("resolveType");
    reveal_strlit("getExtras");
    reveal_strlit("getStringExtra");
    reveal_strlit("getIntExtra");
    reveal_strlit("getBooleanExtra");
    reveal_strlit("getLongExtra");
    reveal_strlit("getFloatExtra");
    reveal_strlit("getDoubleExtra");
    reveal_strlit("getParcelableExtra");
    reveal_strlit("getFlags");
    reveal_strlit("addFlags");
    reveal_strlit("setFlags");
    reveal_strlit("getComponent");
    reveal_strlit("setComponent");
    reveal_strlit("resolveActivity");
    reveal_strlit("toUri");
    reveal_strlit("parseUri");
    reveal_strlit("normalize");
    reveal_strlit("getBundle");
    reveal_strlit("putExtra");
    reveal_strlit("putExtras");
    reveal_strlit("intent");
    if has_any_substring(line, accessor_fragments()) {
        let k = choose|k: int|
            0 <= k < accessor_fragments().len() && has_substring(
                line,
                #[trigger] accessor_fragments()[k],
            );
        let at = choose|at: int| crate::text::occurs_at(line, accessor_fragments()[k], at);
        assert(accessor_fragments()[k].len() > 0);
    } else {
        let at = choose|at: int| crate::text::occurs_at(line, "intent"@, at);
    }
}

/// While no line is relevant, the window stays shut and nothing is offered.
pub proof fn lemma_nothing_offered(lines: Seq<Seq<char>>, n: nat)
    requires
        no_relevant_line(lines),
        n <= lines.len(),
    ensures
        !window_before(lines, n).open,
        offered(lines, n) == Seq::<Seq<char>>::empty(),
    decreases n,
{
    if n > 0 {
        lemma_nothing_offered(lines, (n - 1) as nat);
        assert(!is_intent_line(lines[n - 1]));
        assert(offered_at(lines, n - 1, window_before(lines, (n - 1) as nat)) =~= Seq::<
            Seq<char>,
        >::empty());
    }
}

/// A relevant line is among the lines offered once it has been read.
pub proof fn lemma_relevant_line_offered(lines: Seq<Seq<char>>, i: int, n: nat)
    requires
        0 <= i < n <= lines.len(),
        is_intent_line(lines[i]),
    ensures
        offered(lines, n).contains(lines[i]),
    decreases n,
{
    let front = offered(lines, (n - 1) as nat);
    let last = offered_at(lines, n - 1, window_before(lines, (n - 1) as nat));
    if i == n - 1 {
        let leading = leading_lines(lines, i);
        assert(last[leading.len() as int] == lines[i]);
        assert(offered(lines, n)[(front.len() + leading.len()) as int] == lines[i]);
    } else {
        lemma_relevant_line_offered(lines, i, (n - 1) as nat);
        let at = choose|at: int| 0 <= at < front.len() && front[at] == lines[i];
        assert(offered(lines, n)[at] == lines[i]);
    }
}

/// Joined parts are at least as long as any one of them.
pub proof fn lemma_join_holds_part(parts: Seq<Seq<char>>, sep: Seq<char>, part: Seq<char>)
    requires
        parts.contains(part),
    ensures
        join(parts, sep).len() >= part.len(),
    decreases parts.len(),
{
    if parts.len() > 1 {
        let at = choose|at: int| 0 <= at < parts.len() && parts[at] == part;
        if at < parts.len() - 1 {
            assert(parts.drop_last()[at] == part);
            lemma_join_holds_part(parts.drop_last(), sep, part);
        }
    }
}

/// The context is empty exactly where no line is intent-relevant.
pub proof fn lemma_context_empty_iff_no_relevant_line(lines: Seq<Seq<char>>)
    ensures
        intent_context(lines).len() == 0 <==> no_relevant_line(lines),
{
    if no_relevant_line(lines) {
        lemma_nothing_offered(lines, lines.len());
    } else {
        let i = choose|i: int| 0 <= i < lines.len() && is_intent_line(#[trigger] lines[i]);
        lemma_relevant_line_nonempty(lines[i]);
        lemma_relevant_line_offered(lines, i, lines.len());
        crate::text::lemma_distinct(offered(lines, lines.len()));
        lemma_join_holds_part(context_lines(lines), "\n"@, lines[i]);
    }
}

/// The accessor fragments, as characters.
fn accessor_patterns() -> (patterns: Vec<Vec<char>>)
    ensures
        views(patterns@) == accessor_fragments(),
{
    let mut patterns: Vec<Vec<char>> = Vec::new();
    patterns.push(to_chars("getAction"));
    patterns.push(to_chars("hasAction"));
    patterns.push(to_chars("setAction"));
    patterns.push(to_chars("getCategories"));
    patterns.push(to_chars("hasCategory"));
    patterns.push(to_chars("addCategory"));
    patterns.push(to_chars("getData"));
    patterns.push(to_chars("setData"));
    patterns.push(to_chars("getScheme"));
    patterns.push(to_chars("getHost"));
    patterns.push(to_chars("getPath"));
    patterns.push(to_chars("getQuery"));
    patterns.push(to_chars("getType"));
    patterns.push(to_chars("setType"));
    patterns.push(to_chars("resolveType"));
    patterns.push(to_chars("getExtras"));
    patterns.push(to_chars("getStringExtra"));
    patterns.push(to_chars("getIntExtra"));
    patterns.push(to_chars("getBooleanExtra"));
    patterns.push(to_chars("getLongExtra"));
    patterns.push(to_chars("getFloatExtra"));
    patterns.push(to_chars("getDoubleExtra"));
    patterns.push(to_chars("getParcelableExtra"));
    patterns.push(to_chars("getFlags"));
    patterns.push(to_chars("addFlags"));
    patterns.push(to_chars("setFlags"));
    patterns.push(to_chars("getComponent"));
    patterns.push(to_chars("setComponent"));
    patterns.push(to_chars("resolveActivity"));
    patterns.push(to_chars("toUri"));
    patterns.push(to_chars("parseUri"));
    patterns.push(to_chars("normalize"));
    patterns.push(to_chars("getBundle"));
    patterns.push(to_chars("putExtra"));
    patterns.push(to_chars("putExtras"));
    assert(views(patterns@) =~= accessor_fragments());
    patterns
}

/// The verb fragments, as characters.
fn verb_patterns() -> (patterns: Vec<Vec<char>>)
    ensures
        views(patterns@) == verb_fragments(),
{
    let mut patterns: Vec<Vec<char>> = Vec::new();
    patterns.push(to_chars(".get"));
    patterns.push(to_chars(".set"));
    patterns.push(to_chars(".has"));
    patterns.push(to_chars(".add"));
    patterns.push(to_chars(".put"));
    assert(views(patterns@) =~= verb_fragments());
    patterns
}

/// Whether one of `patterns` stands in `line`.
fn holds_any(line: &[char], patterns: &Vec<Vec<char>>) -> (found: bool)
    ensures
        found == has_any_substring(line@, views(patterns@)),
{
    let mut k: usize = 0;
    while k < patterns.len()
        invariant
            k <= patterns@.len(),
            forall|j: int| 0 <= j < k ==> !has_substring(line@, #[trigger] views(patterns@)[j]),
        decreases patterns@.len() - k,
    {
        if contains(line, patterns[k].as_slice()) {
            assert(views(patterns@)[k as int] == patterns@[k as int]@);
            return true;
        }
        assert(views(patterns@)[k as int] == patterns@[k as int]@);
        k += 1;
    }
    false
}

/// Adds `lines[from..to]` to the context, each unless it is already there.
fn offer_lines(context: &mut Vec<String>, lines: &[String], from: usize, to: usize)
    requires
        from <= to <= lines@.len(),
    ensures
        forall|seen: Seq<Seq<char>>|
            views(old(context)@) == distinct(seen) ==> views(final(context)@) == distinct(
                seen + views(lines@).subrange(from as int, to as int),
            ),
{
    let mut j: usize = from;
    assert forall|seen: Seq<Seq<char>>| views(context@) == distinct(seen) implies views(context@)
        == distinct(#[trigger] (seen + views(lines@).subrange(from as int, from as int))) by {
        assert(seen + views(lines@).subrange(from as int, from as int) =~= seen);
    }
    while j < to
        invariant
            from <= j <= to <= lines@.len(),
            forall|seen: Seq<Seq<char>>|
                views(old(context)@) == distinct(seen) ==> views(context@) == distinct(
                    #[trigger] (seen + views(lines@).subrange(from as int, j as int)),
                ),
        decreases to - j,
    {
        let ghost before = views(context@);
        push_unique(context, lines[j].clone());
        assert forall|seen: Seq<Seq<char>>| views(old(context)@) == distinct(seen) implies views(
            context@,
        ) == distinct(#[trigger] (seen + views(lines@).subrange(from as int, j + 1))) by {
            let shorter = seen + views(lines@).subrange(from as int, j as int);
            let longer = seen + views(lines@).subrange(from as int, j + 1);
            assert(before == distinct(shorter));
            assert(longer.drop_last() =~= shorter);
            assert(longer.last() == lines@[j as int]@);
        }
        j += 1;
    }
}

/// The excerpt of a source file that is handed to the inference: around every
/// intent-relevant line the five lines in front of it, the lines up to the
/// one that closes its block, and six lines behind that one; each line once,
/// where it was first met. Empty exactly where no line is relevant to begin
/// with.
pub fn extract_intent_context(lines: &[String]) -> (context: String)
    ensures
        context@ == intent_context(views(lines@)),
        context_lines(views(lines@)).no_duplicates(),
        context@.len() == 0 <==> no_relevant_line(views(lines@)),
{
    let accessors = accessor_patterns();
    let verbs = verb_patterns();
    let intent = to_chars("intent");
    let mut context: Vec<String> = Vec::new();
    let mut open = false;
    let mut depth: i128 = 0;
    let mut i: usize = 0;
    let ghost all = views(lines@);
    assert(views(context@) =~= distinct(offered(all, 0)));
    while i < lines.len()
        invariant
            i <= lines@.len(),
            all == views(lines@),
            views(accessors@) == accessor_fragments(),
            views(verbs@) == verb_fragments(),
            intent@ == "intent"@,
            -(i as int) <= depth <= i as int,
            window_before(all, i as nat) == (Window { open, depth: depth as int }),
            views(context@) == distinct(offered(all, i as nat)),
        decreases lines@.len() - i,
    {
        let ghost seen = offered(all, i as nat);
        let ghost window = window_before(all, i as nat);
        assert(all[i as int] == lines@[i as int]@);
        let line = to_chars(lines[i].as_str());
        let relevant = holds_any(line.as_slice(), &accessors) || (contains(
            line.as_slice(),
            intent.as_slice(),
        ) && holds_any(line.as_slice(), &verbs));
        let ghost mut now = seen;
        if relevant {
            open = true;
            depth = 0;
            let start: usize = if i >= 5 {
                i - 5
            } else {
                0
            };
            offer_lines(&mut context, lines, start, i);
            proof {
                now = seen + leading_lines(all, i as int);
            }
        } else {
            assert(now + Seq::<Seq<char>>::empty() =~= now);
        }
        let ghost leading = if relevant {
            leading_lines(all, i as int)
        } else {
            Seq::<Seq<char>>::empty()
        };
        assert(now =~= seen + leading);
        assert(views(context@) == distinct(now));
        if open {
            offer_lines(&mut context, lines, i, i + 1);
            proof {
                assert(all.subrange(i as int, i + 1) =~= seq![all[i as int]]);
                now = now + seq![all[i as int]];
            }
            if contains_char(line.as_slice(), '{') {
                depth = depth + 1;
            }
            if contains_char(line.as_slice(), '}') {
                depth = depth - 1;
                if depth == 0 {
                    open = false;
                    let end: usize = if lines.len() - i >= 7 {
                        i + 7
                    } else {
                        lines.len()
                    };
                    offer_lines(&mut context, lines, i + 1, end);
                    proof {
                        now = now + trailing_lines(all, i as int);
                    }
                }
            }
        }
        proof {
            assert(views(context@) == distinct(now));
            assert(now =~= seen + offered_at(all, i as int, window));
            assert(offered(all, (i + 1) as nat) == seen + offered_at(all, i as int, window));
        }
        i += 1;
    }
    proof {
        lemma_context_lines_distinct(all);
        lemma_context_empty_iff_no_relevant_line(all);
    }
    join_texts(&context, "\n")
}

/// The value that stands for an extra of the given type when none is known.
/// The type is compared without regard to ASCII case.
pub open spec fn default_extra(name: Seq<char>, param_type: Seq<char>) -> Seq<char> {
    let kind = lowered(param_type);
    if kind == "string"@ {
        "example_string"@
    } else if kind == "integer"@ || kind == "long"@ {
        "1"@
    } else if kind == "boolean"@ {
        "true"@
    } else if kind == "float"@ || kind == "double"@ {
        "1.0"@
    } else if kind == "uri"@ {
        "content://"@ + name + "/example"@
    } else {
        "example"@
    }
}

/// The value that stands for a parameter when none is known, by its flag.
pub open spec fn default_value(flag: Seq<char>, name: Seq<char>, param_type: Seq<char>) -> Seq<
    char,
> {
    if flag == "-a"@ {
        "android.intent.action."@ + name
    } else if flag == "-c"@ {
        "android.intent.category."@ + name
    } else if flag == "-d"@ {
        "content://"@ + name + "/example"@
    } else if flag == "-t"@ {
        name + "/example"@
    } else if flag == "-e"@ {
        default_extra(name, param_type)
    } else if flag == "-f"@ {
        "1"@
    } else {
        "example"@
    }
}

/// Whether the type is `kind`, without regard to ASCII case.
fn type_is(param_type: &[char], kind: &str) -> (same: bool)
    requires
        lowered(kind@) == kind@,
    ensures
        same == (lowered(param_type@) == kind@),
{
    let letters = to_chars(kind);
    eq_ignore_case(param_type, letters.as_slice())
}

/// The value that stands for an extra of the given type when none is known.
fn synthesize_extra(name: &str, param_type: &str) -> (value: String)
    ensures
        value@ == default_extra(name@, param_type@),
        value@.len() > 0,
{
    proof {
        reveal_strlit("string");
        reveal_strlit("integer");
        reveal_strlit("long");
        reveal_strlit("boolean");
        reveal_strlit("float");
        reveal_strlit("double");
        reveal_strlit("uri");
        assert(lowered("string"@) =~= "string"@);
        assert(lowered("integer"@) =~= "integer"@);
        assert(lowered("long"@) =~= "long"@);
        assert(lowered("boolean"@) =~= "boolean"@);
        assert(lowered("float"@) =~= "float"@);
        assert(lowered("double"@) =~= "double"@);
        assert(lowered("uri"@) =~= "uri"@);
        reveal_strlit("example_string");
        reveal_strlit("1");
        reveal_strlit("true");
        reveal_strlit("1.0");
        reveal_strlit("/example");
        reveal_strlit("example");
    }
    let kind = to_chars(param_type);
    if type_is(kind.as_slice(), "string") {
        owned("example_string")
    } else if type_is(kind.as_slice(), "integer") || type_is(kind.as_slice(), "long") {
        owned("1")
    } else if type_is(kind.as_slice(), "boolean") {
        owned("true")
    } else if type_is(kind.as_slice(), "float") || type_is(kind.as_slice(), "double") {
        owned("1.0")
    } else if type_is(kind.as_slice(), "uri") {
        let mut value = owned("content://");
        value.append(name);
        value.append("/example");
        value
    } else {
        owned("example")
    }
}

/// The value that stands for a parameter when none is known. It depends on
/// the flag, the name and the type alone, and is never empty.
pub fn synthesize_default(flag: &str, name: &str, param_type: &str) -> (value: String)
    ensures
        value@ == default_value(flag@, name@, param_type@),
        value@.len() > 0,
{
    proof {
        reveal_strlit("android.intent.action.");
        reveal_strlit("android.intent.category.");
        reveal_strlit("/example");
        reveal_strlit("1");
        reveal_strlit("example");
    }
    if str_eq(flag, "-a") {
        let mut value = owned("android.intent.action.");
        value.append(name);
        value
    } else if str_eq(flag, "-c") {
        let mut value = owned("android.intent.category.");
        value.append(name);
        value
    } else if str_eq(flag, "-d") {
        let mut value = owned("content://");
        value.append(name);
        value.append("/example");
        value
    } else if str_eq(flag, "-t") {
        let mut value = owned(name);
        value.append("/example");
        value
    } else if str_eq(flag, "-e") {
        synthesize_extra(name, param_type)
    } else if str_eq(flag, "-f") {
        owned("1")
    } else {
        owned("example")
    }
}

/// Every pair of a flag and a type has a default for every name, and the
/// default is not empty.
pub proof fn lemma_default_nonempty(flag: Seq<char>, name: Seq<char>, param_type: Seq<char>)
    ensures
        default_value(flag, name, param_type).len() > 0,
{
    reveal_strlit("android.intent.action.");
    reveal_strlit("android.intent.category.");
    reveal_strlit("/example");
    reveal_strlit("1");
    reveal_strlit("example");
    reveal_strlit("example_string");
    reveal_strlit("true");
    reveal_strlit("1.0");
}

/// The parameter that four fields of an inference result spell, if any: the
/// name, the type and the flag must be there and the flag must be one of the
/// six; a missing value is replaced by the default.
pub open spec fn parameter_of(
    name: Option<Seq<char>>,
    param_type: Option<Seq<char>>,
    value: Option<Seq<char>>,
    flag: Option<Seq<char>>,
) -> Option<IntentParameterView> {
    if name is Some && param_type is Some && flag is Some && is_launcher_flag(flag->0) {
        Some(
            IntentParameterView {
                name: name->0,
                param_type: param_type->0,
                value: match value {
                    Some(value) => value,
                    None => default_value(flag->0, name->0, param_type->0),
                },
                flag: flag->0,
            },
        )
    } else {
        None
    }
}

/// The view of an optional string slice.
pub open spec fn slice_view(text: Option<&str>) -> Option<Seq<char>> {
    match text {
        Some(text) => Some(text@),
        None => None,
    }
}

/// The view of an optional parameter.
pub open spec fn optional_parameter(param: Option<IntentParameter>) -> Option<
    IntentParameterView,
> {
    match param {
        Some(param) => Some(param@),
        None => None,
    }
}

/// The parameter that four fields of an inference result spell, if any.
pub fn parameter_from_fields(
    name: Option<&str>,
    param_type: Option<&str>,
    value: Option<&str>,
    flag: Option<&str>,
) -> (param: Option<IntentParameter>)
    ensures
        optional_parameter(param) == parameter_of(
            slice_view(name),
            slice_view(param_type),
            slice_view(value),
            slice_view(flag),
        ),
        param matches Some(found) ==> is_launcher_flag(found@.flag),
{
    let name = match name {
        Some(name) => name,
        None => {
            return None;
        },
    };
    let param_type = match param_type {
        Some(param_type) => param_type,
        None => {
            return None;
        },
    };
    let flag = match flag {
        Some(flag) => flag,
        None => {
            return None;
        },
    };
    if !is_known_flag(flag) {
        return None;
    }
    let value = match value {
        Some(value) => owned(value),
        None => synthesize_default(flag, name, param_type),
    };
    Some(
        IntentParameter {
            name: owned(name),
            param_type: owned(param_type),
            value,
            flag: owned(flag),
        },
    )
}

/// Why an inference result gave no parameters.
#[derive(Debug, Clone, Copy, PartialEq, Eq, Structural)]
pub enum InferenceError {
    /// The reply is not a JSON document.
    Unparseable,
    /// The document has no array under `params`.
    InvalidParams,
}

/// The parameter that one element of `params` spells, if any.
pub open spec fn element_parameter(item: serde_json::Value) -> Option<IntentParameterView> {
    parameter_of(
        text_member(item, "name"@),
        text_member(item, "type"@),
        text_member(item, "value"@),
        text_member(item, "flag"@),
    )
}

/// The parameters that the elements spell, in order; elements that spell
/// none are passed over.
pub open spec fn element_parameters(items: Seq<serde_json::Value>) -> Seq<IntentParameterView>
    decreases items.len(),
{
    if items.len() == 0 {
        Seq::empty()
    } else {
        let front = element_parameters(items.drop_last());
        match element_parameter(items.last()) {
            Some(param) => front.push(param),
            None => front,
        }
    }
}

/// The parameters of an inference result: those of the array under `params`,
/// and none where there is no such array.
pub open spec fn response_parameters(analysis: serde_json::Value) -> Option<
    Seq<IntentParameterView>,
> {
    match json_member(analysis, "params"@) {
        Some(params) => match json_items(params) {
            Some(items) => Some(element_parameters(items)),
            None => None,
        },
        None => None,
    }
}

/// The parameters of every element of `items`, in order.
fn parameters_of_elements(items: &Vec<serde_json::Value>) -> (params: Vec<IntentParameter>)
    ensures
        views(params@) == element_parameters(items@),
        all_flags_known(views(params@)),
{
    let mut params: Vec<IntentParameter> = Vec::new();
    let mut i: usize = 0;
    assert(items@.subrange(0, 0) =~= Seq::<serde_json::Value>::empty());
    assert(views(params@) =~= Seq::<IntentParameterView>::empty());
    while i < items.len()
        invariant
            i <= items@.len(),
            views(params@) == element_parameters(items@.subrange(0, i as int)),
            all_flags_known(views(params@)),
        decreases items@.len() - i,
    {
        let ghost upto = items@.subrange(0, i + 1);
        assert(upto.drop_last() =~= items@.subrange(0, i as int));
        assert(upto.last() == items@[i as int]);
        let item = &items[i];
        let found = parameter_from_fields(
            member_text(item, "name"),
            member_text(item, "type"),
            member_text(item, "value"),
            member_text(item, "flag"),
        );
        match found {
            Some(param) => {
                let ghost before = params@;
                params.push(param);
                assert(views(params@) =~= views(before).push(param@));
            },
            None => {},
        }
        i += 1;
    }
    assert(items@.subrange(0, items@.len() as int) =~= items@);
    params
}

/// The parameters of an inference result. Every element of the array under
/// `params` that has a name, a type and one of the six flags gives one
/// parameter; a missing value is replaced by the default of its flag.
/// Without such an array the result is `InvalidParams`.
pub fn parse_llm_response(analysis: &serde_json::Value) -> (parsed: Result<
    Vec<IntentParameter>,
    InferenceError,
>)
    ensures
        match parsed {
            Ok(params) => response_parameters(*analysis) == Some(views(params@))
                && all_flags_known(views(params@)),
            Err(error) => response_parameters(*analysis) is None && error
                == InferenceError::InvalidParams,
        },
{
    let params = match member(analysis, "params") {
        Some(params) => params,
        None => {
            return Err(InferenceError::InvalidParams);
        },
    };
    match items_of(params) {
        Some(items) => Ok(parameters_of_elements(items)),
        None => Err(InferenceError::InvalidParams),
    }
}

/// The parameter that an element spells where its name, type, value and
/// flag are all strings.
pub open spec fn spelled_parameter(item: serde_json::Value) -> Option<IntentParameterView> {
    if text_member(item, "name"@) is Some && text_member(item, "type"@) is Some && text_member(
        item,
        "value"@,
    ) is Some && text_member(item, "flag"@) is Some {
        Some(
            IntentParameterView {
                name: text_member(item, "name"@)->0,
                param_type: text_member(item, "type"@)->0,
                value: text_member(item, "value"@)->0,
                flag: text_member(item, "flag"@)->0,
            },
        )
    } else {
        None
    }
}

/// The parameters that the elements spell, in order.
pub open spec fn spelled_parameters(items: Seq<serde_json::Value>) -> Seq<IntentParameterView>
    decreases items.len(),
{
    if items.len() == 0 {
        Seq::empty()
    } else {
        let front = spelled_parameters(items.drop_last());
        match spelled_parameter(items.last()) {
            Some(param) => front.push(param),
            None => front,
        }
    }
}

/// The element is marked as a parcelable.
pub open spec fn is_parcelable(item: serde_json::Value) -> bool {
    match json_member(item, "is_parcelable"@) {
        Some(mark) => json_flag(mark) == Some(true),
        None => false,
    }
}

/// The parameters that stand in for a parcelable: those of the array under
/// `alternative_params`, none where there is no such array.
pub open spec fn alternatives_of(item: serde_json::Value) -> Seq<IntentParameterView> {
    match json_member(item, "alternative_params"@) {
        Some(list) => match json_items(list) {
            Some(items) => spelled_parameters(items),
            None => Seq::empty(),
        },
        None => Seq::empty(),
    }
}

/// The parameters of one element: its alternatives where it is a
/// parcelable, else the one it spells, if it spells one.
pub open spec fn parameters_of_element(item: serde_json::Value) -> Seq<IntentParameterView> {
    if is_parcelable(item) {
        alternatives_of(item)
    } else {
        match spelled_parameter(item) {
            Some(param) => seq![param],
            None => Seq::empty(),
        }
    }
}

/// The parameters of all the elements, in order.
pub open spec fn unfolded_parameters(items: Seq<serde_json::Value>) -> Seq<IntentParameterView>
    decreases items.len(),
{
    if items.len() == 0 {
        Seq::empty()
    } else {
        unfolded_parameters(items.drop_last()) + parameters_of_element(items.last())
    }
}

/// The parameters of a result in which parcelables carry alternatives.
pub open spec fn parcelable_response_parameters(analysis: serde_json::Value) -> Option<
    Seq<IntentParameterView>,
> {
    match json_member(analysis, "params"@) {
        Some(params) => match json_items(params) {
            Some(items) => Some(unfolded_parameters(items)),
            None => None,
        },
        None => None,
    }
}

/// The parameter that an element spells where all four fields are strings.
fn spelled(item: &serde_json::Value) -> (param: Option<IntentParameter>)
    ensures
        optional_parameter(param) == spelled_parameter(*item),
{
    let name = member_text(item, "name");
    let param_type = member_text(item, "type");
    let value = member_text(item, "value");
    let flag = member_text(item, "flag");
    match (name, param_type, value, flag) {
        (Some(name), Some(param_type), Some(value), Some(flag)) => Some(
            parameter(name, param_type, owned(value), flag),
        ),
        _ => None,
    }
}

/// Adds the parameters that the elements spell.
fn push_spelled(out: &mut Vec<IntentParameter>, items: &Vec<serde_json::Value>)
    ensures
        views(final(out)@) == views(old(out)@) + spelled_parameters(items@),
{
    let mut i: usize = 0;
    assert(items@.subrange(0, 0) =~= Seq::<serde_json::Value>::empty());
    assert(views(out@) =~= views(old(out)@) + Seq::<IntentParameterView>::empty());
    while i < items.len()
        invariant
            i <= items@.len(),
            views(out@) == views(old(out)@) + spelled_parameters(items@.subrange(0, i as int)),
        decreases items@.len() - i,
    {
        let ghost upto = items@.subrange(0, i + 1);
        assert(upto.drop_last() =~= items@.subrange(0, i as int));
        assert(upto.last() == items@[i as int]);
        match spelled(&items[i]) {
            Some(param) => {
                let ghost before = out@;
                out.push(param);
                assert(views(out@) =~= views(before).push(param@));
                assert(views(out@) =~= views(old(out)@) + spelled_parameters(upto));
            },
            None => {},
        }
        i += 1;
    }
    assert(items@.subrange(0, items@.len() as int) =~= items@);
}

/// Adds the parameters of one element.
fn push_element(out: &mut Vec<IntentParameter>, item: &serde_json::Value)
    ensures
        views(final(out)@) == views(old(out)@) + parameters_of_element(*item),
{
    let marked = match member(item, "is_parcelable") {
        Some(mark) => match flag_of(mark) {
            Some(flag) => flag,
            None => false,
        },
        None => false,
    };
    if marked {
        match member(item, "alternative_params") {
            Some(list) => match items_of(list) {
                Some(items) => {
                    push_spelled(out, items);
                    return ;
                },
                None => {},
            },
            None => {},
        }
        assert(views(out@) =~= views(old(out)@) + Seq::<IntentParameterView>::empty());
    } else {
        match spelled(item) {
            Some(param) => {
                let ghost before = out@;
                out.push(param);
                assert(views(out@) =~= views(before).push(param@));
                assert(views(out@) =~= views(old(out)@) + seq![param@]);
            },
            None => {
                assert(views(out@) =~= views(old(out)@) + Seq::<IntentParameterView>::empty());
            },
        }
    }
}

/// The parameters of a result in which an element marked `is_parcelable`
/// stands for the parameters under its `alternative_params`. Every
/// parameter needs a name, a type, a value and a flag; nothing is checked
/// of the flag, and nothing is put in for a missing value.
pub fn parse_parcelable_response(analysis: &serde_json::Value) -> (parsed: Result<
    Vec<IntentParameter>,
    InferenceError,
>)
    ensures
        match parsed {
            Ok(params) => parcelable_response_parameters(*analysis) == Some(views(params@)),
            Err(error) => parcelable_response_parameters(*analysis) is None && error
                == InferenceError::InvalidParams,
        },
{
    let list = match member(analysis, "params") {
        Some(list) => list,
        None => {
            return Err(InferenceError::InvalidParams);
        },
    };
    let items = match items_of(list) {
        Some(items) => items,
        None => {
            return Err(InferenceError::InvalidParams);
        },
    };
    let mut params: Vec<IntentParameter> = Vec::new();
    let mut i: usize = 0;
    assert(items@.subrange(0, 0) =~= Seq::<serde_json::Value>::empty());
    assert(views(params@) =~= Seq::<IntentParameterView>::empty());
    while i < items.len()
        invariant
            i <= items@.len(),
            views(params@) == unfolded_parameters(items@.subrange(0, i as int)),
        decreases items@.len() - i,
    {
        let ghost upto = items@.subrange(0, i + 1);
        assert(upto.drop_last() =~= items@.subrange(0, i as int));
        assert(upto.last() == items@[i as int]);
        push_element(&mut params, &items[i]);
        i += 1;
    }
    assert(items@.subrange(0, items@.len() as int) =~= items@);
    Ok(params)
}

/// The parameters that the text of a reply spells.
pub open spec fn reply_parameters(reply: Seq<char>) -> Result<
    Seq<IntentParameterView>,
    InferenceError,
> {
    match json_document(reply) {
        Some(analysis) => match response_parameters(analysis) {
            Some(params) => Ok(params),
            None => Err(InferenceError::InvalidParams),
        },
        None => Err(InferenceError::Unparseable),
    }
}

/// The view of the outcome of reading a reply.
pub open spec fn outcome_view(outcome: Result<Vec<IntentParameter>, InferenceError>) -> Result<
    Seq<IntentParameterView>,
    InferenceError,
> {
    match outcome {
        Ok(params) => Ok(views(params@)),
        Err(error) => Err(error),
    }
}

/// Reads the text of a reply as a JSON document and takes its parameters.
pub fn interpret_reply(reply: &str) -> (parsed: Result<Vec<IntentParameter>, InferenceError>)
    ensures
        outcome_view(parsed) == reply_parameters(reply@),
        parsed matches Ok(params) ==> all_flags_known(views(params@)),
{
    match parse_document(reply) {
        Ok(analysis) => parse_llm_response(&analysis),
        Err(_) => Err(InferenceError::Unparseable),
    }
}

/// A parameter with the given fields.
pub open spec fn parameter_view(
    name: Seq<char>,
    param_type: Seq<char>,
    value: Seq<char>,
    flag: Seq<char>,
) -> IntentParameterView {
    IntentParameterView { name, param_type, value, flag }
}

/// The address that the first scheme, the first host and, where there is
/// one, the first path of a component spell.
pub open spec fn first_data_uri(component: ComponentView) -> Seq<char> {
    component.data_schemes[0] + "://"@ + component.data_hosts[0] + (if component.data_paths.len()
        > 0 {
        component.data_paths[0]
    } else {
        Seq::empty()
    })
}

/// The parameters that the manifest alone gives: the first action, the first
/// category, the address of the first scheme and host, the first MIME type,
/// each where the component declares one.
pub open spec fn basic_params(component: ComponentView) -> Seq<IntentParameterView> {
    (if component.actions.len() > 0 {
        seq![parameter_view("action"@, "String"@, component.actions[0], "-a"@)]
    } else {
        Seq::empty()
    }) + (if component.categories.len() > 0 {
        seq![parameter_view("category"@, "String"@, component.categories[0], "-c"@)]
    } else {
        Seq::empty()
    }) + (if component.data_schemes.len() > 0 && component.data_hosts.len() > 0 {
        seq![parameter_view("data"@, "Uri"@, first_data_uri(component), "-d"@)]
    } else {
        Seq::empty()
    }) + (if component.data_mime_types.len() > 0 {
        seq![parameter_view("type"@, "String"@, component.data_mime_types[0], "-t"@)]
    } else {
        Seq::empty()
    })
}

/// A parameter with the given fields.
fn parameter(name: &str, param_type: &str, value: String, flag: &str) -> (param: IntentParameter)
    ensures
        param@ == parameter_view(name@, param_type@, value@, flag@),
{
    IntentParameter { name: owned(name), param_type: owned(param_type), value, flag: owned(flag) }
}

/// The parameters that the manifest alone gives.
pub fn generate_basic_params(component: &Component) -> (params: Vec<IntentParameter>)
    ensures
        views(params@) == basic_params(component@),
        all_flags_known(views(params@)),
{
    let mut params: Vec<IntentParameter> = Vec::new();
    let ghost mut built: Seq<IntentParameterView> = Seq::empty();
    assert(views(params@) =~= built);
    if component.actions.len() > 0 {
        params.push(parameter("action", "String", component.actions[0].clone(), "-a"));
        proof {
            built = built.push(parameter_view("action"@, "String"@, component@.actions[0], "-a"@));
        }
        assert(views(params@) =~= built);
    }
    if component.categories.len() > 0 {
        params.push(parameter("category", "String", component.categories[0].clone(), "-c"));
        proof {
            built = built.push(
                parameter_view("category"@, "String"@, component@.categories[0], "-c"@),
            );
        }
        assert(views(params@) =~= built);
    }
    if component.data_schemes.len() > 0 && component.data_hosts.len() > 0 {
        let mut uri = component.data_schemes[0].clone();
        uri.append("://");
        uri.append(component.data_hosts[0].as_str());
        if component.data_paths.len() > 0 {
            uri.append(component.data_paths[0].as_str());
        }
        assert(uri@ =~= first_data_uri(component@));
        params.push(parameter("data", "Uri", uri, "-d"));
        proof {
            built = built.push(parameter_view("data"@, "Uri"@, first_data_uri(component@), "-d"@));
        }
        assert(views(params@) =~= built);
    }
    if component.data_mime_types.len() > 0 {
        params.push(parameter("type", "String", component.data_mime_types[0].clone(), "-t"));
        proof {
            built = built.push(
                parameter_view("type"@, "String"@, component@.data_mime_types[0], "-t"@),
            );
        }
        assert(views(params@) =~= built);
    }
    assert(built =~= basic_params(component@));
    params
}

/// Whether a value is acceptable for a flag and a type. Any value is.
pub fn validate_param_value(flag: &str, value: &str, param_type: &str) -> (valid: bool)
    ensures
        valid,
{
    true
}

/// What a flag passes, as it is named in a warning.
pub open spec fn flag_role(flag: Seq<char>) -> Seq<char> {
    if flag == "-a"@ {
        "Action"@
    } else if flag == "-c"@ {
        "Category"@
    } else if flag == "-d"@ {
        "Data"@
    } else if flag == "-t"@ {
        "Type"@
    } else if flag == "-e"@ {
        "Extra"@
    } else {
        "Flag"@
    }
}

/// The warning that a parameter gives rise to: one for a flag that is none
/// of the six, one for an empty value under a known flag.
pub open spec fn parameter_warning(param: IntentParameterView) -> Option<Seq<char>> {
    if !is_launcher_flag(param.flag) {
        Some("Warning: Unknown flag '"@ + param.flag + "' for parameter '"@ + param.name + "'"@)
    } else if param.value.len() == 0 {
        Some(
            "Warning: "@ + flag_role(param.flag) + " parameter '"@ + param.name
                + "' has empty value"@,
        )
    } else {
        None
    }
}

/// The warnings of the parameters, in order.
pub open spec fn parameter_warnings(params: Seq<IntentParameterView>) -> Seq<Seq<char>>
    decreases params.len(),
{
    if params.len() == 0 {
        Seq::empty()
    } else {
        let front = parameter_warnings(params.drop_last());
        match parameter_warning(params.last()) {
            Some(warning) => front.push(warning),
            None => front,
        }
    }
}

/// The parameters whose flag is one of the six, in order.
pub open spec fn accepted_params(params: Seq<IntentParameterView>) -> Seq<IntentParameterView>
    decreases params.len(),
{
    if params.len() == 0 {
        Seq::empty()
    } else {
        let front = accepted_params(params.drop_last());
        if is_launcher_flag(params.last().flag) {
            front.push(params.last())
        } else {
            front
        }
    }
}

/// One of the parameters passes an action.
pub open spec fn has_action(params: Seq<IntentParameterView>) -> bool {
    exists|i: int| 0 <= i < params.len() && #[trigger] params[i].flag == "-a"@
}

/// Every warning of a validation: for no parameters at all a single one;
/// otherwise those of the parameters, then one where no action is passed.
pub open spec fn validation_warnings(params: Seq<IntentParameterView>) -> Seq<Seq<char>> {
    if params.len() == 0 {
        seq!["No parameters provided for ADB command"@]
    } else if has_action(params) {
        parameter_warnings(params)
    } else {
        parameter_warnings(params).push("ADB command must have at least one action (-a)"@)
    }
}

/// The outcome of a validation: the parameters that stay, and the warnings.
#[derive(Debug)]
pub struct Validation {
    pub accepted: Vec<IntentParameter>,
    pub warnings: Vec<String>,
}

/// What a flag passes, as it is named in a warning.
fn role_of(flag: &str) -> (role: String)
    ensures
        role@ == flag_role(flag@),
{
    if str_eq(flag, "-a") {
        owned("Action")
    } else if str_eq(flag, "-c") {
        owned("Category")
    } else if str_eq(flag, "-d") {
        owned("Data")
    } else if str_eq(flag, "-t") {
        owned("Type")
    } else if str_eq(flag, "-e") {
        owned("Extra")
    } else {
        owned("Flag")
    }
}

/// The warning that a parameter gives rise to.
fn warning_of(param: &IntentParameter) -> (warning: Option<String>)
    ensures
        crate::text::optional_view(warning) == parameter_warning(param@),
{
    if !is_known_flag(param.flag.as_str()) {
        let mut text = owned("Warning: Unknown flag '");
        text.append(param.flag.as_str());
        text.append("' for parameter '");
        text.append(param.name.as_str());
        text.append("'");
        Some(text)
    } else if to_chars(param.value.as_str()).len() == 0 {
        let mut text = owned("Warning: ");
        text.append(role_of(param.flag.as_str()).as_str());
        text.append(" parameter '");
        text.append(param.name.as_str());
        text.append("' has empty value");
        Some(text)
    } else {
        None
    }
}

/// Validates the parameters of a command. A parameter whose flag is none of
/// the six is dropped, with a warning; an empty value is warned of and
/// stays; a command without an action is warned of and stays as it is.
pub fn validate_adb_command(params: &Vec<IntentParameter>) -> (validation: Validation)
    ensures
        views(validation.accepted@) == accepted_params(views(params@)),
        views(validation.warnings@) == validation_warnings(views(params@)),
        all_flags_known(views(validation.accepted@)),
{
    let mut accepted: Vec<IntentParameter> = Vec::new();
    let mut warnings: Vec<String> = Vec::new();
    if params.len() == 0 {
        warnings.push(owned("No parameters provided for ADB command"));
        assert(views(warnings@) =~= validation_warnings(views(params@)));
        assert(views(accepted@) =~= accepted_params(views(params@)));
        return Validation { accepted, warnings };
    }
    let mut action = false;
    let mut i: usize = 0;
    assert(views(params@).subrange(0, 0) =~= Seq::<IntentParameterView>::empty());
    assert(views(accepted@) =~= Seq::<IntentParameterView>::empty());
    assert(views(warnings@) =~= Seq::<Seq<char>>::empty());
    while i < params.len()
        invariant
            i <= params@.len(),
            views(accepted@) == accepted_params(views(params@).subrange(0, i as int)),
            views(warnings@) == parameter_warnings(views(params@).subrange(0, i as int)),
            all_flags_known(views(accepted@)),
            action == has_action(views(params@).subrange(0, i as int)),
        decreases params@.len() - i,
    {
        let ghost shorter = views(params@).subrange(0, i as int);
        let ghost upto = views(params@).subrange(0, i + 1);
        assert(upto.drop_last() =~= shorter);
        assert(upto.last() == params@[i as int]@);
        let param = &params[i];
        if is_known_flag(param.flag.as_str()) {
            let ghost before = accepted@;
            accepted.push(param.clone());
            assert(views(accepted@) =~= views(before).push(param@));
        }
        match warning_of(param) {
            Some(warning) => {
                let ghost before = warnings@;
                warnings.push(warning);
                assert(views(warnings@) =~= views(before).push(warning@));
            },
            None => {},
        }
        let passes_action = str_eq(param.flag.as_str(), "-a");
        proof {
            if has_action(shorter) {
                let k = choose|k: int| 0 <= k < shorter.len() && #[trigger] shorter[k].flag == "-a"@;
                assert(upto[k].flag == "-a"@);
            }
            if passes_action {
                assert(upto[i as int].flag == "-a"@);
            }
            if has_action(upto) {
                let k = choose|k: int| 0 <= k < upto.len() && #[trigger] upto[k].flag == "-a"@;
                if k < i {
                    assert(shorter[k].flag == "-a"@);
                }
            }
        }
        action = action || passes_action;
        i += 1;
    }
    assert(views(params@).subrange(0, params@.len() as int) =~= views(params@));
    if !action {
        let ghost before = warnings@;
        warnings.push(owned("ADB command must have at least one action (-a)"));
        assert(views(warnings@) =~= views(before).push(
            "ADB command must have at least one action (-a)"@,
        ));
    }
    Validation { accepted, warnings }
}

/// A file that may hold the source of a component: where it lies and what
/// it holds.
#[derive(Debug)]
pub struct SourceFile {
    pub path: String,
    pub content: String,
}

/// What a `SourceFile` holds.
pub struct SourceFileView {
    pub path: Seq<char>,
    pub content: Seq<char>,
}

impl View for SourceFile {
    type V = SourceFileView;

    open spec fn view(&self) -> SourceFileView {
        SourceFileView { path: self.path@, content: self.content@ }
    }
}

/// The texts that show a file to be about a component: its name, its class
/// declared, extended, implemented, created or called, and its package
/// declared.
pub open spec fn mention_fragments(component: ComponentView) -> Seq<Seq<char>> {
    seq![
        component.name,
        "class "@ + component.class_name,
        "extends "@ + component.class_name,
        "implements "@ + component.class_name,
        "new "@ + component.class_name,
        component.class_name + "("@,
        "package "@ + component.package,
    ]
}

/// The file is one of source code and is named after the class of the
/// component.
pub open spec fn is_named_after(file: SourceFileView, component: ComponentView) -> bool {
    is_source_path(file.path) && stem_of(file_name_of(file.path)) == component.class_name
}

/// The file is one of source code and mentions the component.
pub open spec fn mentions(file: SourceFileView, component: ComponentView) -> bool {
    is_source_path(file.path) && has_any_substring(file.content, mention_fragments(component))
}

/// The first of `files` that is named after the class of the component.
pub open spec fn first_named_after(files: Seq<SourceFileView>, component: ComponentView) -> Option<
    SourceFileView,
>
    decreases files.len(),
{
    if files.len() == 0 {
        None
    } else {
        match first_named_after(files.drop_last(), component) {
            Some(file) => Some(file),
            None => if is_named_after(files.last(), component) {
                Some(files.last())
            } else {
                None
            },
        }
    }
}

/// The first of `files` that mentions the component.
pub open spec fn first_mentioning(files: Seq<SourceFileView>, component: ComponentView) -> Option<
    SourceFileView,
>
    decreases files.len(),
{
    if files.len() == 0 {
        None
    } else {
        match first_mentioning(files.drop_last(), component) {
            Some(file) => Some(file),
            None => if mentions(files.last(), component) {
                Some(files.last())
            } else {
                None
            },
        }
    }
}

/// The source file of a component by what the files hold: the first file
/// named after its class, or else the first file that mentions it.
pub open spec fn source_by_content(files: Seq<SourceFileView>, component: ComponentView) -> Option<
    Seq<char>,
> {
    match first_named_after(files, component) {
        Some(file) => Some(file.path),
        None => match first_mentioning(files, component) {
            Some(file) => Some(file.path),
            None => None,
        },
    }
}

/// The texts that show a file to be about a component, as characters.
fn mention_patterns(component: &Component) -> (patterns: Vec<Vec<char>>)
    ensures
        views(patterns@) == mention_fragments(component@),
{
    let class_name = component.class_name.as_str();
    let mut patterns: Vec<Vec<char>> = Vec::new();
    patterns.push(to_chars(component.name.as_str()));
    let mut declared = owned("class ");
    declared.append(class_name);
    patterns.push(to_chars(declared.as_str()));
    let mut extended = owned("extends ");
    extended.append(class_name);
    patterns.push(to_chars(extended.as_str()));
    let mut implemented = owned("implements ");
    implemented.append(class_name);
    patterns.push(to_chars(implemented.as_str()));
    let mut created = owned("new ");
    created.append(class_name);
    patterns.push(to_chars(created.as_str()));
    let mut called = owned(class_name);
    called.append("(");
    patterns.push(to_chars(called.as_str()));
    let mut package = owned("package ");
    package.append(component.package.as_str());
    patterns.push(to_chars(package.as_str()));
    assert(views(patterns@) =~= mention_fragments(component@));
    patterns
}

/// The source file of a component among files that were read: the first one
/// named after its class, or else the first one that mentions it.
pub fn find_source_file(component: &Component, files: &Vec<SourceFile>) -> (found: Result<
    String,
    SourceNotFound,
>)
    ensures
        match found {
            Ok(path) => source_by_content(views(files@), component@) == Some(path@),
            Err(error) => source_by_content(views(files@), component@) is None && error
                == SourceNotFound::NoCandidate,
        },
{
    let patterns = mention_patterns(component);
    let mut named: Option<usize> = None;
    let mut mentioning: Option<usize> = None;
    let mut i: usize = 0;
    let ghost all = views(files@);
    assert(all.subrange(0, 0) =~= Seq::<SourceFileView>::empty());
    while i < files.len()
        invariant
            i <= files@.len(),
            all == views(files@),
            views(patterns@) == mention_fragments(component@),
            match named {
                Some(at) => at < i && first_named_after(all.subrange(0, i as int), component@)
                    == Some(all[at as int]),
                None => first_named_after(all.subrange(0, i as int), component@) is None,
            },
            match mentioning {
                Some(at) => at < i && first_mentioning(all.subrange(0, i as int), component@)
                    == Some(all[at as int]),
                None => first_mentioning(all.subrange(0, i as int), component@) is None,
            },
        decreases files@.len() - i,
    {
        let ghost upto = all.subrange(0, i + 1);
        assert(upto.drop_last() =~= all.subrange(0, i as int));
        assert(upto.last() == files@[i as int]@);
        let file = &files[i];
        match source_stem(file.path.as_str()) {
            Some(stem) => {
                if named.is_none() && str_eq(stem.as_str(), component.class_name.as_str()) {
                    named = Some(i);
                }
                if mentioning.is_none() {
                    let content = to_chars(file.content.as_str());
                    if holds_any(content.as_slice(), &patterns) {
                        mentioning = Some(i);
                    }
                }
            },
            None => {},
        }
        i += 1;
    }
    assert(all.subrange(0, files@.len() as int) =~= all);
    match named {
        Some(at) => {
            assert(all[at as int] == files@[at as int]@);
            Ok(files[at].path.clone())
        },
        None => match mentioning {
            Some(at) => {
                assert(all[at as int] == files@[at as int]@);
                Ok(files[at].path.clone())
            },
            None => Err(SourceNotFound::NoCandidate),
        },
    }
}

} // verus!
