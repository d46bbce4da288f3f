//! The settings of the inference.

use crate::text::{
    has_substring, lowercase, optional_view, owned, str_contains, to_chars, to_lowercase, views,
};
use vstd::prelude::*;
use vstd::string::*;

verus! {

/// Where the inference is reached and which model it runs.
#[derive(Debug)]
pub struct LLMConfig {
    pub model_type: String,
    pub api_url: String,
    pub api_key: Option<String>,
    pub context_lines: usize,
}

/// What an `LLMConfig` holds.
pub struct LLMConfigView {
    pub model_type: Seq<char>,
    pub api_url: Seq<char>,
    pub api_key: Option<Seq<char>>,
    pub context_lines: nat,
}

impl View for LLMConfig {
    type V = LLMConfigView;

    open spec fn view(&self) -> LLMConfigView {
        LLMConfigView {
            model_type: self.model_type@,
            api_url: self.api_url@,
            api_key: optional_view(self.api_key),
            context_lines: self.context_lines as nat,
        }
    }
}

impl LLMConfig {
    /// The settings for the given address, key and model, with ten lines of
    /// context.
    pub fn new(api_url: String, api_key: Option<String>, model_type: String) -> (config: Self)
        ensures
            config@ == (LLMConfigView {
                model_type: model_type@,
                api_url: api_url@,
                api_key: optional_view(api_key),
                context_lines: 10,
            }),
    {
        LLMConfig { api_url, api_key, model_type, context_lines: 10 }
    }

    /// Whether an inference is configured: the address is not empty.
    pub fn is_configured(&self) -> (configured: bool)
        ensures
            configured == (self@.api_url.len() > 0),
    {
        to_chars(self.api_url.as_str()).len() > 0
    }
}

impl Default for LLMConfig {
    /// The settings of a local server: no key, five lines of context.
    fn default() -> (config: Self)
        ensures
            config@ == (LLMConfigView {
                model_type: "lmstudio"@,
                api_url: "http://localhost:1234/v1"@,
                api_key: None,
                context_lines: 5,
            }),
    {
        LLMConfig {
            model_type: owned("lmstudio"),
            api_url: owned("http://localhost:1234/v1"),
            api_key: None,
            context_lines: 5,
        }
    }
}

impl Clone for LLMConfig {
    fn clone(&self) -> (copy: Self)
        ensures
            copy@ == self@,
    {
        LLMConfig {
            model_type: self.model_type.clone(),
            api_url: self.api_url.clone(),
            api_key: crate::text::clone_optional(&self.api_key),
            context_lines: self.context_lines,
        }
    }
}

/// One model that the server offers: its id and, where it has one, its name.
#[derive(Debug)]
pub struct ModelEntry {
    pub id: String,
    pub name: Option<String>,
}

/// The label of a model: its name, or its id where it has no name.
pub open spec fn model_label(id: Seq<char>, name: Option<Seq<char>>) -> Seq<char> {
    match name {
        Some(name) => name,
        None => id,
    }
}

/// The labels of the models, in order.
pub fn model_labels(models: Vec<ModelEntry>) -> (labels: Vec<String>)
    ensures
        labels@.len() == models@.len(),
        forall|i: int|
            0 <= i < models@.len() ==> (#[trigger] labels@[i])@ == model_label(
                models@[i].id@,
                optional_view(models@[i].name),
            ),
{
    let mut labels: Vec<String> = Vec::new();
    let mut i: usize = 0;
    while i < models.len()
        invariant
            i <= models@.len(),
            labels@.len() == i,
            forall|j: int|
                0 <= j < i ==> (#[trigger] labels@[j])@ == model_label(
                    models@[j].id@,
                    optional_view(models@[j].name),
                ),
        decreases models@.len() - i,
    {
        let label = match &models[i].name {
            Some(name) => name.clone(),
            None => models[i].id.clone(),
        };
        labels.push(label);
        i += 1;
    }
    labels
}

/// `c` is one of the ten decimal digits.
pub open spec fn is_digit(c: char) -> bool {
    '0' <= c && c <= '9'
}

/// The number that decimal digits spell.
pub open spec fn digits_value(digits: Seq<char>) -> int
    decreases digits.len(),
{
    if digits.len() == 0 {
        0
    } else {
        digits_value(digits.drop_last()) * 10 + (digits.last() as int - '0' as int)
    }
}

/// The digits of a text: all of it, but for a plus sign in front.
pub open spec fn digits_of(text: Seq<char>) -> Seq<char> {
    if text.len() > 0 && text[0] == '+' {
        text.drop_first()
    } else {
        text
    }
}

/// The number that a text spells: one or more decimal digits, a plus sign
/// allowed in front of them, and the number no greater than 64 bits hold.
pub open spec fn decimal_number(text: Seq<char>) -> Option<u64> {
    let digits = digits_of(text);
    if digits.len() > 0 && (forall|i: int| 0 <= i < digits.len() ==> is_digit(digits[i]))
        && digits_value(digits) <= u64::MAX {
        Some(digits_value(digits) as u64)
    } else {
        None
    }
}

/// The number that a text spells, if it spells one.
pub fn parse_number(text: &str) -> (number: Option<u64>)
    ensures
        number == decimal_number(text@),
{
    let chars = to_chars(text);
    let begin: usize = if chars.len() > 0 && chars[0] == '+' {
        1
    } else {
        0
    };
    if begin == chars.len() {
        return None;
    }
    let ghost digits = digits_of(text@);
    assert(digits =~= chars@.subrange(begin as int, chars@.len() as int));
    let mut value: u64 = 0;
    let mut too_large = false;
    let mut i: usize = begin;
    assert(digits.subrange(0, 0) =~= Seq::<char>::empty());
    while i < chars.len()
        invariant
            begin <= i <= chars@.len(),
            digits == digits_of(text@),
            digits == chars@.subrange(begin as int, chars@.len() as int),
            forall|j: int| 0 <= j < i - begin ==> is_digit(digits[j]),
            !too_large ==> value == digits_value(digits.subrange(0, i - begin)),
            too_large ==> digits_value(digits.subrange(0, i - begin)) > u64::MAX,
        decreases chars@.len() - i,
    {
        let c = chars[i];
        assert(digits[i - begin] == c);
        if !('0' <= c && c <= '9') {
            assert(!is_digit(digits[i - begin]));
            return None;
        }
        let ghost upto = digits.subrange(0, i - begin + 1);
        assert(upto.drop_last() =~= digits.subrange(0, i - begin));
        assert(upto.last() == c);
        let digit: u64 = (c as u8 - '0' as u8) as u64;
        if !too_large {
            if value > (u64::MAX - digit) / 10 {
                too_large = true;
            } else {
                value = value * 10 + digit;
            }
        }
        i += 1;
    }
    assert(digits.subrange(0, digits.len() as int) =~= digits);
    if too_large {
        None
    } else {
        Some(value)
    }
}

/// The model that stands at the place `number`, counted from one.
pub open spec fn numbered_model(models: Seq<Seq<char>>, number: Option<u64>) -> Option<Seq<char>> {
    match number {
        Some(n) => if 0 < n <= models.len() {
            Some(models[n - 1])
        } else {
            None
        },
        None => None,
    }
}

/// The first model whose lower-case form holds `wanted`.
pub open spec fn first_holding(models: Seq<Seq<char>>, wanted: Seq<char>) -> Option<Seq<char>>
    decreases models.len(),
{
    if models.len() == 0 {
        None
    } else {
        match first_holding(models.drop_last(), wanted) {
            Some(model) => Some(model),
            None => if has_substring(lowercase(models.last()), wanted) {
                Some(models.last())
            } else {
                None
            },
        }
    }
}

/// The model that an answer picks from the list: the one at the place that
/// the answer counts, or else the first whose name holds the answer, case
/// set aside.
pub open spec fn picked_model(
    models: Seq<Seq<char>>,
    number: Option<u64>,
    wanted: Seq<char>,
) -> Option<Seq<char>> {
    match numbered_model(models, number) {
        Some(model) => Some(model),
        None => first_holding(models, wanted),
    }
}

/// The model that stands at the place `number`, counted from one.
pub fn model_by_number(models: &Vec<String>, number: Option<u64>) -> (model: Option<String>)
    ensures
        optional_view(model) == numbered_model(views(models@), number),
{
    match number {
        Some(n) => {
            if 0 < n && n <= models.len() as u64 {
                let at: usize = (n - 1) as usize;
                assert(views(models@)[at as int] == models@[at as int]@);
                Some(models[at].clone())
            } else {
                None
            }
        },
        None => None,
    }
}

/// The first model whose lower-case form holds `wanted`.
pub fn model_by_name(models: &Vec<String>, wanted: &str) -> (model: Option<String>)
    ensures
        optional_view(model) == first_holding(views(models@), wanted@),
{
    let mut found: Option<usize> = None;
    let mut i: usize = 0;
    let ghost all = views(models@);
    assert(all.subrange(0, 0) =~= Seq::<Seq<char>>::empty());
    while i < models.len()
        invariant
            i <= models@.len(),
            all == views(models@),
            match found {
                Some(at) => at < i && first_holding(all.subrange(0, i as int), wanted@) == Some(
                    all[at as int],
                ),
                None => first_holding(all.subrange(0, i as int), wanted@) is None,
            },
        decreases models@.len() - i,
    {
        let ghost upto = all.subrange(0, i + 1);
        assert(upto.drop_last() =~= all.subrange(0, i as int));
        assert(upto.last() == models@[i as int]@);
        if found.is_none() {
            let lower = to_lowercase(models[i].as_str());
            if str_contains(lower.as_str(), wanted) {
                found = Some(i);
            }
        }
        i += 1;
    }
    assert(all.subrange(0, models@.len() as int) =~= all);
    match found {
        Some(at) => {
            assert(all[at as int] == models@[at as int]@);
            Some(models[at].clone())
        },
        None => None,
    }
}

/// The model that an answer picks from the list, if it picks one.
pub fn choose_model(models: &Vec<String>, answer: &str) -> (model: Option<String>)
    ensures
        optional_view(model) == picked_model(
            views(models@),
            decimal_number(answer@),
            lowercase(answer@),
        ),
{
    match model_by_number(models, parse_number(answer)) {
        Some(model) => Some(model),
        None => {
            let wanted = to_lowercase(answer);
            model_by_name(models, wanted.as_str())
        },
    }
}

} // verus!
