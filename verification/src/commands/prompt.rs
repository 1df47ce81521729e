//! What an answer at the terminal means.

#![verifier::loop_isolation(false)]

use vstd::prelude::*;

use crate::config::render::port_text;
use crate::config::template::{TemplateKind, all_kinds};
use crate::config::validate::is_port;
use crate::strings::{
    decimal_text, is_blank, joined, lowered, parse_u16, same, split_at_any, trimmed,
};
use crate::text::{blank, join, lower, number, opt, opt_str, parse_unsigned, split, strs, trim};

verus! {

broadcast use crate::text::group_text;

/// The answer, or what stands in for it where it is blank.
pub open spec fn answer_or(input: Seq<char>, default: Option<Seq<char>>) -> Option<Seq<char>> {
    if blank(input) {
        match default {
            Some(d) => if d.len() == 0 {
                None
            } else {
                Some(d)
            },
            None => None,
        }
    } else {
        Some(trim(input))
    }
}

pub fn optional_answer(input: &str, default: Option<&str>) -> (r: Option<String>)
    ensures
        opt(r) == answer_or(input@, opt_str(default)),
{
    let t: String = trimmed(input);
    if t.as_str().is_empty() {
        match default {
            Some(d) => {
                if d.is_empty() {
                    None
                } else {
                    Some(d.to_owned())
                }
            },
            None => None,
        }
    } else {
        Some(t)
    }
}

/// Yes, no, or what stands in for a blank answer.
pub fn confirm_answer(input: &str, default_yes: bool) -> (r: bool)
    ensures
        r == (if blank(input@) {
            default_yes
        } else {
            lower(trim(input@)) == "y"@ || lower(trim(input@)) == "yes"@
        }),
{
    let t: String = lowered(&trimmed(input));
    if is_blank(input) {
        return default_yes;
    }
    same(&t, "y") || same(&t, "yes")
}

/// The parts of a list that are not blank, without white space at their ends.
pub open spec fn list_items(parts: Seq<Seq<char>>) -> Seq<Seq<char>>
    decreases parts.len(),
{
    if parts.len() == 0 {
        Seq::empty()
    } else {
        let before = list_items(parts.drop_last());
        if blank(parts.last()) {
            before
        } else {
            before.push(trim(parts.last()))
        }
    }
}

/// The items of a list that commas or semicolons separate.
pub open spec fn items_of(value: Seq<char>) -> Seq<Seq<char>> {
    list_items(split(value, ",;"@))
}

/// The items of a list that commas or semicolons separate.
pub fn split_multi_value(value: &str) -> (r: Vec<String>)
    ensures
        strs(r@) == items_of(value@),
{
    let parts: Vec<String> = split_at_any(value, ",;");
    let ghost all = strs(parts@);
    let mut out: Vec<String> = Vec::new();
    let mut i: usize = 0;
    while i < parts.len()
        invariant
            i <= parts@.len(),
            all == strs(parts@),
            strs(out@) == list_items(all.take(i as int)),
        decreases parts@.len() - i,
    {
        let t: String = trimmed(&parts[i]);
        if !t.as_str().is_empty() {
            out.push(t);
        }
        i += 1;
    }
    out
}

/// A port number other than zero.
pub fn port_answer(text: &str) -> (r: Option<u16>)
    ensures
        match r {
            Some(n) => n > 0 && parse_unsigned(text@, 65535) == Some(n as nat),
            None => !is_port(text@),
        },
{
    match parse_u16(text) {
        Some(n) => {
            if n > 0 {
                Some(n)
            } else {
                None
            }
        },
        None => None,
    }
}

/// The texts of several values, or that there are none.
pub open spec fn shown_list(values: Seq<Seq<char>>, sep: Seq<char>) -> Seq<char> {
    if values.len() == 0 {
        "<none>"@
    } else {
        join(values, sep)
    }
}

pub fn display_list(values: &Vec<String>, sep: &str) -> (r: String)
    ensures
        r@ == shown_list(strs(values@), sep@),
{
    assert(strs(values@).len() == values@.len());
    if values.len() == 0 {
        "<none>".to_owned()
    } else {
        joined(values, sep)
    }
}

pub fn display_repeatable_values(values: &Vec<String>) -> (r: String)
    ensures
        r@ == shown_list(strs(values@), " | "@),
{
    display_list(values, " | ")
}

/// A text, or that there is none.
pub open spec fn shown_or_empty(value: Option<Seq<char>>) -> Seq<char> {
    match value {
        Some(v) => v,
        None => "<empty>"@,
    }
}

pub fn display_or_empty(value: &Option<String>) -> (r: String)
    ensures
        r@ == shown_or_empty(opt(*value)),
{
    match value {
        Some(v) => v.clone(),
        None => "<empty>".to_owned(),
    }
}

/// A text, or that there is none or an empty one.
pub open spec fn shown_optional(value: Option<Seq<char>>) -> Seq<char> {
    match value {
        Some(v) => if v.len() == 0 {
            "<empty>"@
        } else {
            v
        },
        None => "<empty>"@,
    }
}

pub fn display_optional(value: &Option<String>) -> (r: String)
    ensures
        r@ == shown_optional(opt(*value)),
{
    match value {
        Some(v) => {
            if v.as_str().is_empty() {
                "<empty>".to_owned()
            } else {
                v.clone()
            }
        },
        None => "<empty>".to_owned(),
    }
}

pub fn display_port(value: Option<u16>) -> (r: String)
    ensures
        r@ == shown_or_empty(port_text(value)),
{
    match value {
        Some(n) => decimal_text(n as usize),
        None => "<empty>".to_owned(),
    }
}

pub open spec fn shown_template(value: Option<TemplateKind>) -> Seq<char> {
    match value {
        Some(k) => k.name(),
        None => "<none>"@,
    }
}

pub fn display_template(value: Option<TemplateKind>) -> (r: &'static str)
    ensures
        r@ == shown_template(value),
{
    match value {
        Some(k) => k.cli_name(),
        None => "<none>",
    }
}

/// What is said of a text that is no port.
pub open spec fn bad_port() -> Seq<char> {
    "! Port must be a number between 1 and 65535"@
}

/// The names of all templates.
pub open spec fn template_names() -> Seq<char> {
    join(all_kinds().map_values(|k: TemplateKind| k.name()), ", "@)
}

pub fn template_choices() -> (r: String)
    ensures
        r@ == template_names(),
{
    let names: Vec<String> = vec![
        TemplateKind::Embedded.cli_name().to_owned(),
        TemplateKind::Legacy.cli_name().to_owned(),
        TemplateKind::Vps.cli_name().to_owned(),
        TemplateKind::Jump.cli_name().to_owned(),
        TemplateKind::Forward.cli_name().to_owned(),
    ];
    assert(strs(names@) =~= all_kinds().map_values(|k: TemplateKind| k.name()));
    joined(&names, ", ")
}

} // verus!
