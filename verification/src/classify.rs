//! The variable classifier: what a `let` line declares, judged from the text
//! of its initialiser and of its type annotation.

use vstd::prelude::*;
use crate::text::contains_char;
use crate::text::contains_char_of;
use crate::text::contains_of;
use crate::text::contains_str;
use crate::text::lower;
use crate::text::lower_of;
use crate::text::split_once;
use crate::text::split_once_of;
use crate::text::starts_with_of;
use crate::text::starts_with_str;
use crate::text::strip_prefix;
use crate::text::strip_prefix_of;
use crate::text::strip_prefixes;
use crate::text::strip_prefixes_of;
use crate::text::strip_trailing;
use crate::text::strip_trailing_of;
use crate::text::trim;
use crate::text::trim_of;

verus! {

/// What the scanner knows of a declared variable.
#[derive(Clone, Copy, Debug, PartialEq, Eq, Structural)]
pub enum VarInfo {
    /// A growable text: made by `String::new()`, `String::from(..)` or
    /// `String::with_capacity(..)`.
    Text,
    /// A growable sequence; `reserved` says that capacity was set aside for
    /// it, when it was made or by a later `reserve`.
    Vector { reserved: bool },
    /// A handle on a trait object: calls through it are dispatched at run
    /// time.
    DynamicDispatch,
}

/// `text`, read without regard to ASCII case, mentions a trait object.
pub open spec fn contains_trait_object_of(text: Seq<char>) -> bool {
    let l = lower_of(text);
    ||| contains_of(l, "box<dyn"@)
    ||| contains_of(l, "rc<dyn"@)
    ||| contains_of(l, "arc<dyn"@)
    ||| contains_of(l, "&dyn"@)
    ||| contains_of(l, "dyn "@)
    ||| contains_of(l, "dyn>"@)
}

/// The name that the left side of a declaration binds: the text before the
/// first `:`, without a leading `mut `, trimmed; none where that is empty.
pub open spec fn extract_identifier_of(left: Seq<char>) -> Option<Seq<char>> {
    let t = trim_of(left);
    let t1 = match split_once_of(t, ':') {
        Some((before, _)) => trim_of(before),
        None => t,
    };
    let t2 = match strip_prefix_of(t1, "mut "@) {
        Some(rest) => trim_of(rest),
        None => t1,
    };
    if t2.len() == 0 {
        None
    } else {
        Some(t2)
    }
}

/// The class of a declaration with the left side `left` and the initialiser
/// `init`. The first of these that holds decides: a text constructor, the
/// sequence constructor with capacity, the empty sequence constructor, a
/// trait object on either side.
pub open spec fn classify_of(left: Seq<char>, init: Seq<char>) -> Option<VarInfo> {
    if contains_of(init, "String::new()"@) || contains_of(init, "String::from("@) || contains_of(
        init,
        "String::with_capacity"@,
    ) {
        Some(VarInfo::Text)
    } else if contains_of(init, "Vec::with_capacity"@) {
        Some(VarInfo::Vector { reserved: true })
    } else if contains_of(init, "Vec::new()"@) || (contains_of(init, "Vec::<"@) && contains_of(
        init,
        "::new()"@,
    )) {
        Some(VarInfo::Vector { reserved: false })
    } else if contains_trait_object_of(left) || contains_trait_object_of(init) {
        Some(VarInfo::DynamicDispatch)
    } else {
        None
    }
}

/// The declaration without its keyword and its closing semicolons.
pub open spec fn declaration_body(line: Seq<char>) -> Seq<char> {
    trim_of(strip_trailing_of(strip_prefixes_of(line, "let "@), ';'))
}

/// The name and class that the trimmed line `line` declares: it begins with
/// `let `, its body is cut at the first `=`, the left side gives the name
/// and both sides the class. None where any of these is missing.
pub open spec fn parse_variable_declaration_of(line: Seq<char>) -> Option<(Seq<char>, VarInfo)> {
    if !starts_with_of(line, "let "@) {
        None
    } else {
        match split_once_of(declaration_body(line), '=') {
            Some((left, right)) => match extract_identifier_of(left) {
                Some(name) => match classify_of(left, trim_of(right)) {
                    Some(info) => Some((name, info)),
                    None => None,
                },
                None => None,
            },
            None => None,
        }
    }
}

/// The two sides of the first `=` in `line`, where no `+` stands before it.
pub open spec fn split_assignment_of(line: Seq<char>) -> Option<(Seq<char>, Seq<char>)> {
    match split_once_of(line, '=') {
        Some((lhs, rhs)) => if contains_char_of(lhs, '+') {
            None
        } else {
            Some((lhs, rhs))
        },
        None => None,
    }
}

pub fn contains_trait_object(text: &[char]) -> (b: bool)
    ensures
        b == contains_trait_object_of(text@),
{
    let l = lower(text);
    contains_str(l.as_slice(), "box<dyn") || contains_str(l.as_slice(), "rc<dyn") || contains_str(
        l.as_slice(),
        "arc<dyn",
    ) || contains_str(l.as_slice(), "&dyn") || contains_str(l.as_slice(), "dyn ") || contains_str(
        l.as_slice(),
        "dyn>",
    )
}

pub fn extract_identifier(left: &[char]) -> (r: Option<&[char]>)
    ensures
        match r {
            Some(name) => extract_identifier_of(left@) == Some(name@),
            None => extract_identifier_of(left@) is None,
        },
{
    let t = trim(left);
    let t1 = match split_once(t, ':') {
        Some((before, _ty)) => trim(before),
        None => t,
    };
    let t2 = match strip_prefix(t1, "mut ") {
        Some(rest) => trim(rest),
        None => t1,
    };
    if t2.len() == 0 {
        None
    } else {
        Some(t2)
    }
}

/// The class of a declaration, from its two sides.
pub fn classify(left: &[char], init: &[char]) -> (r: Option<VarInfo>)
    ensures
        r == classify_of(left@, init@),
{
    if contains_str(init, "String::new()") || contains_str(init, "String::from(") || contains_str(
        init,
        "String::with_capacity",
    ) {
        return Some(VarInfo::Text);
    }
    if contains_str(init, "Vec::with_capacity") {
        return Some(VarInfo::Vector { reserved: true });
    }
    if contains_str(init, "Vec::new()") || (contains_str(init, "Vec::<") && contains_str(
        init,
        "::new()",
    )) {
        return Some(VarInfo::Vector { reserved: false });
    }
    if contains_trait_object(left) || contains_trait_object(init) {
        return Some(VarInfo::DynamicDispatch);
    }
    None
}

/// The name and class that a trimmed line declares.
pub fn parse_variable_declaration(line: &[char]) -> (r: Option<(&[char], VarInfo)>)
    ensures
        match r {
            Some((name, info)) => parse_variable_declaration_of(line@) == Some((name@, info)),
            None => parse_variable_declaration_of(line@) is None,
        },
{
    if !starts_with_str(line, "let ") {
        return None;
    }
    let body = trim(strip_trailing(strip_prefixes(line, "let "), ';'));
    let (left, right) = match split_once(body, '=') {
        Some(sides) => sides,
        None => {
            return None;
        },
    };
    let name = match extract_identifier(left) {
        Some(name) => name,
        None => {
            return None;
        },
    };
    match classify(left, trim(right)) {
        Some(info) => Some((name, info)),
        None => None,
    }
}

/// The two sides of the first `=` in `line`, where no `+` stands before it.
pub fn split_assignment(line: &[char]) -> (r: Option<(&[char], &[char])>)
    ensures
        match r {
            Some((lhs, rhs)) => split_assignment_of(line@) == Some((lhs@, rhs@)),
            None => split_assignment_of(line@) is None,
        },
{
    match split_once(line, '=') {
        Some((lhs, rhs)) => {
            if contains_char(lhs, '+') {
                None
            } else {
                Some((lhs, rhs))
            }
        },
        None => None,
    }
}

} // verus!
