//! Pattern helpers that read one line and need no scan state: whole-word
//! search, bracket matching, and the small judgements that the detectors of
//! the scanner are built from.

use vstd::prelude::*;
use crate::text::at;
use crate::text::back_spaces;
use crate::text::char_from;
use crate::text::contains_char;
use crate::text::contains_char_of;
use crate::text::contains_of;
use crate::text::contains_str;
use crate::text::ends_with_char;
use crate::text::ends_with_char_of;
use crate::text::eq_str;
use crate::text::find_char_from;
use crate::text::find_from;
use crate::text::find_str_from;
use crate::text::ident_char;
use crate::text::is_ascii_digit;
use crate::text::is_digit;
use crate::text::is_ident_char;
use crate::text::is_whitespace;
use crate::text::lemma_find_from;
use crate::text::lemma_matches_push;
use crate::text::lower;
use crate::text::lower_of;
use crate::text::matches_at;
use crate::text::matches_str_at;
use crate::text::parse_u32;
use crate::text::parse_u32_of;
use crate::text::skip_spaces;
use crate::text::starts_with_char;
use crate::text::starts_with_char_of;
use crate::text::starts_with_of;
use crate::text::starts_with_str;
use crate::text::strip_prefix;
use crate::text::strip_prefix_of;
use crate::text::trim;
use crate::text::trim_of;
use crate::text::trim_start;
use crate::text::trim_start_of;

verus! {

/* Whole-word search */

/// The last character before index `i` that is no white space.
pub open spec fn solid_before(s: Seq<char>, i: int) -> Option<char> {
    let k = back_spaces(s, i);
    if 0 < k <= s.len() {
        Some(s[k - 1])
    } else {
        None
    }
}

/// The first character at or after index `i` that is no white space.
pub open spec fn solid_from(s: Seq<char>, i: int) -> Option<char> {
    let k = skip_spaces(s, i);
    if 0 <= k < s.len() {
        Some(s[k])
    } else {
        None
    }
}

/// A neighbour that ends a word: none at all, or no identifier character.
pub open spec fn is_boundary(c: Option<char>) -> bool {
    match c {
        Some(c) => !ident_char(c),
        None => true,
    }
}

/// `t` stands at `i` as a word of its own: the nearest characters on both
/// sides that are no white space are no identifier characters.
pub open spec fn token_at(s: Seq<char>, t: Seq<char>, i: int) -> bool {
    &&& matches_at(s, t, i)
    &&& is_boundary(solid_before(s, i))
    &&& is_boundary(solid_from(s, i + t.len()))
}

/// How far the search moves on behind an occurrence that is no word.
pub open spec fn token_step(t: Seq<char>) -> int {
    if t.len() == 0 {
        1
    } else {
        t.len() as int
    }
}

/// The search for `t` as a word from index `i` on; occurrences before `next`
/// overlap one that was already looked at and are passed over.
pub open spec fn token_scan(s: Seq<char>, t: Seq<char>, i: int, next: int) -> Option<int>
    decreases s.len() + 1 - i,
{
    if i < 0 || i + t.len() > s.len() {
        None
    } else if i >= next && matches_at(s, t, i) {
        if token_at(s, t, i) {
            Some(i)
        } else {
            token_scan(s, t, i + 1, i + token_step(t))
        }
    } else {
        token_scan(s, t, i + 1, next)
    }
}

/// The index of the first occurrence of `t` in `s` that is a word of its
/// own, among the occurrences that do not overlap, taken from the left.
pub open spec fn find_token_of(s: Seq<char>, t: Seq<char>) -> Option<int> {
    token_scan(s, t, 0, 0)
}

fn boundary_before(s: &[char], i: usize) -> (b: bool)
    requires
        i <= s@.len(),
    ensures
        b == is_boundary(solid_before(s@, i as int)),
{
    let mut k: usize = i;
    while k > 0 && is_whitespace(s[k - 1])
        invariant
            0 <= k <= i <= s@.len(),
            back_spaces(s@, k as int) == back_spaces(s@, i as int),
        decreases k,
    {
        k -= 1;
    }
    k == 0 || !is_ident_char(s[k - 1])
}

fn boundary_after(s: &[char], i: usize) -> (b: bool)
    requires
        i <= s@.len(),
    ensures
        b == is_boundary(solid_from(s@, i as int)),
{
    let n = s.len();
    let mut k: usize = i;
    while k < n && is_whitespace(s[k])
        invariant
            i <= k <= n,
            n == s@.len(),
            skip_spaces(s@, k as int) == skip_spaces(s@, i as int),
        decreases n - k,
    {
        k += 1;
    }
    k >= n || !is_ident_char(s[k])
}

/// The index of the first occurrence of `token` in `line` that is a word of
/// its own.
pub fn find_token(line: &[char], token: &str) -> (r: Option<usize>)
    ensures
        at(r) == find_token_of(line@, token@),
        r is Some ==> r->0 + token@.len() <= line@.len(),
{
    let n = line.len();
    let m = token.unicode_len();
    if m > n {
        return None;
    }
    let step: usize = if m == 0 {
        1
    } else {
        m
    };
    let mut i: usize = 0;
    let mut next: usize = 0;
    while i <= n - m
        invariant
            n == line@.len(),
            m == token@.len(),
            m <= n,
            step == token_step(token@),
            0 <= i,
            next <= n + 1,
            token_scan(line@, token@, i as int, next as int) == find_token_of(line@, token@),
        decreases n + 1 - i,
    {
        if i >= next && matches_str_at(line, token, i) {
            if boundary_before(line, i) && boundary_after(line, i + m) {
                return Some(i);
            }
            if i == n {
                proof {
                    reveal_with_fuel(token_scan, 2);
                }
                return None;
            }
            next = i + step;
        }
        i += 1;
    }
    None
}

/* Bracket matching */

/// The index of the `close` that ends the bracket open at `pos`, `depth`
/// being the number of `open`s still to be closed.
pub open spec fn closing(s: Seq<char>, open: char, close: char, pos: int, depth: int) -> Option<int>
    decreases s.len() - pos,
{
    if pos < 0 || pos >= s.len() {
        None
    } else if s[pos] == open {
        closing(s, open, close, pos + 1, depth + 1)
    } else if s[pos] == close {
        if depth <= 1 {
            Some(pos)
        } else {
            closing(s, open, close, pos + 1, depth - 1)
        }
    } else {
        closing(s, open, close, pos + 1, depth)
    }
}

/// The text between the `open` that follows the first `ident` directly and
/// the `close` that matches it.
pub open spec fn bracketed_of(s: Seq<char>, ident: Seq<char>, open: char, close: char) -> Option<
    Seq<char>,
> {
    match find_from(s, ident.push(open), 0) {
        Some(i) => {
            let start = i + ident.len() + 1;
            match closing(s, open, close, start, 1) {
                Some(end) => Some(s.subrange(start, end)),
                None => None,
            }
        },
        None => None,
    }
}

/// The generic argument of the first `ident<` in `s`.
pub open spec fn generic_argument_of(s: Seq<char>, ident: Seq<char>) -> Option<Seq<char>> {
    bracketed_of(s, ident, '<', '>')
}

/// The argument text of the first `ident(` in `s`.
pub open spec fn paren_argument_of(s: Seq<char>, ident: Seq<char>) -> Option<Seq<char>> {
    bracketed_of(s, ident, '(', ')')
}

/// The index of the first `ident` in `line` that `open` follows directly.
fn find_opener(line: &[char], ident: &str, open: char) -> (r: Option<usize>)
    ensures
        at(r) == find_from(line@, ident@.push(open), 0),
        r is Some ==> r->0 + ident@.len() < line@.len(),
{
    let n = line.len();
    let m = ident.unicode_len();
    let ghost pat = ident@.push(open);
    if m >= n {
        proof {
            lemma_find_from(line@, pat, 0);
        }
        return None;
    }
    let mut i: usize = 0;
    while i < n - m
        invariant
            n == line@.len(),
            m == ident@.len(),
            m < n,
            pat == ident@.push(open),
            0 <= i <= n - m,
            find_from(line@, pat, i as int) == find_from(line@, pat, 0),
        decreases n - i,
    {
        proof {
            lemma_matches_push(line@, ident@, open, i as int);
        }
        if matches_str_at(line, ident, i) && line[i + m] == open {
            return Some(i);
        }
        i += 1;
    }
    None
}

fn extract_bracketed<'a>(line: &'a [char], ident: &str, open: char, close: char) -> (r: Option<
    &'a [char],
>)
    ensures
        match r {
            Some(t) => bracketed_of(line@, ident@, open, close) == Some(t@),
            None => bracketed_of(line@, ident@, open, close) is None,
        },
{
    let n = line.len();
    let m = ident.unicode_len();
    let i = match find_opener(line, ident, open) {
        Some(i) => i,
        None => {
            return None;
        },
    };
    let start: usize = i + m + 1;
    let mut pos: usize = start;
    let mut depth: usize = 1;
    while pos < n
        invariant
            n == line@.len(),
            m == ident@.len(),
            start == i + m + 1,
            find_from(line@, ident@.push(open), 0) == Some(i as int),
            start <= pos <= n,
            1 <= depth <= 1 + (pos - start),
            closing(line@, open, close, pos as int, depth as int) == closing(
                line@,
                open,
                close,
                start as int,
                1,
            ),
        decreases n - pos,
    {
        let c = line[pos];
        if c == open {
            depth += 1;
        } else if c == close {
            if depth == 1 {
                return Some(vstd::slice::slice_subrange(line, start, pos));
            }
            depth -= 1;
        }
        pos += 1;
    }
    None
}

/// The generic argument of the first `ident<` in `line`: the text up to the
/// matching `>`.
pub fn extract_generic_argument<'a>(line: &'a [char], ident: &str) -> (r: Option<&'a [char]>)
    ensures
        match r {
            Some(t) => generic_argument_of(line@, ident@) == Some(t@),
            None => generic_argument_of(line@, ident@) is None,
        },
{
    extract_bracketed(line, ident, '<', '>')
}

/// The argument text of the first `ident(` in `line`: the text up to the
/// matching `)`.
pub fn extract_paren_argument<'a>(line: &'a [char], ident: &str) -> (r: Option<&'a [char]>)
    ensures
        match r {
            Some(t) => paren_argument_of(line@, ident@) == Some(t@),
            None => paren_argument_of(line@, ident@) is None,
        },
{
    extract_bracketed(line, ident, '(', ')')
}

/* Array lengths */

/// The smallest array length that counts as large.
pub const LARGE_ARRAY_LEN: u32 = 128;

/// At index `i` stands a `[`, and the text between the next `;` and the `]`
/// that follows it writes a length of at least `LARGE_ARRAY_LEN`.
pub open spec fn large_array_at(s: Seq<char>, i: int) -> bool {
    let semi = char_from(s, ';', i);
    let end = char_from(s, ']', semi);
    &&& 0 <= i < s.len()
    &&& s[i] == '['
    &&& semi < s.len()
    &&& end < s.len()
    &&& match parse_u32_of(trim_of(s.subrange(semi + 1, end))) {
        Some(v) => v >= LARGE_ARRAY_LEN,
        None => false,
    }
}

/// The first index at or after `i` where a large array type begins.
pub open spec fn large_array_from(s: Seq<char>, i: int) -> Option<int>
    decreases s.len() - i,
{
    if i < 0 || i >= s.len() {
        None
    } else if large_array_at(s, i) {
        Some(i)
    } else {
        large_array_from(s, i + 1)
    }
}

/// The index of the first `[` in `line` that begins an array type of a large
/// fixed length.
pub fn find_large_array_literal(line: &[char]) -> (r: Option<usize>)
    ensures
        at(r) == large_array_from(line@, 0),
{
    let n = line.len();
    let mut i: usize = 0;
    while i < n
        invariant
            0 <= i <= n,
            n == line@.len(),
            large_array_from(line@, i as int) == large_array_from(line@, 0),
        decreases n - i,
    {
        if line[i] == '[' {
            let semi = find_char_from(line, ';', i);
            if semi < n {
                let end = find_char_from(line, ']', semi);
                if end < n {
                    let number = trim(vstd::slice::slice_subrange(line, semi + 1, end));
                    match parse_u32(number) {
                        Some(v) => {
                            if v >= LARGE_ARRAY_LEN {
                                return Some(i);
                            }
                        },
                        None => {},
                    }
                }
            }
        }
        i += 1;
    }
    None
}

/* Markers of data that cannot cross threads */

/// An occurrence of `p` at or after `i` that no `a` stands before.
pub open spec fn unprefixed_from(s: Seq<char>, p: Seq<char>, i: int) -> bool
    decreases s.len() - i,
{
    if i < 0 || i + p.len() > s.len() || p.len() == 0 {
        false
    } else if matches_at(s, p, i) && (i == 0 || s[i - 1] != 'a') {
        true
    } else {
        unprefixed_from(s, p, i + 1)
    }
}

/// `text`, read without regard to ASCII case, names a cell type or a
/// reference-counted pointer that is not the atomic one.
pub open spec fn contains_nonsend_token_of(text: Seq<char>) -> bool {
    let l = lower_of(text);
    ||| contains_of(l, "refcell"@)
    ||| contains_of(l, "unsafecell"@)
    ||| contains_of(l, "cell<"@)
    ||| unprefixed_from(l, "rc<"@, 0)
    ||| unprefixed_from(l, "rc::"@, 0)
}

fn has_unprefixed(s: &[char], p: &str) -> (b: bool)
    ensures
        b == unprefixed_from(s@, p@, 0),
{
    let n = s.len();
    let m = p.unicode_len();
    if m == 0 || m > n {
        return false;
    }
    let mut i: usize = 0;
    while i <= n - m
        invariant
            n == s@.len(),
            m == p@.len(),
            0 < m <= n,
            0 <= i,
            unprefixed_from(s@, p@, i as int) == unprefixed_from(s@, p@, 0),
        decreases n + 1 - i,
    {
        if matches_str_at(s, p, i) && (i == 0 || s[i - 1] != 'a') {
            return true;
        }
        i += 1;
    }
    false
}

pub fn contains_nonsend_token(text: &[char]) -> (b: bool)
    ensures
        b == contains_nonsend_token_of(text@),
{
    let l = lower(text);
    contains_str(l.as_slice(), "refcell") || contains_str(l.as_slice(), "unsafecell")
        || contains_str(l.as_slice(), "cell<") || has_unprefixed(l.as_slice(), "rc<")
        || has_unprefixed(l.as_slice(), "rc::")
}

/* Primitive types and literals */

/// `t` is the name of a primitive type.
pub open spec fn is_primitive_name(t: Seq<char>) -> bool {
    ||| t == "bool"@
    ||| t == "char"@
    ||| t == "i8"@
    ||| t == "i16"@
    ||| t == "i32"@
    ||| t == "i64"@
    ||| t == "i128"@
    ||| t == "isize"@
    ||| t == "u8"@
    ||| t == "u16"@
    ||| t == "u32"@
    ||| t == "u64"@
    ||| t == "u128"@
    ||| t == "usize"@
    ||| t == "f32"@
    ||| t == "f64"@
}

/// What stands inside `Option<` and `>`, where `t` has that form.
pub open spec fn option_inner(t: Seq<char>) -> Option<Seq<char>> {
    let head = "Option<"@;
    if starts_with_of(t, head) && ends_with_char_of(t, '>') && t.len() > head.len() {
        Some(t.subrange(head.len() as int, t.len() - 1))
    } else {
        None
    }
}

/// `text`, trimmed, names a primitive type, bare or inside one `Option<..>`.
pub open spec fn is_primitive_token_of(text: Seq<char>) -> bool {
    let t = trim_of(text);
    match option_inner(t) {
        Some(inner) => is_primitive_name(trim_of(inner)),
        None => is_primitive_name(t),
    }
}

/// `arg`, trimmed, is `true` or `false`, stands between two `'`, or begins
/// with a digit or an underscore.
pub open spec fn is_literal_primitive_of(arg: Seq<char>) -> bool {
    let t = trim_of(arg);
    ||| t == "true"@
    ||| t == "false"@
    ||| (starts_with_char_of(t, '\'') && ends_with_char_of(t, '\''))
    ||| (t.len() > 0 && (is_ascii_digit(t[0]) || t[0] == '_'))
}

fn primitive_name(t: &[char]) -> (b: bool)
    ensures
        b == is_primitive_name(t@),
{
    eq_str(t, "bool") || eq_str(t, "char") || eq_str(t, "i8") || eq_str(t, "i16") || eq_str(
        t,
        "i32",
    ) || eq_str(t, "i64") || eq_str(t, "i128") || eq_str(t, "isize") || eq_str(t, "u8") || eq_str(
        t,
        "u16",
    ) || eq_str(t, "u32") || eq_str(t, "u64") || eq_str(t, "u128") || eq_str(t, "usize") || eq_str(
        t,
        "f32",
    ) || eq_str(t, "f64")
}

pub fn is_primitive_token(text: &[char]) -> (b: bool)
    ensures
        b == is_primitive_token_of(text@),
{
    let t = trim(text);
    let n = t.len();
    let m = "Option<".unicode_len();
    if starts_with_str(t, "Option<") && ends_with_char(t, '>') && n > m {
        primitive_name(trim(vstd::slice::slice_subrange(t, m, n - 1)))
    } else {
        primitive_name(t)
    }
}

pub fn is_literal_primitive(arg: &[char]) -> (b: bool)
    ensures
        b == is_literal_primitive_of(arg@),
{
    let t = trim(arg);
    if eq_str(t, "true") || eq_str(t, "false") {
        return true;
    }
    if starts_with_char(t, '\'') && ends_with_char(t, '\'') {
        return true;
    }
    t.len() > 0 && (is_digit(t[0]) || t[0] == '_')
}

/* Small values */

pub open spec fn is_opening(c: char) -> bool {
    c == '{' || c == '(' || c == '['
}

pub open spec fn is_closing(c: char) -> bool {
    c == '}' || c == ')' || c == ']'
}

/// The number of commas from index `i` on that stand at most one bracket
/// deep, `depth` being the number of brackets open at `i`.
pub open spec fn commas_scan(s: Seq<char>, i: int, depth: nat) -> nat
    decreases s.len() - i,
{
    if i < 0 || i >= s.len() {
        0
    } else if is_opening(s[i]) {
        commas_scan(s, i + 1, depth + 1)
    } else if is_closing(s[i]) {
        commas_scan(
            s,
            i + 1,
            if depth > 0 {
                (depth - 1) as nat
            } else {
                0
            },
        )
    } else if s[i] == ',' && depth <= 1 {
        1 + commas_scan(s, i + 1, depth)
    } else {
        commas_scan(s, i + 1, depth)
    }
}

/// The number of commas in `s` that stand at most one bracket deep; a
/// closing bracket without an opening one is passed over.
pub open spec fn top_level_commas(s: Seq<char>) -> nat {
    commas_scan(s, 0, 0)
}

/// The number of fields that the commas of `s` separate at the top level:
/// one more than there are such commas.
pub open spec fn top_level_fields(s: Seq<char>) -> nat {
    top_level_commas(s) + 1
}

/// The most fields that a small value may have at the top level.
pub const SMALL_VALUE_FIELDS: usize = 2;

/// The most characters that a small brace-delimited value may have.
pub const SMALL_VALUE_CHARS: usize = 80;

/// `arg` is small enough to live on the stack: a primitive literal; a text
/// in round brackets with at most two top-level fields; or a text with
/// braces, at most two top-level fields and at most eighty characters.
pub open spec fn is_small_box_target_of(arg: Seq<char>) -> bool {
    if is_literal_primitive_of(arg) {
        true
    } else if starts_with_char_of(arg, '(') && ends_with_char_of(arg, ')') {
        top_level_fields(arg) <= SMALL_VALUE_FIELDS
    } else if contains_char_of(arg, '{') && contains_char_of(arg, '}') {
        top_level_fields(arg) <= SMALL_VALUE_FIELDS && arg.len() <= SMALL_VALUE_CHARS
    } else {
        false
    }
}

/// The number of commas in `text` that stand at most one bracket deep.
pub fn count_commas_outside_braces(text: &[char]) -> (count: usize)
    ensures
        count == top_level_commas(text@),
{
    let n = text.len();
    let mut depth: usize = 0;
    let mut count: usize = 0;
    let mut i: usize = 0;
    while i < n
        invariant
            0 <= i <= n,
            n == text@.len(),
            depth <= i,
            count <= i,
            count + commas_scan(text@, i as int, depth as nat) == top_level_commas(text@),
        decreases n - i,
    {
        let c = text[i];
        if c == '{' || c == '(' || c == '[' {
            depth += 1;
        } else if c == '}' || c == ')' || c == ']' {
            if depth > 0 {
                depth -= 1;
            }
        } else if c == ',' && depth <= 1 {
            count += 1;
        }
        i += 1;
    }
    count
}

/// Is `arg` small enough to live on the stack?
pub fn is_small_box_target(arg: &[char]) -> (b: bool)
    ensures
        b == is_small_box_target_of(arg@),
{
    if is_literal_primitive(arg) {
        return true;
    }
    if starts_with_char(arg, '(') && ends_with_char(arg, ')') {
        return count_commas_outside_braces(arg) < SMALL_VALUE_FIELDS;
    }
    if contains_char(arg, '{') && contains_char(arg, '}') {
        return count_commas_outside_braces(arg) < SMALL_VALUE_FIELDS && arg.len()
            <= SMALL_VALUE_CHARS;
    }
    false
}

/* Collecting, then asking */

/// Where the angle brackets open at `pos` are closed, and how many are left
/// open there: the scan stops behind the `>` that closes the last of
/// `depth` brackets, or at the end of the text.
pub open spec fn angle_end(s: Seq<char>, pos: int, depth: nat) -> (int, nat)
    decreases s.len() - pos,
{
    if 0 <= pos < s.len() && depth > 0 {
        if s[pos] == '<' {
            angle_end(s, pos + 1, depth + 1)
        } else if s[pos] == '>' {
            angle_end(s, pos + 1, (depth - 1) as nat)
        } else {
            angle_end(s, pos + 1, depth)
        }
    } else {
        (pos, depth)
    }
}

pub proof fn lemma_angle_end(s: Seq<char>, pos: int, depth: nat)
    requires
        0 <= pos <= s.len(),
    ensures
        pos <= angle_end(s, pos, depth).0 <= s.len(),
        depth > 0 && angle_end(s, pos, depth).1 == 0 ==> pos < angle_end(s, pos, depth).0,
    decreases s.len() - pos,
{
    if pos < s.len() && depth > 0 {
        if s[pos] == '<' {
            lemma_angle_end(s, pos + 1, depth + 1);
        } else if s[pos] == '>' {
            lemma_angle_end(s, pos + 1, (depth - 1) as nat);
        } else {
            lemma_angle_end(s, pos + 1, depth);
        }
    }
}

/// The question that stands in `s` at index `i`, among those that need no
/// collected vector.
pub open spec fn suffix_at(s: Seq<char>, i: int) -> Option<Seq<char>> {
    if matches_at(s, ".len()"@, i) {
        Some(".len()"@)
    } else if matches_at(s, ".is_empty()"@, i) {
        Some(".is_empty()"@)
    } else if matches_at(s, ".iter()"@, i) {
        Some(".iter()"@)
    } else if matches_at(s, ".iter_mut()"@, i) {
        Some(".iter_mut()"@)
    } else if matches_at(s, ".into_iter()"@, i) {
        Some(".into_iter()"@)
    } else if matches_at(s, ".first()"@, i) {
        Some(".first()"@)
    } else if matches_at(s, ".last()"@, i) {
        Some(".last()"@)
    } else {
        None
    }
}

/// The search from index `i` on for a `.collect::<Vec<..>>()` that one of
/// the questions of `suffix_at` follows directly. It gives up at the first
/// `.collect::<Vec<` whose brackets stay open or end the text.
pub open spec fn collect_scan(s: Seq<char>, i: int) -> Option<Seq<char>>
    decreases s.len() - i,
{
    let head = ".collect::<Vec<"@;
    match find_from(s, head, i) {
        Some(found) => {
            let (pos, depth) = angle_end(s, found + head.len(), 1);
            if depth != 0 || pos >= s.len() || pos <= i {
                None
            } else if !matches_at(s, ">()"@, pos) {
                collect_scan(s, pos)
            } else {
                match suffix_at(s, pos + ">()"@.len()) {
                    Some(suffix) => Some(suffix),
                    None => collect_scan(s, pos),
                }
            }
        },
        None => None,
    }
}

/// The question asked of the first needlessly collected vector in `s`, a
/// line without white space.
pub open spec fn needless_collect_suffix_of(s: Seq<char>) -> Option<Seq<char>> {
    collect_scan(s, 0)
}

fn suffix_here(s: &[char], i: usize) -> (r: Option<&'static str>)
    ensures
        match r {
            Some(x) => suffix_at(s@, i as int) == Some(x@),
            None => suffix_at(s@, i as int) is None,
        },
{
    if matches_str_at(s, ".len()", i) {
        Some(".len()")
    } else if matches_str_at(s, ".is_empty()", i) {
        Some(".is_empty()")
    } else if matches_str_at(s, ".iter()", i) {
        Some(".iter()")
    } else if matches_str_at(s, ".iter_mut()", i) {
        Some(".iter_mut()")
    } else if matches_str_at(s, ".into_iter()", i) {
        Some(".into_iter()")
    } else if matches_str_at(s, ".first()", i) {
        Some(".first()")
    } else if matches_str_at(s, ".last()", i) {
        Some(".last()")
    } else {
        None
    }
}

/// Skips the angle brackets open at `pos`.
pub fn skip_angles(s: &[char], pos: usize, depth: usize) -> (r: (usize, usize))
    requires
        pos <= s@.len(),
        depth <= pos,
    ensures
        (r.0 as int, r.1 as nat) == angle_end(s@, pos as int, depth as nat),
        pos <= r.0 <= s@.len(),
{
    let n = s.len();
    let mut p: usize = pos;
    let mut d: usize = depth;
    while p < n && d > 0
        invariant
            pos <= p <= n,
            n == s@.len(),
            d <= p,
            angle_end(s@, p as int, d as nat) == angle_end(s@, pos as int, depth as nat),
        decreases n - p,
    {
        if s[p] == '<' {
            d += 1;
        } else if s[p] == '>' {
            d -= 1;
        }
        p += 1;
    }
    (p, d)
}

/// The question asked of the first needlessly collected vector in
/// `collapsed`, a line without white space.
pub fn find_needless_collect_suffix(collapsed: &[char]) -> (r: Option<&'static str>)
    ensures
        match r {
            Some(x) => needless_collect_suffix_of(collapsed@) == Some(x@),
            None => needless_collect_suffix_of(collapsed@) is None,
        },
{
    let n = collapsed.len();
    let head_len = ".collect::<Vec<".unicode_len();
    let tail_len = ">()".unicode_len();
    proof {
        reveal_strlit(".collect::<Vec<");
    }
    let mut idx: usize = 0;
    loop
        invariant
            n == collapsed@.len(),
            head_len == ".collect::<Vec<"@.len(),
            head_len > 0,
            tail_len == ">()"@.len(),
            0 <= idx <= n,
            collect_scan(collapsed@, idx as int) == needless_collect_suffix_of(collapsed@),
        decreases n - idx,
    {
        let found = match find_str_from(collapsed, ".collect::<Vec<", idx) {
            Some(found) => found,
            None => {
                return None;
            },
        };
        proof {
            lemma_find_from(collapsed@, ".collect::<Vec<"@, idx as int);
            lemma_angle_end(collapsed@, found + head_len, 1);
        }
        let (pos, depth) = skip_angles(collapsed, found + head_len, 1);
        if depth != 0 || pos >= n {
            return None;
        }
        if matches_str_at(collapsed, ">()", pos) {
            match suffix_here(collapsed, pos + tail_len) {
                Some(suffix) => {
                    return Some(suffix);
                },
                None => {},
            }
        }
        idx = pos;
    }
}

/* Braces and enum headers */

/// The number of times that `c` stands in `s`.
pub open spec fn count_char(s: Seq<char>, c: char) -> nat
    decreases s.len(),
{
    if s.len() == 0 {
        0
    } else if s.last() == c {
        count_char(s.drop_last(), c) + 1
    } else {
        count_char(s.drop_last(), c)
    }
}

/// A count held in 32 bits: it stays at the largest value once reached.
pub open spec fn capped(n: nat) -> int {
    if n > i32::MAX {
        i32::MAX as int
    } else {
        n as int
    }
}

/// The numbers of `{` and of `}` in `line`, each capped at 32 bits.
pub fn brace_counts(line: &[char]) -> (r: (i32, i32))
    ensures
        r.0 == capped(count_char(line@, '{')),
        r.1 == capped(count_char(line@, '}')),
{
    let n = line.len();
    let mut opens: i32 = 0;
    let mut closes: i32 = 0;
    let mut i: usize = 0;
    while i < n
        invariant
            0 <= i <= n,
            n == line@.len(),
            opens == capped(count_char(line@.subrange(0, i as int), '{')),
            closes == capped(count_char(line@.subrange(0, i as int), '}')),
        decreases n - i,
    {
        proof {
            assert(line@.subrange(0, i + 1).drop_last() =~= line@.subrange(0, i as int));
        }
        if line[i] == '{' {
            if opens < i32::MAX {
                opens += 1;
            }
        } else if line[i] == '}' {
            if closes < i32::MAX {
                closes += 1;
            }
        }
        i += 1;
    }
    proof {
        assert(line@.subrange(0, n as int) =~= line@);
    }
    (opens, closes)
}

/// `s` without a leading visibility: one of `pub(crate)`, `pub(super)` and
/// `pub(self)`, then `pub`, each with the white space around it.
pub open spec fn strip_visibility(s: Seq<char>) -> Seq<char> {
    let t = trim_start_of(s);
    let t1 = match strip_prefix_of(t, "pub(crate)"@) {
        Some(rest) => trim_start_of(rest),
        None => match strip_prefix_of(t, "pub(super)"@) {
            Some(rest) => trim_start_of(rest),
            None => match strip_prefix_of(t, "pub(self)"@) {
                Some(rest) => trim_start_of(rest),
                None => t,
            },
        },
    };
    match strip_prefix_of(t1, "pub"@) {
        Some(rest) => trim_start_of(rest),
        None => t1,
    }
}

/// `line` begins an enum declaration: behind its visibility stands `enum `.
pub open spec fn starts_enum_decl_of(line: Seq<char>) -> bool {
    starts_with_of(strip_visibility(line), "enum "@)
}

pub fn starts_enum_decl(line: &[char]) -> (b: bool)
    ensures
        b == starts_enum_decl_of(line@),
{
    let t = trim_start(line);
    let t1 = match strip_prefix(t, "pub(crate)") {
        Some(rest) => trim_start(rest),
        None => match strip_prefix(t, "pub(super)") {
            Some(rest) => trim_start(rest),
            None => match strip_prefix(t, "pub(self)") {
                Some(rest) => trim_start(rest),
                None => t,
            },
        },
    };
    let t2 = match strip_prefix(t1, "pub") {
        Some(rest) => trim_start(rest),
        None => t1,
    };
    starts_with_str(t2, "enum ")
}

} // verus!
