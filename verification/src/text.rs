//! Text primitives over character slices.
//!
//! Source text is held as a slice of `char`; its model is a `Seq<char>`.
//! Every function here is specified by a spec function over that model.
//! Offsets inside a line are character indices; where a position is reported
//! to a user it is turned into a UTF-8 byte offset by [`byte_offset`].

use vstd::prelude::*;
use vstd::std_specs::iter::IteratorSpec;
use vstd::utf8::encode_scalar;
use vstd::utf8::encode_utf8;

verus! {

/* Character classes */

/// Unicode `White_Space`: what a line is trimmed of.
pub open spec fn is_space(c: char) -> bool {
    let u = c as u32;
    ||| 0x09 <= u <= 0x0D
    ||| u == 0x20
    ||| u == 0x85
    ||| u == 0xA0
    ||| u == 0x1680
    ||| 0x2000 <= u <= 0x200A
    ||| u == 0x2028
    ||| u == 0x2029
    ||| u == 0x202F
    ||| u == 0x205F
    ||| u == 0x3000
}

/// ASCII blank characters: space, tab, line feed, form feed, carriage return.
pub open spec fn is_ascii_blank(c: char) -> bool {
    c == ' ' || c == '\t' || c == '\n' || c == '\x0C' || c == '\r'
}

pub open spec fn is_ascii_letter(c: char) -> bool {
    ('a' <= c && c <= 'z') || ('A' <= c && c <= 'Z')
}

pub open spec fn is_ascii_digit(c: char) -> bool {
    '0' <= c && c <= '9'
}

/// A character that may begin an identifier.
pub open spec fn ident_start(c: char) -> bool {
    c == '_' || is_ascii_letter(c)
}

/// A character that may continue an identifier.
pub open spec fn ident_char(c: char) -> bool {
    c == '_' || is_ascii_letter(c) || is_ascii_digit(c)
}

/// ASCII lower-casing of one character; every other character is kept.
pub open spec fn lower_char(c: char) -> char {
    if 'A' <= c && c <= 'Z' {
        ((c as u32) + 32) as char
    } else {
        c
    }
}

pub fn is_whitespace(c: char) -> (b: bool)
    ensures
        b == is_space(c),
{
    let u: u32 = c as u32;
    (0x09 <= u && u <= 0x0D) || u == 0x20 || u == 0x85 || u == 0xA0 || u == 0x1680 || (0x2000 <= u
        && u <= 0x200A) || u == 0x2028 || u == 0x2029 || u == 0x202F || u == 0x205F || u == 0x3000
}

pub fn is_blank(c: char) -> (b: bool)
    ensures
        b == is_ascii_blank(c),
{
    c == ' ' || c == '\t' || c == '\n' || c == '\x0C' || c == '\r'
}

pub fn is_digit(c: char) -> (b: bool)
    ensures
        b == is_ascii_digit(c),
{
    '0' <= c && c <= '9'
}

pub fn is_ident_start(c: char) -> (b: bool)
    ensures
        b == ident_start(c),
{
    c == '_' || ('a' <= c && c <= 'z') || ('A' <= c && c <= 'Z')
}

pub fn is_ident_char(c: char) -> (b: bool)
    ensures
        b == ident_char(c),
{
    c == '_' || ('a' <= c && c <= 'z') || ('A' <= c && c <= 'Z') || ('0' <= c && c <= '9')
}

pub fn to_lower(c: char) -> (r: char)
    ensures
        r == lower_char(c),
{
    if 'A' <= c && c <= 'Z' {
        let b: u8 = c as u8;
        (b + 32) as char
    } else {
        c
    }
}

/* Trimming */

/// The first index at or after `i` that holds no white space, or the length.
pub open spec fn skip_spaces(s: Seq<char>, i: int) -> int
    decreases s.len() - i,
{
    if 0 <= i < s.len() && is_space(s[i]) {
        skip_spaces(s, i + 1)
    } else {
        i
    }
}

/// The end of the text before `j` once trailing white space is dropped.
pub open spec fn back_spaces(s: Seq<char>, j: int) -> int
    decreases j,
{
    if 0 < j <= s.len() && is_space(s[j - 1]) {
        back_spaces(s, j - 1)
    } else {
        j
    }
}

pub open spec fn trim_start_of(s: Seq<char>) -> Seq<char> {
    s.subrange(skip_spaces(s, 0), s.len() as int)
}

pub open spec fn trim_end_of(s: Seq<char>) -> Seq<char> {
    s.subrange(0, back_spaces(s, s.len() as int))
}

/// `s` without leading and trailing white space.
pub open spec fn trim_of(s: Seq<char>) -> Seq<char> {
    trim_end_of(trim_start_of(s))
}

pub fn trim_start(s: &[char]) -> (r: &[char])
    ensures
        r@ == trim_start_of(s@),
{
    let n = s.len();
    let mut i: usize = 0;
    while i < n && is_whitespace(s[i])
        invariant
            0 <= i <= n,
            n == s@.len(),
            skip_spaces(s@, i as int) == skip_spaces(s@, 0),
        decreases n - i,
    {
        i += 1;
    }
    vstd::slice::slice_subrange(s, i, n)
}

pub fn trim_end(s: &[char]) -> (r: &[char])
    ensures
        r@ == trim_end_of(s@),
{
    let n = s.len();
    let mut j: usize = n;
    while j > 0 && is_whitespace(s[j - 1])
        invariant
            0 <= j <= n,
            n == s@.len(),
            back_spaces(s@, j as int) == back_spaces(s@, n as int),
        decreases j,
    {
        j -= 1;
    }
    vstd::slice::slice_subrange(s, 0, j)
}

pub fn trim(s: &[char]) -> (r: &[char])
    ensures
        r@ == trim_of(s@),
{
    trim_end(trim_start(s))
}

/* Matching */

/// `p` stands in `s` at index `i`.
pub open spec fn matches_at(s: Seq<char>, p: Seq<char>, i: int) -> bool {
    &&& 0 <= i
    &&& i + p.len() <= s.len()
    &&& s.subrange(i, i + p.len()) =~= p
}

pub open spec fn starts_with_of(s: Seq<char>, p: Seq<char>) -> bool {
    matches_at(s, p, 0)
}

/// The first index at or after `i` where `p` stands in `s`.
pub open spec fn find_from(s: Seq<char>, p: Seq<char>, i: int) -> Option<int>
    decreases s.len() - i,
{
    if i < 0 || i + p.len() > s.len() {
        None
    } else if matches_at(s, p, i) {
        Some(i)
    } else {
        find_from(s, p, i + 1)
    }
}

/// The first index where `p` stands in `s`.
pub open spec fn find_of(s: Seq<char>, p: Seq<char>) -> Option<int> {
    find_from(s, p, 0)
}

pub open spec fn contains_of(s: Seq<char>, p: Seq<char>) -> bool {
    find_of(s, p) is Some
}

/// The first index at or after `i` that holds `c`, or the length.
pub open spec fn char_from(s: Seq<char>, c: char, i: int) -> int
    decreases s.len() - i,
{
    if 0 <= i < s.len() && s[i] != c {
        char_from(s, c, i + 1)
    } else {
        i
    }
}

/// The first index that holds `c`.
pub open spec fn find_char_of(s: Seq<char>, c: char) -> Option<int> {
    if char_from(s, c, 0) < s.len() {
        Some(char_from(s, c, 0))
    } else {
        None
    }
}

pub open spec fn contains_char_of(s: Seq<char>, c: char) -> bool {
    find_char_of(s, c) is Some
}

pub open spec fn ends_with_char_of(s: Seq<char>, c: char) -> bool {
    s.len() > 0 && s.last() == c
}

pub open spec fn starts_with_char_of(s: Seq<char>, c: char) -> bool {
    s.len() > 0 && s[0] == c
}

/// An index found by an executable search, as the model's index.
pub open spec fn at(r: Option<usize>) -> Option<int> {
    match r {
        Some(k) => Some(k as int),
        None => None,
    }
}

/// What `find_from` finds is the least match at or after `i`.
pub proof fn lemma_find_from(s: Seq<char>, p: Seq<char>, i: int)
    requires
        0 <= i,
    ensures
        match find_from(s, p, i) {
            Some(k) => i <= k && matches_at(s, p, k) && forall|j: int|
                i <= j < k ==> !matches_at(s, p, j),
            None => forall|j: int| i <= j ==> !matches_at(s, p, j),
        },
    decreases s.len() - i,
{
    if i + p.len() > s.len() {
    } else if matches_at(s, p, i) {
    } else {
        lemma_find_from(s, p, i + 1);
    }
}

/// `p` with `c` behind it stands at `i` where `p` stands there and `c` follows.
pub proof fn lemma_matches_push(s: Seq<char>, p: Seq<char>, c: char, i: int)
    ensures
        matches_at(s, p.push(c), i) <==> (matches_at(s, p, i) && i + p.len() < s.len() && s[i
            + p.len()] == c),
{
    let q = p.push(c);
    if matches_at(s, q, i) {
        assert(s.subrange(i, i + p.len()) =~= p) by {
            assert forall|k: int| 0 <= k < p.len() implies s.subrange(i, i + p.len())[k] == p[k] by {
                assert(s.subrange(i, i + q.len())[k] == q[k]);
            }
        }
        assert(s.subrange(i, i + q.len())[p.len() as int] == q[p.len() as int]);
    }
    if matches_at(s, p, i) && i + p.len() < s.len() && s[i + p.len()] == c {
        assert(s.subrange(i, i + q.len()) =~= q) by {
            assert forall|k: int| 0 <= k < q.len() implies s.subrange(i, i + q.len())[k] == q[k] by {
                if k < p.len() {
                    assert(s.subrange(i, i + p.len())[k] == p[k]);
                }
            }
        }
    }
}

/// Does the literal `p` stand in `s` at index `i`?
pub fn matches_str_at(s: &[char], p: &str, i: usize) -> (b: bool)
    ensures
        b == matches_at(s@, p@, i as int),
{
    let n = s.len();
    if i > n {
        return false;
    }
    let mut k: usize = i;
    for c in iter: p.chars()
        invariant
            iter.seq() == p@,
            n == s@.len(),
            i <= k <= n,
            k == i + iter.index(),
            s@.subrange(i as int, k as int) == p@.subrange(0, iter.index() as int),
    {
        if k >= n || s[k] != c {
            proof {
                if k < n {
                    let m = iter.index() as int;
                    assert(p@[m] == c);
                    if matches_at(s@, p@, i as int) {
                        assert(s@.subrange(i as int, i + p@.len())[m] == p@[m]);
                    }
                }
            }
            return false;
        }
        proof {
            let m = iter.index() as int;
            assert(s@.subrange(i as int, k + 1) =~= s@.subrange(i as int, k as int).push(s@[k as int]));
            assert(p@.subrange(0, m + 1) =~= p@.subrange(0, m).push(p@[m]));
        }
        k += 1;
    }
    proof {
        assert(p@.subrange(0, p@.len() as int) =~= p@);
    }
    true
}

/// Does the text `p` stand in `s` at index `i`?
pub fn matches_slice_at(s: &[char], p: &[char], i: usize) -> (b: bool)
    ensures
        b == matches_at(s@, p@, i as int),
{
    let n = s.len();
    let m = p.len();
    if i > n || m > n - i {
        return false;
    }
    let mut k: usize = 0;
    while k < m
        invariant
            n == s@.len(),
            m == p@.len(),
            i + m <= n,
            0 <= k <= m,
            s@.subrange(i as int, i + k) == p@.subrange(0, k as int),
        decreases m - k,
    {
        if s[i + k] != p[k] {
            proof {
                if matches_at(s@, p@, i as int) {
                    assert(s@.subrange(i as int, i + m)[k as int] == p@[k as int]);
                }
            }
            return false;
        }
        proof {
            assert(s@.subrange(i as int, i + k + 1) =~= s@.subrange(i as int, i + k).push(
                s@[i + k],
            ));
            assert(p@.subrange(0, k + 1) =~= p@.subrange(0, k as int).push(p@[k as int]));
        }
        k += 1;
    }
    proof {
        assert(p@.subrange(0, m as int) =~= p@);
    }
    true
}

pub fn starts_with_str(s: &[char], p: &str) -> (b: bool)
    ensures
        b == starts_with_of(s@, p@),
{
    matches_str_at(s, p, 0)
}

pub fn starts_with(s: &[char], p: &[char]) -> (b: bool)
    ensures
        b == starts_with_of(s@, p@),
{
    matches_slice_at(s, p, 0)
}

/// Is `s` the literal `p`?
pub fn eq_str(s: &[char], p: &str) -> (b: bool)
    ensures
        b == (s@ == p@),
{
    let n = s.len();
    let mut k: usize = 0;
    for c in iter: p.chars()
        invariant
            iter.seq() == p@,
            n == s@.len(),
            k <= n,
            k == iter.index(),
            s@.subrange(0, k as int) == p@.subrange(0, k as int),
    {
        if k >= n || s[k] != c {
            proof {
                if k < n {
                    assert(p@[k as int] == c);
                }
            }
            return false;
        }
        proof {
            assert(s@.subrange(0, k + 1) =~= s@.subrange(0, k as int).push(s@[k as int]));
            assert(p@.subrange(0, k + 1) =~= p@.subrange(0, k as int).push(p@[k as int]));
        }
        k += 1;
    }
    proof {
        assert(p@.subrange(0, p@.len() as int) =~= p@);
        if k == n {
            assert(s@.subrange(0, n as int) =~= s@);
        }
    }
    k == n
}

/// The first index at or after `from` where the literal `p` stands in `s`.
pub fn find_str_from(s: &[char], p: &str, from: usize) -> (r: Option<usize>)
    ensures
        at(r) == find_from(s@, p@, from as int),
        r is Some ==> from <= r->0 && r->0 + p@.len() <= s@.len(),
{
    let n = s.len();
    let mut i: usize = from;
    while i <= n
        invariant
            from <= i,
            n == s@.len(),
            find_from(s@, p@, i as int) == find_from(s@, p@, from as int),
        decreases n + 1 - i,
    {
        if matches_str_at(s, p, i) {
            return Some(i);
        }
        if i == n {
            proof {
                reveal_with_fuel(find_from, 2);
            }
            return None;
        }
        i += 1;
    }
    None
}

pub fn find_str(s: &[char], p: &str) -> (r: Option<usize>)
    ensures
        at(r) == find_of(s@, p@),
        r is Some ==> r->0 + p@.len() <= s@.len(),
{
    find_str_from(s, p, 0)
}

pub fn contains_str(s: &[char], p: &str) -> (b: bool)
    ensures
        b == contains_of(s@, p@),
{
    find_str(s, p).is_some()
}

/// The first index at or after `from` that holds `c`, or the length.
pub fn find_char_from(s: &[char], c: char, from: usize) -> (r: usize)
    requires
        from <= s@.len(),
    ensures
        r == char_from(s@, c, from as int),
        from <= r <= s@.len(),
        r < s@.len() ==> s@[r as int] == c,
{
    let n = s.len();
    let mut i: usize = from;
    while i < n && s[i] != c
        invariant
            from <= i <= n,
            n == s@.len(),
            char_from(s@, c, i as int) == char_from(s@, c, from as int),
        decreases n - i,
    {
        i += 1;
    }
    i
}

pub fn find_char(s: &[char], c: char) -> (r: Option<usize>)
    ensures
        at(r) == find_char_of(s@, c),
{
    let i = find_char_from(s, c, 0);
    if i < s.len() {
        Some(i)
    } else {
        None
    }
}

pub fn contains_char(s: &[char], c: char) -> (b: bool)
    ensures
        b == contains_char_of(s@, c),
{
    find_char(s, c).is_some()
}

pub fn ends_with_char(s: &[char], c: char) -> (b: bool)
    ensures
        b == ends_with_char_of(s@, c),
{
    s.len() > 0 && s[s.len() - 1] == c
}

pub fn starts_with_char(s: &[char], c: char) -> (b: bool)
    ensures
        b == starts_with_char_of(s@, c),
{
    s.len() > 0 && s[0] == c
}

/* Prefixes, suffixes and pieces */

/// The index reached from `i` by stepping over repeated copies of `p`.
pub open spec fn skip_prefixes(s: Seq<char>, p: Seq<char>, i: int) -> int
    decreases s.len() - i,
{
    if p.len() > 0 && matches_at(s, p, i) {
        skip_prefixes(s, p, i + p.len())
    } else {
        i
    }
}

/// The end of the text before `j` once trailing copies of `c` are dropped.
pub open spec fn back_over(s: Seq<char>, c: char, j: int) -> int
    decreases j,
{
    if 0 < j <= s.len() && s[j - 1] == c {
        back_over(s, c, j - 1)
    } else {
        j
    }
}

/// The index just behind the last `c` before `j`, or 0 where there is none.
pub open spec fn back_to(s: Seq<char>, c: char, j: int) -> int
    decreases j,
{
    if 0 < j <= s.len() && s[j - 1] != c {
        back_to(s, c, j - 1)
    } else if 0 < j <= s.len() {
        j
    } else {
        0
    }
}

/// `s` without any leading copies of `p`.
pub open spec fn strip_prefixes_of(s: Seq<char>, p: Seq<char>) -> Seq<char> {
    s.subrange(skip_prefixes(s, p, 0), s.len() as int)
}

/// `s` without any trailing copies of `c`.
pub open spec fn strip_trailing_of(s: Seq<char>, c: char) -> Seq<char> {
    s.subrange(0, back_over(s, c, s.len() as int))
}

/// What follows the last `c` in `s`; all of `s` where it holds no `c`.
pub open spec fn after_last_of(s: Seq<char>, c: char) -> Seq<char> {
    s.subrange(back_to(s, c, s.len() as int), s.len() as int)
}

/// `s` without the prefix `p`, where it has that prefix.
pub open spec fn strip_prefix_of(s: Seq<char>, p: Seq<char>) -> Option<Seq<char>> {
    if starts_with_of(s, p) {
        Some(s.subrange(p.len() as int, s.len() as int))
    } else {
        None
    }
}

/// The two sides of the first `c` in `s`.
pub open spec fn split_once_of(s: Seq<char>, c: char) -> Option<(Seq<char>, Seq<char>)> {
    match find_char_of(s, c) {
        Some(i) => Some((s.subrange(0, i), s.subrange(i + 1, s.len() as int))),
        None => None,
    }
}

pub proof fn lemma_back_to_bounds(s: Seq<char>, c: char, j: int)
    requires
        0 <= j <= s.len(),
    ensures
        0 <= back_to(s, c, j) <= j,
        forall|k: int| back_to(s, c, j) <= k < j ==> #[trigger] s[k] != c,
    decreases j,
{
    if 0 < j && s[j - 1] != c {
        lemma_back_to_bounds(s, c, j - 1);
    }
}

pub fn strip_prefixes<'a>(s: &'a [char], p: &str) -> (r: &'a [char])
    ensures
        r@ == strip_prefixes_of(s@, p@),
{
    let n = s.len();
    let m = p.unicode_len();
    let mut i: usize = 0;
    if m == 0 {
        return vstd::slice::slice_subrange(s, 0, n);
    }
    while matches_str_at(s, p, i)
        invariant
            0 <= i <= n,
            n == s@.len(),
            m == p@.len(),
            m > 0,
            skip_prefixes(s@, p@, i as int) == skip_prefixes(s@, p@, 0),
        decreases n - i,
    {
        i += m;
    }
    vstd::slice::slice_subrange(s, i, n)
}

pub fn strip_trailing(s: &[char], c: char) -> (r: &[char])
    ensures
        r@ == strip_trailing_of(s@, c),
{
    let n = s.len();
    let mut j: usize = n;
    while j > 0 && s[j - 1] == c
        invariant
            0 <= j <= n,
            n == s@.len(),
            back_over(s@, c, j as int) == back_over(s@, c, n as int),
        decreases j,
    {
        j -= 1;
    }
    vstd::slice::slice_subrange(s, 0, j)
}

pub fn after_last(s: &[char], c: char) -> (r: &[char])
    ensures
        r@ == after_last_of(s@, c),
{
    let n = s.len();
    let mut j: usize = n;
    while j > 0 && s[j - 1] != c
        invariant
            0 <= j <= n,
            n == s@.len(),
            back_to(s@, c, j as int) == back_to(s@, c, n as int),
        decreases j,
    {
        j -= 1;
    }
    vstd::slice::slice_subrange(s, j, n)
}

pub fn strip_prefix<'a>(s: &'a [char], p: &str) -> (r: Option<&'a [char]>)
    ensures
        match r {
            Some(t) => strip_prefix_of(s@, p@) == Some(t@),
            None => strip_prefix_of(s@, p@) is None,
        },
{
    if starts_with_str(s, p) {
        let m = p.unicode_len();
        Some(vstd::slice::slice_subrange(s, m, s.len()))
    } else {
        None
    }
}

pub fn split_once(s: &[char], c: char) -> (r: Option<(&[char], &[char])>)
    ensures
        match r {
            Some((a, b)) => split_once_of(s@, c) == Some((a@, b@)),
            None => split_once_of(s@, c) is None,
        },
{
    let n = s.len();
    let i = find_char_from(s, c, 0);
    if i < n {
        Some((vstd::slice::slice_subrange(s, 0, i), vstd::slice::slice_subrange(s, i + 1, n)))
    } else {
        None
    }
}

/* Case and white space */

/// `s` with every ASCII capital lower-cased.
pub open spec fn lower_of(s: Seq<char>) -> Seq<char> {
    Seq::new(s.len(), |i: int| lower_char(s[i]))
}

/// `s` without its white space.
pub open spec fn without_spaces(s: Seq<char>) -> Seq<char>
    decreases s.len(),
{
    if s.len() == 0 {
        s
    } else if is_space(s.last()) {
        without_spaces(s.drop_last())
    } else {
        without_spaces(s.drop_last()).push(s.last())
    }
}

pub fn lower(s: &[char]) -> (r: Vec<char>)
    ensures
        r@ == lower_of(s@),
{
    let n = s.len();
    let mut out: Vec<char> = Vec::with_capacity(n);
    let mut i: usize = 0;
    while i < n
        invariant
            0 <= i <= n,
            n == s@.len(),
            out@ == lower_of(s@.subrange(0, i as int)),
        decreases n - i,
    {
        out.push(to_lower(s[i]));
        proof {
            assert(out@ =~= lower_of(s@.subrange(0, i + 1)));
        }
        i += 1;
    }
    proof {
        assert(s@.subrange(0, n as int) =~= s@);
    }
    out
}

pub fn normalized_no_ws(s: &[char]) -> (r: Vec<char>)
    ensures
        r@ == without_spaces(s@),
{
    let n = s.len();
    let mut out: Vec<char> = Vec::with_capacity(n);
    let mut i: usize = 0;
    while i < n
        invariant
            0 <= i <= n,
            n == s@.len(),
            out@ == without_spaces(s@.subrange(0, i as int)),
        decreases n - i,
    {
        proof {
            assert(s@.subrange(0, i + 1).drop_last() =~= s@.subrange(0, i as int));
        }
        if !is_whitespace(s[i]) {
            out.push(s[i]);
        }
        i += 1;
    }
    proof {
        assert(s@.subrange(0, n as int) =~= s@);
    }
    out
}

/* UTF-8 widths */

/// The number of bytes that `c` takes in UTF-8.
pub open spec fn char_width(c: char) -> nat {
    let u = c as u32;
    if u < 0x80 {
        1
    } else if u < 0x800 {
        2
    } else if u < 0x10000 {
        3
    } else {
        4
    }
}

/// The number of bytes that `s` takes in UTF-8.
pub open spec fn byte_len(s: Seq<char>) -> nat
    decreases s.len(),
{
    if s.len() == 0 {
        0
    } else {
        byte_len(s.drop_last()) + char_width(s.last())
    }
}

/// The UTF-8 byte offset of the character index `i` in `s`.
pub open spec fn byte_offset_of(s: Seq<char>, i: int) -> nat {
    byte_len(s.subrange(0, i))
}

pub proof fn lemma_byte_len_concat(a: Seq<char>, b: Seq<char>)
    ensures
        byte_len(a + b) == byte_len(a) + byte_len(b),
    decreases b.len(),
{
    if b.len() == 0 {
        assert(a + b =~= a);
    } else {
        assert((a + b).drop_last() =~= a + b.drop_last());
        assert((a + b).last() == b.last());
        lemma_byte_len_concat(a, b.drop_last());
    }
}

/// A prefix takes no more bytes than the whole.
pub proof fn lemma_byte_offset_le(s: Seq<char>, i: int)
    requires
        0 <= i <= s.len(),
    ensures
        byte_offset_of(s, i) <= byte_len(s),
        i < s.len() ==> byte_offset_of(s, i) < byte_len(s),
        i <= byte_offset_of(s, i),
{
    assert(s =~= s.subrange(0, i) + s.subrange(i, s.len() as int));
    lemma_byte_len_concat(s.subrange(0, i), s.subrange(i, s.len() as int));
    lemma_byte_len_ge(s.subrange(i, s.len() as int));
    lemma_byte_len_ge(s.subrange(0, i));
}

/// Every character takes at least one byte.
pub proof fn lemma_byte_len_ge(s: Seq<char>)
    ensures
        s.len() <= byte_len(s),
    decreases s.len(),
{
    if s.len() > 0 {
        lemma_byte_len_ge(s.drop_last());
    }
}

/// A piece of a text takes no more bytes than the text.
pub proof fn lemma_byte_len_subrange(s: Seq<char>, i: int, j: int)
    requires
        0 <= i <= j <= s.len(),
    ensures
        byte_len(s.subrange(i, j)) <= byte_len(s),
{
    assert(s =~= s.subrange(0, i) + s.subrange(i, j) + s.subrange(j, s.len() as int));
    lemma_byte_len_concat(s.subrange(0, i) + s.subrange(i, j), s.subrange(j, s.len() as int));
    lemma_byte_len_concat(s.subrange(0, i), s.subrange(i, j));
}

/// `byte_len` is the length of the UTF-8 encoding.
pub proof fn lemma_byte_len_utf8(s: Seq<char>)
    ensures
        byte_len(s) == encode_utf8(s).len(),
    decreases s.len(),
{
    if s.len() == 0 {
    } else {
        let head = s.subrange(0, 1);
        let tail = s.drop_first();
        assert(s =~= head + tail);
        lemma_byte_len_concat(head, tail);
        lemma_byte_len_utf8(tail);
        assert(head.drop_last() =~= Seq::<char>::empty());
        assert(byte_len(head) == char_width(s[0])) by {
            reveal_with_fuel(byte_len, 2);
        }
        let c = s[0];
        vstd::utf8::char_is_scalar(c);
        assert(encode_scalar(c as u32).len() == char_width(c));
    }
}

pub fn width(c: char) -> (w: usize)
    ensures
        w == char_width(c),
        1 <= w <= 4,
{
    let u: u32 = c as u32;
    if u < 0x80 {
        1
    } else if u < 0x800 {
        2
    } else if u < 0x10000 {
        3
    } else {
        4
    }
}

/// The UTF-8 byte offset of the character index `i`.
pub fn byte_offset(s: &[char], i: usize) -> (r: usize)
    requires
        i <= s@.len(),
        byte_len(s@) <= usize::MAX,
    ensures
        r == byte_offset_of(s@, i as int),
{
    let mut k: usize = 0;
    let mut total: usize = 0;
    while k < i
        invariant
            0 <= k <= i <= s@.len(),
            total == byte_offset_of(s@, k as int),
            byte_len(s@) <= usize::MAX,
        decreases i - k,
    {
        proof {
            assert(s@.subrange(0, k + 1).drop_last() =~= s@.subrange(0, k as int));
            lemma_byte_offset_le(s@, k + 1);
        }
        total += width(s[k]);
        k += 1;
    }
    total
}

/// The number of bytes that `s` takes in UTF-8, where that fits.
pub fn checked_byte_len(s: &[char]) -> (r: Option<usize>)
    ensures
        match r {
            Some(n) => n == byte_len(s@),
            None => byte_len(s@) > usize::MAX,
        },
{
    let n = s.len();
    let mut k: usize = 0;
    let mut total: usize = 0;
    while k < n
        invariant
            0 <= k <= n,
            n == s@.len(),
            total == byte_offset_of(s@, k as int),
        decreases n - k,
    {
        proof {
            assert(s@.subrange(0, k + 1).drop_last() =~= s@.subrange(0, k as int));
        }
        let w = width(s[k]);
        if total > usize::MAX - w {
            proof {
                lemma_byte_offset_le(s@, k + 1);
            }
            return None;
        }
        total += w;
        k += 1;
    }
    proof {
        assert(s@.subrange(0, n as int) =~= s@);
    }
    Some(total)
}

/* Lines and fields */

/// A piece of a text: the characters from `start` up to `end`.
#[derive(Clone, Copy, Debug)]
pub struct Span {
    pub start: usize,
    pub end: usize,
}

impl Span {
    /// The span lies inside a text of `len` characters.
    pub open spec fn within(self, len: nat) -> bool {
        self.start <= self.end <= len
    }

    /// The characters of `s` that the span covers.
    pub open spec fn of(self, s: Seq<char>) -> Seq<char> {
        s.subrange(self.start as int, self.end as int)
    }
}

/// The texts that `spans` cover in `s`, in order.
pub open spec fn pieces(s: Seq<char>, spans: Seq<Span>) -> Seq<Seq<char>> {
    Seq::new(spans.len(), |k: int| spans[k].of(s))
}

pub open spec fn all_within(spans: Seq<Span>, len: nat) -> bool {
    forall|k: int| 0 <= k < spans.len() ==> (#[trigger] spans[k]).within(len)
}

/// A line without the carriage return that stood before its line feed.
pub open spec fn strip_cr(line: Seq<char>) -> Seq<char> {
    if line.len() > 0 && line.last() == '\r' {
        line.drop_last()
    } else {
        line
    }
}

/// The lines of `s` from `start` on, `i` being how far the current line has
/// been read.
pub open spec fn lines_scan(s: Seq<char>, start: int, i: int) -> Seq<Seq<char>>
    decreases s.len() - i,
{
    if i < 0 || i >= s.len() {
        if 0 <= start < s.len() {
            seq![s.subrange(start, s.len() as int)]
        } else {
            Seq::empty()
        }
    } else if s[i] == '\n' {
        seq![strip_cr(s.subrange(start, i))] + lines_scan(s, i + 1, i + 1)
    } else {
        lines_scan(s, start, i + 1)
    }
}

/// The lines of `s`: it is cut at each line feed, a carriage return just
/// before a line feed goes with it, and a text that ends in a line feed has
/// no empty last line.
pub open spec fn lines_of(s: Seq<char>) -> Seq<Seq<char>> {
    lines_scan(s, 0, 0)
}

/// The fields of `s` from `start` on, cut at each `sep`.
pub open spec fn split_scan(s: Seq<char>, sep: char, start: int, i: int) -> Seq<Seq<char>>
    decreases s.len() - i,
{
    if i < 0 || i >= s.len() {
        seq![s.subrange(start, s.len() as int)]
    } else if s[i] == sep {
        seq![s.subrange(start, i)] + split_scan(s, sep, i + 1, i + 1)
    } else {
        split_scan(s, sep, start, i + 1)
    }
}

/// The fields of `s`, cut at each `sep`: one more than `s` holds separators.
pub open spec fn split_of(s: Seq<char>, sep: char) -> Seq<Seq<char>> {
    split_scan(s, sep, 0, 0)
}

/// The spans of the lines of `s`.
pub fn line_spans(s: &[char]) -> (r: Vec<Span>)
    ensures
        pieces(s@, r@) == lines_of(s@),
        all_within(r@, s@.len()),
{
    let n = s.len();
    let mut out: Vec<Span> = Vec::new();
    let mut start: usize = 0;
    let mut i: usize = 0;
    while i < n
        invariant
            0 <= start <= i <= n,
            n == s@.len(),
            all_within(out@, s@.len()),
            pieces(s@, out@) + lines_scan(s@, start as int, i as int) == lines_of(s@),
        decreases n - i,
    {
        if s[i] == '\n' {
            let end = if i > start && s[i - 1] == '\r' {
                i - 1
            } else {
                i
            };
            let ghost before = out@;
            out.push(Span { start, end });
            proof {
                let line = s@.subrange(start as int, i as int);
                assert(strip_cr(line) =~= s@.subrange(start as int, end as int));
                assert(pieces(s@, out@) =~= pieces(s@, before) + seq![strip_cr(line)]);
                assert(pieces(s@, out@) + lines_scan(s@, i + 1, i + 1) =~= pieces(s@, before) + (
                seq![strip_cr(line)] + lines_scan(s@, i + 1, i + 1)));
            }
            start = i + 1;
        }
        i += 1;
    }
    if start < n {
        let ghost before = out@;
        out.push(Span { start, end: n });
        proof {
            assert(pieces(s@, out@) =~= pieces(s@, before) + seq![
                s@.subrange(start as int, n as int),
            ]);
        }
    } else {
        proof {
            assert(pieces(s@, out@) + Seq::<Seq<char>>::empty() =~= pieces(s@, out@));
        }
    }
    out
}

/// The spans of the fields of `s`, cut at each `sep`.
pub fn split_spans(s: &[char], sep: char) -> (r: Vec<Span>)
    ensures
        pieces(s@, r@) == split_of(s@, sep),
        all_within(r@, s@.len()),
{
    let n = s.len();
    let mut out: Vec<Span> = Vec::new();
    let mut start: usize = 0;
    let mut i: usize = 0;
    while i < n
        invariant
            0 <= start <= i <= n,
            n == s@.len(),
            all_within(out@, s@.len()),
            pieces(s@, out@) + split_scan(s@, sep, start as int, i as int) == split_of(s@, sep),
        decreases n - i,
    {
        if s[i] == sep {
            let ghost before = out@;
            out.push(Span { start, end: i });
            proof {
                let field = s@.subrange(start as int, i as int);
                assert(pieces(s@, out@) =~= pieces(s@, before) + seq![field]);
                assert(pieces(s@, out@) + split_scan(s@, sep, i + 1, i + 1) =~= pieces(s@, before)
                    + (seq![field] + split_scan(s@, sep, i + 1, i + 1)));
            }
            start = i + 1;
        }
        i += 1;
    }
    let ghost before = out@;
    out.push(Span { start, end: n });
    proof {
        assert(pieces(s@, out@) =~= pieces(s@, before) + seq![s@.subrange(start as int, n as int)]);
    }
    out
}

/// The characters of `s` that `span` covers.
pub fn piece<'a>(s: &'a [char], span: &Span) -> (r: &'a [char])
    requires
        span.within(s@.len()),
    ensures
        r@ == span.of(s@),
{
    vstd::slice::slice_subrange(s, span.start, span.end)
}

/* Strings */

/// `String::push` of the standard library: the string is the one before
/// with `ch` added at its end.
pub assume_specification[ String::push ](s: &mut String, ch: char)
    ensures
        final(s)@ == old(s)@.push(ch),
;

/// The characters of `s`, in order.
pub fn chars_of(s: &str) -> (out: Vec<char>)
    ensures
        out@ == s@,
{
    let mut out: Vec<char> = Vec::new();
    for c in iter: s.chars()
        invariant
            iter.seq() == s@,
            out@ == iter.seq().subrange(0, iter.index() as int),
    {
        out.push(c);
    }
    out
}

/// The string that holds the characters of `s`.
pub fn string_of(s: &[char]) -> (out: String)
    ensures
        out@ == s@,
{
    let n = s.len();
    let mut out = String::new();
    let mut i: usize = 0;
    while i < n
        invariant
            0 <= i <= n,
            n == s@.len(),
            out@ == s@.subrange(0, i as int),
        decreases n - i,
    {
        out.push(s[i]);
        proof {
            assert(s@.subrange(0, i + 1) =~= s@.subrange(0, i as int).push(s@[i as int]));
        }
        i += 1;
    }
    proof {
        assert(s@.subrange(0, n as int) =~= s@);
    }
    out
}

/// Adds the characters of `s` at the end of `out`.
pub fn push_chars(out: &mut Vec<char>, s: &[char])
    ensures
        final(out)@ == old(out)@ + s@,
{
    let n = s.len();
    let mut i: usize = 0;
    while i < n
        invariant
            0 <= i <= n,
            n == s@.len(),
            out@ == old(out)@ + s@.subrange(0, i as int),
        decreases n - i,
    {
        out.push(s[i]);
        proof {
            assert(s@.subrange(0, i + 1) =~= s@.subrange(0, i as int).push(s@[i as int]));
        }
        i += 1;
    }
    proof {
        assert(s@.subrange(0, n as int) =~= s@);
    }
}

/// Adds the characters of the literal `s` at the end of `out`.
pub fn push_str(out: &mut Vec<char>, s: &str)
    ensures
        final(out)@ == old(out)@ + s@,
{
    for c in iter: s.chars()
        invariant
            iter.seq() == s@,
            out@ == old(out)@ + s@.subrange(0, iter.index() as int),
    {
        out.push(c);
        proof {
            let k = iter.index() as int;
            assert(s@.subrange(0, k + 1) =~= s@.subrange(0, k).push(s@[k]));
        }
    }
    proof {
        assert(s@.subrange(0, s@.len() as int) =~= s@);
    }
}

/* Numbers */

/// The decimal digit for `d`.
pub open spec fn digit_char(d: nat) -> char {
    (('0' as u32) + (d % 10) as u32) as char
}

/// `n` written in decimal.
pub open spec fn decimal_of(n: nat) -> Seq<char>
    decreases n,
{
    if n < 10 {
        seq![digit_char(n)]
    } else {
        decimal_of(n / 10).push(digit_char(n % 10))
    }
}

/// Adds `n`, written in decimal, at the end of `out`.
pub fn push_decimal(out: &mut Vec<char>, n: usize)
    ensures
        final(out)@ == old(out)@ + decimal_of(n as nat),
    decreases n,
{
    if n >= 10 {
        push_decimal(out, n / 10);
    }
    let d: u8 = (n % 10) as u8;
    out.push((48u8 + d) as char);
    proof {
        assert(out@ =~= old(out)@ + decimal_of(n as nat));
    }
}

pub open spec fn all_digits(s: Seq<char>) -> bool {
    forall|i: int| 0 <= i < s.len() ==> is_ascii_digit(#[trigger] s[i])
}

/// The number that the decimal digits `s` write.
pub open spec fn digits_value(s: Seq<char>) -> nat
    decreases s.len(),
{
    if s.len() == 0 {
        0
    } else {
        digits_value(s.drop_last()) * 10 + ((s.last() as u32) - ('0' as u32)) as nat
    }
}

/// The digits of a number text: the text without one leading plus sign.
pub open spec fn number_digits(s: Seq<char>) -> Seq<char> {
    if s.len() > 0 && s[0] == '+' {
        s.subrange(1, s.len() as int)
    } else {
        s
    }
}

/// The 32-bit unsigned number that `s` writes in decimal: an optional plus
/// sign, then one digit at least, the value within range.
pub open spec fn parse_u32_of(s: Seq<char>) -> Option<u32> {
    let d = number_digits(s);
    if d.len() > 0 && all_digits(d) && digits_value(d) <= u32::MAX {
        Some(digits_value(d) as u32)
    } else {
        None
    }
}

/// More digits never write a smaller number.
pub proof fn lemma_digits_value_grows(s: Seq<char>, k: int)
    requires
        0 <= k <= s.len(),
        all_digits(s),
    ensures
        digits_value(s.subrange(0, k)) <= digits_value(s),
    decreases s.len() - k,
{
    if k == s.len() {
        assert(s.subrange(0, k) =~= s);
    } else {
        let t = s.drop_last();
        assert(all_digits(t));
        assert(t.subrange(0, k) =~= s.subrange(0, k));
        lemma_digits_value_grows(t, k);
        assert(is_ascii_digit(s.last()));
    }
}

pub fn parse_u32(s: &[char]) -> (r: Option<u32>)
    ensures
        r == parse_u32_of(s@),
{
    let n = s.len();
    let first: usize = if n > 0 && s[0] == '+' {
        1
    } else {
        0
    };
    let d = vstd::slice::slice_subrange(s, first, n);
    let m = d.len();
    if m == 0 {
        return None;
    }
    let mut value: u32 = 0;
    let mut i: usize = 0;
    while i < m
        invariant
            0 <= i <= m,
            m == d@.len(),
            d@ == number_digits(s@),
            all_digits(d@.subrange(0, i as int)),
            value == digits_value(d@.subrange(0, i as int)),
        decreases m - i,
    {
        let c = d[i];
        if !is_digit(c) {
            proof {
                assert(!is_ascii_digit(d@[i as int]));
            }
            return None;
        }
        let digit: u32 = c as u32 - '0' as u32;
        proof {
            assert(d@.subrange(0, i + 1).drop_last() =~= d@.subrange(0, i as int));
            assert(d@.subrange(0, i + 1).last() == c);
            assert forall|k: int| 0 <= k < i + 1 implies is_ascii_digit(
                #[trigger] d@.subrange(0, i + 1)[k],
            ) by {
                if k < i {
                    assert(d@.subrange(0, i as int)[k] == d@.subrange(0, i + 1)[k]);
                }
            }
        }
        let next = match value.checked_mul(10) {
            Some(v) => v.checked_add(digit),
            None => None,
        };
        match next {
            Some(v) => {
                value = v;
            },
            None => {
                proof {
                    if all_digits(d@) {
                        lemma_digits_value_grows(d@, i + 1);
                    }
                }
                return None;
            },
        }
        i += 1;
    }
    proof {
        assert(d@.subrange(0, m as int) =~= d@);
    }
    Some(value)
}

/* Texts put together and taken apart again */

/// `s` holds no `c`.
pub open spec fn free_of(s: Seq<char>, c: char) -> bool {
    forall|i: int| 0 <= i < s.len() ==> (#[trigger] s[i]) != c
}

/// `s` has no white space at its start or at its end.
pub open spec fn tight(s: Seq<char>) -> bool {
    s.len() == 0 || (!is_space(s[0]) && !is_space(s.last()))
}

/// `s` has no ASCII capital.
pub open spec fn lower_case(s: Seq<char>) -> bool {
    forall|i: int| 0 <= i < s.len() ==> !('A' <= (#[trigger] s[i]) && s[i] <= 'Z')
}

/// Trimming leaves a text without white space at its ends as it is.
pub proof fn lemma_trim_tight(s: Seq<char>)
    requires
        tight(s),
    ensures
        trim_of(s) == s,
{
    assert(skip_spaces(s, 0) == 0);
    assert(trim_start_of(s) =~= s);
    assert(back_spaces(s, s.len() as int) == s.len());
    assert(trim_end_of(s) =~= s);
}

/// What is left of a text that begins with no white space begins as the
/// text does.
pub proof fn lemma_trim_keeps_first(s: Seq<char>)
    requires
        s.len() > 0,
        !is_space(s[0]),
    ensures
        trim_of(s).len() > 0,
        trim_of(s)[0] == s[0],
{
    assert(skip_spaces(s, 0) == 0);
    assert(trim_start_of(s) =~= s);
    lemma_back_spaces_first(s, s.len() as int);
}

proof fn lemma_back_spaces_first(s: Seq<char>, j: int)
    requires
        1 <= j <= s.len(),
        !is_space(s[0]),
    ensures
        1 <= back_spaces(s, j) <= j,
    decreases j,
{
    if j > 1 && is_space(s[j - 1]) {
        lemma_back_spaces_first(s, j - 1);
    }
}

/// Lower-casing leaves a text without capitals as it is.
pub proof fn lemma_lower_of_lower_case(s: Seq<char>)
    requires
        lower_case(s),
    ensures
        lower_of(s) == s,
{
    assert(lower_of(s) =~= s);
}

/// A text without separators from `i` on has one more field.
pub proof fn lemma_split_last(s: Seq<char>, sep: char, start: int, i: int)
    requires
        0 <= start <= i <= s.len(),
        forall|k: int| i <= k < s.len() ==> s[k] != sep,
    ensures
        split_scan(s, sep, start, i) == seq![s.subrange(start, s.len() as int)],
    decreases s.len() - i,
{
    if i < s.len() {
        lemma_split_last(s, sep, start, i + 1);
    }
}

/// A field behind a separator behind a text is one more field.
pub proof fn lemma_split_append(s: Seq<char>, f: Seq<char>, sep: char, start: int, i: int)
    requires
        0 <= start <= i <= s.len(),
        free_of(f, sep),
    ensures
        split_scan(s + seq![sep] + f, sep, start, i) == split_scan(s, sep, start, i).push(f),
    decreases s.len() - i,
{
    let ext = s + seq![sep] + f;
    if i < s.len() {
        assert(ext[i] == s[i]);
        if s[i] == sep {
            lemma_split_append(s, f, sep, i + 1, i + 1);
            assert(ext.subrange(start, i) =~= s.subrange(start, i));
            assert(seq![s.subrange(start, i)] + split_scan(s, sep, i + 1, i + 1).push(f) =~= (
            seq![s.subrange(start, i)] + split_scan(s, sep, i + 1, i + 1)).push(f));
        } else {
            lemma_split_append(s, f, sep, start, i + 1);
        }
    } else {
        assert(ext[i] == sep);
        assert(ext.subrange(start, i) =~= s.subrange(start, s.len() as int));
        assert forall|k: int| i + 1 <= k < ext.len() implies ext[k] != sep by {
            assert(ext[k] == f[k - i - 1]);
        }
        lemma_split_last(ext, sep, i + 1, i + 1);
        assert(ext.subrange(i + 1, ext.len() as int) =~= f);
        assert(seq![s.subrange(start, s.len() as int)] + seq![f] =~= seq![
            s.subrange(start, s.len() as int),
        ].push(f));
    }
}

/// A line without line feed up to the line feed at `j` is the next line.
proof fn lemma_lines_next(s: Seq<char>, start: int, i: int, j: int)
    requires
        0 <= start <= i <= j < s.len(),
        forall|k: int| i <= k < j ==> s[k] != '\n',
        s[j] == '\n',
    ensures
        lines_scan(s, start, i) == seq![strip_cr(s.subrange(start, j))] + lines_scan(
            s,
            j + 1,
            j + 1,
        ),
    decreases j - i,
{
    if i < j {
        lemma_lines_next(s, start, i + 1, j);
    }
}

/// The lines of a text that ends in a line feed, scanned from where a line
/// begins, with one more line behind it.
proof fn lemma_lines_append_from(s: Seq<char>, row: Seq<char>, start: int, i: int)
    requires
        0 <= start <= i <= s.len(),
        s.len() == 0 || s.last() == '\n',
        forall|k: int| start <= k < i ==> s[k] != '\n',
        free_of(row, '\n'),
    ensures
        lines_scan(s + row + seq!['\n'], start, i) == lines_scan(s, start, i).push(strip_cr(row)),
    decreases s.len() - i,
{
    let ext = s + row + seq!['\n'];
    if i < s.len() {
        assert(ext[i] == s[i]);
        if s[i] == '\n' {
            lemma_lines_append_from(s, row, i + 1, i + 1);
            assert(ext.subrange(start, i) =~= s.subrange(start, i));
            assert(seq![strip_cr(s.subrange(start, i))] + lines_scan(s, i + 1, i + 1).push(
                strip_cr(row),
            ) =~= (seq![strip_cr(s.subrange(start, i))] + lines_scan(s, i + 1, i + 1)).push(
                strip_cr(row),
            ));
        } else {
            lemma_lines_append_from(s, row, start, i + 1);
        }
    } else {
        if start < s.len() {
            assert(s[s.len() - 1] != '\n');
        }
        let j = (s.len() + row.len()) as int;
        assert forall|k: int| i <= k < j implies ext[k] != '\n' by {
            assert(ext[k] == row[k - s.len()]);
        }
        lemma_lines_next(ext, start, i, j);
        assert(ext.subrange(start, j) =~= row);
        assert(lines_scan(ext, j + 1, j + 1) =~= Seq::<Seq<char>>::empty());
        assert(lines_scan(s, start, i) =~= Seq::<Seq<char>>::empty());
        assert(seq![strip_cr(row)] + Seq::<Seq<char>>::empty() =~= Seq::<Seq<char>>::empty().push(
            strip_cr(row),
        ));
    }
}

/// A line behind a text that ends in a line feed is one more line.
pub proof fn lemma_lines_append(s: Seq<char>, row: Seq<char>)
    requires
        s.len() == 0 || s.last() == '\n',
        free_of(row, '\n'),
    ensures
        lines_of(s + row + seq!['\n']) == lines_of(s).push(strip_cr(row)),
{
    lemma_lines_append_from(s, row, 0, 0);
}

} // verus!
