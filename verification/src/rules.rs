//! The rule catalog: the rules that the scanner reports, in the order of
//! their identifiers, with lookups by identifier and by language.

use vstd::prelude::*;
use vstd::std_specs::iter::IteratorSpec;
use vstd::utf8::encode_utf8;
use crate::text::all_within;
use crate::text::chars_of;
use crate::text::decimal_of;
use crate::text::eq_str;
use crate::text::line_spans;
use crate::text::lines_of;
use crate::text::lower;
use crate::text::lower_of;
use crate::text::piece;
use crate::text::pieces;
use crate::text::push_decimal;
use crate::text::push_str;
use crate::text::split_of;
use crate::text::split_spans;
use crate::text::starts_with_char;
use crate::text::starts_with_char_of;
use crate::text::string_of;
use crate::text::trim;
use crate::text::trim_of;

verus! {

/// What is known of one rule.
#[derive(Debug, PartialEq, Eq)]
pub struct Rule {
    pub id: String,
    pub langs: Vec<String>,
    pub description: String,
    pub category: String,
    pub severity: String,
    pub problem_summary: String,
    pub fix_hint: String,
    pub code: u32,
}

/// The model of a rule.
pub struct RuleView {
    pub id: Seq<char>,
    pub langs: Seq<Seq<char>>,
    pub description: Seq<char>,
    pub category: Seq<char>,
    pub severity: Seq<char>,
    pub problem_summary: Seq<char>,
    pub fix_hint: Seq<char>,
    pub code: u32,
}

/// The texts of a list of strings.
pub open spec fn texts(v: Seq<String>) -> Seq<Seq<char>> {
    Seq::new(v.len(), |i: int| v[i]@)
}

impl View for Rule {
    type V = RuleView;

    open spec fn view(&self) -> RuleView {
        RuleView {
            id: self.id@,
            langs: texts(self.langs@),
            description: self.description@,
            category: self.category@,
            severity: self.severity@,
            problem_summary: self.problem_summary@,
            fix_hint: self.fix_hint@,
            code: self.code,
        }
    }
}

/// The models of a list of rules.
pub open spec fn rule_views(rules: Seq<Rule>) -> Seq<RuleView> {
    Seq::new(rules.len(), |i: int| rules[i]@)
}

/* The numeric code */

pub const FNV_OFFSET: u32 = 0x811C_9DC5;

pub const FNV_PRIME: u32 = 0x0100_0193;

/// The 32-bit FNV-1a hash of `bytes`: from the offset basis, each byte is
/// combined by exclusive or, then the prime is multiplied in, wrapping.
pub open spec fn fnv1a(bytes: Seq<u8>) -> u32
    decreases bytes.len(),
{
    if bytes.len() == 0 {
        FNV_OFFSET
    } else {
        (fnv1a(bytes.drop_last()) ^ (bytes.last() as u32)).wrapping_mul(FNV_PRIME)
    }
}

/// The numeric code of the rule `id`: the FNV-1a hash of its UTF-8 bytes.
pub open spec fn rule_code(id: Seq<char>) -> u32 {
    fnv1a(encode_utf8(id))
}

/// The numeric code of the rule `id`.
pub fn hash(id: &str) -> (h: u32)
    ensures
        h == rule_code(id@),
{
    let bytes = id.as_bytes();
    let n = bytes.len();
    let mut h: u32 = FNV_OFFSET;
    let mut i: usize = 0;
    while i < n
        invariant
            0 <= i <= n,
            n == bytes@.len(),
            bytes@ == encode_utf8(id@),
            h == fnv1a(bytes@.subrange(0, i as int)),
        decreases n - i,
    {
        proof {
            assert(bytes@.subrange(0, i + 1).drop_last() =~= bytes@.subrange(0, i as int));
        }
        h = (h ^ (bytes[i] as u32)).wrapping_mul(FNV_PRIME);
        i += 1;
    }
    proof {
        assert(bytes@.subrange(0, n as int) =~= bytes@);
    }
    h
}

/* The order of identifiers */

/// `a` comes no later than `b`, both read from index `i` on, in the order
/// of a dictionary over the code points.
pub open spec fn lex_le_from(a: Seq<char>, b: Seq<char>, i: int) -> bool
    decreases a.len() - i,
{
    if i < 0 || i >= a.len() {
        true
    } else if i >= b.len() {
        false
    } else if a[i] != b[i] {
        (a[i] as u32) < (b[i] as u32)
    } else {
        lex_le_from(a, b, i + 1)
    }
}

/// `a` comes no later than `b` in the order of identifiers. It is the order
/// of the UTF-8 bytes too, which keep the order of the code points.
pub open spec fn lex_le(a: Seq<char>, b: Seq<char>) -> bool {
    lex_le_from(a, b, 0)
}

/// `a` comes before `b`.
pub open spec fn lex_lt(a: Seq<char>, b: Seq<char>) -> bool {
    !lex_le(b, a)
}

proof fn lemma_lex_total_from(a: Seq<char>, b: Seq<char>, i: int)
    requires
        0 <= i,
    ensures
        lex_le_from(a, b, i) || lex_le_from(b, a, i),
    decreases a.len() - i,
{
    if i < a.len() && i < b.len() {
        if a[i] == b[i] {
            lemma_lex_total_from(a, b, i + 1);
        } else {
            vstd::utf8::char_u32_cast(a[i], a[i] as u32);
            vstd::utf8::char_u32_cast(b[i], b[i] as u32);
        }
    }
}

proof fn lemma_lex_trans_from(a: Seq<char>, b: Seq<char>, c: Seq<char>, i: int)
    requires
        0 <= i,
        lex_le_from(a, b, i),
        lex_le_from(b, c, i),
    ensures
        lex_le_from(a, c, i),
    decreases a.len() - i,
{
    if i < a.len() && i < b.len() && i < c.len() && a[i] == b[i] && b[i] == c[i] {
        lemma_lex_trans_from(a, b, c, i + 1);
    }
}

proof fn lemma_lex_antisym_from(a: Seq<char>, b: Seq<char>, i: int)
    requires
        0 <= i <= a.len(),
        i <= b.len(),
        lex_le_from(a, b, i),
        lex_le_from(b, a, i),
    ensures
        a.subrange(i, a.len() as int) == b.subrange(i, b.len() as int),
    decreases a.len() - i,
{
    if i < a.len() && i < b.len() {
        lemma_lex_antisym_from(a, b, i + 1);
        assert(a.subrange(i, a.len() as int) =~= seq![a[i]] + a.subrange(i + 1, a.len() as int));
        assert(b.subrange(i, b.len() as int) =~= seq![b[i]] + b.subrange(i + 1, b.len() as int));
    } else {
        assert(a.subrange(i, a.len() as int) =~= b.subrange(i, b.len() as int));
    }
}

/// Of two identifiers one comes no later than the other.
pub proof fn lemma_lex_total(a: Seq<char>, b: Seq<char>)
    ensures
        lex_le(a, b) || lex_le(b, a),
{
    lemma_lex_total_from(a, b, 0);
}

pub proof fn lemma_lex_trans(a: Seq<char>, b: Seq<char>, c: Seq<char>)
    requires
        lex_le(a, b),
        lex_le(b, c),
    ensures
        lex_le(a, c),
{
    lemma_lex_trans_from(a, b, c, 0);
}

/// Two identifiers of which each comes no later than the other are one.
pub proof fn lemma_lex_antisym(a: Seq<char>, b: Seq<char>)
    requires
        lex_le(a, b),
        lex_le(b, a),
    ensures
        a == b,
{
    lemma_lex_antisym_from(a, b, 0);
    assert(a.subrange(0, a.len() as int) =~= a);
    assert(b.subrange(0, b.len() as int) =~= b);
}

pub proof fn lemma_lex_refl(a: Seq<char>)
    ensures
        lex_le(a, a),
{
    lemma_lex_total(a, a);
}

/// Does `a` come no later than `b`?
pub fn text_le(a: &[char], b: &[char]) -> (r: bool)
    ensures
        r == lex_le(a@, b@),
{
    let n = a.len();
    let m = b.len();
    let mut i: usize = 0;
    while i < n
        invariant
            0 <= i <= n,
            n == a@.len(),
            m == b@.len(),
            lex_le_from(a@, b@, i as int) == lex_le(a@, b@),
        decreases n - i,
    {
        if i >= m {
            return false;
        }
        if a[i] != b[i] {
            return (a[i] as u32) < (b[i] as u32);
        }
        i += 1;
    }
    true
}

/* Sorting by identifier */

/// The rules stand in the order of their identifiers.
pub open spec fn sorted(rules: Seq<RuleView>) -> bool {
    forall|i: int, j: int| 0 <= i < j < rules.len() ==> lex_le(rules[i].id, rules[j].id)
}

/// Where a rule with the identifier `id` goes into the sorted `rules`:
/// behind every rule whose identifier comes no later.
pub open spec fn slot_of(rules: Seq<RuleView>, id: Seq<char>) -> int
    decreases rules.len(),
{
    if rules.len() > 0 && lex_lt(id, rules.last().id) {
        slot_of(rules.drop_last(), id)
    } else {
        rules.len() as int
    }
}

pub open spec fn insert_rule(rules: Seq<RuleView>, r: RuleView) -> Seq<RuleView> {
    rules.insert(slot_of(rules, r.id), r)
}

/// `rows` sorted by identifier; rows with one identifier keep their order.
pub open spec fn sort_rules(rows: Seq<RuleView>) -> Seq<RuleView>
    decreases rows.len(),
{
    if rows.len() == 0 {
        rows
    } else {
        insert_rule(sort_rules(rows.drop_last()), rows.last())
    }
}

pub proof fn lemma_slot_of(rules: Seq<RuleView>, id: Seq<char>)
    ensures
        0 <= slot_of(rules, id) <= rules.len(),
        forall|k: int| slot_of(rules, id) <= k < rules.len() ==> lex_lt(id, #[trigger] rules[k].id),
        slot_of(rules, id) > 0 ==> lex_le(rules[slot_of(rules, id) - 1].id, id),
    decreases rules.len(),
{
    if rules.len() > 0 && lex_lt(id, rules.last().id) {
        let rest = rules.drop_last();
        lemma_slot_of(rest, id);
        assert forall|k: int| slot_of(rules, id) <= k < rules.len() implies lex_lt(
            id,
            #[trigger] rules[k].id,
        ) by {
            if k < rest.len() {
                assert(rest[k] == rules[k]);
            }
        }
        if slot_of(rules, id) > 0 {
            assert(rest[slot_of(rules, id) - 1] == rules[slot_of(rules, id) - 1]);
        }
    } else if rules.len() > 0 {
        lemma_lex_total(id, rules.last().id);
    }
}

pub proof fn lemma_insert_rule_sorted(rules: Seq<RuleView>, r: RuleView)
    requires
        sorted(rules),
    ensures
        sorted(insert_rule(rules, r)),
        insert_rule(rules, r).len() == rules.len() + 1,
        insert_rule(rules, r).to_multiset() == rules.to_multiset().insert(r),
{
    let p = slot_of(rules, r.id);
    let out = insert_rule(rules, r);
    lemma_slot_of(rules, r.id);
    vstd::seq_lib::to_multiset_insert(rules, p, r);
    assert forall|i: int, j: int| 0 <= i < j < out.len() implies lex_le(out[i].id, out[j].id) by {
        if j < p {
        } else if j == p {
            assert(out[i] == rules[i]);
            if i < p - 1 {
                lemma_lex_trans(rules[i].id, rules[p - 1].id, r.id);
            }
        } else {
            assert(out[j] == rules[j - 1]);
            if i < p {
                assert(out[i] == rules[i]);
            } else if i == p {
                assert(lex_lt(r.id, rules[j - 1].id));
                lemma_lex_total(r.id, rules[j - 1].id);
            } else {
                assert(out[i] == rules[i - 1]);
            }
        }
    }
}

/// Sorting keeps every row, once each, and puts them in order.
pub proof fn lemma_sort_rules(rows: Seq<RuleView>)
    ensures
        sorted(sort_rules(rows)),
        sort_rules(rows).len() == rows.len(),
        sort_rules(rows).to_multiset() == rows.to_multiset(),
    decreases rows.len(),
{
    if rows.len() == 0 {
    } else {
        lemma_sort_rules(rows.drop_last());
        lemma_insert_rule_sorted(sort_rules(rows.drop_last()), rows.last());
        vstd::seq_lib::to_multiset_build(rows.drop_last(), rows.last());
        assert(rows.drop_last().push(rows.last()) =~= rows);
    }
}

/// A rule is among the sorted rules exactly if it is among the rows.
pub proof fn lemma_sort_rules_contains(rows: Seq<RuleView>, r: RuleView)
    ensures
        sort_rules(rows).contains(r) <==> rows.contains(r),
{
    lemma_sort_rules(rows);
    vstd::seq_lib::to_multiset_contains(rows, r);
    vstd::seq_lib::to_multiset_contains(sort_rules(rows), r);
}

/* Lookup by identifier */

/// The rule with the identifier `id`: the last of them in `rules`.
pub open spec fn find_rule(rules: Seq<RuleView>, id: Seq<char>) -> Option<RuleView>
    decreases rules.len(),
{
    if rules.len() == 0 {
        None
    } else if rules.last().id == id {
        Some(rules.last())
    } else {
        find_rule(rules.drop_last(), id)
    }
}

pub proof fn lemma_find_rule_some(rules: Seq<RuleView>, id: Seq<char>, j: int)
    requires
        0 <= j < rules.len(),
        rules[j].id == id,
        forall|k: int| j < k < rules.len() ==> rules[k].id != id,
    ensures
        find_rule(rules, id) == Some(rules[j]),
    decreases rules.len(),
{
    if j < rules.len() - 1 {
        lemma_find_rule_some(rules.drop_last(), id, j);
    }
}

pub proof fn lemma_find_rule_none(rules: Seq<RuleView>, id: Seq<char>)
    requires
        forall|k: int| 0 <= k < rules.len() ==> rules[k].id != id,
    ensures
        find_rule(rules, id) is None,
    decreases rules.len(),
{
    if rules.len() > 0 {
        lemma_find_rule_none(rules.drop_last(), id);
    }
}

/// What `find_rule` finds is one of the rules, and has the identifier.
pub proof fn lemma_find_rule(rules: Seq<RuleView>, id: Seq<char>)
    ensures
        match find_rule(rules, id) {
            Some(r) => r.id == id && rules.contains(r),
            None => forall|k: int| 0 <= k < rules.len() ==> (#[trigger] rules[k]).id != id,
        },
    decreases rules.len(),
{
    if rules.len() == 0 {
    } else if rules.last().id == id {
        assert(rules[rules.len() - 1] == rules.last());
    } else {
        lemma_find_rule(rules.drop_last(), id);
        match find_rule(rules.drop_last(), id) {
            Some(r) => {
                let k = choose|k: int| 0 <= k < rules.drop_last().len() && rules.drop_last()[k] == r;
                assert(rules[k] == r);
            },
            None => {
                assert forall|k: int| 0 <= k < rules.len() implies (#[trigger] rules[k]).id
                    != id by {
                    if k < rules.len() - 1 {
                        assert(rules.drop_last()[k] == rules[k]);
                    }
                }
            },
        }
    }
}

/* Lookup by language */

/// The number of times that `lang` stands in `langs`.
pub open spec fn count_lang(langs: Seq<Seq<char>>, lang: Seq<char>) -> nat
    decreases langs.len(),
{
    if langs.len() == 0 {
        0
    } else if langs.last() == lang {
        count_lang(langs.drop_last(), lang) + 1
    } else {
        count_lang(langs.drop_last(), lang)
    }
}

/// The indexes of the rules that name the language `lang`, in rising order;
/// a rule stands once for each time that it names the language.
pub open spec fn lang_indexes(rules: Seq<RuleView>, lang: Seq<char>) -> Seq<int>
    decreases rules.len(),
{
    if rules.len() == 0 {
        Seq::empty()
    } else {
        lang_indexes(rules.drop_last(), lang) + Seq::new(
            count_lang(rules.last().langs, lang),
            |k: int| rules.len() - 1,
        )
    }
}

/// The rules that name the language `lang`, in the order of the catalog.
pub open spec fn lang_rules(rules: Seq<RuleView>, lang: Seq<char>) -> Seq<RuleView> {
    Seq::new(lang_indexes(rules, lang).len(), |k: int| rules[lang_indexes(rules, lang)[k]])
}

pub proof fn lemma_lang_indexes(rules: Seq<RuleView>, lang: Seq<char>)
    ensures
        forall|k: int|
            0 <= k < lang_indexes(rules, lang).len() ==> 0 <= #[trigger] lang_indexes(
                rules,
                lang,
            )[k] < rules.len(),
        forall|i: int, j: int|
            0 <= i < j < lang_indexes(rules, lang).len() ==> lang_indexes(rules, lang)[i]
                <= lang_indexes(rules, lang)[j],
    decreases rules.len(),
{
    if rules.len() > 0 {
        let rest = rules.drop_last();
        lemma_lang_indexes(rest, lang);
        let head = lang_indexes(rest, lang);
        let all = lang_indexes(rules, lang);
        assert forall|k: int| 0 <= k < all.len() implies 0 <= #[trigger] all[k] < rules.len() by {
            if k < head.len() {
                assert(all[k] == head[k]);
            }
        }
        assert forall|i: int, j: int| 0 <= i < j < all.len() implies all[i] <= all[j] by {
            if j < head.len() {
                assert(all[i] == head[i]);
                assert(all[j] == head[j]);
            } else if i < head.len() {
                assert(all[i] == head[i]);
            }
        }
    }
}

/* The rule table */

/// What is wrong with a rule table; `line` counts from 1.
#[derive(Clone, Copy, Debug, PartialEq, Eq, Structural)]
pub enum TableError {
    /// A row that does not have seven fields.
    FieldCount { line: usize },
    /// A row without a problem summary or without a fix hint.
    MissingGuidance { line: usize },
    /// A row without an identifier.
    MissingId { line: usize },
    /// A table without any row.
    NoRules,
}

/// The words for a table error.
pub open spec fn error_text(e: TableError) -> Seq<char> {
    match e {
        TableError::FieldCount { line } => "invalid field count on line "@ + decimal_of(line as nat),
        TableError::MissingGuidance { line } => "missing guidance fields on line "@ + decimal_of(
            line as nat,
        ),
        TableError::MissingId { line } => "missing rule id on line "@ + decimal_of(line as nat),
        TableError::NoRules => "no rules defined"@,
    }
}

impl TableError {
    /// The error in words.
    pub fn message(&self) -> (r: String)
        ensures
            r@ == error_text(*self),
    {
        let mut out: Vec<char> = Vec::new();
        match self {
            TableError::FieldCount { line } => {
                push_str(&mut out, "invalid field count on line ");
                push_decimal(&mut out, *line);
            },
            TableError::MissingGuidance { line } => {
                push_str(&mut out, "missing guidance fields on line ");
                push_decimal(&mut out, *line);
            },
            TableError::MissingId { line } => {
                push_str(&mut out, "missing rule id on line ");
                push_decimal(&mut out, *line);
            },
            TableError::NoRules => {
                push_str(&mut out, "no rules defined");
            },
        }
        string_of(out.as_slice())
    }
}

/// The number of fields in a row.
pub const FIELDS: usize = 7;

/// The language tags of a row: each part trimmed and lower-cased, the empty
/// ones left out.
pub open spec fn clean_langs(parts: Seq<Seq<char>>) -> Seq<Seq<char>>
    decreases parts.len(),
{
    if parts.len() == 0 {
        Seq::empty()
    } else {
        let tag = lower_of(trim_of(parts.last()));
        if tag.len() == 0 {
            clean_langs(parts.drop_last())
        } else {
            clean_langs(parts.drop_last()).push(tag)
        }
    }
}

/// A rule is fit for the catalog: it has an identifier, a problem summary
/// and a fix hint, and its code is the hash of its identifier.
pub open spec fn valid_rule(r: RuleView) -> bool {
    &&& r.id.len() > 0
    &&& r.problem_summary.len() > 0
    &&& r.fix_hint.len() > 0
    &&& r.code == rule_code(r.id)
}

/// The rule that the row `line` describes, `line_no` being its line. The
/// fields are what stands between the tabs of the line as it is, empty
/// fields at its start and end among them: identifier, languages,
/// description, category, severity, problem summary, fix hint. Each field
/// is trimmed once the fields are counted.
pub open spec fn row_of(line: Seq<char>, line_no: usize) -> Result<RuleView, TableError> {
    let parts = split_of(line, '\t');
    if parts.len() != FIELDS {
        Err(TableError::FieldCount { line: line_no })
    } else if trim_of(parts[5]).len() == 0 || trim_of(parts[6]).len() == 0 {
        Err(TableError::MissingGuidance { line: line_no })
    } else if trim_of(parts[0]).len() == 0 {
        Err(TableError::MissingId { line: line_no })
    } else {
        Ok(
            RuleView {
                id: trim_of(parts[0]),
                langs: clean_langs(split_of(parts[1], ',')),
                description: trim_of(parts[2]),
                category: lower_of(trim_of(parts[3])),
                severity: lower_of(trim_of(parts[4])),
                problem_summary: trim_of(parts[5]),
                fix_hint: trim_of(parts[6]),
                code: rule_code(trim_of(parts[0])),
            },
        )
    }
}

/// A line that holds a row: trimmed, it is not empty and does not begin
/// with `#`.
pub open spec fn is_data_line(raw: Seq<char>) -> bool {
    trim_of(raw).len() > 0 && !starts_with_char_of(trim_of(raw), '#')
}

/// The rows of the first `upto` lines of a table, or its first error. The
/// first line is the header.
pub open spec fn table_rows(lines: Seq<Seq<char>>, upto: int) -> Result<Seq<RuleView>, TableError>
    decreases upto,
{
    if upto <= 1 || upto > lines.len() {
        Ok(Seq::empty())
    } else {
        match table_rows(lines, upto - 1) {
            Ok(rows) => {
                if is_data_line(lines[upto - 1]) {
                    match row_of(lines[upto - 1], upto as usize) {
                        Ok(r) => Ok(rows.push(r)),
                        Err(e) => Err(e),
                    }
                } else {
                    Ok(rows)
                }
            },
            Err(e) => Err(e),
        }
    }
}

/// The rows of the table `data`, in the order of its lines; the first error
/// where a row is malformed; an error where there is no row.
pub open spec fn parse_table_of(data: Seq<char>) -> Result<Seq<RuleView>, TableError> {
    match table_rows(lines_of(data), lines_of(data).len() as int) {
        Ok(rows) => if rows.len() == 0 {
            Err(TableError::NoRules)
        } else {
            Ok(rows)
        },
        Err(e) => Err(e),
    }
}

/// Every row of a table is fit for the catalog.
pub proof fn lemma_table_rows_valid(lines: Seq<Seq<char>>, upto: int)
    ensures
        match table_rows(lines, upto) {
            Ok(rows) => forall|i: int| 0 <= i < rows.len() ==> valid_rule(#[trigger] rows[i]),
            Err(_) => true,
        },
    decreases upto,
{
    if upto <= 1 || upto > lines.len() {
    } else {
        lemma_table_rows_valid(lines, upto - 1);
    }
}

fn parse_langs(field: &[char]) -> (r: Vec<String>)
    ensures
        texts(r@) == clean_langs(split_of(field@, ',')),
{
    let spans = split_spans(field, ',');
    let mut out: Vec<String> = Vec::new();
    let mut k: usize = 0;
    while k < spans.len()
        invariant
            0 <= k <= spans@.len(),
            all_within(spans@, field@.len()),
            pieces(field@, spans@) == split_of(field@, ','),
            texts(out@) == clean_langs(pieces(field@, spans@).subrange(0, k as int)),
        decreases spans@.len() - k,
    {
        let tag = lower(trim(piece(field, &spans[k])));
        proof {
            let parts = pieces(field@, spans@);
            assert(parts.subrange(0, k + 1).drop_last() =~= parts.subrange(0, k as int));
            assert(parts.subrange(0, k + 1).last() == spans@[k as int].of(field@));
        }
        if tag.len() > 0 {
            let ghost before = out@;
            out.push(string_of(tag.as_slice()));
            proof {
                assert(texts(out@) =~= texts(before).push(tag@));
            }
        }
        k += 1;
    }
    proof {
        let parts = pieces(field@, spans@);
        assert(parts.subrange(0, spans@.len() as int) =~= parts);
    }
    out
}

/// The rule that the row `line` describes.
pub fn parse_row(line: &[char], line_no: usize) -> (r: Result<Rule, TableError>)
    ensures
        match r {
            Ok(rule) => row_of(line@, line_no) == Ok::<RuleView, TableError>(rule@),
            Err(e) => row_of(line@, line_no) == Err::<RuleView, TableError>(e),
        },
{
    let spans = split_spans(line, '\t');
    if spans.len() != FIELDS {
        return Err(TableError::FieldCount { line: line_no });
    }
    proof {
        let parts = pieces(line@, spans@);
        assert(parts[0] == spans@[0].of(line@));
        assert(parts[1] == spans@[1].of(line@));
        assert(parts[2] == spans@[2].of(line@));
        assert(parts[3] == spans@[3].of(line@));
        assert(parts[4] == spans@[4].of(line@));
        assert(parts[5] == spans@[5].of(line@));
        assert(parts[6] == spans@[6].of(line@));
    }
    let problem_summary = trim(piece(line, &spans[5]));
    let fix_hint = trim(piece(line, &spans[6]));
    if problem_summary.len() == 0 || fix_hint.len() == 0 {
        return Err(TableError::MissingGuidance { line: line_no });
    }
    let id = trim(piece(line, &spans[0]));
    if id.len() == 0 {
        return Err(TableError::MissingId { line: line_no });
    }
    let id = string_of(id);
    let code = hash(id.as_str());
    let category = lower(trim(piece(line, &spans[3])));
    let severity = lower(trim(piece(line, &spans[4])));
    let rule = Rule {
        id,
        langs: parse_langs(piece(line, &spans[1])),
        description: string_of(trim(piece(line, &spans[2]))),
        category: string_of(category.as_slice()),
        severity: string_of(severity.as_slice()),
        problem_summary: string_of(problem_summary),
        fix_hint: string_of(fix_hint),
        code,
    };
    Ok(rule)
}

/// The rows of the table `data`, in the order of its lines.
pub fn parse_table(data: &[char]) -> (r: Result<Vec<Rule>, TableError>)
    ensures
        match r {
            Ok(rows) => parse_table_of(data@) == Ok::<Seq<RuleView>, TableError>(rule_views(rows@)),
            Err(e) => parse_table_of(data@) == Err::<Seq<RuleView>, TableError>(e),
        },
{
    let spans = line_spans(data);
    let mut rows: Vec<Rule> = Vec::with_capacity(16);
    let mut k: usize = 1;
    proof {
        assert(rule_views(rows@) =~= Seq::empty());
    }
    while k < spans.len()
        invariant
            1 <= k,
            all_within(spans@, data@.len()),
            pieces(data@, spans@) == lines_of(data@),
            k <= spans@.len() ==> table_rows(lines_of(data@), k as int) == Ok::<
                Seq<RuleView>,
                TableError,
            >(rule_views(rows@)),
            k > spans@.len() ==> rows@.len() == 0 && spans@.len() == 0,
        decreases spans@.len() - k,
    {
        let raw = piece(data, &spans[k]);
        let line = trim(raw);
        proof {
            assert(lines_of(data@)[k as int] == spans@[k as int].of(data@));
        }
        if line.len() > 0 && !starts_with_char(line, '#') {
            match parse_row(raw, k + 1) {
                Ok(rule) => {
                    let ghost before = rule_views(rows@);
                    rows.push(rule);
                    proof {
                        assert(rule_views(rows@) =~= before.push(rule@));
                    }
                },
                Err(e) => {
                    proof {
                        lemma_table_rows_error(lines_of(data@), k + 1, spans@.len() as int);
                    }
                    return Err(e);
                },
            }
        }
        k += 1;
    }
    if rows.len() == 0 {
        Err(TableError::NoRules)
    } else {
        Ok(rows)
    }
}

/// An error in the first lines of a table is the error of the table.
pub proof fn lemma_table_rows_error(lines: Seq<Seq<char>>, k: int, upto: int)
    requires
        1 <= k <= upto <= lines.len(),
        table_rows(lines, k) is Err,
    ensures
        table_rows(lines, upto) == table_rows(lines, k),
    decreases upto - k,
{
    if k < upto {
        lemma_table_rows_error(lines, k, upto - 1);
    }
}

/* The catalog */

/// The rules that name one language.
struct LangIndex {
    lang: Vec<char>,
    indexes: Vec<usize>,
}

/// The indexes of a language entry, as the model has them.
pub open spec fn index_seq(v: Seq<usize>) -> Seq<int> {
    Seq::new(v.len(), |k: int| v[k] as int)
}

/// The catalog of rules: sorted by identifier, never changed once made.
pub struct RuleRegistry {
    all: Vec<Rule>,
    ids: Vec<Vec<char>>,
    by_lang: Vec<LangIndex>,
}

impl View for RuleRegistry {
    type V = Seq<RuleView>;

    closed spec fn view(&self) -> Seq<RuleView> {
        rule_views(self.all@)
    }
}

/// Iterator over the rules of one language.
pub struct RuleIter<'a> {
    rules: &'a [Rule],
    indexes: Option<&'a Vec<usize>>,
    pos: usize,
}

impl<'a> RuleIter<'a> {
    #[verifier::type_invariant]
    closed spec fn inv(self) -> bool {
        match self.indexes {
            Some(v) => self.pos <= v@.len() && forall|k: int|
                0 <= k < v@.len() ==> (#[trigger] v@[k]) < self.rules@.len(),
            None => true,
        }
    }

    /// The rules that the iterator has yet to give, in order.
    pub closed spec fn remaining(self) -> Seq<RuleView> {
        match self.indexes {
            Some(v) => Seq::new(
                (v@.len() - self.pos) as nat,
                |k: int| self.rules@[v@[self.pos + k] as int]@,
            ),
            None => Seq::empty(),
        }
    }

    /// The next rule of the language, if there is one left.
    pub fn next(&mut self) -> (r: Option<&'a Rule>)
        ensures
            match r {
                Some(rule) => old(self).remaining().len() > 0 && rule@ == old(self).remaining()[0]
                    && final(self).remaining() == old(self).remaining().drop_first(),
                None => old(self).remaining().len() == 0 && final(self).remaining() == old(
                    self,
                ).remaining(),
            },
    {
        proof {
            use_type_invariant(&*self);
        }
        match self.indexes {
            Some(v) => {
                if self.pos >= v.len() {
                    return None;
                }
                let rule = &self.rules[v[self.pos]];
                self.pos += 1;
                proof {
                    assert(self.remaining() =~= old(self).remaining().drop_first());
                }
                Some(rule)
            },
            None => None,
        }
    }
}

/// The entry of `lang` is in `entries`.
spec fn has_lang(entries: Seq<LangIndex>, lang: Seq<char>) -> bool {
    exists|e: int| 0 <= e < entries.len() && (#[trigger] entries[e]).lang@ == lang
}

/// Each entry lists the rules that name its language.
#[verifier::opaque]
spec fn entries_match(entries: Seq<LangIndex>, rules: Seq<RuleView>) -> bool {
    forall|e: int|
        0 <= e < entries.len() ==> index_seq((#[trigger] entries[e]).indexes@) == lang_indexes(
            rules,
            entries[e].lang@,
        )
}

/// Each language that a rule names has an entry.
#[verifier::opaque]
spec fn langs_covered(entries: Seq<LangIndex>, rules: Seq<RuleView>) -> bool {
    forall|i: int, k: int|
        0 <= i < rules.len() && 0 <= k < rules[i].langs.len() ==> has_lang(
            entries,
            #[trigger] rules[i].langs[k],
        )
}

fn same_chars(a: &Vec<char>, b: &[char]) -> (r: bool)
    ensures
        r == (a@ == b@),
{
    let n = a.len();
    if n != b.len() {
        return false;
    }
    let mut i: usize = 0;
    while i < n
        invariant
            0 <= i <= n,
            n == a@.len(),
            n == b@.len(),
            forall|k: int| 0 <= k < i ==> a@[k] == b@[k],
        decreases n - i,
    {
        if a[i] != b[i] {
            return false;
        }
        i += 1;
    }
    proof {
        assert(a@ =~= b@);
    }
    true
}

/// The indexes of the rules in `all` that name `lang`.
fn indexes_for(all: &Vec<Rule>, lang: &[char]) -> (r: Vec<usize>)
    ensures
        index_seq(r@) == lang_indexes(rule_views(all@), lang@),
{
    let mut out: Vec<usize> = Vec::new();
    let mut i: usize = 0;
    proof {
        assert(rule_views(all@).subrange(0, 0) =~= Seq::empty());
        assert(index_seq(out@) =~= Seq::empty());
    }
    while i < all.len()
        invariant
            0 <= i <= all@.len(),
            index_seq(out@) == lang_indexes(rule_views(all@).subrange(0, i as int), lang@),
        decreases all@.len() - i,
    {
        let ghost rules = rule_views(all@).subrange(0, i + 1);
        let ghost head = lang_indexes(rule_views(all@).subrange(0, i as int), lang@);
        proof {
            assert(rules.drop_last() =~= rule_views(all@).subrange(0, i as int));
            assert(rules.last() == all@[i as int]@);
        }
        let langs = &all[i].langs;
        let mut k: usize = 0;
        proof {
            assert(texts(langs@).subrange(0, 0) =~= Seq::empty());
            assert(head + Seq::new(0nat, |j: int| i as int) =~= head);
        }
        while k < langs.len()
            invariant
                0 <= k <= langs@.len(),
                0 <= i < all@.len(),
                langs == &all@[i as int].langs,
                head == lang_indexes(rule_views(all@).subrange(0, i as int), lang@),
                index_seq(out@) == head + Seq::new(
                    count_lang(texts(langs@).subrange(0, k as int), lang@),
                    |j: int| i as int,
                ),
            decreases langs@.len() - k,
        {
            proof {
                let t = texts(langs@);
                assert(t.subrange(0, k + 1).drop_last() =~= t.subrange(0, k as int));
                assert(t.subrange(0, k + 1).last() == langs@[k as int]@);
            }
            if eq_str(lang, langs[k].as_str()) {
                let ghost before = index_seq(out@);
                out.push(i);
                proof {
                    assert(index_seq(out@) =~= before.push(i as int));
                    assert(index_seq(out@) =~= head + Seq::new(
                        count_lang(texts(langs@).subrange(0, k + 1), lang@),
                        |j: int| i as int,
                    ));
                }
            }
            k += 1;
        }
        proof {
            assert(texts(langs@).subrange(0, langs@.len() as int) =~= texts(langs@));
        }
        i += 1;
    }
    proof {
        assert(rule_views(all@).subrange(0, all@.len() as int) =~= rule_views(all@));
    }
    out
}

impl RuleRegistry {
    #[verifier::type_invariant]
    closed spec fn inv(self) -> bool {
        &&& self.all@.len() > 0
        &&& sorted(rule_views(self.all@))
        &&& forall|i: int| 0 <= i < self.all@.len() ==> valid_rule(#[trigger] self.all@[i]@)
        &&& self.ids@.len() == self.all@.len()
        &&& forall|i: int| 0 <= i < self.all@.len() ==> (#[trigger] self.ids@[i])@ == self.all@[i].id@
        &&& entries_match(self.by_lang@, rule_views(self.all@))
        &&& langs_covered(self.by_lang@, rule_views(self.all@))
    }

    /// The number of rules whose identifier comes no later than `key`.
    fn upper_bound(&self, key: &[char]) -> (r: usize)
        ensures
            r <= self@.len(),
            forall|i: int| 0 <= i < r ==> lex_le(#[trigger] self@[i].id, key@),
            forall|i: int| r <= i < self@.len() ==> lex_lt(key@, #[trigger] self@[i].id),
    {
        proof {
            use_type_invariant(self);
        }
        let mut lo: usize = 0;
        let mut hi: usize = self.ids.len();
        while lo < hi
            invariant
                0 <= lo <= hi <= self.ids@.len(),
                self.ids@.len() == self.all@.len(),
                sorted(rule_views(self.all@)),
                forall|i: int|
                    0 <= i < self.all@.len() ==> (#[trigger] self.ids@[i])@ == self.all@[i].id@,
                forall|i: int| 0 <= i < lo ==> lex_le(#[trigger] self@[i].id, key@),
                forall|i: int| hi <= i < self@.len() ==> lex_lt(key@, #[trigger] self@[i].id),
            decreases hi - lo,
        {
            let mid = lo + (hi - lo) / 2;
            if text_le(self.ids[mid].as_slice(), key) {
                proof {
                    assert forall|i: int| 0 <= i < mid + 1 implies lex_le(
                        #[trigger] self@[i].id,
                        key@,
                    ) by {
                        if i < mid {
                            assert(lex_le(self@[i].id, self@[mid as int].id));
                            lemma_lex_trans(self@[i].id, self@[mid as int].id, key@);
                        }
                    }
                }
                lo = mid + 1;
            } else {
                proof {
                    assert forall|i: int| mid <= i < self@.len() implies lex_lt(
                        key@,
                        #[trigger] self@[i].id,
                    ) by {
                        if i > mid {
                            assert(lex_le(self@[mid as int].id, self@[i].id));
                            if lex_le(self@[i].id, key@) {
                                lemma_lex_trans(self@[mid as int].id, self@[i].id, key@);
                            }
                        }
                    }
                }
                hi = mid;
            }
        }
        lo
    }

    /// The rule with the identifier `id`, if the catalog has one; of rules
    /// that share the identifier, the last.
    #[must_use]
    pub fn rule(&self, id: &str) -> (r: Option<&Rule>)
        ensures
            match r {
                Some(rule) => find_rule(self@, id@) == Some(rule@) && rule@.id == id@ && valid_rule(
                    rule@,
                ),
                None => find_rule(self@, id@) is None,
            },
    {
        proof {
            use_type_invariant(self);
        }
        let key = chars_of(id);
        let slot = self.upper_bound(key.as_slice());
        if slot > 0 && text_le(key.as_slice(), self.ids[slot - 1].as_slice()) {
            proof {
                let j = slot - 1;
                lemma_lex_antisym(self@[j].id, key@);
                assert forall|k: int| j < k < self@.len() implies self@[k].id != id@ by {
                    lemma_lex_refl(key@);
                }
                lemma_find_rule_some(self@, id@, j);
            }
            Some(&self.all[slot - 1])
        } else {
            proof {
                assert forall|k: int| 0 <= k < self@.len() implies self@[k].id != id@ by {
                    lemma_lex_refl(key@);
                    if k < slot - 1 && self@[k].id == key@ {
                        assert(lex_le(self@[k].id, self@[slot - 1].id));
                    }
                }
                lemma_find_rule_none(self@, id@);
            }
            None
        }
    }

    /// The iterator over the rules of the entry `e`.
    fn entry_iter<'a>(&'a self, e: usize) -> (r: RuleIter<'a>)
        requires
            e < self.by_lang@.len(),
        ensures
            r.remaining() == lang_rules(self@, self.by_lang@[e as int].lang@),
    {
        proof {
            use_type_invariant(self);
            reveal(entries_match);
        }
        let indexes = &self.by_lang[e].indexes;
        let ghost key = self.by_lang@[e as int].lang@;
        proof {
            lemma_lang_indexes(self@, key);
            assert(index_seq(indexes@) == lang_indexes(self@, key));
            assert forall|k: int| 0 <= k < indexes@.len() implies (#[trigger] indexes@[k])
                < self.all@.len() by {
                assert(index_seq(indexes@)[k] == indexes@[k]);
            }
        }
        let iter = RuleIter { rules: self.all.as_slice(), indexes: Some(indexes), pos: 0 };
        proof {
            assert forall|k: int| 0 <= k < indexes@.len() implies iter.remaining()[k]
                == lang_rules(self@, key)[k] by {
                assert(index_seq(indexes@)[k] == indexes@[k]);
            }
            assert(iter.remaining() =~= lang_rules(self@, key));
        }
        iter
    }

    /// The rules that name the language `lang`, whatever its case, in the
    /// order of the catalog.
    #[must_use]
    pub fn rules_for_lang<'a>(&'a self, lang: &str) -> (r: RuleIter<'a>)
        ensures
            r.remaining() == lang_rules(self@, lower_of(lang@)),
    {
        let text = chars_of(lang);
        let key = lower(text.as_slice());
        let mut e: usize = 0;
        while e < self.by_lang.len()
            invariant
                0 <= e <= self.by_lang@.len(),
                key@ == lower_of(lang@),
                forall|j: int| 0 <= j < e ==> (#[trigger] self.by_lang@[j]).lang@ != key@,
            decreases self.by_lang@.len() - e,
        {
            if same_chars(&self.by_lang[e].lang, key.as_slice()) {
                return self.entry_iter(e);
            }
            e += 1;
        }
        proof {
            use_type_invariant(self);
            reveal(langs_covered);
            lemma_lang_unnamed(self@, key@);
            if lang_indexes(self@, key@).len() > 0 {
                let (i, k) = choose|i: int, k: int|
                    0 <= i < self@.len() && 0 <= k < self@[i].langs.len() && self@[i].langs[k]
                        == key@;
                assert(has_lang(self.by_lang@, self@[i].langs[k]));
            }
            assert(lang_rules(self@, key@) =~= Seq::empty());
        }
        RuleIter { rules: self.all.as_slice(), indexes: None, pos: 0 }
    }

    /// All rules, in the order of their identifiers.
    #[must_use]
    pub fn all(&self) -> (r: &[Rule])
        ensures
            rule_views(r@) == self@,
            self@.len() > 0,
            sorted(self@),
            forall|i: int| 0 <= i < self@.len() ==> valid_rule(#[trigger] self@[i]),
    {
        proof {
            use_type_invariant(self);
        }
        self.all.as_slice()
    }
}

/// A language that gives indexes is named by a rule.
pub proof fn lemma_lang_unnamed(rules: Seq<RuleView>, lang: Seq<char>)
    ensures
        lang_indexes(rules, lang).len() > 0 ==> exists|i: int, k: int|
            0 <= i < rules.len() && 0 <= k < rules[i].langs.len() && rules[i].langs[k] == lang,
    decreases rules.len(),
{
    if rules.len() > 0 {
        let rest = rules.drop_last();
        lemma_lang_unnamed(rest, lang);
        if lang_indexes(rest, lang).len() > 0 {
            let (i, k) = choose|i: int, k: int|
                0 <= i < rest.len() && 0 <= k < rest[i].langs.len() && rest[i].langs[k] == lang;
            assert(rules[i].langs[k] == lang);
        } else if lang_indexes(rules, lang).len() > 0 {
            lemma_count_lang(rules.last().langs, lang);
            let k = choose|k: int|
                0 <= k < rules.last().langs.len() && rules.last().langs[k] == lang;
            assert(rules[rules.len() - 1].langs[k] == lang);
        }
    }
}

/// A tag that is counted stands in the list.
pub proof fn lemma_count_lang(langs: Seq<Seq<char>>, lang: Seq<char>)
    ensures
        count_lang(langs, lang) > 0 ==> exists|k: int| 0 <= k < langs.len() && langs[k] == lang,
    decreases langs.len(),
{
    if langs.len() > 0 {
        if langs.last() == lang {
            assert(langs[langs.len() - 1] == lang);
        } else {
            lemma_count_lang(langs.drop_last(), lang);
            if count_lang(langs, lang) > 0 {
                let k = choose|k: int|
                    0 <= k < langs.drop_last().len() && langs.drop_last()[k] == lang;
                assert(langs[k] == lang);
            }
        }
    }
}

/* Making a catalog */

/// An entry stays in the list when another is added.
proof fn lemma_has_lang_push(entries: Seq<LangIndex>, entry: LangIndex, lang: Seq<char>)
    requires
        has_lang(entries, lang) || entry.lang@ == lang,
    ensures
        has_lang(entries.push(entry), lang),
{
    let grown = entries.push(entry);
    if has_lang(entries, lang) {
        let e = choose|e: int| 0 <= e < entries.len() && (#[trigger] entries[e]).lang@ == lang;
        assert(grown[e].lang@ == lang);
    } else {
        assert(grown[entries.len() as int].lang@ == lang);
    }
}

/// The languages named by the rules before `i`, and by the first `k` tags of
/// the rule `i`, have entries.
spec fn covered_upto(entries: Seq<LangIndex>, rules: Seq<RuleView>, i: int, k: int) -> bool {
    forall|a: int, b: int|
        0 <= a < rules.len() && 0 <= b < rules[a].langs.len() && (a < i || (a == i && b < k))
            ==> has_lang(entries, #[trigger] rules[a].langs[b])
}

fn has_entry(entries: &Vec<LangIndex>, lang: &[char]) -> (r: bool)
    ensures
        r == has_lang(entries@, lang@),
{
    let mut e: usize = 0;
    while e < entries.len()
        invariant
            0 <= e <= entries@.len(),
            forall|j: int| 0 <= j < e ==> (#[trigger] entries@[j]).lang@ != lang@,
        decreases entries@.len() - e,
    {
        if same_chars(&entries[e].lang, lang) {
            return true;
        }
        e += 1;
    }
    false
}

/// The index by language of the rules `all`.
fn build_lang_index(all: &Vec<Rule>) -> (r: Vec<LangIndex>)
    ensures
        entries_match(r@, rule_views(all@)),
        langs_covered(r@, rule_views(all@)),
{
    let ghost rules = rule_views(all@);
    let mut out: Vec<LangIndex> = Vec::new();
    let mut i: usize = 0;
    proof {
        reveal(entries_match);
    }
    while i < all.len()
        invariant
            0 <= i <= all@.len(),
            rules == rule_views(all@),
            entries_match(out@, rules),
            covered_upto(out@, rules, i as int, 0),
        decreases all@.len() - i,
    {
        let langs = &all[i].langs;
        let mut k: usize = 0;
        while k < langs.len()
            invariant
                0 <= k <= langs@.len(),
                0 <= i < all@.len(),
                langs == &all@[i as int].langs,
                rules == rule_views(all@),
                entries_match(out@, rules),
                covered_upto(out@, rules, i as int, k as int),
            decreases langs@.len() - k,
        {
            let lang = chars_of(langs[k].as_str());
            proof {
                assert(rules[i as int].langs[k as int] == lang@);
            }
            if !has_entry(&out, lang.as_slice()) {
                let indexes = indexes_for(all, lang.as_slice());
                let entry = LangIndex { lang, indexes };
                let ghost before = out@;
                out.push(entry);
                proof {
                    reveal(entries_match);
                    assert forall|e: int| 0 <= e < out@.len() implies index_seq(
                        (#[trigger] out@[e]).indexes@,
                    ) == lang_indexes(rules, out@[e].lang@) by {
                        if e < before.len() {
                            assert(out@[e] == before[e]);
                        }
                    }
                    assert forall|a: int, b: int|
                        0 <= a < rules.len() && 0 <= b < rules[a].langs.len() && (a < i || (a == i
                            && b < k + 1)) implies has_lang(
                        out@,
                        #[trigger] rules[a].langs[b],
                    ) by {
                        lemma_has_lang_push(before, entry, rules[a].langs[b]);
                    }
                }
            }
            k += 1;
        }
        i += 1;
    }
    proof {
        reveal(langs_covered);
    }
    out
}

impl RuleRegistry {
    /// The catalog of the rules `rows`.
    fn from_rows(rows: Vec<Rule>) -> (r: RuleRegistry)
        requires
            rows@.len() > 0,
            forall|i: int| 0 <= i < rows@.len() ==> valid_rule(#[trigger] rows@[i]@),
        ensures
            r@ == sort_rules(rule_views(rows@)),
    {
        let ghost src = rows@;
        let mut all: Vec<Rule> = Vec::with_capacity(rows.len());
        let mut ids: Vec<Vec<char>> = Vec::with_capacity(rows.len());
        proof {
            assert(rule_views(src).subrange(0, 0) =~= Seq::empty());
            assert(rule_views(all@) =~= Seq::empty());
        }
        for rule in it: rows.into_iter()
            invariant
                it.seq() == src,
                forall|i: int| 0 <= i < src.len() ==> valid_rule(#[trigger] src[i]@),
                rule_views(all@) == sort_rules(rule_views(src).subrange(0, it.index() as int)),
                all@.len() == it.index(),
                ids@.len() == all@.len(),
                forall|i: int| 0 <= i < all@.len() ==> (#[trigger] ids@[i])@ == all@[i].id@,
                forall|i: int| 0 <= i < all@.len() ==> valid_rule(#[trigger] all@[i]@),
        {
            let ghost n = it.index() as int;
            let ghost sorted_before = rule_views(all@);
            let id = chars_of(rule.id.as_str());
            let mut p: usize = all.len();
            proof {
                assert(sorted_before.subrange(0, p as int) =~= sorted_before);
            }
            while p > 0 && !text_le(ids[p - 1].as_slice(), id.as_slice())
                invariant
                    0 <= p <= all@.len(),
                    ids@.len() == all@.len(),
                    sorted_before == rule_views(all@),
                    forall|i: int| 0 <= i < all@.len() ==> (#[trigger] ids@[i])@ == all@[i].id@,
                    slot_of(sorted_before.subrange(0, p as int), id@) == slot_of(
                        sorted_before,
                        id@,
                    ),
                decreases p,
            {
                proof {
                    let head = sorted_before.subrange(0, p as int);
                    assert(head.drop_last() =~= sorted_before.subrange(0, p - 1));
                    assert(head.last() == all@[p - 1]@);
                }
                p -= 1;
            }
            proof {
                let head = sorted_before.subrange(0, p as int);
                if p > 0 {
                    assert(head.last() == all@[p - 1]@);
                }
                assert(slot_of(head, id@) == p);
                let upto = rule_views(src).subrange(0, n + 1);
                assert(upto.drop_last() =~= rule_views(src).subrange(0, n));
                assert(upto.last() == rule@);
            }
            all.insert(p, rule);
            ids.insert(p, id);
            proof {
                assert(rule_views(all@) =~= sorted_before.insert(p as int, rule@));
                lemma_sort_rules(rule_views(src).subrange(0, n + 1));
            }
        }
        proof {
            assert(rule_views(src).subrange(0, src.len() as int) =~= rule_views(src));
            lemma_sort_rules(rule_views(src));
        }
        let by_lang = build_lang_index(&all);
        RuleRegistry { all, ids, by_lang }
    }

    /// The catalog that the rule table `data` describes: its rows, sorted by
    /// identifier. The first line is the header; blank lines and lines that
    /// begin with `#` are passed over; every other line is a row, and must
    /// have exactly seven fields between its tabs, counted before anything
    /// is trimmed. A table with a malformed row, or without any row, gives
    /// no catalog but its first error in words.
    pub fn from_tsv(data: &str) -> (r: Result<RuleRegistry, String>)
        ensures
            match r {
                Ok(registry) => match parse_table_of(data@) {
                    Ok(rows) => {
                        &&& registry@ == sort_rules(rows)
                        &&& registry@.len() == rows.len()
                        &&& sorted(registry@)
                        &&& forall|i: int|
                            0 <= i < registry@.len() ==> valid_rule(#[trigger] registry@[i])
                    },
                    Err(_) => false,
                },
                Err(message) => match parse_table_of(data@) {
                    Ok(_) => false,
                    Err(e) => message@ == error_text(e),
                },
            },
    {
        let text = chars_of(data);
        match parse_table(text.as_slice()) {
            Ok(rows) => {
                proof {
                    lemma_table_rows_valid(lines_of(data@), lines_of(data@).len() as int);
                    assert forall|i: int| 0 <= i < rows@.len() implies valid_rule(
                        #[trigger] rows@[i]@,
                    ) by {
                        assert(rule_views(rows@)[i] == rows@[i]@);
                    }
                }
                let registry = RuleRegistry::from_rows(rows);
                proof {
                    lemma_catalog_of_table(data@);
                }
                Ok(registry)
            },
            Err(e) => Err(e.message()),
        }
    }
}

/* What holds of every catalog made from a table */

/// The number of lines among the first `upto` of a table that hold a row.
pub open spec fn data_lines(lines: Seq<Seq<char>>, upto: int) -> nat
    decreases upto,
{
    if upto <= 1 || upto > lines.len() {
        0
    } else if is_data_line(lines[upto - 1]) {
        data_lines(lines, upto - 1) + 1
    } else {
        data_lines(lines, upto - 1)
    }
}

/// A well-formed table has one rule for each line that holds a row.
pub proof fn lemma_table_rows_len(lines: Seq<Seq<char>>, upto: int)
    ensures
        match table_rows(lines, upto) {
            Ok(rows) => rows.len() == data_lines(lines, upto),
            Err(_) => true,
        },
    decreases upto,
{
    if upto <= 1 || upto > lines.len() {
    } else {
        lemma_table_rows_len(lines, upto - 1);
    }
}

/// A rule of the sorted catalog is one of the rows.
proof fn lemma_sorted_rule_is_row(rows: Seq<RuleView>, i: int)
    requires
        0 <= i < sort_rules(rows).len(),
    ensures
        rows.contains(sort_rules(rows)[i]),
{
    let r = sort_rules(rows)[i];
    assert(sort_rules(rows).contains(r));
    lemma_sort_rules_contains(rows, r);
}

/// The catalog of a well-formed table has exactly one rule for each row of
/// the table, the rules stand in the order of their identifiers, and each
/// has an identifier, a problem summary, a fix hint, and the hash of its
/// identifier as its code.
pub proof fn lemma_catalog_of_table(data: Seq<char>)
    requires
        parse_table_of(data) is Ok,
    ensures
        ({
            let rows = parse_table_of(data)->Ok_0;
            let catalog = sort_rules(rows);
            &&& rows.len() == data_lines(lines_of(data), lines_of(data).len() as int)
            &&& catalog.len() == rows.len()
            &&& catalog.to_multiset() == rows.to_multiset()
            &&& sorted(catalog)
            &&& forall|i: int| 0 <= i < catalog.len() ==> valid_rule(#[trigger] catalog[i])
        }),
{
    let lines = lines_of(data);
    let rows = parse_table_of(data)->Ok_0;
    let catalog = sort_rules(rows);
    lemma_table_rows_len(lines, lines.len() as int);
    lemma_table_rows_valid(lines, lines.len() as int);
    lemma_sort_rules(rows);
    assert forall|i: int| 0 <= i < catalog.len() implies valid_rule(#[trigger] catalog[i]) by {
        lemma_sorted_rule_is_row(rows, i);
        let k = choose|k: int| 0 <= k < rows.len() && rows[k] == catalog[i];
        assert(valid_rule(rows[k]));
    }
}

/// A table with a malformed row gives no catalog: the row `k`, counted from
/// 0, of a table whose earlier rows are well formed is its error.
pub proof fn lemma_malformed_row_fails(data: Seq<char>, k: int)
    requires
        1 <= k < lines_of(data).len(),
        is_data_line(lines_of(data)[k]),
        row_of(lines_of(data)[k], (k + 1) as usize) is Err,
    ensures
        parse_table_of(data) is Err,
{
    let lines = lines_of(data);
    assert(table_rows(lines, k + 1) is Err);
    lemma_table_rows_error(lines, k + 1, lines.len() as int);
}

/// A row with fewer fields than seven, such as one without its fix hint,
/// is malformed.
pub proof fn lemma_short_row_malformed(line: Seq<char>, line_no: usize)
    requires
        split_of(line, '\t').len() < FIELDS,
    ensures
        row_of(line, line_no) == Err::<RuleView, TableError>(
            TableError::FieldCount { line: line_no },
        ),
{
}

/// A row whose problem summary or fix hint is blank is malformed.
pub proof fn lemma_blank_guidance_malformed(line: Seq<char>, line_no: usize)
    requires
        split_of(line, '\t').len() == FIELDS,
        trim_of(split_of(line, '\t')[5]).len() == 0 || trim_of(split_of(line, '\t')[6]).len() == 0,
    ensures
        row_of(line, line_no) == Err::<RuleView, TableError>(
            TableError::MissingGuidance { line: line_no },
        ),
{
}

/// The rules of a language stand in the order of the catalog.
pub proof fn lemma_lang_rules_sorted(catalog: Seq<RuleView>, lang: Seq<char>)
    requires
        sorted(catalog),
    ensures
        sorted(lang_rules(catalog, lang)),
{
    lemma_lang_indexes(catalog, lang);
    let idx = lang_indexes(catalog, lang);
    assert forall|i: int, j: int| 0 <= i < j < lang_rules(catalog, lang).len() implies lex_le(
        lang_rules(catalog, lang)[i].id,
        lang_rules(catalog, lang)[j].id,
    ) by {
        if idx[i] == idx[j] {
            lemma_lex_refl(catalog[idx[i]].id);
        }
    }
}

/// Iteration by language is stable: two iterators over one catalog for one
/// language, whatever the case in which it is written, have the same rules
/// to give, in the same order.
pub proof fn lemma_language_iteration_stable(
    first: RuleIter,
    second: RuleIter,
    catalog: Seq<RuleView>,
    lang: Seq<char>,
    same_lang: Seq<char>,
)
    requires
        lower_of(lang) == lower_of(same_lang),
        first.remaining() == lang_rules(catalog, lower_of(lang)),
        second.remaining() == lang_rules(catalog, lower_of(same_lang)),
    ensures
        first.remaining() == second.remaining(),
{
}

/// A row is malformed exactly if it does not have seven fields, or its
/// identifier, its problem summary or its fix hint is blank.
pub proof fn lemma_row_malformed_iff(line: Seq<char>, line_no: usize)
    ensures
        row_of(line, line_no) is Err <==> {
            let parts = split_of(line, '\t');
            ||| parts.len() != FIELDS
            ||| trim_of(parts[0]).len() == 0
            ||| trim_of(parts[5]).len() == 0
            ||| trim_of(parts[6]).len() == 0
        },
{
}

/// Every line among the first `upto` that holds a row holds a well-formed
/// one. The first line is the header and is not looked at.
pub open spec fn rows_well_formed(lines: Seq<Seq<char>>, upto: int) -> bool {
    forall|k: int|
        1 <= k < upto && k < lines.len() && is_data_line(#[trigger] lines[k]) ==> row_of(
            lines[k],
            (k + 1) as usize,
        ) is Ok
}

proof fn lemma_table_rows_ok_iff(lines: Seq<Seq<char>>, upto: int)
    requires
        upto <= lines.len(),
    ensures
        table_rows(lines, upto) is Ok <==> rows_well_formed(lines, upto),
    decreases upto,
{
    if upto <= 1 {
    } else {
        lemma_table_rows_ok_iff(lines, upto - 1);
        if rows_well_formed(lines, upto) {
            assert(rows_well_formed(lines, upto - 1));
        }
        if table_rows(lines, upto) is Ok {
            assert forall|k: int|
                1 <= k < upto && k < lines.len() && is_data_line(
                    #[trigger] lines[k],
                ) implies row_of(lines[k], (k + 1) as usize) is Ok by {
                if k < upto - 1 {
                    assert(rows_well_formed(lines, upto - 1));
                }
            }
        }
    }
}

/// A table gives a catalog exactly if it has a row and each of its rows is
/// well formed; the header line is never looked at and never a rule.
pub proof fn lemma_table_ok_iff(data: Seq<char>)
    ensures
        parse_table_of(data) is Ok <==> {
            let lines = lines_of(data);
            &&& rows_well_formed(lines, lines.len() as int)
            &&& data_lines(lines, lines.len() as int) > 0
        },
{
    let lines = lines_of(data);
    lemma_table_rows_ok_iff(lines, lines.len() as int);
    lemma_table_rows_len(lines, lines.len() as int);
}

} // verus!
