//! The rules that the detectors report, and the default catalog.

use vstd::prelude::*;
use crate::rules::clean_langs;
use crate::rules::find_rule;
use crate::rules::lemma_find_rule;
use crate::rules::lemma_sort_rules_contains;
use crate::rules::rule_code;
use crate::rules::sort_rules;
use crate::rules::valid_rule;
use crate::rules::RuleRegistry;
use crate::rules::RuleView;
use crate::rules::is_data_line;
use crate::rules::parse_table_of;
use crate::rules::row_of;
use crate::rules::table_rows;
use crate::rules::TableError;
use crate::text::free_of;
use crate::text::lemma_lines_append;
use crate::text::lemma_lower_of_lower_case;
use crate::text::lemma_split_append;
use crate::text::lemma_split_last;
use crate::text::lemma_trim_keeps_first;
use crate::text::lemma_trim_tight;
use crate::text::lines_of;
use crate::text::lower_case;
use crate::text::strip_cr;
use crate::text::tight;
use crate::text::push_str;
use crate::text::string_of;
use crate::text::split_of;

verus! {

/// A lock that guards a primitive value.
pub const ATOMIC_RULE: &'static str = "perf_atomic_for_small_lock";

/// A linked list.
pub const LINKED_LIST_RULE: &'static str = "perf_avoid_linked_list";

/// A call through a trait object inside a loop.
pub const DYNAMIC_RULE: &'static str = "perf_avoid_reflection_dynamic";

/// A text that grows inside a loop.
pub const STRING_CONCAT_RULE: &'static str = "perf_avoid_string_concat_loop";

/// A clone inside a loop.
pub const BORROW_RULE: &'static str = "perf_borrow_instead_of_clone";

/// A task or thread spawned inside a loop.
pub const CONCURRENCY_RULE: &'static str = "perf_bound_concurrency";

/// An enum variant with a large array.
pub const ENUM_RULE: &'static str = "perf_large_enum_variant";

/// A vector collected only to be asked one question.
pub const COLLECT_RULE: &'static str = "perf_needless_collect";

/// A small value put on the heap.
pub const STACK_RULE: &'static str = "perf_prefer_stack_alloc";

/// A collection that grows without capacity set aside; it stands in for
/// `VEC_RULE` in a catalog without that rule.
pub const PREALLOCATE_RULE: &'static str = "perf_preallocate_collections";

/// An atomically counted pointer around data that cannot cross threads.
pub const ARC_RULE: &'static str = "perf_unnecessary_arc";

/// A push into a vector without reserved capacity inside a loop.
pub const VEC_RULE: &'static str = "perf_vec_reserve_capacity";

/// The number of rules in the default catalog.
pub const DEFAULT_RULE_COUNT: usize = 12;

/// The default rules, one row each: identifier, languages, description,
/// category, severity, problem summary, fix hint.
pub const DEFAULT_TABLE: [[&'static str; 7]; 12] = [
    [
        ATOMIC_RULE,
        "rust,go,cpp",
        "Prefer atomics over locks for primitive state",
        "concurrency",
        "warning",
        "A lock around a single primitive value costs more than an atomic operation and can stall other threads",
        "Use an atomic type for the value",
    ],
    [
        LINKED_LIST_RULE,
        "rust,cpp,java",
        "Avoid linked lists in hot paths",
        "data-structures",
        "warning",
        "Linked lists scatter their nodes over the heap and defeat the cache",
        "Use a vector or a deque",
    ],
    [
        DYNAMIC_RULE,
        "rust,go,java,python",
        "Avoid reflection and dynamic dispatch in hot loops",
        "dispatch",
        "warning",
        "A call through a trait object cannot be inlined and costs an indirect jump on every iteration",
        "Make the callee generic or hoist the call out of the loop",
    ],
    [
        STRING_CONCAT_RULE,
        "rust,go,java,python",
        "Avoid string concatenation in loops",
        "allocation",
        "warning",
        "Appending to a string inside a loop reallocates and copies the buffer again and again",
        "Reserve the capacity up front or collect the parts and join them once",
    ],
    [
        BORROW_RULE,
        "rust",
        "Borrow instead of cloning",
        "allocation",
        "warning",
        "Cloning inside a loop allocates and copies on every iteration",
        "Borrow the value or move the clone out of the loop",
    ],
    [
        CONCURRENCY_RULE,
        "rust,go,python",
        "Bound the number of spawned tasks",
        "concurrency",
        "error",
        "Spawning a task for every item creates unbounded concurrency that exhausts memory and scheduler time",
        "Use a worker pool or a semaphore to limit the tasks in flight",
    ],
    [
        ENUM_RULE,
        "rust",
        "Box large enum variants",
        "layout",
        "warning",
        "An enum is as large as its largest variant so one huge payload bloats every value",
        "Box the large payload",
    ],
    [
        COLLECT_RULE,
        "rust",
        "Do not collect only to iterate again",
        "allocation",
        "warning",
        "Collecting into a vector only to ask it one question allocates for nothing",
        "Ask the iterator directly",
    ],
    [
        STACK_RULE,
        "rust,cpp",
        "Keep small values on the stack",
        "allocation",
        "info",
        "A heap allocation for a value of a few bytes costs more than the value itself",
        "Store the value inline",
    ],
    [
        PREALLOCATE_RULE,
        "go,java,python",
        "Preallocate collections of known size",
        "allocation",
        "warning",
        "A collection that grows one element at a time reallocates and copies as it grows",
        "Create the collection with the capacity it will need",
    ],
    [
        ARC_RULE,
        "rust",
        "Do not share single-threaded data atomically",
        "concurrency",
        "warning",
        "An atomically counted pointer around data that cannot cross threads pays for atomics it never needs",
        "Use a plain reference-counted pointer",
    ],
    [
        VEC_RULE,
        "rust",
        "Reserve vector capacity before a loop",
        "allocation",
        "warning",
        "Pushing into a vector without reserved capacity reallocates as it grows",
        "Create the vector with the capacity it needs or reserve before the loop",
    ],
];

/// The catalog has a rule with the identifier `id`.
pub open spec fn has_rule(rules: Seq<RuleView>, id: Seq<char>) -> bool {
    find_rule(rules, id) is Some
}

/// The catalog has a rule for every detector of the scanner; for pushes
/// without capacity `VEC_RULE` or, in its place, `PREALLOCATE_RULE`.
pub open spec fn covers_detectors(rules: Seq<RuleView>) -> bool {
    &&& has_rule(rules, STRING_CONCAT_RULE@)
    &&& (has_rule(rules, VEC_RULE@) || has_rule(rules, PREALLOCATE_RULE@))
    &&& has_rule(rules, DYNAMIC_RULE@)
    &&& has_rule(rules, CONCURRENCY_RULE@)
    &&& has_rule(rules, BORROW_RULE@)
    &&& has_rule(rules, LINKED_LIST_RULE@)
    &&& has_rule(rules, ENUM_RULE@)
    &&& has_rule(rules, ARC_RULE@)
    &&& has_rule(rules, ATOMIC_RULE@)
    &&& has_rule(rules, COLLECT_RULE@)
    &&& has_rule(rules, STACK_RULE@)
}

/// The rule with the texts of `row`; its languages are the tags between the
/// commas of the second text.
pub open spec fn rule_of_texts(row: Seq<Seq<char>>) -> RuleView {
    RuleView {
        id: row[0],
        langs: clean_langs(split_of(row[1], ',')),
        description: row[2],
        category: row[3],
        severity: row[4],
        problem_summary: row[5],
        fix_hint: row[6],
        code: rule_code(row[0]),
    }
}

/// The texts of the row `i` of the default table.
pub open spec fn default_texts(i: int) -> Seq<Seq<char>> {
    Seq::new(7, |j: int| DEFAULT_TABLE[i][j]@)
}

/// The rules of the default table, in the order of its rows.
pub open spec fn default_rows() -> Seq<RuleView> {
    Seq::new(DEFAULT_RULE_COUNT as nat, |i: int| rule_of_texts(default_texts(i)))
}

/// A rule among the rows is found in the sorted catalog under its
/// identifier.
pub proof fn lemma_sorted_has_rule(rows: Seq<RuleView>, i: int)
    requires
        0 <= i < rows.len(),
    ensures
        has_rule(sort_rules(rows), rows[i].id),
{
    let r = rows[i];
    assert(rows.contains(r));
    lemma_sort_rules_contains(rows, r);
    let sorted = sort_rules(rows);
    lemma_find_rule(sorted, r.id);
    if find_rule(sorted, r.id) is None {
        let k = choose|k: int| 0 <= k < sorted.len() && sorted[k] == r;
        assert(sorted[k].id == r.id);
    }
}

/// The default table holds the rule of every detector.
pub proof fn lemma_default_rows_cover()
    ensures
        covers_detectors(sort_rules(default_rows())),
{
    let rows = default_rows();
    assert(rows[0].id == ATOMIC_RULE@);
    lemma_sorted_has_rule(rows, 0);
    assert(rows[1].id == LINKED_LIST_RULE@);
    lemma_sorted_has_rule(rows, 1);
    assert(rows[2].id == DYNAMIC_RULE@);
    lemma_sorted_has_rule(rows, 2);
    assert(rows[3].id == STRING_CONCAT_RULE@);
    lemma_sorted_has_rule(rows, 3);
    assert(rows[4].id == BORROW_RULE@);
    lemma_sorted_has_rule(rows, 4);
    assert(rows[5].id == CONCURRENCY_RULE@);
    lemma_sorted_has_rule(rows, 5);
    assert(rows[6].id == ENUM_RULE@);
    lemma_sorted_has_rule(rows, 6);
    assert(rows[7].id == COLLECT_RULE@);
    lemma_sorted_has_rule(rows, 7);
    assert(rows[8].id == STACK_RULE@);
    lemma_sorted_has_rule(rows, 8);
    assert(rows[9].id == PREALLOCATE_RULE@);
    lemma_sorted_has_rule(rows, 9);
    assert(rows[10].id == ARC_RULE@);
    lemma_sorted_has_rule(rows, 10);
    assert(rows[11].id == VEC_RULE@);
    lemma_sorted_has_rule(rows, 11);
}

impl RuleRegistry {
    /// The default catalog: the rules of the default table, sorted by
    /// identifier. It has a rule for every detector, and it is the catalog
    /// that `from_tsv` makes of `default_table()`.
    pub fn global() -> (r: RuleRegistry)
        ensures
            r@ == sort_rules(default_rows()),
            covers_detectors(r@),
            forall|i: int| 0 <= i < r@.len() ==> valid_rule(#[trigger] r@[i]),
    {
        let text = default_table();
        proof {
            lemma_default_rows_cover();
        }
        match RuleRegistry::from_tsv(text.as_str()) {
            Ok(registry) => registry,
            Err(_) => vstd::pervasive::unreached(),
        }
    }
}

impl RuleRegistry {
    /// Does the catalog have a rule for every detector?
    pub fn has_detector_rules(&self) -> (b: bool)
        ensures
            b == covers_detectors(self@),
    {
        self.rule(STRING_CONCAT_RULE).is_some() && (self.rule(VEC_RULE).is_some() || self.rule(
            PREALLOCATE_RULE,
        ).is_some()) && self.rule(DYNAMIC_RULE).is_some() && self.rule(CONCURRENCY_RULE).is_some()
            && self.rule(BORROW_RULE).is_some() && self.rule(LINKED_LIST_RULE).is_some()
            && self.rule(ENUM_RULE).is_some() && self.rule(ARC_RULE).is_some() && self.rule(
            ATOMIC_RULE,
        ).is_some() && self.rule(COLLECT_RULE).is_some() && self.rule(STACK_RULE).is_some()
    }
}

/* The default table as text */

/// The header of a rule table.
pub const TABLE_HEADER: &'static str =
    "id\tlangs\tdescription\tcategory\tseverity\tproblem_summary\tfix_hint";

/// The first `upto` texts of the row `row`, a tab behind each but the last.
pub open spec fn fields_text(row: Seq<Seq<char>>, upto: int) -> Seq<char>
    decreases upto,
{
    if upto <= 0 {
        Seq::empty()
    } else if upto == 1 {
        row[0]
    } else {
        fields_text(row, upto - 1) + seq!['\t'] + row[upto - 1]
    }
}

/// The lines of the first `upto` rows of the default table, a line feed
/// behind each.
pub open spec fn rows_text(upto: int) -> Seq<char>
    decreases upto,
{
    if upto <= 0 {
        Seq::empty()
    } else {
        rows_text(upto - 1) + fields_text(default_texts(upto - 1), 7) + seq!['\n']
    }
}

/// The default table as text: the header, then one line for each rule.
pub open spec fn default_table_text() -> Seq<char> {
    TABLE_HEADER@ + seq!['\n'] + rows_text(DEFAULT_RULE_COUNT as int)
}

/// The default table as text, in the form that `from_tsv` reads; read back,
/// it gives the rules of the default catalog.
pub fn default_table() -> (r: String)
    ensures
        r@ == default_table_text(),
        parse_table_of(r@) == Ok::<Seq<RuleView>, TableError>(default_rows()),
{
    proof {
        lemma_default_table_reads_back();
    }
    let mut out: Vec<char> = Vec::new();
    push_str(&mut out, TABLE_HEADER);
    out.push('\n');
    let ghost head = out@;
    let mut i: usize = 0;
    proof {
        assert(out@ =~= TABLE_HEADER@ + seq!['\n'] + rows_text(0));
    }
    while i < DEFAULT_RULE_COUNT
        invariant
            0 <= i <= DEFAULT_RULE_COUNT,
            head == TABLE_HEADER@ + seq!['\n'],
            out@ == head + rows_text(i as int),
        decreases DEFAULT_RULE_COUNT - i,
    {
        let row = &DEFAULT_TABLE[i];
        let ghost texts = default_texts(i as int);
        let ghost before = out@;
        let mut j: usize = 0;
        proof {
            assert(out@ =~= before + fields_text(texts, 0));
        }
        while j < 7
            invariant
                0 <= j <= 7,
                0 <= i < DEFAULT_RULE_COUNT,
                row == &DEFAULT_TABLE[i as int],
                texts == default_texts(i as int),
                out@ == before + fields_text(texts, j as int),
            decreases 7 - j,
        {
            if j > 0 {
                out.push('\t');
            }
            push_str(&mut out, row[j]);
            proof {
                assert(texts[j as int] == row[j as int]@);
                assert(out@ =~= before + fields_text(texts, j + 1));
            }
            j += 1;
        }
        out.push('\n');
        proof {
            assert(out@ =~= head + rows_text(i + 1));
        }
        i += 1;
    }
    string_of(out.as_slice())
}

/* The default table read back */

/// The texts of a row that reads back as it was written: seven texts
/// without tab, line feed or white space at their ends; an identifier that
/// does not begin a comment; a problem summary and a fix hint; category and
/// severity without capitals.
pub open spec fn clean_row(r: Seq<Seq<char>>) -> bool {
    &&& r.len() == 7
    &&& forall|j: int|
        0 <= j < 7 ==> free_of(#[trigger] r[j], '\t') && free_of(r[j], '\n') && tight(r[j])
    &&& r[0].len() > 0
    &&& r[0][0] != '#'
    &&& r[5].len() > 0
    &&& r[6].len() > 0
    &&& lower_case(r[3])
    &&& lower_case(r[4])
}

/// The texts of a row written with tabs between them are its fields.
proof fn lemma_fields_split(r: Seq<Seq<char>>, k: int)
    requires
        1 <= k <= r.len(),
        forall|j: int| 0 <= j < k ==> free_of(#[trigger] r[j], '\t'),
    ensures
        split_of(fields_text(r, k), '\t') == r.subrange(0, k),
    decreases k,
{
    if k == 1 {
        assert(free_of(r[0], '\t'));
        lemma_split_last(r[0], '\t', 0, 0);
        assert(r[0].subrange(0, r[0].len() as int) =~= r[0]);
        assert(seq![r[0]] =~= r.subrange(0, 1));
    } else {
        lemma_fields_split(r, k - 1);
        assert(free_of(r[k - 1], '\t'));
        lemma_split_append(fields_text(r, k - 1), r[k - 1], '\t', 0, 0);
        assert(r.subrange(0, k - 1).push(r[k - 1]) =~= r.subrange(0, k));
    }
}

/// A row of texts without line feed is written without line feed; it begins
/// as its first text does and ends as its last does.
proof fn lemma_fields_ends(r: Seq<Seq<char>>, k: int)
    requires
        1 <= k <= r.len(),
        forall|j: int| 0 <= j < k ==> free_of(#[trigger] r[j], '\n'),
        r[0].len() > 0,
        r[k - 1].len() > 0,
    ensures
        free_of(fields_text(r, k), '\n'),
        fields_text(r, k).len() > 0,
        fields_text(r, k)[0] == r[0][0],
        fields_text(r, k).last() == r[k - 1].last(),
    decreases k,
{
    if k == 1 {
        assert(free_of(r[0], '\n'));
    } else {
        lemma_fields_head(r, k - 1);
        assert(free_of(r[k - 1], '\n'));
        let head = fields_text(r, k - 1);
        let text = fields_text(r, k);
        assert forall|i: int| 0 <= i < text.len() implies (#[trigger] text[i]) != '\n' by {
            if i < head.len() {
                assert(text[i] == head[i]);
            } else if i > head.len() {
                assert(text[i] == r[k - 1][i - head.len() - 1]);
            }
        }
        assert(text[0] == head[0]);
    }
}

proof fn lemma_fields_head(r: Seq<Seq<char>>, k: int)
    requires
        1 <= k <= r.len(),
        forall|j: int| 0 <= j < k ==> free_of(#[trigger] r[j], '\n'),
        r[0].len() > 0,
    ensures
        free_of(fields_text(r, k), '\n'),
        fields_text(r, k).len() > 0,
        fields_text(r, k)[0] == r[0][0],
    decreases k,
{
    if k == 1 {
        assert(free_of(r[0], '\n'));
    } else {
        lemma_fields_head(r, k - 1);
        assert(free_of(r[k - 1], '\n'));
        let head = fields_text(r, k - 1);
        let text = fields_text(r, k);
        assert forall|i: int| 0 <= i < text.len() implies (#[trigger] text[i]) != '\n' by {
            if i < head.len() {
                assert(text[i] == head[i]);
            } else if i > head.len() {
                assert(text[i] == r[k - 1][i - head.len() - 1]);
            }
        }
        assert(text[0] == head[0]);
    }
}

/// A clean row, written as a line, is read as the rule of its texts.
pub proof fn lemma_row_reads_back(r: Seq<Seq<char>>, line_no: usize)
    requires
        clean_row(r),
    ensures
        row_of(fields_text(r, 7), line_no) == Ok::<RuleView, TableError>(rule_of_texts(r)),
        is_data_line(fields_text(r, 7)),
        free_of(fields_text(r, 7), '\n'),
        strip_cr(fields_text(r, 7)) == fields_text(r, 7),
{
    let line = fields_text(r, 7);
    lemma_fields_split(r, 7);
    lemma_fields_ends(r, 7);
    assert(r.subrange(0, 7) =~= r);
    assert(tight(r[0]) && tight(r[1]) && tight(r[2]) && tight(r[3]) && tight(r[4]) && tight(r[5])
        && tight(r[6]));
    lemma_trim_tight(r[0]);
    lemma_trim_tight(r[2]);
    lemma_trim_tight(r[3]);
    lemma_trim_tight(r[4]);
    lemma_trim_tight(r[5]);
    lemma_trim_tight(r[6]);
    lemma_lower_of_lower_case(r[3]);
    lemma_lower_of_lower_case(r[4]);
    lemma_trim_keeps_first(line);
}

/// The line of the row `i` of the default table.
pub open spec fn default_line(i: int) -> Seq<char> {
    fields_text(default_texts(i), 7)
}

/// The lines of the header and of the first `n` rows of the default table.
pub open spec fn default_lines(n: int) -> Seq<Seq<char>> {
    seq![TABLE_HEADER@] + Seq::new(n as nat, |i: int| default_line(i))
}

/// The default table is written clean.
pub open spec fn default_table_clean() -> bool {
    forall|i: int| 0 <= i < DEFAULT_RULE_COUNT ==> clean_row(#[trigger] default_texts(i))
}

proof fn lemma_default_lines(n: int)
    requires
        0 <= n <= DEFAULT_RULE_COUNT,
        default_table_clean(),
    ensures
        lines_of(TABLE_HEADER@ + seq!['\n'] + rows_text(n)) == default_lines(n),
        (TABLE_HEADER@ + seq!['\n'] + rows_text(n)).last() == '\n',
    decreases n,
{
    let head = TABLE_HEADER@ + seq!['\n'];
    if n == 0 {
        reveal_strlit("id\tlangs\tdescription\tcategory\tseverity\tproblem_summary\tfix_hint");
        assert(free_of(TABLE_HEADER@, '\n'));
        lemma_lines_append(Seq::empty(), TABLE_HEADER@);
        assert(Seq::<char>::empty() + TABLE_HEADER@ + seq!['\n'] =~= head + rows_text(0));
        assert(lines_of(Seq::<char>::empty()) =~= Seq::<Seq<char>>::empty());
        assert(strip_cr(TABLE_HEADER@) == TABLE_HEADER@);
        assert(Seq::<Seq<char>>::empty().push(TABLE_HEADER@) =~= default_lines(0));
    } else {
        lemma_default_lines(n - 1);
        let before = head + rows_text(n - 1);
        let row = default_line(n - 1);
        assert(clean_row(default_texts(n - 1)));
        lemma_row_reads_back(default_texts(n - 1), 0);
        lemma_lines_append(before, row);
        assert(before + row + seq!['\n'] =~= head + rows_text(n));
        assert(default_lines(n - 1).push(row) =~= default_lines(n));
    }
}

proof fn lemma_default_rows_read(upto: int)
    requires
        1 <= upto <= DEFAULT_RULE_COUNT + 1,
        default_table_clean(),
    ensures
        table_rows(default_lines(DEFAULT_RULE_COUNT as int), upto) == Ok::<
            Seq<RuleView>,
            TableError,
        >(default_rows().subrange(0, upto - 1)),
    decreases upto,
{
    let lines = default_lines(DEFAULT_RULE_COUNT as int);
    if upto == 1 {
        assert(default_rows().subrange(0, 0) =~= Seq::<RuleView>::empty());
    } else {
        lemma_default_rows_read(upto - 1);
        assert(lines[upto - 1] == default_line(upto - 2));
        assert(clean_row(default_texts(upto - 2)));
        lemma_row_reads_back(default_texts(upto - 2), upto as usize);
        assert(default_rows().subrange(0, upto - 2).push(rule_of_texts(default_texts(upto - 2)))
            =~= default_rows().subrange(0, upto - 1));
    }
}

proof fn lemma_default_row_0_clean()
    ensures
        clean_row(default_texts(0)),
{
    reveal_strlit("perf_atomic_for_small_lock");
    reveal_strlit("rust,go,cpp");
    reveal_strlit("Prefer atomics over locks for primitive state");
    reveal_strlit("concurrency");
    reveal_strlit("warning");
    reveal_strlit("A lock around a single primitive value costs more than an atomic operation and can stall other threads");
    reveal_strlit("Use an atomic type for the value");
    let r = default_texts(0);
    assert(free_of(r[0], '\t') && free_of(r[0], '\n') && tight(r[0]));
    assert(free_of(r[1], '\t') && free_of(r[1], '\n') && tight(r[1]));
    assert(free_of(r[2], '\t') && free_of(r[2], '\n') && tight(r[2]));
    assert(free_of(r[3], '\t') && free_of(r[3], '\n') && tight(r[3]));
    assert(free_of(r[4], '\t') && free_of(r[4], '\n') && tight(r[4]));
    assert(free_of(r[5], '\t') && free_of(r[5], '\n') && tight(r[5]));
    assert(free_of(r[6], '\t') && free_of(r[6], '\n') && tight(r[6]));
    assert(lower_case(r[3]) && lower_case(r[4]));
}

proof fn lemma_default_row_1_clean()
    ensures
        clean_row(default_texts(1)),
{
    reveal_strlit("perf_avoid_linked_list");
    reveal_strlit("rust,cpp,java");
    reveal_strlit("Avoid linked lists in hot paths");
    reveal_strlit("data-structures");
    reveal_strlit("warning");
    reveal_strlit("Linked lists scatter their nodes over the heap and defeat the cache");
    reveal_strlit("Use a vector or a deque");
    let r = default_texts(1);
    assert(free_of(r[0], '\t') && free_of(r[0], '\n') && tight(r[0]));
    assert(free_of(r[1], '\t') && free_of(r[1], '\n') && tight(r[1]));
    assert(free_of(r[2], '\t') && free_of(r[2], '\n') && tight(r[2]));
    assert(free_of(r[3], '\t') && free_of(r[3], '\n') && tight(r[3]));
    assert(free_of(r[4], '\t') && free_of(r[4], '\n') && tight(r[4]));
    assert(free_of(r[5], '\t') && free_of(r[5], '\n') && tight(r[5]));
    assert(free_of(r[6], '\t') && free_of(r[6], '\n') && tight(r[6]));
    assert(lower_case(r[3]) && lower_case(r[4]));
}

proof fn lemma_default_row_2_clean()
    ensures
        clean_row(default_texts(2)),
{
    reveal_strlit("perf_avoid_reflection_dynamic");
    reveal_strlit("rust,go,java,python");
    reveal_strlit("Avoid reflection and dynamic dispatch in hot loops");
    reveal_strlit("dispatch");
    reveal_strlit("warning");
    reveal_strlit("A call through a trait object cannot be inlined and costs an indirect jump on every iteration");
    reveal_strlit("Make the callee generic or hoist the call out of the loop");
    let r = default_texts(2);
    assert(free_of(r[0], '\t') && free_of(r[0], '\n') && tight(r[0]));
    assert(free_of(r[1], '\t') && free_of(r[1], '\n') && tight(r[1]));
    assert(free_of(r[2], '\t') && free_of(r[2], '\n') && tight(r[2]));
    assert(free_of(r[3], '\t') && free_of(r[3], '\n') && tight(r[3]));
    assert(free_of(r[4], '\t') && free_of(r[4], '\n') && tight(r[4]));
    assert(free_of(r[5], '\t') && free_of(r[5], '\n') && tight(r[5]));
    assert(free_of(r[6], '\t') && free_of(r[6], '\n') && tight(r[6]));
    assert(lower_case(r[3]) && lower_case(r[4]));
}

proof fn lemma_default_row_3_clean()
    ensures
        clean_row(default_texts(3)),
{
    reveal_strlit("perf_avoid_string_concat_loop");
    reveal_strlit("rust,go,java,python");
    reveal_strlit("Avoid string concatenation in loops");
    reveal_strlit("allocation");
    reveal_strlit("warning");
    reveal_strlit("Appending to a string inside a loop reallocates and copies the buffer again and again");
    reveal_strlit("Reserve the capacity up front or collect the parts and join them once");
    let r = default_texts(3);
    assert(free_of(r[0], '\t') && free_of(r[0], '\n') && tight(r[0]));
    assert(free_of(r[1], '\t') && free_of(r[1], '\n') && tight(r[1]));
    assert(free_of(r[2], '\t') && free_of(r[2], '\n') && tight(r[2]));
    assert(free_of(r[3], '\t') && free_of(r[3], '\n') && tight(r[3]));
    assert(free_of(r[4], '\t') && free_of(r[4], '\n') && tight(r[4]));
    assert(free_of(r[5], '\t') && free_of(r[5], '\n') && tight(r[5]));
    assert(free_of(r[6], '\t') && free_of(r[6], '\n') && tight(r[6]));
    assert(lower_case(r[3]) && lower_case(r[4]));
}

proof fn lemma_default_row_4_clean()
    ensures
        clean_row(default_texts(4)),
{
    reveal_strlit("perf_borrow_instead_of_clone");
    reveal_strlit("rust");
    reveal_strlit("Borrow instead of cloning");
    reveal_strlit("allocation");
    reveal_strlit("warning");
    reveal_strlit("Cloning inside a loop allocates and copies on every iteration");
    reveal_strlit("Borrow the value or move the clone out of the loop");
    let r = default_texts(4);
    assert(free_of(r[0], '\t') && free_of(r[0], '\n') && tight(r[0]));
    assert(free_of(r[1], '\t') && free_of(r[1], '\n') && tight(r[1]));
    assert(free_of(r[2], '\t') && free_of(r[2], '\n') && tight(r[2]));
    assert(free_of(r[3], '\t') && free_of(r[3], '\n') && tight(r[3]));
    assert(free_of(r[4], '\t') && free_of(r[4], '\n') && tight(r[4]));
    assert(free_of(r[5], '\t') && free_of(r[5], '\n') && tight(r[5]));
    assert(free_of(r[6], '\t') && free_of(r[6], '\n') && tight(r[6]));
    assert(lower_case(r[3]) && lower_case(r[4]));
}

proof fn lemma_default_row_5_clean()
    ensures
        clean_row(default_texts(5)),
{
    reveal_strlit("perf_bound_concurrency");
    reveal_strlit("rust,go,python");
    reveal_strlit("Bound the number of spawned tasks");
    reveal_strlit("concurrency");
    reveal_strlit("error");
    reveal_strlit("Spawning a task for every item creates unbounded concurrency that exhausts memory and scheduler time");
    reveal_strlit("Use a worker pool or a semaphore to limit the tasks in flight");
    let r = default_texts(5);
    assert(free_of(r[0], '\t') && free_of(r[0], '\n') && tight(r[0]));
    assert(free_of(r[1], '\t') && free_of(r[1], '\n') && tight(r[1]));
    assert(free_of(r[2], '\t') && free_of(r[2], '\n') && tight(r[2]));
    assert(free_of(r[3], '\t') && free_of(r[3], '\n') && tight(r[3]));
    assert(free_of(r[4], '\t') && free_of(r[4], '\n') && tight(r[4]));
    assert(free_of(r[5], '\t') && free_of(r[5], '\n') && tight(r[5]));
    assert(free_of(r[6], '\t') && free_of(r[6], '\n') && tight(r[6]));
    assert(lower_case(r[3]) && lower_case(r[4]));
}

proof fn lemma_default_row_6_clean()
    ensures
        clean_row(default_texts(6)),
{
    reveal_strlit("perf_large_enum_variant");
    reveal_strlit("rust");
    reveal_strlit("Box large enum variants");
    reveal_strlit("layout");
    reveal_strlit("warning");
    reveal_strlit("An enum is as large as its largest variant so one huge payload bloats every value");
    reveal_strlit("Box the large payload");
    let r = default_texts(6);
    assert(free_of(r[0], '\t') && free_of(r[0], '\n') && tight(r[0]));
    assert(free_of(r[1], '\t') && free_of(r[1], '\n') && tight(r[1]));
    assert(free_of(r[2], '\t') && free_of(r[2], '\n') && tight(r[2]));
    assert(free_of(r[3], '\t') && free_of(r[3], '\n') && tight(r[3]));
    assert(free_of(r[4], '\t') && free_of(r[4], '\n') && tight(r[4]));
    assert(free_of(r[5], '\t') && free_of(r[5], '\n') && tight(r[5]));
    assert(free_of(r[6], '\t') && free_of(r[6], '\n') && tight(r[6]));
    assert(lower_case(r[3]) && lower_case(r[4]));
}

proof fn lemma_default_row_7_clean()
    ensures
        clean_row(default_texts(7)),
{
    reveal_strlit("perf_needless_collect");
    reveal_strlit("rust");
    reveal_strlit("Do not collect only to iterate again");
    reveal_strlit("allocation");
    reveal_strlit("warning");
    reveal_strlit("Collecting into a vector only to ask it one question allocates for nothing");
    reveal_strlit("Ask the iterator directly");
    let r = default_texts(7);
    assert(free_of(r[0], '\t') && free_of(r[0], '\n') && tight(r[0]));
    assert(free_of(r[1], '\t') && free_of(r[1], '\n') && tight(r[1]));
    assert(free_of(r[2], '\t') && free_of(r[2], '\n') && tight(r[2]));
    assert(free_of(r[3], '\t') && free_of(r[3], '\n') && tight(r[3]));
    assert(free_of(r[4], '\t') && free_of(r[4], '\n') && tight(r[4]));
    assert(free_of(r[5], '\t') && free_of(r[5], '\n') && tight(r[5]));
    assert(free_of(r[6], '\t') && free_of(r[6], '\n') && tight(r[6]));
    assert(lower_case(r[3]) && lower_case(r[4]));
}

proof fn lemma_default_row_8_clean()
    ensures
        clean_row(default_texts(8)),
{
    reveal_strlit("perf_prefer_stack_alloc");
    reveal_strlit("rust,cpp");
    reveal_strlit("Keep small values on the stack");
    reveal_strlit("allocation");
    reveal_strlit("info");
    reveal_strlit("A heap allocation for a value of a few bytes costs more than the value itself");
    reveal_strlit("Store the value inline");
    let r = default_texts(8);
    assert(free_of(r[0], '\t') && free_of(r[0], '\n') && tight(r[0]));
    assert(free_of(r[1], '\t') && free_of(r[1], '\n') && tight(r[1]));
    assert(free_of(r[2], '\t') && free_of(r[2], '\n') && tight(r[2]));
    assert(free_of(r[3], '\t') && free_of(r[3], '\n') && tight(r[3]));
    assert(free_of(r[4], '\t') && free_of(r[4], '\n') && tight(r[4]));
    assert(free_of(r[5], '\t') && free_of(r[5], '\n') && tight(r[5]));
    assert(free_of(r[6], '\t') && free_of(r[6], '\n') && tight(r[6]));
    assert(lower_case(r[3]) && lower_case(r[4]));
}

proof fn lemma_default_row_9_clean()
    ensures
        clean_row(default_texts(9)),
{
    reveal_strlit("perf_preallocate_collections");
    reveal_strlit("go,java,python");
    reveal_strlit("Preallocate collections of known size");
    reveal_strlit("allocation");
    reveal_strlit("warning");
    reveal_strlit("A collection that grows one element at a time reallocates and copies as it grows");
    reveal_strlit("Create the collection with the capacity it will need");
    let r = default_texts(9);
    assert(free_of(r[0], '\t') && free_of(r[0], '\n') && tight(r[0]));
    assert(free_of(r[1], '\t') && free_of(r[1], '\n') && tight(r[1]));
    assert(free_of(r[2], '\t') && free_of(r[2], '\n') && tight(r[2]));
    assert(free_of(r[3], '\t') && free_of(r[3], '\n') && tight(r[3]));
    assert(free_of(r[4], '\t') && free_of(r[4], '\n') && tight(r[4]));
    assert(free_of(r[5], '\t') && free_of(r[5], '\n') && tight(r[5]));
    assert(free_of(r[6], '\t') && free_of(r[6], '\n') && tight(r[6]));
    assert(lower_case(r[3]) && lower_case(r[4]));
}

proof fn lemma_default_row_10_clean()
    ensures
        clean_row(default_texts(10)),
{
    reveal_strlit("perf_unnecessary_arc");
    reveal_strlit("rust");
    reveal_strlit("Do not share single-threaded data atomically");
    reveal_strlit("concurrency");
    reveal_strlit("warning");
    reveal_strlit("An atomically counted pointer around data that cannot cross threads pays for atomics it never needs");
    reveal_strlit("Use a plain reference-counted pointer");
    let r = default_texts(10);
    assert(free_of(r[0], '\t') && free_of(r[0], '\n') && tight(r[0]));
    assert(free_of(r[1], '\t') && free_of(r[1], '\n') && tight(r[1]));
    assert(free_of(r[2], '\t') && free_of(r[2], '\n') && tight(r[2]));
    assert(free_of(r[3], '\t') && free_of(r[3], '\n') && tight(r[3]));
    assert(free_of(r[4], '\t') && free_of(r[4], '\n') && tight(r[4]));
    assert(free_of(r[5], '\t') && free_of(r[5], '\n') && tight(r[5]));
    assert(free_of(r[6], '\t') && free_of(r[6], '\n') && tight(r[6]));
    assert(lower_case(r[3]) && lower_case(r[4]));
}

proof fn lemma_default_row_11_clean()
    ensures
        clean_row(default_texts(11)),
{
    reveal_strlit("perf_vec_reserve_capacity");
    reveal_strlit("rust");
    reveal_strlit("Reserve vector capacity before a loop");
    reveal_strlit("allocation");
    reveal_strlit("warning");
    reveal_strlit("Pushing into a vector without reserved capacity reallocates as it grows");
    reveal_strlit("Create the vector with the capacity it needs or reserve before the loop");
    let r = default_texts(11);
    assert(free_of(r[0], '\t') && free_of(r[0], '\n') && tight(r[0]));
    assert(free_of(r[1], '\t') && free_of(r[1], '\n') && tight(r[1]));
    assert(free_of(r[2], '\t') && free_of(r[2], '\n') && tight(r[2]));
    assert(free_of(r[3], '\t') && free_of(r[3], '\n') && tight(r[3]));
    assert(free_of(r[4], '\t') && free_of(r[4], '\n') && tight(r[4]));
    assert(free_of(r[5], '\t') && free_of(r[5], '\n') && tight(r[5]));
    assert(free_of(r[6], '\t') && free_of(r[6], '\n') && tight(r[6]));
    assert(lower_case(r[3]) && lower_case(r[4]));
}

/// Every row of the default table is written clean.
pub proof fn lemma_default_table_clean()
    ensures
        default_table_clean(),
{
    lemma_default_row_0_clean();
    lemma_default_row_1_clean();
    lemma_default_row_2_clean();
    lemma_default_row_3_clean();
    lemma_default_row_4_clean();
    lemma_default_row_5_clean();
    lemma_default_row_6_clean();
    lemma_default_row_7_clean();
    lemma_default_row_8_clean();
    lemma_default_row_9_clean();
    lemma_default_row_10_clean();
    lemma_default_row_11_clean();
}

/// The default table, written as text, reads back as itself: what
/// `from_tsv` makes of `default_table()` is the catalog that `global` gives.
pub proof fn lemma_default_table_reads_back()
    ensures
        parse_table_of(default_table_text()) == Ok::<Seq<RuleView>, TableError>(default_rows()),
{
    lemma_default_table_clean();
    lemma_default_lines(DEFAULT_RULE_COUNT as int);
    lemma_default_rows_read(DEFAULT_RULE_COUNT + 1);
    assert(default_rows().subrange(0, DEFAULT_RULE_COUNT as int) =~= default_rows());
    assert(default_lines(DEFAULT_RULE_COUNT as int).len() == DEFAULT_RULE_COUNT + 1);
}

} // verus!
