//! What holds of every scan: how often a line is reported under a rule, and
//! what keeps a line from being reported.

use vstd::prelude::*;
use crate::classify::VarInfo;
use crate::classify::parse_variable_declaration_of;
use crate::defaults::ARC_RULE;
use crate::defaults::ATOMIC_RULE;
use crate::defaults::BORROW_RULE;
use crate::defaults::COLLECT_RULE;
use crate::defaults::CONCURRENCY_RULE;
use crate::defaults::DYNAMIC_RULE;
use crate::defaults::ENUM_RULE;
use crate::defaults::LINKED_LIST_RULE;
use crate::defaults::PREALLOCATE_RULE;
use crate::defaults::STACK_RULE;
use crate::defaults::STRING_CONCAT_RULE;
use crate::defaults::VEC_RULE;
use crate::defaults::covers_detectors;
use crate::linter::Diagnostic;
use crate::linter::diagnostic_views;
use crate::model::ARC_DETAIL;
use crate::model::CLONE_DETAIL;
use crate::model::DYNAMIC_DETAIL;
use crate::model::DetectorRules;
use crate::model::DiagnosticView;
use crate::model::Finding;
use crate::model::LARGE_ENUM_DETAIL;
use crate::model::LINKED_LIST_DETAIL;
use crate::model::MUTEX_DETAIL;
use crate::model::Reported;
use crate::model::SPAWN_DETAIL;
use crate::model::STRING_CONCAT_DETAIL;
use crate::model::ScanContext;
use crate::model::ScanState;
use crate::model::VECTOR_PUSH_DETAIL;
use crate::model::arc_finding;
use crate::model::brace_step;
use crate::model::braces_from;
use crate::model::clamped;
use crate::model::clone_finding;
use crate::model::closes_of;
use crate::model::collect_detail;
use crate::model::collect_finding;
use crate::model::declare_of;
use crate::model::detect_anywhere;
use crate::model::detect_arc_usage_of;
use crate::model::detect_clone_of;
use crate::model::detect_dynamic_dispatch_of;
use crate::model::detect_in_loop;
use crate::model::detect_linked_list_of;
use crate::model::detect_mutex_primitives_of;
use crate::model::detect_needless_collect_of;
use crate::model::detect_spawn_of;
use crate::model::detect_string_concat_of;
use crate::model::detect_vector_push_of;
use crate::model::detector_rules;
use crate::model::diagnostic_of;
use crate::model::dyn_call_at;
use crate::model::dyn_call_from;
use crate::model::dynamic_dispatch_finding;
use crate::model::handle_enum_state_of;
use crate::model::initial_state;
use crate::model::is_dynamic_var;
use crate::model::is_skipped;
use crate::model::is_text_var;
use crate::model::is_unreserved_vector;
use crate::model::large_enum_finding;
use crate::model::line_step;
use crate::model::linked_list_finding;
use crate::model::mutex_finding;
use crate::model::note_line;
use crate::model::opens_of;
use crate::model::receiver_of;
use crate::model::report;
use crate::model::report_finding;
use crate::model::report_once;
use crate::model::rule_named;
use crate::model::scan_lines;
use crate::model::scan_of;
use crate::model::spawn_finding;
use crate::model::stack_detail;
use crate::model::stack_finding;
use crate::model::string_concat_finding;
use crate::model::track_vector_reserve_of;
use crate::model::vector_push_finding;
use crate::patterns::starts_enum_decl_of;
use crate::rules::RuleView;
use crate::rules::find_rule;
use crate::rules::lemma_find_rule;
use crate::scope::get_of;
use crate::scope::is_vector;
use crate::scope::lookup_of;
use crate::scope::mark_reserved_of;
use crate::text::find_of;
use crate::text::lines_of;
use crate::text::lines_scan;
use crate::text::trim_of;

verus! {

/* Counting diagnostics */

/// The number of diagnostics in `ds` under the rule `id` for the line
/// `line`.
pub open spec fn count_at(ds: Seq<DiagnosticView>, id: Seq<char>, line: nat) -> nat
    decreases ds.len(),
{
    if ds.len() == 0 {
        0
    } else if ds.last().rule_id == id && ds.last().line == line {
        count_at(ds.drop_last(), id, line) + 1
    } else {
        count_at(ds.drop_last(), id, line)
    }
}

/// One if the diagnostic `d` stands under the rule `id` for the line `line`.
pub open spec fn counts(d: DiagnosticView, id: Seq<char>, line: nat) -> nat {
    if d.rule_id == id && d.line == line {
        1
    } else {
        0
    }
}

/// What a detector adds to the count for `id` and `line` where it reports
/// under `rule` for the line `line_no` and found something or not.
pub open spec fn adds(found: bool, rule: RuleView, line_no: usize, id: Seq<char>, line: nat) -> nat {
    if found && rule.id == id && line_no as nat == line {
        1
    } else {
        0
    }
}

/// Between the two states only diagnostics were added, and lines marked.
pub open spec fn same_frame(a: ScanState, b: ScanState) -> bool {
    &&& a.scopes == b.scopes
    &&& a.loops == b.loops
    &&& a.brace_depth == b.brace_depth
    &&& a.pending_loop == b.pending_loop
}

proof fn lemma_count_push(ds: Seq<DiagnosticView>, d: DiagnosticView, id: Seq<char>, line: nat)
    ensures
        count_at(ds.push(d), id, line) == count_at(ds, id, line) + counts(d, id, line),
{
    assert(ds.push(d).drop_last() =~= ds);
}

proof fn lemma_report_finding(
    cx: ScanContext,
    st: ScanState,
    rule: RuleView,
    line_no: usize,
    finding: Option<Finding>,
    detail: Seq<char>,
    id: Seq<char>,
    line: nat,
)
    ensures
        same_frame(st, report_finding(cx, st, rule, line_no, finding, detail)),
        count_at(report_finding(cx, st, rule, line_no, finding, detail).diagnostics, id, line)
            == count_at(st.diagnostics, id, line) + adds(finding is Some, rule, line_no, id, line),
{
    match finding {
        Some(f) => {
            lemma_count_push(st.diagnostics, diagnostic_of(cx, rule, line_no, f, detail), id, line);
        },
        None => {},
    }
}

proof fn lemma_report_once(
    cx: ScanContext,
    st: ScanState,
    seen: Set<usize>,
    marked: Reported,
    rule: RuleView,
    line_no: usize,
    finding: Option<Finding>,
    detail: Seq<char>,
    id: Seq<char>,
    line: nat,
)
    ensures
        same_frame(st, report_once(cx, st, seen, marked, rule, line_no, finding, detail)),
        count_at(
            report_once(cx, st, seen, marked, rule, line_no, finding, detail).diagnostics,
            id,
            line,
        ) == count_at(st.diagnostics, id, line) + adds(
            !seen.contains(line_no) && finding is Some,
            rule,
            line_no,
            id,
            line,
        ),
{
    if !seen.contains(line_no) {
        match finding {
            Some(f) => {
                lemma_count_push(
                    st.diagnostics,
                    diagnostic_of(cx, rule, line_no, f, detail),
                    id,
                    line,
                );
            },
            None => {},
        }
    }
}

/* The rules of the detectors */

/// No two detectors report under one identifier.
pub open spec fn distinct_rules(rules: DetectorRules) -> bool {
    let ids = seq![
        rules.string.id,
        rules.vec.id,
        rules.dynamic.id,
        rules.concurrency.id,
        rules.borrow.id,
        rules.linked_list.id,
        rules.large_enum.id,
        rules.arc.id,
        rules.mutex.id,
        rules.collect.id,
        rules.stack.id,
    ];
    forall|i: int, j: int| 0 <= i < j < ids.len() ==> ids[i] != ids[j]
}

/// The rule found under an identifier has that identifier.
proof fn lemma_rule_named(catalog: Seq<RuleView>, id: Seq<char>)
    requires
        find_rule(catalog, id) is Some,
    ensures
        rule_named(catalog, id).id == id,
{
    lemma_find_rule(catalog, id);
}

/// In a catalog that covers the detectors each detector reports under the
/// identifier that is named after it, and no two under the same.
pub proof fn lemma_detector_rules(catalog: Seq<RuleView>)
    requires
        covers_detectors(catalog),
    ensures
        distinct_rules(detector_rules(catalog)),
        detector_rules(catalog).string.id == STRING_CONCAT_RULE@,
        detector_rules(catalog).vec.id == VEC_RULE@ || detector_rules(catalog).vec.id
            == PREALLOCATE_RULE@,
        detector_rules(catalog).dynamic.id == DYNAMIC_RULE@,
        detector_rules(catalog).concurrency.id == CONCURRENCY_RULE@,
        detector_rules(catalog).borrow.id == BORROW_RULE@,
        detector_rules(catalog).linked_list.id == LINKED_LIST_RULE@,
        detector_rules(catalog).large_enum.id == ENUM_RULE@,
        detector_rules(catalog).arc.id == ARC_RULE@,
        detector_rules(catalog).mutex.id == ATOMIC_RULE@,
        detector_rules(catalog).collect.id == COLLECT_RULE@,
        detector_rules(catalog).stack.id == STACK_RULE@,
{
    lemma_rule_named(catalog, STRING_CONCAT_RULE@);
    if find_rule(catalog, VEC_RULE@) is Some {
        lemma_rule_named(catalog, VEC_RULE@);
    } else {
        lemma_rule_named(catalog, PREALLOCATE_RULE@);
    }
    lemma_rule_named(catalog, DYNAMIC_RULE@);
    lemma_rule_named(catalog, CONCURRENCY_RULE@);
    lemma_rule_named(catalog, BORROW_RULE@);
    lemma_rule_named(catalog, LINKED_LIST_RULE@);
    lemma_rule_named(catalog, ENUM_RULE@);
    lemma_rule_named(catalog, ARC_RULE@);
    lemma_rule_named(catalog, ATOMIC_RULE@);
    lemma_rule_named(catalog, COLLECT_RULE@);
    lemma_rule_named(catalog, STACK_RULE@);
    reveal_strlit("perf_atomic_for_small_lock");
    reveal_strlit("perf_avoid_linked_list");
    reveal_strlit("perf_avoid_reflection_dynamic");
    reveal_strlit("perf_avoid_string_concat_loop");
    reveal_strlit("perf_borrow_instead_of_clone");
    reveal_strlit("perf_bound_concurrency");
    reveal_strlit("perf_large_enum_variant");
    reveal_strlit("perf_needless_collect");
    reveal_strlit("perf_prefer_stack_alloc");
    reveal_strlit("perf_preallocate_collections");
    reveal_strlit("perf_unnecessary_arc");
    reveal_strlit("perf_vec_reserve_capacity");
    assert(LINKED_LIST_RULE@[5] != CONCURRENCY_RULE@[5]);
    assert(DYNAMIC_RULE@[11] != STRING_CONCAT_RULE@[11]);
    assert(BORROW_RULE@[5] != PREALLOCATE_RULE@[5]);
    assert(ENUM_RULE@[5] != STACK_RULE@[5]);
    let rules = detector_rules(catalog);
    let ids = seq![
        rules.string.id,
        rules.vec.id,
        rules.dynamic.id,
        rules.concurrency.id,
        rules.borrow.id,
        rules.linked_list.id,
        rules.large_enum.id,
        rules.arc.id,
        rules.mutex.id,
        rules.collect.id,
        rules.stack.id,
    ];
    assert(ids[0].len() == 29 && ids[0][5] == 'a' && ids[0][11] == 's');
    assert(ids[1].len() == 25 || (ids[1].len() == 28 && ids[1][5] == 'p'));
    assert(ids[2].len() == 29 && ids[2][11] == 'r');
    assert(ids[3].len() == 22 && ids[3][5] == 'b');
    assert(ids[4].len() == 28 && ids[4][5] == 'b');
    assert(ids[5].len() == 22 && ids[5][5] == 'a');
    assert(ids[6].len() == 23 && ids[6][5] == 'l');
    assert(ids[7].len() == 20);
    assert(ids[8].len() == 26);
    assert(ids[9].len() == 21);
    assert(ids[10].len() == 23 && ids[10][5] == 'p');
    assert forall|i: int, j: int| 0 <= i < j < ids.len() implies ids[i] != ids[j] by {
        if ids[i].len() == ids[j].len() {
            if ids[i].len() == 29 {
                assert(ids[i][11] != ids[j][11]);
            } else {
                assert(ids[i][5] != ids[j][5]);
            }
        }
    }
}

/* What each detector adds */

/// Counting braces adds no diagnostic.
pub proof fn lemma_braces_keep_diagnostics(st: ScanState, line: Seq<char>, i: int)
    ensures
        braces_from(st, line, i).diagnostics == st.diagnostics,
        braces_from(st, line, i).reported == st.reported,
    decreases line.len() - i,
{
    if 0 <= i < line.len() {
        lemma_braces_keep_diagnostics(brace_step(st, line[i]), line, i + 1);
    }
}

/// The detectors that need no loop add nothing under another rule than
/// their own, and leave scopes and loops as they are.
pub proof fn lemma_anywhere_adds(
    cx: ScanContext,
    st: ScanState,
    l: Seq<char>,
    n: usize,
    id: Seq<char>,
    line: nat,
)
    requires
        id != cx.rules.linked_list.id,
        id != cx.rules.large_enum.id,
        id != cx.rules.arc.id,
        id != cx.rules.mutex.id,
        id != cx.rules.collect.id,
        id != cx.rules.stack.id,
    ensures
        same_frame(st, detect_anywhere(cx, st, l, n)),
        count_at(detect_anywhere(cx, st, l, n).diagnostics, id, line) == count_at(
            st.diagnostics,
            id,
            line,
        ),
{
    let s1 = detect_linked_list_of(cx, st, l, n);
    lemma_report_once(
        cx,
        st,
        st.reported.linked,
        Reported { linked: st.reported.linked.insert(n), ..st.reported },
        cx.rules.linked_list,
        n,
        linked_list_finding(l),
        LINKED_LIST_DETAIL@,
        id,
        line,
    );
    let s2 = handle_enum_state_of(cx, s1, l, n);
    lemma_enum_adds(cx, s1, l, n, id, line);
    let s3 = detect_arc_usage_of(cx, s2, l, n);
    lemma_report_once(
        cx,
        s2,
        s2.reported.arc,
        Reported { arc: s2.reported.arc.insert(n), ..s2.reported },
        cx.rules.arc,
        n,
        arc_finding(l),
        ARC_DETAIL@,
        id,
        line,
    );
    let s4 = detect_mutex_primitives_of(cx, s3, l, n);
    lemma_report_once(
        cx,
        s3,
        Set::empty(),
        Reported { mutex: s3.reported.mutex.insert(n), ..s3.reported },
        cx.rules.mutex,
        n,
        mutex_finding(l),
        MUTEX_DETAIL@,
        id,
        line,
    );
    let s5 = detect_needless_collect_of(cx, s4, l, n);
    lemma_report_once(
        cx,
        s4,
        s4.reported.collect,
        Reported { collect: s4.reported.collect.insert(n), ..s4.reported },
        cx.rules.collect,
        n,
        collect_finding(l),
        collect_detail(l),
        id,
        line,
    );
    lemma_report_once(
        cx,
        s5,
        Set::empty(),
        Reported { stack: s5.reported.stack.insert(n), ..s5.reported },
        cx.rules.stack,
        n,
        stack_finding(l),
        stack_detail(l),
        id,
        line,
    );
}

proof fn lemma_enum_adds(
    cx: ScanContext,
    st: ScanState,
    l: Seq<char>,
    n: usize,
    id: Seq<char>,
    line: nat,
)
    requires
        id != cx.rules.large_enum.id,
    ensures
        same_frame(st, handle_enum_state_of(cx, st, l, n)),
        handle_enum_state_of(cx, st, l, n).reported == st.reported,
        count_at(handle_enum_state_of(cx, st, l, n).diagnostics, id, line) == count_at(
            st.diagnostics,
            id,
            line,
        ),
{
    let pending = st.pending_enum || (!st.enum_active && starts_enum_decl_of(l));
    let opens = opens_of(l);
    let closes = closes_of(l);
    if pending && opens > 0 {
        let entered = ScanState {
            enum_active: opens - closes > 0,
            enum_balance: opens - closes,
            pending_enum: false,
            ..st
        };
        lemma_report_finding(
            cx,
            entered,
            cx.rules.large_enum,
            n,
            large_enum_finding(l),
            LARGE_ENUM_DETAIL@,
            id,
            line,
        );
    } else if st.enum_active {
        let balance = clamped(st.enum_balance + (opens - closes));
        let inside = ScanState {
            enum_active: balance > 0,
            enum_balance: balance,
            pending_enum: pending,
            ..st
        };
        lemma_report_finding(
            cx,
            inside,
            cx.rules.large_enum,
            n,
            large_enum_finding(l),
            LARGE_ENUM_DETAIL@,
            id,
            line,
        );
    }
}

/// What the detectors inside loops add under the rule `id` for the line
/// `line`: each one where it finds something, under its own rule.
pub open spec fn loop_findings(
    cx: ScanContext,
    st: ScanState,
    l: Seq<char>,
    n: usize,
    id: Seq<char>,
    line: nat,
) -> nat {
    adds(string_concat_finding(st.scopes, l) is Some, cx.rules.string, n, id, line) + adds(
        vector_push_finding(st.scopes, l) is Some,
        cx.rules.vec,
        n,
        id,
        line,
    ) + adds(dynamic_dispatch_finding(st.scopes, l) is Some, cx.rules.dynamic, n, id, line) + adds(
        !st.reported.spawn.contains(n) && spawn_finding(l) is Some,
        cx.rules.concurrency,
        n,
        id,
        line,
    ) + adds(
        !st.reported.clone.contains(n) && clone_finding(l) is Some,
        cx.rules.borrow,
        n,
        id,
        line,
    )
}

/// The detectors inside loops add what they find, each under its own rule,
/// and leave scopes and loops as they are.
pub proof fn lemma_in_loop_adds(
    cx: ScanContext,
    st: ScanState,
    l: Seq<char>,
    n: usize,
    id: Seq<char>,
    line: nat,
)
    ensures
        same_frame(st, detect_in_loop(cx, st, l, n)),
        count_at(detect_in_loop(cx, st, l, n).diagnostics, id, line) == count_at(
            st.diagnostics,
            id,
            line,
        ) + loop_findings(cx, st, l, n, id, line),
{
    let s1 = detect_string_concat_of(cx, st, l, n);
    lemma_report_finding(
        cx,
        st,
        cx.rules.string,
        n,
        string_concat_finding(st.scopes, l),
        STRING_CONCAT_DETAIL@,
        id,
        line,
    );
    let s2 = detect_vector_push_of(cx, s1, l, n);
    lemma_report_finding(
        cx,
        s1,
        cx.rules.vec,
        n,
        vector_push_finding(s1.scopes, l),
        VECTOR_PUSH_DETAIL@,
        id,
        line,
    );
    let s3 = detect_dynamic_dispatch_of(cx, s2, l, n);
    lemma_report_finding(
        cx,
        s2,
        cx.rules.dynamic,
        n,
        dynamic_dispatch_finding(s2.scopes, l),
        DYNAMIC_DETAIL@,
        id,
        line,
    );
    let s4 = detect_spawn_of(cx, s3, l, n);
    lemma_report_once(
        cx,
        s3,
        s3.reported.spawn,
        Reported { spawn: s3.reported.spawn.insert(n), ..s3.reported },
        cx.rules.concurrency,
        n,
        spawn_finding(l),
        SPAWN_DETAIL@,
        id,
        line,
    );
    lemma_report_once(
        cx,
        s4,
        s4.reported.clone,
        Reported { clone: s4.reported.clone.insert(n), ..s4.reported },
        cx.rules.borrow,
        n,
        clone_finding(l),
        CLONE_DETAIL@,
        id,
        line,
    );
}

/// What a line adds under a rule that only detectors inside loops report:
/// nothing outside every loop, and inside a loop what those detectors find
/// with the declaration of the line in scope.
pub proof fn lemma_line_adds(
    cx: ScanContext,
    st: ScanState,
    l: Seq<char>,
    n: usize,
    id: Seq<char>,
    line: nat,
)
    requires
        id != cx.rules.linked_list.id,
        id != cx.rules.large_enum.id,
        id != cx.rules.arc.id,
        id != cx.rules.mutex.id,
        id != cx.rules.collect.id,
        id != cx.rules.stack.id,
    ensures
        count_at(line_step(cx, st, l, n).diagnostics, id, line) == count_at(
            st.diagnostics,
            id,
            line,
        ) + if st.loops.len() > 0 {
            loop_findings(cx, note_line(detect_anywhere(cx, st, l, n), l), l, n, id, line)
        } else {
            0
        },
        note_line(detect_anywhere(cx, st, l, n), l).scopes == declare_of(st.scopes, trim_of(l)),
        note_line(detect_anywhere(cx, st, l, n), l).reported.spawn == st.reported.spawn,
        note_line(detect_anywhere(cx, st, l, n), l).reported.clone == st.reported.clone,
{
    reveal(line_step);
    lemma_anywhere_adds(cx, st, l, n, id, line);
    lemma_anywhere_reported(cx, st, l, n);
    let s1 = note_line(detect_anywhere(cx, st, l, n), l);
    let s2 = if s1.loops.len() > 0 {
        detect_in_loop(cx, s1, l, n)
    } else {
        s1
    };
    if s1.loops.len() > 0 {
        lemma_in_loop_adds(cx, s1, l, n, id, line);
    }
    let s3 = ScanState { scopes: track_vector_reserve_of(s2.scopes, l), ..s2 };
    lemma_braces_keep_diagnostics(s3, l, 0);
}

/// The detectors that need no loop leave alone what the spawn and clone
/// detectors have reported.
proof fn lemma_anywhere_reported(cx: ScanContext, st: ScanState, l: Seq<char>, n: usize)
    ensures
        detect_anywhere(cx, st, l, n).reported.spawn == st.reported.spawn,
        detect_anywhere(cx, st, l, n).reported.clone == st.reported.clone,
{
}

/* The scan as a whole */

/// The context of the scan of the file at `path` under the rules of
/// `catalog`.
pub open spec fn context_of(path: Seq<char>, catalog: Seq<RuleView>) -> ScanContext {
    ScanContext { path, rules: detector_rules(catalog) }
}

/// Scanning is deterministic: two scans of one text, under one path and one
/// catalog, give the same diagnostics in the same order, each with the same
/// texts and the same place.
pub proof fn lemma_scan_deterministic(
    first: Seq<Diagnostic>,
    second: Seq<Diagnostic>,
    source: Seq<char>,
    path: Seq<char>,
    catalog: Seq<RuleView>,
)
    requires
        diagnostic_views(first) == scan_of(context_of(path, catalog), source),
        diagnostic_views(second) == scan_of(context_of(path, catalog), source),
    ensures
        first.len() == second.len(),
        forall|i: int|
            0 <= i < first.len() ==> {
                &&& (#[trigger] first[i]).rule_id@ == second[i].rule_id@
                &&& first[i].severity@ == second[i].severity@
                &&& first[i].message@ == second[i].message@
                &&& first[i].path@ == second[i].path@
                &&& first[i].line == second[i].line
                &&& first[i].column == second[i].column
            },
{
    assert(diagnostic_views(first).len() == first.len());
    assert(diagnostic_views(second).len() == second.len());
    assert forall|i: int| 0 <= i < first.len() implies (#[trigger] first[i])@ == second[i]@ by {
        assert(diagnostic_views(first)[i] == first[i]@);
        assert(diagnostic_views(second)[i] == second[i]@);
    }
}

/* Texts that grow */

/// A line whose first `+=` has a text variable on its left grows a text.
pub proof fn lemma_plus_assign_grows(
    scopes: Seq<Map<Seq<char>, VarInfo>>,
    line: Seq<char>,
    idx: int,
)
    requires
        find_of(line, "+="@) == Some(idx),
        is_text_var(scopes, trim_of(line.subrange(0, idx))),
    ensures
        string_concat_finding(scopes, line) is Some,
{
}

/// Inside a loop a line that grows a text variable is reported exactly once
/// under the rule for texts that grow in loops. The variable may be
/// declared in the line itself.
pub proof fn lemma_text_growth_reported_once(
    catalog: Seq<RuleView>,
    path: Seq<char>,
    st: ScanState,
    line: Seq<char>,
    line_no: usize,
)
    requires
        covers_detectors(catalog),
        st.loops.len() > 0,
        string_concat_finding(declare_of(st.scopes, trim_of(line)), line) is Some,
    ensures
        count_at(
            line_step(context_of(path, catalog), st, line, line_no).diagnostics,
            STRING_CONCAT_RULE@,
            line_no as nat,
        ) == count_at(st.diagnostics, STRING_CONCAT_RULE@, line_no as nat) + 1,
{
    let cx = context_of(path, catalog);
    lemma_detector_rules(catalog);
    lemma_distinct(cx.rules);
    lemma_line_adds(cx, st, line, line_no, STRING_CONCAT_RULE@, line_no as nat);
}

/// Outside every loop no line is reported under the rule for texts that
/// grow in loops, whatever it holds.
pub proof fn lemma_text_growth_outside_loop(
    catalog: Seq<RuleView>,
    path: Seq<char>,
    st: ScanState,
    line: Seq<char>,
    line_no: usize,
    any_line: nat,
)
    requires
        covers_detectors(catalog),
        st.loops.len() == 0,
    ensures
        count_at(
            line_step(context_of(path, catalog), st, line, line_no).diagnostics,
            STRING_CONCAT_RULE@,
            any_line,
        ) == count_at(st.diagnostics, STRING_CONCAT_RULE@, any_line),
{
    let cx = context_of(path, catalog);
    lemma_detector_rules(catalog);
    lemma_distinct(cx.rules);
    lemma_line_adds(cx, st, line, line_no, STRING_CONCAT_RULE@, any_line);
}

/// Rules that are distinct differ pair by pair.
proof fn lemma_distinct(rules: DetectorRules)
    requires
        distinct_rules(rules),
    ensures
        rules.string.id != rules.vec.id,
        rules.string.id != rules.dynamic.id,
        rules.string.id != rules.concurrency.id,
        rules.string.id != rules.borrow.id,
        rules.string.id != rules.linked_list.id,
        rules.string.id != rules.large_enum.id,
        rules.string.id != rules.arc.id,
        rules.string.id != rules.mutex.id,
        rules.string.id != rules.collect.id,
        rules.string.id != rules.stack.id,
        rules.vec.id != rules.dynamic.id,
        rules.vec.id != rules.concurrency.id,
        rules.vec.id != rules.borrow.id,
        rules.vec.id != rules.linked_list.id,
        rules.vec.id != rules.large_enum.id,
        rules.vec.id != rules.arc.id,
        rules.vec.id != rules.mutex.id,
        rules.vec.id != rules.collect.id,
        rules.vec.id != rules.stack.id,
        rules.dynamic.id != rules.concurrency.id,
        rules.dynamic.id != rules.borrow.id,
        rules.dynamic.id != rules.linked_list.id,
        rules.dynamic.id != rules.large_enum.id,
        rules.dynamic.id != rules.arc.id,
        rules.dynamic.id != rules.mutex.id,
        rules.dynamic.id != rules.collect.id,
        rules.dynamic.id != rules.stack.id,
{
    let ids = seq![
        rules.string.id,
        rules.vec.id,
        rules.dynamic.id,
        rules.concurrency.id,
        rules.borrow.id,
        rules.linked_list.id,
        rules.large_enum.id,
        rules.arc.id,
        rules.mutex.id,
        rules.collect.id,
        rules.stack.id,
    ];
    assert(ids[0] != ids[1] && ids[0] != ids[2] && ids[0] != ids[3] && ids[0] != ids[4]);
    assert(ids[0] != ids[5] && ids[0] != ids[6] && ids[0] != ids[7] && ids[0] != ids[8]);
    assert(ids[0] != ids[9] && ids[0] != ids[10]);
    assert(ids[1] != ids[2] && ids[1] != ids[3] && ids[1] != ids[4] && ids[1] != ids[5]);
    assert(ids[1] != ids[6] && ids[1] != ids[7] && ids[1] != ids[8] && ids[1] != ids[9]);
    assert(ids[1] != ids[10]);
    assert(ids[2] != ids[3] && ids[2] != ids[4] && ids[2] != ids[5] && ids[2] != ids[6]);
    assert(ids[2] != ids[7] && ids[2] != ids[8] && ids[2] != ids[9] && ids[2] != ids[10]);
}

/* Sequences that grow */

/// Inside a loop a line that pushes into a sequence without reserved
/// capacity is reported exactly once under the rule for such pushes.
pub proof fn lemma_push_reported_once(
    catalog: Seq<RuleView>,
    path: Seq<char>,
    st: ScanState,
    line: Seq<char>,
    line_no: usize,
    idx: int,
)
    requires
        covers_detectors(catalog),
        st.loops.len() > 0,
        find_of(line, ".push("@) == Some(idx),
        is_unreserved_vector(declare_of(st.scopes, trim_of(line)), receiver_of(line, idx)),
    ensures
        count_at(
            line_step(context_of(path, catalog), st, line, line_no).diagnostics,
            detector_rules(catalog).vec.id,
            line_no as nat,
        ) == count_at(st.diagnostics, detector_rules(catalog).vec.id, line_no as nat) + 1,
{
    let cx = context_of(path, catalog);
    lemma_detector_rules(catalog);
    lemma_distinct(cx.rules);
    lemma_line_adds(cx, st, line, line_no, cx.rules.vec.id, line_no as nat);
}

/// A push into a sequence that counts as reserved is never reported:
/// whatever the line, and in a loop or not, nothing is added under the rule
/// for pushes without capacity.
pub proof fn lemma_reserved_push_not_reported(
    catalog: Seq<RuleView>,
    path: Seq<char>,
    st: ScanState,
    line: Seq<char>,
    line_no: usize,
    idx: int,
    any_line: nat,
)
    requires
        covers_detectors(catalog),
        find_of(line, ".push("@) == Some(idx),
        lookup_of(declare_of(st.scopes, trim_of(line)), receiver_of(line, idx)) == Some(
            VarInfo::Vector { reserved: true },
        ),
    ensures
        count_at(
            line_step(context_of(path, catalog), st, line, line_no).diagnostics,
            detector_rules(catalog).vec.id,
            any_line,
        ) == count_at(st.diagnostics, detector_rules(catalog).vec.id, any_line),
{
    let cx = context_of(path, catalog);
    lemma_detector_rules(catalog);
    lemma_distinct(cx.rules);
    lemma_line_adds(cx, st, line, line_no, cx.rules.vec.id, any_line);
}

/// A `reserve` call on a name that is a sequence in the innermost scope
/// that declares it makes the name count as reserved.
pub proof fn lemma_reserve_marks(scopes: Seq<Map<Seq<char>, VarInfo>>, name: Seq<char>)
    requires
        is_vector(lookup_of(scopes, name)),
    ensures
        lookup_of(mark_reserved_of(scopes, name), name) == Some(VarInfo::Vector { reserved: true }),
    decreases scopes.len(),
{
    if scopes.len() > 0 {
        let last = scopes.last();
        if last.dom().contains(name) {
            let marked = scopes.drop_last().push(
                last.insert(name, VarInfo::Vector { reserved: true }),
            );
            assert(marked.last() == last.insert(name, VarInfo::Vector { reserved: true }));
        } else {
            lemma_reserve_marks(scopes.drop_last(), name);
            let marked = mark_reserved_of(scopes.drop_last(), name).push(last);
            assert(marked.drop_last() =~= mark_reserved_of(scopes.drop_last(), name));
            assert(marked.last() == last);
        }
    }
}

/// A `reserve` call on any name leaves a name that counts as reserved so.
pub proof fn lemma_reserve_keeps_reserved(
    scopes: Seq<Map<Seq<char>, VarInfo>>,
    other: Seq<char>,
    name: Seq<char>,
)
    requires
        lookup_of(scopes, name) == Some(VarInfo::Vector { reserved: true }),
    ensures
        lookup_of(mark_reserved_of(scopes, other), name) == Some(
            VarInfo::Vector { reserved: true },
        ),
    decreases scopes.len(),
{
    if scopes.len() > 0 {
        let last = scopes.last();
        if is_vector(get_of(last, other)) {
            let marked = scopes.drop_last().push(
                last.insert(other, VarInfo::Vector { reserved: true }),
            );
            assert(marked.last() == last.insert(other, VarInfo::Vector { reserved: true }));
            assert(marked.drop_last() =~= scopes.drop_last());
        } else {
            let marked = mark_reserved_of(scopes.drop_last(), other).push(last);
            assert(marked.drop_last() =~= mark_reserved_of(scopes.drop_last(), other));
            assert(marked.last() == last);
            if !last.dom().contains(name) {
                lemma_reserve_keeps_reserved(scopes.drop_last(), other, name);
            }
        }
    }
}

/// The opening braces of a line leave a name that counts as reserved so.
proof fn lemma_braces_keep_reserved(st: ScanState, line: Seq<char>, i: int, name: Seq<char>)
    requires
        0 <= i,
        lookup_of(st.scopes, name) == Some(VarInfo::Vector { reserved: true }),
        forall|k: int| i <= k < line.len() ==> line[k] != '}',
    ensures
        lookup_of(braces_from(st, line, i).scopes, name) == Some(
            VarInfo::Vector { reserved: true },
        ),
    decreases line.len() - i,
{
    if i < line.len() {
        let next = brace_step(st, line[i]);
        if line[i] == '{' {
            assert(next.scopes.drop_last() =~= st.scopes);
            assert(next.scopes.last() == Map::<Seq<char>, VarInfo>::empty());
        }
        lemma_braces_keep_reserved(next, line, i + 1, name);
    }
}

/// A sequence that counts as reserved before a line does so behind it,
/// unless the line declares the name anew or closes a scope.
pub proof fn lemma_reserved_stays(
    cx: ScanContext,
    st: ScanState,
    line: Seq<char>,
    line_no: usize,
    name: Seq<char>,
)
    requires
        lookup_of(st.scopes, name) == Some(VarInfo::Vector { reserved: true }),
        match parse_variable_declaration_of(trim_of(line)) {
            Some((declared, _)) => declared != name,
            None => true,
        },
        forall|k: int| 0 <= k < line.len() ==> line[k] != '}',
    ensures
        lookup_of(line_step(cx, st, line, line_no).scopes, name) == Some(
            VarInfo::Vector { reserved: true },
        ),
{
    reveal(line_step);
    let s0 = detect_anywhere(cx, st, line, line_no);
    lemma_frame_anywhere(cx, st, line, line_no);
    let s1 = note_line(s0, line);
    match parse_variable_declaration_of(trim_of(line)) {
        Some((declared, info)) => {
            if st.scopes.len() > 0 {
                let updated = st.scopes.update(
                    st.scopes.len() - 1,
                    st.scopes.last().insert(declared, info),
                );
                assert(updated.drop_last() =~= st.scopes.drop_last());
                assert(updated.last() == st.scopes.last().insert(declared, info));
            }
        },
        None => {},
    }
    let s2 = if s1.loops.len() > 0 {
        detect_in_loop(cx, s1, line, line_no)
    } else {
        s1
    };
    if s1.loops.len() > 0 {
        lemma_in_loop_adds(cx, s1, line, line_no, Seq::empty(), 0);
    }
    let s3 = ScanState { scopes: track_vector_reserve_of(s2.scopes, line), ..s2 };
    match find_of(line, ".reserve("@) {
        Some(idx) => {
            lemma_reserve_keeps_reserved(s2.scopes, receiver_of(line, idx), name);
        },
        None => {},
    }
    lemma_braces_keep_reserved(s3, line, 0, name);
}

/// The detectors that need no loop leave scopes and loops as they are.
proof fn lemma_frame_anywhere(cx: ScanContext, st: ScanState, line: Seq<char>, line_no: usize)
    ensures
        same_frame(st, detect_anywhere(cx, st, line, line_no)),
{
}

/// A line with a `reserve` call on a sequence makes it count as reserved
/// behind the line, unless the line closes a scope.
pub proof fn lemma_reserve_line_marks(
    cx: ScanContext,
    st: ScanState,
    line: Seq<char>,
    line_no: usize,
    idx: int,
)
    requires
        find_of(line, ".reserve("@) == Some(idx),
        is_vector(lookup_of(declare_of(st.scopes, trim_of(line)), receiver_of(line, idx))),
        forall|k: int| 0 <= k < line.len() ==> line[k] != '}',
    ensures
        lookup_of(line_step(cx, st, line, line_no).scopes, receiver_of(line, idx)) == Some(
            VarInfo::Vector { reserved: true },
        ),
{
    reveal(line_step);
    let name = receiver_of(line, idx);
    let s0 = detect_anywhere(cx, st, line, line_no);
    lemma_frame_anywhere(cx, st, line, line_no);
    let s1 = note_line(s0, line);
    let s2 = if s1.loops.len() > 0 {
        detect_in_loop(cx, s1, line, line_no)
    } else {
        s1
    };
    if s1.loops.len() > 0 {
        lemma_in_loop_adds(cx, s1, line, line_no, Seq::empty(), 0);
    }
    let s3 = ScanState { scopes: track_vector_reserve_of(s2.scopes, line), ..s2 };
    lemma_reserve_marks(s2.scopes, name);
    lemma_braces_keep_reserved(s3, line, 0, name);
}

/* Calls through trait objects */

/// A call on a variable that holds a trait object, in a line that is not
/// passed over, is found.
pub proof fn lemma_dyn_call_found(
    scopes: Seq<Map<Seq<char>, VarInfo>>,
    line: Seq<char>,
    d: int,
)
    requires
        !is_skipped(line),
        dyn_call_at(scopes, line, d),
    ensures
        dynamic_dispatch_finding(scopes, line) is Some,
{
    lemma_dyn_call_from(scopes, line, 0, d);
}

proof fn lemma_dyn_call_from(scopes: Seq<Map<Seq<char>, VarInfo>>, line: Seq<char>, i: int, d: int)
    requires
        0 <= i <= d,
        dyn_call_at(scopes, line, d),
    ensures
        dyn_call_from(scopes, line, i) is Some,
    decreases d - i,
{
    if i < d && !dyn_call_at(scopes, line, i) {
        lemma_dyn_call_from(scopes, line, i + 1, d);
    }
}

/// Where no variable in scope holds a trait object, no call is found.
pub proof fn lemma_no_dyn_call(scopes: Seq<Map<Seq<char>, VarInfo>>, line: Seq<char>, i: int)
    requires
        forall|name: Seq<char>| !is_dynamic_var(scopes, name),
    ensures
        dyn_call_from(scopes, line, i) is None,
    decreases line.len() - i,
{
    if 0 <= i < line.len() {
        lemma_no_dyn_call(scopes, line, i + 1);
    }
}

/// Inside a loop a line with a method call on a variable that holds a
/// trait object is reported exactly once under the rule for dynamic
/// dispatch.
pub proof fn lemma_dyn_call_reported_once(
    catalog: Seq<RuleView>,
    path: Seq<char>,
    st: ScanState,
    line: Seq<char>,
    line_no: usize,
    d: int,
)
    requires
        covers_detectors(catalog),
        st.loops.len() > 0,
        !is_skipped(line),
        dyn_call_at(declare_of(st.scopes, trim_of(line)), line, d),
    ensures
        count_at(
            line_step(context_of(path, catalog), st, line, line_no).diagnostics,
            DYNAMIC_RULE@,
            line_no as nat,
        ) == count_at(st.diagnostics, DYNAMIC_RULE@, line_no as nat) + 1,
{
    let cx = context_of(path, catalog);
    lemma_detector_rules(catalog);
    lemma_distinct(cx.rules);
    lemma_dyn_call_found(declare_of(st.scopes, trim_of(line)), line, d);
    lemma_line_adds(cx, st, line, line_no, DYNAMIC_RULE@, line_no as nat);
}

/// Where every variable in scope has a concrete type, no line is reported
/// under the rule for dynamic dispatch, whatever it calls.
pub proof fn lemma_static_call_not_reported(
    catalog: Seq<RuleView>,
    path: Seq<char>,
    st: ScanState,
    line: Seq<char>,
    line_no: usize,
    any_line: nat,
)
    requires
        covers_detectors(catalog),
        forall|name: Seq<char>| !is_dynamic_var(declare_of(st.scopes, trim_of(line)), name),
    ensures
        count_at(
            line_step(context_of(path, catalog), st, line, line_no).diagnostics,
            DYNAMIC_RULE@,
            any_line,
        ) == count_at(st.diagnostics, DYNAMIC_RULE@, any_line),
{
    let cx = context_of(path, catalog);
    lemma_detector_rules(catalog);
    lemma_distinct(cx.rules);
    lemma_no_dyn_call(declare_of(st.scopes, trim_of(line)), line, 0);
    lemma_line_adds(cx, st, line, line_no, DYNAMIC_RULE@, any_line);
}

/* The order of diagnostics */

/// `after` is `before` with diagnostics for the line `line` behind it.
pub open spec fn appended(before: Seq<DiagnosticView>, after: Seq<DiagnosticView>, line: nat) -> bool {
    &&& before.len() <= after.len()
    &&& after.subrange(0, before.len() as int) == before
    &&& forall|k: int| before.len() <= k < after.len() ==> (#[trigger] after[k]).line == line
}

/// The diagnostics stand in the order of their lines, none beyond `bound`.
pub open spec fn ordered_upto(ds: Seq<DiagnosticView>, bound: nat) -> bool {
    &&& forall|i: int, j: int| 0 <= i < j < ds.len() ==> ds[i].line <= ds[j].line
    &&& forall|i: int| 0 <= i < ds.len() ==> (#[trigger] ds[i]).line <= bound
}

proof fn lemma_appended_same(ds: Seq<DiagnosticView>, line: nat)
    ensures
        appended(ds, ds, line),
{
    assert(ds.subrange(0, ds.len() as int) =~= ds);
}

proof fn lemma_appended_trans(
    a: Seq<DiagnosticView>,
    b: Seq<DiagnosticView>,
    c: Seq<DiagnosticView>,
    line: nat,
)
    requires
        appended(a, b, line),
        appended(b, c, line),
    ensures
        appended(a, c, line),
{
    assert(c.subrange(0, a.len() as int) =~= b.subrange(0, a.len() as int)) by {
        assert forall|k: int| 0 <= k < a.len() implies c.subrange(0, a.len() as int)[k]
            == b.subrange(0, a.len() as int)[k] by {
            assert(c.subrange(0, b.len() as int)[k] == b[k]);
        }
    }
    assert forall|k: int| a.len() <= k < c.len() implies (#[trigger] c[k]).line == line by {
        if k < b.len() {
            assert(c.subrange(0, b.len() as int)[k] == b[k]);
        }
    }
}

proof fn lemma_appended_finding(
    cx: ScanContext,
    st: ScanState,
    rule: RuleView,
    line_no: usize,
    finding: Option<Finding>,
    detail: Seq<char>,
)
    ensures
        appended(
            st.diagnostics,
            report_finding(cx, st, rule, line_no, finding, detail).diagnostics,
            line_no as nat,
        ),
{
    lemma_appended_same(st.diagnostics, line_no as nat);
    match finding {
        Some(f) => {
            let d = diagnostic_of(cx, rule, line_no, f, detail);
            assert(st.diagnostics.push(d).subrange(0, st.diagnostics.len() as int)
                =~= st.diagnostics);
        },
        None => {},
    }
}

proof fn lemma_appended_once(
    cx: ScanContext,
    st: ScanState,
    seen: Set<usize>,
    marked: Reported,
    rule: RuleView,
    line_no: usize,
    finding: Option<Finding>,
    detail: Seq<char>,
)
    ensures
        appended(
            st.diagnostics,
            report_once(cx, st, seen, marked, rule, line_no, finding, detail).diagnostics,
            line_no as nat,
        ),
{
    lemma_appended_same(st.diagnostics, line_no as nat);
    if !seen.contains(line_no) {
        match finding {
            Some(f) => {
                let d = diagnostic_of(cx, rule, line_no, f, detail);
                assert(st.diagnostics.push(d).subrange(0, st.diagnostics.len() as int)
                    =~= st.diagnostics);
            },
            None => {},
        }
    }
}

proof fn lemma_appended_enum(cx: ScanContext, st: ScanState, l: Seq<char>, n: usize)
    ensures
        appended(st.diagnostics, handle_enum_state_of(cx, st, l, n).diagnostics, n as nat),
{
    let pending = st.pending_enum || (!st.enum_active && starts_enum_decl_of(l));
    let opens = opens_of(l);
    let closes = closes_of(l);
    lemma_appended_same(st.diagnostics, n as nat);
    if pending && opens > 0 {
        let entered = ScanState {
            enum_active: opens - closes > 0,
            enum_balance: opens - closes,
            pending_enum: false,
            ..st
        };
        lemma_appended_finding(
            cx,
            entered,
            cx.rules.large_enum,
            n,
            large_enum_finding(l),
            LARGE_ENUM_DETAIL@,
        );
    } else if st.enum_active {
        let balance = clamped(st.enum_balance + (opens - closes));
        let inside = ScanState {
            enum_active: balance > 0,
            enum_balance: balance,
            pending_enum: pending,
            ..st
        };
        lemma_appended_finding(
            cx,
            inside,
            cx.rules.large_enum,
            n,
            large_enum_finding(l),
            LARGE_ENUM_DETAIL@,
        );
    }
}

/// A line adds diagnostics for itself behind those that were there, and
/// changes none of them.
pub proof fn lemma_line_appends(cx: ScanContext, st: ScanState, l: Seq<char>, n: usize)
    ensures
        appended(st.diagnostics, line_step(cx, st, l, n).diagnostics, n as nat),
{
    reveal(line_step);
    let line = n as nat;
    let a1 = detect_linked_list_of(cx, st, l, n);
    lemma_appended_once(
        cx,
        st,
        st.reported.linked,
        Reported { linked: st.reported.linked.insert(n), ..st.reported },
        cx.rules.linked_list,
        n,
        linked_list_finding(l),
        LINKED_LIST_DETAIL@,
    );
    let a2 = handle_enum_state_of(cx, a1, l, n);
    lemma_appended_enum(cx, a1, l, n);
    lemma_appended_trans(st.diagnostics, a1.diagnostics, a2.diagnostics, line);
    let a3 = detect_arc_usage_of(cx, a2, l, n);
    lemma_appended_once(
        cx,
        a2,
        a2.reported.arc,
        Reported { arc: a2.reported.arc.insert(n), ..a2.reported },
        cx.rules.arc,
        n,
        arc_finding(l),
        ARC_DETAIL@,
    );
    lemma_appended_trans(st.diagnostics, a2.diagnostics, a3.diagnostics, line);
    let a4 = detect_mutex_primitives_of(cx, a3, l, n);
    lemma_appended_once(
        cx,
        a3,
        Set::empty(),
        Reported { mutex: a3.reported.mutex.insert(n), ..a3.reported },
        cx.rules.mutex,
        n,
        mutex_finding(l),
        MUTEX_DETAIL@,
    );
    lemma_appended_trans(st.diagnostics, a3.diagnostics, a4.diagnostics, line);
    let a5 = detect_needless_collect_of(cx, a4, l, n);
    lemma_appended_once(
        cx,
        a4,
        a4.reported.collect,
        Reported { collect: a4.reported.collect.insert(n), ..a4.reported },
        cx.rules.collect,
        n,
        collect_finding(l),
        collect_detail(l),
    );
    lemma_appended_trans(st.diagnostics, a4.diagnostics, a5.diagnostics, line);
    let a6 = detect_anywhere(cx, st, l, n);
    lemma_appended_once(
        cx,
        a5,
        Set::empty(),
        Reported { stack: a5.reported.stack.insert(n), ..a5.reported },
        cx.rules.stack,
        n,
        stack_finding(l),
        stack_detail(l),
    );
    lemma_appended_trans(st.diagnostics, a5.diagnostics, a6.diagnostics, line);
    let s1 = note_line(a6, l);
    let s2 = if s1.loops.len() > 0 {
        detect_in_loop(cx, s1, l, n)
    } else {
        s1
    };
    if s1.loops.len() > 0 {
        lemma_in_loop_appends(cx, s1, l, n);
    } else {
        lemma_appended_same(s1.diagnostics, line);
    }
    lemma_appended_trans(st.diagnostics, s1.diagnostics, s2.diagnostics, line);
    let s3 = ScanState { scopes: track_vector_reserve_of(s2.scopes, l), ..s2 };
    lemma_braces_keep_diagnostics(s3, l, 0);
}

proof fn lemma_in_loop_appends(cx: ScanContext, st: ScanState, l: Seq<char>, n: usize)
    ensures
        appended(st.diagnostics, detect_in_loop(cx, st, l, n).diagnostics, n as nat),
{
    let line = n as nat;
    let s1 = detect_string_concat_of(cx, st, l, n);
    lemma_appended_finding(
        cx,
        st,
        cx.rules.string,
        n,
        string_concat_finding(st.scopes, l),
        STRING_CONCAT_DETAIL@,
    );
    let s2 = detect_vector_push_of(cx, s1, l, n);
    lemma_appended_finding(
        cx,
        s1,
        cx.rules.vec,
        n,
        vector_push_finding(s1.scopes, l),
        VECTOR_PUSH_DETAIL@,
    );
    lemma_appended_trans(st.diagnostics, s1.diagnostics, s2.diagnostics, line);
    let s3 = detect_dynamic_dispatch_of(cx, s2, l, n);
    lemma_appended_finding(
        cx,
        s2,
        cx.rules.dynamic,
        n,
        dynamic_dispatch_finding(s2.scopes, l),
        DYNAMIC_DETAIL@,
    );
    lemma_appended_trans(st.diagnostics, s2.diagnostics, s3.diagnostics, line);
    let s4 = detect_spawn_of(cx, s3, l, n);
    lemma_appended_once(
        cx,
        s3,
        s3.reported.spawn,
        Reported { spawn: s3.reported.spawn.insert(n), ..s3.reported },
        cx.rules.concurrency,
        n,
        spawn_finding(l),
        SPAWN_DETAIL@,
    );
    lemma_appended_trans(st.diagnostics, s3.diagnostics, s4.diagnostics, line);
    let s5 = detect_in_loop(cx, st, l, n);
    lemma_appended_once(
        cx,
        s4,
        s4.reported.clone,
        Reported { clone: s4.reported.clone.insert(n), ..s4.reported },
        cx.rules.borrow,
        n,
        clone_finding(l),
        CLONE_DETAIL@,
    );
    lemma_appended_trans(st.diagnostics, s4.diagnostics, s5.diagnostics, line);
}

/// Diagnostics for the next line behind ordered ones are ordered.
proof fn lemma_appended_ordered(
    before: Seq<DiagnosticView>,
    after: Seq<DiagnosticView>,
    bound: nat,
)
    requires
        ordered_upto(before, bound),
        appended(before, after, bound + 1),
    ensures
        ordered_upto(after, bound + 1),
{
    assert forall|i: int| 0 <= i < after.len() implies (#[trigger] after[i]).line <= bound + 1 by {
        if i < before.len() {
            assert(after.subrange(0, before.len() as int)[i] == after[i]);
        }
    }
    assert forall|i: int, j: int| 0 <= i < j < after.len() implies after[i].line
        <= after[j].line by {
        if i < before.len() {
            assert(after.subrange(0, before.len() as int)[i] == after[i]);
        }
        if j < before.len() {
            assert(after.subrange(0, before.len() as int)[j] == after[j]);
        }
    }
}

proof fn lemma_scan_lines_ordered(cx: ScanContext, st: ScanState, lines: Seq<Seq<char>>, k: int)
    requires
        0 <= k <= lines.len() <= usize::MAX,
        ordered_upto(st.diagnostics, k as nat),
    ensures
        ordered_upto(scan_lines(cx, st, lines, k).diagnostics, lines.len()),
    decreases lines.len() - k,
{
    if k < lines.len() {
        let n = (k + 1) as usize;
        let next = line_step(cx, st, lines[k], n);
        lemma_line_appends(cx, st, lines[k], n);
        lemma_appended_ordered(st.diagnostics, next.diagnostics, k as nat);
        lemma_scan_lines_ordered(cx, next, lines, k + 1);
    }
}

/// The lines of a text are no more than its characters.
proof fn lemma_lines_len(s: Seq<char>, start: int, i: int)
    requires
        0 <= start <= i <= s.len(),
    ensures
        lines_scan(s, start, i).len() <= s.len() - start,
    decreases s.len() - i,
{
    if i < s.len() {
        if s[i] == '\n' {
            lemma_lines_len(s, i + 1, i + 1);
        } else {
            lemma_lines_len(s, start, i + 1);
        }
    }
}

/// The diagnostics of a scan stand in the order of their lines: the line
/// numbers never fall from one diagnostic to the next, and none is beyond
/// the last line of the text.
pub proof fn lemma_scan_ordered(cx: ScanContext, source: Seq<char>)
    requires
        source.len() <= usize::MAX,
    ensures
        ordered_upto(scan_of(cx, source), lines_of(source).len()),
{
    lemma_lines_len(source, 0, 0);
    lemma_scan_lines_ordered(cx, initial_state(), lines_of(source), 0);
}

/* Lines that are reported once */

/// A detector that reports a line once does nothing when it reads the line
/// again: the second reading leaves the state of the first.
pub proof fn lemma_reported_once(cx: ScanContext, st: ScanState, l: Seq<char>, n: usize)
    ensures
        detect_spawn_of(cx, detect_spawn_of(cx, st, l, n), l, n) == detect_spawn_of(cx, st, l, n),
        detect_clone_of(cx, detect_clone_of(cx, st, l, n), l, n)
            == detect_clone_of(cx, st, l, n),
        detect_linked_list_of(cx, detect_linked_list_of(cx, st, l, n), l, n)
            == detect_linked_list_of(cx, st, l, n),
        detect_arc_usage_of(cx, detect_arc_usage_of(cx, st, l, n), l, n) == detect_arc_usage_of(
            cx,
            st,
            l,
            n,
        ),
        detect_needless_collect_of(cx, detect_needless_collect_of(cx, st, l, n), l, n)
            == detect_needless_collect_of(cx, st, l, n),
{
}

/* From line to line */

/// The state behind the lines from the `from`th up to the `to`th, both
/// counted from 0, the second left out.
pub open spec fn state_after(
    cx: ScanContext,
    st: ScanState,
    lines: Seq<Seq<char>>,
    from: int,
    to: int,
) -> ScanState
    decreases to - from,
{
    if from < 0 || to <= from || to > lines.len() {
        st
    } else {
        line_step(cx, state_after(cx, st, lines, from, to - 1), lines[to - 1], to as usize)
    }
}

/// A scan goes through the state behind each of its lines.
pub proof fn lemma_scan_through(
    cx: ScanContext,
    st: ScanState,
    lines: Seq<Seq<char>>,
    from: int,
    to: int,
)
    requires
        0 <= from <= to <= lines.len(),
    ensures
        scan_lines(cx, st, lines, from) == scan_lines(
            cx,
            state_after(cx, st, lines, from, to),
            lines,
            to,
        ),
    decreases to - from,
{
    if from < to {
        lemma_state_after_first(cx, st, lines, from, to);
        lemma_scan_through(
            cx,
            line_step(cx, st, lines[from], (from + 1) as usize),
            lines,
            from + 1,
            to,
        );
    }
}

/// The state behind some lines is the state behind all but the first of
/// them, begun behind the first.
proof fn lemma_state_after_first(
    cx: ScanContext,
    st: ScanState,
    lines: Seq<Seq<char>>,
    from: int,
    to: int,
)
    requires
        0 <= from < to <= lines.len(),
    ensures
        state_after(cx, st, lines, from, to) == state_after(
            cx,
            line_step(cx, st, lines[from], (from + 1) as usize),
            lines,
            from + 1,
            to,
        ),
    decreases to - from,
{
    if from + 1 < to {
        lemma_state_after_first(cx, st, lines, from, to - 1);
    } else {
        assert(state_after(cx, st, lines, from, from) == st);
    }
}

/// The line `line` neither declares `name` nor closes a scope.
pub open spec fn keeps_binding(line: Seq<char>, name: Seq<char>) -> bool {
    &&& match parse_variable_declaration_of(trim_of(line)) {
        Some((declared, _)) => declared != name,
        None => true,
    }
    &&& forall|k: int| 0 <= k < line.len() ==> line[k] != '}'
}

/// A sequence that counts as reserved does so behind every following line,
/// as long as no line declares the name anew or closes a scope.
pub proof fn lemma_reserved_through(
    cx: ScanContext,
    st: ScanState,
    lines: Seq<Seq<char>>,
    from: int,
    to: int,
    name: Seq<char>,
)
    requires
        0 <= from <= to <= lines.len(),
        lookup_of(st.scopes, name) == Some(VarInfo::Vector { reserved: true }),
        forall|k: int| from <= k < to ==> keeps_binding(#[trigger] lines[k], name),
    ensures
        lookup_of(state_after(cx, st, lines, from, to).scopes, name) == Some(
            VarInfo::Vector { reserved: true },
        ),
    decreases to - from,
{
    if from < to {
        lemma_reserved_through(cx, st, lines, from, to - 1, name);
        assert(keeps_binding(lines[to - 1], name));
        lemma_reserved_stays(
            cx,
            state_after(cx, st, lines, from, to - 1),
            lines[to - 1],
            to as usize,
            name,
        );
    }
}

/// A declaration of another name leaves a name as it is.
proof fn lemma_declare_keeps(
    scopes: Seq<Map<Seq<char>, VarInfo>>,
    line: Seq<char>,
    name: Seq<char>,
)
    requires
        match parse_variable_declaration_of(line) {
            Some((declared, _)) => declared != name,
            None => true,
        },
    ensures
        lookup_of(declare_of(scopes, line), name) == lookup_of(scopes, name),
{
    match parse_variable_declaration_of(line) {
        Some((declared, info)) => {
            if scopes.len() > 0 {
                let updated = scopes.update(scopes.len() - 1, scopes.last().insert(declared, info));
                assert(updated.drop_last() =~= scopes.drop_last());
                assert(updated.last() == scopes.last().insert(declared, info));
            }
        },
        None => {},
    }
}

/// A push into a sequence is not reported where a `reserve` call on the
/// sequence stands on an earlier line of the same scope: on the line
/// `reserve_at` stands a `reserve` call on a name that is a sequence there,
/// on the later line `push_at` a push into that name, and no line from the
/// one to the other declares the name anew or closes a scope. Then the line
/// of the push adds nothing under the rule for pushes without capacity.
pub proof fn lemma_push_behind_reserve_not_reported(
    catalog: Seq<RuleView>,
    path: Seq<char>,
    st: ScanState,
    lines: Seq<Seq<char>>,
    reserve_at: int,
    reserve_idx: int,
    push_at: int,
    push_idx: int,
    any_line: nat,
)
    requires
        covers_detectors(catalog),
        0 <= reserve_at < push_at < lines.len(),
        find_of(lines[reserve_at], ".reserve("@) == Some(reserve_idx),
        find_of(lines[push_at], ".push("@) == Some(push_idx),
        receiver_of(lines[push_at], push_idx) == receiver_of(lines[reserve_at], reserve_idx),
        is_vector(
            lookup_of(
                declare_of(st.scopes, trim_of(lines[reserve_at])),
                receiver_of(lines[reserve_at], reserve_idx),
            ),
        ),
        forall|k: int| 0 <= k < lines[reserve_at].len() ==> lines[reserve_at][k] != '}',
        forall|k: int|
            reserve_at < k <= push_at ==> keeps_binding(
                #[trigger] lines[k],
                receiver_of(lines[reserve_at], reserve_idx),
            ),
    ensures
        ({
            let cx = context_of(path, catalog);
            let before = state_after(cx, st, lines, reserve_at, push_at);
            count_at(
                line_step(cx, before, lines[push_at], (push_at + 1) as usize).diagnostics,
                detector_rules(catalog).vec.id,
                any_line,
            ) == count_at(before.diagnostics, detector_rules(catalog).vec.id, any_line)
        }),
{
    let cx = context_of(path, catalog);
    let name = receiver_of(lines[reserve_at], reserve_idx);
    let marked = line_step(cx, st, lines[reserve_at], (reserve_at + 1) as usize);
    lemma_reserve_line_marks(cx, st, lines[reserve_at], (reserve_at + 1) as usize, reserve_idx);
    lemma_state_after_first(cx, st, lines, reserve_at, push_at);
    lemma_reserved_through(cx, marked, lines, reserve_at + 1, push_at, name);
    let before = state_after(cx, st, lines, reserve_at, push_at);
    assert(keeps_binding(lines[push_at], name));
    lemma_declare_keeps(before.scopes, trim_of(lines[push_at]), name);
    lemma_reserved_push_not_reported(
        catalog,
        path,
        before,
        lines[push_at],
        (push_at + 1) as usize,
        push_idx,
        any_line,
    );
}

} // verus!
