//! The model of a scan: the state that the scanner keeps from line to line,
//! and what each detector finds in a line and does to that state.

use vstd::prelude::*;
use crate::classify::parse_variable_declaration_of;
use crate::classify::split_assignment_of;
use crate::classify::VarInfo;
use crate::defaults::ARC_RULE;
use crate::defaults::ATOMIC_RULE;
use crate::defaults::BORROW_RULE;
use crate::defaults::COLLECT_RULE;
use crate::defaults::CONCURRENCY_RULE;
use crate::defaults::DYNAMIC_RULE;
use crate::defaults::ENUM_RULE;
use crate::defaults::LINKED_LIST_RULE;
use crate::defaults::PREALLOCATE_RULE;
use crate::defaults::STACK_RULE;
use crate::defaults::STRING_CONCAT_RULE;
use crate::defaults::VEC_RULE;
use crate::patterns::angle_end;
use crate::patterns::capped;
use crate::patterns::contains_nonsend_token_of;
use crate::patterns::count_char;
use crate::patterns::find_token_of;
use crate::patterns::generic_argument_of;
use crate::patterns::is_literal_primitive_of;
use crate::patterns::is_primitive_token_of;
use crate::patterns::is_small_box_target_of;
use crate::patterns::large_array_from;
use crate::patterns::needless_collect_suffix_of;
use crate::patterns::paren_argument_of;
use crate::patterns::starts_enum_decl_of;
use crate::rules::find_rule;
use crate::rules::RuleView;
use crate::scope::lookup_of;
use crate::scope::mark_reserved_of;
use crate::text::after_last_of;
use crate::text::byte_offset_of;
use crate::text::contains_char_of;
use crate::text::contains_of;
use crate::text::ends_with_char_of;
use crate::text::find_from;
use crate::text::find_of;
use crate::text::ident_char;
use crate::text::ident_start;
use crate::text::is_ascii_blank;
use crate::text::lemma_find_from;
use crate::text::lines_of;
use crate::text::matches_at;
use crate::text::starts_with_of;
use crate::text::trim_end_of;
use crate::text::trim_of;
use crate::text::trim_start_of;
use crate::text::without_spaces;

verus! {

/* Diagnostics */

/// The model of a diagnostic: the rule, its severity, the message, the path
/// of the file, and the place, both counted from 1, the column in bytes.
pub struct DiagnosticView {
    pub rule_id: Seq<char>,
    pub severity: Seq<char>,
    pub message: Seq<char>,
    pub path: Seq<char>,
    pub line: nat,
    pub column: nat,
}

/// `text`, trimmed, with a full stop behind it unless it ends a sentence
/// already; nothing where `text` is blank.
pub open spec fn ensure_sentence_of(text: Seq<char>) -> Seq<char> {
    let t = trim_of(text);
    if t.len() == 0 {
        t
    } else if ends_with_char_of(t, '.') || ends_with_char_of(t, '!') || ends_with_char_of(t, '?') {
        t
    } else {
        t.push('.')
    }
}

/// The first sentence of a message: the detail with the subject in quotes
/// and round brackets behind it.
pub open spec fn detail_of(detail: Seq<char>, subject: Seq<char>) -> Seq<char> {
    detail + " (\""@ + subject + "\")"@
}

/// The message of a diagnostic: what was found, why it matters, how to fix
/// it, each a sentence.
pub open spec fn message_of(detail: Seq<char>, subject: Seq<char>, rule: RuleView) -> Seq<char> {
    ensure_sentence_of(detail_of(detail, subject)) + " Why: "@ + ensure_sentence_of(
        rule.problem_summary,
    ) + " Fix: "@ + ensure_sentence_of(rule.fix_hint)
}

/// The column, counted from 1 in bytes, of the character index `idx` in
/// `line`; 1 where the index is not in the line.
pub open spec fn column_at(line: Seq<char>, idx: int) -> nat {
    if 0 <= idx < line.len() {
        byte_offset_of(line, idx) + 1
    } else {
        1
    }
}

/// The column of an index that a search may have found.
pub open spec fn column_of(line: Seq<char>, found: Option<int>) -> nat {
    match found {
        Some(idx) => column_at(line, idx),
        None => 1,
    }
}

/* The context of a scan */

/// The rules under which the detectors report, one for each detector.
pub struct DetectorRules {
    pub string: RuleView,
    pub vec: RuleView,
    pub dynamic: RuleView,
    pub concurrency: RuleView,
    pub borrow: RuleView,
    pub linked_list: RuleView,
    pub large_enum: RuleView,
    pub arc: RuleView,
    pub mutex: RuleView,
    pub collect: RuleView,
    pub stack: RuleView,
}

/// The rule with the identifier `id` in a catalog that has one.
pub open spec fn rule_named(catalog: Seq<RuleView>, id: Seq<char>) -> RuleView {
    find_rule(catalog, id)->Some_0
}

/// The rules of the detectors in `catalog`. Pushes without capacity are
/// reported under `VEC_RULE`, and under `PREALLOCATE_RULE` in a catalog
/// without it.
pub open spec fn detector_rules(catalog: Seq<RuleView>) -> DetectorRules {
    DetectorRules {
        string: rule_named(catalog, STRING_CONCAT_RULE@),
        vec: if find_rule(catalog, VEC_RULE@) is Some {
            rule_named(catalog, VEC_RULE@)
        } else {
            rule_named(catalog, PREALLOCATE_RULE@)
        },
        dynamic: rule_named(catalog, DYNAMIC_RULE@),
        concurrency: rule_named(catalog, CONCURRENCY_RULE@),
        borrow: rule_named(catalog, BORROW_RULE@),
        linked_list: rule_named(catalog, LINKED_LIST_RULE@),
        large_enum: rule_named(catalog, ENUM_RULE@),
        arc: rule_named(catalog, ARC_RULE@),
        mutex: rule_named(catalog, ATOMIC_RULE@),
        collect: rule_named(catalog, COLLECT_RULE@),
        stack: rule_named(catalog, STACK_RULE@),
    }
}

/// What stays the same during the scan of one file.
pub struct ScanContext {
    pub path: Seq<char>,
    pub rules: DetectorRules,
}

/* The state of a scan */

/// The lines that each detector has reported already.
pub struct Reported {
    pub spawn: Set<usize>,
    pub clone: Set<usize>,
    pub linked: Set<usize>,
    pub arc: Set<usize>,
    pub mutex: Set<usize>,
    pub collect: Set<usize>,
    pub stack: Set<usize>,
}

/// What the scanner knows between two lines.
pub struct ScanState {
    /// The open scopes, outermost first; the first is the scope of the file.
    pub scopes: Seq<Map<Seq<char>, VarInfo>>,
    /// The brace depths at which the bodies of the open loops began.
    pub loops: Seq<nat>,
    /// The number of open braces.
    pub brace_depth: nat,
    /// A loop header was read whose body has not begun.
    pub pending_loop: bool,
    /// The lines read lie in the body of an enum.
    pub enum_active: bool,
    /// The number of braces open in that body.
    pub enum_balance: int,
    /// An enum header was read whose body has not begun.
    pub pending_enum: bool,
    pub reported: Reported,
    /// The diagnostics so far, in the order in which they were found.
    pub diagnostics: Seq<DiagnosticView>,
}

/// The state before the first line: the scope of the file, no loop, no
/// enum, nothing reported.
pub open spec fn initial_state() -> ScanState {
    ScanState {
        scopes: seq![Map::empty()],
        loops: Seq::empty(),
        brace_depth: 0,
        pending_loop: false,
        enum_active: false,
        enum_balance: 0,
        pending_enum: false,
        reported: Reported {
            spawn: Set::empty(),
            clone: Set::empty(),
            linked: Set::empty(),
            arc: Set::empty(),
            mutex: Set::empty(),
            collect: Set::empty(),
            stack: Set::empty(),
        },
        diagnostics: Seq::empty(),
    }
}

/// A state that a scan can reach: one scope more than braces are open.
pub open spec fn state_wf(st: ScanState) -> bool {
    st.scopes.len() == st.brace_depth + 1
}

/// What a detector found in a line: where, and the text that it names.
pub struct Finding {
    pub column: nat,
    pub subject: Seq<char>,
}

/// The diagnostic for a finding in line `line_no` under the rule `rule`.
pub open spec fn diagnostic_of(
    cx: ScanContext,
    rule: RuleView,
    line_no: usize,
    finding: Finding,
    detail: Seq<char>,
) -> DiagnosticView {
    DiagnosticView {
        rule_id: rule.id,
        severity: rule.severity,
        message: message_of(detail, finding.subject, rule),
        path: cx.path,
        line: line_no as nat,
        column: finding.column,
    }
}

/// The state with one diagnostic more.
pub open spec fn report(st: ScanState, d: DiagnosticView) -> ScanState {
    ScanState { diagnostics: st.diagnostics.push(d), ..st }
}

/// The state with the finding of a detector reported, where it found one.
pub open spec fn report_finding(
    cx: ScanContext,
    st: ScanState,
    rule: RuleView,
    line_no: usize,
    finding: Option<Finding>,
    detail: Seq<char>,
) -> ScanState {
    match finding {
        Some(f) => report(st, diagnostic_of(cx, rule, line_no, f, detail)),
        None => st,
    }
}

/// A line that the loop detectors pass over: blank, or a comment.
pub open spec fn is_skipped(line: Seq<char>) -> bool {
    trim_of(line).len() == 0 || starts_with_of(trim_of(line), "//"@)
}

/* Variables */

pub open spec fn is_text_var(scopes: Seq<Map<Seq<char>, VarInfo>>, name: Seq<char>) -> bool {
    lookup_of(scopes, name) == Some(VarInfo::Text)
}

pub open spec fn is_unreserved_vector(scopes: Seq<Map<Seq<char>, VarInfo>>, name: Seq<char>) -> bool {
    lookup_of(scopes, name) == Some(VarInfo::Vector { reserved: false })
}

pub open spec fn is_dynamic_var(scopes: Seq<Map<Seq<char>, VarInfo>>, name: Seq<char>) -> bool {
    lookup_of(scopes, name) == Some(VarInfo::DynamicDispatch)
}

/// The receiver of the method call whose `.` stands at index `idx`: the text
/// before the call, behind its last `.`, trimmed.
pub open spec fn receiver_of(line: Seq<char>, idx: int) -> Seq<char> {
    trim_of(after_last_of(trim_end_of(line.subrange(0, idx)), '.'))
}

/* Detectors inside loops */

pub const STRING_CONCAT_DETAIL: &'static str = "string concatenation in loop";

pub const VECTOR_PUSH_DETAIL: &'static str = "vector push without reserved capacity inside loop";

pub const DYNAMIC_DETAIL: &'static str = "dynamic dispatch inside loop";

pub const SPAWN_DETAIL: &'static str = "spawn inside loop without concurrency bounds";

pub const CLONE_DETAIL: &'static str = "clone inside loop; prefer borrowing";

/// A text variable that grows in `line`: the left side of the first `+=`;
/// or, in a line without `+=`, the left side of an assignment whose right
/// side begins with the same name and holds a `+`.
pub open spec fn string_concat_finding(
    scopes: Seq<Map<Seq<char>, VarInfo>>,
    line: Seq<char>,
) -> Option<Finding> {
    match find_of(line, "+="@) {
        Some(idx) => {
            let left = trim_of(line.subrange(0, idx));
            if is_text_var(scopes, left) {
                Some(Finding { column: column_at(line, idx), subject: left })
            } else {
                None
            }
        },
        None => match split_assignment_of(line) {
            Some((lhs, rhs)) => {
                let left = trim_of(lhs);
                let right = trim_start_of(rhs);
                if is_text_var(scopes, left) && starts_with_of(right, left) && contains_char_of(
                    right,
                    '+',
                ) {
                    Some(Finding { column: column_at(line, lhs.len() as int), subject: left })
                } else {
                    None
                }
            },
            None => None,
        },
    }
}

/// A push, the first in `line`, into a sequence that has no capacity
/// reserved.
pub open spec fn vector_push_finding(
    scopes: Seq<Map<Seq<char>, VarInfo>>,
    line: Seq<char>,
) -> Option<Finding> {
    match find_of(line, ".push("@) {
        Some(idx) => {
            let var = receiver_of(line, idx);
            if is_unreserved_vector(scopes, var) {
                Some(Finding { column: column_at(line, idx), subject: var })
            } else {
                None
            }
        },
        None => None,
    }
}

/// The scopes once `line` is read for a `reserve` call: the receiver of the
/// first one counts as reserved from here on.
pub open spec fn track_vector_reserve_of(
    scopes: Seq<Map<Seq<char>, VarInfo>>,
    line: Seq<char>,
) -> Seq<Map<Seq<char>, VarInfo>> {
    match find_of(line, ".reserve("@) {
        Some(idx) => mark_reserved_of(scopes, receiver_of(line, idx)),
        None => scopes,
    }
}

/// Where the identifier begins that ends before index `j`.
pub open spec fn back_ident(line: Seq<char>, j: int) -> int
    decreases j,
{
    if 0 < j <= line.len() && ident_char(line[j - 1]) {
        back_ident(line, j - 1)
    } else {
        j
    }
}

/// The first index at or after `j` that holds no ASCII blank.
pub open spec fn skip_blanks(line: Seq<char>, j: int) -> int
    decreases line.len() - j,
{
    if 0 <= j < line.len() && is_ascii_blank(line[j]) {
        skip_blanks(line, j + 1)
    } else {
        j
    }
}

/// The first index at or after `j` that holds no identifier character.
pub open spec fn skip_ident(line: Seq<char>, j: int) -> int
    decreases line.len() - j,
{
    if 0 <= j < line.len() && ident_char(line[j]) {
        skip_ident(line, j + 1)
    } else {
        j
    }
}

/// The index behind explicit type arguments at `j`: `::`, then angle
/// brackets with what they hold, with blanks between and behind them. The
/// index `j` itself where no `::` stands there.
pub open spec fn skip_turbofish(line: Seq<char>, j: int) -> int {
    if 0 <= j && j + 1 < line.len() && line[j] == ':' && line[j + 1] == ':' {
        let k = skip_blanks(line, j + 2);
        if 0 <= k < line.len() && line[k] == '<' {
            skip_blanks(line, angle_end(line, k + 1, 1).0)
        } else {
            k
        }
    } else {
        j
    }
}

/// Behind the `.` before index `j` stands a method call: a name, type
/// arguments if any, then `(`.
pub open spec fn call_follows(line: Seq<char>, j: int) -> bool {
    let name = skip_blanks(line, j);
    let open = skip_turbofish(line, skip_blanks(line, skip_ident(line, name)));
    &&& 0 <= name < line.len()
    &&& ident_start(line[name])
    &&& 0 <= open < line.len()
    &&& line[open] == '('
}

/// At index `d` stands the `.` of a method call on a variable that holds a
/// trait object.
pub open spec fn dyn_call_at(scopes: Seq<Map<Seq<char>, VarInfo>>, line: Seq<char>, d: int) -> bool {
    let start = back_ident(line, d);
    &&& 0 < d < line.len()
    &&& line[d] == '.'
    &&& 0 <= start < d
    &&& ident_start(line[start])
    &&& is_dynamic_var(scopes, line.subrange(start, d))
    &&& call_follows(line, d + 1)
}

/// The first index at or after `i` where such a call stands.
pub open spec fn dyn_call_from(scopes: Seq<Map<Seq<char>, VarInfo>>, line: Seq<char>, i: int) -> Option<
    int,
>
    decreases line.len() - i,
{
    if i < 0 || i >= line.len() {
        None
    } else if dyn_call_at(scopes, line, i) {
        Some(i)
    } else {
        dyn_call_from(scopes, line, i + 1)
    }
}

/// The first method call in `line` on a variable that holds a trait object.
pub open spec fn dynamic_dispatch_finding(
    scopes: Seq<Map<Seq<char>, VarInfo>>,
    line: Seq<char>,
) -> Option<Finding> {
    if is_skipped(line) {
        None
    } else {
        match dyn_call_from(scopes, line, 0) {
            Some(d) => Some(
                Finding { column: column_at(line, d), subject: line.subrange(back_ident(line, d), d) },
            ),
            None => None,
        }
    }
}

/// `text` calls a function that spawns a task or a thread.
pub open spec fn has_spawn_call(text: Seq<char>) -> bool {
    ||| contains_of(text, "::spawn("@)
    ||| contains_of(text, ".spawn("@)
    ||| contains_of(text, "::spawn_blocking("@)
    ||| contains_of(text, ".spawn_blocking("@)
}

/// A spawn call in `line`: the subject is the line, trimmed, the place that
/// of the first `spawn`.
pub open spec fn spawn_finding(line: Seq<char>) -> Option<Finding> {
    if !is_skipped(line) && has_spawn_call(trim_of(line)) {
        Some(Finding { column: column_of(line, find_of(line, "spawn"@)), subject: trim_of(line) })
    } else {
        None
    }
}

/// At index `start` stands `.clone(`, behind something, and what it is
/// called on is not named through a path that ends in `::`.
pub open spec fn clone_call_at(line: Seq<char>, start: int) -> bool {
    let cursor = back_ident(line, start);
    &&& 0 < start
    &&& !(cursor >= 2 && line[cursor - 1] == ':' && line[cursor - 2] == ':')
    &&& matches_at(line, ".clone("@, start)
}

/// The first `.clone` at or after `i` that is such a call.
pub open spec fn clone_call_from(line: Seq<char>, i: int) -> Option<int>
    decreases line.len() - i,
{
    match find_from(line, ".clone"@, i) {
        Some(start) => {
            if clone_call_at(line, start) {
                Some(start)
            } else if start + ".clone"@.len() <= i {
                None
            } else {
                proof {
                    if i >= 0 {
                        lemma_find_from(line, ".clone"@, i);
                    }
                }
                clone_call_from(line, start + ".clone"@.len())
            }
        },
        None => None,
    }
}

/// The first clone call in `line`; the subject is the identifier before it.
pub open spec fn clone_finding(line: Seq<char>) -> Option<Finding> {
    if is_skipped(line) {
        None
    } else {
        match clone_call_from(line, 0) {
            Some(start) => Some(
                Finding {
                    column: column_at(line, start),
                    subject: trim_of(line.subrange(back_ident(line, start), start)),
                },
            ),
            None => None,
        }
    }
}

/// The state once a detector that reports each line at most once has read a
/// line: nothing changes where `seen` holds the line already or nothing is
/// found.
pub open spec fn report_once(
    cx: ScanContext,
    st: ScanState,
    seen: Set<usize>,
    marked: Reported,
    rule: RuleView,
    line_no: usize,
    finding: Option<Finding>,
    detail: Seq<char>,
) -> ScanState {
    if seen.contains(line_no) {
        st
    } else {
        match finding {
            Some(f) => report(
                ScanState { reported: marked, ..st },
                diagnostic_of(cx, rule, line_no, f, detail),
            ),
            None => st,
        }
    }
}

pub open spec fn detect_string_concat_of(
    cx: ScanContext,
    st: ScanState,
    line: Seq<char>,
    line_no: usize,
) -> ScanState {
    report_finding(
        cx,
        st,
        cx.rules.string,
        line_no,
        string_concat_finding(st.scopes, line),
        STRING_CONCAT_DETAIL@,
    )
}

pub open spec fn detect_vector_push_of(
    cx: ScanContext,
    st: ScanState,
    line: Seq<char>,
    line_no: usize,
) -> ScanState {
    report_finding(
        cx,
        st,
        cx.rules.vec,
        line_no,
        vector_push_finding(st.scopes, line),
        VECTOR_PUSH_DETAIL@,
    )
}

pub open spec fn detect_dynamic_dispatch_of(
    cx: ScanContext,
    st: ScanState,
    line: Seq<char>,
    line_no: usize,
) -> ScanState {
    report_finding(
        cx,
        st,
        cx.rules.dynamic,
        line_no,
        dynamic_dispatch_finding(st.scopes, line),
        DYNAMIC_DETAIL@,
    )
}

pub open spec fn detect_spawn_of(
    cx: ScanContext,
    st: ScanState,
    line: Seq<char>,
    line_no: usize,
) -> ScanState {
    report_once(
        cx,
        st,
        st.reported.spawn,
        Reported { spawn: st.reported.spawn.insert(line_no), ..st.reported },
        cx.rules.concurrency,
        line_no,
        spawn_finding(line),
        SPAWN_DETAIL@,
    )
}

pub open spec fn detect_clone_of(
    cx: ScanContext,
    st: ScanState,
    line: Seq<char>,
    line_no: usize,
) -> ScanState {
    report_once(
        cx,
        st,
        st.reported.clone,
        Reported { clone: st.reported.clone.insert(line_no), ..st.reported },
        cx.rules.borrow,
        line_no,
        clone_finding(line),
        CLONE_DETAIL@,
    )
}

/* Detectors on every line */

pub const LINKED_LIST_DETAIL: &'static str = "std::collections::LinkedList hurts cache locality";

pub const LARGE_ENUM_DETAIL: &'static str = "enum variant stores a massive payload; box it";

pub const ARC_DETAIL: &'static str = "Arc wrapping !Send data adds atomic overhead";

pub const MUTEX_DETAIL: &'static str = "Mutex guarding a primitive should be an atomic";

pub const COLLECT_DETAIL: &'static str = "collect::<Vec<_>>() followed by ";

pub const BOX_DETAIL: &'static str =
    "Boxing a small Copy-sized value adds needless heap indirection";

pub const SHARED_DETAIL: &'static str = "Heap-indirection for a tiny value is unnecessary";

/// The finding that names the word `token`, at its place in `line`.
pub open spec fn token_finding(line: Seq<char>, token: Seq<char>) -> Finding {
    Finding { column: column_of(line, find_token_of(line, token)), subject: token }
}

/// The type `LinkedList` named in `line`, as a word of its own, unless the
/// line is a comment.
pub open spec fn linked_list_finding(line: Seq<char>) -> Option<Finding> {
    if starts_with_of(trim_of(line), "//"@) || find_token_of(line, "LinkedList"@) is None {
        None
    } else {
        Some(token_finding(line, "LinkedList"@))
    }
}

pub open spec fn detect_linked_list_of(
    cx: ScanContext,
    st: ScanState,
    line: Seq<char>,
    line_no: usize,
) -> ScanState {
    report_once(
        cx,
        st,
        st.reported.linked,
        Reported { linked: st.reported.linked.insert(line_no), ..st.reported },
        cx.rules.linked_list,
        line_no,
        linked_list_finding(line),
        LINKED_LIST_DETAIL@,
    )
}

/// A large array type in `line`, unless the line is a comment; the subject
/// is the line, trimmed.
pub open spec fn large_enum_finding(line: Seq<char>) -> Option<Finding> {
    if starts_with_of(trim_start_of(line), "//"@) || large_array_from(line, 0) is None {
        None
    } else {
        Some(Finding { column: 1, subject: trim_of(line) })
    }
}

pub open spec fn detect_large_enum_variant_of(
    cx: ScanContext,
    st: ScanState,
    line: Seq<char>,
    line_no: usize,
) -> ScanState {
    report_finding(cx, st, cx.rules.large_enum, line_no, large_enum_finding(line), LARGE_ENUM_DETAIL@)
}

/// A brace balance held in 32 bits: it stays at the bound that it reaches.
pub open spec fn clamped(x: int) -> int {
    if x > i32::MAX {
        i32::MAX as int
    } else if x < i32::MIN {
        i32::MIN as int
    } else {
        x
    }
}

/// The numbers of `{` and `}` in `line`, as the scanner counts them.
pub open spec fn opens_of(line: Seq<char>) -> int {
    capped(count_char(line, '{'))
}

pub open spec fn closes_of(line: Seq<char>) -> int {
    capped(count_char(line, '}'))
}

/// The state once `line` is read for enums. An enum header makes the scanner
/// wait for the `{` of the body; from the line with that `{` on the braces
/// are balanced, each line is searched for a large array, and the body ends
/// with the line on which the balance is no longer positive.
pub open spec fn handle_enum_state_of(
    cx: ScanContext,
    st: ScanState,
    line: Seq<char>,
    line_no: usize,
) -> ScanState {
    let pending = st.pending_enum || (!st.enum_active && starts_enum_decl_of(line));
    let opens = opens_of(line);
    let closes = closes_of(line);
    if pending && opens > 0 {
        let entered = ScanState {
            enum_active: opens - closes > 0,
            enum_balance: opens - closes,
            pending_enum: false,
            ..st
        };
        detect_large_enum_variant_of(cx, entered, line, line_no)
    } else if st.enum_active {
        let balance = clamped(st.enum_balance + (opens - closes));
        let inside = ScanState {
            enum_active: balance > 0,
            enum_balance: balance,
            pending_enum: pending,
            ..st
        };
        detect_large_enum_variant_of(cx, inside, line, line_no)
    } else {
        ScanState { pending_enum: pending, ..st }
    }
}

/// A shared pointer in `line` around data that cannot cross threads: the
/// generic argument of the first `Arc<`; in a line without a closed `Arc<`,
/// the argument of the first `Arc::new(`.
pub open spec fn arc_finding(line: Seq<char>) -> Option<Finding> {
    match generic_argument_of(line, "Arc"@) {
        Some(inner) => if contains_nonsend_token_of(inner) {
            Some(token_finding(line, "Arc"@))
        } else {
            None
        },
        None => match paren_argument_of(line, "Arc::new"@) {
            Some(arg) => if contains_nonsend_token_of(arg) {
                Some(token_finding(line, "Arc::new"@))
            } else {
                None
            },
            None => None,
        },
    }
}

pub open spec fn detect_arc_usage_of(
    cx: ScanContext,
    st: ScanState,
    line: Seq<char>,
    line_no: usize,
) -> ScanState {
    report_once(
        cx,
        st,
        st.reported.arc,
        Reported { arc: st.reported.arc.insert(line_no), ..st.reported },
        cx.rules.arc,
        line_no,
        arc_finding(line),
        ARC_DETAIL@,
    )
}

/// The generic argument of the first `Mutex<` in `line` is a primitive type.
pub open spec fn guards_primitive_type(line: Seq<char>) -> bool {
    match generic_argument_of(line, "Mutex"@) {
        Some(inner) => is_primitive_token_of(inner),
        None => false,
    }
}

/// The argument of the first `Mutex::new(` in `line` is a primitive literal.
pub open spec fn guards_primitive_literal(line: Seq<char>) -> bool {
    match paren_argument_of(line, "Mutex::new"@) {
        Some(arg) => is_literal_primitive_of(arg),
        None => false,
    }
}

/// A lock in `line` that guards a primitive value.
pub open spec fn mutex_finding(line: Seq<char>) -> Option<Finding> {
    if guards_primitive_type(line) || guards_primitive_literal(line) {
        Some(token_finding(line, "Mutex"@))
    } else {
        None
    }
}

/// This detector reports a line each time that it reads it.
pub open spec fn detect_mutex_primitives_of(
    cx: ScanContext,
    st: ScanState,
    line: Seq<char>,
    line_no: usize,
) -> ScanState {
    report_once(
        cx,
        st,
        Set::empty(),
        Reported { mutex: st.reported.mutex.insert(line_no), ..st.reported },
        cx.rules.mutex,
        line_no,
        mutex_finding(line),
        MUTEX_DETAIL@,
    )
}

/// A vector in `line` that is collected only to be asked one question; the
/// place is that of the first `collect`.
pub open spec fn collect_finding(line: Seq<char>) -> Option<Finding> {
    if needless_collect_suffix_of(without_spaces(line)) is Some {
        Some(Finding { column: column_of(line, find_of(line, "collect"@)), subject: "collect"@ })
    } else {
        None
    }
}

/// The detail of such a finding names the question.
pub open spec fn collect_detail(line: Seq<char>) -> Seq<char> {
    match needless_collect_suffix_of(without_spaces(line)) {
        Some(suffix) => COLLECT_DETAIL@ + suffix,
        None => COLLECT_DETAIL@,
    }
}

pub open spec fn detect_needless_collect_of(
    cx: ScanContext,
    st: ScanState,
    line: Seq<char>,
    line_no: usize,
) -> ScanState {
    report_once(
        cx,
        st,
        st.reported.collect,
        Reported { collect: st.reported.collect.insert(line_no), ..st.reported },
        cx.rules.collect,
        line_no,
        collect_finding(line),
        collect_detail(line),
    )
}

/// The argument of the first `token(` in `line` is a small value.
pub open spec fn wraps_small_value(line: Seq<char>, token: Seq<char>) -> bool {
    match paren_argument_of(line, token) {
        Some(arg) => is_small_box_target_of(trim_of(arg)),
        None => false,
    }
}

/// The argument of a shared pointer made in `line` is a small value: that of
/// the first `Rc::new(`, or of the first `Arc::new(` where no `Rc::new(` is
/// closed.
pub open spec fn shares_small_value(line: Seq<char>) -> bool {
    &&& contains_of(line, "Rc::new("@) || contains_of(line, "Arc::new("@)
    &&& if paren_argument_of(line, "Rc::new"@) is Some {
        wraps_small_value(line, "Rc::new"@)
    } else {
        wraps_small_value(line, "Arc::new"@)
    }
}

/// The constructor named for a small shared value.
pub open spec fn shared_token(line: Seq<char>) -> Seq<char> {
    if contains_of(line, "Rc::new"@) {
        "Rc::new"@
    } else {
        "Arc::new"@
    }
}

/// A small value in `line` that is put on the heap.
pub open spec fn stack_finding(line: Seq<char>) -> Option<Finding> {
    if wraps_small_value(line, "Box::new"@) {
        Some(token_finding(line, "Box::new"@))
    } else if shares_small_value(line) {
        Some(token_finding(line, shared_token(line)))
    } else {
        None
    }
}

pub open spec fn stack_detail(line: Seq<char>) -> Seq<char> {
    if wraps_small_value(line, "Box::new"@) {
        BOX_DETAIL@
    } else {
        SHARED_DETAIL@
    }
}

/// This detector reports a line each time that it reads it.
pub open spec fn detect_stack_alloc_of(
    cx: ScanContext,
    st: ScanState,
    line: Seq<char>,
    line_no: usize,
) -> ScanState {
    report_once(
        cx,
        st,
        Set::empty(),
        Reported { stack: st.reported.stack.insert(line_no), ..st.reported },
        cx.rules.stack,
        line_no,
        stack_finding(line),
        stack_detail(line),
    )
}

/* Scopes, loops and braces */

/// The trimmed line `line` begins a loop.
pub open spec fn begins_loop(line: Seq<char>) -> bool {
    starts_with_of(line, "for "@) || starts_with_of(line, "while "@) || starts_with_of(
        line,
        "loop"@,
    )
}

/// The scopes once the trimmed line `line` is read for a declaration: what it
/// declares goes into the innermost scope.
pub open spec fn declare_of(scopes: Seq<Map<Seq<char>, VarInfo>>, line: Seq<char>) -> Seq<
    Map<Seq<char>, VarInfo>,
> {
    match parse_variable_declaration_of(line) {
        Some((name, info)) => if scopes.len() > 0 {
            scopes.update(scopes.len() - 1, scopes.last().insert(name, info))
        } else {
            scopes
        },
        None => scopes,
    }
}

/// The state behind one character. `{` opens a scope, and the body of the
/// loop whose header was read; `}` closes the innermost scope, and the loop
/// whose body began at this depth; a `}` that closes nothing is passed over.
pub open spec fn brace_step(st: ScanState, c: char) -> ScanState {
    if c == '{' {
        ScanState {
            brace_depth: st.brace_depth + 1,
            scopes: st.scopes.push(Map::empty()),
            loops: if st.pending_loop {
                st.loops.push(st.brace_depth + 1)
            } else {
                st.loops
            },
            pending_loop: false,
            ..st
        }
    } else if c == '}' && st.brace_depth > 0 {
        ScanState {
            loops: if st.loops.len() > 0 && st.loops.last() == st.brace_depth {
                st.loops.drop_last()
            } else {
                st.loops
            },
            scopes: st.scopes.drop_last(),
            brace_depth: (st.brace_depth - 1) as nat,
            ..st
        }
    } else {
        st
    }
}

/// The state behind the characters of `line` from index `i` on.
pub open spec fn braces_from(st: ScanState, line: Seq<char>, i: int) -> ScanState
    decreases line.len() - i,
{
    if i < 0 || i >= line.len() {
        st
    } else {
        braces_from(brace_step(st, line[i]), line, i + 1)
    }
}

pub open spec fn process_braces_of(st: ScanState, line: Seq<char>) -> ScanState {
    braces_from(st, line, 0)
}

/* The scan */

/// The state once the detectors that need no loop have read `line`.
pub open spec fn detect_anywhere(
    cx: ScanContext,
    st: ScanState,
    line: Seq<char>,
    line_no: usize,
) -> ScanState {
    let s1 = detect_linked_list_of(cx, st, line, line_no);
    let s2 = handle_enum_state_of(cx, s1, line, line_no);
    let s3 = detect_arc_usage_of(cx, s2, line, line_no);
    let s4 = detect_mutex_primitives_of(cx, s3, line, line_no);
    let s5 = detect_needless_collect_of(cx, s4, line, line_no);
    detect_stack_alloc_of(cx, s5, line, line_no)
}

/// The state once the detectors that work inside loops have read `line`.
pub open spec fn detect_in_loop(
    cx: ScanContext,
    st: ScanState,
    line: Seq<char>,
    line_no: usize,
) -> ScanState {
    let s1 = detect_string_concat_of(cx, st, line, line_no);
    let s2 = detect_vector_push_of(cx, s1, line, line_no);
    let s3 = detect_dynamic_dispatch_of(cx, s2, line, line_no);
    let s4 = detect_spawn_of(cx, s3, line, line_no);
    detect_clone_of(cx, s4, line, line_no)
}

/// The state once a loop header and a declaration in `line` are noted.
pub open spec fn note_line(st: ScanState, line: Seq<char>) -> ScanState {
    ScanState {
        pending_loop: st.pending_loop || begins_loop(trim_of(line)),
        scopes: declare_of(st.scopes, trim_of(line)),
        ..st
    }
}

/// The state behind the line `line`, the `line_no`th of the file. The
/// detectors read the line in a fixed order; the loop detectors only where a
/// loop was open before the line; braces are counted last, so that a brace
/// of the line changes nothing of what is found in it.
#[verifier::opaque]
pub open spec fn line_step(cx: ScanContext, st: ScanState, line: Seq<char>, line_no: usize) -> ScanState {
    let s1 = note_line(detect_anywhere(cx, st, line, line_no), line);
    let s2 = if s1.loops.len() > 0 {
        detect_in_loop(cx, s1, line, line_no)
    } else {
        s1
    };
    let s3 = ScanState { scopes: track_vector_reserve_of(s2.scopes, line), ..s2 };
    process_braces_of(s3, line)
}

/// The state behind the lines `lines` from the `k`th on; lines count from 1.
pub open spec fn scan_lines(cx: ScanContext, st: ScanState, lines: Seq<Seq<char>>, k: int) -> ScanState
    decreases lines.len() - k,
{
    if k < 0 || k >= lines.len() {
        st
    } else {
        scan_lines(cx, line_step(cx, st, lines[k], (k + 1) as usize), lines, k + 1)
    }
}

/// The diagnostics of the text `source`, in the order in which one pass over
/// its lines finds them.
pub open spec fn scan_of(cx: ScanContext, source: Seq<char>) -> Seq<DiagnosticView> {
    scan_lines(cx, initial_state(), lines_of(source), 0).diagnostics
}

/* What the detectors leave alone */

/// A report changes the diagnostics, and the lines marked as reported, and
/// nothing else.
pub open spec fn same_structure(a: ScanState, b: ScanState) -> bool {
    &&& a.scopes == b.scopes
    &&& a.loops == b.loops
    &&& a.brace_depth == b.brace_depth
    &&& a.pending_loop == b.pending_loop
}

/// Up to its braces, a line leaves the number of scopes and the depth as
/// they are.
pub proof fn lemma_line_keeps_depth(cx: ScanContext, st: ScanState, line: Seq<char>, line_no: usize)
    requires
        state_wf(st),
    ensures
        ({
            let s1 = note_line(detect_anywhere(cx, st, line, line_no), line);
            let s2 = if s1.loops.len() > 0 {
                detect_in_loop(cx, s1, line, line_no)
            } else {
                s1
            };
            let s3 = ScanState { scopes: track_vector_reserve_of(s2.scopes, line), ..s2 };
            state_wf(s3)
        }),
{
    let s0 = detect_anywhere(cx, st, line, line_no);
    assert(same_structure(s0, st));
    let s1 = note_line(s0, line);
    assert(s1.scopes.len() == st.scopes.len());
    let s2 = if s1.loops.len() > 0 {
        detect_in_loop(cx, s1, line, line_no)
    } else {
        s1
    };
    assert(same_structure(s2, s1));
    match find_of(line, ".reserve("@) {
        Some(idx) => {
            lemma_mark_reserved_len(s2.scopes, receiver_of(line, idx));
        },
        None => {},
    }
}

/// Marking a sequence as reserved keeps the number of scopes.
pub proof fn lemma_mark_reserved_len(scopes: Seq<Map<Seq<char>, VarInfo>>, name: Seq<char>)
    ensures
        mark_reserved_of(scopes, name).len() == scopes.len(),
    decreases scopes.len(),
{
    if scopes.len() > 0 {
        lemma_mark_reserved_len(scopes.drop_last(), name);
    }
}

} // verus!
