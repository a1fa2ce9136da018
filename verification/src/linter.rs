//! The scanner: one pass over the lines of a file, with the scopes, loops
//! and enum bodies that it tracks and the detectors that read each line.

use std::collections::HashSet;
use vstd::prelude::*;
use crate::classify::VarInfo;
use crate::classify::parse_variable_declaration;
use crate::classify::split_assignment;
use crate::defaults::ARC_RULE;
use crate::defaults::ATOMIC_RULE;
use crate::defaults::BORROW_RULE;
use crate::defaults::COLLECT_RULE;
use crate::defaults::CONCURRENCY_RULE;
use crate::defaults::DYNAMIC_RULE;
use crate::defaults::ENUM_RULE;
use crate::defaults::LINKED_LIST_RULE;
use crate::defaults::PREALLOCATE_RULE;
use crate::defaults::STACK_RULE;
use crate::defaults::STRING_CONCAT_RULE;
use crate::defaults::VEC_RULE;
use crate::defaults::covers_detectors;
use crate::defaults::has_rule;
use crate::model::ARC_DETAIL;
use crate::model::BOX_DETAIL;
use crate::model::CLONE_DETAIL;
use crate::model::COLLECT_DETAIL;
use crate::model::DYNAMIC_DETAIL;
use crate::model::DetectorRules;
use crate::model::DiagnosticView;
use crate::model::Finding;
use crate::model::LARGE_ENUM_DETAIL;
use crate::model::LINKED_LIST_DETAIL;
use crate::model::MUTEX_DETAIL;
use crate::model::Reported;
use crate::model::SHARED_DETAIL;
use crate::model::SPAWN_DETAIL;
use crate::model::STRING_CONCAT_DETAIL;
use crate::model::ScanContext;
use crate::model::ScanState;
use crate::model::VECTOR_PUSH_DETAIL;
use crate::model::back_ident;
use crate::model::brace_step;
use crate::model::braces_from;
use crate::model::call_follows;
use crate::model::clone_call_from;
use crate::model::column_at;
use crate::model::column_of;
use crate::model::detail_of;
use crate::model::detect_anywhere;
use crate::model::detect_arc_usage_of;
use crate::model::detect_clone_of;
use crate::model::detect_dynamic_dispatch_of;
use crate::model::detect_in_loop;
use crate::model::detect_large_enum_variant_of;
use crate::model::detect_linked_list_of;
use crate::model::detect_mutex_primitives_of;
use crate::model::detect_needless_collect_of;
use crate::model::detect_spawn_of;
use crate::model::detect_stack_alloc_of;
use crate::model::detect_string_concat_of;
use crate::model::detect_vector_push_of;
use crate::model::detector_rules;
use crate::model::diagnostic_of;
use crate::model::dyn_call_from;
use crate::model::ensure_sentence_of;
use crate::model::handle_enum_state_of;
use crate::model::initial_state;
use crate::model::is_dynamic_var;
use crate::model::is_skipped;
use crate::model::is_text_var;
use crate::model::is_unreserved_vector;
use crate::model::lemma_line_keeps_depth;
use crate::model::line_step;
use crate::model::message_of;
use crate::model::note_line;
use crate::model::process_braces_of;
use crate::model::receiver_of;
use crate::model::report;
use crate::model::rule_named;
use crate::model::scan_lines;
use crate::model::scan_of;
use crate::model::skip_blanks;
use crate::model::skip_ident;
use crate::model::skip_turbofish;
use crate::model::state_wf;
use crate::model::token_finding;
use crate::model::track_vector_reserve_of;
use crate::patterns::brace_counts;
use crate::patterns::contains_nonsend_token;
use crate::patterns::extract_generic_argument;
use crate::patterns::extract_paren_argument;
use crate::patterns::find_large_array_literal;
use crate::patterns::find_needless_collect_suffix;
use crate::patterns::find_token;
use crate::patterns::is_literal_primitive;
use crate::patterns::is_primitive_token;
use crate::patterns::is_small_box_target;
use crate::patterns::skip_angles;
use crate::patterns::starts_enum_decl;
use crate::rules::Rule;
use crate::rules::RuleRegistry;
use crate::scope::Scope;
use crate::scope::lookup;
use crate::scope::lookup_of;
use crate::scope::mark_reserved;
use crate::scope::mark_reserved_of;
use crate::scope::scope_maps;
use crate::text::after_last;
use crate::text::all_within;
use crate::text::at;
use crate::text::byte_len;
use crate::text::byte_offset;
use crate::text::chars_of;
use crate::text::contains_char;
use crate::text::contains_str;
use crate::text::ends_with_char;
use crate::text::find_str;
use crate::text::find_str_from;
use crate::text::is_blank;
use crate::text::is_ident_char;
use crate::text::is_ident_start;
use crate::text::lemma_byte_len_subrange;
use crate::text::lemma_byte_len_utf8;
use crate::text::lemma_byte_offset_le;
use crate::text::line_spans;
use crate::text::lines_of;
use crate::text::matches_str_at;
use crate::text::normalized_no_ws;
use crate::text::piece;
use crate::text::pieces;
use crate::text::push_chars;
use crate::text::push_str;
use crate::text::starts_with;
use crate::text::starts_with_str;
use crate::text::string_of;
use crate::text::trim;
use crate::text::trim_end;
use crate::text::trim_start;

verus! {

/// One finding of the scanner: the rule, its severity, the message, the path
/// of the file, and the place, both counted from 1, the column in bytes.
#[derive(Debug, Clone, PartialEq, Eq)]
pub struct Diagnostic {
    pub rule_id: String,
    pub severity: String,
    pub message: String,
    pub path: String,
    pub line: usize,
    pub column: usize,
}

impl View for Diagnostic {
    type V = DiagnosticView;

    open spec fn view(&self) -> DiagnosticView {
        DiagnosticView {
            rule_id: self.rule_id@,
            severity: self.severity@,
            message: self.message@,
            path: self.path@,
            line: self.line as nat,
            column: self.column as nat,
        }
    }
}

/// The models of a list of diagnostics.
pub open spec fn diagnostic_views(ds: Seq<Diagnostic>) -> Seq<DiagnosticView> {
    Seq::new(ds.len(), |i: int| ds[i]@)
}

/* Messages */

/// `text`, trimmed, as a sentence: with a full stop behind it unless it
/// ends in `.`, `!` or `?`; empty where `text` is blank.
pub fn ensure_sentence(text: &[char]) -> (r: Vec<char>)
    ensures
        r@ == ensure_sentence_of(text@),
{
    let t = trim(text);
    let mut out: Vec<char> = Vec::with_capacity(t.len());
    push_chars(&mut out, t);
    proof {
        assert(out@ =~= t@);
    }
    if t.len() == 0 {
        return out;
    }
    if !(ends_with_char(t, '.') || ends_with_char(t, '!') || ends_with_char(t, '?')) {
        out.push('.');
    }
    out
}

/// The message of a diagnostic: what was found, why it matters, how to fix
/// it.
pub fn compose_message(detail: &[char], subject: &[char], rule: &Rule) -> (r: String)
    ensures
        r@ == message_of(detail@, subject@, rule@),
{
    let mut first: Vec<char> = Vec::new();
    push_chars(&mut first, detail);
    push_str(&mut first, " (\"");
    push_chars(&mut first, subject);
    push_str(&mut first, "\")");
    proof {
        assert(first@ =~= detail_of(detail@, subject@));
    }
    let summary = chars_of(rule.problem_summary.as_str());
    let fix = chars_of(rule.fix_hint.as_str());
    let mut out = ensure_sentence(first.as_slice());
    push_str(&mut out, " Why: ");
    let why = ensure_sentence(summary.as_slice());
    push_chars(&mut out, why.as_slice());
    push_str(&mut out, " Fix: ");
    let how = ensure_sentence(fix.as_slice());
    push_chars(&mut out, how.as_slice());
    string_of(out.as_slice())
}

/// The column, counted from 1 in bytes, of the character index `idx`.
pub fn byte_column(line: &[char], idx: usize) -> (c: usize)
    requires
        byte_len(line@) <= usize::MAX,
    ensures
        c == column_at(line@, idx as int),
{
    if idx < line.len() {
        proof {
            lemma_byte_offset_le(line@, idx as int);
        }
        byte_offset(line, idx) + 1
    } else {
        1
    }
}

/// The column of an index that a search may have found.
pub fn column_or_first(line: &[char], found: Option<usize>) -> (c: usize)
    requires
        byte_len(line@) <= usize::MAX,
    ensures
        c == column_of(line@, at(found)),
{
    match found {
        Some(idx) => byte_column(line, idx),
        None => 1,
    }
}

/* Line sets */

/// The lines that a detector has reported.
pub struct LineSet {
    lines: HashSet<usize>,
}

impl View for LineSet {
    type V = Set<usize>;

    closed spec fn view(&self) -> Set<usize> {
        self.lines@
    }
}

impl LineSet {
    pub fn new() -> (r: LineSet)
        ensures
            r@ == Set::<usize>::empty(),
    {
        LineSet { lines: HashSet::new() }
    }

    pub fn contains(&self, line: usize) -> (b: bool)
        ensures
            b == self@.contains(line),
    {
        broadcast use vstd::std_specs::hash::group_hash_axioms;

        self.lines.contains(&line)
    }

    pub fn insert(&mut self, line: usize)
        ensures
            final(self)@ == old(self)@.insert(line),
    {
        broadcast use vstd::std_specs::hash::group_hash_axioms;

        self.lines.insert(line);
    }
}

/* Scanning helpers */

/// Where the identifier begins that ends before index `j`.
pub fn ident_start_before(line: &[char], j: usize) -> (r: usize)
    requires
        j <= line@.len(),
    ensures
        r == back_ident(line@, j as int),
        r <= j,
{
    let mut k: usize = j;
    while k > 0 && is_ident_char(line[k - 1])
        invariant
            0 <= k <= j <= line@.len(),
            back_ident(line@, k as int) == back_ident(line@, j as int),
        decreases k,
    {
        k -= 1;
    }
    k
}

fn skip_blank_chars(line: &[char], j: usize) -> (r: usize)
    requires
        j <= line@.len(),
    ensures
        r == skip_blanks(line@, j as int),
        j <= r <= line@.len(),
{
    let n = line.len();
    let mut k: usize = j;
    while k < n && is_blank(line[k])
        invariant
            j <= k <= n,
            n == line@.len(),
            skip_blanks(line@, k as int) == skip_blanks(line@, j as int),
        decreases n - k,
    {
        k += 1;
    }
    k
}

fn skip_ident_chars(line: &[char], j: usize) -> (r: usize)
    requires
        j <= line@.len(),
    ensures
        r == skip_ident(line@, j as int),
        j <= r <= line@.len(),
{
    let n = line.len();
    let mut k: usize = j;
    while k < n && is_ident_char(line[k])
        invariant
            j <= k <= n,
            n == line@.len(),
            skip_ident(line@, k as int) == skip_ident(line@, j as int),
        decreases n - k,
    {
        k += 1;
    }
    k
}

fn skip_type_arguments(line: &[char], j: usize) -> (r: usize)
    requires
        j <= line@.len(),
    ensures
        r == skip_turbofish(line@, j as int),
        j <= r <= line@.len(),
{
    let n = line.len();
    if j < n && n - j > 1 && line[j] == ':' && line[j + 1] == ':' {
        let k = skip_blank_chars(line, j + 2);
        if k < n && line[k] == '<' {
            let (p, _depth) = skip_angles(line, k + 1, 1);
            skip_blank_chars(line, p)
        } else {
            k
        }
    } else {
        j
    }
}

/// Does a method call stand behind the `.` before index `j`?
fn method_call_follows(line: &[char], j: usize) -> (b: bool)
    requires
        j <= line@.len(),
    ensures
        b == call_follows(line@, j as int),
{
    let n = line.len();
    let name = skip_blank_chars(line, j);
    if name >= n || !is_ident_start(line[name]) {
        return false;
    }
    let behind = skip_blank_chars(line, skip_ident_chars(line, name));
    let open = skip_type_arguments(line, behind);
    open < n && line[open] == '('
}

/* The scan of one file */

/// The depths of the open loops, as the model has them.
pub open spec fn depths(v: Seq<usize>) -> Seq<nat> {
    Seq::new(v.len(), |i: int| v[i] as nat)
}

/// The state of the scan of one file.
pub struct FileContext<'a> {
    path: &'a str,
    scopes: Vec<Scope>,
    loops: Vec<usize>,
    brace_depth: usize,
    pending_loop: bool,
    diagnostics: Vec<Diagnostic>,
    string_rule: &'a Rule,
    vec_rule: &'a Rule,
    dyn_rule: &'a Rule,
    concurrency_rule: &'a Rule,
    borrow_rule: &'a Rule,
    linked_list_rule: &'a Rule,
    enum_rule: &'a Rule,
    arc_rule: &'a Rule,
    mutex_rule: &'a Rule,
    collect_rule: &'a Rule,
    stack_rule: &'a Rule,
    enum_active: bool,
    enum_balance: i32,
    pending_enum: bool,
    reported_spawn_lines: LineSet,
    reported_clone_lines: LineSet,
    reported_linked_lines: LineSet,
    reported_arc_lines: LineSet,
    reported_mutex_lines: LineSet,
    reported_collect_lines: LineSet,
    reported_stack_lines: LineSet,
}

impl<'a> View for FileContext<'a> {
    type V = ScanState;

    closed spec fn view(&self) -> ScanState {
        ScanState {
            scopes: scope_maps(self.scopes@),
            loops: depths(self.loops@),
            brace_depth: self.brace_depth as nat,
            pending_loop: self.pending_loop,
            enum_active: self.enum_active,
            enum_balance: self.enum_balance as int,
            pending_enum: self.pending_enum,
            reported: Reported {
                spawn: self.reported_spawn_lines@,
                clone: self.reported_clone_lines@,
                linked: self.reported_linked_lines@,
                arc: self.reported_arc_lines@,
                mutex: self.reported_mutex_lines@,
                collect: self.reported_collect_lines@,
                stack: self.reported_stack_lines@,
            },
            diagnostics: diagnostic_views(self.diagnostics@),
        }
    }
}

/// The rule of the catalog with the identifier `id`.
fn required<'a>(registry: &'a RuleRegistry, id: &str) -> (r: &'a Rule)
    requires
        has_rule(registry@, id@),
    ensures
        r@ == rule_named(registry@, id@),
{
    match registry.rule(id) {
        Some(rule) => rule,
        None => vstd::pervasive::unreached(),
    }
}

impl<'a> FileContext<'a> {
    /// The path and the rules that diagnostics are made with.
    pub closed spec fn context(&self) -> ScanContext {
        ScanContext {
            path: self.path@,
            rules: DetectorRules {
                string: self.string_rule@,
                vec: self.vec_rule@,
                dynamic: self.dyn_rule@,
                concurrency: self.concurrency_rule@,
                borrow: self.borrow_rule@,
                linked_list: self.linked_list_rule@,
                large_enum: self.enum_rule@,
                arc: self.arc_rule@,
                mutex: self.mutex_rule@,
                collect: self.collect_rule@,
                stack: self.stack_rule@,
            },
        }
    }

    /// The state before the first line of the file at `path`, with the rules
    /// of the detectors taken from `registry`.
    pub fn new(path: &'a str, registry: &'a RuleRegistry) -> (r: FileContext<'a>)
        requires
            covers_detectors(registry@),
        ensures
            r@ == initial_state(),
            r.context() == (ScanContext { path: path@, rules: detector_rules(registry@) }),
    {
        let vec_rule = match registry.rule(VEC_RULE) {
            Some(rule) => rule,
            None => required(registry, PREALLOCATE_RULE),
        };
        let mut scopes: Vec<Scope> = Vec::new();
        scopes.push(Scope::new());
        let ctx = FileContext {
            path,
            scopes,
            loops: Vec::new(),
            brace_depth: 0,
            pending_loop: false,
            diagnostics: Vec::new(),
            string_rule: required(registry, STRING_CONCAT_RULE),
            vec_rule,
            dyn_rule: required(registry, DYNAMIC_RULE),
            concurrency_rule: required(registry, CONCURRENCY_RULE),
            borrow_rule: required(registry, BORROW_RULE),
            linked_list_rule: required(registry, LINKED_LIST_RULE),
            enum_rule: required(registry, ENUM_RULE),
            arc_rule: required(registry, ARC_RULE),
            mutex_rule: required(registry, ATOMIC_RULE),
            collect_rule: required(registry, COLLECT_RULE),
            stack_rule: required(registry, STACK_RULE),
            enum_active: false,
            enum_balance: 0,
            pending_enum: false,
            reported_spawn_lines: LineSet::new(),
            reported_clone_lines: LineSet::new(),
            reported_linked_lines: LineSet::new(),
            reported_arc_lines: LineSet::new(),
            reported_mutex_lines: LineSet::new(),
            reported_collect_lines: LineSet::new(),
            reported_stack_lines: LineSet::new(),
        };
        proof {
            assert(ctx@.scopes =~= initial_state().scopes);
            assert(ctx@.loops =~= initial_state().loops);
            assert(ctx@.diagnostics =~= initial_state().diagnostics);
        }
        ctx
    }

    /// The diagnostics of the scan, in the order in which they were found.
    pub fn into_diagnostics(self) -> (r: Vec<Diagnostic>)
        ensures
            diagnostic_views(r@) == self@.diagnostics,
    {
        self.diagnostics
    }

    /// The class of `name` in the innermost scope that declares it.
    pub fn lookup_var(&self, name: &[char]) -> (r: Option<VarInfo>)
        ensures
            r == lookup_of(self@.scopes, name@),
    {
        lookup(&self.scopes, name)
    }

    pub fn is_string_var(&self, name: &[char]) -> (b: bool)
        ensures
            b == is_text_var(self@.scopes, name@),
    {
        match self.lookup_var(name) {
            Some(VarInfo::Text) => true,
            _ => false,
        }
    }

    pub fn is_vector_without_capacity(&self, name: &[char]) -> (b: bool)
        ensures
            b == is_unreserved_vector(self@.scopes, name@),
    {
        match self.lookup_var(name) {
            Some(VarInfo::Vector { reserved }) => !reserved,
            _ => false,
        }
    }

    pub fn is_dynamic_var(&self, name: &[char]) -> (b: bool)
        ensures
            b == is_dynamic_var(self@.scopes, name@),
    {
        match self.lookup_var(name) {
            Some(VarInfo::DynamicDispatch) => true,
            _ => false,
        }
    }

    /// Marks the sequence `name` as reserved in the innermost scope that
    /// declares it as a sequence.
    pub fn mark_vector_reserved(&mut self, name: &[char])
        ensures
            final(self)@ == (ScanState {
                scopes: mark_reserved_of(old(self)@.scopes, name@),
                ..old(self)@
            }),
            final(self).context() == old(self).context(),
    {
        mark_reserved(&mut self.scopes, name);
    }

    /// Adds the diagnostic for a finding under `rule`.
    pub fn push_diag(
        &mut self,
        line: usize,
        column: usize,
        subject: &[char],
        rule: &Rule,
        detail: &[char],
    )
        ensures
            final(self)@ == report(
                old(self)@,
                diagnostic_of(
                    old(self).context(),
                    rule@,
                    line,
                    Finding { column: column as nat, subject: subject@ },
                    detail@,
                ),
            ),
            final(self).context() == old(self).context(),
    {
        let diagnostic = Diagnostic {
            rule_id: rule.id.clone(),
            severity: rule.severity.clone(),
            message: compose_message(detail, subject, rule),
            path: self.path.to_owned(),
            line,
            column,
        };
        let ghost before = diagnostic_views(self.diagnostics@);
        self.diagnostics.push(diagnostic);
        proof {
            assert(diagnostic_views(self.diagnostics@) =~= before.push(diagnostic@));
        }
    }
}

/// The receiver of the method call whose `.` stands at index `idx`.
fn receiver(line: &[char], idx: usize) -> (r: &[char])
    requires
        idx <= line@.len(),
    ensures
        r@ == receiver_of(line@, idx as int),
{
    let target = trim_end(vstd::slice::slice_subrange(line, 0, idx));
    trim(after_last(target, '.'))
}

impl<'a> FileContext<'a> {
    /* Detectors inside loops */

    /// Reports a text variable that grows in the line.
    pub fn detect_string_concat(&mut self, raw_line: &[char], line_no: usize)
        requires
            byte_len(raw_line@) <= usize::MAX,
        ensures
            final(self)@ == detect_string_concat_of(
                old(self).context(),
                old(self)@,
                raw_line@,
                line_no,
            ),
            final(self).context() == old(self).context(),
    {
        match find_str(raw_line, "+=") {
            Some(idx) => {
                let left = trim(vstd::slice::slice_subrange(raw_line, 0, idx));
                if self.is_string_var(left) {
                    let detail = chars_of(STRING_CONCAT_DETAIL);
                    self.push_diag(
                        line_no,
                        byte_column(raw_line, idx),
                        left,
                        self.string_rule,
                        detail.as_slice(),
                    );
                }
                return ;
            },
            None => {},
        }
        match split_assignment(raw_line) {
            Some((lhs, rhs)) => {
                let lhs_trim = trim(lhs);
                if !self.is_string_var(lhs_trim) {
                    return ;
                }
                let rhs_trim = trim_start(rhs);
                if starts_with(rhs_trim, lhs_trim) && contains_char(
                    rhs_trim,
                    '+',
                ) {
                    let detail = chars_of(STRING_CONCAT_DETAIL);
                    self.push_diag(
                        line_no,
                        byte_column(raw_line, lhs.len()),
                        lhs_trim,
                        self.string_rule,
                        detail.as_slice(),
                    );
                }
            },
            None => {},
        }
    }

    /// Reports a push into a sequence without reserved capacity.
    pub fn detect_vector_push(&mut self, raw_line: &[char], line_no: usize)
        requires
            byte_len(raw_line@) <= usize::MAX,
        ensures
            final(self)@ == detect_vector_push_of(
                old(self).context(),
                old(self)@,
                raw_line@,
                line_no,
            ),
            final(self).context() == old(self).context(),
    {
        match find_str(raw_line, ".push(") {
            Some(idx) => {
                let var = receiver(raw_line, idx);
                if self.is_vector_without_capacity(var) {
                    let detail = chars_of(VECTOR_PUSH_DETAIL);
                    self.push_diag(
                        line_no,
                        byte_column(raw_line, idx),
                        var,
                        self.vec_rule,
                        detail.as_slice(),
                    );
                }
            },
            None => {},
        }
    }

    /// Notes a `reserve` call: its receiver counts as reserved from here on.
    pub fn track_vector_reserve(&mut self, raw_line: &[char])
        ensures
            final(self)@ == (ScanState {
                scopes: track_vector_reserve_of(old(self)@.scopes, raw_line@),
                ..old(self)@
            }),
            final(self).context() == old(self).context(),
    {
        match find_str(raw_line, ".reserve(") {
            Some(idx) => {
                let var = receiver(raw_line, idx);
                self.mark_vector_reserved(var);
            },
            None => {},
        }
    }

    /// Reports a method call on a variable that holds a trait object.
    pub fn detect_dynamic_dispatch(&mut self, raw_line: &[char], line_no: usize)
        requires
            byte_len(raw_line@) <= usize::MAX,
        ensures
            final(self)@ == detect_dynamic_dispatch_of(
                old(self).context(),
                old(self)@,
                raw_line@,
                line_no,
            ),
            final(self).context() == old(self).context(),
    {
        let trimmed = trim(raw_line);
        if trimmed.len() == 0 || starts_with_str(trimmed, "//") {
            return ;
        }
        let n = raw_line.len();
        let mut d: usize = 0;
        while d < n
            invariant
                0 <= d <= n,
                n == raw_line@.len(),
                byte_len(raw_line@) <= usize::MAX,
                !is_skipped(raw_line@),
                *self == *old(self),
                dyn_call_from(self@.scopes, raw_line@, d as int) == dyn_call_from(
                    self@.scopes,
                    raw_line@,
                    0,
                ),
            decreases n - d,
        {
            if d > 0 && raw_line[d] == '.' {
                let start = ident_start_before(raw_line, d);
                if start < d && is_ident_start(raw_line[start]) {
                    let ident = vstd::slice::slice_subrange(raw_line, start, d);
                    if self.is_dynamic_var(ident) && method_call_follows(raw_line, d + 1) {
                        let detail = chars_of(DYNAMIC_DETAIL);
                        self.push_diag(
                            line_no,
                            byte_column(raw_line, d),
                            ident,
                            self.dyn_rule,
                            detail.as_slice(),
                        );
                        return ;
                    }
                }
            }
            d += 1;
        }
    }

    /// Reports a spawn call, once for each line.
    pub fn detect_spawn(&mut self, raw_line: &[char], line_no: usize)
        requires
            byte_len(raw_line@) <= usize::MAX,
        ensures
            final(self)@ == detect_spawn_of(
                old(self).context(),
                old(self)@,
                raw_line@,
                line_no,
            ),
            final(self).context() == old(self).context(),
    {
        if self.reported_spawn_lines.contains(line_no) {
            return ;
        }
        let trimmed = trim(raw_line);
        if trimmed.len() == 0 || starts_with_str(trimmed, "//") {
            return ;
        }
        if contains_str(trimmed, "::spawn(") || contains_str(
            trimmed,
            ".spawn(",
        ) || contains_str(trimmed, "::spawn_blocking(") || contains_str(
            trimmed,
            ".spawn_blocking(",
        ) {
            self.reported_spawn_lines.insert(line_no);
            let detail = chars_of(SPAWN_DETAIL);
            self.push_diag(
                line_no,
                column_or_first(raw_line, find_str(raw_line, "spawn")),
                trimmed,
                self.concurrency_rule,
                detail.as_slice(),
            );
        }
    }

    /// Reports a clone call, once for each line.
    pub fn detect_clone(&mut self, raw_line: &[char], line_no: usize)
        requires
            byte_len(raw_line@) <= usize::MAX,
        ensures
            final(self)@ == detect_clone_of(
                old(self).context(),
                old(self)@,
                raw_line@,
                line_no,
            ),
            final(self).context() == old(self).context(),
    {
        if self.reported_clone_lines.contains(line_no) {
            return ;
        }
        let trimmed = trim(raw_line);
        if trimmed.len() == 0 || starts_with_str(trimmed, "//") {
            return ;
        }
        let n = raw_line.len();
        let step = ".clone".unicode_len();
        proof {
            reveal_strlit(".clone");
        }
        let mut index: usize = 0;
        loop
            invariant
                0 <= index <= n,
                n == raw_line@.len(),
                step == ".clone"@.len(),
                step > 0,
                byte_len(raw_line@) <= usize::MAX,
                !is_skipped(raw_line@),
                !self@.reported.clone.contains(line_no),
                *self == *old(self),
                clone_call_from(raw_line@, index as int) == clone_call_from(raw_line@, 0),
            decreases n - index,
        {
            let start = match find_str_from(raw_line, ".clone", index) {
                Some(start) => start,
                None => {
                    return ;
                },
            };
            let cursor = ident_start_before(raw_line, start);
            let qualified = cursor >= 2 && raw_line[cursor - 1] == ':' && raw_line[cursor - 2]
                == ':';
            if start > 0 && !qualified && matches_str_at(raw_line, ".clone(", start) {
                self.reported_clone_lines.insert(line_no);
                let detail = chars_of(CLONE_DETAIL);
                self.push_diag(
                    line_no,
                    byte_column(raw_line, start),
                    trim(vstd::slice::slice_subrange(raw_line, cursor, start)),
                    self.borrow_rule,
                    detail.as_slice(),
                );
                return ;
            }
            index = start + step;
        }
    }
}

impl<'a> FileContext<'a> {
    /* Detectors on every line */

    /// Reports a linked list named in the line, once for each line.
    pub fn detect_linked_list(&mut self, raw_line: &[char], line_no: usize)
        requires
            byte_len(raw_line@) <= usize::MAX,
        ensures
            final(self)@ == detect_linked_list_of(
                old(self).context(),
                old(self)@,
                raw_line@,
                line_no,
            ),
            final(self).context() == old(self).context(),
    {
        if self.reported_linked_lines.contains(line_no) {
            return ;
        }
        let trimmed = trim(raw_line);
        if starts_with_str(trimmed, "//") {
            return ;
        }
        match find_token(raw_line, "LinkedList") {
            Some(idx) => {
                self.reported_linked_lines.insert(line_no);
                let subject = chars_of("LinkedList");
                let detail = chars_of(LINKED_LIST_DETAIL);
                self.push_diag(
                    line_no,
                    byte_column(raw_line, idx),
                    subject.as_slice(),
                    self.linked_list_rule,
                    detail.as_slice(),
                );
            },
            None => {},
        }
    }

    /// Follows enum bodies, and reports large arrays in them.
    pub fn handle_enum_state(&mut self, raw_line: &[char], line_no: usize)
        ensures
            final(self)@ == handle_enum_state_of(
                old(self).context(),
                old(self)@,
                raw_line@,
                line_no,
            ),
            final(self).context() == old(self).context(),
    {
        if !self.pending_enum && !self.enum_active && starts_enum_decl(raw_line) {
            self.pending_enum = true;
        }
        let (opens, closes) = brace_counts(raw_line);
        if self.pending_enum && opens > 0 {
            self.enum_active = true;
            self.enum_balance = opens - closes;
            self.pending_enum = false;
        } else if self.enum_active {
            let sum: i64 = self.enum_balance as i64 + (opens as i64 - closes as i64);
            self.enum_balance = if sum > i32::MAX as i64 {
                i32::MAX
            } else if sum < i32::MIN as i64 {
                i32::MIN
            } else {
                sum as i32
            };
        }
        if self.enum_active {
            self.detect_large_enum_variant(raw_line, line_no);
            if self.enum_balance <= 0 {
                self.enum_active = false;
            }
        }
    }

    /// Reports a large array in the line of an enum body.
    pub fn detect_large_enum_variant(&mut self, raw_line: &[char], line_no: usize)
        ensures
            final(self)@ == detect_large_enum_variant_of(
                old(self).context(),
                old(self)@,
                raw_line@,
                line_no,
            ),
            final(self).context() == old(self).context(),
    {
        if starts_with_str(trim_start(raw_line), "//") {
            return ;
        }
        if find_large_array_literal(raw_line).is_some() {
            let detail = chars_of(LARGE_ENUM_DETAIL);
            self.push_diag(line_no, 1, trim(raw_line), self.enum_rule, detail.as_slice());
        }
    }

    /// Adds the diagnostic that names the word `token`.
    fn push_token_diag(
        &mut self,
        raw_line: &[char],
        line_no: usize,
        token: &str,
        rule: &Rule,
        detail: &str,
    )
        requires
            byte_len(raw_line@) <= usize::MAX,
        ensures
            final(self)@ == report(
                old(self)@,
                diagnostic_of(
                    old(self).context(),
                    rule@,
                    line_no,
                    token_finding(raw_line@, token@),
                    detail@,
                ),
            ),
            final(self).context() == old(self).context(),
    {
        let subject = chars_of(token);
        let text = chars_of(detail);
        self.push_diag(
            line_no,
            column_or_first(raw_line, find_token(raw_line, token)),
            subject.as_slice(),
            rule,
            text.as_slice(),
        );
    }

    /// Reports a shared pointer around data that cannot cross threads, once
    /// for each line.
    pub fn detect_arc_usage(&mut self, raw_line: &[char], line_no: usize)
        requires
            byte_len(raw_line@) <= usize::MAX,
        ensures
            final(self)@ == detect_arc_usage_of(
                old(self).context(),
                old(self)@,
                raw_line@,
                line_no,
            ),
            final(self).context() == old(self).context(),
    {
        if self.reported_arc_lines.contains(line_no) {
            return ;
        }
        match extract_generic_argument(raw_line, "Arc") {
            Some(inner) => {
                if contains_nonsend_token(inner) {
                    self.reported_arc_lines.insert(line_no);
                    self.push_token_diag(raw_line, line_no, "Arc", self.arc_rule, ARC_DETAIL);
                }
            },
            None => match extract_paren_argument(raw_line, "Arc::new") {
                Some(arg) => {
                    if contains_nonsend_token(arg) {
                        self.reported_arc_lines.insert(line_no);
                        self.push_token_diag(
                            raw_line,
                            line_no,
                            "Arc::new",
                            self.arc_rule,
                            ARC_DETAIL,
                        );
                    }
                },
                None => {},
            },
        }
    }

    /// Reports a lock that guards a primitive value.
    pub fn detect_mutex_primitives(&mut self, raw_line: &[char], line_no: usize)
        requires
            byte_len(raw_line@) <= usize::MAX,
        ensures
            final(self)@ == detect_mutex_primitives_of(
                old(self).context(),
                old(self)@,
                raw_line@,
                line_no,
            ),
            final(self).context() == old(self).context(),
    {
        let mut flagged = match extract_generic_argument(raw_line, "Mutex") {
            Some(inner) => is_primitive_token(inner),
            None => false,
        };
        if !flagged {
            flagged = match extract_paren_argument(raw_line, "Mutex::new") {
                Some(arg) => is_literal_primitive(arg),
                None => false,
            };
        }
        if flagged {
            self.reported_mutex_lines.insert(line_no);
            self.push_token_diag(raw_line, line_no, "Mutex", self.mutex_rule, MUTEX_DETAIL);
        }
    }

    /// Reports a vector that is collected only to be asked one question,
    /// once for each line.
    pub fn detect_needless_collect(&mut self, raw_line: &[char], line_no: usize)
        requires
            byte_len(raw_line@) <= usize::MAX,
        ensures
            final(self)@ == detect_needless_collect_of(
                old(self).context(),
                old(self)@,
                raw_line@,
                line_no,
            ),
            final(self).context() == old(self).context(),
    {
        if self.reported_collect_lines.contains(line_no) {
            return ;
        }
        let collapsed = normalized_no_ws(raw_line);
        match find_needless_collect_suffix(collapsed.as_slice()) {
            Some(suffix) => {
                self.reported_collect_lines.insert(line_no);
                let col = column_or_first(raw_line, find_str(raw_line, "collect"));
                let mut detail = chars_of(COLLECT_DETAIL);
                push_str(&mut detail, suffix);
                let subject = chars_of("collect");
                self.push_diag(
                    line_no,
                    col,
                    subject.as_slice(),
                    self.collect_rule,
                    detail.as_slice(),
                );
            },
            None => {},
        }
    }

    /// Reports a small value that is put on the heap.
    pub fn detect_stack_alloc(&mut self, raw_line: &[char], line_no: usize)
        requires
            byte_len(raw_line@) <= usize::MAX,
        ensures
            final(self)@ == detect_stack_alloc_of(
                old(self).context(),
                old(self)@,
                raw_line@,
                line_no,
            ),
            final(self).context() == old(self).context(),
    {
        match extract_paren_argument(raw_line, "Box::new") {
            Some(arg) => {
                if is_small_box_target(trim(arg)) {
                    self.reported_stack_lines.insert(line_no);
                    self.push_token_diag(raw_line, line_no, "Box::new", self.stack_rule, BOX_DETAIL);
                    return ;
                }
            },
            None => {},
        }
        if contains_str(raw_line, "Rc::new(") || contains_str(
            raw_line,
            "Arc::new(",
        ) {
            let found = match extract_paren_argument(raw_line, "Rc::new") {
                Some(arg) => Some(arg),
                None => extract_paren_argument(raw_line, "Arc::new"),
            };
            match found {
                Some(arg) => {
                    if is_small_box_target(trim(arg)) {
                        self.reported_stack_lines.insert(line_no);
                        let token = if contains_str(raw_line, "Rc::new") {
                            "Rc::new"
                        } else {
                            "Arc::new"
                        };
                        self.push_token_diag(
                            raw_line,
                            line_no,
                            token,
                            self.stack_rule,
                            SHARED_DETAIL,
                        );
                    }
                },
                None => {},
            }
        }
    }
}

impl<'a> FileContext<'a> {
    /* Lines */

    /// Counts the braces of the line: each `{` opens a scope, and the body of
    /// a loop whose header was read; each `}` closes the innermost scope.
    pub fn process_braces(&mut self, raw_line: &[char])
        requires
            state_wf(old(self)@),
        ensures
            final(self)@ == process_braces_of(old(self)@, raw_line@),
            state_wf(final(self)@),
            final(self).context() == old(self).context(),
    {
        let n = raw_line.len();
        let mut i: usize = 0;
        while i < n
            invariant
                0 <= i <= n,
                n == raw_line@.len(),
                state_wf(self@),
                self.context() == old(self).context(),
                braces_from(self@, raw_line@, i as int)
                    == process_braces_of(old(self)@, raw_line@),
            decreases n - i,
        {
            let c = raw_line[i];
            let ghost before = self@;
            if c == '{' {
                self.scopes.push(Scope::new());
                let open = self.scopes.len();
                self.brace_depth += 1;
                if self.pending_loop {
                    self.loops.push(self.brace_depth);
                    self.pending_loop = false;
                }
                proof {
                    let after = brace_step(before, c);
                    assert(self@.scopes =~= after.scopes);
                    assert(self@.loops =~= after.loops);
                    assert(self@ == after);
                }
            } else if c == '}' {
                if self.brace_depth > 0 {
                    let m = self.loops.len();
                    if m > 0 && self.loops[m - 1] == self.brace_depth {
                        self.loops.pop();
                    }
                    self.scopes.pop();
                    self.brace_depth -= 1;
                    proof {
                        let after = brace_step(before, c);
                        assert(self@.scopes =~= after.scopes);
                        assert(self@.loops =~= after.loops);
                        assert(self@ == after);
                    }
                }
            }
            i += 1;
        }
    }

    /// Notes a loop header and a declaration in the line.
    fn note_line(&mut self, raw_line: &[char])
        ensures
            final(self)@ == note_line(old(self)@, raw_line@),
            final(self).context() == old(self).context(),
    {
        let line = trim(raw_line);
        if starts_with_str(line, "for ") || starts_with_str(line, "while ")
            || starts_with_str(line, "loop") {
            self.pending_loop = true;
        }
        match parse_variable_declaration(line) {
            Some((name, info)) => {
                let n = self.scopes.len();
                if n > 0 {
                    self.scopes[n - 1].insert(name, info);
                    proof {
                        let scopes = old(self)@.scopes;
                        assert(self@.scopes =~= scopes.update(
                            scopes.len() - 1,
                            scopes.last().insert(name@, info),
                        ));
                    }
                }
            },
            None => {},
        }
    }

    /// Reads the line with the detectors that need no loop.
    fn detect_anywhere(&mut self, raw_line: &[char], line_no: usize)
        requires
            byte_len(raw_line@) <= usize::MAX,
        ensures
            final(self)@ == detect_anywhere(
                old(self).context(),
                old(self)@,
                raw_line@,
                line_no,
            ),
            final(self).context() == old(self).context(),
    {
        self.detect_linked_list(raw_line, line_no);
        self.handle_enum_state(raw_line, line_no);
        self.detect_arc_usage(raw_line, line_no);
        self.detect_mutex_primitives(raw_line, line_no);
        self.detect_needless_collect(raw_line, line_no);
        self.detect_stack_alloc(raw_line, line_no);
    }

    /// Reads the line with the detectors that work inside loops.
    fn detect_in_loop(&mut self, raw_line: &[char], line_no: usize)
        requires
            byte_len(raw_line@) <= usize::MAX,
        ensures
            final(self)@ == detect_in_loop(
                old(self).context(),
                old(self)@,
                raw_line@,
                line_no,
            ),
            final(self).context() == old(self).context(),
    {
        self.detect_string_concat(raw_line, line_no);
        self.detect_vector_push(raw_line, line_no);
        self.detect_dynamic_dispatch(raw_line, line_no);
        self.detect_spawn(raw_line, line_no);
        self.detect_clone(raw_line, line_no);
    }

    /// Reads one line, the `line_no`th of the file.
    pub fn process_line(&mut self, raw_line: &[char], line_no: usize)
        requires
            state_wf(old(self)@),
            byte_len(raw_line@) <= usize::MAX,
        ensures
            final(self)@ == line_step(
                old(self).context(),
                old(self)@,
                raw_line@,
                line_no,
            ),
            state_wf(final(self)@),
            final(self).context() == old(self).context(),
    {
        proof {
            reveal(line_step);
        }
        self.detect_anywhere(raw_line, line_no);
        self.note_line(raw_line);
        if self.loops.len() > 0 {
            self.detect_in_loop(raw_line, line_no);
        }
        self.track_vector_reserve(raw_line);
        proof {
            lemma_line_keeps_depth(
                old(self).context(),
                old(self)@,
                raw_line@,
                line_no,
            );
        }
        self.process_braces(raw_line);
    }

    /// Reads the lines of `source`, counted from 1.
    pub fn process(&mut self, source: &[char])
        requires
            state_wf(old(self)@),
            byte_len(source@) <= usize::MAX,
        ensures
            final(self)@ == scan_lines(
                old(self).context(),
                old(self)@,
                lines_of(source@),
                0,
            ),
            state_wf(final(self)@),
            final(self).context() == old(self).context(),
    {
        let spans = line_spans(source);
        let ghost lines = lines_of(source@);
        let ghost cx = self.context();
        let mut k: usize = 0;
        while k < spans.len()
            invariant
                0 <= k <= spans@.len(),
                all_within(spans@, source@.len()),
                pieces(source@, spans@) == lines,
                lines == lines_of(source@),
                byte_len(source@) <= usize::MAX,
                state_wf(self@),
                self.context() == cx,
                cx == old(self).context(),
                scan_lines(cx, self@, lines, k as int) == scan_lines(
                    cx,
                    old(self)@,
                    lines,
                    0,
                ),
            decreases spans@.len() - k,
        {
            let raw_line = piece(source, &spans[k]);
            proof {
                assert(lines[k as int] == raw_line@);
                lemma_byte_len_subrange(
                    source@,
                    spans@[k as int].start as int,
                    spans@[k as int].end as int,
                );
            }
            self.process_line(raw_line, k + 1);
            k += 1;
        }
    }
}

/// The diagnostics of the text `source` of the file at `path`, under the
/// rules of `registry`, in the order in which one pass over the lines finds
/// them.
#[must_use]
pub fn lint_source(source: &str, path: &str, registry: &RuleRegistry) -> (r: Vec<Diagnostic>)
    requires
        covers_detectors(registry@),
    ensures
        diagnostic_views(r@) == scan_of(
            ScanContext { path: path@, rules: detector_rules(registry@) },
            source@,
        ),
{
    let text = chars_of(source);
    let bytes = source.as_bytes();
    let size = bytes.len();
    proof {
        lemma_byte_len_utf8(source@);
    }
    let mut ctx = FileContext::new(path, registry);
    ctx.process(text.as_slice());
    ctx.into_diagnostics()
}

} // verus!
