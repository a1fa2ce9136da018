use perfcheck_lint::lint_source;
use perfcheck_lint::linter::byte_column;
use perfcheck_lint::linter::compose_message;
use perfcheck_lint::linter::ensure_sentence;
use perfcheck_lint::linter::FileContext;
use perfcheck_lint::registry;
use perfcheck_lint::Diagnostic;
use perfcheck_lint::RuleRegistry;

const STRING_RULE: &str = "perf_avoid_string_concat_loop";
const VEC_RULE: &str = "perf_vec_reserve_capacity";
const DYN_RULE: &str = "perf_avoid_reflection_dynamic";
const SPAWN_RULE: &str = "perf_bound_concurrency";
const CLONE_RULE: &str = "perf_borrow_instead_of_clone";
const LIST_RULE: &str = "perf_avoid_linked_list";
const ENUM_RULE: &str = "perf_large_enum_variant";
const ARC_RULE: &str = "perf_unnecessary_arc";
const LOCK_RULE: &str = "perf_atomic_for_small_lock";
const COLLECT_RULE: &str = "perf_needless_collect";
const STACK_RULE: &str = "perf_prefer_stack_alloc";

fn cs(s: &str) -> Vec<char> {
    s.chars().collect()
}

fn scan(code: &str) -> Vec<Diagnostic> {
    lint_source(code, "file.rs", &registry())
}

/// Rule, line and column of each diagnostic.
fn places(code: &str) -> Vec<(String, usize, usize)> {
    scan(code).into_iter().map(|d| (d.rule_id, d.line, d.column)).collect()
}

fn under(code: &str, rule: &str) -> Vec<(usize, usize)> {
    places(code).into_iter().filter(|p| p.0 == rule).map(|p| (p.1, p.2)).collect()
}

#[test]
fn text_growth_in_a_loop_is_reported_on_its_line() {
    let code = "fn build(items: &[String]) -> String {\n    let mut out = String::new();\n    for item in items {\n        out += item;\n    }\n    out\n}\n";
    let diags = scan(code);
    assert_eq!(diags.len(), 1);
    let d = &diags[0];
    assert_eq!(d.rule_id, STRING_RULE);
    assert_eq!(d.severity, "warning");
    assert_eq!(d.path, "file.rs");
    assert_eq!(d.line, 4);
    assert_eq!(d.column, 13);
    assert_eq!(
        d.message,
        "string concatenation in loop (\"out\"). Why: Appending to a string inside a loop reallocates and copies the buffer again and again. Fix: Reserve the capacity up front or collect the parts and join them once."
    );
}

#[test]
fn text_growth_outside_loops_is_not_reported() {
    let code = "fn f(x: &str) {\n    let mut out = String::new();\n    out += x;\n    out = out + x;\n}\n";
    assert_eq!(places(code), vec![]);
}

#[test]
fn a_line_with_two_appends_is_reported_once() {
    let code = "let mut s = String::new();\nloop {\n    s += a; s += b;\n}\n";
    assert_eq!(under(code, STRING_RULE), vec![(3, 7)]);
}

#[test]
fn text_growth_by_assignment_is_reported() {
    let code = "let mut s = String::from(\"a\");\nwhile go {\n    s = s + x;\n    s = t + x;\n    s = s;\n}\n";
    assert_eq!(under(code, STRING_RULE), vec![(3, 7)]);
}

#[test]
fn only_text_variables_count_for_text_growth() {
    let code = "let mut n = 0;\nlet mut v = Vec::new();\nfor x in xs {\n    n += x;\n    v += x;\n    unknown += x;\n}\n";
    assert_eq!(under(code, STRING_RULE), vec![]);
}

#[test]
fn a_push_without_capacity_is_reported_and_one_with_capacity_is_not() {
    let with = |decl: &str| format!("fn collect(count: usize) -> Vec<i32> {{\n    {decl}\n    for i in 0..count {{\n        data.push(i as i32);\n    }}\n    data\n}}\n");
    let code = with("let mut data = Vec::new();");
    let diags = scan(&code);
    assert_eq!(diags.len(), 1);
    assert_eq!(diags[0].rule_id, VEC_RULE);
    assert_eq!((diags[0].line, diags[0].column), (4, 13));
    assert_eq!(
        diags[0].message,
        "vector push without reserved capacity inside loop (\"data\"). Why: Pushing into a vector without reserved capacity reallocates as it grows. Fix: Create the vector with the capacity it needs or reserve before the loop."
    );
    assert_eq!(under(&with("let mut data = Vec::with_capacity(count);"), VEC_RULE), vec![]);
    assert_eq!(under(&with("let mut data = Vec::<i32>::new();"), VEC_RULE), vec![(4, 13)]);
}

#[test]
fn a_reserve_call_keeps_later_pushes_from_being_reported() {
    let code = "let mut data = Vec::new();\ndata.reserve(10);\nfor x in xs {\n    data.push(x);\n}\n";
    assert_eq!(under(code, VEC_RULE), vec![]);
    let late = "let mut data = Vec::new();\nfor x in xs {\n    data.push(x);\n    data.reserve(10);\n    data.push(x);\n}\n";
    assert_eq!(under(late, VEC_RULE), vec![(3, 9)]);
    let same_line = "let mut data = Vec::new();\nfor x in xs {\n    data.reserve(1); data.push(x);\n    data.push(x);\n}\n";
    assert_eq!(under(same_line, VEC_RULE), vec![]);
    let push_first = "let mut data = Vec::new();\nfor x in xs {\n    data.push(x); data.reserve(1);\n    data.push(x);\n}\n";
    assert_eq!(under(push_first, VEC_RULE), vec![(3, 9), (4, 9)]);
    let through_self = "let mut data = Vec::new();\nfor x in xs {\n    self.data.push(x);\n}\n";
    assert_eq!(under(through_self, VEC_RULE), vec![(3, 14)]);
}

#[test]
fn a_reserve_marks_the_innermost_sequence_of_that_name() {
    let code = "let mut v = Vec::new();\n{\n    let v = String::new();\n    v.reserve(4);\n}\nfor x in xs {\n    v.push(x);\n}\n";
    assert_eq!(under(code, VEC_RULE), vec![]);
}

#[test]
fn a_declaration_in_an_inner_scope_ends_with_the_scope() {
    let code = "let mut v = Vec::with_capacity(4);\nfor x in xs {\n    {\n        let mut v = Vec::new();\n        v.push(x);\n    }\n    v.push(x);\n}\n";
    assert_eq!(under(code, VEC_RULE), vec![(5, 10)]);
}

#[test]
fn a_call_through_a_trait_object_is_reported_and_a_static_one_is_not() {
    let code = "fn run(items: &[i32], input: &dyn Handler) {\n    let handler: &dyn Handler = input;\n    let fixed = StaticHandler;\n    for value in items {\n        fixed.handle(*value);\n        handler.handle(*value);\n    }\n}\n";
    let diags = scan(code);
    assert_eq!(diags.len(), 1);
    assert_eq!(diags[0].rule_id, DYN_RULE);
    assert_eq!((diags[0].line, diags[0].column), (6, 16));
    assert_eq!(
        diags[0].message,
        "dynamic dispatch inside loop (\"handler\"). Why: A call through a trait object cannot be inlined and costs an indirect jump on every iteration. Fix: Make the callee generic or hoist the call out of the loop."
    );
}

#[test]
fn a_dynamic_call_may_have_blanks_and_type_arguments() {
    let decl = "let h: Box<dyn T> = make();\nloop {\n";
    assert_eq!(under(&format!("{decl}    h. go ::< Vec<u8> > (1);\n}}\n"), DYN_RULE), vec![(3, 6)]);
    assert_eq!(under(&format!("{decl}    h .go();\n}}\n"), DYN_RULE), vec![]);
    assert_eq!(under(&format!("{decl}    h.go::<u8>(1);\n}}\n"), DYN_RULE), vec![(3, 6)]);
    assert_eq!(under(&format!("{decl}    x.y(); h.go();\n}}\n"), DYN_RULE), vec![(3, 13)]);
    assert_eq!(under(&format!("{decl}    h.field;\n}}\n"), DYN_RULE), vec![]);
    assert_eq!(under(&format!("{decl}    h.field.go();\n}}\n"), DYN_RULE), vec![]);
    assert_eq!(under(&format!("{decl}    oh.go();\n}}\n"), DYN_RULE), vec![]);
    assert_eq!(under(&format!("{decl}    // h.go();\n}}\n"), DYN_RULE), vec![]);
    assert_eq!(under(&format!("{decl}    h.go::<u8;\n}}\n"), DYN_RULE), vec![]);
    assert_eq!(under(&format!("{decl}    h.1();\n}}\n"), DYN_RULE), vec![]);
}

#[test]
fn a_spawn_in_a_loop_is_reported_once_for_its_line() {
    let code = "for item in items {\n    thread::spawn(move || a()); pool.spawn(b);\n}\n";
    let diags = scan(code);
    assert_eq!(diags.len(), 1);
    assert_eq!(diags[0].rule_id, SPAWN_RULE);
    assert_eq!(diags[0].severity, "error");
    assert_eq!((diags[0].line, diags[0].column), (2, 13));
    assert_eq!(
        diags[0].message,
        "spawn inside loop without concurrency bounds (\"thread::spawn(move || a()); pool.spawn(b);\"). Why: Spawning a task for every item creates unbounded concurrency that exhausts memory and scheduler time. Fix: Use a worker pool or a semaphore to limit the tasks in flight."
    );
    let others = "loop {\n    rt.spawn_blocking(f);\n    tokio::task::spawn_blocking(f);\n    respawn(f);\n    // thread::spawn(f);\n    spawn(f);\n}\n";
    assert_eq!(under(others, SPAWN_RULE), vec![(2, 8), (3, 18)]);
    assert_eq!(under("thread::spawn(f);\n", SPAWN_RULE), vec![]);
}

#[test]
fn a_clone_in_a_loop_is_reported_once_for_its_line() {
    let code = "for value in values {\n    let a = value.clone(); let b = other.clone();\n}\n";
    let diags = scan(code);
    assert_eq!(diags.len(), 1);
    assert_eq!(diags[0].rule_id, CLONE_RULE);
    assert_eq!((diags[0].line, diags[0].column), (2, 18));
    assert_eq!(
        diags[0].message,
        "clone inside loop; prefer borrowing (\"value\"). Why: Cloning inside a loop allocates and copies on every iteration. Fix: Borrow the value or move the clone out of the loop."
    );
    let others = "loop {\n    Rc::clone(&x);\n    a::b.clone();\n    x.clone_from(&y);\n    x.cloned();\n    (**v).clone().len();\n    // x.clone();\n    f(x.clone);\n    a::b.clone; c.clone()\n}\n";
    assert_eq!(under(others, CLONE_RULE), vec![(6, 10), (9, 18)]);
    assert_eq!(under("let y = x.clone();\n", CLONE_RULE), vec![]);
}

#[test]
fn a_linked_list_is_reported_anywhere_once_for_its_line() {
    let code = "use std::collections::LinkedList;\nfn f() -> LinkedList<LinkedList<u8>> {\n    // a LinkedList in a comment\n    MyLinkedList::new()\n}\n";
    let diags = scan(code);
    assert_eq!(places(code), vec![(LIST_RULE.to_string(), 1, 23), (LIST_RULE.to_string(), 2, 11)]);
    assert_eq!(
        diags[0].message,
        "std::collections::LinkedList hurts cache locality (\"LinkedList\"). Why: Linked lists scatter their nodes over the heap and defeat the cache. Fix: Use a vector or a deque."
    );
}

#[test]
fn a_large_array_in_an_enum_is_reported() {
    let code = "\nenum Payload {\n    Thin(u8),\n    Fat([u8; 2048]),\n}\nstruct Outside {\n    data: [u8; 4096],\n}\n";
    let diags = scan(code);
    assert_eq!(places(code), vec![(ENUM_RULE.to_string(), 4, 1)]);
    assert_eq!(
        diags[0].message,
        "enum variant stores a massive payload; box it (\"Fat([u8; 2048]),\"). Why: An enum is as large as its largest variant so one huge payload bloats every value. Fix: Box the large payload."
    );
    assert_eq!(under("enum E { A([u8; 128]) }\n", ENUM_RULE), vec![(1, 1)]);
    assert_eq!(under("enum E { A([u8; 127]) }\n", ENUM_RULE), vec![]);
    assert_eq!(under("pub enum E\n{\n    A([u8; 500]),\n    // B([u8; 500]),\n    C { x: [u8; 500] },\n}\nfn f(x: [u8; 500]) {}\n", ENUM_RULE), vec![(3, 1), (5, 1)]);
    assert_eq!(under("enum E {}\nfn f(x: [u8; 500]) {}\n", ENUM_RULE), vec![]);
    assert_eq!(under("enum E {\n    A {\n        x: u8,\n    },\n    B([u8; 500]),\n}\n", ENUM_RULE), vec![(5, 1)]);
}

#[test]
fn a_shared_pointer_around_single_threaded_data_is_reported() {
    let code = "fn wrap(value: RefCell<String>) -> Arc<RefCell<String>> {\n    Arc::new(value)\n}\n";
    let diags = scan(code);
    assert_eq!(places(code), vec![(ARC_RULE.to_string(), 1, 36)]);
    assert_eq!(
        diags[0].message,
        "Arc wrapping !Send data adds atomic overhead (\"Arc\"). Why: An atomically counted pointer around data that cannot cross threads pays for atomics it never needs. Fix: Use a plain reference-counted pointer."
    );
    assert_eq!(under("let a = Arc::new(RefCell::new(v));\n", ARC_RULE), vec![(1, 9)]);
    assert_eq!(under("let a: Arc<String> = Arc::new(RefCell::new(v));\n", ARC_RULE), vec![]);
    assert_eq!(under("let a: Arc<Rc<u8>> = x;\n", ARC_RULE), vec![(1, 8)]);
    assert_eq!(under("let a: Arc<Mutex<u8>> = x;\n", ARC_RULE), vec![]);
    assert_eq!(under("let a: MyArc<Cell<u8>> = x;\n", ARC_RULE), vec![(1, 1)]);
}

#[test]
fn a_lock_around_a_primitive_is_reported() {
    let code = "fn make_flag() -> Mutex<bool> {\n    Mutex::new(true)\n}\n";
    let diags = scan(code);
    assert_eq!(
        places(code),
        vec![(LOCK_RULE.to_string(), 1, 19), (LOCK_RULE.to_string(), 2, 5)]
    );
    assert_eq!(
        diags[0].message,
        "Mutex guarding a primitive should be an atomic (\"Mutex\"). Why: A lock around a single primitive value costs more than an atomic operation and can stall other threads. Fix: Use an atomic type for the value."
    );
    assert_eq!(under("let m: Mutex<Option<u64>> = x;\n", LOCK_RULE), vec![(1, 8)]);
    assert_eq!(under("let m: Mutex<Option<Option<u64>>> = x;\n", LOCK_RULE), vec![]);
    assert_eq!(under("let m: Mutex<String> = Mutex::new(flag);\n", LOCK_RULE), vec![]);
    assert_eq!(under("let m = Mutex::new(0);\n", LOCK_RULE), vec![(1, 9)]);
    assert_eq!(under("let m: Mutex<String> = Mutex::new('c');\n", LOCK_RULE), vec![(1, 8)]);
}

#[test]
fn a_needless_collect_is_reported_with_its_question() {
    let code = "items.iter().filter(|v| **v > 0).collect::<Vec<_>>().len()";
    let diags = scan(code);
    assert_eq!(diags.len(), 1);
    assert_eq!(diags[0].rule_id, COLLECT_RULE);
    assert_eq!((diags[0].line, diags[0].column), (1, 34));
    assert_eq!(
        diags[0].message,
        "collect::<Vec<_>>() followed by .len() (\"collect\"). Why: Collecting into a vector only to ask it one question allocates for nothing. Fix: Ask the iterator directly."
    );
    let spread = "    let n = it . collect :: < Vec < _ > > ( ) . is_empty ( );\n";
    let diags = scan(spread);
    assert_eq!(diags.len(), 1);
    assert_eq!((diags[0].line, diags[0].column), (1, 18));
    assert!(diags[0].message.starts_with("collect::<Vec<_>>() followed by .is_empty() (\"collect\"). Why: "));
    assert_eq!(under("let v = it.collect::<Vec<_>>();\n", COLLECT_RULE), vec![]);
    assert_eq!(under("let v = it.collect::<HashSet<_>>().len();\n", COLLECT_RULE), vec![]);
}

#[test]
fn a_small_value_on_the_heap_is_reported() {
    let code = "fn boxed_point(x: i32, y: i32) -> Box<(i32, i32)> {\n    Box::new((x, y))\n}\n";
    let diags = scan(code);
    assert_eq!(places(code), vec![(STACK_RULE.to_string(), 2, 5)]);
    assert_eq!(diags[0].severity, "info");
    assert_eq!(
        diags[0].message,
        "Boxing a small Copy-sized value adds needless heap indirection (\"Box::new\"). Why: A heap allocation for a value of a few bytes costs more than the value itself. Fix: Store the value inline."
    );
    let shared = scan("let p = Rc::new(Point { x: 1, y: 2 });\n");
    assert_eq!(shared.len(), 1);
    assert_eq!((shared[0].line, shared[0].column), (1, 9));
    assert_eq!(
        shared[0].message,
        "Heap-indirection for a tiny value is unnecessary (\"Rc::new\"). Why: A heap allocation for a value of a few bytes costs more than the value itself. Fix: Store the value inline."
    );
    let atomic = scan("let p = Arc::new(7);\n");
    assert_eq!(atomic.len(), 1);
    assert!(atomic[0].message.starts_with("Heap-indirection for a tiny value is unnecessary (\"Arc::new\")."));
    assert_eq!(under("let b = Box::new(value);\n", STACK_RULE), vec![]);
    assert_eq!(under("let b = Box::new((a, b, c));\n", STACK_RULE), vec![]);
    assert_eq!(under("let b = Box::new(big); let r = Rc::new(1);\n", STACK_RULE), vec![(1, 32)]);
    assert_eq!(under("let r = Rc::new(big); let a = Arc::new(1);\n", STACK_RULE), vec![]);
}

#[test]
fn loops_nest_and_end_with_their_braces() {
    let code = "let mut s = String::new();\nfor a in x {\n    while b {\n        s += a;\n    }\n    s += a;\n}\ns += a;\nloop {\n    s += a;\n}\n";
    assert_eq!(under(code, STRING_RULE), vec![(4, 11), (6, 7), (10, 7)]);
}

#[test]
fn the_braces_of_a_line_count_after_the_line() {
    let one_line = "let mut s = String::new();\nfor a in x { s += a; }\ns += a;\n";
    assert_eq!(under(one_line, STRING_RULE), vec![]);
    let closing = "let mut s = String::new();\nfor a in x {\n    s += a; }\ns += a;\n";
    assert_eq!(under(closing, STRING_RULE), vec![(3, 7)]);
    let header_apart = "let mut s = String::new();\nfor a in x\n{\n    s += a;\n}\n";
    assert_eq!(under(header_apart, STRING_RULE), vec![(4, 7)]);
}

#[test]
fn a_loop_header_waits_for_the_next_brace() {
    let code = "let mut s = String::new();\nloop_count += 1;\nif x {\n    s += a;\n}\n";
    assert_eq!(under(code, STRING_RULE), vec![(4, 7)]);
    let not_a_loop = "let mut s = String::new();\nformat(x);\nif x {\n    s += a;\n}\n";
    assert_eq!(under(not_a_loop, STRING_RULE), vec![]);
}

#[test]
fn unbalanced_braces_do_no_harm() {
    let closing = "}}}\nlet mut s = String::new();\nfor a in x {\n    s += a;\n}\n}\n}\nfor a in x {\n    s += a;\n";
    assert_eq!(under(closing, STRING_RULE), vec![(4, 7), (9, 7)]);
    let opening = "{{{{\nlet mut v = Vec::new();\nloop {\nv.push(1);\n";
    assert_eq!(under(opening, VEC_RULE), vec![(4, 2)]);
}

#[test]
fn columns_count_bytes() {
    let code = "let h: &dyn T = x;\nloop {\n    f(\"é€\"); h.go();\n}\n";
    assert_eq!(under(code, DYN_RULE), vec![(3, 18)]);
    let line = cs("é€😀+=");
    assert_eq!(byte_column(&line, 0), 1);
    assert_eq!(byte_column(&line, 1), 3);
    assert_eq!(byte_column(&line, 2), 6);
    assert_eq!(byte_column(&line, 3), 10);
    assert_eq!(byte_column(&line, 4), 11);
    assert_eq!(byte_column(&line, 5), 1);
    assert_eq!(byte_column(&line, 99), 1);
}

#[test]
fn lines_end_with_line_feeds_with_or_without_carriage_returns() {
    let unix = "let mut s = String::new();\nloop {\n    s += a;\n}\n";
    let dos = "let mut s = String::new();\r\nloop {\r\n    s += a;\r\n}\r\n";
    assert_eq!(places(unix), places(dos));
    assert_eq!(under(dos, STRING_RULE), vec![(3, 7)]);
}

#[test]
fn diagnostics_come_in_the_order_of_lines_and_detectors() {
    let code = "let h: Box<dyn T> = b;\nlet mut s = String::new();\nloop {\n    s += h.go(x.clone()); let l: LinkedList<Mutex<bool>> = Box::new(1); v.collect::<Vec<_>>().len(); thread::spawn(f);\n}\n";
    let found: Vec<(String, usize)> = scan(code).into_iter().map(|d| (d.rule_id, d.line)).collect();
    let expected: Vec<(String, usize)> =
        [LIST_RULE, LOCK_RULE, COLLECT_RULE, STACK_RULE, STRING_RULE, DYN_RULE, SPAWN_RULE, CLONE_RULE]
            .iter()
            .map(|rule| (rule.to_string(), 4))
            .collect();
    assert_eq!(found, expected);
}

#[test]
fn scanning_twice_gives_the_same() {
    let code = "let mut s = String::new();\nfor a in x {\n    s += a.clone();\n    let l = LinkedList::new();\n}\n";
    let registry = registry();
    let first = lint_source(code, "a.rs", &registry);
    let second = lint_source(code, "a.rs", &registry);
    assert_eq!(first, second);
    assert!(!first.is_empty());
    let elsewhere = lint_source(code, "b.rs", &RuleRegistry::global());
    assert_eq!(first.len(), elsewhere.len());
    assert!(elsewhere.iter().all(|d| d.path == "b.rs"));
}

#[test]
fn an_empty_text_gives_nothing() {
    assert_eq!(places(""), vec![]);
    assert_eq!(places("\n\n\n"), vec![]);
    assert_eq!(places("   \n// nothing\n"), vec![]);
}

#[test]
fn the_fallback_rule_stands_in_for_the_vector_rule() {
    let mut text = String::from("id\tlangs\tdescription\tcategory\tseverity\tproblem_summary\tfix_hint\n");
    for id in [
        STRING_RULE,
        "perf_preallocate_collections",
        DYN_RULE,
        SPAWN_RULE,
        CLONE_RULE,
        LIST_RULE,
        ENUM_RULE,
        ARC_RULE,
        LOCK_RULE,
        COLLECT_RULE,
        STACK_RULE,
    ] {
        text.push_str(&format!("{id}\trust\td\tc\tNote\tbecause!\tdo this?\n"));
    }
    let registry = RuleRegistry::from_tsv(&text).expect("well formed");
    assert!(registry.has_detector_rules());
    let code = "let mut v = Vec::new();\nloop {\n    v.push(1);\n}\n";
    let diags = lint_source(code, "x.rs", &registry);
    assert_eq!(diags.len(), 1);
    assert_eq!(diags[0].rule_id, "perf_preallocate_collections");
    assert_eq!(diags[0].severity, "note");
    assert_eq!(
        diags[0].message,
        "vector push without reserved capacity inside loop (\"v\"). Why: because! Fix: do this?"
    );
}

#[test]
fn sentences_end_with_a_mark() {
    let sentence = |s: &str| -> String { ensure_sentence(&cs(s)).iter().collect() };
    assert_eq!(sentence("plain"), "plain.");
    assert_eq!(sentence("  spaced  "), "spaced.");
    assert_eq!(sentence("done."), "done.");
    assert_eq!(sentence("done!"), "done!");
    assert_eq!(sentence("done? "), "done?");
    assert_eq!(sentence(""), "");
    assert_eq!(sentence("   "), "");
    let registry = registry();
    let rule = registry.rule(STRING_RULE).expect("rule");
    assert_eq!(
        compose_message(&cs("found it"), &cs("x"), rule),
        "found it (\"x\"). Why: Appending to a string inside a loop reallocates and copies the buffer again and again. Fix: Reserve the capacity up front or collect the parts and join them once."
    );
}

#[test]
fn a_context_reads_line_by_line() {
    let registry = registry();
    let mut ctx = FileContext::new("lines.rs", &registry);
    ctx.process_line(&cs("let mut s = String::new();"), 1);
    ctx.process_line(&cs("loop {"), 2);
    assert!(ctx.is_string_var(&cs("s")));
    assert!(!ctx.is_string_var(&cs("t")));
    ctx.process_line(&cs("    s += x;"), 3);
    ctx.process_line(&cs("    thread::spawn(f);"), 4);
    ctx.detect_spawn(&cs("    thread::spawn(f);"), 4);
    ctx.detect_spawn(&cs("    thread::spawn(f);"), 5);
    ctx.detect_mutex_primitives(&cs("Mutex<u8>"), 6);
    ctx.detect_mutex_primitives(&cs("Mutex<u8>"), 6);
    let found: Vec<(String, usize)> =
        ctx.into_diagnostics().into_iter().map(|d| (d.rule_id, d.line)).collect();
    assert_eq!(
        found,
        vec![
            (STRING_RULE.to_string(), 3),
            (SPAWN_RULE.to_string(), 4),
            (SPAWN_RULE.to_string(), 5),
            (LOCK_RULE.to_string(), 6),
            (LOCK_RULE.to_string(), 6),
        ]
    );
}
