use std::collections::HashSet;

use perfcheck_lint::lint_source;
use perfcheck_lint::registry;

/// Sample source with one instance of each anti-pattern.
const VIOLATIONS: &str = r#"use std::cell::RefCell;
use std::collections::LinkedList;
use std::rc::Rc;
use std::sync::{Arc, Mutex};
use std::thread;

// perf_avoid_string_concat_loop
pub fn string_concat(items: &[String]) -> String {
    let mut out = String::new();
    for item in items {
        out += item; // trigger: perf_avoid_string_concat_loop
    }
    out
}

// perf_vec_reserve_capacity / perf_preallocate_collections
pub fn vec_push(values: &[i32]) -> Vec<i32> {
    let mut data = Vec::new();
    for value in values {
        data.push(*value); // trigger: perf_vec_reserve_capacity
    }
    data
}

// perf_avoid_reflection_dynamic
pub trait Handler {
    fn handle(&self, value: i32);
}

pub fn dyn_dispatch(items: &[i32], handler: &dyn Handler) {
    let handler_ref: &dyn Handler = handler;
    for value in items {
        handler_ref.handle(*value); // trigger: perf_avoid_reflection_dynamic
    }
}

// perf_bound_concurrency
pub fn spawn_all(values: &[i32]) {
    for value in values {
        thread::spawn(move || println!("{}", value)); // trigger: perf_bound_concurrency
    }
}

// perf_borrow_instead_of_clone
pub fn needless_clone(values: &[Rc<String>], extra: Arc<String>) -> usize {
    let mut total = 0;
    for value in values {
        total += (**value).clone().len(); // trigger: perf_borrow_instead_of_clone
    }
    total + extra.clone().len() // trigger: perf_borrow_instead_of_clone
}

// perf_avoid_linked_list
pub fn linked(values: &[i32]) -> LinkedList<i32> {
    let mut list = LinkedList::new();
    for value in values {
        list.push_back(*value); // trigger: perf_avoid_linked_list
    }
    list
}

// perf_large_enum_variant
pub enum Mixed {
    Thin(u8),
    Heavy([u8; 8192]), // trigger: perf_large_enum_variant
}

// perf_unnecessary_arc
pub fn wrap_refcell(value: RefCell<String>) -> Arc<RefCell<String>> {
    Arc::new(value) // trigger: perf_unnecessary_arc
}

// perf_atomic_for_small_lock
pub fn primitive_mutex(flag: bool) -> Mutex<bool> {
    Mutex::new(flag) // trigger: perf_atomic_for_small_lock
}

// perf_needless_collect
pub fn count_positive(values: &[i32]) -> usize {
    values.iter().filter(|v| **v > 0).collect::<Vec<_>>().len() // trigger: perf_needless_collect
}

// perf_prefer_stack_alloc
pub fn boxed_point(x: i32, y: i32) -> Box<(i32, i32)> {
    Box::new((x, y)) // trigger: perf_prefer_stack_alloc
}

// helper to avoid warnings
pub fn touch<T>(value: T) {
    let _ = value;
}
"#;

const TEST_FILE: &str = "test.rs";

#[test]
fn detects_string_concat_in_loop() {
    let code = r#"
fn build(items: &[String]) -> String {
    let mut out = String::new();
    for item in items {
        out += item;
    }
    out
}
"#;
    let registry = registry();
    let diags = lint_source(code, TEST_FILE, &registry);
    assert_eq!(diags.len(), 1);
    assert_eq!(diags[0].rule_id, "perf_avoid_string_concat_loop");
    assert!(diags[0].message.contains("Why:"));
    assert!(diags[0].message.contains("Fix:"));
}

#[test]
fn detects_vector_push_without_capacity() {
    let code = r#"
fn collect(count: usize) -> Vec<i32> {
    let mut data = Vec::new();
    for i in 0..count {
        data.push(i as i32);
    }
    data
}
"#;
    let registry = registry();
    let diags = lint_source(code, TEST_FILE, &registry);
    assert_eq!(diags.len(), 1);
    assert_eq!(diags[0].rule_id, "perf_vec_reserve_capacity");
}

#[test]
fn ignores_reserved_vectors() {
    let code = r#"
fn collect(count: usize) -> Vec<i32> {
    let mut data = Vec::with_capacity(count);
    for i in 0..count {
        data.push(i as i32);
    }
    data
}
"#;
    let registry = registry();
    let diags = lint_source(code, TEST_FILE, &registry);
    assert!(diags.is_empty());
}

#[test]
fn detects_dynamic_dispatch_in_loop() {
    let code = r#"
trait Handler {
    fn handle(&self, value: i32);
}

fn run(items: &[i32], input: &dyn Handler) {
    let handler: &dyn Handler = input;
    for value in items {
        handler.handle(*value);
    }
}
"#;
    let registry = registry();
    let diags = lint_source(code, TEST_FILE, &registry);
    assert_eq!(diags.len(), 1);
    assert_eq!(diags[0].rule_id, "perf_avoid_reflection_dynamic");
}

#[test]
fn allows_static_dispatch_in_loop() {
    let code = r#"
trait Handler {
    fn handle(&self, value: i32);
}

struct StaticHandler;

impl Handler for StaticHandler {
    fn handle(&self, value: i32) {
        let _ = value;
    }
}

fn run(items: &[i32]) {
    let handler = StaticHandler;
    for value in items {
        handler.handle(*value);
    }
}
"#;
    let registry = registry();
    let diags = lint_source(code, TEST_FILE, &registry);
    assert!(diags.is_empty());
}

#[test]
fn detects_thread_spawn_in_loop() {
    let code = r#"
use std::thread;

fn run(items: &[i32]) {
    for item in items {
        thread::spawn(move || println!("{}", item));
    }
}
"#;
    let registry = registry();
    let diags = lint_source(code, TEST_FILE, &registry);
    assert_eq!(diags.len(), 1);
    assert_eq!(diags[0].rule_id, "perf_bound_concurrency");
}

#[test]
fn detects_clone_in_loop() {
    let code = r#"
fn process(values: &[String]) {
    for value in values {
        let cloned = value.clone();
        let _ = cloned;
    }
}
"#;
    let registry = registry();
    let diags = lint_source(code, TEST_FILE, &registry);
    assert_eq!(diags.len(), 1);
    assert_eq!(diags[0].rule_id, "perf_borrow_instead_of_clone");
}

#[test]
fn detects_linked_list_usage() {
    let code = r#"
use std::collections::LinkedList;

fn build(values: &[i32]) -> LinkedList<i32> {
    let mut list = LinkedList::new();
    for value in values {
        list.push_back(*value);
    }
    list
}
"#;
    let registry = registry();
    let diags = lint_source(code, TEST_FILE, &registry);
    assert!(diags.iter().any(|d| d.rule_id == "perf_avoid_linked_list"));
}

#[test]
fn detects_large_enum_variant() {
    let code = r#"
enum Payload {
    Thin(u8),
    Fat([u8; 2048]),
}
"#;
    let registry = registry();
    let diags = lint_source(code, TEST_FILE, &registry);
    assert!(diags.iter().any(|d| d.rule_id == "perf_large_enum_variant"));
}

#[test]
fn detects_unnecessary_arc() {
    let code = r#"
use std::{cell::RefCell, sync::Arc};

fn wrap(value: RefCell<String>) -> Arc<RefCell<String>> {
    Arc::new(value)
}
"#;
    let registry = registry();
    let diags = lint_source(code, TEST_FILE, &registry);
    assert!(diags.iter().any(|d| d.rule_id == "perf_unnecessary_arc"));
}

#[test]
fn detects_mutex_primitives() {
    let code = r#"
use std::sync::Mutex;

fn make_flag() -> Mutex<bool> {
    Mutex::new(true)
}
"#;
    let registry = registry();
    let diags = lint_source(code, TEST_FILE, &registry);
    assert!(diags.iter().any(|d| d.rule_id == "perf_atomic_for_small_lock"));
}

#[test]
fn detects_needless_collect() {
    let code = r#"
fn count(items: &[i32]) -> usize {
    items.iter().filter(|v| **v > 0).collect::<Vec<_>>().len()
}
"#;
    let registry = registry();
    let diags = lint_source(code, TEST_FILE, &registry);
    assert!(diags.iter().any(|d| d.rule_id == "perf_needless_collect"));
}

#[test]
fn detects_small_box_allocations() {
    let code = r#"
fn boxed_point(x: i32, y: i32) -> Box<(i32, i32)> {
    Box::new((x, y))
}
"#;
    let registry = registry();
    let diags = lint_source(code, TEST_FILE, &registry);
    assert!(diags.iter().any(|d| d.rule_id == "perf_prefer_stack_alloc"));
}

#[test]
fn fixtures_trigger_all_rules() {
    let code = VIOLATIONS;
    let registry = registry();
    let diags = lint_source(code, "fixtures/violations.rs", &registry);
    let got: HashSet<String> = diags.into_iter().map(|d| d.rule_id).collect();
    let expected: HashSet<String> = [
        "perf_avoid_string_concat_loop",
        "perf_vec_reserve_capacity",
        "perf_avoid_reflection_dynamic",
        "perf_bound_concurrency",
        "perf_borrow_instead_of_clone",
        "perf_avoid_linked_list",
        "perf_large_enum_variant",
        "perf_unnecessary_arc",
        "perf_atomic_for_small_lock",
        "perf_needless_collect",
        "perf_prefer_stack_alloc",
    ]
    .into_iter()
    .map(String::from)
    .collect();
    assert_eq!(got, expected);
}
