use perfcheck_lint::patterns::brace_counts;
use perfcheck_lint::patterns::contains_nonsend_token;
use perfcheck_lint::patterns::count_commas_outside_braces;
use perfcheck_lint::patterns::extract_generic_argument;
use perfcheck_lint::patterns::extract_paren_argument;
use perfcheck_lint::patterns::find_large_array_literal;
use perfcheck_lint::patterns::find_needless_collect_suffix;
use perfcheck_lint::patterns::find_token;
use perfcheck_lint::patterns::is_literal_primitive;
use perfcheck_lint::patterns::is_primitive_token;
use perfcheck_lint::patterns::is_small_box_target;
use perfcheck_lint::patterns::starts_enum_decl;

fn cs(s: &str) -> Vec<char> {
    s.chars().collect()
}

fn st(s: &[char]) -> String {
    s.iter().collect()
}

#[test]
fn finds_whole_words_only() {
    assert_eq!(find_token(&cs("use std::collections::LinkedList;"), "LinkedList"), Some(22));
    assert_eq!(find_token(&cs("LinkedList"), "LinkedList"), Some(0));
    assert_eq!(find_token(&cs("MyLinkedList"), "LinkedList"), None);
    assert_eq!(find_token(&cs("LinkedListNode"), "LinkedList"), None);
    assert_eq!(find_token(&cs("LinkedList_x; LinkedList<i32>"), "LinkedList"), Some(14));
    assert_eq!(find_token(&cs("x: Arc<T>"), "Arc"), Some(3));
    assert_eq!(find_token(&cs("none here"), "Arc"), None);
}

#[test]
fn a_word_is_bounded_by_what_stands_beyond_the_white_space() {
    assert_eq!(find_token(&cs("mut LinkedList"), "LinkedList"), None);
    assert_eq!(find_token(&cs("LinkedList  x"), "LinkedList"), None);
    assert_eq!(find_token(&cs(":  LinkedList  <"), "LinkedList"), Some(3));
    assert_eq!(find_token(&cs("  LinkedList  "), "LinkedList"), Some(2));
}

#[test]
fn extracts_generic_arguments() {
    let line = cs("fn f() -> Arc<RefCell<String>> {");
    assert_eq!(extract_generic_argument(&line, "Arc").map(st), Some("RefCell<String>".to_string()));
    assert_eq!(extract_generic_argument(&cs("Mutex<bool>"), "Mutex").map(st), Some("bool".to_string()));
    assert_eq!(extract_generic_argument(&cs("Mutex<>"), "Mutex").map(st), Some(String::new()));
    assert_eq!(extract_generic_argument(&cs("Mutex<Vec<u8>"), "Mutex"), None);
    assert_eq!(extract_generic_argument(&cs("Mutex <bool>"), "Mutex"), None);
    assert_eq!(extract_generic_argument(&cs("Mutex"), "Mutex"), None);
    assert_eq!(
        extract_generic_argument(&cs("é Arc<RefCell<X>>"), "Arc").map(st),
        Some("RefCell<X>".to_string())
    );
}

#[test]
fn extracts_call_arguments() {
    assert_eq!(extract_paren_argument(&cs("Box::new((x, y))"), "Box::new").map(st), Some("(x, y)".to_string()));
    assert_eq!(extract_paren_argument(&cs("Box::new(f(a), g(b)) + h(c)"), "Box::new").map(st), Some("f(a), g(b)".to_string()));
    assert_eq!(extract_paren_argument(&cs("Box::new()"), "Box::new").map(st), Some(String::new()));
    assert_eq!(extract_paren_argument(&cs("Box::new((x"), "Box::new"), None);
    assert_eq!(extract_paren_argument(&cs("Box::new"), "Box::new"), None);
}

#[test]
fn large_arrays_begin_at_the_threshold() {
    assert_eq!(find_large_array_literal(&cs("    Fat([u8; 2048]),")), Some(8));
    assert_eq!(find_large_array_literal(&cs("[u8; 128]")), Some(0));
    assert_eq!(find_large_array_literal(&cs("[u8; 127]")), None);
    assert_eq!(find_large_array_literal(&cs("[u8;  +128 ]")), Some(0));
    assert_eq!(find_large_array_literal(&cs("[u8; N]")), None);
    assert_eq!(find_large_array_literal(&cs("[u8; 4294967296]")), None);
    assert_eq!(find_large_array_literal(&cs("[u8; 1_000]")), None);
    assert_eq!(find_large_array_literal(&cs("[a] [b; 500]")), Some(0));
    assert_eq!(find_large_array_literal(&cs("[[u8; 4]; 256]")), None);
    assert_eq!(find_large_array_literal(&cs("[u8; 4], [u8; 256]")), Some(9));
    assert_eq!(find_large_array_literal(&cs("u8; 500]")), None);
    assert_eq!(find_large_array_literal(&cs("[u8; 500")), None);
}

#[test]
fn recognises_data_that_cannot_cross_threads() {
    assert!(contains_nonsend_token(&cs("RefCell<String>")));
    assert!(contains_nonsend_token(&cs("UnsafeCell<u8>")));
    assert!(contains_nonsend_token(&cs("Cell<u8>")));
    assert!(contains_nonsend_token(&cs("Rc<String>")));
    assert!(contains_nonsend_token(&cs("Rc::new(1)")));
    assert!(contains_nonsend_token(&cs("REFCELL")));
    assert!(!contains_nonsend_token(&cs("Arc<String>")));
    assert!(!contains_nonsend_token(&cs("Arc::new(1)")));
    assert!(!contains_nonsend_token(&cs("String")));
    assert!(!contains_nonsend_token(&cs("value")));
    assert!(contains_nonsend_token(&cs("Arc<Rc<u8>>")));
    assert!(!contains_nonsend_token(&cs("")));
}

#[test]
fn recognises_primitive_types() {
    for name in [
        "bool", "char", "i8", "i16", "i32", "i64", "i128", "isize", "u8", "u16", "u32", "u64",
        "u128", "usize", "f32", "f64",
    ] {
        assert!(is_primitive_token(&cs(name)), "{name}");
        assert!(is_primitive_token(&cs(&format!("  {name} "))), "{name}");
        assert!(is_primitive_token(&cs(&format!("Option<{name}>"))), "{name}");
    }
    assert!(is_primitive_token(&cs("Option< u8 >")));
    assert!(!is_primitive_token(&cs("Option<Option<u8>>")));
    assert!(!is_primitive_token(&cs("Option<>")));
    assert!(!is_primitive_token(&cs("Option<String>")));
    assert!(!is_primitive_token(&cs("String")));
    assert!(!is_primitive_token(&cs("")));
    assert!(!is_primitive_token(&cs("u9")));
    assert!(!is_primitive_token(&cs("Bool")));
    assert!(!is_primitive_token(&cs("Vec<u8>")));
}

#[test]
fn recognises_primitive_literals() {
    assert!(is_literal_primitive(&cs("true")));
    assert!(is_literal_primitive(&cs(" false ")));
    assert!(is_literal_primitive(&cs("'a'")));
    assert!(is_literal_primitive(&cs("'")));
    assert!(is_literal_primitive(&cs("0")));
    assert!(is_literal_primitive(&cs("42u8")));
    assert!(is_literal_primitive(&cs("1_000")));
    assert!(is_literal_primitive(&cs("_x")));
    assert!(!is_literal_primitive(&cs("flag")));
    assert!(!is_literal_primitive(&cs("")));
    assert!(!is_literal_primitive(&cs("-1")));
    assert!(!is_literal_primitive(&cs("\"s\"")));
    assert!(!is_literal_primitive(&cs("True")));
}

#[test]
fn counts_commas_at_the_top_level() {
    assert_eq!(count_commas_outside_braces(&cs("(x, y)")), 1);
    assert_eq!(count_commas_outside_braces(&cs("(a, (b, c), d)")), 2);
    assert_eq!(count_commas_outside_braces(&cs("a, b, c")), 2);
    assert_eq!(count_commas_outside_braces(&cs("Point { x: 1, y: [2, 3] }")), 1);
    assert_eq!(count_commas_outside_braces(&cs(")), a, b")), 2);
    assert_eq!(count_commas_outside_braces(&cs("((a, b))")), 0);
    assert_eq!(count_commas_outside_braces(&cs("")), 0);
}

#[test]
fn judges_small_values() {
    assert!(is_small_box_target(&cs("(x, y)")));
    assert!(is_small_box_target(&cs("(x)")));
    assert!(is_small_box_target(&cs("((a, b), [c, d])")));
    assert!(!is_small_box_target(&cs("(x, y, z)")));
    assert!(!is_small_box_target(&cs("(x, y,)")));
    assert!(is_small_box_target(&cs("()")));
    assert!(is_small_box_target(&cs("1")));
    assert!(is_small_box_target(&cs("true")));
    assert!(is_small_box_target(&cs("Point { x: 1, y: 2 }")));
    assert!(!is_small_box_target(&cs("Point { a: 1, b: 2, c: 3 }")));
    assert!(!is_small_box_target(&cs("value")));
    assert!(!is_small_box_target(&cs("(x, y) + 1")));
    assert!(!is_small_box_target(&cs("")));
}

#[test]
fn a_small_value_in_braces_has_at_most_eighty_characters() {
    let at_bound = format!("P {{ x: {} }}", "1".repeat(71));
    assert_eq!(at_bound.len(), 80);
    assert!(is_small_box_target(&cs(&at_bound)));
    let beyond = format!("P {{ x: {} }}", "1".repeat(72));
    assert_eq!(beyond.len(), 81);
    assert!(!is_small_box_target(&cs(&beyond)));
    let wide = format!("P {{ x: \"{}\" }}", "é".repeat(36));
    assert!(wide.chars().count() <= 80);
    assert!(wide.len() > 80);
    assert!(is_small_box_target(&cs(&wide)));
    let long = format!("P {{ x: \"{}\" }}", "é".repeat(70));
    assert_eq!(long.chars().count(), 81);
    assert!(!is_small_box_target(&cs(&long)));
}

#[test]
fn counts_braces() {
    assert_eq!(brace_counts(&cs("fn f() { if x { } }")), (2, 2));
    assert_eq!(brace_counts(&cs("}}{")), (1, 2));
    assert_eq!(brace_counts(&cs("")), (0, 0));
}

#[test]
fn recognises_enum_headers() {
    assert!(starts_enum_decl(&cs("enum Payload {")));
    assert!(starts_enum_decl(&cs("  pub enum Payload {")));
    assert!(starts_enum_decl(&cs("pub(crate) enum Payload")));
    assert!(starts_enum_decl(&cs("pub(super)   enum P")));
    assert!(starts_enum_decl(&cs("pub(self) enum P")));
    assert!(starts_enum_decl(&cs("pub(crate) pub enum P")));
    assert!(starts_enum_decl(&cs("pubenum P")));
    assert!(!starts_enum_decl(&cs("enum")));
    assert!(!starts_enum_decl(&cs("enumerate x")));
    assert!(!starts_enum_decl(&cs("pub(in crate) enum P")));
    assert!(!starts_enum_decl(&cs("struct P")));
    assert!(!starts_enum_decl(&cs("// enum P")));
}

#[test]
fn names_the_question_behind_a_collect() {
    let find = |s: &str| find_needless_collect_suffix(&cs(s));
    assert_eq!(find("x.collect::<Vec<_>>().len()"), Some(".len()"));
    assert_eq!(find("x.collect::<Vec<_>>().is_empty()"), Some(".is_empty()"));
    assert_eq!(find("x.collect::<Vec<_>>().iter()"), Some(".iter()"));
    assert_eq!(find("x.collect::<Vec<_>>().iter_mut()"), Some(".iter_mut()"));
    assert_eq!(find("x.collect::<Vec<_>>().into_iter()"), Some(".into_iter()"));
    assert_eq!(find("x.collect::<Vec<_>>().first()"), Some(".first()"));
    assert_eq!(find("x.collect::<Vec<_>>().last()"), Some(".last()"));
    assert_eq!(find("x.collect::<Vec<Option<u8>>>().len()"), Some(".len()"));
    assert_eq!(find("x.collect::<Vec<_>>().sort()"), None);
    assert_eq!(find("x.collect::<Vec<_>>()"), None);
    assert_eq!(find("x.collect::<Vec<_>>();"), None);
    assert_eq!(find("x.collect::<Vec<_>>"), None);
    assert_eq!(find("x.collect::<Vec<_"), None);
    assert_eq!(find("x.collect()"), None);
    assert_eq!(find("a.collect::<Vec<_>>().sort();b.collect::<Vec<_>>().last()"), Some(".last()"));
    assert_eq!(find("a.collect::<Vec<_>>;b.collect::<Vec<_>>().first()"), Some(".first()"));
}
