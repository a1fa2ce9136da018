use perfcheck_lint::classify::contains_trait_object;
use perfcheck_lint::classify::extract_identifier;
use perfcheck_lint::classify::parse_variable_declaration;
use perfcheck_lint::classify::split_assignment;
use perfcheck_lint::classify::VarInfo;

fn cs(s: &str) -> Vec<char> {
    s.chars().collect()
}

fn st(s: &[char]) -> String {
    s.iter().collect()
}

fn parse(line: &str) -> Option<(String, VarInfo)> {
    let text = cs(line);
    parse_variable_declaration(&text).map(|(name, info)| (st(name), info))
}

#[test]
fn classifies_texts() {
    assert_eq!(parse("let mut out = String::new();"), Some(("out".to_string(), VarInfo::Text)));
    assert_eq!(parse("let s = String::from(\"x\");"), Some(("s".to_string(), VarInfo::Text)));
    assert_eq!(parse("let s: String = String::with_capacity(8);"), Some(("s".to_string(), VarInfo::Text)));
}

#[test]
fn classifies_sequences() {
    assert_eq!(parse("let mut v = Vec::new();"), Some(("v".to_string(), VarInfo::Vector { reserved: false })));
    assert_eq!(parse("let v = Vec::<u8>::new();"), Some(("v".to_string(), VarInfo::Vector { reserved: false })));
    assert_eq!(parse("let v = Vec::with_capacity(n);"), Some(("v".to_string(), VarInfo::Vector { reserved: true })));
    assert_eq!(parse("let v: Vec<u8> = Vec::<u8>::with_capacity(n);"), None);
    assert_eq!(parse("let v = f(Vec::<u8>::default(), X::new());"), Some(("v".to_string(), VarInfo::Vector { reserved: false })));
}

#[test]
fn classifies_trait_objects() {
    let dynamic = Some(("h".to_string(), VarInfo::DynamicDispatch));
    assert_eq!(parse("let h: &dyn Handler = input;"), dynamic);
    assert_eq!(parse("let h: Box<dyn Handler> = make();"), dynamic);
    assert_eq!(parse("let h = make() as Rc<dyn Handler>;"), dynamic);
    assert_eq!(parse("let h: Arc<DYN Handler> = make();"), dynamic);
    assert_eq!(parse("let h = make::<dyn>();"), dynamic);
}

#[test]
fn the_first_class_that_fits_decides() {
    assert_eq!(parse("let x: Box<dyn T> = f(String::new(), Vec::new());"), Some(("x".to_string(), VarInfo::Text)));
    assert_eq!(parse("let x: Box<dyn T> = f(Vec::new(), Vec::with_capacity(1));"), Some(("x".to_string(), VarInfo::Vector { reserved: true })));
    assert_eq!(parse("let x: Box<dyn T> = f(Vec::new());"), Some(("x".to_string(), VarInfo::Vector { reserved: false })));
}

#[test]
fn other_lines_declare_nothing() {
    assert_eq!(parse("let handler = StaticHandler;"), None);
    assert_eq!(parse("let x;"), None);
    assert_eq!(parse("x = String::new();"), None);
    assert_eq!(parse("  let x = String::new();"), None);
    assert_eq!(parse("let = String::new();"), None);
    assert_eq!(parse("let : T = String::new();"), None);
    assert_eq!(parse("letx = String::new();"), None);
    assert_eq!(parse(""), None);
}

#[test]
fn names_come_from_the_left_side() {
    assert_eq!(parse("let   mut   out  :  String = String::new() ;;"), Some(("out".to_string(), VarInfo::Text)));
    assert_eq!(parse("let mut out: String = String::new()"), Some(("out".to_string(), VarInfo::Text)));
    assert_eq!(parse("let let x = String::new();"), Some(("x".to_string(), VarInfo::Text)));
    assert_eq!(parse("let mut = String::new();"), Some(("mut".to_string(), VarInfo::Text)));
    assert_eq!(parse("let (a, b) = (String::new(), 1);"), Some(("(a, b)".to_string(), VarInfo::Text)));
    assert_eq!(extract_identifier(&cs(" mut x : T ")).map(st), Some("x".to_string()));
    assert_eq!(extract_identifier(&cs("x")).map(st), Some("x".to_string()));
    assert_eq!(extract_identifier(&cs("mut ")).map(st), Some("mut".to_string()));
    assert_eq!(extract_identifier(&cs(" : T")), None);
    assert_eq!(extract_identifier(&cs("")), None);
}

#[test]
fn sees_trait_objects_in_any_case() {
    assert!(contains_trait_object(&cs("Box<dyn T>")));
    assert!(contains_trait_object(&cs("RC<DYN T>")));
    assert!(contains_trait_object(&cs("&dyn T")));
    assert!(contains_trait_object(&cs("impl dyn ")));
    assert!(contains_trait_object(&cs("<dyn>")));
    assert!(!contains_trait_object(&cs("dynamic")));
    assert!(!contains_trait_object(&cs("Box<T>")));
    assert!(!contains_trait_object(&cs("")));
}

#[test]
fn splits_plain_assignments() {
    let line = cs("out = out + x");
    let (lhs, rhs) = split_assignment(&line).expect("assignment");
    assert_eq!(st(lhs), "out ");
    assert_eq!(st(rhs), " out + x");
    assert!(split_assignment(&cs("a + b = c")).is_none());
    assert!(split_assignment(&cs("no assignment")).is_none());
    let line = cs("a == b");
    let (lhs, rhs) = split_assignment(&line).expect("first =");
    assert_eq!(st(lhs), "a ");
    assert_eq!(st(rhs), "= b");
}
