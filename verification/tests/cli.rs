use perfcheck_lint::cli::exit_code;
use perfcheck_lint::cli::manifest_path;
use perfcheck_lint::cli::report_line;
use perfcheck_lint::cli::scan_target;
use perfcheck_lint::cli::split_args;
use perfcheck_lint::Diagnostic;

fn args(list: &[&str]) -> Vec<String> {
    list.iter().map(|s| s.to_string()).collect()
}

fn some(s: &str) -> Option<String> {
    Some(s.to_string())
}

#[test]
fn the_target_flag_is_taken_out_of_the_arguments() {
    assert_eq!(split_args(args(&[])), (args(&[]), None));
    assert_eq!(split_args(args(&["--all", "-v"])), (args(&["--all", "-v"]), None));
    assert_eq!(
        split_args(args(&["--all", "--perfcheck-target", "src", "-v"])),
        (args(&["--all", "-v"]), some("src"))
    );
    assert_eq!(split_args(args(&["--perfcheck-target=lib", "-v"])), (args(&["-v"]), some("lib")));
    assert_eq!(split_args(args(&["--perfcheck-target="])), (args(&[]), some("")));
    assert_eq!(split_args(args(&["-v", "--perfcheck-target"])), (args(&["-v"]), None));
    assert_eq!(
        split_args(args(&["--perfcheck-target", "a", "--perfcheck-target=b", "--perfcheck-target"])),
        (args(&[]), some("b"))
    );
    assert_eq!(
        split_args(args(&["--perfcheck-target", "--perfcheck-target", "x"])),
        (args(&["x"]), some("--perfcheck-target"))
    );
    assert_eq!(split_args(args(&["--perfcheck-targets", "x"])), (args(&["--perfcheck-targets", "x"]), None));
}

#[test]
fn the_first_manifest_flag_names_the_manifest() {
    assert_eq!(manifest_path(&args(&[])), None);
    assert_eq!(manifest_path(&args(&["--all"])), None);
    assert_eq!(manifest_path(&args(&["--manifest-path", "a/Cargo.toml", "--manifest-path=b"])), some("a/Cargo.toml"));
    assert_eq!(manifest_path(&args(&["-v", "--manifest-path=b/Cargo.toml", "--manifest-path", "a"])), some("b/Cargo.toml"));
    assert_eq!(manifest_path(&args(&["--manifest-path"])), None);
    assert_eq!(manifest_path(&args(&["--manifest-path", "--manifest-path=x"])), some("--manifest-path=x"));
    assert_eq!(manifest_path(&args(&["--manifest-path="])), some(""));
    assert_eq!(manifest_path(&args(&["--manifest-paths=x"])), None);
}

#[test]
fn the_target_is_the_flag_then_the_manifest_then_here() {
    assert_eq!(scan_target(some("a"), some("b")), "a");
    assert_eq!(scan_target(None, some("b")), "b");
    assert_eq!(scan_target(some("a"), None), "a");
    assert_eq!(scan_target(None, None), ".");
    assert_eq!(scan_target(some(""), some("b")), "");
}

#[test]
fn a_diagnostic_is_printed_on_one_line() {
    let d = Diagnostic {
        rule_id: "perf_x".to_string(),
        severity: "warning".to_string(),
        message: "found (\"y\"). Why: w. Fix: f.".to_string(),
        path: "src/lib.rs".to_string(),
        line: 120,
        column: 7,
    };
    assert_eq!(report_line(&d), "src/lib.rs:120:7 [perf_x] found (\"y\"). Why: w. Fix: f.");
    assert_eq!(exit_code(&vec![d]), 1);
    assert_eq!(exit_code(&vec![]), 0);
}
