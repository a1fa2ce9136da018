use perfcheck_lint::defaults::default_table;
use perfcheck_lint::registry;
use perfcheck_lint::rules::hash;
use perfcheck_lint::rules::parse_row;
use perfcheck_lint::rules::text_le;
use perfcheck_lint::rules::TableError;
use perfcheck_lint::RuleRegistry;

const HEADER: &str = "id\tlangs\tdescription\tcategory\tseverity\tproblem_summary\tfix_hint\n";

fn cs(s: &str) -> Vec<char> {
    s.chars().collect()
}

fn table(rows: &[&str]) -> String {
    let mut text = HEADER.to_string();
    for row in rows {
        text.push_str(row);
        text.push('\n');
    }
    text
}

fn ids(registry: &RuleRegistry) -> Vec<String> {
    registry.all().iter().map(|rule| rule.id.clone()).collect()
}

fn ids_for(registry: &RuleRegistry, lang: &str) -> Vec<String> {
    let mut found = Vec::new();
    let mut iter = registry.rules_for_lang(lang);
    while let Some(rule) = iter.next() {
        found.push(rule.id.clone());
    }
    found
}

fn error_of(text: &str) -> String {
    match RuleRegistry::from_tsv(text) {
        Ok(_) => panic!("the table was accepted"),
        Err(message) => message,
    }
}

#[test]
fn the_code_is_the_fnv1a_hash_of_the_identifier() {
    assert_eq!(hash(""), 0x811C_9DC5);
    assert_eq!(hash("a"), 0xE40C_292C);
    assert_eq!(hash("foobar"), 0xBF9C_F968);
    assert_eq!(hash("é"), {
        let mut h: u32 = 0x811C_9DC5;
        for b in "é".as_bytes() {
            h ^= u32::from(*b);
            h = h.wrapping_mul(0x0100_0193);
        }
        h
    });
    let registry = registry();
    for rule in registry.all() {
        assert_eq!(rule.code, hash(&rule.id));
    }
}

#[test]
fn a_table_of_n_rows_gives_n_rules_in_order() {
    let text = table(&[
        "zeta\trust\tlast\tcat\twarning\twhy z\tfix z",
        "alpha\tgo, Rust\tfirst\tCat\tWARNING\twhy a\tfix a",
        "mid\tpython\tmiddle\tcat\tinfo\twhy m\tfix m",
    ]);
    let registry = RuleRegistry::from_tsv(&text).expect("well formed");
    assert_eq!(ids(&registry), vec!["alpha", "mid", "zeta"]);
    let alpha = registry.rule("alpha").expect("alpha");
    assert_eq!(alpha.langs, vec!["go", "rust"]);
    assert_eq!(alpha.description, "first");
    assert_eq!(alpha.category, "cat");
    assert_eq!(alpha.severity, "warning");
    assert_eq!(alpha.problem_summary, "why a");
    assert_eq!(alpha.fix_hint, "fix a");
    assert_eq!(alpha.code, hash("alpha"));
    assert!(registry.rule("beta").is_none());
    assert!(registry.rule("").is_none());
    assert!(registry.rule("Alpha").is_none());
}

#[test]
fn language_lookup_ignores_case_and_keeps_the_order() {
    let text = table(&[
        "c\trust,go\td\tcat\twarning\twhy\tfix",
        "a\tRUST\td\tcat\twarning\twhy\tfix",
        "b\tgo\td\tcat\twarning\twhy\tfix",
        "d\t rust , , rust\td\tcat\twarning\twhy\tfix",
    ]);
    let registry = RuleRegistry::from_tsv(&text).expect("well formed");
    assert_eq!(ids_for(&registry, "rust"), vec!["a", "c", "d", "d"]);
    assert_eq!(ids_for(&registry, "Rust"), vec!["a", "c", "d", "d"]);
    assert_eq!(ids_for(&registry, "go"), vec!["b", "c"]);
    assert_eq!(ids_for(&registry, "python"), Vec::<String>::new());
    assert_eq!(ids_for(&registry, ""), Vec::<String>::new());
    let mut iter = registry.rules_for_lang("go");
    assert_eq!(iter.next().map(|rule| rule.id.as_str()), Some("b"));
    assert_eq!(iter.next().map(|rule| rule.id.as_str()), Some("c"));
    assert!(iter.next().is_none());
    assert!(iter.next().is_none());
}

#[test]
fn rows_with_one_identifier_keep_their_order_and_the_last_is_found() {
    let text = table(&[
        "same\trust\tfirst\tcat\twarning\twhy\tfix",
        "other\trust\tx\tcat\twarning\twhy\tfix",
        "same\trust\tsecond\tcat\twarning\twhy\tfix",
    ]);
    let registry = RuleRegistry::from_tsv(&text).expect("well formed");
    assert_eq!(ids(&registry), vec!["other", "same", "same"]);
    assert_eq!(registry.all()[1].description, "first");
    assert_eq!(registry.all()[2].description, "second");
    assert_eq!(registry.rule("same").expect("same").description, "second");
}

#[test]
fn the_header_blank_lines_and_comments_hold_no_row() {
    let text = "not\ta\theader\n\n# comment\n   # indented comment\n  \nr\trust\td\tc\ts\twhy\tfix\n";
    let registry = RuleRegistry::from_tsv(text).expect("well formed");
    assert_eq!(ids(&registry), vec!["r"]);
}

#[test]
fn fields_are_trimmed() {
    let text = table(&["  spaced \t rust \t a description \t Cat \t Info \t why \t fix  "]);
    let registry = RuleRegistry::from_tsv(&text).expect("well formed");
    let rule = &registry.all()[0];
    assert_eq!(rule.id, "spaced");
    assert_eq!(rule.description, "a description");
    assert_eq!(rule.category, "cat");
    assert_eq!(rule.severity, "info");
    assert_eq!(rule.problem_summary, "why");
    assert_eq!(rule.fix_hint, "fix");
}

#[test]
fn a_row_with_a_wrong_field_count_is_an_error() {
    assert_eq!(error_of(&table(&["a\trust\td\tc\ts\twhy"])), "invalid field count on line 2");
    assert_eq!(
        error_of(&table(&["ok\trust\td\tc\ts\twhy\tfix", "", "a\trust\td\tc\ts\twhy\tfix\textra"])),
        "invalid field count on line 4"
    );
    assert_eq!(error_of(&table(&["a\tgo\td\tc\tw\tp\tf\t"])), "invalid field count on line 2");
    assert_eq!(error_of(&table(&["\ta\tgo\td\tc\tw\tp\tf"])), "invalid field count on line 2");
    assert_eq!(error_of(&table(&["\t\ta\tgo\td\tc\t\tp\tf"])), "invalid field count on line 2");
    assert_eq!(error_of(&table(&["a\tgo\td\tc\tw\tp"])), "invalid field count on line 2");
    assert_eq!(error_of(&table(&["just one field"])), "invalid field count on line 2");
}

#[test]
fn a_row_without_guidance_is_an_error() {
    assert_eq!(error_of(&table(&["a\trust\td\tc\ts\t\tfix"])), "missing guidance fields on line 2");
    assert_eq!(error_of(&table(&["a\trust\td\tc\ts\t  \tfix"])), "missing guidance fields on line 2");
    assert_eq!(error_of(&table(&["a\trust\td\tc\ts\twhy\t"])), "missing guidance fields on line 2");
    assert_eq!(error_of(&table(&["a\trust\td\tc\ts\twhy\t \u{a0} "])), "missing guidance fields on line 2");
    assert_eq!(error_of(&table(&["rule\tgo\tdesc\tcat\twarning\t\t"])), "missing guidance fields on line 2");
    assert_eq!(error_of(&table(&["\trust\td\tc\ts\t\tfix"])), "missing guidance fields on line 2");
    assert_eq!(
        error_of(&table(&["ok\trust\td\tc\ts\twhy\tfix", "b\trust\td\tc\ts\t \tfix"])),
        "missing guidance fields on line 3"
    );
}

#[test]
fn a_row_without_identifier_is_an_error() {
    assert_eq!(error_of(&table(&["\trust\td\tc\ts\twhy\tfix"])), "missing rule id on line 2");
    assert_eq!(error_of(&table(&["x\trust\td\tc\ts\twhy\tfix", "  \trust\td\tc\ts\twhy\tfix"])), "missing rule id on line 3");
    assert_eq!(
        parse_row(&cs("\trust\td\tc\ts\twhy\tfix"), 12).err(),
        Some(TableError::MissingId { line: 12 })
    );
    assert_eq!(TableError::MissingId { line: 12 }.message(), "missing rule id on line 12");
}

#[test]
fn a_malformed_row_behind_good_ones_gives_no_catalog() {
    let good = "ok\trust\td\tc\ts\twhy\tfix";
    assert!(RuleRegistry::from_tsv(&table(&[good, good])).is_ok());
    for bad in ["b\trust\td\tc\ts\twhy\t", "b\trust\td\tc\ts\twhy", "b\trust\td\tc\ts\twhy\tfix\t", "\tb\trust\td\tc\ts\twhy\tfix"] {
        assert!(RuleRegistry::from_tsv(&table(&[good, bad])).is_err(), "{bad:?}");
        assert!(RuleRegistry::from_tsv(&table(&[good, bad, good])).is_err(), "{bad:?}");
        assert!(RuleRegistry::from_tsv(&table(&[bad, good])).is_err(), "{bad:?}");
    }
}

#[test]
fn the_header_is_never_a_rule() {
    let registry = RuleRegistry::from_tsv("a\tb\tc\td\te\tf\tg\nr\trust\td\tc\ts\twhy\tfix\n").expect("one row");
    assert_eq!(ids(&registry), vec!["r"]);
    let registry = RuleRegistry::from_tsv("\n  lead\trust\td\tc\ts\twhy\tfix  \r\n").expect("one row");
    assert_eq!(ids(&registry), vec!["lead"]);
    assert_eq!(registry.all()[0].fix_hint, "fix");
}

#[test]
fn a_table_without_rows_is_an_error() {
    assert_eq!(error_of(""), "no rules defined");
    assert_eq!(error_of(HEADER), "no rules defined");
    assert_eq!(error_of("a\trust\td\tc\ts\twhy\tfix"), "no rules defined");
    assert_eq!(error_of(&table(&["# only a comment", ""])), "no rules defined");
}

#[test]
fn errors_have_words() {
    assert_eq!(TableError::FieldCount { line: 1 }.message(), "invalid field count on line 1");
    assert_eq!(TableError::MissingGuidance { line: 20 }.message(), "missing guidance fields on line 20");
    assert_eq!(TableError::MissingId { line: 300 }.message(), "missing rule id on line 300");
    assert_eq!(TableError::NoRules.message(), "no rules defined");
}

#[test]
fn identifiers_are_ordered_like_strings() {
    let samples = ["", "a", "ab", "b", "B", "perf_a", "perf_b", "é", "z", "zz", "\u{10000}", "\u{ffff}"];
    for left in samples {
        for right in samples {
            assert_eq!(text_le(&cs(left), &cs(right)), left <= right, "{left:?} {right:?}");
        }
    }
}

#[test]
fn the_default_catalog_covers_the_detectors() {
    let registry = registry();
    assert!(registry.has_detector_rules());
    assert_eq!(registry.all().len(), 12);
    let listed = ids(&registry);
    let mut sorted = listed.clone();
    sorted.sort();
    assert_eq!(listed, sorted);
    for rule in registry.all() {
        assert!(!rule.id.is_empty());
        assert!(!rule.problem_summary.is_empty());
        assert!(!rule.fix_hint.is_empty());
        assert_eq!(rule.severity, rule.severity.to_ascii_lowercase());
    }
    assert_eq!(
        ids_for(&registry, "rust"),
        vec![
            "perf_atomic_for_small_lock",
            "perf_avoid_linked_list",
            "perf_avoid_reflection_dynamic",
            "perf_avoid_string_concat_loop",
            "perf_borrow_instead_of_clone",
            "perf_bound_concurrency",
            "perf_large_enum_variant",
            "perf_needless_collect",
            "perf_prefer_stack_alloc",
            "perf_unnecessary_arc",
            "perf_vec_reserve_capacity",
        ]
    );
}

#[test]
fn the_default_table_reads_back_as_the_default_catalog() {
    let text = default_table();
    assert!(text.starts_with(HEADER));
    assert_eq!(text.lines().count(), 13);
    let parsed = RuleRegistry::from_tsv(&text).expect("the default table is well formed");
    let built = registry();
    assert_eq!(parsed.all(), built.all());
    assert_eq!(built.all().len(), 12);
}

#[test]
fn a_catalog_without_a_detector_rule_is_told_apart() {
    let text = table(&["perf_avoid_string_concat_loop\trust\td\tc\ts\twhy\tfix"]);
    let registry = RuleRegistry::from_tsv(&text).expect("well formed");
    assert!(!registry.has_detector_rules());
}
