use perfcheck_lint::defaults::default_table;
use perfcheck_lint::RuleRegistry;

#[test]
fn registry_loads() {
    let registry = RuleRegistry::from_tsv(&default_table()).expect("parse");
    assert!(!registry.all().is_empty());
    assert!(registry.rules_for_lang("go").next().is_some());
    let rule = registry.rule("perf_avoid_string_concat_loop").expect("rule");
    assert!(!rule.problem_summary.is_empty());
    assert!(!rule.fix_hint.is_empty());
}

fn ids_for_lang(registry: &RuleRegistry, lang: &str) -> Vec<String> {
    let mut ids = Vec::new();
    let mut iter = registry.rules_for_lang(lang);
    while let Some(rule) = iter.next() {
        ids.push(rule.id.clone());
    }
    ids
}

#[test]
fn iterators_are_deterministic() {
    let registry = RuleRegistry::from_tsv(&default_table()).expect("parse");
    let first_run: Vec<String> = ids_for_lang(&registry, "rust");
    let second_run: Vec<String> = ids_for_lang(&registry, "rust");
    assert_eq!(first_run, second_run);
}

#[test]
fn requires_guidance_fields() {
    let data = "id\tlangs\tdescription\tcategory\tseverity\tproblem_summary\tfix_hint\n"
        .to_string() +
        "rule\tgo\tdesc\tcat\twarning\t\t\n";
    let result = RuleRegistry::from_tsv(&data);
    assert!(result.is_err());
}
