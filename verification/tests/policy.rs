use trivy_exp_dep::manifest::ManifestFormat;
use trivy_exp_dep::matcher::Manifest;
use trivy_exp_dep::names::NameSet;
use trivy_exp_dep::policy::{classify, ignore_set, policy_document};
use trivy_exp_dep::report::{extract, Extraction};

fn owned(names: &[&str]) -> Vec<String> {
    names.iter().map(|n| n.to_string()).collect()
}

fn set(names: &[&str]) -> NameSet {
    NameSet::from_names(&owned(names))
}

fn document(collection: &str) -> String {
    format!(
        "package trivy\nimport data.lib.trivy\ndefault ignore = false\nignore_pkgs := {}\nignore {{\ninput.PkgName == ignore_pkgs[_]\n}}\n",
        collection
    )
}

#[test]
fn policy_of_one_name() {
    assert_eq!(policy_document(&set(&["left-pad"])), document("{\"left-pad\"}"));
}

#[test]
fn policy_of_several_names() {
    assert_eq!(
        policy_document(&set(&["left-pad", "@babel/core", "six"])),
        document("{\"left-pad\",\"@babel/core\",\"six\"}")
    );
}

#[test]
fn policy_of_no_name() {
    assert_eq!(policy_document(&NameSet::new()), document("{\"\"}"));
}

#[test]
fn quote_in_a_name_is_stripped() {
    let text = policy_document(&set(&["fo\"o", "bar"]));
    assert_eq!(text, document("{\"foo\",\"bar\"}"));
    assert_eq!(text.matches('"').count(), 4);
    assert_eq!(policy_document(&set(&["\"\"x\""])), document("{\"x\"}"));
}

#[test]
fn ignore_set_is_the_rest() {
    let candidates = set(&["a", "b", "c"]);
    let declared = set(&["b"]);
    let ignored = ignore_set(&candidates, &declared);
    assert_eq!(ignored.to_vec(), owned(&["a", "c"]));
    for name in candidates.to_vec() {
        assert!(ignored.contains(&name) != declared.contains(&name));
    }
    assert_eq!(ignored.len() + declared.len(), candidates.len());
    assert_eq!(ignore_set(&candidates, &NameSet::new()).to_vec(), owned(&["a", "b", "c"]));
    assert!(ignore_set(&candidates, &candidates).is_empty());
}

#[test]
fn declared_package_is_kept_and_the_other_ignored() {
    let candidates = set(&["left-pad", "colors"]);
    let manifests = vec![Manifest {
        format: ManifestFormat::recognize("package.json").unwrap(),
        lines: owned(&["{", "  \"dependencies\": {", "    \"colors\": \"^1.0.0\"", "  }", "}"]),
    }];
    let c = classify(&candidates, &manifests).unwrap();
    assert_eq!(c.declared.to_vec(), owned(&["colors"]));
    assert_eq!(c.ignored.to_vec(), owned(&["left-pad"]));
    assert_eq!(c.policy, document("{\"left-pad\"}"));
}

#[test]
fn declared_requirement_leaves_nothing_to_ignore() {
    let candidates = set(&["requests"]);
    let manifests = vec![Manifest {
        format: ManifestFormat::recognize("requirements.txt").unwrap(),
        lines: owned(&["requests>=2.0"]),
    }];
    let c = classify(&candidates, &manifests).unwrap();
    assert_eq!(c.declared.to_vec(), owned(&["requests"]));
    assert!(c.ignored.is_empty());
    assert_eq!(c.policy, document("{\"\"}"));
}

#[test]
fn commented_requirement_is_ignored() {
    let candidates = set(&["requests"]);
    let manifests = vec![Manifest {
        format: ManifestFormat::Requirements,
        lines: owned(&["# requests>=2.0"]),
    }];
    let c = classify(&candidates, &manifests).unwrap();
    assert!(c.declared.is_empty());
    assert_eq!(c.ignored.to_vec(), owned(&["requests"]));
}

#[test]
fn classify_without_manifests_ignores_everything() {
    let c = classify(&set(&["a", "b"]), &Vec::new()).unwrap();
    assert!(c.declared.is_empty());
    assert_eq!(c.ignored.to_vec(), owned(&["a", "b"]));
    assert_eq!(c.policy, document("{\"a\",\"b\"}"));
}

#[test]
fn classify_passes_a_refused_pattern_on() {
    let long = "y".repeat(600_000);
    let manifests = vec![Manifest { format: ManifestFormat::Pyproject, lines: owned(&["x = 1"]) }];
    let e = classify(&set(&["x", &long]), &manifests).unwrap_err();
    assert_eq!(e.name, long);
    assert_eq!(e.format, ManifestFormat::Pyproject);
}

#[test]
fn quote_inside_a_reported_name_leaves_nothing_behind() {
    let report = r#"{"Results":[{"Vulnerabilities":[{"PkgName":"lo\"dash"}]}]}"#;
    let candidates = match extract(report) {
        Ok(Extraction::Candidates(names)) => names,
        other => panic!("no candidates: {:?}", other),
    };
    assert_eq!(candidates.to_vec(), owned(&["lodash"]));
    let c = classify(&candidates, &Vec::new()).unwrap();
    assert_eq!(c.ignored.to_vec(), owned(&["lodash"]));
    assert_eq!(c.policy, document("{\"lodash\"}"));
    assert_eq!(c.policy.lines().nth(3).unwrap(), "ignore_pkgs := {\"lodash\"}");
    assert_eq!(c.policy.lines().nth(3).unwrap().matches('"').count(), 2);
}

#[test]
fn quote_at_the_end_of_a_reported_name_keeps_the_collection_whole() {
    let report = r#"{"Results":[{"Vulnerabilities":[{"PkgName":"lodash\""},{"PkgName":"\"colors"}]}]}"#;
    let candidates = match extract(report) {
        Ok(Extraction::Candidates(names)) => names,
        other => panic!("no candidates: {:?}", other),
    };
    let c = classify(&candidates, &Vec::new()).unwrap();
    assert_eq!(c.policy, document("{\"lodash\",\"colors\"}"));
}

#[test]
fn report_to_policy() {
    let report = r#"{"Results": [{"Vulnerabilities": [
        {"PkgName": "left-pad"}, {"PkgName": "colors"}, {"PkgName": "requests"}]}]}"#;
    let candidates = match extract(report) {
        Ok(Extraction::Candidates(names)) => names,
        other => panic!("no candidates: {:?}", other),
    };
    let manifests = vec![
        Manifest { format: ManifestFormat::PackageManifest, lines: owned(&["\"colors\": \"^1.0.0\""]) },
        Manifest { format: ManifestFormat::Requirements, lines: owned(&["requests>=2.0"]) },
    ];
    let c = classify(&candidates, &manifests).unwrap();
    assert_eq!(c.declared.to_vec(), owned(&["colors", "requests"]));
    assert_eq!(c.ignored.to_vec(), owned(&["left-pad"]));
    assert_eq!(c.policy, document("{\"left-pad\"}"));
}
