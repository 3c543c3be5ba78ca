use trivy_exp_dep::manifest::ManifestFormat;
use trivy_exp_dep::matcher::{any_line_matches, declared_set, Manifest};
use trivy_exp_dep::names::NameSet;

fn owned(names: &[&str]) -> Vec<String> {
    names.iter().map(|n| n.to_string()).collect()
}

fn manifest(format: ManifestFormat, lines: &[&str]) -> Manifest {
    Manifest { format, lines: owned(lines) }
}

fn set(names: &[&str]) -> NameSet {
    NameSet::from_names(&owned(names))
}

#[test]
fn any_line_matches_scans_every_line() {
    let re = regex::Regex::new("^b+$").unwrap();
    assert!(any_line_matches(&re, &owned(&["a", "bbb", "c"])));
    assert!(any_line_matches(&re, &owned(&["a", "c", "b"])));
    assert!(!any_line_matches(&re, &owned(&["a", "abb", "c"])));
    assert!(!any_line_matches(&re, &Vec::new()));
}

#[test]
fn pipfile_key_is_declared() {
    let m = manifest(ManifestFormat::Pipfile, &["[packages]", "requests = \"*\"", "  flask=\"1.0\""]);
    assert_eq!(m.check(&"requests".to_string()).unwrap(), true);
    assert_eq!(m.check(&"flask".to_string()).unwrap(), true);
    assert_eq!(m.check(&"packages".to_string()).unwrap(), false);
    assert_eq!(m.check(&"quests".to_string()).unwrap(), false);
}

#[test]
fn pyproject_key_is_declared() {
    let m = manifest(ManifestFormat::Pyproject, &["[tool.poetry.dependencies]", "django = \"^4.0\""]);
    assert_eq!(m.check(&"django".to_string()).unwrap(), true);
    assert_eq!(m.check(&"jango".to_string()).unwrap(), false);
}

#[test]
fn matching_ignores_case() {
    let m = manifest(ManifestFormat::Requirements, &["Requests==2.0"]);
    assert_eq!(m.check(&"requests".to_string()).unwrap(), true);
    let m = manifest(ManifestFormat::Pipfile, &["flask = \"*\""]);
    assert_eq!(m.check(&"Flask".to_string()).unwrap(), true);
}

#[test]
fn requirements_need_a_constraint() {
    let m = manifest(ManifestFormat::Requirements, &["requests", "flask>=1.0", "six ^1", "attrs<2"]);
    assert_eq!(m.check(&"requests".to_string()).unwrap(), false);
    assert_eq!(m.check(&"flask".to_string()).unwrap(), true);
    assert_eq!(m.check(&"six".to_string()).unwrap(), true);
    assert_eq!(m.check(&"attrs".to_string()).unwrap(), true);
}

#[test]
fn commented_requirement_is_not_declared() {
    let m = manifest(ManifestFormat::Requirements, &["# requests>=2.0"]);
    let declared = m.declared_in(&set(&["requests"])).unwrap();
    assert!(declared.is_empty());
    assert!(!declared.contains(&"requests".to_string()));
}

#[test]
fn plain_requirement_is_declared() {
    let manifests = vec![manifest(ManifestFormat::Requirements, &["requests>=2.0"])];
    let candidates = set(&["requests"]);
    let declared = declared_set(&manifests, &candidates).unwrap();
    assert_eq!(declared.to_vec(), owned(&["requests"]));
    assert!(candidates.difference(&declared).is_empty());
}

#[test]
fn package_manifest_key_is_declared() {
    let m = manifest(
        ManifestFormat::PackageManifest,
        &["{", "  \"dependencies\": {", "    \"colors\": \"^1.0.0\",", "    \"@babel/core\": \"7.0.0\"", "  }", "}"],
    );
    assert_eq!(m.check(&"colors".to_string()).unwrap(), true);
    assert_eq!(m.check(&"core".to_string()).unwrap(), true);
    assert_eq!(m.check(&"@babel/core".to_string()).unwrap(), true);
    assert_eq!(m.check(&"left-pad".to_string()).unwrap(), false);
    assert_eq!(m.check(&"dependencies".to_string()).unwrap(), false);
}

#[test]
fn longer_name_does_not_declare_its_prefix() {
    let candidates = set(&["foo"]);
    let files = vec![
        manifest(ManifestFormat::Pipfile, &["foo-extended = \"*\""]),
        manifest(ManifestFormat::Pyproject, &["foo-extended = \"^1.0\""]),
        manifest(ManifestFormat::Requirements, &["foo-extended>=1.0"]),
        manifest(ManifestFormat::PackageManifest, &["    \"foo-extended\": \"^1.0.0\","]),
    ];
    for file in &files {
        assert!(file.declared_in(&candidates).unwrap().is_empty());
    }
    assert!(declared_set(&files, &candidates).unwrap().is_empty());
    let both = set(&["foo", "foo-extended"]);
    assert_eq!(declared_set(&files, &both).unwrap().to_vec(), owned(&["foo-extended"]));
}

#[test]
fn declared_names_are_candidates() {
    let files = vec![
        manifest(ManifestFormat::Requirements, &["requests>=2.0", "flask==1.0", "six>1"]),
        manifest(ManifestFormat::PackageManifest, &["\"colors\": \"^1.0.0\""]),
    ];
    let candidates = set(&["flask", "colors", "left-pad"]);
    let declared = declared_set(&files, &candidates).unwrap();
    for name in declared.to_vec() {
        assert!(candidates.contains(&name));
    }
    assert_eq!(declared.to_vec(), owned(&["flask", "colors"]));
}

#[test]
fn matching_twice_gives_the_same_set() {
    let a = manifest(ManifestFormat::Requirements, &["requests>=2.0", "flask==1.0"]);
    let b = manifest(ManifestFormat::PackageManifest, &["\"colors\": \"^1.0.0\""]);
    let a2 = manifest(ManifestFormat::Requirements, &["requests>=2.0", "flask==1.0"]);
    let b2 = manifest(ManifestFormat::PackageManifest, &["\"colors\": \"^1.0.0\""]);
    let candidates = set(&["colors", "flask", "left-pad", "requests"]);
    let forward = vec![a, b];
    let backward = vec![b2, a2];
    let first = declared_set(&forward, &candidates).unwrap();
    let second = declared_set(&forward, &candidates).unwrap();
    let third = declared_set(&backward, &candidates).unwrap();
    assert_eq!(first.to_vec(), second.to_vec());
    assert_eq!(first.len(), third.len());
    for name in first.to_vec() {
        assert!(third.contains(&name));
    }
    let again = declared_set(&forward, &first).unwrap();
    assert_eq!(again.to_vec(), first.to_vec());
}

#[test]
fn no_manifest_declares_nothing() {
    let candidates = set(&["a", "b("]);
    assert!(declared_set(&Vec::new(), &candidates).unwrap().is_empty());
    let m = manifest(ManifestFormat::Pipfile, &["a = 1"]);
    assert!(m.declared_in(&NameSet::new()).unwrap().is_empty());
}

#[test]
fn name_is_matched_literally() {
    let m = manifest(ManifestFormat::Pipfile, &["axb = \"1\"", "c.d = \"2\"", "e( = 3", "f+ = 4"]);
    assert_eq!(m.check(&"a.b".to_string()).unwrap(), false);
    assert_eq!(m.check(&"axb".to_string()).unwrap(), true);
    assert_eq!(m.check(&"c.d".to_string()).unwrap(), true);
    assert_eq!(m.check(&"e(".to_string()).unwrap(), true);
    assert_eq!(m.check(&"f+".to_string()).unwrap(), true);
    assert_eq!(m.check(&"f".to_string()).unwrap(), false);
    assert_eq!(m.check(&"ff".to_string()).unwrap(), false);
    let m = manifest(ManifestFormat::Requirements, &["ruamel.yaml>=0.15", "ruamelxyaml2==1"]);
    assert_eq!(m.check(&"ruamel.yaml".to_string()).unwrap(), true);
    assert_eq!(m.check(&"ruamel.yaml2".to_string()).unwrap(), false);
    let m = manifest(ManifestFormat::PackageManifest, &["\"lodash.merge\": \"4.6.2\""]);
    assert_eq!(m.check(&"lodash.merge".to_string()).unwrap(), true);
    assert_eq!(m.check(&"lodash-merge".to_string()).unwrap(), false);
}

#[test]
fn name_with_special_characters_does_not_end_the_run() {
    let files = vec![
        manifest(ManifestFormat::Pipfile, &["a = 1"]),
        manifest(ManifestFormat::Requirements, &["a>=1"]),
        manifest(ManifestFormat::PackageManifest, &["\"a\": \"1\""]),
    ];
    let candidates = set(&["b(", "c)", "[d", "e\\", "*", "a"]);
    assert_eq!(declared_set(&files, &candidates).unwrap().to_vec(), owned(&["a"]));
}

#[test]
fn refused_pattern_names_the_candidate() {
    let long = "a".repeat(600_000);
    let m = manifest(ManifestFormat::Pipfile, &["a = 1"]);
    let e = m.check(&long).unwrap_err();
    assert_eq!(e.name, long);
    assert_eq!(e.format, ManifestFormat::Pipfile);
}

#[test]
fn refused_pattern_ends_the_matching_of_a_manifest() {
    let long = "b".repeat(600_000);
    let m = manifest(ManifestFormat::PackageManifest, &["\"a\": \"1\""]);
    let e = m.declared_in(&set(&["a", &long])).unwrap_err();
    assert_eq!(e.name, long);
    assert_eq!(e.format, ManifestFormat::PackageManifest);
}

#[test]
fn refused_pattern_ends_the_matching_of_all_manifests() {
    let long = "c".repeat(600_000);
    let files = vec![manifest(ManifestFormat::Requirements, &[])];
    let e = declared_set(&files, &set(&[&long])).unwrap_err();
    assert_eq!(e.name, long);
    assert_eq!(e.format, ManifestFormat::Requirements);
}

#[test]
fn judge_follows_the_compiled_pattern() {
    let m = manifest(ManifestFormat::Pipfile, &["a = 1", "bb = 2"]);
    let name = "a".to_string();
    assert_eq!(m.judge(&name, regex::Regex::new("^bb")).unwrap(), true);
    assert_eq!(m.judge(&name, regex::Regex::new("^c")).unwrap(), false);
    let e = m.judge(&name, regex::Regex::new("(")).unwrap_err();
    assert_eq!(e.name, "a");
    assert_eq!(e.format, ManifestFormat::Pipfile);
}

#[test]
fn error_names_the_first_refused_candidate() {
    let first = "d".repeat(600_000);
    let second = "e".repeat(600_000);
    let m = manifest(ManifestFormat::Pipfile, &["a = 1"]);
    let e = m.declared_in(&set(&["a", &first, "b", &second])).unwrap_err();
    assert_eq!(e.name, first);
    assert_eq!(e.format, ManifestFormat::Pipfile);
}

#[test]
fn error_names_the_first_manifest_with_a_refused_pattern() {
    let long = "f".repeat(600_000);
    let files = vec![
        manifest(ManifestFormat::PackageManifest, &["\"a\": \"1\""]),
        manifest(ManifestFormat::Requirements, &["a>=1"]),
    ];
    let e = declared_set(&files, &set(&["a", &long])).unwrap_err();
    assert_eq!(e.name, long);
    assert_eq!(e.format, ManifestFormat::PackageManifest);
}

#[test]
fn short_names_are_always_matched() {
    let files = vec![
        manifest(ManifestFormat::Pipfile, &["a = 1"]),
        manifest(ManifestFormat::Pyproject, &["b = 1"]),
        manifest(ManifestFormat::Requirements, &["c>=1"]),
        manifest(ManifestFormat::PackageManifest, &["\"d\": \"1\""]),
    ];
    let candidates = set(&["a", "b", "c", "d", "e", "@scope/f", "g.h-i_j", "k+l", "m(n)"]);
    assert_eq!(declared_set(&files, &candidates).unwrap().to_vec(), owned(&["a", "b", "c", "d"]));
    for file in &files {
        for name in candidates.to_vec() {
            assert!(file.check(&name).is_ok());
        }
    }
}
