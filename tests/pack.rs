use skillpack::errors::{ManifestProblem, SkillpackError};
use skillpack::pack::{pack_from_file, validate_pack, ImportSpec, InstallSpec, PackFile};

fn file(name: &str, includes: &[&str]) -> PackFile {
    PackFile {
        name: name.to_string(),
        includes: includes.iter().map(|s| s.to_string()).collect(),
        exclude: None,
        imports: None,
        install: None,
    }
}

fn problem(f: &PackFile) -> ManifestProblem {
    match validate_pack(f).unwrap_err() {
        SkillpackError::InvalidManifest { problem } => problem,
        other => panic!("unexpected error {:?}", other),
    }
}

#[test]
fn load_pack_defaults() {
    let loaded = pack_from_file(file("demo", &["general/**"])).unwrap();
    assert_eq!(loaded.install_prefix, "demo");
    assert_eq!(loaded.install_sep, "__");
    assert!(!loaded.install_flatten);
}

#[test]
fn load_pack_flatten_true() {
    let mut f = file("demo", &["general/**"]);
    f.install = Some(InstallSpec { prefix: None, sep: None, flatten: Some(true) });
    let loaded = pack_from_file(f).unwrap();
    assert!(loaded.install_flatten);
}

#[test]
fn install_settings_override_defaults() {
    let mut f = file("demo", &["a"]);
    f.install = Some(InstallSpec { prefix: Some("p".to_string()), sep: Some("-".to_string()), flatten: None });
    f.exclude = Some(vec!["x".to_string()]);
    let loaded = pack_from_file(f).unwrap();
    assert_eq!(loaded.install_prefix, "p");
    assert_eq!(loaded.install_sep, "-");
    assert_eq!(loaded.exclude, vec!["x".to_string()]);
    assert!(loaded.imports.is_empty());
}

#[test]
fn manifest_problems_are_reported() {
    assert_eq!(problem(&file("  \t", &["a"])), ManifestProblem::MissingName);
    assert_eq!(problem(&file("demo", &[])), ManifestProblem::NoSkills);
    let mut f = file("demo", &[]);
    f.imports = Some(vec![]);
    assert_eq!(problem(&f), ManifestProblem::NoSkills);
    f.imports = Some(vec![ImportSpec { repo: " ".to_string(), ref_name: None, includes: vec!["x".to_string()], exclude: None }]);
    assert_eq!(problem(&f), ManifestProblem::MissingImportRepo);
    f.imports = Some(vec![ImportSpec { repo: "r".to_string(), ref_name: None, includes: vec![], exclude: None }]);
    assert_eq!(problem(&f), ManifestProblem::EmptyImportInclude);
    f.imports = Some(vec![ImportSpec { repo: "r".to_string(), ref_name: None, includes: vec!["x".to_string()], exclude: None }]);
    assert!(validate_pack(&f).is_ok());
    let err = pack_from_file(file("", &["a"])).unwrap_err();
    assert_eq!(err.to_cli_error().message(), "pack name is required");
}
