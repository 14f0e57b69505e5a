use skillpack::discover::Skill;
use skillpack::errors::SkillpackError;
use skillpack::pack::{ImportSpec, Pack};
use skillpack::resolve::{
    apply_excludes, detect_collisions, resolve_pack, select_included, FetchedImport, ResolvedSkill, SkillSource,
};

fn pack(name: &str, includes: &[&str]) -> Pack {
    Pack {
        name: name.to_string(),
        includes: includes.iter().map(|s| s.to_string()).collect(),
        exclude: vec![],
        imports: vec![],
        install_prefix: name.to_string(),
        install_sep: "__".to_string(),
        install_flatten: false,
    }
}

fn skill(id: &str, dir: &str) -> Skill {
    Skill { id: id.to_string(), dir: dir.to_string() }
}

fn resolved(id: &str) -> ResolvedSkill {
    ResolvedSkill { id: id.to_string(), dir: format!("/tmp/{id}"), source: SkillSource::Local }
}

fn writing_import() -> (ImportSpec, FetchedImport) {
    let spec = ImportSpec {
        repo: "/tmp/remote".to_string(),
        ref_name: None,
        includes: vec!["tools/**".to_string()],
        exclude: None,
    };
    let fetched = FetchedImport {
        commit: "0123456789abcdef".to_string(),
        skills: vec![skill("tools/agent/skills/general/writing", "/cache/x/tools/agent/skills/general/writing")],
    };
    (spec, fetched)
}

#[test]
fn include_pattern_must_match() {
    let local = vec![skill("alpha", "/repo/skills/alpha")];
    let err = resolve_pack(pack("demo", &["missing/**"]), "/repo/packs/demo.yaml".to_string(), &local, &vec![])
        .unwrap_err();
    assert!(err.to_cli_error().message().contains("matched zero skills"));
    match err {
        SkillpackError::PatternMatchedNothing { pattern, .. } => assert_eq!(pattern, "missing/**"),
        other => panic!("unexpected error {:?}", other),
    }
}

#[test]
fn resolves_imported_skills() {
    let (spec, fetched) = writing_import();
    let mut p = pack("demo", &["local/**"]);
    p.imports = vec![spec];
    let local = vec![skill("local", "/repo/skills/local")];
    let resolved = resolve_pack(p, "/repo/packs/demo.yaml".to_string(), &local, &vec![fetched]).unwrap();
    assert_eq!(resolved.imports.len(), 1);
    let import = &resolved.imports[0];
    assert_eq!(import.skills.len(), 1);
    assert_eq!(import.skills[0].id, "tools/agent/skills/general/writing");
    assert_eq!(import.commit, "0123456789abcdef");
    let ids: Vec<&str> = resolved.final_skills.iter().map(|s| s.id.as_str()).collect();
    assert_eq!(ids, vec!["local", "tools/agent/skills/general/writing"]);
}

#[test]
fn resolves_imported_skills_without_local_include() {
    let (spec, fetched) = writing_import();
    let mut p = pack("demo", &[]);
    p.imports = vec![spec];
    let resolved = resolve_pack(p, "/repo/packs/demo.yaml".to_string(), &vec![], &vec![fetched]).unwrap();
    assert_eq!(resolved.imports.len(), 1);
    let import = &resolved.imports[0];
    assert_eq!(import.skills.len(), 1);
    assert_eq!(import.skills[0].id, "tools/agent/skills/general/writing");
    assert!(resolved.local.is_empty());
    match &import.skills[0].source {
        SkillSource::Remote { repo } => assert_eq!(repo, "/tmp/remote"),
        SkillSource::Local => panic!("expected a remote skill"),
    }
}

#[test]
fn single_include_resolves_to_one_skill() {
    let local = vec![skill("alpha", "/r/alpha"), skill("beta", "/r/beta")];
    let resolved = resolve_pack(pack("demo", &["beta"]), "f".to_string(), &local, &vec![]).unwrap();
    assert_eq!(resolved.final_skills.len(), 1);
    assert_eq!(resolved.final_skills[0].id, "beta");
}

#[test]
fn pack_excludes_apply_to_union_and_result_is_sorted() {
    let local = vec![skill("c", "/r/c"), skill("a/x", "/r/a/x"), skill("a/y", "/r/a/y"), skill("b", "/r/b")];
    let mut p = pack("demo", &["a/**", "c", "b"]);
    p.exclude = vec!["a/y".to_string()];
    let resolved = resolve_pack(p, "f".to_string(), &local, &vec![]).unwrap();
    let ids: Vec<&str> = resolved.final_skills.iter().map(|s| s.id.as_str()).collect();
    assert_eq!(ids, vec!["a/x", "b", "c"]);
    let local_ids: Vec<&str> = resolved.local.iter().map(|s| s.id.as_str()).collect();
    assert_eq!(local_ids, vec!["a/x", "a/y", "b", "c"]);
}

#[test]
fn same_id_from_two_sources_is_kept_twice() {
    let (mut spec, mut fetched) = writing_import();
    spec.includes = vec!["alpha".to_string()];
    fetched.skills = vec![skill("alpha", "/cache/alpha")];
    let mut p = pack("demo", &["alpha"]);
    p.imports = vec![spec];
    let resolved = resolve_pack(p, "f".to_string(), &vec![skill("alpha", "/r/alpha")], &vec![fetched]).unwrap();
    assert_eq!(resolved.final_skills.len(), 2);
    let err = detect_collisions(&resolved.final_skills, "demo", "__", false).unwrap_err();
    assert!(matches!(err, SkillpackError::NameCollision { .. }));
}

#[test]
fn import_include_must_match_and_excludes_apply() {
    let (mut spec, fetched) = writing_import();
    spec.includes = vec!["nothing/**".to_string()];
    let mut p = pack("demo", &[]);
    p.imports = vec![spec.clone()];
    let err = resolve_pack(p, "f".to_string(), &vec![], &vec![fetched.clone()]).unwrap_err();
    match err {
        SkillpackError::PatternMatchedNothing { label, pattern } => {
            assert_eq!(label, "import include");
            assert_eq!(pattern, "nothing/**");
        }
        other => panic!("unexpected error {:?}", other),
    }
    spec.includes = vec!["tools/**".to_string()];
    spec.exclude = Some(vec!["**/writing".to_string()]);
    let mut p = pack("demo", &[]);
    p.imports = vec![spec];
    let resolved = resolve_pack(p, "f".to_string(), &vec![], &vec![fetched]).unwrap();
    assert!(resolved.imports[0].skills.is_empty());
    assert!(resolved.final_skills.is_empty());
}

#[test]
fn invalid_exclude_is_reported() {
    let mut p = pack("demo", &["a"]);
    p.exclude = vec!["x**".to_string()];
    let err = resolve_pack(p, "f".to_string(), &vec![skill("a", "/a")], &vec![]).unwrap_err();
    assert!(matches!(err, SkillpackError::InvalidPattern { .. }));
}

#[test]
fn select_and_exclude_helpers() {
    let skills = vec![resolved("b"), resolved("a"), resolved("c/d")];
    let sel = select_included(&skills, &vec!["c/*".to_string(), "a".to_string()], "local include").unwrap();
    let ids: Vec<&str> = sel.iter().map(|s| s.id.as_str()).collect();
    assert_eq!(ids, vec!["a", "c/d"]);
    let kept = apply_excludes(&skills, &vec![]).unwrap();
    let ids: Vec<&str> = kept.iter().map(|s| s.id.as_str()).collect();
    assert_eq!(ids, vec!["a", "b", "c/d"]);
}

#[test]
fn detect_collisions_fails() {
    let skills = vec![
        ResolvedSkill { id: "a/b".to_string(), dir: "/tmp/a".to_string(), source: SkillSource::Local },
        ResolvedSkill { id: "a__b".to_string(), dir: "/tmp/b".to_string(), source: SkillSource::Local },
    ];
    let err = detect_collisions(&skills, "p", "__", false).unwrap_err();
    assert!(err.to_cli_error().message().contains("collision"));
}

#[test]
fn flattened_names_collide() {
    let skills = vec![resolved("a/b"), resolved("a__b")];
    let err = detect_collisions(&skills, "p", "__", false).unwrap_err();
    match err {
        SkillpackError::NameCollision { name } => assert_eq!(name, "p__a__b"),
        other => panic!("unexpected error {:?}", other),
    }
    assert!(detect_collisions(&vec![resolved("a/b"), resolved("a_b")], "p", "__", true).is_ok());
}

#[test]
fn invalid_import_exclude_is_reported() {
    let (mut spec, fetched) = writing_import();
    spec.exclude = Some(vec!["bad**".to_string()]);
    let mut p = pack("demo", &[]);
    p.imports = vec![spec];
    match resolve_pack(p, "f".to_string(), &vec![], &vec![fetched]).unwrap_err() {
        SkillpackError::InvalidPattern { pattern } => assert_eq!(pattern, "bad**"),
        other => panic!("unexpected error {:?}", other),
    }
}

#[test]
fn first_name_seen_twice_is_reported() {
    let skills = vec![resolved("x"), resolved("a/b"), resolved("y"), resolved("a__b"), resolved("x")];
    match detect_collisions(&skills, "p", "__", false).unwrap_err() {
        SkillpackError::NameCollision { name } => assert_eq!(name, "p__a__b"),
        other => panic!("unexpected error {:?}", other),
    }
}
