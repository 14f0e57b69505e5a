use skillpack::errors::SkillpackError;
use skillpack::install::{build_install_paths, change_counts, install_pack, uninstall_pack};
use skillpack::pack::Pack;
use skillpack::resolve::{ResolvedPack, ResolvedSkill, SkillSource};
use skillpack::state::{find_record_index, record_owned_path, InstallRecord, StateFile};
use skillpack::util::install_name;

fn base_pack() -> Pack {
    Pack {
        name: "demo".to_string(),
        includes: vec![],
        exclude: vec![],
        imports: vec![],
        install_prefix: "demo".to_string(),
        install_sep: "__".to_string(),
        install_flatten: false,
    }
}

fn resolved_pack(skills: Vec<ResolvedSkill>) -> ResolvedPack {
    ResolvedPack {
        pack: base_pack(),
        pack_file: "/work/packs/demo.yaml".to_string(),
        local: vec![],
        imports: vec![],
        final_skills: skills,
    }
}

fn skill(id: &str) -> ResolvedSkill {
    ResolvedSkill { id: id.to_string(), dir: format!("/work/skills/{id}"), source: SkillSource::Local }
}

fn record(paths: &[&str]) -> InstallRecord {
    InstallRecord {
        sink: "codex".to_string(),
        sink_path: "/work/sink".to_string(),
        pack: "demo".to_string(),
        pack_file: "/work/packs/demo.yaml".to_string(),
        prefix: "demo".to_string(),
        sep: "__".to_string(),
        flatten: false,
        imports: vec![],
        installed_paths: paths.iter().map(|s| s.to_string()).collect(),
        installed_at: "2025-01-01T00:00:00Z".to_string(),
    }
}

#[test]
fn install_name_flattens() {
    assert_eq!(install_name("p", "__", "a/b"), "p__a__b");
}

#[test]
fn install_errors_on_unowned_dest() {
    let pack = resolved_pack(vec![skill("a/b")]);
    let mut state = StateFile::default();
    let err = install_pack(&pack, "codex", "/work/sink", &mut state, &vec![true], "now".to_string()).unwrap_err();
    assert!(err.to_cli_error().message().contains("not owned"));
    match err {
        SkillpackError::DestinationNotOwned { path } => assert_eq!(path, "/work/sink/demo__a__b"),
        other => panic!("unexpected error {:?}", other),
    }
    assert!(state.installs.is_empty());
}

#[test]
fn unowned_dest_of_other_pack_is_refused_and_state_kept() {
    let pack = resolved_pack(vec![skill("a")]);
    let mut other = record(&["/work/sink/demo__a"]);
    other.pack = "other".to_string();
    let mut state = StateFile { version: 1, installs: vec![other] };
    let err = install_pack(&pack, "codex", "/work/sink", &mut state, &vec![true], "now".to_string()).unwrap_err();
    assert!(matches!(err, SkillpackError::DestinationNotOwned { .. }));
    assert_eq!(state.installs.len(), 1);
    assert_eq!(state.installs[0].pack, "other");
}

#[test]
fn install_reconciles_old_paths() {
    let pack = resolved_pack(vec![skill("new")]);
    let mut state = StateFile::default();
    state.installs.push(record(&["/work/sink/demo__old"]));
    let plan = install_pack(&pack, "codex", "/work/sink", &mut state, &vec![false], "now".to_string()).unwrap();
    assert_eq!(plan.remove, vec!["/work/sink/demo__old".to_string()]);
    assert_eq!(plan.copies.len(), 1);
    assert_eq!(plan.copies[0].dest, "/work/sink/demo__new");
    assert_eq!(plan.copies[0].src, "/work/skills/new");
    assert!(!plan.copies[0].replace);
    assert_eq!(state.installs.len(), 1);
    let rec = &state.installs[plan.record_index];
    assert_eq!(rec.installed_paths, vec!["/work/sink/demo__new".to_string()]);
    assert_eq!(rec.installed_at, "now");
}

#[test]
fn reinstall_counts_every_path_as_updated() {
    let pack = resolved_pack(vec![skill("b"), skill("a")]);
    let mut state = StateFile::default();
    let first = install_pack(&pack, "codex", "/work/sink", &mut state, &vec![false, false], "t1".to_string()).unwrap();
    let first_paths = state.installs[first.record_index].installed_paths.clone();
    assert_eq!(first_paths, vec!["/work/sink/demo__a".to_string(), "/work/sink/demo__b".to_string()]);
    let second = install_pack(&pack, "codex", "/work/sink", &mut state, &vec![true, true], "t2".to_string()).unwrap();
    assert!(second.remove.is_empty());
    assert!(second.copies.iter().all(|c| c.replace));
    assert_eq!(state.installs.len(), 1);
    let second_paths = state.installs[second.record_index].installed_paths.clone();
    assert_eq!(second_paths, first_paths);
    let counts = change_counts(&first_paths, &second_paths);
    assert_eq!((counts.added, counts.updated, counts.removed), (0, 2, 0));
}

#[test]
fn stale_path_outside_sink_is_refused() {
    let pack = resolved_pack(vec![skill("a")]);
    let mut state = StateFile::default();
    state.installs.push(record(&["/etc/passwd"]));
    let err = install_pack(&pack, "codex", "/work/sink", &mut state, &vec![false], "now".to_string()).unwrap_err();
    match err {
        SkillpackError::OutsideSink { path } => assert_eq!(path, "/etc/passwd"),
        other => panic!("unexpected error {:?}", other),
    }
    assert_eq!(state.installs[0].installed_paths, vec!["/etc/passwd".to_string()]);
}

#[test]
fn uninstall_removes_recorded_paths() {
    let mut state = StateFile::default();
    state.installs.push(record(&["/work/sink/demo__a"]));
    let record = uninstall_pack(&mut state, "/work/sink", "demo").unwrap();
    assert!(state.installs.is_empty());
    assert_eq!(record.pack, "demo");
    assert_eq!(record.installed_paths, vec!["/work/sink/demo__a".to_string()]);
}

#[test]
fn uninstall_of_missing_pack_fails() {
    let mut state = StateFile::default();
    state.installs.push(record(&[]));
    let err = uninstall_pack(&mut state, "/work/sink", "other").unwrap_err();
    assert!(matches!(err, SkillpackError::PackNotInstalled { .. }));
    let err = uninstall_pack(&mut state, "/elsewhere", "demo").unwrap_err();
    assert!(matches!(err, SkillpackError::PackNotInstalled { .. }));
    assert_eq!(state.installs.len(), 1);
}

#[test]
fn uninstall_refuses_paths_outside_sink() {
    let mut state = StateFile::default();
    state.installs.push(record(&["/work/sink/demo__a", "/work/sinkhole/x"]));
    let err = uninstall_pack(&mut state, "/work/sink", "demo").unwrap_err();
    assert!(matches!(err, SkillpackError::OutsideSink { .. }));
    assert_eq!(state.installs.len(), 1);
}

#[test]
fn install_paths_are_sorted_destinations() {
    let skills = vec![skill("z"), skill("a/b"), skill("m")];
    let paths = build_install_paths(&skills, "/s/", "p", "-");
    assert_eq!(paths, vec!["/s/p-a-b".to_string(), "/s/p-m".to_string(), "/s/p-z".to_string()]);
}

#[test]
fn change_counts_compare_path_sets() {
    let old = vec!["/s/a".to_string(), "/s/b".to_string()];
    let new = vec!["/s/b".to_string(), "/s/c".to_string(), "/s/d".to_string()];
    let counts = change_counts(&old, &new);
    assert_eq!((counts.added, counts.updated, counts.removed), (2, 1, 1));
}

#[test]
fn state_lookups_find_first_record() {
    let mut state = StateFile::default();
    state.installs.push(record(&["/work/sink/demo__a"]));
    let mut second = record(&["/work/sink/demo__b"]);
    second.sink_path = "/other".to_string();
    state.installs.push(second);
    assert_eq!(find_record_index(&state, "/other", "demo"), Some(1));
    assert_eq!(find_record_index(&state, "/nope", "demo"), None);
    assert!(record_owned_path(&state, "/work/sink", "demo", "/work/sink/demo__a"));
    assert!(!record_owned_path(&state, "/work/sink", "demo", "/work/sink/demo__b"));
    assert_eq!(StateFile::default().version, 1);
}

#[test]
fn stale_path_climbing_out_of_sink_is_refused() {
    let pack = resolved_pack(vec![skill("a")]);
    let mut state = StateFile::default();
    state.installs.push(record(&["/work/sink/../x"]));
    let err = install_pack(&pack, "codex", "/work/sink", &mut state, &vec![false], "now".to_string()).unwrap_err();
    assert!(matches!(err, SkillpackError::OutsideSink { .. }));
}

#[test]
fn prefix_climbing_out_of_sink_is_refused() {
    let mut pack = resolved_pack(vec![skill("a")]);
    pack.pack.install_prefix = "../evil".to_string();
    let mut state = StateFile::default();
    let err = install_pack(&pack, "codex", "/work/sink", &mut state, &vec![false], "now".to_string()).unwrap_err();
    match err {
        SkillpackError::OutsideSink { path } => assert_eq!(path, "/work/sink/../evil__a"),
        other => panic!("unexpected error {:?}", other),
    }
    assert!(state.installs.is_empty());
}

#[test]
fn colliding_skills_keep_both_paths() {
    let paths = build_install_paths(&vec![skill("a/b"), skill("a__b")], "/s", "p", "__");
    assert_eq!(paths, vec!["/s/p__a__b".to_string(), "/s/p__a__b".to_string()]);
}
