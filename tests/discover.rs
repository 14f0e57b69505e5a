use skillpack::discover::{discover_local_skills, discover_remote_skills, discover_skills, SkillFileEntry};
use skillpack::errors::{LayoutProblem, SkillpackError};

fn entry(parent: &[&str]) -> SkillFileEntry {
    SkillFileEntry {
        parent: parent.iter().map(|s| s.to_string()).collect(),
        is_file: true,
        file_is_link: false,
        parent_is_link: false,
        parent_is_dir: true,
    }
}

#[test]
fn local_skills_leaf_only() {
    let entries = vec![entry(&["a"]), entry(&["a", "b"])];
    let found = discover_skills("/tmp/repo/skills", &entries, true).unwrap();
    assert_eq!(found.len(), 1);
    assert_eq!(found[0].id, "a/b");
    assert_eq!(found[0].dir, "/tmp/repo/skills/a/b");
}

#[test]
fn local_skills_root_invalid() {
    let entries = vec![entry(&[])];
    let err = discover_skills("/tmp/repo/skills", &entries, true).unwrap_err();
    assert!(err.to_cli_error().message().contains("skills/SKILL.md"));
}

#[test]
fn skill_md_symlink_requires_symlinked_folder() {
    let mut alias = entry(&["alias"]);
    alias.file_is_link = true;
    let err = discover_skills("/tmp/repo/skills", &vec![alias], true).unwrap_err();
    assert!(err.to_cli_error().message().contains("SKILL.md is a symlink"));
}

#[test]
fn linked_skill_folder_is_accepted() {
    let mut alias = entry(&["alias"]);
    alias.file_is_link = true;
    alias.parent_is_link = true;
    let found = discover_skills("/tmp/repo/skills", &vec![alias], true).unwrap();
    assert_eq!(found[0].id, "alias");
}

#[test]
fn remote_tree_skips_root_skill_file() {
    let entries = vec![entry(&[]), entry(&["tools", "x"])];
    let found = discover_remote_skills("/cache/abc", &entries).unwrap();
    assert_eq!(found.len(), 1);
    assert_eq!(found[0].id, "tools/x");
    assert_eq!(found[0].dir, "/cache/abc/tools/x");
}

#[test]
fn skills_are_sorted_and_non_files_ignored() {
    let mut dir_named_like_file = entry(&["zeta"]);
    dir_named_like_file.is_file = false;
    let entries = vec![entry(&["gamma"]), entry(&["alpha", "x"]), dir_named_like_file, entry(&["beta"])];
    let found = discover_skills("r", &entries, true).unwrap();
    let ids: Vec<String> = found.iter().map(|s| s.id.clone()).collect();
    assert_eq!(ids, vec!["alpha/x", "beta", "gamma"]);
}

#[test]
fn skill_folder_must_be_directory() {
    let mut broken = entry(&["broken"]);
    broken.parent_is_dir = false;
    let err = discover_skills("/r", &vec![broken], true).unwrap_err();
    match err {
        SkillpackError::InvalidSkillLayout { layout, path } => {
            assert_eq!(layout, LayoutProblem::NotADirectory);
            assert_eq!(path, "/r/broken");
        }
        other => panic!("unexpected error {:?}", other),
    }
}

#[test]
fn local_discovery_needs_skills_root() {
    let err = discover_local_skills("/repo", false, &vec![]).unwrap_err();
    match err {
        SkillpackError::SkillsRootMissing { path } => assert_eq!(path, "/repo/skills"),
        other => panic!("unexpected error {:?}", other),
    }
    let found = discover_local_skills("/repo", true, &vec![entry(&["one"])]).unwrap();
    assert_eq!(found[0].dir, "/repo/skills/one");
}

#[test]
fn first_problem_entry_decides_the_error() {
    let mut broken = entry(&["broken"]);
    broken.parent_is_dir = false;
    let mut linked = entry(&["linked"]);
    linked.file_is_link = true;
    let entries = vec![broken, linked, entry(&[])];
    match discover_skills("/r", &entries, true).unwrap_err() {
        SkillpackError::InvalidSkillLayout { layout, path } => {
            assert_eq!(layout, LayoutProblem::LinkedSkillFile);
            assert_eq!(path, "/r/linked");
        }
        other => panic!("unexpected error {:?}", other),
    }
}

#[test]
fn one_skill_per_leaf_entry() {
    let entries = vec![entry(&["a"]), entry(&["a", "b"]), entry(&["c"])];
    let found = discover_skills("/r", &entries, true).unwrap();
    let ids: Vec<&str> = found.iter().map(|s| s.id.as_str()).collect();
    assert_eq!(ids, vec!["a/b", "c"]);
}
