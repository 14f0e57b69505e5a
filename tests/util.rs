use skillpack::config::{
    collect_agents, config_detail, default_sinks, require_agents, resolve_sink_path, validate_agent_selection,
    AgentTargets, Config, SinkEntry,
};
use skillpack::errors::{CliError, SkillpackError};
use skillpack::git::{expand_repo, repo_cache_dir};
use skillpack::output::{installed_items, merge_pack_summaries, show_view, unique_sorted, Output, OutputFormat, PackSummary};
use skillpack::pack::Pack;
use skillpack::resolve::{ResolvedPack, ResolvedSkill, SkillSource};
use skillpack::state::{InstallRecord, StateFile};
use skillpack::util::{
    abbreviate_path, ancestors, discover_repo_root, ensure_child_path, flatten_id, join_path, named_pack_path, path_to_id,
};

#[test]
fn discover_repo_root_finds_parent() {
    let start = "/tmp/work/a/b";
    let all = ancestors(start);
    assert_eq!(all, vec!["/tmp/work/a/b", "/tmp/work/a", "/tmp/work", "/tmp", "/"]);
    let marks: Vec<bool> = all.iter().map(|p| p == "/tmp/work").collect();
    assert_eq!(discover_repo_root(start, &marks), Some("/tmp/work".to_string()));
}

#[test]
fn discover_repo_root_none_without_markers() {
    let start = "work/a/b";
    let all = ancestors(start);
    assert_eq!(all, vec!["work/a/b", "work/a", "work", ""]);
    let marks = vec![false; all.len()];
    assert_eq!(discover_repo_root(start, &marks), None);
}

#[test]
fn path_helpers() {
    assert_eq!(flatten_id("a/b/c", "__"), "a__b__c");
    assert_eq!(flatten_id("plain", "-"), "plain");
    assert_eq!(path_to_id(&vec!["a".to_string(), "b".to_string()]), "a/b");
    assert_eq!(join_path("/s", "x"), "/s/x");
    assert_eq!(join_path("/s/", "x"), "/s/x");
    assert_eq!(join_path("/s", "/abs"), "/abs");
    assert!(ensure_child_path("/work/sink", "/work/sink/demo__a").is_ok());
    assert!(ensure_child_path("/work/sink/", "/work//sink/demo__a").is_ok());
    assert!(ensure_child_path("/work/sink", "/work/sinkhole").is_err());
    assert!(ensure_child_path("/work/sink", "work/sink/a").is_err());
    assert!(ensure_child_path("/s", "/s/../x").is_err());
    assert!(ensure_child_path("/s", "/s/a/../../x").is_err());
    assert!(ensure_child_path("/s", "/s/./a").is_ok());
    assert!(ensure_child_path("/s/.", "/s/x").is_ok());
    assert!(ensure_child_path("/s", "/s/./../x").is_err());
    assert!(ensure_child_path("/s", "/s/a..b").is_ok());
    assert_eq!(named_pack_path("/repo", "demo"), Some("/repo/packs/demo.yaml".to_string()));
    assert_eq!(named_pack_path("/repo", "demo.yml"), None);
}

#[test]
fn repository_addresses() {
    assert_eq!(expand_repo("github.com/org/repo"), "https://github.com/org/repo.git");
    assert_eq!(expand_repo("/tmp/remote"), "/tmp/remote");
    let a = repo_cache_dir("/cache", "github.com/org/repo");
    let b = repo_cache_dir("/cache", "https://github.com/org/repo.git");
    let c = repo_cache_dir("/cache", "/tmp/remote");
    assert_eq!(a, b);
    assert_ne!(a, c);
    assert!(a.starts_with("/cache/"));
    assert_eq!(a.len(), "/cache/".len() + 64);
    assert_ne!(&a["/cache/".len()..], "https://github.com/org/repo.git");
}

#[test]
fn agent_selection() {
    let t = AgentTargets { codex: true, custom: false, cursor: true, ..AgentTargets::default() };
    assert_eq!(collect_agents(&t), vec!["codex".to_string(), "cursor".to_string()]);
    assert!(matches!(require_agents(&AgentTargets::default()), Err(SkillpackError::NoAgentTargets)));
    let custom_and_codex = vec!["codex".to_string(), "custom".to_string()];
    assert!(matches!(validate_agent_selection(&custom_and_codex, None), Err(SkillpackError::CustomAgentNotAlone)));
    let two = vec!["codex".to_string(), "cursor".to_string()];
    assert!(matches!(validate_agent_selection(&two, Some("/x")), Err(SkillpackError::PathNeedsSingleAgent)));
    assert!(validate_agent_selection(&two, None).is_ok());
}

#[test]
fn sinks_and_overrides() {
    let defaults = default_sinks("/home/u");
    assert_eq!(defaults[0].name, "codex");
    assert_eq!(defaults[0].path, "/home/u/.codex/skills");
    let detail = config_detail(
        "/home/u/.skillpack/config.yaml".to_string(),
        "/home/u",
        vec![SinkEntry { name: "codex".to_string(), path: "/opt/codex".to_string() }, SinkEntry {
            name: "aider".to_string(),
            path: "/opt/aider".to_string(),
        }],
    );
    let names: Vec<&str> = detail.effective.iter().map(|s| s.name.as_str()).collect();
    assert_eq!(names, vec!["aider", "codex", "copilot", "cursor", "windsurf"]);
    assert_eq!(detail.effective[1].path, "/opt/codex");
    let config = Config { sinks: detail.effective };
    assert_eq!(resolve_sink_path(&config, "codex", None).unwrap(), "/opt/codex");
    assert_eq!(resolve_sink_path(&config, "custom", Some("/x")).unwrap(), "/x");
    assert!(matches!(resolve_sink_path(&config, "custom", None), Err(SkillpackError::CustomAgentNeedsPath)));
    match resolve_sink_path(&config, "vim", None) {
        Err(e) => {
            let cli = e.to_cli_error();
            assert_eq!(cli.message(), "unknown agent: vim");
            assert!(cli.hint().unwrap().starts_with("Available agents: aider, codex"));
        }
        Ok(p) => panic!("unexpected path {p}"),
    }
}

#[test]
fn views_and_listing() {
    let resolved = ResolvedPack {
        pack: Pack {
            name: "demo".to_string(),
            includes: vec![],
            exclude: vec![],
            imports: vec![],
            install_prefix: "demo".to_string(),
            install_sep: "__".to_string(),
            install_flatten: false,
        },
        pack_file: "/w/packs/demo.yaml".to_string(),
        local: vec![],
        imports: vec![],
        final_skills: vec![ResolvedSkill { id: "alpha/x".to_string(), dir: "/w".to_string(), source: SkillSource::Local }],
    };
    let view = show_view(&resolved);
    assert_eq!(view.final_install_names, vec!["demo__alpha__x".to_string()]);
    assert_eq!(view.pack.file, "/w/packs/demo.yaml");
    let ids = unique_sorted(vec!["b".to_string(), "a".to_string(), "b".to_string()]);
    assert_eq!(ids, vec!["a".to_string(), "b".to_string()]);
    let rec = |sink: &str, pack: &str, path: &str| InstallRecord {
        sink: sink.to_string(),
        sink_path: path.to_string(),
        pack: pack.to_string(),
        pack_file: String::new(),
        prefix: String::new(),
        sep: String::new(),
        flatten: false,
        imports: vec![],
        installed_paths: vec!["x".to_string()],
        installed_at: "t".to_string(),
    };
    let state = StateFile { version: 1, installs: vec![rec("codex", "b", "/c"), rec("cursor", "z", "/d"), rec("codex", "a", "/c")] };
    let all = installed_items(&state, None);
    let order: Vec<(String, String)> = all.iter().map(|i| (i.sink.clone(), i.pack.clone())).collect();
    assert_eq!(order, vec![
        ("codex".to_string(), "a".to_string()),
        ("codex".to_string(), "b".to_string()),
        ("cursor".to_string(), "z".to_string()),
    ]);
    let only = installed_items(&state, Some(&vec!["/d".to_string()]));
    assert_eq!(only.len(), 1);
    assert_eq!(only[0].skill_count, 1);
    let out = Output::new(OutputFormat::Plain, true, None);
    assert_eq!(out.format(), OutputFormat::Plain);
    assert!(!out.uses_color());
}

#[test]
fn cli_error_message_and_hint() {
    let e = CliError::new("boom".to_string());
    assert_eq!(e.message(), "boom");
    assert_eq!(e.hint(), None);
    let e = e.with_hint("try again".to_string());
    assert_eq!(e.hint(), Some("try again"));
}

#[test]
fn later_pack_of_same_name_wins() {
    let packs = vec![
        PackSummary { name: "demo".to_string(), path: "bundled/demo.yaml".to_string() },
        PackSummary { name: "alpha".to_string(), path: "packs/alpha.yaml".to_string() },
        PackSummary { name: "demo".to_string(), path: "packs/demo.yaml".to_string() },
    ];
    let merged = merge_pack_summaries(packs);
    let shown: Vec<(&str, &str)> = merged.iter().map(|p| (p.name.as_str(), p.path.as_str())).collect();
    assert_eq!(shown, vec![("alpha", "packs/alpha.yaml"), ("demo", "packs/demo.yaml")]);
}

#[test]
fn abbreviate_path_respects_segment_boundary() {
    let Some(home) = dirs::home_dir() else {
        return;
    };
    let home_str = home.to_string_lossy().to_string();
    let sibling = format!("{home_str}x");
    assert_eq!(abbreviate_path(&sibling, Some(&home_str)), sibling);
}

#[test]
fn abbreviate_path_abbreviates_home_and_child() {
    let Some(home) = dirs::home_dir() else {
        return;
    };
    let home_str = home.to_string_lossy().to_string();
    assert_eq!(abbreviate_path(&home_str, Some(&home_str)), "~");

    let child_str = home.join("child").to_string_lossy().to_string();
    let expected = format!("~{}child", std::path::MAIN_SEPARATOR);
    assert_eq!(abbreviate_path(&child_str, Some(&home_str)), expected);
}

#[test]
fn abbreviate_path_without_home_keeps_path() {
    assert_eq!(abbreviate_path("/home/u/x", None), "/home/u/x");
    assert_eq!(abbreviate_path("/home/u/a/b", Some("/home/u")), "~/a/b");
    assert_eq!(abbreviate_path("/home/uv", Some("/home/u")), "/home/uv");
}

#[test]
fn import_failure_message_names_repository() {
    let err = SkillpackError::ImportResolutionFailed { repo: "github.com/o/r".to_string(), detail: "no route".to_string() };
    assert_eq!(err.to_cli_error().message(), "failed to resolve import github.com/o/r: no route");
}
