use skillpack::errors::CliError;
use skillpack::output::{
    ConfigView, ImportView, InstallView, InstalledItem, InstalledView, Output, OutputFormat, PackInfo, PackSummary,
    ShowView, SinkView, UninstallView,
};

fn info() -> PackInfo {
    PackInfo {
        name: "demo".to_string(),
        file: "/w/packs/demo.yaml".to_string(),
        prefix: "demo".to_string(),
        sep: "__".to_string(),
        flatten: false,
    }
}

fn show() -> ShowView {
    ShowView {
        pack: info(),
        local: vec!["alpha".to_string()],
        imports: vec![ImportView {
            repo: "github.com/o/r".to_string(),
            reference: None,
            commit: "0123456789abcdef".to_string(),
            skills: vec!["tools/x".to_string()],
        }],
        final_install_names: vec!["demo__alpha".to_string(), "demo__tools__x".to_string()],
    }
}

fn install(added: usize, updated: usize, removed: usize) -> InstallView {
    InstallView {
        pack: info(),
        sink: "codex".to_string(),
        sink_path: "/w/sink".to_string(),
        added,
        updated,
        removed,
        installed_paths: vec!["/w/sink/demo__alpha".to_string()],
    }
}

#[test]
fn show_plain_lists_sections() {
    let out = Output::new(OutputFormat::Plain, false, None);
    assert_eq!(
        out.print_show(&show()).unwrap(),
        "local\nalpha\nimport github.com/o/r\ntools/x\nfinal\ndemo__alpha\ndemo__tools__x\n"
    );
}

#[test]
fn show_pretty_uses_short_commit_and_default_ref() {
    let out = Output::new(OutputFormat::Pretty, false, None);
    let text = out.print_show(&show()).unwrap();
    assert!(text.starts_with("Pack: demo\nFile: /w/packs/demo.yaml\nInstall: prefix=demo sep=__\n\n"));
    assert!(text.contains("Local skills (1)\n- alpha\n"));
    assert!(text.contains("- github.com/o/r (ref=default commit=01234567 skills=1)\n  - tools/x\n"));
    assert!(text.ends_with("Final install names (2)\n- demo__alpha\n- demo__tools__x\n"));
}

#[test]
fn json_format_is_left_to_the_caller() {
    let out = Output::new(OutputFormat::Json, true, None);
    assert!(out.print_show(&show()).is_none());
    assert!(out.print_install(&install(1, 0, 0)).is_none());
    assert!(!out.uses_color());
}

#[test]
fn install_hides_zero_counters() {
    let out = Output::new(OutputFormat::Pretty, false, None);
    let text = out.print_install(&install(1, 0, 0)).unwrap();
    assert_eq!(text, "\u{2713} Installed demo to codex\n\n  path /w/sink\n  skills 1\n  changes 1 added\n\n");
    let text = out.print_install(&install(0, 12, 3)).unwrap();
    assert!(!text.contains("added"));
    assert!(text.contains("  changes 12 updated, 3 removed\n"));
    let text = out.print_install(&install(0, 0, 0)).unwrap();
    assert!(!text.contains("changes"));
    let plain = Output::new(OutputFormat::Plain, false, None);
    assert_eq!(plain.print_install(&install(0, 1, 0)).unwrap(), "installed 1 skills to /w/sink\n");
}

#[test]
fn install_report_abbreviates_home() {
    let out = Output::new(OutputFormat::Pretty, false, Some("/w".to_string()));
    let text = out.print_install(&install(0, 1, 0)).unwrap();
    assert!(text.contains("  path ~/sink\n"));
}

#[test]
fn colour_wraps_labels_in_escape_codes() {
    let out = Output::new(OutputFormat::Pretty, true, None);
    let text = out.print_uninstall(&UninstallView {
        pack: "demo".to_string(),
        sink: "codex".to_string(),
        sink_path: "/w/sink".to_string(),
        removed: 105,
    });
    assert_eq!(
        text.unwrap(),
        "\x1b[32m\u{2713}\x1b[0m Uninstalled \x1b[36mdemo\x1b[0m from \x1b[36mcodex\x1b[0m\n\n  \x1b[2mpath\x1b[0m \x1b[2m/w/sink\x1b[0m\n  \x1b[2mremoved\x1b[0m \x1b[33m105\x1b[0m skills\n\n"
    );
    let plain = Output::new(OutputFormat::Pretty, false, None);
    let text = plain.print_uninstall(&UninstallView {
        pack: "demo".to_string(),
        sink: "codex".to_string(),
        sink_path: "/w/sink".to_string(),
        removed: 2,
    });
    assert_eq!(text.unwrap(), "\u{2713} Uninstalled demo from codex\n\n  path /w/sink\n  removed 2 skills\n\n");
}

#[test]
fn listings_in_both_text_formats() {
    let plain = Output::new(OutputFormat::Plain, false, None);
    let pretty = Output::new(OutputFormat::Pretty, false, None);
    let skills = vec!["a".to_string(), "b/c".to_string()];
    assert_eq!(plain.print_skills(&skills).unwrap(), "a\nb/c\n");
    assert_eq!(pretty.print_skills(&skills).unwrap(), "Skills (2)\n- a\n- b/c\n");
    let packs = vec![PackSummary { name: "demo".to_string(), path: "packs/demo.yaml".to_string() }];
    assert_eq!(plain.print_packs(&packs).unwrap(), "demo\n");
    assert_eq!(pretty.print_packs(&packs).unwrap(), "Packs (1)\n- demo (packs/demo.yaml)\n");
    let installed = InstalledView {
        installs: vec![InstalledItem {
            sink: "codex".to_string(),
            pack: "demo".to_string(),
            skill_count: 3,
            installed_at: "t".to_string(),
            sink_path: "/s".to_string(),
        }],
    };
    assert_eq!(plain.print_installed(&installed).unwrap(), "codex demo 3 t /s\n");
    assert_eq!(
        pretty.print_installed(&installed).unwrap(),
        "Installed packs (1)\n- demo (codex) skills=3 installed=t path=/s\n"
    );
    let sink = |n: &str, p: &str| SinkView { name: n.to_string(), path: p.to_string() };
    let config = ConfigView {
        config_path: "/c.yaml".to_string(),
        defaults: vec![sink("codex", "/d")],
        overrides: vec![],
        effective: vec![sink("codex", "/d")],
    };
    assert_eq!(plain.print_config(&config).unwrap(), "codex /d\n");
    assert_eq!(
        pretty.print_config(&config).unwrap(),
        "Config: /c.yaml\n\nDefaults (1)\n- codex /d\n\nOverrides (0)\n\nEffective (1)\n- codex /d\n"
    );
}

#[test]
fn errors_with_and_without_hint() {
    let plain = Output::new(OutputFormat::Plain, false, None);
    let err = CliError::new("pack not installed: demo".to_string()).with_hint("Run sp installed".to_string());
    assert_eq!(plain.print_error(&err).unwrap(), "error: pack not installed: demo\nhint: Run sp installed\n");
    let pretty = Output::new(OutputFormat::Pretty, true, None);
    assert_eq!(
        pretty.print_error(&CliError::new("boom".to_string())).unwrap(),
        "\x1b[31;1mError\x1b[0m: boom\n"
    );
}
