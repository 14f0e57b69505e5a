//! Errors of the library, and their user-facing message and hint.
use vstd::prelude::*;
use vstd::string::StringExecFns;

verus! {

/// A message for the user, with an optional hint on how to fix the cause.
#[derive(Clone, Debug)]
pub struct CliError {
    message: String,
    hint: Option<String>,
}

impl CliError {
    /// The message, as text.
    pub closed spec fn message_view(&self) -> Seq<char> {
        self.message@
    }

    /// The hint, as text.
    pub closed spec fn hint_view(&self) -> Option<Seq<char>> {
        match self.hint {
            Some(h) => Some(h@),
            None => None,
        }
    }

    /// A message without a hint.
    pub fn new(message: String) -> (r: CliError)
        ensures
            r.message_view() == message@,
            r.hint_view() is None,
    {
        CliError { message, hint: None }
    }

    /// The same message, with `hint`.
    pub fn with_hint(self, hint: String) -> (r: CliError)
        ensures
            r.message_view() == self.message_view(),
            r.hint_view() == Some(hint@),
    {
        CliError { message: self.message, hint: Some(hint) }
    }

    /// What went wrong.
    pub fn message(&self) -> (r: &str)
        ensures
            r@ == self.message_view(),
    {
        self.message.as_str()
    }

    /// How to fix it, if known.
    pub fn hint(&self) -> (r: Option<&str>)
        ensures
            r matches Some(h) ==> self.hint_view() == Some(h@),
            r is None <==> self.hint_view() is None,
    {
        match &self.hint {
            Some(h) => Some(h.as_str()),
            None => None,
        }
    }
}

/// What is wrong with a pack manifest.
#[derive(Clone, Copy, Debug, PartialEq, Eq, Structural)]
pub enum ManifestProblem {
    MissingName,
    NoSkills,
    MissingImportRepo,
    EmptyImportInclude,
}

/// What is wrong with the layout of a skill tree.
#[derive(Clone, Copy, Debug, PartialEq, Eq, Structural)]
pub enum LayoutProblem {
    /// A `SKILL.md` stands directly at the root of the tree.
    SkillFileAtRoot,
    /// `SKILL.md` is a symbolic link but its folder is not.
    LinkedSkillFile,
    /// The folder of a skill is not a directory.
    NotADirectory,
}

/// The ways in which an operation of the library fails.
#[derive(Clone, Debug)]
pub enum SkillpackError {
    InvalidPattern { pattern: String },
    InvalidManifest { problem: ManifestProblem },
    SkillsRootMissing { path: String },
    InvalidSkillLayout { layout: LayoutProblem, path: String },
    PatternMatchedNothing { label: String, pattern: String },
    NameCollision { name: String },
    DestinationNotOwned { path: String },
    OutsideSink { path: String },
    PackNotInstalled { pack: String },
    ImportResolutionFailed { repo: String, detail: String },
    NoAgentTargets,
    CustomAgentNotAlone,
    PathNeedsSingleAgent,
    CustomAgentNeedsPath,
    UnknownAgent { name: String, available: String },
}

pub open spec fn manifest_message(p: ManifestProblem) -> Seq<char> {
    match p {
        ManifestProblem::MissingName => "pack name is required"@,
        ManifestProblem::NoSkills => "pack must include local skills or imports"@,
        ManifestProblem::MissingImportRepo => "import repo is required"@,
        ManifestProblem::EmptyImportInclude => "import include must be non-empty"@,
    }
}

/// The message shown for an error.
pub open spec fn error_message(e: SkillpackError) -> Seq<char> {
    match e {
        SkillpackError::InvalidPattern { pattern } => "invalid pattern: "@ + pattern@,
        SkillpackError::InvalidManifest { problem } => manifest_message(problem),
        SkillpackError::SkillsRootMissing { path } => "skills directory not found: "@ + path@,
        SkillpackError::InvalidSkillLayout { layout, path } => match layout {
            LayoutProblem::SkillFileAtRoot => "skills/SKILL.md is invalid"@,
            LayoutProblem::LinkedSkillFile => "SKILL.md is a symlink but the skill folder is not: "@
                + path@,
            LayoutProblem::NotADirectory => "skill dir is not a directory: "@ + path@,
        },
        SkillpackError::PatternMatchedNothing { label, pattern } => label@
            + " pattern matched zero skills: "@ + pattern@,
        SkillpackError::NameCollision { name } => "installed folder name collision: "@ + name@,
        SkillpackError::DestinationNotOwned { path } => "destination exists but is not owned by pack: "@
            + path@,
        SkillpackError::OutsideSink { path } => "refusing to operate outside sink path: "@ + path@,
        SkillpackError::PackNotInstalled { pack } => "pack not installed: "@ + pack@,
        SkillpackError::ImportResolutionFailed { repo, detail } => "failed to resolve import "@
            + repo@ + ": "@ + detail@,
        SkillpackError::NoAgentTargets => "no agent targets specified"@,
        SkillpackError::CustomAgentNotAlone => "custom agent cannot be combined with other targets"@,
        SkillpackError::PathNeedsSingleAgent => "--path can only be used with a single agent target"@,
        SkillpackError::CustomAgentNeedsPath => "custom agent requires --path"@,
        SkillpackError::UnknownAgent { name, available } => "unknown agent: "@ + name@,
    }
}

fn joined(a: &str, b: &str) -> (r: String)
    ensures
        r@ == a@ + b@,
{
    let mut r = String::from_str(a);
    r.append(b);
    r
}

fn manifest_text(p: ManifestProblem) -> (r: (&'static str, &'static str))
    ensures
        r.0@ == manifest_message(p),
{
    match p {
        ManifestProblem::MissingName => ("pack name is required", "Set name: <pack-name> in the pack file"),
        ManifestProblem::NoSkills => (
            "pack must include local skills or imports",
            "Add include: or imports: to the pack file",
        ),
        ManifestProblem::MissingImportRepo => ("import repo is required", "Set repo: <git-url> in imports"),
        ManifestProblem::EmptyImportInclude => (
            "import include must be non-empty",
            "Add include: patterns under the import",
        ),
    }
}

impl SkillpackError {
    /// The message and hint shown to the user for this error.
    pub fn to_cli_error(&self) -> (r: CliError)
        ensures
            r.message_view() == error_message(*self),
    {
        match self {
            SkillpackError::InvalidPattern { pattern } => CliError::new(
                joined("invalid pattern: ", pattern.as_str()),
            ).with_hint(String::from_str("Use * within segments and ** for any depth")),
            SkillpackError::InvalidManifest { problem } => {
                let (m, h) = manifest_text(*problem);
                CliError::new(String::from_str(m)).with_hint(String::from_str(h))
            },
            SkillpackError::SkillsRootMissing { path } => CliError::new(
                joined("skills directory not found: ", path.as_str()),
            ).with_hint(
                String::from_str(
                    "Auto-discovery checks current/parent dirs for skills/ or packs/. Use --root <repo> to override",
                ),
            ),
            SkillpackError::InvalidSkillLayout { layout, path } => match layout {
                LayoutProblem::SkillFileAtRoot => CliError::new(
                    String::from_str("skills/SKILL.md is invalid"),
                ).with_hint(String::from_str("Move SKILL.md into a leaf skill folder")),
                LayoutProblem::LinkedSkillFile => CliError::new(
                    joined("SKILL.md is a symlink but the skill folder is not: ", path.as_str()),
                ).with_hint(String::from_str("Symlink the skill folder under skills/ to reuse a skill")),
                LayoutProblem::NotADirectory => CliError::new(
                    joined("skill dir is not a directory: ", path.as_str()),
                ).with_hint(String::from_str("Check for broken symlinks or files under skills/")),
            },
            SkillpackError::PatternMatchedNothing { label, pattern } => {
                let head = joined(label.as_str(), " pattern matched zero skills: ");
                CliError::new(joined(head.as_str(), pattern.as_str())).with_hint(
                    String::from_str("Check patterns or run sp skills to list IDs"),
                )
            },
            SkillpackError::NameCollision { name } => CliError::new(
                joined("installed folder name collision: ", name.as_str()),
            ).with_hint(
                String::from_str("Adjust install.prefix/install.sep/install.flatten or rename skills"),
            ),
            SkillpackError::DestinationNotOwned { path } => CliError::new(
                joined("destination exists but is not owned by pack: ", path.as_str()),
            ).with_hint(String::from_str("Change install prefix/sep or uninstall the other pack")),
            SkillpackError::OutsideSink { path } => CliError::new(
                joined("refusing to operate outside sink path: ", path.as_str()),
            ),
            SkillpackError::PackNotInstalled { pack } => CliError::new(
                joined("pack not installed: ", pack.as_str()),
            ).with_hint(String::from_str("Run sp installed to list installed packs")),
            SkillpackError::ImportResolutionFailed { repo, detail } => {
                let head = joined("failed to resolve import ", repo.as_str());
                let head = joined(head.as_str(), ": ");
                CliError::new(joined(head.as_str(), detail.as_str()))
            },
            SkillpackError::NoAgentTargets => CliError::new(String::from_str("no agent targets specified")).with_hint(
                String::from_str("Use --codex/--copilot/--cursor/--windsurf/--custom"),
            ),
            SkillpackError::CustomAgentNotAlone => CliError::new(
                String::from_str("custom agent cannot be combined with other targets"),
            ).with_hint(String::from_str("Run separate installs per agent when using --custom")),
            SkillpackError::PathNeedsSingleAgent => CliError::new(
                String::from_str("--path can only be used with a single agent target"),
            ).with_hint(String::from_str("Run installs separately when overriding destinations")),
            SkillpackError::CustomAgentNeedsPath => CliError::new(String::from_str("custom agent requires --path")).with_hint(
                String::from_str("Use --path to set the destination folder"),
            ),
            SkillpackError::UnknownAgent { name, available } => CliError::new(
                joined("unknown agent: ", name.as_str()),
            ).with_hint(joined("Available agents: ", available.as_str())),
        }
    }
}

} // verus!
