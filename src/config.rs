//! Agent targets and the sinks they install into.
use vstd::prelude::*;
use vstd::string::StringExecFns;
use crate::errors::SkillpackError;
use crate::sort::{Keyed, sort_by_key, sorted_by_key};
use crate::text::same_text;
use crate::util::{join_path, join_spec};

verus! {

/// A named sink and its directory.
#[derive(Clone, Debug)]
pub struct SinkEntry {
    pub name: String,
    pub path: String,
}

impl Keyed for SinkEntry {
    open spec fn key(&self) -> Seq<char> {
        self.name@
    }

    fn key_text(&self) -> (r: &str) {
        self.name.as_str()
    }

    fn duplicate(&self) -> (r: Self) {
        SinkEntry { name: self.name.clone(), path: self.path.clone() }
    }
}

/// The sinks as a configuration file names them, paths as written.
#[derive(Clone, Debug)]
pub struct ConfigFile {
    pub sinks: Vec<SinkEntry>,
}

/// The sinks in effect, sorted by name.
#[derive(Clone, Debug)]
pub struct Config {
    pub sinks: Vec<SinkEntry>,
}

/// Where the configuration lives, and the sinks by origin.
#[derive(Clone, Debug)]
pub struct ConfigDetail {
    pub path: String,
    pub defaults: Vec<SinkEntry>,
    pub overrides: Vec<SinkEntry>,
    pub effective: Vec<SinkEntry>,
}

/// Which agents a command targets.
#[derive(Clone, Copy, Debug, Default)]
pub struct AgentTargets {
    pub codex: bool,
    pub copilot: bool,
    pub cursor: bool,
    pub windsurf: bool,
    pub custom: bool,
}

/// The entries hold a sink named `name` with directory `path`.
pub open spec fn has_sink(entries: Seq<SinkEntry>, name: Seq<char>, path: Seq<char>) -> bool {
    exists|k: int| 0 <= k < entries.len() && (#[trigger] entries[k]).name@ == name && entries[k].path@ == path
}

pub open spec fn names_sink(entries: Seq<SinkEntry>, name: Seq<char>) -> bool {
    exists|k: int| 0 <= k < entries.len() && (#[trigger] entries[k]).name@ == name
}

/// The default sinks under the home directory.
pub open spec fn default_sinks_spec(home: Seq<char>) -> Seq<(Seq<char>, Seq<char>)> {
    seq![
        ("codex"@, join_spec(home, ".codex/skills"@)),
        ("copilot"@, join_spec(home, ".copilot/skills"@)),
        ("cursor"@, join_spec(home, ".cursor/skills"@)),
        ("windsurf"@, join_spec(home, ".windsurf/skills"@)),
    ]
}

fn entry(name: &str, home: &str, rel: &str) -> (r: SinkEntry)
    ensures
        r.name@ == name@,
        r.path@ == join_spec(home@, rel@),
{
    SinkEntry { name: String::from_str(name), path: join_path(home, rel) }
}

/// The sinks of the supported agents, under the home directory, by name.
pub fn default_sinks(home: &str) -> (r: Vec<SinkEntry>)
    ensures
        r@.len() == 4,
        forall|k: int| 0 <= k < 4 ==> (#[trigger] r@[k]).name@ == default_sinks_spec(home@)[k].0 && r@[k].path@
            == default_sinks_spec(home@)[k].1,
{
    let mut r: Vec<SinkEntry> = Vec::new();
    r.push(entry("codex", home, ".codex/skills"));
    r.push(entry("copilot", home, ".copilot/skills"));
    r.push(entry("cursor", home, ".cursor/skills"));
    r.push(entry("windsurf", home, ".windsurf/skills"));
    r
}

fn names_entry(entries: &Vec<SinkEntry>, name: &str) -> (r: Option<usize>)
    ensures
        r is None <==> !names_sink(entries@, name@),
        r matches Some(k) ==> k < entries@.len() && entries@[k as int].name@ == name@,
{
    let mut k: usize = 0;
    while k < entries.len()
        invariant
            k <= entries@.len(),
            forall|m: int| 0 <= m < k ==> (#[trigger] entries@[m]).name@ != name@,
        decreases entries.len() - k,
    {
        if same_text(entries[k].name.as_str(), name) {
            return Some(k);
        }
        k += 1;
    }
    None
}

/// The defaults with the overrides applied, sorted by name: a sink named by
/// an override takes the override's directory.
pub fn merge_sinks(defaults: &Vec<SinkEntry>, overrides: &Vec<SinkEntry>) -> (r: Vec<SinkEntry>)
    ensures
        sorted_by_key(r@),
        forall|name: Seq<char>, path: Seq<char>|
            has_sink(r@, name, path) <==> (has_sink(overrides@, name, path) || (!names_sink(overrides@, name)
                && has_sink(defaults@, name, path))),
{
    let mut out: Vec<SinkEntry> = Vec::new();
    let mut k: usize = 0;
    while k < overrides.len()
        invariant
            k <= overrides@.len(),
            out@ == overrides@.subrange(0, k as int),
        decreases overrides.len() - k,
    {
        out.push(overrides[k].duplicate());
        assert(out@ =~= overrides@.subrange(0, k + 1));
        k += 1;
    }
    assert(out@ =~= overrides@);
    let mut k: usize = 0;
    while k < defaults.len()
        invariant
            k <= defaults@.len(),
            out@.len() >= overrides@.len(),
            out@.subrange(0, overrides@.len() as int) == overrides@,
            forall|m: int| overrides@.len() <= m < out@.len() ==> {
                &&& !names_sink(overrides@, (#[trigger] out@[m]).name@)
                &&& has_sink(defaults@, out@[m].name@, out@[m].path@)
            },
            forall|m: int| 0 <= m < k && !names_sink(overrides@, (#[trigger] defaults@[m]).name@) ==> has_sink(
                out@,
                defaults@[m].name@,
                defaults@[m].path@,
            ),
        decreases defaults.len() - k,
    {
        let ghost before = out@;
        if names_entry(overrides, defaults[k].name.as_str()).is_none() {
            out.push(defaults[k].duplicate());
            proof {
                assert(out@.subrange(0, overrides@.len() as int) =~= before.subrange(0, overrides@.len() as int));
                assert forall|m: int| 0 <= m < k + 1 && !names_sink(overrides@, (#[trigger] defaults@[m]).name@) implies has_sink(
                    out@,
                    defaults@[m].name@,
                    defaults@[m].path@,
                ) by {
                    if m < k {
                        let j = choose|j: int| 0 <= j < before.len() && (#[trigger] before[j]).name@ == defaults@[m].name@
                            && before[j].path@ == defaults@[m].path@;
                        assert(out@[j] == before[j]);
                    } else {
                        assert(out@[before.len() as int] == defaults@[m]);
                    }
                }
            }
        }
        k += 1;
    }
    let ghost unsorted = out@;
    proof {
        assert forall|name: Seq<char>, path: Seq<char>| has_sink(unsorted, name, path) <==> (has_sink(
            overrides@,
            name,
            path,
        ) || (!names_sink(overrides@, name) && has_sink(defaults@, name, path))) by {
            if has_sink(unsorted, name, path) {
                let j = choose|j: int| 0 <= j < unsorted.len() && (#[trigger] unsorted[j]).name@ == name && unsorted[j].path@ == path;
                if j < overrides@.len() {
                    assert(unsorted.subrange(0, overrides@.len() as int)[j] == overrides@[j]);
                }
            }
            if has_sink(overrides@, name, path) {
                let j = choose|j: int| 0 <= j < overrides@.len() && (#[trigger] overrides@[j]).name@ == name && overrides@[j].path@ == path;
                assert(unsorted.subrange(0, overrides@.len() as int)[j] == unsorted[j]);
            }
            if !names_sink(overrides@, name) && has_sink(defaults@, name, path) {
                let j = choose|j: int| 0 <= j < defaults@.len() && (#[trigger] defaults@[j]).name@ == name && defaults@[j].path@ == path;
                assert(has_sink(unsorted, defaults@[j].name@, defaults@[j].path@));
            }
        }
    }
    let r = sort_by_key(out);
    proof {
        unsorted.to_multiset_ensures();
        r@.to_multiset_ensures();
        assert forall|name: Seq<char>, path: Seq<char>| has_sink(r@, name, path) <==> has_sink(unsorted, name, path) by {
            if has_sink(r@, name, path) {
                let j = choose|j: int| 0 <= j < r@.len() && (#[trigger] r@[j]).name@ == name && r@[j].path@ == path;
                assert(r@.to_multiset().count(r@[j]) > 0);
                assert(unsorted.contains(r@[j]));
            }
            if has_sink(unsorted, name, path) {
                let j = choose|j: int| 0 <= j < unsorted.len() && (#[trigger] unsorted[j]).name@ == name && unsorted[j].path@ == path;
                assert(unsorted.to_multiset().count(unsorted[j]) > 0);
                assert(r@.contains(unsorted[j]));
            }
        }
        assert forall|name: Seq<char>, path: Seq<char>| has_sink(r@, name, path) <==> (has_sink(overrides@, name, path) || (
            !names_sink(overrides@, name) && has_sink(defaults@, name, path))) by {
            assert(has_sink(r@, name, path) <==> has_sink(unsorted, name, path));
        }
    }
    r
}

/// The sinks by origin: defaults under `home`, the overrides as given, and
/// the two merged.
pub fn config_detail(path: String, home: &str, overrides: Vec<SinkEntry>) -> (r: ConfigDetail)
    ensures
        r.path == path,
        r.overrides == overrides,
        r.defaults@.len() == 4,
        forall|k: int| 0 <= k < 4 ==> (#[trigger] r.defaults@[k]).name@ == default_sinks_spec(home@)[k].0
            && r.defaults@[k].path@ == default_sinks_spec(home@)[k].1,
        sorted_by_key(r.effective@),
        forall|name: Seq<char>, p: Seq<char>|
            has_sink(r.effective@, name, p) <==> (has_sink(overrides@, name, p) || (!names_sink(overrides@, name)
                && has_sink(r.defaults@, name, p))),
{
    let defaults = default_sinks(home);
    let effective = merge_sinks(&defaults, &overrides);
    ConfigDetail { path, defaults, overrides, effective }
}

/// The sinks in effect, name and directory.
pub fn effective_sinks(config: &Config) -> (r: Vec<SinkEntry>)
    ensures
        r@ == config.sinks@,
{
    let mut r: Vec<SinkEntry> = Vec::new();
    let mut k: usize = 0;
    while k < config.sinks.len()
        invariant
            k <= config.sinks@.len(),
            r@ == config.sinks@.subrange(0, k as int),
        decreases config.sinks.len() - k,
    {
        r.push(config.sinks[k].duplicate());
        assert(r@ =~= config.sinks@.subrange(0, k + 1));
        k += 1;
    }
    assert(r@ =~= config.sinks@);
    r
}

/// The names of the entries, in order, separated by `, `.
pub open spec fn names_joined(entries: Seq<SinkEntry>) -> Seq<char>
    decreases entries.len(),
{
    if entries.len() == 0 {
        Seq::empty()
    } else if entries.len() == 1 {
        entries[0].name@
    } else {
        names_joined(entries.drop_last()) + ", "@ + entries.last().name@
    }
}

fn joined_names(entries: &Vec<SinkEntry>) -> (r: String)
    ensures
        r@ == names_joined(entries@),
{
    let mut r = String::new();
    let mut k: usize = 0;
    while k < entries.len()
        invariant
            k <= entries@.len(),
            r@ == names_joined(entries@.subrange(0, k as int)),
        decreases entries.len() - k,
    {
        assert(entries@.subrange(0, k + 1).drop_last() =~= entries@.subrange(0, k as int));
        if k > 0 {
            r.append(", ");
        }
        r.append(entries[k].name.as_str());
        assert(r@ =~= names_joined(entries@.subrange(0, k + 1)));
        k += 1;
    }
    assert(entries@.subrange(0, entries@.len() as int) =~= entries@);
    r
}

/// The directory of the sink `sink`: an explicit path wins; the custom
/// agent needs one; otherwise the configured sink of that name.
pub fn resolve_sink_path(config: &Config, sink: &str, override_path: Option<&str>) -> (r: Result<String, SkillpackError>)
    ensures
        override_path matches Some(p) ==> (r matches Ok(s) && s@ == p@),
        override_path is None && sink@ == "custom"@ ==> (r matches Err(e) && e is CustomAgentNeedsPath),
        override_path is None && sink@ != "custom"@ ==> {
            &&& r is Ok <==> names_sink(config.sinks@, sink@)
            &&& r matches Ok(s) ==> has_sink(config.sinks@, sink@, s@)
            &&& r matches Err(e) ==> e matches SkillpackError::UnknownAgent { name, available } && name@ == sink@
                && available@ == names_joined(config.sinks@)
        },
{
    match override_path {
        Some(p) => return Ok(String::from_str(p)),
        None => {},
    }
    if same_text(sink, "custom") {
        return Err(SkillpackError::CustomAgentNeedsPath);
    }
    match names_entry(&config.sinks, sink) {
        Some(k) => Ok(config.sinks[k].path.clone()),
        None => Err(SkillpackError::UnknownAgent { name: String::from_str(sink), available: joined_names(&config.sinks) }),
    }
}

/// The names of the targeted agents, in a fixed order.
pub open spec fn agents_spec(t: AgentTargets) -> Seq<Seq<char>> {
    let a = if t.codex { seq!["codex"@] } else { Seq::empty() };
    let c = if t.copilot { a.push("copilot"@) } else { a };
    let d = if t.cursor { c.push("cursor"@) } else { c };
    let e = if t.windsurf { d.push("windsurf"@) } else { d };
    if t.custom { e.push("custom"@) } else { e }
}

/// The names of the targeted agents: codex, copilot, cursor, windsurf,
/// custom, each once, those that are set.
pub fn collect_agents(targets: &AgentTargets) -> (r: Vec<String>)
    ensures
        crate::text::string_views(r@) == agents_spec(*targets),
{
    let mut agents: Vec<String> = Vec::new();
    if targets.codex {
        agents.push(String::from_str("codex"));
    }
    if targets.copilot {
        agents.push(String::from_str("copilot"));
    }
    if targets.cursor {
        agents.push(String::from_str("cursor"));
    }
    if targets.windsurf {
        agents.push(String::from_str("windsurf"));
    }
    if targets.custom {
        agents.push(String::from_str("custom"));
    }
    assert(crate::text::string_views(agents@) =~= agents_spec(*targets));
    agents
}

/// The targeted agents; at least one is needed.
pub fn require_agents(targets: &AgentTargets) -> (r: Result<Vec<String>, SkillpackError>)
    ensures
        agents_spec(*targets).len() == 0 ==> (r matches Err(e) && e is NoAgentTargets),
        agents_spec(*targets).len() > 0 ==> (r matches Ok(v) && crate::text::string_views(v@) == agents_spec(*targets)),
{
    let agents = collect_agents(targets);
    if agents.len() == 0 {
        return Err(SkillpackError::NoAgentTargets);
    }
    Ok(agents)
}

pub open spec fn names_custom(agents: Seq<String>) -> bool {
    exists|k: int| 0 <= k < agents.len() && (#[trigger] agents[k])@ == "custom"@
}

/// The custom agent stands alone, and an explicit path serves one agent.
pub fn validate_agent_selection(agents: &Vec<String>, path_override: Option<&str>) -> (r: Result<(), SkillpackError>)
    ensures
        names_custom(agents@) && agents@.len() > 1 ==> (r matches Err(e) && e is CustomAgentNotAlone),
        !(names_custom(agents@) && agents@.len() > 1) && path_override is Some && agents@.len() != 1 ==> (r matches Err(
            e,
        ) && e is PathNeedsSingleAgent),
        !(names_custom(agents@) && agents@.len() > 1) && !(path_override is Some && agents@.len() != 1) ==> r is Ok,
{
    let mut has_custom = false;
    let mut k: usize = 0;
    while k < agents.len()
        invariant
            k <= agents@.len(),
            has_custom == exists|m: int| 0 <= m < k && (#[trigger] agents@[m])@ == "custom"@,
        decreases agents.len() - k,
    {
        if same_text(agents[k].as_str(), "custom") {
            has_custom = true;
        }
        k += 1;
    }
    if has_custom && agents.len() > 1 {
        return Err(SkillpackError::CustomAgentNotAlone);
    }
    if path_override.is_some() && agents.len() != 1 {
        return Err(SkillpackError::PathNeedsSingleAgent);
    }
    Ok(())
}

} // verus!
