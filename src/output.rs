//! What the commands report, as plain data for a renderer.
use vstd::prelude::*;
use crate::install::{install_name, install_name_spec};
use crate::resolve::{ResolvedPack, ResolvedSkill};
use crate::sort::{Keyed, lex_le, sort_by_key, sorted_by_key};
use crate::state::{InstallRecord, StateFile, lists, lists_path};
use crate::text::{chars_of, copy_opt, decimal, decimal_spec, string_of, string_views};
use crate::errors::CliError;
use vstd::string::StringExecFns;

verus! {

/// How reports are written.
#[derive(Clone, Copy, Debug, PartialEq, Eq, Structural)]
pub enum OutputFormat {
    Pretty,
    Plain,
    Json,
}

/// How reports are written: the format, whether the pretty format colours,
/// and the home directory that pretty paths abbreviate to `~`.
#[derive(Clone, Debug)]
pub struct Output {
    format: OutputFormat,
    color: bool,
    home: Option<String>,
}

/// The terminal styles of the pretty format.
#[derive(Clone, Copy, Debug, PartialEq, Eq, Structural)]
pub enum Tone {
    /// Bold.
    Header,
    /// Cyan.
    Name,
    /// Dimmed.
    Path,
    /// Green.
    Success,
    /// Dimmed.
    Label,
    /// Dimmed.
    Tree,
    /// Yellow.
    Count,
    /// Red and bold.
    Alert,
}

/// The ANSI parameters of a tone.
pub open spec fn tone_code(t: Tone) -> Seq<char> {
    match t {
        Tone::Header => "1"@,
        Tone::Name => "36"@,
        Tone::Path => "2"@,
        Tone::Success => "32"@,
        Tone::Label => "2"@,
        Tone::Tree => "2"@,
        Tone::Count => "33"@,
        Tone::Alert => "31;1"@,
    }
}

/// Relies on `owo_colors::OwoColorize::style` with `Style::new().bold()`:
/// `Style::fmt_prefix` writes `ESC [1m`, then the text, then `fmt_suffix`
/// writes `ESC [0m`.
#[verifier::external_body]
fn paint_bold(text: &str) -> (r: String)
    ensures
        r@ == "\x1b["@ + "1"@ + "m"@ + text@ + "\x1b[0m"@,
{
    owo_colors::OwoColorize::style(&text, owo_colors::Style::new().bold()).to_string()
}

/// Relies on `owo_colors::OwoColorize::style` with `Style::new().cyan()`:
/// `Style::fmt_prefix` writes `ESC [36m`, then the text, then `fmt_suffix`
/// writes `ESC [0m`.
#[verifier::external_body]
fn paint_cyan(text: &str) -> (r: String)
    ensures
        r@ == "\x1b["@ + "36"@ + "m"@ + text@ + "\x1b[0m"@,
{
    owo_colors::OwoColorize::style(&text, owo_colors::Style::new().cyan()).to_string()
}

/// Relies on `owo_colors::OwoColorize::style` with `Style::new().dimmed()`:
/// `Style::fmt_prefix` writes `ESC [2m`, then the text, then `fmt_suffix`
/// writes `ESC [0m`.
#[verifier::external_body]
fn paint_dimmed(text: &str) -> (r: String)
    ensures
        r@ == "\x1b["@ + "2"@ + "m"@ + text@ + "\x1b[0m"@,
{
    owo_colors::OwoColorize::style(&text, owo_colors::Style::new().dimmed()).to_string()
}

/// Relies on `owo_colors::OwoColorize::style` with `Style::new().green()`:
/// `Style::fmt_prefix` writes `ESC [32m`, then the text, then `fmt_suffix`
/// writes `ESC [0m`.
#[verifier::external_body]
fn paint_green(text: &str) -> (r: String)
    ensures
        r@ == "\x1b["@ + "32"@ + "m"@ + text@ + "\x1b[0m"@,
{
    owo_colors::OwoColorize::style(&text, owo_colors::Style::new().green()).to_string()
}

/// Relies on `owo_colors::OwoColorize::style` with `Style::new().yellow()`:
/// `Style::fmt_prefix` writes `ESC [33m`, then the text, then `fmt_suffix`
/// writes `ESC [0m`.
#[verifier::external_body]
fn paint_yellow(text: &str) -> (r: String)
    ensures
        r@ == "\x1b["@ + "33"@ + "m"@ + text@ + "\x1b[0m"@,
{
    owo_colors::OwoColorize::style(&text, owo_colors::Style::new().yellow()).to_string()
}

/// Relies on `owo_colors::OwoColorize::style` with `Style::new().red().bold()`:
/// `Style::fmt_prefix` writes `ESC [31;1m`, then the text, then `fmt_suffix`
/// writes `ESC [0m`.
#[verifier::external_body]
fn paint_red_bold(text: &str) -> (r: String)
    ensures
        r@ == "\x1b["@ + "31;1"@ + "m"@ + text@ + "\x1b[0m"@,
{
    owo_colors::OwoColorize::style(&text, owo_colors::Style::new().red().bold()).to_string()
}

/// A pack and the file it is read from.
#[derive(Clone, Debug)]
pub struct PackSummary {
    pub name: String,
    pub path: String,
}

/// A pack and its naming settings.
#[derive(Clone, Debug)]
pub struct PackInfo {
    pub name: String,
    pub file: String,
    pub prefix: String,
    pub sep: String,
    pub flatten: bool,
}

/// An import: where from, at which commit, and its skills.
#[derive(Clone, Debug)]
pub struct ImportView {
    pub repo: String,
    pub reference: Option<String>,
    pub commit: String,
    pub skills: Vec<String>,
}

/// What `show` reports: the pack, its skills, their folder names.
#[derive(Clone, Debug)]
pub struct ShowView {
    pub pack: PackInfo,
    pub local: Vec<String>,
    pub imports: Vec<ImportView>,
    pub final_install_names: Vec<String>,
}

/// What an install did in one sink.
#[derive(Clone, Debug)]
pub struct InstallView {
    pub pack: PackInfo,
    pub sink: String,
    pub sink_path: String,
    pub added: usize,
    pub updated: usize,
    pub removed: usize,
    pub installed_paths: Vec<String>,
}

/// What an uninstall did in one sink.
#[derive(Clone, Debug)]
pub struct UninstallView {
    pub pack: String,
    pub sink: String,
    pub sink_path: String,
    pub removed: usize,
}

/// One installed pack in one sink.
#[derive(Clone, Debug)]
pub struct InstalledItem {
    pub sink: String,
    pub pack: String,
    pub skill_count: usize,
    pub installed_at: String,
    pub sink_path: String,
}

/// The installed packs.
#[derive(Clone, Debug)]
pub struct InstalledView {
    pub installs: Vec<InstalledItem>,
}

/// A sink name and its directory.
#[derive(Clone, Debug)]
pub struct SinkView {
    pub name: String,
    pub path: String,
}

/// The sink configuration by origin.
#[derive(Clone, Debug)]
pub struct ConfigView {
    pub config_path: String,
    pub defaults: Vec<SinkView>,
    pub overrides: Vec<SinkView>,
    pub effective: Vec<SinkView>,
}

/// The packs a switch took out of and put into one sink.
#[derive(Clone, Debug)]
pub struct SwitchSinkView {
    pub sink: String,
    pub sink_path: String,
    pub uninstalled: Vec<String>,
    pub installed: Vec<String>,
}

/// What a switch did, sink by sink.
#[derive(Clone, Debug)]
pub struct SwitchView {
    pub sinks: Vec<SwitchSinkView>,
}

pub open spec fn ids_of(s: Seq<ResolvedSkill>) -> Seq<Seq<char>> {
    s.map_values(|x: ResolvedSkill| x.id@)
}

fn skill_ids(skills: &Vec<ResolvedSkill>) -> (r: Vec<String>)
    ensures
        string_views(r@) == ids_of(skills@),
{
    let mut r: Vec<String> = Vec::new();
    let mut i: usize = 0;
    while i < skills.len()
        invariant
            i <= skills@.len(),
            r@.len() == i,
            forall|k: int| 0 <= k < i ==> #[trigger] r@[k]@ == skills@[k].id@,
        decreases skills.len() - i,
    {
        r.push(skills[i].id.clone());
        i += 1;
    }
    assert(string_views(r@) =~= ids_of(skills@));
    r
}

/// The pack, its local and imported skill identifiers, and the folder name
/// of each final skill, in order.
pub fn show_view(resolved: &ResolvedPack) -> (r: ShowView)
    ensures
        r.pack.name == resolved.pack.name,
        r.pack.file == resolved.pack_file,
        r.pack.prefix == resolved.pack.install_prefix,
        r.pack.sep == resolved.pack.install_sep,
        r.pack.flatten == resolved.pack.install_flatten,
        string_views(r.local@) == ids_of(resolved.local@),
        r.imports@.len() == resolved.imports@.len(),
        forall|k: int| 0 <= k < r.imports@.len() ==> {
            &&& (#[trigger] r.imports@[k]).repo == resolved.imports@[k].repo
            &&& r.imports@[k].reference == resolved.imports@[k].ref_name
            &&& r.imports@[k].commit == resolved.imports@[k].commit
            &&& string_views(r.imports@[k].skills@) == ids_of(resolved.imports@[k].skills@)
        },
        r.final_install_names@.len() == resolved.final_skills@.len(),
        forall|i: int| 0 <= i < r.final_install_names@.len() ==> (#[trigger] r.final_install_names@[i])@
            == install_name_spec(
            resolved.pack.install_prefix@,
            resolved.pack.install_sep@,
            resolved.final_skills@[i].id@,
        ),
{
    let mut imports: Vec<ImportView> = Vec::new();
    let mut k: usize = 0;
    while k < resolved.imports.len()
        invariant
            k <= resolved.imports@.len(),
            imports@.len() == k,
            forall|m: int| 0 <= m < k ==> {
                &&& (#[trigger] imports@[m]).repo == resolved.imports@[m].repo
                &&& imports@[m].reference == resolved.imports@[m].ref_name
                &&& imports@[m].commit == resolved.imports@[m].commit
                &&& string_views(imports@[m].skills@) == ids_of(resolved.imports@[m].skills@)
            },
        decreases resolved.imports.len() - k,
    {
        let imp = &resolved.imports[k];
        imports.push(ImportView {
            repo: imp.repo.clone(),
            reference: copy_opt(&imp.ref_name),
            commit: imp.commit.clone(),
            skills: skill_ids(&imp.skills),
        });
        k += 1;
    }
    let mut names: Vec<String> = Vec::new();
    let mut i: usize = 0;
    while i < resolved.final_skills.len()
        invariant
            i <= resolved.final_skills@.len(),
            names@.len() == i,
            forall|m: int| 0 <= m < i ==> (#[trigger] names@[m])@ == install_name_spec(
                resolved.pack.install_prefix@,
                resolved.pack.install_sep@,
                resolved.final_skills@[m].id@,
            ),
        decreases resolved.final_skills.len() - i,
    {
        names.push(
            install_name(
                resolved.pack.install_prefix.as_str(),
                resolved.pack.install_sep.as_str(),
                resolved.final_skills[i].id.as_str(),
            ),
        );
        i += 1;
    }
    ShowView {
        pack: PackInfo {
            name: resolved.pack.name.clone(),
            file: resolved.pack_file.clone(),
            prefix: resolved.pack.install_prefix.clone(),
            sep: resolved.pack.install_sep.clone(),
            flatten: resolved.pack.install_flatten,
        },
        local: skill_ids(&resolved.local),
        imports,
        final_install_names: names,
    }
}

/// Identifiers sorted, each once.
pub fn unique_sorted(ids: Vec<String>) -> (r: Vec<String>)
    ensures
        forall|i: int, j: int| 0 <= i < j < r@.len() ==> lex_le(#[trigger] r@[i]@, #[trigger] r@[j]@) && r@[i]@ != r@[j]@,
        forall|p: Seq<char>| lists(r@, p) <==> lists(ids@, p),
{
    let ghost given = ids@;
    let sorted = sort_by_key(ids);
    let mut out: Vec<String> = Vec::new();
    let mut i: usize = 0;
    proof {
        given.to_multiset_ensures();
        sorted@.to_multiset_ensures();
    }
    while i < sorted.len()
        invariant
            i <= sorted@.len(),
            sorted_by_key(sorted@),
            forall|a: int, b: int| 0 <= a < b < out@.len() ==> lex_le(#[trigger] out@[a]@, #[trigger] out@[b]@) && out@[a]@ != out@[b]@,
            forall|k: int| 0 <= k < out@.len() ==> exists|m: int| 0 <= m < i && #[trigger] sorted@[m]@ == (#[trigger] out@[k])@,
            forall|m: int| 0 <= m < i ==> lists(out@, #[trigger] sorted@[m]@),
        decreases sorted.len() - i,
    {
        let ghost before = out@;
        if !lists_path(&out, sorted[i].as_str()) {
            out.push(sorted[i].clone());
            proof {
                assert forall|a: int, b: int| 0 <= a < b < out@.len() implies lex_le(#[trigger] out@[a]@, #[trigger] out@[b]@) && out@[a]@ != out@[b]@ by {
                    if b == out@.len() - 1 {
                        let m = choose|m: int| 0 <= m < i && #[trigger] sorted@[m]@ == before[a]@;
                        assert(lex_le(sorted@[m].key(), sorted@[i as int].key()));
                        assert(out@[a] == before[a]);
                        if out@[a]@ == out@[b]@ {
                            assert(lists(before, sorted@[i as int]@));
                        }
                    } else {
                        assert(out@[a] == before[a]);
                        assert(out@[b] == before[b]);
                    }
                }
                assert forall|k: int| 0 <= k < out@.len() implies exists|m: int| 0 <= m < i + 1 && #[trigger] sorted@[m]@ == (#[trigger] out@[k])@ by {
                    if k < before.len() {
                        let m = choose|m: int| 0 <= m < i && #[trigger] sorted@[m]@ == before[k]@;
                        assert(out@[k] == before[k]);
                    } else {
                        assert(sorted@[i as int]@ == out@[k]@);
                    }
                }
                assert forall|m: int| 0 <= m < i + 1 implies lists(out@, #[trigger] sorted@[m]@) by {
                    if m < i {
                        let k = choose|k: int| 0 <= k < before.len() && #[trigger] before[k]@ == sorted@[m]@;
                        assert(out@[k] == before[k]);
                    } else {
                        assert(out@[before.len() as int]@ == sorted@[m]@);
                    }
                }
            }
        }
        i += 1;
    }
    proof {
        assert forall|p: Seq<char>| lists(out@, p) <==> lists(given, p) by {
            if lists(out@, p) {
                let k = choose|k: int| 0 <= k < out@.len() && #[trigger] out@[k]@ == p;
                let m = choose|m: int| 0 <= m < sorted@.len() && #[trigger] sorted@[m]@ == out@[k]@;
                assert(sorted@.to_multiset().count(sorted@[m]) > 0);
                assert(given.contains(sorted@[m]));
                let j = choose|j: int| 0 <= j < given.len() && given[j] == sorted@[m];
                assert(given[j]@ == p);
            }
            if lists(given, p) {
                let j = choose|j: int| 0 <= j < given.len() && #[trigger] given[j]@ == p;
                assert(given.to_multiset().count(given[j]) > 0);
                assert(sorted@.contains(given[j]));
                let m = choose|m: int| 0 <= m < sorted@.len() && sorted@[m] == given[j];
                assert(lists(out@, sorted@[m]@));
            }
        }
    }
    out
}

/// The order of installed items: by sink, then by pack (NUL, which no name
/// holds, parts the two).
pub open spec fn item_key(item: InstalledItem) -> Seq<char> {
    item.sink@ + seq!['\u{0}'] + item.pack@
}

/// The record passes the sink filter, if there is one.
pub open spec fn passes(rec: InstallRecord, filters: Option<Seq<String>>) -> bool {
    match filters {
        Some(f) => lists(f, rec.sink_path@),
        None => true,
    }
}

/// `item` reports `rec`.
pub open spec fn item_of(rec: InstallRecord, item: InstalledItem) -> bool {
    &&& item.sink == rec.sink
    &&& item.pack == rec.pack
    &&& item.skill_count == rec.installed_paths@.len()
    &&& item.installed_at == rec.installed_at
    &&& item.sink_path == rec.sink_path
}

pub open spec fn reports_some(installs: Seq<InstallRecord>, filters: Option<Seq<String>>, item: InstalledItem) -> bool {
    exists|i: int| 0 <= i < installs.len() && passes(#[trigger] installs[i], filters) && item_of(installs[i], item)
}

pub open spec fn reported(rec: InstallRecord, items: Seq<InstalledItem>) -> bool {
    exists|k: int| 0 <= k < items.len() && item_of(rec, #[trigger] items[k])
}

/// An installed item with its sort key.
#[derive(Debug)]
pub struct ItemEntry {
    pub key: String,
    pub item: InstalledItem,
}

impl Keyed for ItemEntry {
    open spec fn key(&self) -> Seq<char> {
        self.key@
    }

    fn key_text(&self) -> (r: &str) {
        self.key.as_str()
    }

    fn duplicate(&self) -> (r: Self) {
        ItemEntry {
            key: self.key.clone(),
            item: InstalledItem {
                sink: self.item.sink.clone(),
                pack: self.item.pack.clone(),
                skill_count: self.item.skill_count,
                installed_at: self.item.installed_at.clone(),
                sink_path: self.item.sink_path.clone(),
            },
        }
    }
}

pub open spec fn opt_view(f: Option<&Vec<String>>) -> Option<Seq<String>> {
    match f {
        Some(v) => Some(v@),
        None => None,
    }
}

/// The installed packs, those in the given sinks only when sinks are given,
/// ordered by sink and then pack.
pub fn installed_items(state: &StateFile, sink_filters: Option<&Vec<String>>) -> (r: Vec<InstalledItem>)
    ensures
        forall|a: int, b: int| 0 <= a < b < r@.len() ==> lex_le(item_key(#[trigger] r@[a]), item_key(#[trigger] r@[b])),
        forall|k: int| 0 <= k < r@.len() ==> reports_some(state.installs@, opt_view(sink_filters), #[trigger] r@[k]),
        forall|i: int| 0 <= i < state.installs@.len() && passes(#[trigger] state.installs@[i], opt_view(sink_filters))
            ==> reported(state.installs@[i], r@),
{
    let ghost installs = state.installs@;
    let ghost fv = opt_view(sink_filters);
    let mut entries: Vec<ItemEntry> = Vec::new();
    let mut i: usize = 0;
    while i < state.installs.len()
        invariant
            i <= installs.len(),
            installs == state.installs@,
            fv == opt_view(sink_filters),
            forall|k: int| 0 <= k < entries@.len() ==> (#[trigger] entries@[k]).key@ == item_key(entries@[k].item)
                && reports_some(installs, fv, entries@[k].item),
            forall|m: int| 0 <= m < i && passes(#[trigger] installs[m], fv) ==> exists|k: int|
                0 <= k < entries@.len() && item_of(installs[m], (#[trigger] entries@[k]).item),
        decreases installs.len() - i,
    {
        let rec = &state.installs[i];
        let keep = match sink_filters {
            Some(f) => lists_path(f, rec.sink_path.as_str()),
            None => true,
        };
        if keep {
            let mut key = rec.sink.clone();
            key.push('\u{0}');
            key.append(rec.pack.as_str());
            let item = InstalledItem {
                sink: rec.sink.clone(),
                pack: rec.pack.clone(),
                skill_count: rec.installed_paths.len(),
                installed_at: rec.installed_at.clone(),
                sink_path: rec.sink_path.clone(),
            };
            let ghost before = entries@;
            entries.push(ItemEntry { key, item });
            proof {
                assert(item_of(installs[i as int], entries@[before.len() as int].item));
                assert forall|k: int| 0 <= k < entries@.len() implies (#[trigger] entries@[k]).key@ == item_key(entries@[k].item)
                    && reports_some(installs, fv, entries@[k].item) by {
                    if k < before.len() {
                        assert(entries@[k] == before[k]);
                    }
                }
                assert forall|m: int| 0 <= m < i + 1 && passes(#[trigger] installs[m], fv) implies exists|k: int|
                    0 <= k < entries@.len() && item_of(installs[m], (#[trigger] entries@[k]).item) by {
                    if m < i {
                        let k = choose|k: int| 0 <= k < before.len() && item_of(installs[m], (#[trigger] before[k]).item);
                        assert(entries@[k] == before[k]);
                    } else {
                        assert(item_of(installs[m], entries@[before.len() as int].item));
                    }
                }
            }
        }
        i += 1;
    }
    let ghost unsorted = entries@;
    let sorted = sort_by_key(entries);
    proof {
        unsorted.to_multiset_ensures();
        sorted@.to_multiset_ensures();
    }
    let mut out: Vec<InstalledItem> = Vec::new();
    let mut k: usize = 0;
    while k < sorted.len()
        invariant
            k <= sorted@.len(),
            out@.len() == k,
            forall|m: int| 0 <= m < k ==> #[trigger] out@[m] == sorted@[m].item,
        decreases sorted.len() - k,
    {
        let e = sorted[k].duplicate();
        out.push(e.item);
        k += 1;
    }
    proof {
        assert forall|a: int, b: int| 0 <= a < b < out@.len() implies lex_le(item_key(#[trigger] out@[a]), item_key(#[trigger] out@[b])) by {
            assert(sorted@.to_multiset().count(sorted@[a]) > 0);
            assert(sorted@.to_multiset().count(sorted@[b]) > 0);
            assert(unsorted.contains(sorted@[a]));
            assert(unsorted.contains(sorted@[b]));
            assert(lex_le(sorted@[a].key(), sorted@[b].key()));
        }
        assert forall|m: int| 0 <= m < out@.len() implies reports_some(installs, fv, #[trigger] out@[m]) by {
            assert(sorted@.to_multiset().count(sorted@[m]) > 0);
            assert(unsorted.contains(sorted@[m]));
        }
        assert forall|i: int| 0 <= i < installs.len() && passes(#[trigger] installs[i], fv) implies reported(installs[i], out@) by {
            let k = choose|k: int| 0 <= k < unsorted.len() && item_of(installs[i], (#[trigger] unsorted[k]).item);
            assert(unsorted.to_multiset().count(unsorted[k]) > 0);
            assert(sorted@.contains(unsorted[k]));
            let m = choose|m: int| 0 <= m < sorted@.len() && sorted@[m] == unsorted[k];
            assert(out@[m] == sorted@[m].item);
        }
    }
    out
}

impl Keyed for PackSummary {
    open spec fn key(&self) -> Seq<char> {
        self.name@
    }

    fn key_text(&self) -> (r: &str) {
        self.name.as_str()
    }

    fn duplicate(&self) -> (r: Self) {
        PackSummary { name: self.name.clone(), path: self.path.clone() }
    }
}

/// No pack after position `i` has the same name.
pub open spec fn last_of_name(packs: Seq<PackSummary>, i: int) -> bool {
    forall|j: int| i < j < packs.len() ==> (#[trigger] packs[j]).name@ != packs[i].name@
}

pub open spec fn kept_from(packs: Seq<PackSummary>, p: PackSummary) -> bool {
    exists|i: int| 0 <= i < packs.len() && #[trigger] packs[i] == p && last_of_name(packs, i)
}

/// The packs by name, sorted: where several share a name, the last wins.
pub fn merge_pack_summaries(packs: Vec<PackSummary>) -> (r: Vec<PackSummary>)
    ensures
        sorted_by_key(r@),
        forall|a: int, b: int| 0 <= a < b < r@.len() ==> (#[trigger] r@[a]).name@ != (#[trigger] r@[b]).name@,
        forall|k: int| 0 <= k < r@.len() ==> kept_from(packs@, #[trigger] r@[k]),
        forall|i: int| 0 <= i < packs@.len() && last_of_name(packs@, i) ==> r@.contains(#[trigger] packs@[i]),
{
    let n = packs.len();
    let mut kept: Vec<PackSummary> = Vec::new();
    let mut i: usize = 0;
    while i < n
        invariant
            n == packs@.len(),
            i <= n,
            forall|k: int| 0 <= k < kept@.len() ==> exists|m: int| 0 <= m < i && #[trigger] packs@[m] == (#[trigger] kept@[k]) && last_of_name(packs@, m),
            forall|m: int| 0 <= m < i && last_of_name(packs@, m) ==> kept@.contains(#[trigger] packs@[m]),
            forall|a: int, b: int| 0 <= a < b < kept@.len() ==> (#[trigger] kept@[a]).name@ != (#[trigger] kept@[b]).name@,
        decreases n - i,
    {
        let mut last = true;
        let mut j: usize = i + 1;
        while j < n
            invariant
                n == packs@.len(),
                i < n,
                i + 1 <= j <= n,
                last == forall|m: int| i < m < j ==> (#[trigger] packs@[m]).name@ != packs@[i as int].name@,
            decreases n - j,
        {
            if packs[j].name == packs[i].name {
                last = false;
            }
            j += 1;
        }
        if last {
            let ghost before = kept@;
            kept.push(packs[i].duplicate());
            proof {
                assert(kept@[before.len() as int] == packs@[i as int]);
                assert forall|k: int| 0 <= k < kept@.len() implies exists|m: int| 0 <= m < i + 1 && #[trigger] packs@[m] == (#[trigger] kept@[k]) && last_of_name(packs@, m) by {
                    if k < before.len() {
                        assert(kept@[k] == before[k]);
                    } else {
                        assert(packs@[i as int] == kept@[k] && last_of_name(packs@, i as int));
                    }
                }
                assert forall|m: int| 0 <= m < i + 1 && last_of_name(packs@, m) implies kept@.contains(#[trigger] packs@[m]) by {
                    if m < i {
                        assert(before.contains(packs@[m]));
                        let k = choose|k: int| 0 <= k < before.len() && before[k] == packs@[m];
                        assert(kept@[k] == before[k]);
                    } else {
                        assert(kept@[before.len() as int] == packs@[m]);
                    }
                }
                assert forall|a: int, b: int| 0 <= a < b < kept@.len() implies (#[trigger] kept@[a]).name@ != (#[trigger] kept@[b]).name@ by {
                    if b == before.len() {
                        let m = choose|m: int| 0 <= m < i && #[trigger] packs@[m] == before[a] && last_of_name(packs@, m);
                        assert(kept@[a] == before[a]);
                        assert(packs@[i as int].name@ != packs@[m].name@);
                    } else {
                        assert(kept@[a] == before[a]);
                        assert(kept@[b] == before[b]);
                    }
                }
            }
        }
        i += 1;
    }
    let ghost unsorted = kept@;
    let r = sort_by_key(kept);
    proof {
        unsorted.to_multiset_ensures();
        r@.to_multiset_ensures();
        assert forall|k: int| 0 <= k < r@.len() implies kept_from(packs@, #[trigger] r@[k]) by {
            assert(r@.to_multiset().count(r@[k]) > 0);
            assert(unsorted.contains(r@[k]));
            let j = choose|j: int| 0 <= j < unsorted.len() && unsorted[j] == r@[k];
            let m = choose|m: int| 0 <= m < n && #[trigger] packs@[m] == (#[trigger] unsorted[j]) && last_of_name(packs@, m);
        }
        assert forall|i: int| 0 <= i < packs@.len() && last_of_name(packs@, i) implies r@.contains(#[trigger] packs@[i]) by {
            assert(unsorted.contains(packs@[i]));
            let j = choose|j: int| 0 <= j < unsorted.len() && unsorted[j] == packs@[i];
            assert(unsorted.to_multiset().count(unsorted[j]) > 0);
        }
        assert forall|a: int, b: int| 0 <= a < b < r@.len() implies (#[trigger] r@[a]).name@ != (#[trigger] r@[b]).name@ by {
            assert(r@.to_multiset().count(r@[a]) > 0);
            assert(r@.to_multiset().count(r@[b]) > 0);
            assert(unsorted.contains(r@[a]));
            assert(unsorted.contains(r@[b]));
            let x = choose|x: int| 0 <= x < unsorted.len() && unsorted[x] == r@[a];
            let y = choose|y: int| 0 <= y < unsorted.len() && unsorted[y] == r@[b];
            if x == y {
                // two positions of the sorted result hold one kept pack: the
                // multiset would count it twice
                assert(r@[a] == r@[b]);
                assert(crate::sort::distinct_keys(unsorted));
                crate::sort::lemma_distinct_count(unsorted, x);
                crate::sort::lemma_count_two(r@, a, b);
            }
        }
    }
    r
}


/// `text` in the terminal style `tone`, when colouring.
pub open spec fn styled(color: bool, text: Seq<char>, tone: Tone) -> Seq<char> {
    if color {
        "\x1b["@ + tone_code(tone) + "m"@ + text + "\x1b[0m"@
    } else {
        text
    }
}

/// `path` with the home directory written `~`, when it is known.
pub open spec fn shown_path(home: Option<Seq<char>>, path: Seq<char>) -> Seq<char> {
    match home {
        Some(h) => crate::util::abbreviate_spec(path, h),
        None => path,
    }
}

pub open spec fn section_text(color: bool, title: Seq<char>, count: nat) -> Seq<char> {
    styled(color, title + " ("@ + decimal_spec(count) + ")"@, Tone::Header) + "\n"@
}

pub open spec fn kv_text(color: bool, label: Seq<char>, value: Seq<char>) -> Seq<char> {
    styled(color, label, Tone::Header) + ": "@ + value + "\n"@
}

pub open spec fn bullet_text(text: Seq<char>) -> Seq<char> {
    "- "@ + text + "\n"@
}

pub open spec fn indented_text(text: Seq<char>) -> Seq<char> {
    "  - "@ + text + "\n"@
}

/// One bullet line per item.
pub open spec fn bullets(items: Seq<Seq<char>>) -> Seq<char>
    decreases items.len(),
{
    if items.len() == 0 {
        Seq::empty()
    } else {
        bullets(items.drop_last()) + bullet_text(items.last())
    }
}

/// One indented bullet line per item.
pub open spec fn indented_bullets(items: Seq<Seq<char>>) -> Seq<char>
    decreases items.len(),
{
    if items.len() == 0 {
        Seq::empty()
    } else {
        indented_bullets(items.drop_last()) + indented_text(items.last())
    }
}

/// One plain line per item.
pub open spec fn lines(items: Seq<Seq<char>>) -> Seq<char>
    decreases items.len(),
{
    if items.len() == 0 {
        Seq::empty()
    } else {
        lines(items.drop_last()) + items.last() + "\n"@
    }
}

/// The first eight characters of a commit hash.
pub open spec fn short_hash_spec(h: Seq<char>) -> Seq<char> {
    if h.len() <= 8 {
        h
    } else {
        h.subrange(0, 8)
    }
}

fn short_hash(h: &str) -> (r: String)
    ensures
        r@ == short_hash_spec(h@),
{
    let cs = chars_of(h);
    if cs.len() <= 8 {
        return String::from_str(h);
    }
    let mut head: Vec<char> = Vec::new();
    let mut i: usize = 0;
    while i < 8
        invariant
            i <= 8,
            8 < cs@.len(),
            cs@ == h@,
            head@ == cs@.subrange(0, i as int),
        decreases 8 - i,
    {
        head.push(cs[i]);
        assert(head@ =~= cs@.subrange(0, i + 1));
        i += 1;
    }
    string_of(&head)
}

fn push_bullets(out: &mut String, items: &Vec<String>, indented: bool)
    ensures
        final(out)@ == old(out)@ + (if indented {
            indented_bullets(string_views(items@))
        } else {
            bullets(string_views(items@))
        }),
{
    let ghost start = out@;
    let ghost iv = string_views(items@);
    let mut i: usize = 0;
    while i < items.len()
        invariant
            i <= items@.len(),
            iv == string_views(items@),
            out@ == start + (if indented {
                indented_bullets(iv.subrange(0, i as int))
            } else {
                bullets(iv.subrange(0, i as int))
            }),
        decreases items.len() - i,
    {
        assert(iv.subrange(0, i + 1).drop_last() =~= iv.subrange(0, i as int));
        assert(iv[i as int] == items@[i as int]@);
        if indented {
            out.append("  - ");
        } else {
            out.append("- ");
        }
        out.append(items[i].as_str());
        out.append("\n");
        proof {
            if indented {
                assert(out@ =~= start + indented_bullets(iv.subrange(0, i + 1)));
            } else {
                assert(out@ =~= start + bullets(iv.subrange(0, i + 1)));
            }
        }
        i += 1;
    }
    assert(iv.subrange(0, items@.len() as int) =~= iv);
}

fn push_lines(out: &mut String, items: &Vec<String>)
    ensures
        final(out)@ == old(out)@ + lines(string_views(items@)),
{
    let ghost start = out@;
    let ghost iv = string_views(items@);
    let mut i: usize = 0;
    while i < items.len()
        invariant
            i <= items@.len(),
            iv == string_views(items@),
            out@ == start + lines(iv.subrange(0, i as int)),
        decreases items.len() - i,
    {
        assert(iv.subrange(0, i + 1).drop_last() =~= iv.subrange(0, i as int));
        assert(iv[i as int] == items@[i as int]@);
        out.append(items[i].as_str());
        out.append("\n");
        assert(out@ =~= start + lines(iv.subrange(0, i + 1)));
        i += 1;
    }
    assert(iv.subrange(0, items@.len() as int) =~= iv);
}

pub open spec fn pack_label(p: PackSummary) -> Seq<char> {
    p.name@ + " ("@ + p.path@ + ")"@
}

pub open spec fn sink_label(v: SinkView) -> Seq<char> {
    v.name@ + " "@ + v.path@
}

pub open spec fn installed_label(i: InstalledItem) -> Seq<char> {
    i.pack@ + " ("@ + i.sink@ + ") skills="@ + decimal_spec(i.skill_count as nat) + " installed="@ + i.installed_at@
        + " path="@ + i.sink_path@
}

pub open spec fn installed_line(i: InstalledItem) -> Seq<char> {
    i.sink@ + " "@ + i.pack@ + " "@ + decimal_spec(i.skill_count as nat) + " "@ + i.installed_at@ + " "@ + i.sink_path@
}

pub open spec fn ref_or_default(r: Option<String>) -> Seq<char> {
    match r {
        Some(s) => s@,
        None => "default"@,
    }
}

pub open spec fn import_label(i: ImportView) -> Seq<char> {
    i.repo@ + " (ref="@ + ref_or_default(i.reference) + " commit="@ + short_hash_spec(i.commit@) + " skills="@
        + decimal_spec(i.skills@.len()) + ")"@
}

/// The pretty listing of the imports, each with its skills below it.
pub open spec fn imports_pretty(imps: Seq<ImportView>) -> Seq<char>
    decreases imps.len(),
{
    if imps.len() == 0 {
        Seq::empty()
    } else {
        imports_pretty(imps.drop_last()) + bullet_text(import_label(imps.last())) + indented_bullets(
            string_views(imps.last().skills@),
        )
    }
}

/// The plain listing of the imports, each with its skills below it.
pub open spec fn imports_plain(imps: Seq<ImportView>) -> Seq<char>
    decreases imps.len(),
{
    if imps.len() == 0 {
        Seq::empty()
    } else {
        imports_plain(imps.drop_last()) + "import "@ + imps.last().repo@ + "\n"@ + lines(
            string_views(imps.last().skills@),
        )
    }
}

pub open spec fn show_text(color: bool, format: OutputFormat, v: ShowView) -> Seq<char> {
    if format == OutputFormat::Plain {
        "local\n"@ + lines(string_views(v.local@)) + imports_plain(v.imports@) + "final\n"@ + lines(
            string_views(v.final_install_names@),
        )
    } else {
        kv_text(color, "Pack"@, v.pack.name@) + kv_text(color, "File"@, v.pack.file@) + kv_text(
            color,
            "Install"@,
            "prefix="@ + v.pack.prefix@ + " sep="@ + v.pack.sep@,
        ) + "\n"@ + section_text(color, "Local skills"@, v.local@.len()) + bullets(string_views(v.local@))
            + "\n"@ + section_text(color, "Imports"@, v.imports@.len()) + imports_pretty(v.imports@) + "\n"@
            + section_text(color, "Final install names"@, v.final_install_names@.len()) + bullets(
            string_views(v.final_install_names@),
        )
    }
}

/// The non-zero counters of an install, each with its word.
pub open spec fn change_parts(color: bool, v: InstallView) -> Seq<Seq<char>> {
    let a: Seq<Seq<char>> = if v.added > 0 {
        seq![styled(color, decimal_spec(v.added as nat), Tone::Success) + " added"@]
    } else {
        Seq::empty()
    };
    let b = if v.updated > 0 {
        a.push(styled(color, decimal_spec(v.updated as nat), Tone::Count) + " updated"@)
    } else {
        a
    };
    if v.removed > 0 {
        b.push(styled(color, decimal_spec(v.removed as nat), Tone::Path) + " removed"@)
    } else {
        b
    }
}

/// The parts joined with `, `.
pub open spec fn comma_joined(parts: Seq<Seq<char>>) -> Seq<char>
    decreases parts.len(),
{
    if parts.len() == 0 {
        Seq::empty()
    } else if parts.len() == 1 {
        parts[0]
    } else {
        comma_joined(parts.drop_last()) + ", "@ + parts.last()
    }
}

/// An indented detail line: a label, then its value.
pub open spec fn detail_line(color: bool, label: Seq<char>, value: Seq<char>) -> Seq<char> {
    "  "@ + styled(color, label, Tone::Label) + " "@ + value + "\n"@
}

pub open spec fn install_text(color: bool, home: Option<Seq<char>>, format: OutputFormat, v: InstallView) -> Seq<char> {
    if format == OutputFormat::Plain {
        "installed "@ + decimal_spec(v.installed_paths@.len()) + " skills to "@ + v.sink_path@ + "\n"@
    } else {
        let parts = change_parts(color, v);
        styled(color, "\u{2713}"@, Tone::Success) + " "@ + "Installed "@ + styled(color, v.pack.name@, Tone::Name) + " to "@
            + styled(color, v.sink@, Tone::Name) + "\n\n"@ + detail_line(
            color,
            "path"@,
            styled(color, shown_path(home, v.sink_path@), Tone::Path),
        ) + detail_line(color, "skills"@, styled(color, decimal_spec(v.installed_paths@.len()), Tone::Count)) + (if parts.len()
            > 0 {
            detail_line(color, "changes"@, comma_joined(parts))
        } else {
            Seq::empty()
        }) + "\n"@
    }
}

pub open spec fn uninstall_text(color: bool, home: Option<Seq<char>>, format: OutputFormat, v: UninstallView) -> Seq<char> {
    if format == OutputFormat::Plain {
        "uninstalled "@ + v.pack@ + " from "@ + v.sink_path@ + "\n"@
    } else {
        styled(color, "\u{2713}"@, Tone::Success) + " "@ + "Uninstalled "@ + styled(color, v.pack@, Tone::Name) + " from "@
            + styled(color, v.sink@, Tone::Name) + "\n\n"@ + detail_line(
            color,
            "path"@,
            styled(color, shown_path(home, v.sink_path@), Tone::Path),
        ) + detail_line(color, "removed"@, styled(color, decimal_spec(v.removed as nat), Tone::Count) + " skills"@)
            + "\n"@
    }
}

pub open spec fn installed_text(color: bool, format: OutputFormat, v: InstalledView) -> Seq<char> {
    if format == OutputFormat::Plain {
        lines(v.installs@.map_values(|i: InstalledItem| installed_line(i)))
    } else {
        section_text(color, "Installed packs"@, v.installs@.len()) + bullets(
            v.installs@.map_values(|i: InstalledItem| installed_label(i)),
        )
    }
}

pub open spec fn sink_bullets(v: Seq<SinkView>) -> Seq<char> {
    bullets(v.map_values(|s: SinkView| sink_label(s)))
}

pub open spec fn config_text(color: bool, format: OutputFormat, v: ConfigView) -> Seq<char> {
    if format == OutputFormat::Plain {
        lines(v.effective@.map_values(|s: SinkView| sink_label(s)))
    } else {
        kv_text(color, "Config"@, v.config_path@) + "\n"@ + section_text(color, "Defaults"@, v.defaults@.len())
            + sink_bullets(v.defaults@) + "\n"@ + section_text(color, "Overrides"@, v.overrides@.len())
            + sink_bullets(v.overrides@) + "\n"@ + section_text(color, "Effective"@, v.effective@.len())
            + sink_bullets(v.effective@)
    }
}

pub open spec fn skills_text(color: bool, format: OutputFormat, skills: Seq<String>) -> Seq<char> {
    if format == OutputFormat::Plain {
        lines(string_views(skills))
    } else {
        section_text(color, "Skills"@, skills.len()) + bullets(string_views(skills))
    }
}

pub open spec fn packs_text(color: bool, format: OutputFormat, packs: Seq<PackSummary>) -> Seq<char> {
    if format == OutputFormat::Plain {
        lines(packs.map_values(|p: PackSummary| p.name@))
    } else {
        section_text(color, "Packs"@, packs.len()) + bullets(packs.map_values(|p: PackSummary| pack_label(p)))
    }
}

pub open spec fn error_text(color: bool, format: OutputFormat, e: CliError) -> Seq<char> {
    if format == OutputFormat::Plain {
        "error: "@ + e.message_view() + match e.hint_view() {
            Some(h) => "\nhint: "@ + h,
            None => Seq::empty(),
        } + "\n"@
    } else {
        styled(color, "Error"@, Tone::Alert) + ": "@ + e.message_view() + match e.hint_view() {
            Some(h) => "\n"@ + styled(color, "Hint"@, Tone::Label) + ": "@ + h,
            None => Seq::empty(),
        } + "\n"@
    }
}

fn cat(a: &str, b: &str) -> (r: String)
    ensures
        r@ == a@ + b@,
{
    let mut r = String::from_str(a);
    r.append(b);
    r
}

fn labels_of_packs(packs: &Vec<PackSummary>, names_only: bool) -> (r: Vec<String>)
    ensures
        string_views(r@) == (if names_only {
            packs@.map_values(|p: PackSummary| p.name@)
        } else {
            packs@.map_values(|p: PackSummary| pack_label(p))
        }),
{
    let mut r: Vec<String> = Vec::new();
    let mut i: usize = 0;
    while i < packs.len()
        invariant
            i <= packs@.len(),
            r@.len() == i,
            forall|k: int| 0 <= k < i ==> (#[trigger] r@[k])@ == (if names_only {
                packs@[k].name@
            } else {
                pack_label(packs@[k])
            }),
        decreases packs.len() - i,
    {
        let p = &packs[i];
        if names_only {
            r.push(p.name.clone());
        } else {
            let mut t = cat(p.name.as_str(), " (");
            t.append(p.path.as_str());
            t.append(")");
            r.push(t);
        }
        i += 1;
    }
    proof {
        if names_only {
            assert(string_views(r@) =~= packs@.map_values(|p: PackSummary| p.name@));
        } else {
            assert(string_views(r@) =~= packs@.map_values(|p: PackSummary| pack_label(p)));
        }
    }
    r
}

fn labels_of_sinks(sinks: &Vec<SinkView>) -> (r: Vec<String>)
    ensures
        string_views(r@) == sinks@.map_values(|v: SinkView| sink_label(v)),
{
    let mut r: Vec<String> = Vec::new();
    let mut i: usize = 0;
    while i < sinks.len()
        invariant
            i <= sinks@.len(),
            r@.len() == i,
            forall|k: int| 0 <= k < i ==> (#[trigger] r@[k])@ == sink_label(sinks@[k]),
        decreases sinks.len() - i,
    {
        let mut t = cat(sinks[i].name.as_str(), " ");
        t.append(sinks[i].path.as_str());
        r.push(t);
        i += 1;
    }
    assert(string_views(r@) =~= sinks@.map_values(|v: SinkView| sink_label(v)));
    r
}

fn labels_of_installed(items: &Vec<InstalledItem>, plain: bool) -> (r: Vec<String>)
    ensures
        string_views(r@) == (if plain {
            items@.map_values(|i: InstalledItem| installed_line(i))
        } else {
            items@.map_values(|i: InstalledItem| installed_label(i))
        }),
{
    let mut r: Vec<String> = Vec::new();
    let mut i: usize = 0;
    while i < items.len()
        invariant
            i <= items@.len(),
            r@.len() == i,
            forall|k: int| 0 <= k < i ==> (#[trigger] r@[k])@ == (if plain {
                installed_line(items@[k])
            } else {
                installed_label(items@[k])
            }),
        decreases items.len() - i,
    {
        let it = &items[i];
        let count = decimal(it.skill_count);
        let mut t: String;
        if plain {
            t = cat(it.sink.as_str(), " ");
            t.append(it.pack.as_str());
            t.append(" ");
            t.append(count.as_str());
            t.append(" ");
            t.append(it.installed_at.as_str());
            t.append(" ");
            t.append(it.sink_path.as_str());
        } else {
            t = cat(it.pack.as_str(), " (");
            t.append(it.sink.as_str());
            t.append(") skills=");
            t.append(count.as_str());
            t.append(" installed=");
            t.append(it.installed_at.as_str());
            t.append(" path=");
            t.append(it.sink_path.as_str());
        }
        r.push(t);
        i += 1;
    }
    proof {
        if plain {
            assert(string_views(r@) =~= items@.map_values(|i: InstalledItem| installed_line(i)));
        } else {
            assert(string_views(r@) =~= items@.map_values(|i: InstalledItem| installed_label(i)));
        }
    }
    r
}

fn join_comma(parts: &Vec<String>) -> (r: String)
    ensures
        r@ == comma_joined(string_views(parts@)),
{
    let ghost pv = string_views(parts@);
    let mut r = String::new();
    let mut k: usize = 0;
    while k < parts.len()
        invariant
            k <= parts@.len(),
            pv == string_views(parts@),
            r@ == comma_joined(pv.subrange(0, k as int)),
        decreases parts.len() - k,
    {
        assert(pv.subrange(0, k + 1).drop_last() =~= pv.subrange(0, k as int));
        assert(pv[k as int] == parts@[k as int]@);
        if k > 0 {
            r.append(", ");
        }
        r.append(parts[k].as_str());
        assert(r@ =~= comma_joined(pv.subrange(0, k + 1)));
        k += 1;
    }
    assert(pv.subrange(0, parts@.len() as int) =~= pv);
    r
}

impl Output {
    /// Colour is used for the pretty format only, and only where asked for.
    pub fn new(format: OutputFormat, color: bool, home: Option<String>) -> (r: Output)
        ensures
            r.spec_format() == format,
            r.spec_color() == (color && format == OutputFormat::Pretty),
            r.spec_home() == (match home {
                Some(h) => Some(h@),
                None => None::<Seq<char>>,
            }),
    {
        Output { format, color: color && format == OutputFormat::Pretty, home }
    }

    pub closed spec fn spec_format(&self) -> OutputFormat {
        self.format
    }

    pub closed spec fn spec_color(&self) -> bool {
        self.color
    }

    pub closed spec fn spec_home(&self) -> Option<Seq<char>> {
        match self.home {
            Some(h) => Some(h@),
            None => None,
        }
    }

    /// The format reports are written in.
    pub fn format(&self) -> (r: OutputFormat)
        ensures
            r == self.spec_format(),
    {
        self.format
    }

    /// Whether labels are wrapped in terminal colour codes.
    pub fn uses_color(&self) -> (r: bool)
        ensures
            r == self.spec_color(),
    {
        self.color
    }

    fn style(&self, text: &str, tone: Tone) -> (r: String)
        ensures
            r@ == styled(self.spec_color(), text@, tone),
    {
        if self.color {
            match tone {
                Tone::Header => paint_bold(text),
                Tone::Name => paint_cyan(text),
                Tone::Path | Tone::Label | Tone::Tree => paint_dimmed(text),
                Tone::Success => paint_green(text),
                Tone::Count => paint_yellow(text),
                Tone::Alert => paint_red_bold(text),
            }
        } else {
            String::from_str(text)
        }
    }

    fn shown(&self, path: &str) -> (r: String)
        ensures
            r@ == shown_path(self.spec_home(), path@),
    {
        match &self.home {
            Some(h) => crate::util::abbreviate_path(path, Some(h.as_str())),
            None => String::from_str(path),
        }
    }

    fn detail(&self, label: &str, value: &str) -> (r: String)
        ensures
            r@ == detail_line(self.spec_color(), label@, value@),
    {
        let mut r = String::from_str("  ");
        let l = self.style(label, Tone::Label);
        r.append(l.as_str());
        r.append(" ");
        r.append(value);
        r.append("\n");
        r
    }

    fn section(&self, title: &str, count: usize) -> (r: String)
        ensures
            r@ == section_text(self.spec_color(), title@, count as nat),
    {
        let mut text = cat(title, " (");
        let n = decimal(count);
        text.append(n.as_str());
        text.append(")");
        let mut r = self.style(text.as_str(), Tone::Header);
        r.append("\n");
        r
    }

    fn kv(&self, label: &str, value: &str) -> (r: String)
        ensures
            r@ == kv_text(self.spec_color(), label@, value@),
    {
        let mut r = self.style(label, Tone::Header);
        r.append(": ");
        r.append(value);
        r.append("\n");
        r
    }

    /// The skill identifiers; `None` for the JSON format.
    pub fn print_skills(&self, skills: &Vec<String>) -> (r: Option<String>)
        ensures
            r is None <==> self.spec_format() == OutputFormat::Json,
            r matches Some(t) ==> t@ == skills_text(self.spec_color(), self.spec_format(), skills@),
    {
        match self.format {
            OutputFormat::Json => None,
            OutputFormat::Plain => {
                let mut out = String::new();
                push_lines(&mut out, skills);
                Some(out)
            },
            OutputFormat::Pretty => {
                let mut out = self.section("Skills", skills.len());
                push_bullets(&mut out, skills, false);
                Some(out)
            },
        }
    }

    /// The packs, by name; `None` for the JSON format.
    pub fn print_packs(&self, packs: &Vec<PackSummary>) -> (r: Option<String>)
        ensures
            r is None <==> self.spec_format() == OutputFormat::Json,
            r matches Some(t) ==> t@ == packs_text(self.spec_color(), self.spec_format(), packs@),
    {
        match self.format {
            OutputFormat::Json => None,
            OutputFormat::Plain => {
                let mut out = String::new();
                push_lines(&mut out, &labels_of_packs(packs, true));
                Some(out)
            },
            OutputFormat::Pretty => {
                let mut out = self.section("Packs", packs.len());
                push_bullets(&mut out, &labels_of_packs(packs, false), false);
                Some(out)
            },
        }
    }

    /// A resolved pack: its skills and the names they install as; `None`
    /// for the JSON format.
    pub fn print_show(&self, view: &ShowView) -> (r: Option<String>)
        ensures
            r is None <==> self.spec_format() == OutputFormat::Json,
            r matches Some(t) ==> t@ == show_text(self.spec_color(), self.spec_format(), *view),
    {
        if self.format == OutputFormat::Json {
            return None;
        }
        let plain = self.format == OutputFormat::Plain;
        let mut out = String::new();
        if plain {
            out.append("local\n");
            push_lines(&mut out, &view.local);
        } else {
            let a = self.kv("Pack", view.pack.name.as_str());
            out.append(a.as_str());
            let b = self.kv("File", view.pack.file.as_str());
            out.append(b.as_str());
            let mut install = cat("prefix=", view.pack.prefix.as_str());
            install.append(" sep=");
            install.append(view.pack.sep.as_str());
            let c = self.kv("Install", install.as_str());
            out.append(c.as_str());
            out.append("\n");
            let d = self.section("Local skills", view.local.len());
            out.append(d.as_str());
            push_bullets(&mut out, &view.local, false);
            out.append("\n");
            let e = self.section("Imports", view.imports.len());
            out.append(e.as_str());
        }
        let ghost start = out@;
        let imps = &view.imports;
        assert(imps@.subrange(0, 0) =~= Seq::<ImportView>::empty());
        let mut k: usize = 0;
        while k < imps.len()
            invariant
                k <= imps@.len(),
                *imps == view.imports,
                out@ == start + (if plain {
                    imports_plain(imps@.subrange(0, k as int))
                } else {
                    imports_pretty(imps@.subrange(0, k as int))
                }),
            decreases imps.len() - k,
        {
            assert(imps@.subrange(0, k + 1).drop_last() =~= imps@.subrange(0, k as int));
            assert(imps@.subrange(0, k + 1).last() == imps@[k as int]);
            let imp = &imps[k];
            if plain {
                out.append("import ");
                out.append(imp.repo.as_str());
                out.append("\n");
                push_lines(&mut out, &imp.skills);
                assert(out@ =~= start + imports_plain(imps@.subrange(0, k + 1)));
            } else {
                let mut label = cat(imp.repo.as_str(), " (ref=");
                match &imp.reference {
                    Some(r) => label.append(r.as_str()),
                    None => label.append("default"),
                }
                label.append(" commit=");
                let h = short_hash(imp.commit.as_str());
                label.append(h.as_str());
                label.append(" skills=");
                let n = decimal(imp.skills.len());
                label.append(n.as_str());
                label.append(")");
                assert(label@ =~= import_label(*imp));
                out.append("- ");
                out.append(label.as_str());
                out.append("\n");
                push_bullets(&mut out, &imp.skills, true);
                assert(out@ =~= start + imports_pretty(imps@.subrange(0, k + 1)));
            }
            k += 1;
        }
        assert(imps@.subrange(0, imps@.len() as int) =~= imps@);
        if plain {
            out.append("final\n");
            push_lines(&mut out, &view.final_install_names);
        } else {
            out.append("\n");
            let f = self.section("Final install names", view.final_install_names.len());
            out.append(f.as_str());
            push_bullets(&mut out, &view.final_install_names, false);
        }
        assert(out@ =~= show_text(self.spec_color(), self.spec_format(), *view));
        Some(out)
    }

    fn change_list(&self, view: &InstallView) -> (r: Vec<String>)
        ensures
            string_views(r@) == change_parts(self.spec_color(), *view),
    {
        let mut r: Vec<String> = Vec::new();
        if view.added > 0 {
            let mut t = self.style(decimal(view.added).as_str(), Tone::Success);
            t.append(" added");
            r.push(t);
        }
        if view.updated > 0 {
            let mut t = self.style(decimal(view.updated).as_str(), Tone::Count);
            t.append(" updated");
            r.push(t);
        }
        if view.removed > 0 {
            let mut t = self.style(decimal(view.removed).as_str(), Tone::Path);
            t.append(" removed");
            r.push(t);
        }
        assert(string_views(r@) =~= change_parts(self.spec_color(), *view));
        r
    }

    /// What an install did in one sink; `None` for the JSON format.
    pub fn print_install(&self, view: &InstallView) -> (r: Option<String>)
        ensures
            r is None <==> self.spec_format() == OutputFormat::Json,
            r matches Some(t) ==> t@ == install_text(self.spec_color(), self.spec_home(), self.spec_format(), *view),
    {
        match self.format {
            OutputFormat::Json => None,
            OutputFormat::Plain => {
                let mut out = String::from_str("installed ");
                let n = decimal(view.installed_paths.len());
                out.append(n.as_str());
                out.append(" skills to ");
                out.append(view.sink_path.as_str());
                out.append("\n");
                Some(out)
            },
            OutputFormat::Pretty => {
                let mut out = self.header("Installed ", view.pack.name.as_str(), " to ", view.sink.as_str());
                let path = self.shown(view.sink_path.as_str());
                let path = self.style(path.as_str(), Tone::Path);
                let line = self.detail("path", path.as_str());
                out.append(line.as_str());
                let count = self.style(decimal(view.installed_paths.len()).as_str(), Tone::Count);
                let line = self.detail("skills", count.as_str());
                out.append(line.as_str());
                let parts = self.change_list(view);
                let ghost before = out@;
                if parts.len() > 0 {
                    let joined = join_comma(&parts);
                    let line = self.detail("changes", joined.as_str());
                    out.append(line.as_str());
                } else {
                    assert(before + Seq::<char>::empty() =~= before);
                }
                out.append("\n");
                assert(out@ =~= install_text(self.spec_color(), self.spec_home(), self.spec_format(), *view));
                Some(out)
            },
        }
    }

    /// `check Installed pack to sink`, then an empty line.
    fn header(&self, verb: &str, pack: &str, word: &str, sink: &str) -> (r: String)
        ensures
            r@ == styled(self.spec_color(), "\u{2713}"@, Tone::Success) + " "@ + verb@ + styled(
                self.spec_color(),
                pack@,
                Tone::Name,
            ) + word@ + styled(self.spec_color(), sink@, Tone::Name) + "\n\n"@,
    {
        let mut out = self.style("\u{2713}", Tone::Success);
        out.append(" ");
        out.append(verb);
        let p = self.style(pack, Tone::Name);
        out.append(p.as_str());
        out.append(word);
        let k = self.style(sink, Tone::Name);
        out.append(k.as_str());
        out.append("\n\n");
        out
    }

    /// What an uninstall did in one sink; `None` for the JSON format.
    pub fn print_uninstall(&self, view: &UninstallView) -> (r: Option<String>)
        ensures
            r is None <==> self.spec_format() == OutputFormat::Json,
            r matches Some(t) ==> t@ == uninstall_text(self.spec_color(), self.spec_home(), self.spec_format(), *view),
    {
        match self.format {
            OutputFormat::Json => None,
            OutputFormat::Plain => {
                let mut out = String::from_str("uninstalled ");
                out.append(view.pack.as_str());
                out.append(" from ");
                out.append(view.sink_path.as_str());
                out.append("\n");
                Some(out)
            },
            OutputFormat::Pretty => {
                let mut out = self.header("Uninstalled ", view.pack.as_str(), " from ", view.sink.as_str());
                let path = self.shown(view.sink_path.as_str());
                let path = self.style(path.as_str(), Tone::Path);
                let line = self.detail("path", path.as_str());
                out.append(line.as_str());
                let mut count = self.style(decimal(view.removed).as_str(), Tone::Count);
                count.append(" skills");
                let line = self.detail("removed", count.as_str());
                out.append(line.as_str());
                out.append("\n");
                assert(out@ =~= uninstall_text(self.spec_color(), self.spec_home(), self.spec_format(), *view));
                Some(out)
            },
        }
    }

    /// The installed packs; `None` for the JSON format.
    pub fn print_installed(&self, view: &InstalledView) -> (r: Option<String>)
        ensures
            r is None <==> self.spec_format() == OutputFormat::Json,
            r matches Some(t) ==> t@ == installed_text(self.spec_color(), self.spec_format(), *view),
    {
        match self.format {
            OutputFormat::Json => None,
            OutputFormat::Plain => {
                let mut out = String::new();
                push_lines(&mut out, &labels_of_installed(&view.installs, true));
                Some(out)
            },
            OutputFormat::Pretty => {
                let mut out = self.section("Installed packs", view.installs.len());
                push_bullets(&mut out, &labels_of_installed(&view.installs, false), false);
                Some(out)
            },
        }
    }

    /// The sinks by origin; `None` for the JSON format.
    pub fn print_config(&self, view: &ConfigView) -> (r: Option<String>)
        ensures
            r is None <==> self.spec_format() == OutputFormat::Json,
            r matches Some(t) ==> t@ == config_text(self.spec_color(), self.spec_format(), *view),
    {
        match self.format {
            OutputFormat::Json => None,
            OutputFormat::Plain => {
                let mut out = String::new();
                push_lines(&mut out, &labels_of_sinks(&view.effective));
                Some(out)
            },
            OutputFormat::Pretty => {
                let mut out = self.kv("Config", view.config_path.as_str());
                out.append("\n");
                let a = self.section("Defaults", view.defaults.len());
                out.append(a.as_str());
                push_bullets(&mut out, &labels_of_sinks(&view.defaults), false);
                out.append("\n");
                let b = self.section("Overrides", view.overrides.len());
                out.append(b.as_str());
                push_bullets(&mut out, &labels_of_sinks(&view.overrides), false);
                out.append("\n");
                let c = self.section("Effective", view.effective.len());
                out.append(c.as_str());
                push_bullets(&mut out, &labels_of_sinks(&view.effective), false);
                assert(out@ =~= config_text(self.spec_color(), self.spec_format(), *view));
                Some(out)
            },
        }
    }

    /// An error for the error stream; `None` for the JSON format.
    pub fn print_error(&self, err: &CliError) -> (r: Option<String>)
        ensures
            r is None <==> self.spec_format() == OutputFormat::Json,
            r matches Some(t) ==> t@ == error_text(self.spec_color(), self.spec_format(), *err),
    {
        match self.format {
            OutputFormat::Json => None,
            OutputFormat::Plain => {
                let mut out = String::from_str("error: ");
                out.append(err.message());
                match err.hint() {
                    Some(h) => {
                        out.append("\nhint: ");
                        out.append(h);
                    },
                    None => {},
                }
                out.append("\n");
                assert(out@ =~= error_text(self.spec_color(), self.spec_format(), *err));
                Some(out)
            },
            OutputFormat::Pretty => {
                let mut out = self.style("Error", Tone::Alert);
                out.append(": ");
                out.append(err.message());
                match err.hint() {
                    Some(h) => {
                        out.append("\n");
                        let hint = self.style("Hint", Tone::Label);
                        out.append(hint.as_str());
                        out.append(": ");
                        out.append(h);
                    },
                    None => {},
                }
                out.append("\n");
                assert(out@ =~= error_text(self.spec_color(), self.spec_format(), *err));
                Some(out)
            },
        }
    }
}

} // verus!
