//! The record of installed packs, one per sink and pack.
use vstd::prelude::*;
use crate::text::same_text;

verus! {

/// The commit an import was installed from.
#[derive(Clone, Debug)]
pub struct ImportRecord {
    pub repo: String,
    pub ref_name: Option<String>,
    pub commit: String,
}

/// One pack installed into one sink, and the paths it owns there.
#[derive(Clone, Debug)]
pub struct InstallRecord {
    pub sink: String,
    pub sink_path: String,
    pub pack: String,
    pub pack_file: String,
    pub prefix: String,
    pub sep: String,
    pub flatten: bool,
    pub imports: Vec<ImportRecord>,
    pub installed_paths: Vec<String>,
    pub installed_at: String,
}

/// Everything installed, as persisted.
#[derive(Clone, Debug)]
pub struct StateFile {
    pub version: u32,
    pub installs: Vec<InstallRecord>,
}

impl Default for StateFile {
    fn default() -> (r: StateFile)
        ensures
            r.version == 1,
            r.installs@.len() == 0,
    {
        StateFile { version: 1, installs: Vec::new() }
    }
}

/// The record is the one of `pack` in the sink at `sink_path`.
pub open spec fn record_matches(r: InstallRecord, sink_path: Seq<char>, pack: Seq<char>) -> bool {
    r.sink_path@ == sink_path && r.pack@ == pack
}

/// Record `i` is the first one of `pack` in the sink at `sink_path`.
pub open spec fn is_first_record(installs: Seq<InstallRecord>, sink_path: Seq<char>, pack: Seq<char>, i: int) -> bool {
    &&& 0 <= i < installs.len()
    &&& record_matches(installs[i], sink_path, pack)
    &&& forall|m: int| 0 <= m < i ==> !record_matches(#[trigger] installs[m], sink_path, pack)
}

/// The index of the first record of `pack` in the sink.
pub open spec fn first_index(installs: Seq<InstallRecord>, sink_path: Seq<char>, pack: Seq<char>) -> int {
    choose|i: int| is_first_record(installs, sink_path, pack, i)
}

/// The paths that the record of `pack` in the sink lists; none without one.
pub open spec fn prior_paths(installs: Seq<InstallRecord>, sink_path: Seq<char>, pack: Seq<char>) -> Seq<String> {
    if has_record(installs, sink_path, pack) {
        installs[first_index(installs, sink_path, pack)].installed_paths@
    } else {
        Seq::empty()
    }
}

pub proof fn lemma_first_unique(installs: Seq<InstallRecord>, sink_path: Seq<char>, pack: Seq<char>, i: int)
    requires
        is_first_record(installs, sink_path, pack, i),
    ensures
        has_record(installs, sink_path, pack),
        first_index(installs, sink_path, pack) == i,
{
    let j = first_index(installs, sink_path, pack);
    assert(is_first_record(installs, sink_path, pack, j));
    if j < i {
        assert(!record_matches(installs[j], sink_path, pack));
    } else if i < j {
        assert(!record_matches(installs[i], sink_path, pack));
    }
}

pub open spec fn has_record(installs: Seq<InstallRecord>, sink_path: Seq<char>, pack: Seq<char>) -> bool {
    exists|i: int| 0 <= i < installs.len() && record_matches(#[trigger] installs[i], sink_path, pack)
}

/// `path` is among `paths`.
pub open spec fn lists(paths: Seq<String>, path: Seq<char>) -> bool {
    exists|k: int| 0 <= k < paths.len() && #[trigger] paths[k]@ == path
}

/// The record of `pack` in the sink lists `dest` among its paths.
pub open spec fn owns(installs: Seq<InstallRecord>, sink_path: Seq<char>, pack: Seq<char>, dest: Seq<char>) -> bool {
    exists|i: int| #[trigger] is_first_record(installs, sink_path, pack, i) && lists(installs[i].installed_paths@, dest)
}

/// The index of the record of `pack` in the sink at `sink_path`, if any.
pub fn find_record_index(state: &StateFile, sink_path: &str, pack: &str) -> (r: Option<usize>)
    ensures
        r is None <==> !has_record(state.installs@, sink_path@, pack@),
        r matches Some(i) ==> is_first_record(state.installs@, sink_path@, pack@, i as int),
{
    let mut i: usize = 0;
    while i < state.installs.len()
        invariant
            i <= state.installs@.len(),
            forall|m: int| 0 <= m < i ==> !record_matches(#[trigger] state.installs@[m], sink_path@, pack@),
        decreases state.installs.len() - i,
    {
        let r = &state.installs[i];
        if same_text(r.sink_path.as_str(), sink_path) && same_text(r.pack.as_str(), pack) {
            return Some(i);
        }
        i += 1;
    }
    None
}

/// Whether `paths` lists `path`.
pub fn lists_path(paths: &Vec<String>, path: &str) -> (r: bool)
    ensures
        r == lists(paths@, path@),
{
    let mut k: usize = 0;
    while k < paths.len()
        invariant
            k <= paths@.len(),
            forall|m: int| 0 <= m < k ==> #[trigger] paths@[m]@ != path@,
        decreases paths.len() - k,
    {
        if same_text(paths[k].as_str(), path) {
            return true;
        }
        k += 1;
    }
    false
}

/// Whether the record of `pack` in the sink at `sink_path` owns `dest`.
pub fn record_owned_path(state: &StateFile, sink_path: &str, pack: &str, dest: &str) -> (r: bool)
    ensures
        r == owns(state.installs@, sink_path@, pack@, dest@),
{
    match find_record_index(state, sink_path, pack) {
        Some(i) => lists_path(&state.installs[i].installed_paths, dest),
        None => false,
    }
}

} // verus!
