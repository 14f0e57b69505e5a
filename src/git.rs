//! Remote repositories: their addresses and where the cache keeps them.
use vstd::prelude::*;
use vstd::string::StringExecFns;
use crate::util::{has_prefix, join_path, join_spec, starts_with};

verus! {

/// A repository checked out by the repository cache.
#[derive(Clone, Debug)]
pub struct ResolvedRepo {
    pub repo: String,
    pub ref_name: Option<String>,
    pub commit: String,
    pub path: String,
}

/// The full repository address used to fetch `repo`.
pub open spec fn expand_spec(repo: Seq<char>) -> Seq<char> {
    if has_prefix(repo, "github.com/"@) {
        "https://"@ + repo + ".git"@
    } else {
        repo
    }
}

/// The lowercase hexadecimal BLAKE3 digest of the UTF-8 text `s`.
pub uninterp spec fn blake3_hex_of(s: Seq<char>) -> Seq<char>;

/// The address to fetch: `github.com/...` shorthand becomes an https URL.
pub fn expand_repo(repo: &str) -> (r: String)
    ensures
        r@ == expand_spec(repo@),
{
    if starts_with(repo, "github.com/") {
        let mut r = String::from_str("https://");
        r.append(repo);
        r.append(".git");
        r
    } else {
        String::from_str(repo)
    }
}

/// Relies on `blake3::Hasher` (`update`, `finalize`) and `Hash::to_hex`: the
/// digest of the text's bytes, 32 bytes written as 64 lowercase hex digits.
#[verifier::external_body]
fn hash_repo(repo: &str) -> (r: String)
    ensures
        r@ == blake3_hex_of(repo@),
        r@.len() == 64,
{
    let mut hasher = blake3::Hasher::new();
    hasher.update(repo.as_bytes());
    hasher.finalize().to_hex().to_string()
}

/// The cache directory of a repository: its expanded address, hashed, under
/// `cache_dir`. The same address always gives the same directory.
pub fn repo_cache_dir(cache_dir: &str, repo: &str) -> (r: String)
    ensures
        r@ == join_spec(cache_dir@, blake3_hex_of(expand_spec(repo@))),
{
    let expanded = expand_repo(repo);
    let key = hash_repo(expanded.as_str());
    join_path(cache_dir, key.as_str())
}

} // verus!
