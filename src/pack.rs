//! Pack manifests: their parsed form, validation and defaults.
use vstd::prelude::*;
use vstd::string::StringExecFns;
use crate::errors::{ManifestProblem, SkillpackError};
use crate::text::chars_of;

verus! {

/// Skills taken from another repository.
#[derive(Clone, Debug)]
pub struct ImportSpec {
    pub repo: String,
    pub ref_name: Option<String>,
    pub includes: Vec<String>,
    pub exclude: Option<Vec<String>>,
}

/// How installed folders are named.
#[derive(Clone, Debug)]
pub struct InstallSpec {
    pub prefix: Option<String>,
    pub sep: Option<String>,
    pub flatten: Option<bool>,
}

/// A pack manifest as written, before validation and defaults.
#[derive(Clone, Debug)]
pub struct PackFile {
    pub name: String,
    pub includes: Vec<String>,
    pub exclude: Option<Vec<String>>,
    pub imports: Option<Vec<ImportSpec>>,
    pub install: Option<InstallSpec>,
}

/// A validated pack, with the naming defaults filled in.
#[derive(Clone, Debug)]
pub struct Pack {
    pub name: String,
    pub includes: Vec<String>,
    pub exclude: Vec<String>,
    pub imports: Vec<ImportSpec>,
    pub install_prefix: String,
    pub install_sep: String,
    pub install_flatten: bool,
}

/// `c` has the Unicode `White_Space` property, as `char::is_whitespace` and
/// `str::trim` use it.
pub open spec fn is_white_space(c: char) -> bool {
    let v = c as u32;
    (0x9 <= v <= 0xD) || v == 0x20 || v == 0x85 || v == 0xA0 || v == 0x1680 || (0x2000 <= v
        <= 0x200A) || v == 0x2028 || v == 0x2029 || v == 0x202F || v == 0x205F || v == 0x3000
}

/// `s` is empty once trimmed.
pub open spec fn is_blank(s: Seq<char>) -> bool {
    forall|i: int| 0 <= i < s.len() ==> is_white_space(#[trigger] s[i])
}

/// The first problem among the imports, in order.
pub open spec fn import_problem(imps: Seq<ImportSpec>) -> Option<ManifestProblem>
    decreases imps.len(),
{
    if imps.len() == 0 {
        None
    } else if is_blank(imps[0].repo@) {
        Some(ManifestProblem::MissingImportRepo)
    } else if imps[0].includes@.len() == 0 {
        Some(ManifestProblem::EmptyImportInclude)
    } else {
        import_problem(imps.drop_first())
    }
}

pub open spec fn has_imports(p: PackFile) -> bool {
    p.imports matches Some(imps) && imps@.len() > 0
}

/// The first problem of a manifest: a blank name, neither includes nor
/// imports, or an import with a blank repository or no includes.
pub open spec fn pack_problem(p: PackFile) -> Option<ManifestProblem> {
    if is_blank(p.name@) {
        Some(ManifestProblem::MissingName)
    } else if p.includes@.len() == 0 && !has_imports(p) {
        Some(ManifestProblem::NoSkills)
    } else {
        match p.imports {
            Some(imps) => import_problem(imps@),
            None => None,
        }
    }
}

pub open spec fn validation_result(p: PackFile) -> Result<(), SkillpackError> {
    match pack_problem(p) {
        Some(problem) => Err(SkillpackError::InvalidManifest { problem }),
        None => Ok(()),
    }
}

fn white_space(c: char) -> (r: bool)
    ensures
        r == is_white_space(c),
{
    let v = c as u32;
    (0x9 <= v && v <= 0xD) || v == 0x20 || v == 0x85 || v == 0xA0 || v == 0x1680 || (0x2000 <= v
        && v <= 0x200A) || v == 0x2028 || v == 0x2029 || v == 0x202F || v == 0x205F || v == 0x3000
}

/// Whether `s` holds nothing but white space.
pub fn blank(s: &str) -> (r: bool)
    ensures
        r == is_blank(s@),
{
    let cs = chars_of(s);
    let mut i: usize = 0;
    while i < cs.len()
        invariant
            cs@ == s@,
            i <= cs@.len(),
            forall|k: int| 0 <= k < i ==> is_white_space(#[trigger] s@[k]),
        decreases cs.len() - i,
    {
        if !white_space(cs[i]) {
            return false;
        }
        i += 1;
    }
    true
}

/// Checks a manifest: a name, some includes or imports, and for each import
/// a repository and some includes.
pub fn validate_pack(pack: &PackFile) -> (r: Result<(), SkillpackError>)
    ensures
        r == validation_result(*pack),
{
    if blank(pack.name.as_str()) {
        return Err(SkillpackError::InvalidManifest { problem: ManifestProblem::MissingName });
    }
    let has_imports = match &pack.imports {
        Some(imps) => imps.len() > 0,
        None => false,
    };
    if pack.includes.len() == 0 && !has_imports {
        return Err(SkillpackError::InvalidManifest { problem: ManifestProblem::NoSkills });
    }
    match &pack.imports {
        Some(imps) => {
            let mut i: usize = 0;
            assert(imps@.subrange(0, imps@.len() as int) =~= imps@);
            while i < imps.len()
                invariant
                    i <= imps@.len(),
                    pack.imports == Some(*imps),
                    pack_problem(*pack) == import_problem(imps@),
                    import_problem(imps@) == import_problem(imps@.subrange(i as int, imps@.len() as int)),
                decreases imps.len() - i,
            {
                let ghost rest = imps@.subrange(i as int, imps@.len() as int);
                assert(rest.drop_first() =~= imps@.subrange(i + 1, imps@.len() as int));
                if blank(imps[i].repo.as_str()) {
                    return Err(SkillpackError::InvalidManifest { problem: ManifestProblem::MissingImportRepo });
                }
                if imps[i].includes.len() == 0 {
                    return Err(SkillpackError::InvalidManifest { problem: ManifestProblem::EmptyImportInclude });
                }
                i += 1;
            }
            assert(imps@.subrange(imps@.len() as int, imps@.len() as int) =~= Seq::<ImportSpec>::empty());
            Ok(())
        },
        None => Ok(()),
    }
}

/// The pack that a manifest describes: the prefix defaults to the name, the
/// separator to `__`, flattening to off, missing lists to empty ones.
pub fn pack_from_file(file: PackFile) -> (r: Result<Pack, SkillpackError>)
    ensures
        r is Err <==> pack_problem(file) is Some,
        r matches Err(e) ==> Err::<(), SkillpackError>(e) == validation_result(file),
        r matches Ok(p) ==> {
            &&& p.name == file.name
            &&& p.includes == file.includes
            &&& p.exclude@ == (match file.exclude { Some(v) => v@, None => Seq::empty() })
            &&& p.imports@ == (match file.imports { Some(v) => v@, None => Seq::empty() })
            &&& p.install_prefix == (match file.install {
                Some(spec) => match spec.prefix { Some(x) => x, None => file.name },
                None => file.name,
            })
            &&& p.install_sep@ == (match file.install {
                Some(spec) => match spec.sep { Some(x) => x@, None => "__"@ },
                None => "__"@,
            })
            &&& p.install_flatten == (match file.install {
                Some(spec) => match spec.flatten { Some(x) => x, None => false },
                None => false,
            })
        },
{
    match validate_pack(&file) {
        Err(e) => return Err(e),
        Ok(()) => {},
    }
    let PackFile { name, includes: patterns, exclude, imports, install } = file;
    let (prefix, sep, flatten) = match install {
        Some(spec) => (spec.prefix, spec.sep, spec.flatten),
        None => (None, None, None),
    };
    let install_prefix = match prefix {
        Some(x) => x,
        None => name.clone(),
    };
    let install_sep = match sep {
        Some(x) => x,
        None => String::from_str("__"),
    };
    let install_flatten = match flatten {
        Some(x) => x,
        None => false,
    };
    let exclude = match exclude {
        Some(v) => v,
        None => Vec::new(),
    };
    let imports = match imports {
        Some(v) => v,
        None => Vec::new(),
    };
    Ok(Pack { name, includes: patterns, exclude, imports, install_prefix, install_sep, install_flatten })
}

} // verus!
