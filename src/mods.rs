use vstd::prelude::*;
use vstd::string::*;

use crate::annotation::{detect_mod_path, is_word, spec_mod_path};
use crate::model::{Attribute, SourcegenErrorKind};
use crate::paths::{
    file_name, file_name_of, file_stem, file_stem_of, join_path, joined, parent_dir, parent_of,
};

verus! {

/// A module name with its raw-identifier prefixes `r#` taken off.
pub open spec fn unraw(name: Seq<char>) -> Seq<char>
    decreases name.len(),
{
    if name.len() >= 2 && name[0] == 'r' && name[1] == '#' {
        unraw(name.skip(2))
    } else {
        name
    }
}

/// Takes the raw-identifier prefixes `r#` off a module name.
pub fn unraw_name(name: &String) -> (r: String)
    ensures
        r@ == unraw(name@),
{
    let s = name.as_str();
    let n = s.unicode_len();
    let mut i: usize = 0;
    assert(s@.skip(0) =~= s@);
    while i < n && n - i >= 2 && s.get_char(i) == 'r' && s.get_char(i + 1) == '#'
        invariant
            n == s@.len(),
            s@ == name@,
            i <= n,
            unraw(name@) == unraw(s@.skip(i as int)),
        decreases n - i,
    {
        proof {
            assert(s@.skip(i as int).skip(2) =~= s@.skip(i + 2));
            assert(s@.skip(i as int)[0] == s@[i as int]);
            assert(s@.skip(i as int)[1] == s@[i + 1]);
        }
        i = i + 2;
    }
    let r = String::from_str(s.substring_char(i, n));
    proof {
        assert(s@.subrange(i as int, n as int) =~= s@.skip(i as int));
    }
    r
}

/// A file that names its directory as the place of its child modules: a crate root, or a file
/// called `lib.rs`, `main.rs` or `mod.rs`.
pub open spec fn owns_directory(path: Seq<char>, is_root: bool) -> bool {
    ||| is_root
    ||| file_name_of(path) == Some("lib.rs"@)
    ||| file_name_of(path) == Some("main.rs"@)
    ||| file_name_of(path) == Some("mod.rs"@)
    ||| file_stem_of(path) is None
}

/// What `module_candidates` gives for the module `ident`, declared with `attrs` in the file at
/// `parent` whose child modules live in `base`.
pub open spec fn candidates_result(
    base: Seq<char>,
    parent: Seq<char>,
    ident: Seq<char>,
    attrs: Seq<Attribute>,
    r: Result<ModuleCandidates, SourcegenErrorKind>,
) -> bool {
    match spec_mod_path(attrs) {
        Some(p) => match parent_of(parent) {
            Some(d) => r matches Ok(ModuleCandidates::Explicit(x)) && x@ == joined(d, p@),
            None => r matches Err(SourcegenErrorKind::CannotResolveModule(a, b)) && a@ == p@ && b@
                == unraw(ident),
        },
        None => r matches Ok(ModuleCandidates::Search { flat, nested, name }) && name@ == unraw(
            ident,
        ) && flat@ == joined(base, unraw(ident) + ".rs"@) && nested@ == joined(
            joined(base, unraw(ident)),
            "mod.rs"@,
        ),
    }
}

/// What `resolve` gives, given which of the conventional files exist.
pub open spec fn resolve_result(
    c: ModuleCandidates,
    flat_is_file: bool,
    nested_is_file: bool,
    r: Result<String, SourcegenErrorKind>,
) -> bool {
    match c {
        ModuleCandidates::Explicit(x) => r matches Ok(y) && y@ == x@,
        ModuleCandidates::Search { flat, nested, name } => if flat_is_file {
            r matches Ok(y) && y@ == flat@
        } else if nested_is_file {
            r matches Ok(y) && y@ == nested@
        } else {
            r matches Err(SourcegenErrorKind::CannotResolveModule(a, b)) && a@ == nested@ && b@
                == name@
        },
    }
}

/// The base directory that the file at `path`, a child module, gets for its own child modules;
/// `fallback` where the path has no directory.
pub open spec fn child_base(path: Seq<char>, fallback: Seq<char>) -> Seq<char> {
    match parent_of(path) {
        Some(d) => if owns_directory(path, false) {
            d
        } else {
            joined(d, file_stem_of(path)->Some_0)
        },
        None => fallback,
    }
}

/// Where the files of the child modules declared in a module live.
pub struct ModResolver {
    pub base: String,
}

/// The files that can back a module declared without a body: the one that its `#[path]`
/// attribute gives, or the two that the naming conventions give, tried in this order.
#[derive(Debug)]
pub enum ModuleCandidates {
    Explicit(String),
    Search { flat: String, nested: String, name: String },
}

impl ModResolver {
    /// A resolver whose child modules live in `base`.
    pub fn new(base: String) -> (r: Self)
        ensures
            r.base@ == base@,
    {
        ModResolver { base }
    }

    /// The resolver for the modules nested in the inline module `name`.
    pub fn push_module(&self, name: &str) -> (r: Self)
        ensures
            r.base@ == joined(self.base@, name@),
    {
        ModResolver { base: join_path(self.base.as_str(), name) }
    }

    /// The resolver for the modules declared in the file at `path`: its directory where it owns
    /// that directory, else the subdirectory named after the file. `None` where the path has no
    /// directory.
    pub fn for_file(path: &String, is_root: bool) -> (r: Option<Self>)
        ensures
            match parent_of(path@) {
                None => r is None,
                Some(d) => r matches Some(m) && m.base@ == if owns_directory(path@, is_root) {
                    d
                } else {
                    joined(d, file_stem_of(path@)->Some_0)
                },
            },
    {
        let dir = match parent_dir(path.as_str()) {
            Some(d) => d,
            None => {
                return None;
            },
        };
        let stem = file_stem(path.as_str());
        let owner = match file_name(path.as_str()) {
            Some(n) => is_word(&n, "lib.rs") || is_word(&n, "main.rs") || is_word(&n, "mod.rs"),
            None => false,
        };
        if is_root || owner {
            return Some(ModResolver { base: dir });
        }
        match stem {
            Some(s) => Some(ModResolver { base: join_path(dir.as_str(), s.as_str()) }),
            None => Some(ModResolver { base: dir }),
        }
    }

    /// The files that can back the module `ident`, declared with `attrs` and without a body in
    /// the file at `parent_file`. A `#[path]` attribute is taken relative to the directory of
    /// that file, and fails where it has none; otherwise `<base>/<name>.rs`, then
    /// `<base>/<name>/mod.rs`.
    pub fn module_candidates(&self, parent_file: &String, ident: &String, attrs: &Vec<Attribute>) -> (r:
        Result<ModuleCandidates, SourcegenErrorKind>)
        ensures
            candidates_result(self.base@, parent_file@, ident@, attrs@, r),
    {
        let name = unraw_name(ident);
        match detect_mod_path(attrs) {
            Some(p) => match parent_dir(parent_file.as_str()) {
                Some(d) => Ok(ModuleCandidates::Explicit(join_path(d.as_str(), p.as_str()))),
                None => Err(SourcegenErrorKind::CannotResolveModule(p, name)),
            },
            None => {
                let mut flat_name = name.clone();
                flat_name.append(".rs");
                let flat = join_path(self.base.as_str(), flat_name.as_str());
                let dir = join_path(self.base.as_str(), name.as_str());
                let nested = join_path(dir.as_str(), "mod.rs");
                Ok(ModuleCandidates::Search { flat, nested, name })
            },
        }
    }
}

impl ModuleCandidates {
    /// The file that backs the module, given which of the conventional files exist: the
    /// `#[path]` file as it is; else the flat file wins over the nested one; with neither, the
    /// module cannot be resolved.
    pub fn resolve(self, flat_is_file: bool, nested_is_file: bool) -> (r: Result<
        String,
        SourcegenErrorKind,
    >)
        ensures
            resolve_result(self, flat_is_file, nested_is_file, r),
    {
        match self {
            ModuleCandidates::Explicit(x) => Ok(x),
            ModuleCandidates::Search { flat, nested, name } => {
                if flat_is_file {
                    Ok(flat)
                } else if nested_is_file {
                    Ok(nested)
                } else {
                    Err(SourcegenErrorKind::CannotResolveModule(nested, name))
                }
            },
        }
    }
}

} // verus!
