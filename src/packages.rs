use vstd::prelude::*;
use vstd::string::*;

use crate::annotation::is_word;

verus! {

/// `name` is one of `names`.
pub open spec fn listed(names: Seq<String>, name: Seq<char>) -> bool {
    exists|i: int| 0 <= i < names.len() && #[trigger] names[i]@ == name
}

/// Tells whether `name` is one of `names`.
pub fn contains_name(names: &Vec<String>, name: &String) -> (r: bool)
    ensures
        r == listed(names@, name@),
{
    let mut i: usize = 0;
    while i < names.len()
        invariant
            i <= names@.len(),
            forall|j: int| 0 <= j < i ==> #[trigger] names@[j]@ != name@,
        decreases names@.len() - i,
    {
        if names[i] == *name {
            return true;
        }
        i = i + 1;
    }
    false
}

/// The first `n` requested names that no available package has, in the order requested.
pub open spec fn missing_names(requested: Seq<String>, available: Seq<String>, n: int) -> Seq<
    Seq<char>,
>
    decreases n,
{
    if n <= 0 || n > requested.len() {
        Seq::empty()
    } else {
        let prev = missing_names(requested, available, n - 1);
        if listed(available, requested[n - 1]@) {
            prev
        } else {
            prev.push(requested[n - 1]@)
        }
    }
}

/// The requested package names that no package of the workspace has, in the order requested
/// (a name requested twice is listed twice).
pub fn invalid_package_names(requested: &Vec<String>, available: &Vec<String>) -> (r: Vec<String>)
    ensures
        r@.len() == missing_names(requested@, available@, requested@.len() as int).len(),
        forall|i: int|
            0 <= i < r@.len() ==> #[trigger] r@[i]@ == missing_names(
                requested@,
                available@,
                requested@.len() as int,
            )[i],
{
    let mut out: Vec<String> = Vec::new();
    let mut i: usize = 0;
    while i < requested.len()
        invariant
            i <= requested@.len(),
            out@.len() == missing_names(requested@, available@, i as int).len(),
            forall|k: int|
                0 <= k < out@.len() ==> #[trigger] out@[k]@ == missing_names(
                    requested@,
                    available@,
                    i as int,
                )[k],
        decreases requested@.len() - i,
    {
        let name = &requested[i];
        if !contains_name(available, name) {
            out.push(name.clone());
        }
        i = i + 1;
    }
    out
}

/// The names joined by `, `.
pub open spec fn comma_joined(names: Seq<String>) -> Seq<char>
    decreases names.len(),
{
    if names.len() == 0 {
        Seq::empty()
    } else if names.len() == 1 {
        names[0]@
    } else {
        comma_joined(names.drop_last()) + ", "@ + names.last()@
    }
}

/// Joins the names with `, ` between them.
pub fn join_names(names: &Vec<String>) -> (r: String)
    ensures
        r@ == comma_joined(names@),
{
    let mut out = String::new();
    let mut i: usize = 0;
    while i < names.len()
        invariant
            i <= names@.len(),
            out@ == comma_joined(names@.subrange(0, i as int)),
        decreases names@.len() - i,
    {
        if i > 0 {
            out.append(", ");
        }
        out.append(names[i].as_str());
        proof {
            let s = names@.subrange(0, i + 1);
            assert(s.drop_last() =~= names@.subrange(0, i as int));
        }
        i = i + 1;
    }
    assert(names@.subrange(0, names@.len() as int) =~= names@);
    out
}

/// Whether a package gets its sources generated: it is one of those requested (all are, where
/// none is), it lives in the workspace rather than in a registry, and it depends on `sourcegen`.
pub open spec fn spec_selects_package(
    requested: Seq<String>,
    name: Seq<char>,
    is_local: bool,
    dependencies: Seq<String>,
) -> bool {
    &&& (requested.len() == 0 || listed(requested, name))
    &&& is_local
    &&& exists|i: int| 0 <= i < dependencies.len() && #[trigger] dependencies[i]@ == "sourcegen"@
}

/// Tells whether a package gets its sources generated.
pub fn selects_package(
    requested: &Vec<String>,
    name: &String,
    is_local: bool,
    dependencies: &Vec<String>,
) -> (r: bool)
    ensures
        r == spec_selects_package(requested@, name@, is_local, dependencies@),
{
    if !(requested.len() == 0 || contains_name(requested, name)) || !is_local {
        return false;
    }
    let mut i: usize = 0;
    while i < dependencies.len()
        invariant
            i <= dependencies@.len(),
            requested@.len() == 0 || listed(requested@, name@),
            is_local,
            forall|j: int| 0 <= j < i ==> #[trigger] dependencies@[j]@ != "sourcegen"@,
        decreases dependencies@.len() - i,
    {
        if is_word(&dependencies[i], "sourcegen") {
            assert(dependencies@[i as int]@ == "sourcegen"@);
            return true;
        }
        i = i + 1;
    }
    false
}

} // verus!
