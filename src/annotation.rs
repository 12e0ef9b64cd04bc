use vstd::prelude::*;
use vstd::string::*;

use crate::model::{Attribute, Lit, LineColumn, Location, Meta, NestedMeta, SourcegenErrorKind, Span};

verus! {

/// Tells whether a string holds exactly the characters of `word`.
pub fn is_word(s: &String, word: &str) -> (r: bool)
    ensures
        r == (s@ == word@),
{
    let a = s.as_str();
    let n = a.unicode_len();
    if n != word.unicode_len() {
        return false;
    }
    let mut i: usize = 0;
    while i < n
        invariant
            n == a@.len() == word@.len(),
            a@ == s@,
            i <= n,
            forall|j: int| 0 <= j < i ==> a@[j] == word@[j],
        decreases n - i,
    {
        if a.get_char(i) != word.get_char(i) {
            return false;
        }
        i = i + 1;
    }
    assert(s@ =~= word@);
    true
}

/// The attribute's path starts with `sourcegen`.
pub open spec fn is_sourcegen_attr(a: Attribute) -> bool {
    a.path@.len() > 0 && a.path@[0]@ == "sourcegen"@
}

/// Attribute `i` is the first one whose path starts with `sourcegen`.
pub open spec fn is_first_sourcegen(attrs: Seq<Attribute>, i: int) -> bool {
    &&& 0 <= i < attrs.len()
    &&& is_sourcegen_attr(attrs[i])
    &&& forall|j: int| 0 <= j < i ==> !is_sourcegen_attr(#[trigger] attrs[j])
}

/// The declaration is marked as the output of an earlier run: its first `sourcegen` attribute
/// is `sourcegen::generated`.
pub open spec fn spec_is_generated(attrs: Seq<Attribute>) -> bool {
    exists|i: int|
        #[trigger] is_first_sourcegen(attrs, i) && attrs[i].path@.len() > 1
            && attrs[i].path@[1]@ == "generated"@
}

/// Index of the first attribute whose path starts with `sourcegen`.
pub fn find_sourcegen_attr(attrs: &Vec<Attribute>) -> (r: Option<usize>)
    ensures
        r matches Some(i) ==> is_first_sourcegen(attrs@, i as int),
        r is None ==> forall|j: int| 0 <= j < attrs@.len() ==> !is_sourcegen_attr(#[trigger] attrs@[j]),
{
    let mut i: usize = 0;
    while i < attrs.len()
        invariant
            i <= attrs@.len(),
            forall|j: int| 0 <= j < i ==> !is_sourcegen_attr(#[trigger] attrs@[j]),
        decreases attrs@.len() - i,
    {
        let a = &attrs[i];
        if a.path.len() > 0 && is_word(&a.path[0], "sourcegen") {
            return Some(i);
        }
        i = i + 1;
    }
    None
}

/// Tells whether the declaration is marked as the output of an earlier run.
pub fn is_generated(attrs: &Vec<Attribute>) -> (r: bool)
    ensures
        r == spec_is_generated(attrs@),
{
    match find_sourcegen_attr(attrs) {
        Some(i) => {
            let a = &attrs[i];
            let r = a.path.len() > 1 && is_word(&a.path[1], "generated");
            proof {
                assert forall|k: int| #[trigger] is_first_sourcegen(attrs@, k) implies k == i by {
                    if k < i {
                        assert(!is_sourcegen_attr(attrs@[k]));
                    } else if k > i {
                        assert(!is_sourcegen_attr(attrs@[i as int]));
                    }
                }
                if r {
                    assert(is_first_sourcegen(attrs@, i as int));
                }
            }
            r
        },
        None => false,
    }
}

/// The argument is `generator = <literal>`.
pub open spec fn is_generator_arg(m: NestedMeta) -> bool {
    match m {
        NestedMeta::NameValue { path, .. } => path@.len() == 1 && path@[0]@ == "generator"@,
        _ => false,
    }
}

/// The argument's literal is a string.
pub open spec fn has_str_lit(m: NestedMeta) -> bool {
    m matches NestedMeta::NameValue { lit: Lit::Str { .. }, .. }
}

/// Where the argument stands.
pub open spec fn arg_span(m: NestedMeta) -> Span {
    match m {
        NestedMeta::NameValue { span, .. } => span,
        NestedMeta::Other { span } => span,
    }
}

/// The string literal of the argument (meaningful where it has one).
pub open spec fn str_lit(m: NestedMeta) -> (String, Span) {
    match m {
        NestedMeta::NameValue { lit: Lit::Str { value, span }, .. } => (value, span),
        _ => arbitrary(),
    }
}

/// Index of the first `generator = ...` argument at or after `i`.
pub open spec fn next_generator_arg(nested: Seq<NestedMeta>, i: int) -> Option<int>
    decreases nested.len() - i,
{
    if i < 0 || i >= nested.len() {
        None
    } else if is_generator_arg(nested[i]) {
        Some(i)
    } else {
        next_generator_arg(nested, i + 1)
    }
}

/// The value of the last `file = <bool>` argument among the first `n`; `false` where there is
/// none.
pub open spec fn file_flag(nested: Seq<NestedMeta>, n: int) -> bool
    decreases n,
{
    if n <= 0 || n > nested.len() {
        false
    } else {
        match nested[n - 1] {
            NestedMeta::NameValue { path, lit: Lit::Bool(b), .. } => if path@.len() == 1
                && path@[0]@ == "file"@ {
                b
            } else {
                file_flag(nested, n - 1)
            },
            _ => file_flag(nested, n - 1),
        }
    }
}

/// Index of the last generator among the first `n` registered under `name`.
pub open spec fn last_named(gens: Seq<String>, name: Seq<char>, n: int) -> Option<int>
    decreases n,
{
    if n <= 0 || n > gens.len() {
        None
    } else if gens[n - 1]@ == name {
        Some(n - 1)
    } else {
        last_named(gens, name, n - 1)
    }
}

/// Index of the generator registered under `name`; where several are, the last one.
pub fn find_generator(generators: &Vec<String>, name: &String) -> (r: Option<usize>)
    ensures
        match r {
            Some(k) => last_named(generators@, name@, generators@.len() as int) == Some(k as int),
            None => last_named(generators@, name@, generators@.len() as int) is None,
        },
{
    let mut found: Option<usize> = None;
    let mut i: usize = 0;
    while i < generators.len()
        invariant
            i <= generators@.len(),
            match found {
                Some(k) => last_named(generators@, name@, i as int) == Some(k as int),
                None => last_named(generators@, name@, i as int) is None,
            },
        decreases generators@.len() - i,
    {
        if generators[i] == *name {
            found = Some(i);
        }
        i = i + 1;
    }
    found
}

/// A request to run a generator: which one, the index of the `sourcegen` attribute, whether
/// it asks for the whole file, and where the request stands.
#[derive(Debug)]
pub struct Invocation {
    pub generator: usize,
    pub attr_index: usize,
    pub is_file: bool,
    pub location: Location,
}

/// What reading the `sourcegen` attribute `attr` (at index `idx`) of the file at `path` gives,
/// with the generators `gens` registered: an invocation, or the error with its location.
pub open spec fn generator_result(
    path: Seq<char>,
    attr: Attribute,
    idx: int,
    gens: Seq<String>,
    r: Result<Invocation, SourcegenErrorKind>,
) -> bool {
    match attr.meta {
        None => r matches Err(SourcegenErrorKind::GeneratorError(l)) && l.at(path, attr.span),
        Some(Meta::List { nested, span }) => match next_generator_arg(nested@, 0) {
            None => r matches Err(SourcegenErrorKind::MissingGeneratorAttribute(l)) && l.at(
                path,
                span,
            ),
            Some(g) => if !has_str_lit(nested@[g]) {
                r matches Err(SourcegenErrorKind::GeneratorAttributeMustBeString(l)) && l.at(
                    path,
                    arg_span(nested@[g]),
                )
            } else {
                match next_generator_arg(nested@, g + 1) {
                    Some(h) => if has_str_lit(nested@[h]) {
                        r matches Err(SourcegenErrorKind::MultipleGeneratorAttributes(l)) && l.at(
                            path,
                            arg_span(nested@[h]),
                        )
                    } else {
                        r matches Err(SourcegenErrorKind::GeneratorAttributeMustBeString(l))
                            && l.at(path, arg_span(nested@[h]))
                    },
                    None => {
                        let (name, name_span) = str_lit(nested@[g]);
                        match last_named(gens, name@, gens.len() as int) {
                            None => r matches Err(SourcegenErrorKind::GeneratorNotFound(l, n))
                                && l.at(path, name_span) && n@ == name@,
                            Some(k) => r matches Ok(inv) && inv.generator == k && inv.attr_index
                                == idx && inv.is_file == file_flag(nested@, nested@.len() as int)
                                && inv.location.at(path, span),
                        }
                    },
                }
            }
        },
        Some(Meta::NameValue { span, .. }) => r matches Err(
            SourcegenErrorKind::MissingGeneratorAttribute(l),
        ) && l.at(path, span),
        Some(Meta::Path { span }) => r matches Err(SourcegenErrorKind::MissingGeneratorAttribute(l))
            && l.at(path, span),
    }
}

/// Reads the `sourcegen` attribute at `attr_index`: its `generator = "<name>"` argument names
/// a registered generator, and `file = <bool>` asks for the whole file.
pub fn detect_generator(
    path: &String,
    attrs: &Vec<Attribute>,
    attr_index: usize,
    generators: &Vec<String>,
) -> (r: Result<Invocation, SourcegenErrorKind>)
    requires
        attr_index < attrs@.len(),
    ensures
        generator_result(path@, attrs@[attr_index as int], attr_index as int, generators@, r),
        r matches Ok(inv) ==> inv.attr_index == attr_index,
{
    let attr = &attrs[attr_index];
    let (nested, meta_span) = match &attr.meta {
        None => {
            return Err(
                SourcegenErrorKind::GeneratorError(Location::from_path_span(path, attr.span)),
            );
        },
        Some(Meta::List { nested, span }) => (nested, *span),
        Some(Meta::NameValue { span, .. }) => {
            return Err(
                SourcegenErrorKind::MissingGeneratorAttribute(
                    Location::from_path_span(path, *span),
                ),
            );
        },
        Some(Meta::Path { span }) => {
            return Err(
                SourcegenErrorKind::MissingGeneratorAttribute(
                    Location::from_path_span(path, *span),
                ),
            );
        },
    };
    let mut name: Option<usize> = None;
    let mut is_file = false;
    let mut i: usize = 0;
    while i < nested.len()
        invariant
            attrs@[attr_index as int].meta == Some(Meta::List { nested: *nested, span: meta_span }),
            i <= nested@.len(),
            is_file == file_flag(nested@, i as int),
            name is None ==> next_generator_arg(nested@, 0) == next_generator_arg(
                nested@,
                i as int,
            ),
            name matches Some(g) ==> g < i && next_generator_arg(nested@, 0) == Some(g as int)
                && has_str_lit(nested@[g as int]) && next_generator_arg(nested@, g + 1)
                == next_generator_arg(nested@, i as int),
        decreases nested@.len() - i,
    {
        let item = &nested[i];
        proof {
            if !is_generator_arg(nested@[i as int]) {
                assert(next_generator_arg(nested@, i as int) == next_generator_arg(
                    nested@,
                    i + 1,
                ));
            } else {
                assert(next_generator_arg(nested@, i as int) == Some(i as int));
            }
        }
        match item {
            NestedMeta::NameValue { path: p, lit, span } => {
                if p.len() == 1 && is_word(&p[0], "generator") {
                    match lit {
                        Lit::Str { .. } => {
                            if name.is_some() {
                                return Err(
                                    SourcegenErrorKind::MultipleGeneratorAttributes(
                                        Location::from_path_span(path, *span),
                                    ),
                                );
                            }
                            name = Some(i);
                        },
                        _ => {
                            return Err(
                                SourcegenErrorKind::GeneratorAttributeMustBeString(
                                    Location::from_path_span(path, *span),
                                ),
                            );
                        },
                    }
                } else if p.len() == 1 && is_word(&p[0], "file") {
                    if let Lit::Bool(b) = lit {
                        is_file = *b;
                    }
                }
            },
            NestedMeta::Other { .. } => {},
        }
        i = i + 1;
    }
    match name {
        Some(g) => {
            let (value, name_span) = match &nested[g] {
                NestedMeta::NameValue { lit: Lit::Str { value, span }, .. } => (value, *span),
                _ => {
                    proof {
                        assert(false);
                    }
                    return Err(
                        SourcegenErrorKind::MissingGeneratorAttribute(
                            Location::from_path_span(path, meta_span),
                        ),
                    );
                },
            };
            match find_generator(generators, value) {
                Some(k) => Ok(
                    Invocation {
                        generator: k,
                        attr_index,
                        is_file,
                        location: Location::from_path_span(path, meta_span),
                    },
                ),
                None => Err(
                    SourcegenErrorKind::GeneratorNotFound(
                        Location::from_path_span(path, name_span),
                        value.clone(),
                    ),
                ),
            }
        },
        None => Err(
            SourcegenErrorKind::MissingGeneratorAttribute(
                Location::from_path_span(path, meta_span),
            ),
        ),
    }
}

/// `r` seen as the result of reading the attribute that it stems from.
pub open spec fn as_invocation(r: Result<Option<Invocation>, SourcegenErrorKind>) -> Result<
    Invocation,
    SourcegenErrorKind,
> {
    match r {
        Ok(Some(inv)) => Ok(inv),
        Ok(None) => arbitrary(),
        Err(e) => Err(e),
    }
}

/// What `detect_invocation` gives: nothing where no attribute starts with `sourcegen`, else what
/// reading the first such attribute gives.
pub open spec fn invocation_result(
    path: Seq<char>,
    attrs: Seq<Attribute>,
    gens: Seq<String>,
    r: Result<Option<Invocation>, SourcegenErrorKind>,
) -> bool {
    if exists|i: int| 0 <= i < attrs.len() && #[trigger] is_sourcegen_attr(attrs[i]) {
        exists|i: int|
            #[trigger] is_first_sourcegen(attrs, i) && !(r matches Ok(None)) && generator_result(
                path,
                attrs[i],
                i,
                gens,
                as_invocation(r),
            )
    } else {
        r matches Ok(None)
    }
}

/// Looks for a `sourcegen` attribute among `attrs` and reads the first one.
pub fn detect_invocation(path: &String, attrs: &Vec<Attribute>, generators: &Vec<String>) -> (r:
    Result<Option<Invocation>, SourcegenErrorKind>)
    ensures
        invocation_result(path@, attrs@, generators@, r),
        r matches Ok(Some(inv)) ==> inv.attr_index < attrs@.len(),
{
    match find_sourcegen_attr(attrs) {
        Some(i) => {
            let r = detect_generator(path, attrs, i, generators);
            let r = match r {
                Ok(inv) => Ok(Some(inv)),
                Err(e) => Err(e),
            };
            proof {
                assert(is_first_sourcegen(attrs@, i as int));
            }
            r
        },
        None => Ok(None),
    }
}

/// The value of `#[path = "..."]`, where the first attribute named `path` has that form.
pub open spec fn spec_mod_path(attrs: Seq<Attribute>) -> Option<String> {
    if exists|i: int| 0 <= i < attrs.len() && #[trigger] is_path_attr(attrs[i]) {
        let i = choose|i: int| 0 <= i < attrs.len() && #[trigger] is_path_attr(attrs[i]) && forall|j: int|
            0 <= j < i ==> !is_path_attr(#[trigger] attrs[j]);
        match attrs[i].meta {
            Some(Meta::NameValue { lit: Lit::Str { value, .. }, .. }) => Some(value),
            _ => None,
        }
    } else {
        None
    }
}

/// The attribute is named `path`.
pub open spec fn is_path_attr(a: Attribute) -> bool {
    a.path@.len() == 1 && a.path@[0]@ == "path"@
}

/// Reads the path that a `#[path = "..."]` attribute gives a module.
pub fn detect_mod_path(attrs: &Vec<Attribute>) -> (r: Option<String>)
    ensures
        match (r, spec_mod_path(attrs@)) {
            (Some(a), Some(b)) => a@ == b@,
            (None, None) => true,
            _ => false,
        },
{
    let mut i: usize = 0;
    while i < attrs.len()
        invariant
            i <= attrs@.len(),
            forall|j: int| 0 <= j < i ==> !is_path_attr(#[trigger] attrs@[j]),
        decreases attrs@.len() - i,
    {
        let a = &attrs[i];
        if a.path.len() == 1 && is_word(&a.path[0], "path") {
            proof {
                assert(is_path_attr(attrs@[i as int]));
                let k = choose|k: int| 0 <= k < attrs@.len() && #[trigger] is_path_attr(attrs@[k]) && forall|j: int|
                    0 <= j < k ==> !is_path_attr(#[trigger] attrs@[j]);
                if k < i {
                    assert(!is_path_attr(attrs@[k]));
                } else if k > i {
                    assert(!is_path_attr(attrs@[i as int]));
                }
                assert(k == i);
            }
            return match &a.meta {
                Some(Meta::NameValue { lit: Lit::Str { value, .. }, .. }) => Some(value.clone()),
                _ => None,
            };
        }
        i = i + 1;
    }
    None
}

} // verus!
