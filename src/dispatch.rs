use vstd::prelude::*;

use crate::annotation::Invocation;
use crate::model::{Item, ItemKind, Location, SourcegenErrorKind};

verus! {

/// What a generator is asked to produce.
#[derive(Clone, Copy, Debug, PartialEq, Eq, Structural)]
pub enum Capability {
    Struct,
    Enum,
    Trait,
    Mod,
    File,
}

/// The generator operation for a kind of declaration; none for the other kinds.
pub open spec fn capability_of(kind: ItemKind) -> Option<Capability> {
    match kind {
        ItemKind::Struct => Some(Capability::Struct),
        ItemKind::Enum => Some(Capability::Enum),
        ItemKind::Trait => Some(Capability::Trait),
        ItemKind::Mod => Some(Capability::Mod),
        ItemKind::Other => None,
    }
}

/// The generator operation for a kind of declaration.
pub fn capability(kind: ItemKind) -> (r: Option<Capability>)
    ensures
        r == capability_of(kind),
{
    match kind {
        ItemKind::Struct => Some(Capability::Struct),
        ItemKind::Enum => Some(Capability::Enum),
        ItemKind::Trait => Some(Capability::Trait),
        ItemKind::Mod => Some(Capability::Mod),
        ItemKind::Other => None,
    }
}

/// The two locations are the same.
pub open spec fn same_location(a: Location, b: Location) -> bool {
    a.path@ == b.path@ && a.start == b.start && a.end == b.end
}

/// `generate` accepts every call.
pub open spec fn generator_callable<G: Fn(usize, Capability, &Invocation) -> Result<
    Option<usize>,
    (),
>>(generate: &G) -> bool {
    forall|id: usize, c: Capability, inv: &Invocation| #[trigger] generate.requires((id, c, inv))
}

/// Runs the generator that `inv` names on the declaration: `generate` is called with the
/// declaration's id and the operation for its kind, and gives the key of the generated content
/// or `None` for no change. Declarations of other kinds are left as they are; a generator's
/// failure becomes a `GeneratorError` at the invocation.
pub fn invoke_generator<G: Fn(usize, Capability, &Invocation) -> Result<Option<usize>, ()>>(
    item: &Item,
    inv: &Invocation,
    generate: &G,
) -> (r: Result<Option<usize>, SourcegenErrorKind>)
    requires
        generator_callable(generate),
    ensures
        capability_of(item.kind) is None ==> r matches Ok(None),
        capability_of(item.kind) matches Some(c) ==> exists|res: Result<Option<usize>, ()>|
            #[trigger] generate.ensures((item.id, c, inv), res) && match res {
                Ok(x) => r == Ok::<Option<usize>, SourcegenErrorKind>(x),
                Err(_) => r matches Err(SourcegenErrorKind::GeneratorError(l)) && same_location(
                    l,
                    inv.location,
                ),
            },
{
    match capability(item.kind) {
        None => Ok(None),
        Some(c) => {
            let res = generate(item.id, c, inv);
            let r = match res {
                Ok(x) => Ok(x),
                Err(_) => Err(SourcegenErrorKind::GeneratorError(inv.location.duplicate())),
            };
            assert(generate.ensures((item.id, c, inv), res));
            r
        },
    }
}

/// `generate` gave `key` for some request.
pub open spec fn key_generated<G: Fn(usize, Capability, &Invocation) -> Result<Option<usize>, ()>>(
    key: usize,
    generate: &G,
) -> bool {
    exists|id: usize, c: Capability, inv: &Invocation|
        #[trigger] generate.ensures((id, c, inv), Ok::<Option<usize>, ()>(Some(key)))
}

} // verus!
