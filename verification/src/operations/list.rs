//! The catalog listing operation: the catalog's summary and its
//! components in slug order.

use vstd::prelude::*;

use crate::registry::{Registry, RegistryComponent, RegistrySummary, components_assoc};
use crate::strmap::spec_sorted_keys;

verus! {

/// Options of the listing operation.
#[derive(Clone, Copy, PartialEq, Eq, Debug, Structural)]
pub struct ListOptions {
    pub json: bool,
}

/// What listing reports: the summary and the slug-ordered components.
pub struct ListResult<'a> {
    pub summary: RegistrySummary,
    pub components: &'a Vec<RegistryComponent>,
}

/// Reads the catalog's summary and its components, ordered by slug.
pub fn run<'a>(registry: &'a Registry, options: ListOptions) -> (r: ListResult<'a>)
    requires
        registry.wf(),
    ensures
        r.summary.name@ == registry.name@,
        r.summary.version@ == registry.version@,
        r.summary.description == registry.description,
        r.summary.component_count == registry.components@.len(),
        r.components == &registry.components,
        spec_sorted_keys(components_assoc(r.components@)),
{
    let summary = registry.summary();
    let components = registry.list_components();
    ListResult { summary, components }
}

} // verus!
