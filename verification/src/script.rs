//! Support for pseudo-op scripts: the structured-data readers they call.

use std::sync::Arc;
use vstd::prelude::*;
use crate::script::coverage::{path_listing, path_views, sorted_paths};
use crate::script::purity::Impurity;

pub mod xml;
pub mod csv;
pub mod host;
pub mod purity;
pub mod coverage;

verus! {

/// `Arc::clone`: a second handle on the same allocation, so equal to the
/// first.
#[verifier::external_body]
pub(crate) fn share<T>(a: &Arc<T>) -> (r: Arc<T>)
    ensures
        r == *a,
{
    Arc::clone(a)
}

/// What one `custom()` invocation produced, and what it touched.
pub struct RunOutcome {
    /// The bytes the directive emits.
    pub bytes: Vec<u8>,
    /// The paths the script resolved through the host's file API, once
    /// each, in path order.
    pub inputs: Vec<String>,
    /// Whether these bytes may be reused on a later build.
    pub cacheable: bool,
    /// Why the run is not cacheable, when it is not.
    pub impurity: Option<Impurity>,
}

/// The outcome of a run that emitted `bytes`, read the files `inputs` (in
/// the order it read them, repeats allowed), and was found impure for
/// `impurity`: the inputs listed once each in path order, and cacheable
/// exactly when nothing impure was found.
pub fn run_outcome(bytes: Vec<u8>, inputs: Vec<String>, impurity: Option<Impurity>) -> (r: RunOutcome)
    ensures
        r.bytes@ == bytes@,
        path_views(r.inputs@) == path_listing(path_views(inputs@).to_set()),
        r.cacheable == impurity is None,
        r.impurity == impurity,
{
    let cacheable = impurity.is_none();
    RunOutcome { bytes, inputs: sorted_paths(inputs), cacheable, impurity }
}

} // verus!
