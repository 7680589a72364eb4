//! The compatibility `#[gpu]` dialect: straight-line kernels with no loops,
//! `match`, `Option` or `Result`, checked by the same walk as the GUST
//! dialect (see [`crate::subset`]).
use vstd::prelude::*;
use crate::rejection::Rejection;
use crate::subset::{Dialect, check_module, module_check};
use crate::syntax::ItemMod;

verus! {

/// Checks a `#[gpu]` module against the compatibility subset of Rust: `Ok`
/// when every rule holds, else every rejection of the first refused item, in
/// source order.
pub fn validate_module(module: &ItemMod) -> (r: Result<(), Vec<Rejection>>)
    ensures
        match module_check(Dialect::Compat, *module) {
            Ok(()) => r is Ok,
            Err(e) => r matches Err(v) && v@ == e,
        },
{
    check_module(Dialect::Compat, module)
}

} // verus!
