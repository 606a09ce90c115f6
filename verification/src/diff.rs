//! The interface that binary delta algorithms, loaded as plugins, provide.

use vstd::prelude::*;
use std::path::PathBuf;

verus! {

/// Lets `std::path::PathBuf` appear in signatures; verified code does not look
/// inside a value of it.
#[verifier::external_type_specification]
#[verifier::external_body]
pub struct ExPathBuf(PathBuf);

/// A binary delta algorithm. Plugins implement it; nothing is promised of
/// what their methods return.
pub trait BinaryDiff: Send + Sync + 'static {
    /// The delta that turns `old_delta` into `new_delta`.
    fn create_delta(&self, old_delta: &[u8], new_delta: &[u8]) -> Result<Vec<u8>, String>;

    /// The data that `delta` makes of `base_data`.
    fn apply_delta(&self, base_data: &[u8], delta: &[u8]) -> Result<Vec<u8>, String>;

    /// The algorithm's name, by which it is chosen.
    fn get_name(&self) -> &'static str;

    /// Whether the algorithm suits a change from `_old_path` to `_new_path`;
    /// unless an algorithm says otherwise, every change.
    fn is_suitable(&self, _old_path: Option<&PathBuf>, _new_path: Option<&PathBuf>) -> (r: bool)
        default_ensures
            r,
    {
        true
    }
}

} // verus!
