use vstd::prelude::*;

verus! {

/// The kinds of failure of packing and unpacking.
#[derive(Debug, Clone, Copy, PartialEq, Eq, Structural)]
pub enum BundleError {
    /// A file or directory could not be read or written.
    Io,
    /// A config file or a build descriptor has the wrong shape.
    Parse,
    /// A build step failed or left no artifact.
    Build,
    /// A bundle breaks the metadata contract, or names would collide.
    Format,
}

} // verus!
