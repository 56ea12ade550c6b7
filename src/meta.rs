//! The reserved names of the bundle's metadata.
use vstd::prelude::*;

verus! {

/// The key under which each level keeps its metadata.
pub open spec fn meta_key() -> Seq<char> {
    seq!['_', '_', 'M', 'E', 'T', 'A', '_', '_']
}

/// The metadata key that lists each child and its kind.
pub open spec fn tree_key() -> Seq<char> {
    seq!['t', 'r', 'e', 'e']
}

/// The metadata key that names the level's hoisted config file.
pub open spec fn config_key() -> Seq<char> {
    seq!['c', 'o', 'n', 'f', 'i', 'g', '_', 'f', 'i', 'l', 'e']
}

/// The one field of a built artifact's object.
pub open spec fn code_key() -> Seq<char> {
    seq!['c', 'o', 'd', 'e']
}

pub open spec fn file_kind() -> Seq<char> {
    seq!['f', 'i', 'l', 'e']
}

pub open spec fn dir_kind() -> Seq<char> {
    seq!['d', 'i', 'r']
}

pub open spec fn bin_kind() -> Seq<char> {
    seq!['b', 'i', 'n']
}

pub(crate) fn meta_key_text() -> (r: String)
    ensures
        r@ == meta_key(),
{
    proof {
        reveal_strlit("__META__");
    }
    String::from_str("__META__")
}

pub(crate) fn tree_key_text() -> (r: String)
    ensures
        r@ == tree_key(),
{
    proof {
        reveal_strlit("tree");
    }
    String::from_str("tree")
}

pub(crate) fn config_key_text() -> (r: String)
    ensures
        r@ == config_key(),
{
    proof {
        reveal_strlit("config_file");
    }
    String::from_str("config_file")
}

pub(crate) fn code_key_text() -> (r: String)
    ensures
        r@ == code_key(),
{
    proof {
        reveal_strlit("code");
    }
    String::from_str("code")
}

pub(crate) fn file_kind_text() -> (r: String)
    ensures
        r@ == file_kind(),
{
    proof {
        reveal_strlit("file");
    }
    String::from_str("file")
}

pub(crate) fn dir_kind_text() -> (r: String)
    ensures
        r@ == dir_kind(),
{
    proof {
        reveal_strlit("dir");
    }
    String::from_str("dir")
}

pub(crate) fn bin_kind_text() -> (r: String)
    ensures
        r@ == bin_kind(),
{
    proof {
        reveal_strlit("bin");
    }
    String::from_str("bin")
}

} // verus!
