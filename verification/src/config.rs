//! The configuration model: a tree of directory specifications, and the
//! notion of two configurations being equal field for field.

use vstd::prelude::*;

verus! {

/// One configured directory. With `only_self` the directory is reported as a
/// single line and nothing below it is visited; otherwise its children are
/// listed, the names in `exclude` are skipped, and the children named by
/// `sub_directories` are walked with their own specifications instead of
/// being listed generically.
#[derive(Debug, PartialEq)]
pub struct Directory {
    pub path: String,
    pub only_self: bool,
    pub exclude: Vec<String>,
    pub sub_directories: Vec<Directory>,
}

/// The whole configuration: the top-level directory specifications in order,
/// each resolved against an empty base path.
#[derive(Debug, PartialEq)]
pub struct FindprojectConfig {
    pub directories: Vec<Directory>,
}

/// Why a configuration could not be produced from its textual form.
#[derive(Debug, Clone, Copy, PartialEq, Eq, Structural)]
pub enum ConfigError {
    /// The text is not well-formed YAML.
    Syntax,
    /// The YAML does not match the configuration schema.
    Schema,
}

/// Two sequences of strings with the same characters position by position.
pub open spec fn strings_eqv(a: Seq<String>, b: Seq<String>) -> bool {
    a.len() == b.len() && forall|j: int| 0 <= j < a.len() ==> (#[trigger] a[j])@ == b[j]@
}

/// Two directory specifications equal field for field, down the tree.
pub open spec fn dir_eqv(a: Directory, b: Directory) -> bool
    decreases a, 1int,
{
    &&& a.path@ == b.path@
    &&& a.only_self == b.only_self
    &&& strings_eqv(a.exclude@, b.exclude@)
    &&& dirs_eqv(a.sub_directories@, b.sub_directories@)
}

/// Two sequences of directory specifications equal position by position.
pub open spec fn dirs_eqv(a: Seq<Directory>, b: Seq<Directory>) -> bool
    decreases a, 0int, a.len() + 1,
{
    a.len() == b.len() && dirs_eqv_from(a, b, 0)
}

/// The tails of `a` and `b` from position `i` on, equal position by position.
pub open spec fn dirs_eqv_from(a: Seq<Directory>, b: Seq<Directory>, i: int) -> bool
    decreases a, 0int, a.len() - i,
{
    i < 0 || i >= a.len() || (dir_eqv(a[i], b[i]) && dirs_eqv_from(a, b, i + 1))
}

/// Two configurations equal field for field.
pub open spec fn config_eqv(a: FindprojectConfig, b: FindprojectConfig) -> bool {
    dirs_eqv(a.directories@, b.directories@)
}

/// Position-by-position equality at every position yields `dirs_eqv_from`.
pub proof fn lemma_dirs_eqv_build(a: Seq<Directory>, b: Seq<Directory>, i: int)
    requires
        forall|j: int| i <= j < a.len() ==> dir_eqv(#[trigger] a[j], b[j]),
    ensures
        dirs_eqv_from(a, b, i),
    decreases a.len() - i,
{
    if i < a.len() {
        lemma_dirs_eqv_build(a, b, i + 1);
    }
}

} // verus!
