//! Finding the manifest that governs a directory: the nearest ancestor, the
//! directory itself included, that holds one.
use vstd::prelude::*;
use crate::path::{normal_form, normal_names, prefix_of, render, rooted, Platform};

verus! {

/// The file name of a project manifest.
pub const MANIFEST_FILE: &'static str = "ike.toml";

/// The `i`-th ancestor of `dir`, counting `dir` itself (normalized) as the 0th.
/// The prefix and root of `dir` are in every ancestor.
pub open spec fn ancestor(dir: Seq<char>, i: int, pl: Platform) -> Seq<char> {
    let names = normal_names(dir, pl);
    render(prefix_of(dir, pl), rooted(dir, pl), names.take(names.len() - i), pl)
}

/// The ancestors of `dir`, nearest first: `dir` normalized, then each parent
/// up to the root (or to the bare prefix, for a path without a root).
pub fn ancestors(dir: &str, pl: Platform) -> (r: Vec<String>)
    ensures
        r@.len() == normal_names(dir@, pl).len() + 1,
        forall|i: int| 0 <= i < r@.len() ==> #[trigger] r@[i]@ == ancestor(dir@, i, pl),
{
    let nf = normal_form(dir, pl);
    let n = nf.names.len();
    let mut out: Vec<String> = Vec::new();
    let mut k: usize = n;
    loop
        invariant_except_break
            out@.len() == n - k,
        invariant
            k <= n == nf.names@.len(),
            nf.platform == pl,
            nf.prefix@ == prefix_of(dir@, pl),
            nf.rooted == rooted(dir@, pl),
            nf.names_view() == normal_names(dir@, pl),
            forall|i: int| 0 <= i < out@.len() ==> #[trigger] out@[i]@ == ancestor(dir@, i, pl),
        ensures
            out@.len() == n + 1,
        decreases k,
    {
        let a = nf.render_prefix(k);
        out.push(a);
        if k == 0 {
            break;
        }
        k = k - 1;
    }
    out
}

/// The first directory of `dirs` whose entry in `present` is true: `dirs` are
/// a directory's ancestors nearest first, and `present[i]` tells whether a
/// manifest exists in `dirs[i]`.
pub fn nearest_present(dirs: &Vec<String>, present: &Vec<bool>) -> (r: Option<String>)
    requires
        dirs@.len() == present@.len(),
    ensures
        match r {
            Some(d) => exists|i: int|
                0 <= i < dirs@.len() && present@[i] && d == dirs@[i] && forall|j: int|
                    0 <= j < i ==> !#[trigger] present@[j],
            None => forall|j: int| 0 <= j < present@.len() ==> !#[trigger] present@[j],
        },
{
    let mut i: usize = 0;
    while i < dirs.len()
        invariant
            i <= dirs@.len() == present@.len(),
            forall|j: int| 0 <= j < i ==> !#[trigger] present@[j],
        decreases dirs.len() - i,
    {
        if present[i] {
            return Some(dirs[i].clone());
        }
        i = i + 1;
    }
    None
}

} // verus!
