//! The order that Minecraft versions are offered in: releases first, newest first, then
//! snapshots and pre-releases, newest first.
use vstd::prelude::*;

use crate::interface_config::{
    is_natural_order_defined, natural_lexical_order, natural_order, natural_order_defined, reversed,
};
use crate::versions::{is_snapshot_id, is_snapshot_version};
use std::cmp::Ordering;
use vstd::utf8::encode_utf8;

verus! {

/// Whether `pattern` occurs in `s`.
pub open spec fn contains_text(s: Seq<char>, pattern: Seq<char>) -> bool {
    exists|i: int| 0 <= i && i + pattern.len() <= s.len() && #[trigger] s.subrange(i, i + pattern.len()) == pattern
}

/// Tests for a substring with `str::contains`, which is true exactly where `pattern`
/// occurs somewhere in `s`.
#[verifier::external_body]
fn text_contains(s: &str, pattern: &str) -> (r: bool)
    ensures
        r == contains_text(s@, pattern@),
{
    s.contains(pattern)
}

/// A version that is not a release: a weekly snapshot, a pre-release or a release
/// candidate.
pub open spec fn is_unstable(version: Seq<char>) -> bool {
    is_snapshot_id(encode_utf8(version)) || contains_text(version, "pre"@) || contains_text(
        version,
        "rc"@,
    )
}

/// Whether a version is a snapshot, a pre-release or a release candidate.
pub fn is_unstable_version(version: &str) -> (r: bool)
    ensures
        r == is_unstable(version@),
{
    is_snapshot_version(version) || text_contains(version, "pre") || text_contains(version, "rc")
}

/// The order versions are offered in: releases before the others; within each group,
/// the natural order reversed, so that the newest comes first.
pub open spec fn version_order(a: Seq<char>, b: Seq<char>) -> Ordering {
    if is_unstable(a) != is_unstable(b) {
        if is_unstable(a) {
            Ordering::Greater
        } else {
            Ordering::Less
        }
    } else {
        reversed(natural_order(a, b))
    }
}

/// Releases come before snapshots and pre-releases, whichever way they are compared.
pub proof fn law_releases_first(release: Seq<char>, unstable: Seq<char>)
    requires
        !is_unstable(release),
        is_unstable(unstable),
    ensures
        version_order(release, unstable) == Ordering::Less,
        version_order(unstable, release) == Ordering::Greater,
{
}

/// Whether two versions can be compared: where they are alike in stability, their
/// texts are compared, and that comparison must stay within a `u64` (see
/// `natural_order_defined`).
pub open spec fn versions_comparable(a: Seq<char>, b: Seq<char>) -> bool {
    is_unstable(a) == is_unstable(b) ==> natural_order_defined(a, b)
}

/// Compares two versions for the version picker.
pub fn compare_versions(a: &str, b: &str) -> (r: Ordering)
    requires
        versions_comparable(a@, b@),
    ensures
        r == version_order(a@, b@),
{
    let a_unstable = is_unstable_version(a);
    let b_unstable = is_unstable_version(b);
    if a_unstable != b_unstable {
        if a_unstable {
            Ordering::Greater
        } else {
            Ordering::Less
        }
    } else {
        match natural_lexical_order(a, b) {
            Ordering::Less => Ordering::Greater,
            Ordering::Equal => Ordering::Equal,
            Ordering::Greater => Ordering::Less,
        }
    }
}

/// Compares two versions where they can be compared; `None` where both are alike in
/// stability and their texts hold aligned runs of digits too large to read.
pub fn compare_versions_checked(a: &str, b: &str) -> (r: Option<Ordering>)
    ensures
        r == (if versions_comparable(a@, b@) {
            Some(version_order(a@, b@))
        } else {
            None
        }),
{
    if is_unstable_version(a) != is_unstable_version(b) || is_natural_order_defined(a, b) {
        Some(compare_versions(a, b))
    } else {
        None
    }
}

/// The label of a set of loaders that are the same for every version: their names
/// joined by ` / `.
pub open spec fn joined_names(names: Seq<Seq<char>>) -> Seq<char>
    decreases names.len(),
{
    if names.len() == 0 {
        Seq::empty()
    } else if names.len() == 1 {
        names[0]
    } else {
        joined_names(names.drop_last()) + " / "@ + names.last()
    }
}

/// Joins loader names into one label.
pub fn join_loader_names(names: &Vec<&str>) -> (r: String)
    ensures
        r@ == joined_names(names@.map_values(|n: &str| n@)),
{
    let ghost views = names@.map_values(|n: &str| n@);
    let mut label = String::new();
    let mut i: usize = 0;
    while i < names.len()
        invariant
            i <= names@.len(),
            views == names@.map_values(|n: &str| n@),
            label@ == joined_names(views.take(i as int)),
        decreases names@.len() - i,
    {
        assert(views.take(i + 1).drop_last() =~= views.take(i as int));
        if i > 0 {
            label.append(" / ");
        } else {
            assert(views.take(1) =~= seq![views[0]]);
        }
        label.append(names[i]);
        i += 1;
    }
    assert(views.take(i as int) =~= views);
    label
}

} // verus!
