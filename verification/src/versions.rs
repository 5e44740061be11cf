//! Picking a Minecraft version: recognising snapshots, and narrowing a version list
//! to what a search query starts.
use vstd::prelude::*;

use crate::lockstep::{first_found, first_index, lemma_first_index, lemma_first_index_none};
use crate::text_order::text_equal;
use vstd::utf8::encode_utf8;

verus! {

pub open spec fn is_digit_byte(b: u8) -> bool {
    48 <= b <= 57
}

pub open spec fn is_lowercase_byte(b: u8) -> bool {
    97 <= b <= 122
}

/// A weekly snapshot id such as `24w03a`: two digits of the year, `w`, two digits of
/// the week, and a lowercase letter.
pub open spec fn is_snapshot_id(b: Seq<u8>) -> bool {
    &&& b.len() == 6
    &&& is_digit_byte(b[0])
    &&& is_digit_byte(b[1])
    &&& b[2] == 119
    &&& is_digit_byte(b[3])
    &&& is_digit_byte(b[4])
    &&& is_lowercase_byte(b[5])
}

/// Whether a version names a weekly snapshot (and not any version that merely holds a `w`).
pub fn is_snapshot_version(version: &str) -> (r: bool)
    ensures
        r == is_snapshot_id(encode_utf8(version@)),
{
    let bytes = version.as_bytes();
    bytes.len() == 6 && is_digit(bytes[0]) && is_digit(bytes[1]) && bytes[2] == 119 && is_digit(
        bytes[3],
    ) && is_digit(bytes[4]) && 97 <= bytes[5] && bytes[5] <= 122
}

fn is_digit(b: u8) -> (r: bool)
    ensures
        r == is_digit_byte(b),
{
    48 <= b && b <= 57
}

// ---------------------------------------------------------------------------
// Searching a version list
// ---------------------------------------------------------------------------

/// What `str::to_lowercase` gives for a string: each character replaced by its
/// lowercase mapping, which Unicode defines and which may change the length.
pub uninterp spec fn lowercased(s: Seq<char>) -> Seq<char>;

/// Lowercases a string with `str::to_lowercase`; the result is a function of the
/// string alone.
#[verifier::external_body]
fn lowercase(s: &str) -> (r: String)
    ensures
        r@ == lowercased(s@),
{
    s.to_lowercase()
}

/// Tests a prefix with `str::starts_with`, which is true exactly where `prefix` is the
/// beginning of `s`.
#[verifier::external_body]
fn text_starts_with(s: &str, prefix: &str) -> (r: bool)
    ensures
        r == prefix@.is_prefix_of(s@),
{
    s.starts_with(prefix)
}

pub open spec fn views(s: Seq<String>) -> Seq<Seq<char>> {
    s.map_values(|v: String| v@)
}

/// The versions whose lowercase form starts with the lowercase query, in order.
pub open spec fn matching_versions(versions: Seq<Seq<char>>, query: Seq<char>) -> Seq<Seq<char>>
    decreases versions.len(),
{
    if versions.len() == 0 {
        Seq::empty()
    } else {
        let before = matching_versions(versions.drop_last(), query);
        if lowercased(query).is_prefix_of(lowercased(versions.last())) {
            before.push(versions.last())
        } else {
            before
        }
    }
}

/// The versions offered in a version picker, and those that match the current search.
#[derive(Debug, Clone)]
pub struct VersionList {
    pub versions: Vec<String>,
    pub matched_versions: Vec<String>,
}

pub open spec fn version_is(value: Seq<char>) -> spec_fn(String) -> bool {
    |v: String| v@ == value
}

impl VersionList {
    /// How many versions match the search.
    pub fn items_count(&self) -> (r: usize)
        ensures
            r == self.matched_versions@.len(),
    {
        self.matched_versions.len()
    }

    /// The matching version at `row`, if there is one.
    pub fn item(&self, row: usize) -> (r: Option<&String>)
        ensures
            match r {
                Some(v) => row < self.matched_versions@.len() && *v == self.matched_versions@[row as int],
                None => row >= self.matched_versions@.len(),
            },
    {
        if row < self.matched_versions.len() {
            Some(&self.matched_versions[row])
        } else {
            None
        }
    }

    /// The row of the first matching version equal to `value`.
    pub fn position(&self, value: &str) -> (r: Option<usize>)
        ensures
            first_found(self.matched_versions@, version_is(value@), r),
    {
        let ghost p = version_is(value@);
        let mut i: usize = 0;
        while i < self.matched_versions.len()
            invariant
                i <= self.matched_versions@.len(),
                p == version_is(value@),
                forall|j: int| 0 <= j < i ==> !p(#[trigger] self.matched_versions@[j]),
            decreases self.matched_versions@.len() - i,
        {
            if text_equal(self.matched_versions[i].as_str(), value) {
                proof {
                    lemma_first_index(self.matched_versions@, p, i as int);
                }
                return Some(i);
            }
            i += 1;
        }
        proof {
            lemma_first_index_none(self.matched_versions@, p);
        }
        None
    }

    /// Keeps, of all versions, those whose lowercase form starts with the lowercase query.
    pub fn perform_search(&mut self, query: &str)
        ensures
            final(self).versions == old(self).versions,
            views(final(self).matched_versions@) == matching_versions(
                views(old(self).versions@),
                query@,
            ),
    {
        let lower_query = lowercase(query);
        let mut matched: Vec<String> = Vec::new();
        let mut i: usize = 0;
        while i < self.versions.len()
            invariant
                i <= self.versions@.len(),
                lower_query@ == lowercased(query@),
                views(matched@) == matching_versions(views(self.versions@.take(i as int)), query@),
            decreases self.versions@.len() - i,
        {
            assert(views(self.versions@.take(i + 1)).drop_last() =~= views(
                self.versions@.take(i as int),
            ));
            let lower_item = lowercase(self.versions[i].as_str());
            if text_starts_with(lower_item.as_str(), lower_query.as_str()) {
                matched.push(self.versions[i].clone());
                assert(views(matched@) =~= matching_versions(
                    views(self.versions@.take(i as int)),
                    query@,
                ).push(self.versions@[i as int]@));
            }
            i += 1;
        }
        assert(self.versions@.take(i as int) =~= self.versions@);
        self.matched_versions = matched;
    }
}

} // verus!
