//! The preference enums of the interface settings and their defaults, and how
//! instance content is sorted.
use vstd::prelude::*;

use crate::modrinth::ModrinthProjectType;
use std::cmp::Ordering;
use std::sync::Arc;
use crate::text_order::{aligned_runs_overflow, aligned_runs_overflow_from_start};

verus! {

/// Where the output of a running game is shown.
#[derive(Debug, Clone, Copy, PartialEq, Eq, Structural)]
pub enum LiveGameOutputDisplay {
    TabOnInstancePage,
    SeparateWindow,
    Hidden,
}

impl Default for LiveGameOutputDisplay {
    fn default() -> (r: Self)
        ensures
            r == LiveGameOutputDisplay::TabOnInstancePage,
    {
        LiveGameOutputDisplay::TabOnInstancePage
    }
}

/// Where new content is added from by default.
#[derive(Debug, Clone, Copy, PartialEq, Eq, Structural)]
pub enum PreferredAddContentSource {
    Modrinth,
    CurseForge,
    File,
}

impl Default for PreferredAddContentSource {
    fn default() -> (r: Self)
        ensures
            r == PreferredAddContentSource::Modrinth,
    {
        PreferredAddContentSource::Modrinth
    }
}

/// How the instance list is laid out.
#[derive(Debug, Clone, Copy, PartialEq, Eq, Structural)]
pub enum InstancesViewMode {
    Cards,
    List,
}

impl Default for InstancesViewMode {
    fn default() -> (r: Self)
        ensures
            r == InstancesViewMode::Cards,
    {
        InstancesViewMode::Cards
    }
}

/// The CurseForge classes (kinds of project) that instance content comes in.
#[derive(Debug, Clone, Copy, PartialEq, Eq, Hash, Structural)]
pub enum CurseforgeClassId {
    Mod,
    Resourcepack,
    Shader,
}

/// The class the CurseForge page starts on.
pub fn default_curseforge_class_id() -> (r: CurseforgeClassId)
    ensures
        r == CurseforgeClassId::Mod,
{
    CurseforgeClassId::Mod
}

/// The project type the Modrinth page starts on.
pub fn default_modrinth_project_type() -> (r: ModrinthProjectType)
    ensures
        r == ModrinthProjectType::Mod,
{
    ModrinthProjectType::Mod
}

// ---------------------------------------------------------------------------
// Sorting instance content
// ---------------------------------------------------------------------------

/// What is known of a content file: its name and id where the file declares them, and
/// its size where known.
#[derive(Debug, Clone)]
pub struct ContentSummary {
    pub id: Option<Arc<str>>,
    pub name: Option<Arc<str>>,
    pub filesize: Option<u64>,
}

/// A content file of an instance.
#[derive(Debug, Clone)]
pub struct InstanceContentSummary {
    pub filename: Arc<str>,
    pub modified_unix_ms: i64,
    pub content_summary: ContentSummary,
}

/// The order content is listed in.
#[derive(Debug, Clone, Copy, PartialEq, Eq, Structural)]
pub enum InstanceContentSortKey {
    Name,
    ModId,
    Filename,
    ModifiedTime,
    FileSize,
}

impl Default for InstanceContentSortKey {
    fn default() -> (r: Self)
        ensures
            r == InstanceContentSortKey::Name,
    {
        InstanceContentSortKey::Name
    }
}

/// What `lexical_sort::natural_lexical_cmp` gives for two strings: a natural order
/// (runs of digits compare by their values) over the strings transliterated to ASCII.
pub uninterp spec fn natural_order(a: Seq<char>, b: Seq<char>) -> Ordering;

/// What `lexical_sort::iterate_lexical` gives for a string: the characters that the
/// natural comparison reads, lowercased and transliterated to ASCII by its table.
pub uninterp spec fn transliterated(s: Seq<char>) -> Seq<char>;

/// Collects what `lexical_sort::iterate_lexical` yields for a string.
#[verifier::external_body]
fn transliterate(s: &str) -> (r: Vec<char>)
    ensures
        r@ == transliterated(s@),
{
    lexical_sort::iter::iterate_lexical(s).collect()
}

/// Whether the natural comparison of two strings stays within a `u64`. It reads the
/// transliterated strings side by side and reads each run of digits that starts at the
/// same place in both into a `u64` per side; it overflows where such an aligned run is
/// larger than `u64::MAX` on either side (see [`aligned_runs_overflow`]).
pub open spec fn natural_order_defined(a: Seq<char>, b: Seq<char>) -> bool {
    !aligned_runs_overflow(transliterated(a), transliterated(b), 0)
}

/// Whether the natural comparison of two strings stays within a `u64`.
pub fn is_natural_order_defined(a: &str, b: &str) -> (r: bool)
    ensures
        r == natural_order_defined(a@, b@),
{
    let ta = transliterate(a);
    let tb = transliterate(b);
    !aligned_runs_overflow_from_start(&ta, &tb)
}

/// Compares two strings with `lexical_sort::natural_lexical_cmp`, which overflows a
/// `u64` on the inputs that [`natural_order_defined`] leaves out.
#[verifier::external_body]
pub(crate) fn natural_lexical_order(a: &str, b: &str) -> (r: Ordering)
    requires
        natural_order_defined(a@, b@),
    ensures
        r == natural_order(a@, b@),
{
    lexical_sort::natural_lexical_cmp(a, b)
}

pub open spec fn opt_text(o: Option<Arc<str>>) -> Option<Seq<char>> {
    match o {
        Some(s) => Some((*s)@),
        None => None,
    }
}

/// The name a content file is listed under: its name, else its id, else its file name.
pub open spec fn display_name(c: InstanceContentSummary) -> Seq<char> {
    match opt_text(c.content_summary.name) {
        Some(n) => n,
        None => match opt_text(c.content_summary.id) {
            Some(i) => i,
            None => (*c.filename)@,
        },
    }
}

/// The id a content file is listed under: its id, else its name, else its file name.
pub open spec fn display_id(c: InstanceContentSummary) -> Seq<char> {
    match opt_text(c.content_summary.id) {
        Some(i) => i,
        None => match opt_text(c.content_summary.name) {
            Some(n) => n,
            None => (*c.filename)@,
        },
    }
}

/// The text a key compares by, for the keys that compare text.
pub open spec fn sort_text(key: InstanceContentSortKey, c: InstanceContentSummary) -> Seq<char> {
    match key {
        InstanceContentSortKey::Name => display_name(c),
        InstanceContentSortKey::ModId => display_id(c),
        _ => (*c.filename)@,
    }
}

/// The order of two integers.
pub open spec fn int_order(a: i128, b: i128) -> Ordering {
    if a < b {
        Ordering::Less
    } else if a > b {
        Ordering::Greater
    } else {
        Ordering::Equal
    }
}

pub open spec fn reversed(o: Ordering) -> Ordering {
    match o {
        Ordering::Less => Ordering::Greater,
        Ordering::Equal => Ordering::Equal,
        Ordering::Greater => Ordering::Less,
    }
}

/// A file's size, zero where unknown.
pub open spec fn size_or_zero(c: InstanceContentSummary) -> i128 {
    match c.content_summary.filesize {
        Some(s) => s as i128,
        None => 0,
    }
}

/// A file's modification time.
pub open spec fn modified_time(c: InstanceContentSummary) -> i128 {
    c.modified_unix_ms as i128
}

fn widen_signed(x: i64) -> (r: i128)
    ensures
        r == x as i128,
{
    x as i128
}

fn widen_unsigned(x: u64) -> (r: i128)
    ensures
        r == x as i128,
{
    x as i128
}

/// Whether a key compares two files by text.
pub open spec fn compares_text(key: InstanceContentSortKey) -> bool {
    key == InstanceContentSortKey::Name || key == InstanceContentSortKey::ModId || key
        == InstanceContentSortKey::Filename
}

/// The order a key puts two content files in: by name, id or file name naturally;
/// newest first; largest first.
pub open spec fn content_order(
    key: InstanceContentSortKey,
    a: InstanceContentSummary,
    b: InstanceContentSummary,
) -> Ordering {
    match key {
        InstanceContentSortKey::ModifiedTime => reversed(
            int_order(modified_time(a), modified_time(b)),
        ),
        InstanceContentSortKey::FileSize => reversed(int_order(size_or_zero(a), size_or_zero(b))),
        _ => natural_order(sort_text(key, a), sort_text(key, b)),
    }
}

fn text_or<'a>(first: &'a Option<Arc<str>>, second: &'a Option<Arc<str>>, last: &'a Arc<str>) -> (r:
    &'a str)
    ensures
        r@ == (match opt_text(*first) {
            Some(t) => t,
            None => match opt_text(*second) {
                Some(t) => t,
                None => (**last)@,
            },
        }),
{
    match first {
        Some(t) => &**t,
        None => match second {
            Some(t) => &**t,
            None => &**last,
        },
    }
}

fn order_of(a: i128, b: i128) -> (r: Ordering)
    ensures
        r == int_order(a, b),
{
    if a < b {
        Ordering::Less
    } else if a > b {
        Ordering::Greater
    } else {
        Ordering::Equal
    }
}

fn reverse(o: Ordering) -> (r: Ordering)
    ensures
        r == reversed(o),
{
    match o {
        Ordering::Less => Ordering::Greater,
        Ordering::Equal => Ordering::Equal,
        Ordering::Greater => Ordering::Less,
    }
}

/// Whether a key can compare two files: keys that compare text need the natural
/// comparison of the two texts to stay within a `u64`.
pub open spec fn comparable(key: InstanceContentSortKey, a: InstanceContentSummary, b: InstanceContentSummary) -> bool {
    compares_text(key) ==> natural_order_defined(sort_text(key, a), sort_text(key, b))
}

impl InstanceContentSortKey {
    /// Compares two content files by this key.
    pub fn compare(self, a: &InstanceContentSummary, b: &InstanceContentSummary) -> (r: Ordering)
        requires
            comparable(self, *a, *b),
        ensures
            r == content_order(self, *a, *b),
    {
        match self {
            InstanceContentSortKey::Name => {
                let name_a = text_or(&a.content_summary.name, &a.content_summary.id, &a.filename);
                let name_b = text_or(&b.content_summary.name, &b.content_summary.id, &b.filename);
                natural_lexical_order(name_a, name_b)
            },
            InstanceContentSortKey::ModId => {
                let name_a = text_or(&a.content_summary.id, &a.content_summary.name, &a.filename);
                let name_b = text_or(&b.content_summary.id, &b.content_summary.name, &b.filename);
                natural_lexical_order(name_a, name_b)
            },
            InstanceContentSortKey::Filename => natural_lexical_order(&*a.filename, &*b.filename),
            InstanceContentSortKey::ModifiedTime => reverse(
                order_of(widen_signed(a.modified_unix_ms), widen_signed(b.modified_unix_ms)),
            ),
            InstanceContentSortKey::FileSize => {
                let size_a = match a.content_summary.filesize {
                    Some(s) => s,
                    None => 0,
                };
                let size_b = match b.content_summary.filesize {
                    Some(s) => s,
                    None => 0,
                };
                reverse(order_of(widen_unsigned(size_a), widen_unsigned(size_b)))
            },
        }
    }

    /// Compares two content files by this key where the comparison is defined (see
    /// [`comparable`]); `None` where the texts hold aligned runs of digits too large to read.
    pub fn compare_checked(self, a: &InstanceContentSummary, b: &InstanceContentSummary) -> (r:
        Option<Ordering>)
        ensures
            r == (if comparable(self, *a, *b) {
                Some(content_order(self, *a, *b))
            } else {
                None
            }),
    {
        let ok = match self {
            InstanceContentSortKey::Name => is_natural_order_defined(
                text_or(&a.content_summary.name, &a.content_summary.id, &a.filename),
                text_or(&b.content_summary.name, &b.content_summary.id, &b.filename),
            ),
            InstanceContentSortKey::ModId => is_natural_order_defined(
                text_or(&a.content_summary.id, &a.content_summary.name, &a.filename),
                text_or(&b.content_summary.id, &b.content_summary.name, &b.filename),
            ),
            InstanceContentSortKey::Filename => is_natural_order_defined(&*a.filename, &*b.filename),
            _ => true,
        };
        if ok {
            Some(self.compare(a, b))
        } else {
            None
        }
    }
}

} // verus!
