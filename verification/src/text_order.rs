//! Comparing strings: equality, and the order of their UTF-8 bytes that compound keys
//! are kept sorted by.
use vstd::prelude::*;
use vstd::utf8::{encode_utf8, encode_utf8_decode_utf8};

verus! {

// ---------------------------------------------------------------------------
// Key order: strings compare by their UTF-8 bytes, as `str`'s `Ord` does.
// ---------------------------------------------------------------------------

/// Lexicographic comparison of byte sequences: negative, zero or positive.
pub open spec fn bytes_order(a: Seq<u8>, b: Seq<u8>) -> int
    decreases a.len(),
{
    if a.len() == 0 {
        if b.len() == 0 {
            0
        } else {
            -1
        }
    } else if b.len() == 0 {
        1
    } else if a[0] < b[0] {
        -1
    } else if a[0] > b[0] {
        1
    } else {
        bytes_order(a.drop_first(), b.drop_first())
    }
}

/// Order of two keys: the order of their UTF-8 encodings.
pub open spec fn key_order(a: Seq<char>, b: Seq<char>) -> int {
    bytes_order(encode_utf8(a), encode_utf8(b))
}

pub proof fn lemma_bytes_order_range(a: Seq<u8>, b: Seq<u8>)
    ensures
        -1 <= bytes_order(a, b) <= 1,
        bytes_order(a, b) == -bytes_order(b, a),
        bytes_order(a, b) == 0 <==> a == b,
    decreases a.len(),
{
    if a.len() == 0 || b.len() == 0 {
        if a.len() == 0 && b.len() == 0 {
            assert(a =~= b);
        }
    } else if a[0] != b[0] {
        assert(a != b) by {
            if a == b {
                assert(a[0] == b[0]);
            }
        }
    } else {
        lemma_bytes_order_range(a.drop_first(), b.drop_first());
        if a.drop_first() == b.drop_first() {
            assert forall|i: int| 0 <= i < a.len() implies a[i] == b[i] by {
                if i > 0 {
                    assert(a[i] == a.drop_first()[i - 1]);
                    assert(b[i] == b.drop_first()[i - 1]);
                }
            }
            assert(a =~= b);
        } else {
            assert(a != b) by {
                if a == b {
                    assert(a.drop_first() =~= b.drop_first());
                }
            }
        }
    }
}

pub proof fn lemma_bytes_order_trans(a: Seq<u8>, b: Seq<u8>, c: Seq<u8>)
    requires
        bytes_order(a, b) < 0,
        bytes_order(b, c) < 0,
    ensures
        bytes_order(a, c) < 0,
    decreases a.len(),
{
    if a.len() > 0 && b.len() > 0 && c.len() > 0 && a[0] == b[0] && b[0] == c[0] {
        lemma_bytes_order_trans(a.drop_first(), b.drop_first(), c.drop_first());
    }
}

pub proof fn lemma_key_order(a: Seq<char>, b: Seq<char>)
    ensures
        -1 <= key_order(a, b) <= 1,
        key_order(a, b) == -key_order(b, a),
        key_order(a, b) == 0 <==> a == b,
{
    lemma_bytes_order_range(encode_utf8(a), encode_utf8(b));
    encode_utf8_decode_utf8(a);
    encode_utf8_decode_utf8(b);
}

pub proof fn lemma_key_order_trans(a: Seq<char>, b: Seq<char>, c: Seq<char>)
    requires
        key_order(a, b) < 0,
        key_order(b, c) < 0,
    ensures
        key_order(a, c) < 0,
{
    lemma_bytes_order_trans(encode_utf8(a), encode_utf8(b), encode_utf8(c));
}

/// Compares two keys by their UTF-8 bytes.
pub fn compare_keys(a: &str, b: &str) -> (r: i8)
    ensures
        r == key_order(a@, b@),
{
    let ab = a.as_bytes();
    let bb = b.as_bytes();
    let mut i: usize = 0;
    assert(ab@.skip(0) =~= ab@);
    assert(bb@.skip(0) =~= bb@);
    while i < ab.len() && i < bb.len()
        invariant
            ab@ == encode_utf8(a@),
            bb@ == encode_utf8(b@),
            i <= ab@.len(),
            i <= bb@.len(),
            bytes_order(ab@, bb@) == bytes_order(ab@.skip(i as int), bb@.skip(i as int)),
        decreases ab@.len() - i,
    {
        let x = ab[i];
        let y = bb[i];
        if x < y {
            return -1;
        } else if x > y {
            return 1;
        }
        assert(ab@.skip(i as int).drop_first() =~= ab@.skip(i + 1));
        assert(bb@.skip(i as int).drop_first() =~= bb@.skip(i + 1));
        i += 1;
    }
    if i < ab.len() {
        1
    } else if i < bb.len() {
        -1
    } else {
        0
    }
}

/// Whether two strings hold the same characters.
pub fn text_equal(a: &str, b: &str) -> (r: bool)
    ensures
        r == (a@ == b@),
{
    let c = compare_keys(a, b);
    proof {
        lemma_key_order(a@, b@);
    }
    c == 0
}

// ---------------------------------------------------------------------------
// Sorted key lists
// ---------------------------------------------------------------------------

/// Whether the keys of `entries` are strictly increasing.
pub open spec fn keys_sorted(entries: Seq<(Seq<char>, usize)>) -> bool {
    forall|i: int, j: int|
        0 <= i < j < entries.len() ==> key_order(#[trigger] entries[i].0, #[trigger] entries[j].0) < 0
}

/// The value stored under `key`, if any (the last entry with that key).
pub open spec fn entries_find(entries: Seq<(Seq<char>, usize)>, key: Seq<char>) -> Option<usize>
    decreases entries.len(),
{
    if entries.len() == 0 {
        None
    } else if entries.last().0 == key {
        Some(entries.last().1)
    } else {
        entries_find(entries.drop_last(), key)
    }
}

/// With sorted keys, the entry at `i` is the one found for its key.
pub proof fn lemma_entries_find_at(entries: Seq<(Seq<char>, usize)>, i: int)
    requires
        keys_sorted(entries),
        0 <= i < entries.len(),
    ensures
        entries_find(entries, entries[i].0) == Some(entries[i].1),
    decreases entries.len(),
{
    let n = entries.len();
    if i < n - 1 {
        assert(key_order(entries[i].0, entries[n - 1].0) < 0);
        lemma_key_order(entries[i].0, entries[n - 1].0);
        let rest = entries.drop_last();
        assert(keys_sorted(rest)) by {
            assert forall|a: int, b: int| 0 <= a < b < rest.len() implies key_order(
                #[trigger] rest[a].0,
                #[trigger] rest[b].0,
            ) < 0 by {
                assert(key_order(entries[a].0, entries[b].0) < 0);
            }
        }
        lemma_entries_find_at(rest, i);
        assert(rest[i] == entries[i]);
    }
}

/// A key that no entry holds is not found, and a key that is found is held by an entry.
pub proof fn lemma_entries_find_absent(entries: Seq<(Seq<char>, usize)>, key: Seq<char>)
    ensures
        (forall|i: int| 0 <= i < entries.len() ==> entries[i].0 != key) ==> entries_find(
            entries,
            key,
        ) is None,
        entries_find(entries, key) matches Some(v) ==> exists|i: int|
            0 <= i < entries.len() && #[trigger] entries[i] == (key, v),
    decreases entries.len(),
{
    if entries.len() > 0 {
        let rest = entries.drop_last();
        lemma_entries_find_absent(rest, key);
        if entries.last().0 != key {
            if entries_find(rest, key) is Some {
                let v = entries_find(rest, key).unwrap();
                let k = choose|k: int| 0 <= k < rest.len() && #[trigger] rest[k] == (key, v);
                assert(entries[k] == (key, v));
            }
        } else {
            assert(entries[entries.len() - 1] == (key, entries.last().1));
        }
    }
}

/// Position of `key` among sorted entries: `Ok` where it is, or `Err` where it would go.
pub open spec fn search_result_ok(
    entries: Seq<(Seq<char>, usize)>,
    key: Seq<char>,
    r: Result<usize, usize>,
) -> bool {
    match r {
        Ok(i) => i < entries.len() && entries[i as int].0 == key,
        Err(i) => {
            &&& i <= entries.len()
            &&& forall|j: int| 0 <= j < i ==> key_order(#[trigger] entries[j].0, key) < 0
            &&& forall|j: int| i <= j < entries.len() ==> key_order(#[trigger] entries[j].0, key) > 0
        },
    }
}


// ---------------------------------------------------------------------------
// Aligned runs of digits
// ---------------------------------------------------------------------------

pub open spec fn is_digit_char(c: char) -> bool {
    '0' <= c && c <= '9'
}

/// The value of an ASCII digit.
pub open spec fn digit_of(c: char) -> int {
    c as int - '0' as int
}

/// The decimal number that a sequence of digits writes.
pub open spec fn decimal(s: Seq<char>) -> int
    decreases s.len(),
{
    if s.len() == 0 {
        0
    } else {
        10 * decimal(s.drop_last()) + digit_of(s.last())
    }
}

/// How many positions from `i` on hold a digit in both sequences.
pub open spec fn common_digit_run(t1: Seq<char>, t2: Seq<char>, i: int) -> nat
    decreases t1.len() - i,
{
    if 0 <= i < t1.len() && i < t2.len() && is_digit_char(t1[i]) && is_digit_char(t2[i]) {
        1 + common_digit_run(t1, t2, i + 1)
    } else {
        0
    }
}

/// Whether reading two sequences side by side from position `i` (as a natural
/// comparison does) reaches a run of digits, aligned in both, whose value exceeds
/// `u64::MAX` on either side. The reading stops at the first difference: characters
/// that differ, a run longer on one side, runs of different values, or an end.
pub open spec fn aligned_runs_overflow(t1: Seq<char>, t2: Seq<char>, i: int) -> bool
    decreases t1.len() - i,
{
    if !(0 <= i < t1.len() && i < t2.len()) {
        false
    } else if is_digit_char(t1[i]) && is_digit_char(t2[i]) {
        let e = i + common_digit_run(t1, t2, i);
        let v1 = decimal(t1.subrange(i, e));
        let v2 = decimal(t2.subrange(i, e));
        if v1 > u64::MAX || v2 > u64::MAX {
            true
        } else if e > t1.len() || (e < t1.len() && is_digit_char(t1[e])) || (e < t2.len()
            && is_digit_char(t2[e])) || v1 != v2 {
            false
        } else {
            aligned_runs_overflow(t1, t2, e)
        }
    } else if t1[i] != t2[i] {
        false
    } else {
        aligned_runs_overflow(t1, t2, i + 1)
    }
}

/// Every character from `i` up to `j` is a digit.
pub open spec fn all_digits(t: Seq<char>, i: int, j: int) -> bool {
    forall|k: int| i <= k < j ==> is_digit_char(#[trigger] t[k])
}

proof fn lemma_common_digit_run(t1: Seq<char>, t2: Seq<char>, i: int, j: int)
    requires
        0 <= i <= j <= t1.len(),
        j <= t2.len(),
        all_digits(t1, i, j) && all_digits(t2, i, j),
        !(j < t1.len() && j < t2.len() && is_digit_char(t1[j]) && is_digit_char(t2[j])),
    ensures
        common_digit_run(t1, t2, i) == j - i,
    decreases j - i,
{
    if i < j {
        lemma_common_digit_run(t1, t2, i + 1, j);
    }
}

proof fn lemma_decimal_step(s: Seq<char>, i: int, j: int)
    requires
        0 <= i <= j < s.len(),
    ensures
        decimal(s.subrange(i, j + 1)) == 10 * decimal(s.subrange(i, j)) + digit_of(s[j]),
{
    assert(s.subrange(i, j + 1).drop_last() =~= s.subrange(i, j));
}

proof fn lemma_decimal_grows(s: Seq<char>, i: int, j: int, e: int)
    requires
        0 <= i <= j <= e <= s.len(),
        all_digits(s, i, e),
    ensures
        0 <= decimal(s.subrange(i, j)) <= decimal(s.subrange(i, e)),
    decreases e - i,
{
    if e > i {
        if j < e {
            lemma_decimal_grows(s, i, j, e - 1);
        } else {
            lemma_decimal_grows(s, i, j - 1, e - 1);
        }
        lemma_decimal_step(s, i, e - 1);
        assert(is_digit_char(s[e - 1]));
        assert(all_digits(s, i, e - 1));
    }
}

/// Whether reading two character sequences side by side reaches an aligned run of digits
/// too large for a `u64` (see [`aligned_runs_overflow`]).
pub fn aligned_runs_overflow_from_start(t1: &Vec<char>, t2: &Vec<char>) -> (r: bool)
    ensures
        r == aligned_runs_overflow(t1@, t2@, 0),
{
    let mut i: usize = 0;
    while i < t1.len() && i < t2.len()
        invariant
            i <= t1@.len(),
            i <= t2@.len(),
            aligned_runs_overflow(t1@, t2@, 0) == aligned_runs_overflow(t1@, t2@, i as int),
        decreases t1@.len() - i,
    {
        let c1 = t1[i];
        let c2 = t2[i];
        if '0' <= c1 && c1 <= '9' && '0' <= c2 && c2 <= '9' {
            let mut j: usize = i;
            let mut n1: u64 = 0;
            let mut n2: u64 = 0;
            while j < t1.len() && j < t2.len() && '0' <= t1[j] && t1[j] <= '9' && '0' <= t2[j]
                && t2[j] <= '9'
                invariant
                    i < t1@.len(),
                    i < t2@.len(),
                    is_digit_char(t1@[i as int]) && is_digit_char(t2@[i as int]),
                    i <= j <= t1@.len(),
                    j <= t2@.len(),
                    all_digits(t1@, i as int, j as int) && all_digits(t2@, i as int, j as int),
                    n1 == decimal(t1@.subrange(i as int, j as int)),
                    n2 == decimal(t2@.subrange(i as int, j as int)),
                    aligned_runs_overflow(t1@, t2@, 0) == aligned_runs_overflow(t1@, t2@, i as int),
                decreases t1@.len() - j,
            {
                let d1 = t1[j] as u32 - '0' as u32;
                let d2 = t2[j] as u32 - '0' as u32;
                let m1: u128 = n1 as u128 * 10 + d1 as u128;
                let m2: u128 = n2 as u128 * 10 + d2 as u128;
                proof {
                    lemma_decimal_step(t1@, i as int, j as int);
                    lemma_decimal_step(t2@, i as int, j as int);
                }
                if m1 > u64::MAX as u128 || m2 > u64::MAX as u128 {
                    proof {
                        lemma_run_reaches_overflow(t1@, t2@, i as int, j as int + 1);
                    }
                    return true;
                }
                assert(is_digit_char(t1@[j as int]) && is_digit_char(t2@[j as int]));
                n1 = m1 as u64;
                n2 = m2 as u64;
                j = j + 1;
            }
            proof {
                lemma_common_digit_run(t1@, t2@, i as int, j as int);
            }
            if (j < t1.len() && '0' <= t1[j] && t1[j] <= '9') || (j < t2.len() && '0' <= t2[j]
                && t2[j] <= '9') || n1 != n2 {
                return false;
            }
            i = j;
        } else if c1 != c2 {
            return false;
        } else {
            i = i + 1;
        }
    }
    false
}

/// A run of digits aligned in both sequences from `i` up to `j`, whose value up to `j`
/// exceeds `u64::MAX` on one side, makes the reading from `i` overflow.
proof fn lemma_run_reaches_overflow(t1: Seq<char>, t2: Seq<char>, i: int, j: int)
    requires
        0 <= i < j <= t1.len(),
        j <= t2.len(),
        all_digits(t1, i, j) && all_digits(t2, i, j),
        decimal(t1.subrange(i, j)) > u64::MAX || decimal(t2.subrange(i, j)) > u64::MAX,
    ensures
        aligned_runs_overflow(t1, t2, i),
{
    let e = i + common_digit_run(t1, t2, i);
    lemma_common_run_covers(t1, t2, i, j);
    assert forall|k: int| i <= k < e implies is_digit_char(#[trigger] t1[k]) by {
        lemma_common_run_digits(t1, t2, i, k);
    }
    assert forall|k: int| i <= k < e implies is_digit_char(#[trigger] t2[k]) by {
        lemma_common_run_digits(t1, t2, i, k);
    }
    lemma_decimal_grows(t1, i, j, e);
    lemma_decimal_grows(t2, i, j, e);
}

/// A run of common digits reaching `j` goes at least that far, and stays within both.
proof fn lemma_common_run_covers(t1: Seq<char>, t2: Seq<char>, i: int, j: int)
    requires
        0 <= i <= j <= t1.len(),
        j <= t2.len(),
        all_digits(t1, i, j) && all_digits(t2, i, j),
    ensures
        j <= i + common_digit_run(t1, t2, i) <= t1.len(),
        i + common_digit_run(t1, t2, i) <= t2.len(),
    decreases t1.len() - i,
{
    if i < t1.len() && i < t2.len() && is_digit_char(t1[i]) && is_digit_char(t2[i]) {
        lemma_common_run_covers(t1, t2, i + 1, if j > i { j } else { i + 1 });
    }
}

/// Every position inside the common run of digits holds a digit in both sequences.
proof fn lemma_common_run_digits(t1: Seq<char>, t2: Seq<char>, i: int, k: int)
    requires
        0 <= i <= k < i + common_digit_run(t1, t2, i),
    ensures
        k < t1.len() && k < t2.len() && is_digit_char(t1[k]) && is_digit_char(t2[k]),
    decreases k - i,
{
    if k > i {
        lemma_common_run_digits(t1, t2, i + 1, k);
    }
}

}
