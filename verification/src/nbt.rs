use vstd::prelude::*;

use crate::text_order::{
    compare_keys, entries_find, key_order, keys_sorted, lemma_entries_find_at, lemma_key_order,
    lemma_key_order_trans, lemma_entries_find_absent, search_result_ok,
};
use slab::Slab;

verus! {

// ---------------------------------------------------------------------------
// Tag types
// ---------------------------------------------------------------------------

/// The type of an NBT tag; its id on the wire is given by [`TagType::id`].
#[derive(Debug, Copy, Clone, PartialEq, Eq, Structural)]
pub enum TagType {
    End,
    Byte,
    Short,
    Int,
    Long,
    Float,
    Double,
    ByteArray,
    String,
    List,
    Compound,
    IntArray,
    LongArray,
}

pub const TAG_END_ID: TagType = TagType::End;
pub const TAG_BYTE_ID: TagType = TagType::Byte;
pub const TAG_SHORT_ID: TagType = TagType::Short;
pub const TAG_INT_ID: TagType = TagType::Int;
pub const TAG_LONG_ID: TagType = TagType::Long;
pub const TAG_FLOAT_ID: TagType = TagType::Float;
pub const TAG_DOUBLE_ID: TagType = TagType::Double;
pub const TAG_BYTE_ARRAY_ID: TagType = TagType::ByteArray;
pub const TAG_STRING_ID: TagType = TagType::String;
pub const TAG_LIST_ID: TagType = TagType::List;
pub const TAG_COMPOUND_ID: TagType = TagType::Compound;
pub const TAG_INT_ARRAY_ID: TagType = TagType::IntArray;
pub const TAG_LONG_ARRAY_ID: TagType = TagType::LongArray;

/// The wire id of each tag type.
pub open spec fn tag_id(t: TagType) -> u8 {
    match t {
        TagType::End => 0,
        TagType::Byte => 1,
        TagType::Short => 2,
        TagType::Int => 3,
        TagType::Long => 4,
        TagType::Float => 5,
        TagType::Double => 6,
        TagType::ByteArray => 7,
        TagType::String => 8,
        TagType::List => 9,
        TagType::Compound => 10,
        TagType::IntArray => 11,
        TagType::LongArray => 12,
    }
}

impl TagType {
    /// The id of this tag type on the wire.
    pub fn id(self) -> (r: u8)
        ensures
            r == tag_id(self),
    {
        match self {
            TagType::End => 0,
            TagType::Byte => 1,
            TagType::Short => 2,
            TagType::Int => 3,
            TagType::Long => 4,
            TagType::Float => 5,
            TagType::Double => 6,
            TagType::ByteArray => 7,
            TagType::String => 8,
            TagType::List => 9,
            TagType::Compound => 10,
            TagType::IntArray => 11,
            TagType::LongArray => 12,
        }
    }

    /// The tag type with wire id `id`, if there is one.
    pub fn from_id(id: u8) -> (r: Option<TagType>)
        ensures
            r matches Some(t) ==> tag_id(t) == id,
            r is None <==> id > 12,
    {
        match id {
            0 => Some(TagType::End),
            1 => Some(TagType::Byte),
            2 => Some(TagType::Short),
            3 => Some(TagType::Int),
            4 => Some(TagType::Long),
            5 => Some(TagType::Float),
            6 => Some(TagType::Double),
            7 => Some(TagType::ByteArray),
            8 => Some(TagType::String),
            9 => Some(TagType::List),
            10 => Some(TagType::Compound),
            11 => Some(TagType::IntArray),
            12 => Some(TagType::LongArray),
            _ => None,
        }
    }
}

/// The wire ids are the NBT format's numbering: End is 0 and each type's id is one more
/// than the one before it in the order End, Byte, Short, Int, Long, Float, Double,
/// ByteArray, String, List, Compound, IntArray, LongArray; so the ids run from 0 to 12
/// and no two types share one.
pub proof fn law_tag_ids_follow_nbt_numbering(t: TagType, u: TagType)
    ensures
        tag_id(TagType::End) == 0,
        tag_id(TagType::Byte) == tag_id(TagType::End) + 1,
        tag_id(TagType::Short) == tag_id(TagType::Byte) + 1,
        tag_id(TagType::Int) == tag_id(TagType::Short) + 1,
        tag_id(TagType::Long) == tag_id(TagType::Int) + 1,
        tag_id(TagType::Float) == tag_id(TagType::Long) + 1,
        tag_id(TagType::Double) == tag_id(TagType::Float) + 1,
        tag_id(TagType::ByteArray) == tag_id(TagType::Double) + 1,
        tag_id(TagType::String) == tag_id(TagType::ByteArray) + 1,
        tag_id(TagType::List) == tag_id(TagType::String) + 1,
        tag_id(TagType::Compound) == tag_id(TagType::List) + 1,
        tag_id(TagType::IntArray) == tag_id(TagType::Compound) + 1,
        tag_id(TagType::LongArray) == tag_id(TagType::IntArray) + 1,
        tag_id(t) <= 12,
        tag_id(t) == tag_id(u) ==> t == u,
{
}

// ---------------------------------------------------------------------------
// Compounds: entries sorted by key
// ---------------------------------------------------------------------------

/// `new` is `old` with `value` stored under `key`: the entry for `key` is replaced in
/// place, or a new entry goes where the order puts it.
pub open spec fn entries_put(
    old: Seq<(Seq<char>, usize)>,
    new: Seq<(Seq<char>, usize)>,
    key: Seq<char>,
    value: usize,
) -> bool {
    &&& keys_sorted(new)
    &&& entries_find(old, key) matches Some(o) ==> exists|i: int|
        0 <= i < old.len() && old[i] == (key, o) && new == old.update(i, (key, value))
    &&& entries_find(old, key) is None ==> exists|i: int|
        0 <= i <= old.len() && new == old.insert(i, (key, value))
}

/// The entries of a compound tag, kept sorted by key so that lookups can bisect.
#[derive(Debug, Clone)]
pub struct NBTCompound(pub(crate) Vec<(String, usize)>);

impl View for NBTCompound {
    type V = Seq<(Seq<char>, usize)>;

    closed spec fn view(&self) -> Seq<(Seq<char>, usize)> {
        self.0@.map_values(|e: (String, usize)| (e.0@, e.1))
    }
}

/// With sorted keys, a key is found exactly where an entry holds it.
proof fn lemma_find_iff_held(entries: Seq<(Seq<char>, usize)>, key: Seq<char>)
    requires
        keys_sorted(entries),
    ensures
        entries_find(entries, key) is None <==> forall|j: int|
            0 <= j < entries.len() ==> #[trigger] entries[j].0 != key,
{
    lemma_entries_find_absent(entries, key);
    if entries_find(entries, key) is None {
        assert forall|j: int| 0 <= j < entries.len() implies #[trigger] entries[j].0 != key by {
            if entries[j].0 == key {
                lemma_entries_find_at(entries, j);
            }
        }
    }
}

/// Storing a value under one key leaves what every other key finds unchanged.
pub proof fn law_insert_keeps_other_keys(
    old: Seq<(Seq<char>, usize)>,
    new: Seq<(Seq<char>, usize)>,
    key: Seq<char>,
    value: usize,
    other: Seq<char>,
)
    requires
        keys_sorted(old),
        entries_put(old, new, key, value),
        other != key,
    ensures
        entries_find(new, other) == entries_find(old, other),
{
    if entries_find(old, key) is Some {
        let o = entries_find(old, key)->0;
        let i = choose|i: int|
            0 <= i < old.len() && old[i] == (key, o) && new == old.update(i, (key, value));
        lemma_other_key_kept_update(old, new, i, key, value, other);
    } else {
        let i = choose|i: int| 0 <= i <= old.len() && new == old.insert(i, (key, value));
        lemma_other_key_kept_insert(old, new, i, key, value, other);
    }
}

proof fn lemma_other_key_kept_update(
    old: Seq<(Seq<char>, usize)>,
    new: Seq<(Seq<char>, usize)>,
    i: int,
    key: Seq<char>,
    value: usize,
    other: Seq<char>,
)
    requires
        keys_sorted(old),
        keys_sorted(new),
        0 <= i < old.len(),
        old[i].0 == key,
        new == old.update(i, (key, value)),
        other != key,
    ensures
        entries_find(new, other) == entries_find(old, other),
{
    lemma_find_iff_held(old, other);
    lemma_find_iff_held(new, other);
    match entries_find(old, other) {
        Some(v) => {
            lemma_entries_find_absent(old, other);
            let j = choose|j: int| 0 <= j < old.len() && #[trigger] old[j] == (other, v);
            assert(j != i);
            assert(new[j] == old[j]);
            lemma_entries_find_at(new, j);
        },
        None => {
            assert forall|j: int| 0 <= j < new.len() implies #[trigger] new[j].0 != other by {
                if j != i {
                    assert(new[j] == old[j]);
                }
            }
        },
    }
}

proof fn lemma_other_key_kept_insert(
    old: Seq<(Seq<char>, usize)>,
    new: Seq<(Seq<char>, usize)>,
    i: int,
    key: Seq<char>,
    value: usize,
    other: Seq<char>,
)
    requires
        keys_sorted(old),
        keys_sorted(new),
        0 <= i <= old.len(),
        new == old.insert(i, (key, value)),
        other != key,
    ensures
        entries_find(new, other) == entries_find(old, other),
{
    lemma_find_iff_held(old, other);
    lemma_find_iff_held(new, other);
    match entries_find(old, other) {
        Some(v) => {
            lemma_entries_find_absent(old, other);
            let j = choose|j: int| 0 <= j < old.len() && #[trigger] old[j] == (other, v);
            let nj = if j < i { j } else { j + 1 };
            assert(new[nj] == old[j]);
            lemma_entries_find_at(new, nj);
        },
        None => {
            assert forall|j: int| 0 <= j < new.len() implies #[trigger] new[j].0 != other by {
                if j < i {
                    assert(new[j] == old[j]);
                } else if j > i {
                    assert(new[j] == old[j - 1]);
                }
            }
        },
    }
}

/// The value a sequence of stores leaves under `key`: the last one stored there.
pub open spec fn last_put(ops: Seq<(Seq<char>, usize)>, key: Seq<char>) -> Option<usize>
    decreases ops.len(),
{
    if ops.len() == 0 {
        None
    } else if ops.last().0 == key {
        Some(ops.last().1)
    } else {
        last_put(ops.drop_last(), key)
    }
}

/// After any sequence of stores into an empty compound, the keys are strictly sorted
/// (so each key stored is held once) and each key finds the value stored last under it.
pub proof fn law_entries_after_stores(
    ops: Seq<(Seq<char>, usize)>,
    states: Seq<Seq<(Seq<char>, usize)>>,
)
    requires
        states.len() == ops.len() + 1,
        states[0] == Seq::<(Seq<char>, usize)>::empty(),
        forall|i: int|
            0 <= i < ops.len() ==> #[trigger] entries_put(states[i], states[i + 1], ops[i].0, ops[i].1),
    ensures
        keys_sorted(states.last()),
        forall|key: Seq<char>| entries_find(states.last(), key) == last_put(ops, key),
    decreases ops.len(),
{
    let n = ops.len() as int;
    if n == 0 {
        assert forall|key: Seq<char>| entries_find(states.last(), key) == last_put(ops, key) by {
            assert(states.last() == states[0]);
        }
        assert(keys_sorted(states[0]));
    } else {
        let before = states.drop_last();
        let prior = ops.drop_last();
        assert forall|i: int| 0 <= i < prior.len() implies #[trigger] entries_put(
            before[i],
            before[i + 1],
            prior[i].0,
            prior[i].1,
        ) by {
            assert(entries_put(states[i], states[i + 1], ops[i].0, ops[i].1));
        }
        law_entries_after_stores(prior, before);
        let last = n - 1;
        let old = before.last();
        let new = states.last();
        assert(old == states[last]);
        assert(new == states[last + 1]);
        let key = ops[last].0;
        let value = ops[last].1;
        assert(entries_put(states[last], states[last + 1], ops[last].0, ops[last].1));
        assert(ops.last() == (key, value));
        assert forall|k: Seq<char>| entries_find(new, k) == last_put(ops, k) by {
            assert(entries_find(old, k) == last_put(prior, k));
            if k == key {
                if entries_find(old, key) is Some {
                    let o = entries_find(old, key)->0;
                    let i = choose|i: int|
                        0 <= i < old.len() && old[i] == (key, o) && new == old.update(i, (key, value));
                    lemma_entries_find_at(new, i);
                } else {
                    let i = choose|i: int| 0 <= i <= old.len() && new == old.insert(i, (key, value));
                    lemma_entries_find_at(new, i);
                }
            } else {
                law_insert_keeps_other_keys(old, new, key, value, k);
            }
        }
    }
}

/// Removing the entry that holds a key forgets that key and leaves what every other
/// key finds unchanged.
pub proof fn law_remove_forgets_key(old: Seq<(Seq<char>, usize)>, i: int, key: Seq<char>, other: Seq<char>)
    requires
        keys_sorted(old),
        0 <= i < old.len(),
        old[i].0 == key,
    ensures
        entries_find(old.remove(i), key) is None,
        other != key ==> entries_find(old.remove(i), other) == entries_find(old, other),
{
    let new = old.remove(i);
    assert(keys_sorted(new)) by {
        assert forall|a: int, b: int| 0 <= a < b < new.len() implies key_order(
            #[trigger] new[a].0,
            #[trigger] new[b].0,
        ) < 0 by {
            let oa = if a < i { a } else { a + 1 };
            let ob = if b < i { b } else { b + 1 };
            assert(new[a] == old[oa]);
            assert(new[b] == old[ob]);
            assert(key_order(old[oa].0, old[ob].0) < 0);
        }
    }
    lemma_find_iff_held(new, key);
    assert forall|j: int| 0 <= j < new.len() implies #[trigger] new[j].0 != key by {
        let oj = if j < i { j } else { j + 1 };
        assert(new[j] == old[oj]);
        assert(key_order(old[i].0, old[oj].0) != 0 || key_order(old[oj].0, old[i].0) != 0) by {
            if oj < i {
                assert(key_order(old[oj].0, old[i].0) < 0);
            } else {
                assert(key_order(old[i].0, old[oj].0) < 0);
            }
        }
        lemma_key_order(old[i].0, old[oj].0);
    }
    if other != key {
        lemma_find_iff_held(old, other);
        lemma_find_iff_held(new, other);
        match entries_find(old, other) {
            Some(v) => {
                lemma_entries_find_absent(old, other);
                let j = choose|j: int| 0 <= j < old.len() && #[trigger] old[j] == (other, v);
                let nj = if j < i { j } else { j - 1 };
                assert(j != i);
                assert(new[nj] == old[j]);
                lemma_entries_find_at(new, nj);
            },
            None => {
                assert forall|j: int| 0 <= j < new.len() implies #[trigger] new[j].0 != other by {
                    let oj = if j < i { j } else { j + 1 };
                    assert(new[j] == old[oj]);
                }
            },
        }
    }
}

impl NBTCompound {
    /// An empty compound.
    pub fn new() -> (r: Self)
        ensures
            r@ == Seq::<(Seq<char>, usize)>::empty(),
    {
        let r = NBTCompound(Vec::new());
        assert(r@ =~= Seq::<(Seq<char>, usize)>::empty());
        r
    }

    /// The node stored under `key`.
    pub fn find(&self, key: &str) -> (r: Option<usize>)
        requires
            keys_sorted(self@),
        ensures
            r == entries_find(self@, key@),
    {
        match self.binary_search(key) {
            Ok(index) => {
                proof {
                    lemma_entries_find_at(self@, index as int);
                }
                Some(self.0[index].1)
            },
            Err(_) => {
                proof {
                    assert forall|i: int| 0 <= i < self@.len() implies self@[i].0 != key@ by {
                        lemma_key_order(self@[i].0, key@);
                    }
                    lemma_entries_find_absent(self@, key@);
                }
                None
            },
        }
    }

    /// Removes the entry under `key` and returns its node.
    pub fn remove(&mut self, key: &str) -> (r: Option<usize>)
        requires
            keys_sorted(old(self)@),
        ensures
            r == entries_find(old(self)@, key@),
            keys_sorted(final(self)@),
            r is None ==> final(self)@ == old(self)@,
            r is Some ==> exists|i: int|
                0 <= i < old(self)@.len() && old(self)@[i].0 == key@ && final(self)@ == old(
                    self,
                )@.remove(i),
    {
        match self.binary_search(key) {
            Ok(index) => {
                proof {
                    lemma_entries_find_at(self@, index as int);
                }
                let ghost before = self@;
                let entry = self.0.remove(index);
                proof {
                    assert(self@ =~= before.remove(index as int));
                }
                Some(entry.1)
            },
            Err(_) => {
                proof {
                    assert forall|i: int| 0 <= i < self@.len() implies self@[i].0 != key@ by {
                        lemma_key_order(self@[i].0, key@);
                    }
                    lemma_entries_find_absent(self@, key@);
                }
                None
            },
        }
    }

    /// Stores `value` under `key`, replacing the entry that held `key` if there is one.
    pub fn insert(&mut self, key: &str, value: usize)
        requires
            keys_sorted(old(self)@),
        ensures
            entries_put(old(self)@, final(self)@, key@, value),
            entries_find(final(self)@, key@) == Some(value),
    {
        let ghost before = self@;
        match self.binary_search(key) {
            Ok(index) => {
                proof {
                    lemma_entries_find_at(before, index as int);
                }
                let name = self.0[index].0.clone();
                self.0.set(index, (name, value));
                proof {
                    assert(self@ =~= before.update(index as int, (key@, value)));
                    assert forall|i: int, j: int| 0 <= i < j < self@.len() implies key_order(
                        #[trigger] self@[i].0,
                        #[trigger] self@[j].0,
                    ) < 0 by {
                        assert(before[i].0 == self@[i].0);
                        assert(before[j].0 == self@[j].0);
                    }
                    lemma_entries_find_at(self@, index as int);
                    assert(before[index as int] == (key@, before[index as int].1));
                }
            },
            Err(index) => {
                let name = key.to_owned();
                self.0.insert(index, (name, value));
                proof {
                    assert forall|i: int| 0 <= i < before.len() implies before[i].0 != key@ by {
                        lemma_key_order(before[i].0, key@);
                    }
                    lemma_entries_find_absent(before, key@);
                    assert(self@ =~= before.insert(index as int, (key@, value)));
                    assert forall|i: int, j: int| 0 <= i < j < self@.len() implies key_order(
                        #[trigger] self@[i].0,
                        #[trigger] self@[j].0,
                    ) < 0 by {
                        if i < index && j == index {
                        } else if i == index && j > index {
                            lemma_key_order(before[j - 1].0, key@);
                        } else if i < index && j > index {
                            assert(key_order(before[i].0, before[j - 1].0) < 0);
                        } else if j < index {
                            assert(key_order(before[i].0, before[j].0) < 0);
                        } else {
                            assert(key_order(before[i - 1].0, before[j - 1].0) < 0);
                        }
                    }
                    lemma_entries_find_at(self@, index as int);
                }
            },
        }
    }

    /// Bisects the sorted entries for `key`: `Ok` with its position, or `Err` with the
    /// position where it would be inserted.
    pub fn binary_search(&self, key: &str) -> (r: Result<usize, usize>)
        requires
            keys_sorted(self@),
        ensures
            search_result_ok(self@, key@, r),
    {
        let mut lo: usize = 0;
        let mut hi: usize = self.0.len();
        while lo < hi
            invariant
                keys_sorted(self@),
                lo <= hi <= self@.len(),
                forall|j: int| 0 <= j < lo ==> key_order(#[trigger] self@[j].0, key@) < 0,
                forall|j: int| hi <= j < self@.len() ==> key_order(#[trigger] self@[j].0, key@) > 0,
            decreases hi - lo,
        {
            let mid = lo + (hi - lo) / 2;
            let c = compare_keys(self.0[mid].0.as_str(), key);
            if c == 0 {
                proof {
                    lemma_key_order(self@[mid as int].0, key@);
                }
                return Ok(mid);
            } else if c < 0 {
                proof {
                    assert forall|j: int| 0 <= j <= mid implies key_order(
                        #[trigger] self@[j].0,
                        key@,
                    ) < 0 by {
                        if j < mid {
                            lemma_key_order_trans(self@[j].0, self@[mid as int].0, key@);
                        }
                    }
                }
                lo = mid + 1;
            } else {
                proof {
                    assert forall|j: int| mid <= j < self@.len() implies key_order(
                        #[trigger] self@[j].0,
                        key@,
                    ) > 0 by {
                        lemma_key_order(self@[mid as int].0, key@);
                        if j > mid {
                            lemma_key_order_trans(key@, self@[mid as int].0, self@[j].0);
                            lemma_key_order(self@[j].0, key@);
                        }
                    }
                }
                hi = mid;
            }
        }
        Err(lo)
    }
}

}

verus! {

// ---------------------------------------------------------------------------
// Nodes
// ---------------------------------------------------------------------------

/// One tag of an NBT tree, stored in the tree's slab. Lists and compounds refer to
/// their children by slab key. Floating-point values are held as their IEEE-754 bits.
#[derive(Debug, Clone)]
pub enum NBTNode {
    Byte(i8),
    Short(i16),
    Int(i32),
    Long(i64),
    Float(u32),
    Double(u64),
    ByteArray(Vec<i8>),
    String(String),
    List { type_id: TagType, children: Vec<usize> },
    Compound(NBTCompound),
    IntArray(Vec<i32>),
    LongArray(Vec<i64>),
}

/// The type of each node.
pub open spec fn node_type(node: NBTNode) -> TagType {
    match node {
        NBTNode::Byte(_) => TagType::Byte,
        NBTNode::Short(_) => TagType::Short,
        NBTNode::Int(_) => TagType::Int,
        NBTNode::Long(_) => TagType::Long,
        NBTNode::Float(_) => TagType::Float,
        NBTNode::Double(_) => TagType::Double,
        NBTNode::ByteArray(_) => TagType::ByteArray,
        NBTNode::String(_) => TagType::String,
        NBTNode::List { .. } => TagType::List,
        NBTNode::Compound(_) => TagType::Compound,
        NBTNode::IntArray(_) => TagType::IntArray,
        NBTNode::LongArray(_) => TagType::LongArray,
    }
}

impl NBTNode {
    /// The tag type of this node.
    pub fn get_type(&self) -> (r: TagType)
        ensures
            r == node_type(*self),
    {
        match self {
            NBTNode::Byte(_) => TAG_BYTE_ID,
            NBTNode::Short(_) => TAG_SHORT_ID,
            NBTNode::Int(_) => TAG_INT_ID,
            NBTNode::Long(_) => TAG_LONG_ID,
            NBTNode::Float(_) => TAG_FLOAT_ID,
            NBTNode::Double(_) => TAG_DOUBLE_ID,
            NBTNode::ByteArray(_) => TAG_BYTE_ARRAY_ID,
            NBTNode::String(_) => TAG_STRING_ID,
            NBTNode::List { type_id: _, children: _ } => TAG_LIST_ID,
            NBTNode::Compound(_) => TAG_COMPOUND_ID,
            NBTNode::IntArray(_) => TAG_INT_ARRAY_ID,
            NBTNode::LongArray(_) => TAG_LONG_ARRAY_ID,
        }
    }
}

/// The slab keys of a node's children, in order.
pub open spec fn children(node: NBTNode) -> Seq<usize> {
    match node {
        NBTNode::List { children, .. } => children@,
        NBTNode::Compound(c) => c@.map_values(|e: (Seq<char>, usize)| e.1),
        _ => Seq::empty(),
    }
}

/// A compound's keys are sorted; any other node has nothing to sort.
pub open spec fn node_sorted(node: NBTNode) -> bool {
    match node {
        NBTNode::Compound(c) => keys_sorted(c@),
        _ => true,
    }
}

// ---------------------------------------------------------------------------
// The slab that holds the nodes
// ---------------------------------------------------------------------------

#[verifier::external_type_specification]
#[verifier::external_body]
#[verifier::reject_recursive_types(T)]
pub struct ExSlab<T>(Slab<T>);

/// What a slab of nodes holds: each occupied key with its node.
pub uninterp spec fn slab_nodes(s: Slab<NBTNode>) -> Map<usize, NBTNode>;

/// `Slab::new`: a slab that holds nothing.
#[verifier::external_body]
fn slab_new() -> (r: Slab<NBTNode>)
    ensures
        slab_nodes(r).dom().finite(),
        slab_nodes(r).dom().len() == 0,
{
    Slab::new()
}

/// `Slab::insert`: stores `value` under a key that was vacant and returns that key.
#[verifier::external_body]
fn slab_insert(s: &mut Slab<NBTNode>, value: NBTNode) -> (k: usize)
    ensures
        !slab_nodes(*old(s)).dom().contains(k),
        slab_nodes(*final(s)) == slab_nodes(*old(s)).insert(k, value),
        slab_nodes(*final(s)).dom().finite(),
{
    s.insert(value)
}

/// `Slab::remove`: takes the value out of an occupied key.
#[verifier::external_body]
fn slab_remove(s: &mut Slab<NBTNode>, key: usize) -> (r: NBTNode)
    requires
        slab_nodes(*old(s)).dom().contains(key),
    ensures
        r == slab_nodes(*old(s))[key],
        slab_nodes(*final(s)) == slab_nodes(*old(s)).remove(key),
        slab_nodes(*final(s)).dom().finite(),
{
    s.remove(key)
}

/// `Slab`'s `Index`: the value under an occupied key.
#[verifier::external_body]
fn slab_get(s: &Slab<NBTNode>, key: usize) -> (r: &NBTNode)
    requires
        slab_nodes(*s).dom().contains(key),
    ensures
        *r == slab_nodes(*s)[key],
{
    &s[key]
}

/// `Slab`'s `IndexMut`: swaps the value under an occupied key for `value`.
#[verifier::external_body]
fn slab_replace(s: &mut Slab<NBTNode>, key: usize, value: NBTNode) -> (r: NBTNode)
    requires
        slab_nodes(*old(s)).dom().contains(key),
    ensures
        r == slab_nodes(*old(s))[key],
        slab_nodes(*final(s)) == slab_nodes(*old(s)).insert(key, value),
        slab_nodes(*final(s)).dom().finite(),
{
    std::mem::replace(&mut s[key], value)
}

// ---------------------------------------------------------------------------
// Tree shape
// ---------------------------------------------------------------------------

/// Whether `n` lies in the subtree under `a`, following recorded parents upwards.
pub open spec fn in_subtree(par: Map<usize, usize>, dep: Map<usize, nat>, n: usize, a: usize) -> bool
    decreases dep[n],
{
    if n == a {
        true
    } else if par.dom().contains(n) && dep[par[n]] < dep[n] {
        in_subtree(par, dep, par[n], a)
    } else {
        false
    }
}

/// Child `c` of `p` is live, not the root, not detached, and records `p` as its parent
/// one level up.
pub open spec fn child_linked(
    m: Map<usize, NBTNode>,
    root: usize,
    par: Map<usize, usize>,
    dep: Map<usize, nat>,
    orph: Set<usize>,
    det: Set<usize>,
    p: usize,
    c: usize,
) -> bool {
    &&& m.dom().contains(c)
    &&& c != root
    &&& !orph.contains(c)
    &&& !det.contains(c)
    &&& par.dom().contains(c)
    &&& par[c] == p
    &&& dep[c] == dep[p] + 1
}

/// The nodes in `m` form a tree under `root`, plus subtrees that were cut loose:
/// `orph` are roots of subtrees that a replaced compound entry left behind, `det` are
/// roots of subtrees that are being removed. Every other node has exactly one parent.
pub open spec fn forest_wf(
    m: Map<usize, NBTNode>,
    root: usize,
    par: Map<usize, usize>,
    dep: Map<usize, nat>,
    orph: Set<usize>,
    det: Set<usize>,
) -> bool {
    &&& m.dom().finite()
    &&& m.dom().contains(root)
    &&& m[root] is Compound
    &&& !par.dom().contains(root)
    &&& forall|o: usize|
        #![trigger orph.contains(o)]
        orph.contains(o) ==> m.dom().contains(o) && !par.dom().contains(o) && o != root
            && !det.contains(o)
    &&& forall|d: usize| #![trigger det.contains(d)] det.contains(d) ==> m.dom().contains(d) && d != root
    &&& forall|p: usize, i: int|
        m.dom().contains(p) && 0 <= i < children(m[p]).len() ==> child_linked(
            m,
            root,
            par,
            dep,
            orph,
            det,
            p,
            #[trigger] children(m[p])[i],
        )
    &&& forall|p: usize| #[trigger] m.dom().contains(p) ==> children(m[p]).no_duplicates()
    &&& forall|p: usize| #[trigger] m.dom().contains(p) ==> node_sorted(m[p])
    &&& forall|n: usize|
        #![trigger m.dom().contains(n)]
        m.dom().contains(n) && n != root && !orph.contains(n) && !det.contains(n) ==> {
            &&& par.dom().contains(n)
            &&& m.dom().contains(par[n])
            &&& children(m[par[n]]).contains(n)
        }
    &&& forall|d1: usize, d2: usize|
        #![trigger det.contains(d1), det.contains(d2)]
        det.contains(d1) && det.contains(d2) && d1 != d2 ==> !in_subtree(par, dep, d1, d2)
}

pub proof fn lemma_subtree_depth(par: Map<usize, usize>, dep: Map<usize, nat>, n: usize, a: usize)
    requires
        in_subtree(par, dep, n, a),
    ensures
        n == a || dep[n] > dep[a],
    decreases dep[n],
{
    if n != a {
        lemma_subtree_depth(par, dep, par[n], a);
    }
}

pub proof fn lemma_subtree_step(
    par: Map<usize, usize>,
    dep: Map<usize, nat>,
    n: usize,
    c: usize,
    a: usize,
)
    requires
        in_subtree(par, dep, n, c),
        par.dom().contains(c),
        par[c] == a,
        dep[a] < dep[c],
    ensures
        in_subtree(par, dep, n, a),
    decreases dep[n],
{
    if n == c {
        assert(in_subtree(par, dep, a, a));
        assert(c != a);
    } else if n != a {
        assert(par.dom().contains(n) && dep[par[n]] < dep[n]);
        lemma_subtree_step(par, dep, par[n], c, a);
    }
}

/// A live node under a detached root `idx` is `idx` itself or lies under one of its
/// children.
pub proof fn lemma_subtree_decompose(
    m: Map<usize, NBTNode>,
    root: usize,
    par: Map<usize, usize>,
    dep: Map<usize, nat>,
    orph: Set<usize>,
    det: Set<usize>,
    idx: usize,
    n: usize,
)
    requires
        forest_wf(m, root, par, dep, orph, det),
        det.contains(idx),
        m.dom().contains(n),
        in_subtree(par, dep, n, idx),
        n != idx,
    ensures
        exists|j: int|
            0 <= j < children(m[idx]).len() && in_subtree(
                par,
                dep,
                n,
                #[trigger] children(m[idx])[j],
            ),
    decreases dep[n],
{
    if det.contains(n) {
        assert(det.contains(n) && det.contains(idx));
    } else if orph.contains(n) || n == root {
    } else {
        assert(m.dom().contains(n));
        let p = par[n];
        let i = choose|i: int| 0 <= i < children(m[p]).len() && children(m[p])[i] == n;
        assert(child_linked(m, root, par, dep, orph, det, p, children(m[p])[i]));
        if p == idx {
            assert(in_subtree(par, dep, children(m[idx])[i], children(m[idx])[i]));
        } else {
            lemma_subtree_decompose(m, root, par, dep, orph, det, idx, p);
            let j = choose|j: int|
                0 <= j < children(m[idx]).len() && in_subtree(
                    par,
                    dep,
                    p,
                    #[trigger] children(m[idx])[j],
                );
            assert(in_subtree(par, dep, n, children(m[idx])[j]));
        }
    }
}

}

verus! {

/// Removing a detached node detaches its children in its place.
proof fn lemma_remove_detached(
    m: Map<usize, NBTNode>,
    root: usize,
    par: Map<usize, usize>,
    dep: Map<usize, nat>,
    orph: Set<usize>,
    det: Set<usize>,
    idx: usize,
)
    requires
        forest_wf(m, root, par, dep, orph, det),
        det.contains(idx),
    ensures
        forest_wf(m.remove(idx), root, par, dep, orph, det.remove(idx).union(children(m[idx]).to_set())),
{
    let ch = children(m[idx]);
    let m1 = m.remove(idx);
    let det1 = det.remove(idx).union(ch.to_set());
    assert forall|j: int| 0 <= j < ch.len() implies child_linked(m, root, par, dep, orph, det, idx, #[trigger] ch[j]) by {
    }
    assert forall|o: usize| #[trigger] orph.contains(o) implies m1.dom().contains(o) && !par.dom().contains(o) && o != root && !det1.contains(o) by {
        if ch.contains(o) {
            let j = choose|j: int| 0 <= j < ch.len() && ch[j] == o;
            assert(child_linked(m, root, par, dep, orph, det, idx, ch[j]));
        }
    }
    assert forall|d: usize| #[trigger] det1.contains(d) implies m1.dom().contains(d) && d != root by {
        if ch.contains(d) {
            let j = choose|j: int| 0 <= j < ch.len() && ch[j] == d;
            assert(child_linked(m, root, par, dep, orph, det, idx, ch[j]));
        }
    }
    assert forall|p: usize, i: int| m1.dom().contains(p) && 0 <= i < children(m1[p]).len() implies child_linked(
        m1, root, par, dep, orph, det1, p, #[trigger] children(m1[p])[i]) by {
        let c = children(m[p])[i];
        assert(child_linked(m, root, par, dep, orph, det, p, c));
        if ch.contains(c) {
            let j = choose|j: int| 0 <= j < ch.len() && ch[j] == c;
            assert(child_linked(m, root, par, dep, orph, det, idx, ch[j]));
        }
    }
    assert forall|p: usize| #[trigger] m1.dom().contains(p) implies children(m1[p]).no_duplicates() && node_sorted(m1[p]) by {
        assert(m.dom().contains(p));
    }
    assert forall|n: usize| #[trigger] m1.dom().contains(n) && n != root && !orph.contains(n) && !det1.contains(n) implies {
        &&& par.dom().contains(n)
        &&& m1.dom().contains(par[n])
        &&& children(m1[par[n]]).contains(n)
    } by {
        assert(m.dom().contains(n));
        if par[n] == idx {
            assert(ch.contains(n));
        }
    }
    assert forall|d1: usize, d2: usize| det1.contains(d1) && det1.contains(d2) && d1 != d2 implies !in_subtree(par, dep, d1, d2) by {
        if ch.contains(d1) && ch.contains(d2) {
            let j1 = choose|j: int| 0 <= j < ch.len() && ch[j] == d1;
            let j2 = choose|j: int| 0 <= j < ch.len() && ch[j] == d2;
            assert(child_linked(m, root, par, dep, orph, det, idx, ch[j1]));
            assert(child_linked(m, root, par, dep, orph, det, idx, ch[j2]));
            if in_subtree(par, dep, d1, d2) {
                lemma_subtree_depth(par, dep, d1, d2);
            }
        } else if ch.contains(d1) {
            let j1 = choose|j: int| 0 <= j < ch.len() && ch[j] == d1;
            assert(child_linked(m, root, par, dep, orph, det, idx, ch[j1]));
            assert(det.contains(d2) && det.contains(idx) && d2 != idx);
            if in_subtree(par, dep, d1, d2) {
                assert(d1 != d2);
                assert(in_subtree(par, dep, idx, d2));
            }
        } else if ch.contains(d2) {
            let j2 = choose|j: int| 0 <= j < ch.len() && ch[j] == d2;
            assert(child_linked(m, root, par, dep, orph, det, idx, ch[j2]));
            assert(det.contains(d1) && det.contains(idx) && d1 != idx);
            if in_subtree(par, dep, d1, d2) {
                lemma_subtree_step(par, dep, d1, d2, idx);
            }
        } else {
            assert(det.contains(d1) && det.contains(d2));
        }
    }
}

/// The state of a removal of the subtree under `idx` after its first `i` children's
/// subtrees are gone.
pub open spec fn removal_progress(
    cur: Map<usize, NBTNode>,
    m0: Map<usize, NBTNode>,
    root: usize,
    par: Map<usize, usize>,
    dep: Map<usize, nat>,
    orph: Set<usize>,
    det: Set<usize>,
    idx: usize,
    ch: Seq<usize>,
    i: int,
) -> bool {
    &&& 0 <= i <= ch.len()
    &&& ch == children(m0[idx])
    &&& forest_wf(cur, root, par, dep, orph, det.remove(idx).union(ch.skip(i).to_set()))
    &&& forall|n: usize|
        #[trigger] cur.dom().contains(n) <==> (m0.dom().contains(n) && n != idx && forall|j: int|
            0 <= j < i ==> !in_subtree(par, dep, n, #[trigger] ch[j]))
    &&& forall|n: usize| #[trigger] cur.dom().contains(n) ==> cur[n] == m0[n]
}

}

verus! {

proof fn lemma_removal_start(
    m0: Map<usize, NBTNode>,
    root: usize,
    par: Map<usize, usize>,
    dep: Map<usize, nat>,
    orph: Set<usize>,
    det: Set<usize>,
    idx: usize,
)
    requires
        forest_wf(m0, root, par, dep, orph, det),
        det.contains(idx),
    ensures
        removal_progress(m0.remove(idx), m0, root, par, dep, orph, det, idx, children(m0[idx]), 0),
        m0.remove(idx).dom().len() < m0.dom().len(),
{
    lemma_remove_detached(m0, root, par, dep, orph, det, idx);
    let ch = children(m0[idx]);
    assert(ch.skip(0) =~= ch);
}

proof fn lemma_removal_step(
    cur: Map<usize, NBTNode>,
    next: Map<usize, NBTNode>,
    m0: Map<usize, NBTNode>,
    root: usize,
    par: Map<usize, usize>,
    dep: Map<usize, nat>,
    orph: Set<usize>,
    det: Set<usize>,
    idx: usize,
    ch: Seq<usize>,
    i: int,
)
    requires
        forest_wf(m0, root, par, dep, orph, det),
        det.contains(idx),
        removal_progress(cur, m0, root, par, dep, orph, det, idx, ch, i),
        i < ch.len(),
        forest_wf(
            next,
            root,
            par,
            dep,
            orph,
            det.remove(idx).union(ch.skip(i).to_set()).remove(ch[i]),
        ),
        forall|n: usize|
            #[trigger] next.dom().contains(n) <==> cur.dom().contains(n) && !in_subtree(
                par,
                dep,
                n,
                ch[i],
            ),
        forall|n: usize| #[trigger] next.dom().contains(n) ==> next[n] == cur[n],
    ensures
        removal_progress(next, m0, root, par, dep, orph, det, idx, ch, i + 1),
{
    assert(child_linked(m0, root, par, dep, orph, det, idx, ch[i]));
    assert(children(m0[idx]).no_duplicates());
    assert(det.remove(idx).union(ch.skip(i).to_set()).remove(ch[i]) =~= det.remove(idx).union(
        ch.skip(i + 1).to_set(),
    )) by {
        assert forall|x: usize| ch.skip(i).to_set().contains(x) && x != ch[i] <==> ch.skip(
            i + 1,
        ).to_set().contains(x) by {
            let s0 = ch.skip(i);
            let s1 = ch.skip(i + 1);
            if s0.to_set().contains(x) && x != ch[i] {
                let k = choose|k: int| 0 <= k < s0.len() && #[trigger] s0[k] == x;
                assert(k != 0);
                assert(s1[k - 1] == x);
            }
            if s1.to_set().contains(x) {
                let k = choose|k: int| 0 <= k < s1.len() && #[trigger] s1[k] == x;
                assert(s0[k + 1] == x);
                assert(ch[i + 1 + k] == x);
            }
        }
    }
    assert forall|n: usize|
        #[trigger] next.dom().contains(n) <==> (m0.dom().contains(n) && n != idx && forall|j: int|
            0 <= j < i + 1 ==> !in_subtree(par, dep, n, #[trigger] ch[j])) by {
        if next.dom().contains(n) {
            assert forall|j: int| 0 <= j < i + 1 implies !in_subtree(par, dep, n, #[trigger] ch[j]) by {
                if j < i {
                    assert(cur.dom().contains(n));
                }
            }
        }
        if m0.dom().contains(n) && n != idx && forall|j: int|
            0 <= j < i + 1 ==> !in_subtree(par, dep, n, #[trigger] ch[j]) {
            assert(!in_subtree(par, dep, n, ch[i]));
            assert(cur.dom().contains(n));
        }
    }
}

proof fn lemma_removal_done(
    cur: Map<usize, NBTNode>,
    m0: Map<usize, NBTNode>,
    root: usize,
    par: Map<usize, usize>,
    dep: Map<usize, nat>,
    orph: Set<usize>,
    det: Set<usize>,
    idx: usize,
    ch: Seq<usize>,
)
    requires
        forest_wf(m0, root, par, dep, orph, det),
        det.contains(idx),
        removal_progress(cur, m0, root, par, dep, orph, det, idx, ch, ch.len() as int),
    ensures
        forest_wf(cur, root, par, dep, orph, det.remove(idx)),
        forall|n: usize|
            #[trigger] cur.dom().contains(n) <==> m0.dom().contains(n) && !in_subtree(par, dep, n, idx),
        forall|n: usize| #[trigger] cur.dom().contains(n) ==> cur[n] == m0[n],
{
    assert(det.remove(idx).union(ch.skip(ch.len() as int).to_set()) =~= det.remove(idx));
    assert forall|n: usize|
        #[trigger] cur.dom().contains(n) <==> m0.dom().contains(n) && !in_subtree(par, dep, n, idx) by {
        if cur.dom().contains(n) {
            if in_subtree(par, dep, n, idx) {
                lemma_subtree_decompose(m0, root, par, dep, orph, det, idx, n);
                let j = choose|j: int|
                    0 <= j < children(m0[idx]).len() && in_subtree(
                        par,
                        dep,
                        n,
                        #[trigger] children(m0[idx])[j],
                    );
                assert(!in_subtree(par, dep, n, ch[j]));
            }
        }
        if m0.dom().contains(n) && !in_subtree(par, dep, n, idx) {
            assert forall|j: int| 0 <= j < ch.len() implies !in_subtree(par, dep, n, #[trigger] ch[j]) by {
                assert(child_linked(m0, root, par, dep, orph, det, idx, ch[j]));
                if in_subtree(par, dep, n, ch[j]) {
                    lemma_subtree_step(par, dep, n, ch[j], idx);
                }
            }
        }
    }
}

// ---------------------------------------------------------------------------
// The tree
// ---------------------------------------------------------------------------

/// An NBT document: a named root compound and the tags under it, held in a slab.
pub struct NBT {
    pub root_name: String,
    root_index: usize,
    nodes: Slab<NBTNode>,
    parents: Ghost<Map<usize, usize>>,
    depths: Ghost<Map<usize, nat>>,
    orphans: Ghost<Set<usize>>,
}

impl NBT {
    /// The nodes of the document, by slab key.
    pub closed spec fn node_map(&self) -> Map<usize, NBTNode> {
        slab_nodes(self.nodes)
    }

    /// The name of the root tag.
    pub closed spec fn name(&self) -> Seq<char> {
        self.root_name@
    }

    /// The slab key of the root compound.
    pub closed spec fn root(&self) -> usize {
        self.root_index
    }

    /// The nodes form a tree under the root (with subtrees that replaced entries left
    /// behind), compound keys are sorted, and no node has two parents.
    pub closed spec fn wf(&self) -> bool {
        forest_wf(
            slab_nodes(self.nodes),
            self.root_index,
            self.parents@,
            self.depths@,
            self.orphans@,
            Set::empty(),
        )
    }

    /// An empty document with an empty root name.
    pub fn new() -> (r: NBT)
        ensures
            r.wf(),
            r.name() == Seq::<char>::empty(),
            r.node_map().dom() == set![r.root()],
            r.node_map()[r.root()] is Compound,
            children(r.node_map()[r.root()]).len() == 0,
    {
        Self::new_named(String::new())
    }

    /// An empty document whose root is named `root_name`.
    pub fn new_named(root_name: String) -> (r: NBT)
        ensures
            r.wf(),
            r.name() == root_name@,
            r.node_map().dom() == set![r.root()],
            r.node_map()[r.root()] is Compound,
            children(r.node_map()[r.root()]).len() == 0,
    {
        let mut nodes = slab_new();
        let root_index = slab_insert(&mut nodes, NBTNode::Compound(NBTCompound::new()));
        let r = NBT {
            root_name,
            root_index,
            nodes,
            parents: Ghost(Map::empty()),
            depths: Ghost(Map::empty().insert(root_index, 0)),
            orphans: Ghost(Set::empty()),
        };
        proof {
            let m = slab_nodes(r.nodes);
            assert(slab_nodes(r.nodes).dom() =~= set![root_index]);
            assert(children(m[root_index]) =~= Seq::<usize>::empty());
            assert(keys_sorted(Seq::<(Seq<char>, usize)>::empty()));
        }
        r
    }

    /// Removes the subtree under the detached node `idx`.
    fn remove_node(&mut self, idx: usize, Ghost(det): Ghost<Set<usize>>)
        requires
            forest_wf(
                slab_nodes(old(self).nodes),
                old(self).root_index,
                old(self).parents@,
                old(self).depths@,
                old(self).orphans@,
                det,
            ),
            det.contains(idx),
        ensures
            final(self).root_index == old(self).root_index,
            final(self).root_name == old(self).root_name,
            final(self).parents == old(self).parents,
            final(self).depths == old(self).depths,
            final(self).orphans == old(self).orphans,
            forest_wf(
                slab_nodes(final(self).nodes),
                final(self).root_index,
                final(self).parents@,
                final(self).depths@,
                final(self).orphans@,
                det.remove(idx),
            ),
            forall|n: usize|
                #[trigger] slab_nodes(final(self).nodes).dom().contains(n) <==> slab_nodes(
                    old(self).nodes,
                ).dom().contains(n) && !in_subtree(old(self).parents@, old(self).depths@, n, idx),
            forall|n: usize|
                #[trigger] slab_nodes(final(self).nodes).dom().contains(n) ==> slab_nodes(
                    final(self).nodes,
                )[n] == slab_nodes(old(self).nodes)[n],
        decreases slab_nodes(old(self).nodes).dom().len(),
    {
        let ghost m0 = slab_nodes(self.nodes);
        let ghost root = self.root_index;
        let ghost par = self.parents@;
        let ghost dep = self.depths@;
        let ghost orph = self.orphans@;
        let ghost name = self.root_name;
        let node = slab_remove(&mut self.nodes, idx);
        let ghost ch = children(node);
        proof {
            lemma_removal_start(m0, root, par, dep, orph, det, idx);
        }
        match node {
            NBTNode::List { type_id: _, children } => {
                let mut i: usize = 0;
                while i < children.len()
                    invariant
                        ch == children@,
                        m0 == slab_nodes(old(self).nodes),
                        self.root_index == root,
                        self.root_name == name,
                        self.parents@ == par,
                        self.depths@ == dep,
                        self.orphans@ == orph,
                        forest_wf(m0, root, par, dep, orph, det),
                        det.contains(idx),
                        removal_progress(slab_nodes(self.nodes), m0, root, par, dep, orph, det, idx, ch, i as int),
                    decreases children.len() - i,
                {
                    proof {
                        let cur = slab_nodes(self.nodes);
                        assert(cur.dom().subset_of(m0.dom().remove(idx)));
                        vstd::set_lib::lemma_len_subset(cur.dom(), m0.dom().remove(idx));
                        assert(m0.dom().remove(idx).len() == m0.dom().len() - 1);
                        assert(ch.skip(i as int)[0] == ch[i as int]);
                    }
                    let ghost cur = slab_nodes(self.nodes);
                    self.remove_node(children[i], Ghost(det.remove(idx).union(ch.skip(i as int).to_set())));
                    proof {
                        lemma_removal_step(cur, slab_nodes(self.nodes), m0, root, par, dep, orph, det, idx, ch, i as int);
                    }
                    i += 1;
                }
                proof {
                    lemma_removal_done(slab_nodes(self.nodes), m0, root, par, dep, orph, det, idx, ch);
                }
            },
            NBTNode::Compound(compound) => {
                let mut i: usize = 0;
                while i < compound.0.len()
                    invariant
                        ch == compound@.map_values(|e: (Seq<char>, usize)| e.1),
                        m0 == slab_nodes(old(self).nodes),
                        self.root_index == root,
                        self.root_name == name,
                        self.parents@ == par,
                        self.depths@ == dep,
                        self.orphans@ == orph,
                        forest_wf(m0, root, par, dep, orph, det),
                        det.contains(idx),
                        removal_progress(slab_nodes(self.nodes), m0, root, par, dep, orph, det, idx, ch, i as int),
                    decreases compound.0.len() - i,
                {
                    proof {
                        let cur = slab_nodes(self.nodes);
                        assert(cur.dom().subset_of(m0.dom().remove(idx)));
                        vstd::set_lib::lemma_len_subset(cur.dom(), m0.dom().remove(idx));
                        assert(m0.dom().remove(idx).len() == m0.dom().len() - 1);
                        assert(ch.skip(i as int)[0] == ch[i as int]);
                    }
                    let ghost cur = slab_nodes(self.nodes);
                    let child = compound.0[i].1;
                    self.remove_node(child, Ghost(det.remove(idx).union(ch.skip(i as int).to_set())));
                    proof {
                        lemma_removal_step(cur, slab_nodes(self.nodes), m0, root, par, dep, orph, det, idx, ch, i as int);
                    }
                    i += 1;
                }
                proof {
                    lemma_removal_done(slab_nodes(self.nodes), m0, root, par, dep, orph, det, idx, ch);
                }
            },
            _ => {
                proof {
                    lemma_removal_done(slab_nodes(self.nodes), m0, root, par, dep, orph, det, idx, ch);
                }
            },
        }
    }
}

}

verus! {

// ---------------------------------------------------------------------------
// Changing one node's children
// ---------------------------------------------------------------------------

/// Moving one element of a list without duplicates keeps its elements and leaves no
/// duplicates.
proof fn lemma_move_keeps_elements(oc: Seq<usize>, from: int, to: int)
    requires
        oc.no_duplicates(),
        0 <= from < oc.len(),
        0 <= to < oc.len(),
    ensures
        ({
            let nc = oc.remove(from).insert(to, oc[from]);
            &&& nc.no_duplicates()
            &&& forall|x: usize| nc.contains(x) <==> oc.contains(x)
        }),
{
    let mid = oc.remove(from);
    let nc = mid.insert(to, oc[from]);
    assert forall|x: usize| nc.contains(x) <==> oc.contains(x) by {
        if nc.contains(x) {
            let j = choose|j: int| 0 <= j < nc.len() && nc[j] == x;
            if j == to {
                assert(oc[from] == x);
            } else {
                let j1 = if j < to { j } else { j - 1 };
                assert(mid[j1] == x);
                let j2 = if j1 < from { j1 } else { j1 + 1 };
                assert(oc[j2] == x);
            }
        }
        if oc.contains(x) {
            let j = choose|j: int| 0 <= j < oc.len() && oc[j] == x;
            if j == from {
                assert(nc[to] == x);
            } else {
                let j1 = if j < from { j } else { j - 1 };
                assert(mid[j1] == x);
                let j2 = if j1 < to { j1 } else { j1 + 1 };
                assert(nc[j2] == x);
            }
        }
    }
    assert forall|a: int, b: int| 0 <= a < nc.len() && 0 <= b < nc.len() && a != b implies nc[a] != nc[b] by {
        let pa = if a == to { from } else {
            let a1 = if a < to { a } else { a - 1 };
            if a1 < from { a1 } else { a1 + 1 }
        };
        let pb = if b == to { from } else {
            let b1 = if b < to { b } else { b - 1 };
            if b1 < from { b1 } else { b1 + 1 }
        };
        assert(nc[a] == oc[pa]);
        assert(nc[b] == oc[pb]);
    }
}

/// Replacing the children of `p` by a list with the same elements keeps the forest.
proof fn lemma_same_children(
    m: Map<usize, NBTNode>,
    root: usize,
    par: Map<usize, usize>,
    dep: Map<usize, nat>,
    orph: Set<usize>,
    p: usize,
    newp: NBTNode,
)
    requires
        forest_wf(m, root, par, dep, orph, Set::empty()),
        m.dom().contains(p),
        p == root ==> newp is Compound,
        node_sorted(newp),
        children(newp).no_duplicates(),
        forall|x: usize| children(newp).contains(x) <==> children(m[p]).contains(x),
    ensures
        forest_wf(m.insert(p, newp), root, par, dep, orph, Set::empty()),
{
    let m2 = m.insert(p, newp);
    let oc = children(m[p]);
    let nc = children(newp);
    assert forall|q: usize, i: int| m2.dom().contains(q) && 0 <= i < children(m2[q]).len() implies child_linked(
        m2, root, par, dep, orph, Set::empty(), q, #[trigger] children(m2[q])[i]) by {
        if q == p {
            assert(nc.contains(nc[i]));
            let j = choose|j: int| 0 <= j < oc.len() && oc[j] == nc[i];
            assert(child_linked(m, root, par, dep, orph, Set::empty(), p, oc[j]));
        } else {
            assert(child_linked(m, root, par, dep, orph, Set::empty(), q, children(m[q])[i]));
        }
    }
    assert forall|q: usize| #[trigger] m2.dom().contains(q) implies children(m2[q]).no_duplicates() && node_sorted(m2[q]) by {
        if q != p {
            assert(m.dom().contains(q));
        }
    }
    assert forall|n: usize| #[trigger] m2.dom().contains(n) && n != root && !orph.contains(n) && !Set::<usize>::empty().contains(n) implies {
        &&& par.dom().contains(n)
        &&& m2.dom().contains(par[n])
        &&& children(m2[par[n]]).contains(n)
    } by {
        assert(m.dom().contains(n));
    }
}

/// Taking child `i` out of `p`'s children leaves that child detached.
proof fn lemma_detach_child(
    m: Map<usize, NBTNode>,
    root: usize,
    par: Map<usize, usize>,
    dep: Map<usize, nat>,
    orph: Set<usize>,
    p: usize,
    i: int,
    newp: NBTNode,
)
    requires
        forest_wf(m, root, par, dep, orph, Set::empty()),
        m.dom().contains(p),
        0 <= i < children(m[p]).len(),
        p == root ==> newp is Compound,
        node_sorted(newp),
        children(newp) == children(m[p]).remove(i),
    ensures
        forest_wf(m.insert(p, newp), root, par, dep, orph, set![children(m[p])[i]]),
{
    let m2 = m.insert(p, newp);
    let oc = children(m[p]);
    let nc = children(newp);
    let c = oc[i];
    let det = set![c];
    assert(child_linked(m, root, par, dep, orph, Set::empty(), p, oc[i]));
    assert forall|x: usize| nc.contains(x) <==> oc.contains(x) && x != c by {
        if nc.contains(x) {
            let j = choose|j: int| 0 <= j < nc.len() && nc[j] == x;
            if j < i {
                assert(oc[j] == x);
            } else {
                assert(oc[j + 1] == x);
            }
        }
        if oc.contains(x) && x != c {
            let j = choose|j: int| 0 <= j < oc.len() && oc[j] == x;
            if j < i {
                assert(nc[j] == x);
            } else {
                assert(j != i);
                assert(nc[j - 1] == x);
            }
        }
    }
    assert(nc.no_duplicates()) by {
        assert forall|a: int, b: int| 0 <= a < nc.len() && 0 <= b < nc.len() && a != b implies nc[a] != nc[b] by {
            let a1 = if a < i { a } else { a + 1 };
            let b1 = if b < i { b } else { b + 1 };
            assert(nc[a] == oc[a1]);
            assert(nc[b] == oc[b1]);
        }
    }
    assert forall|o: usize| #[trigger] orph.contains(o) implies m2.dom().contains(o) && !par.dom().contains(o) && o != root && !det.contains(o) by {
    }
    assert forall|q: usize, k: int| m2.dom().contains(q) && 0 <= k < children(m2[q]).len() implies child_linked(
        m2, root, par, dep, orph, det, q, #[trigger] children(m2[q])[k]) by {
        if q == p {
            assert(nc.contains(nc[k]));
            let j = choose|j: int| 0 <= j < oc.len() && oc[j] == nc[k];
            assert(child_linked(m, root, par, dep, orph, Set::empty(), p, oc[j]));
        } else {
            assert(child_linked(m, root, par, dep, orph, Set::empty(), q, children(m[q])[k]));
        }
    }
    assert forall|q: usize| #[trigger] m2.dom().contains(q) implies children(m2[q]).no_duplicates() && node_sorted(m2[q]) by {
        if q != p {
            assert(m.dom().contains(q));
        }
    }
    assert forall|n: usize| #[trigger] m2.dom().contains(n) && n != root && !orph.contains(n) && !det.contains(n) implies {
        &&& par.dom().contains(n)
        &&& m2.dom().contains(par[n])
        &&& children(m2[par[n]]).contains(n)
    } by {
        assert(m.dom().contains(n));
    }
}

/// Adding the fresh leaf `k` under `p`, either inserted among `p`'s children or in place
/// of an old child that is left behind as an orphan.
proof fn lemma_link_child(
    m: Map<usize, NBTNode>,
    root: usize,
    par: Map<usize, usize>,
    dep: Map<usize, nat>,
    orph: Set<usize>,
    p: usize,
    k: usize,
    node: NBTNode,
    newp: NBTNode,
    pos: int,
    replaced: bool,
)
    requires
        forest_wf(m, root, par, dep, orph, Set::empty()),
        m.dom().contains(p),
        !m.dom().contains(k),
        children(node).len() == 0,
        node_sorted(node),
        node_sorted(newp),
        p == root ==> newp is Compound,
        replaced ==> 0 <= pos < children(m[p]).len() && children(newp) == children(m[p]).update(pos, k),
        !replaced ==> 0 <= pos <= children(m[p]).len() && children(newp) == children(m[p]).insert(pos, k),
    ensures
        ({
            let o = children(m[p])[pos];
            let par2 = if replaced { par.remove(o).insert(k, p) } else { par.insert(k, p) };
            let orph2 = if replaced { orph.insert(o) } else { orph };
            forest_wf(
                m.insert(k, node).insert(p, newp),
                root,
                par2,
                dep.insert(k, dep[p] + 1),
                orph2,
                Set::empty(),
            )
        }),
{
    let oc = children(m[p]);
    let nc = children(newp);
    let o = oc[pos];
    let par2 = if replaced { par.remove(o).insert(k, p) } else { par.insert(k, p) };
    let orph2 = if replaced { orph.insert(o) } else { orph };
    let dep2 = dep.insert(k, dep[p] + 1);
    let m2 = m.insert(k, node).insert(p, newp);
    let det = Set::<usize>::empty();
    if replaced {
        assert(child_linked(m, root, par, dep, orph, det, p, oc[pos]));
    }
    assert(!oc.contains(k)) by {
        if oc.contains(k) {
            let j = choose|j: int| 0 <= j < oc.len() && oc[j] == k;
            assert(child_linked(m, root, par, dep, orph, det, p, oc[j]));
        }
    }
    // Elements of the new child list.
    assert forall|x: usize| nc.contains(x) <==> x == k || (oc.contains(x) && !(replaced && x == o)) by {
        if nc.contains(x) {
            let j = choose|j: int| 0 <= j < nc.len() && nc[j] == x;
            if replaced {
                if j != pos {
                    assert(oc[j] == x);
                    assert(oc.no_duplicates());
                }
            } else {
                if j < pos {
                    assert(oc[j] == x);
                } else if j > pos {
                    assert(oc[j - 1] == x);
                }
            }
        }
        if x == k {
            assert(nc[pos] == k);
        } else if oc.contains(x) && !(replaced && x == o) {
            let j = choose|j: int| 0 <= j < oc.len() && oc[j] == x;
            if replaced {
                assert(j != pos);
                assert(nc[j] == x);
            } else if j < pos {
                assert(nc[j] == x);
            } else {
                assert(nc[j + 1] == x);
            }
        }
    }
    assert(nc.no_duplicates()) by {
        assert forall|a: int, b: int| 0 <= a < nc.len() && 0 <= b < nc.len() && a != b implies nc[a] != nc[b] by {
            if replaced {
                if a != pos && b != pos {
                    assert(nc[a] == oc[a] && nc[b] == oc[b]);
                } else if a == pos {
                    assert(oc.contains(nc[b]));
                } else {
                    assert(oc.contains(nc[a]));
                }
            } else {
                let a1 = if a < pos { a } else { a - 1 };
                let b1 = if b < pos { b } else { b - 1 };
                if a != pos && b != pos {
                    assert(nc[a] == oc[a1]);
                    assert(nc[b] == oc[b1]);
                } else if a == pos {
                    assert(nc[b] == oc[b1]);
                    assert(oc.contains(nc[b]));
                } else {
                    assert(nc[a] == oc[a1]);
                    assert(oc.contains(nc[a]));
                }
            }
        }
    }
    assert forall|x: usize| #[trigger] orph2.contains(x) implies m2.dom().contains(x) && !par2.dom().contains(x) && x != root && !det.contains(x) by {
    }
    assert forall|q: usize, i: int| m2.dom().contains(q) && 0 <= i < children(m2[q]).len() implies child_linked(
        m2, root, par2, dep2, orph2, det, q, #[trigger] children(m2[q])[i]) by {
        if q == p {
            let x = nc[i];
            assert(nc.contains(x));
            if x != k {
                let j = choose|j: int| 0 <= j < oc.len() && oc[j] == x;
                assert(child_linked(m, root, par, dep, orph, det, p, oc[j]));
            }
        } else if q == k {
        } else {
            let x = children(m[q])[i];
            assert(child_linked(m, root, par, dep, orph, det, q, x));
            if replaced && x == o {
                assert(par[x] == p);
            }
        }
    }
    assert forall|q: usize| #[trigger] m2.dom().contains(q) implies children(m2[q]).no_duplicates() && node_sorted(m2[q]) by {
        if q != p && q != k {
            assert(m.dom().contains(q));
        }
        if q == k {
            assert(children(node) =~= Seq::<usize>::empty());
        }
    }
    assert forall|n: usize| #[trigger] m2.dom().contains(n) && n != root && !orph2.contains(n) && !det.contains(n) implies {
        &&& par2.dom().contains(n)
        &&& m2.dom().contains(par2[n])
        &&& children(m2[par2[n]]).contains(n)
    } by {
        if n == k {
            assert(nc.contains(k));
        } else {
            assert(m.dom().contains(n));
            if par[n] == p {
                assert(oc.contains(n));
                assert(nc.contains(n));
            }
        }
    }
}

}

verus! {

/// The entries of a compound node (none for any other node).
pub open spec fn compound_entries(node: NBTNode) -> Seq<(Seq<char>, usize)> {
    match node {
        NBTNode::Compound(c) => c@,
        _ => Seq::empty(),
    }
}

/// `new` is `old` with the fresh node `k` holding `node`, stored under `key` in the
/// compound `parent` (an entry that held `key` now holds `k`).
pub open spec fn put_in_compound(
    old: NBT,
    new: NBT,
    parent: usize,
    key: Seq<char>,
    node: NBTNode,
    k: usize,
) -> bool {
    &&& !old.node_map().dom().contains(k)
    &&& new.root() == old.root()
    &&& new.name() == old.name()
    &&& exists|c: NBTCompound|
        #[trigger] new.node_map() == old.node_map().insert(k, node).insert(
            parent,
            NBTNode::Compound(c),
        ) && entries_put(compound_entries(old.node_map()[parent]), c@, key, k)
}

/// `new` is `old` with the fresh node `k` holding `node` appended to the list `list`.
pub open spec fn put_in_list(old: NBT, new: NBT, list: usize, node: NBTNode, k: usize) -> bool {
    &&& !old.node_map().dom().contains(k)
    &&& new.root() == old.root()
    &&& new.name() == old.name()
    &&& old.node_map()[list] matches NBTNode::List { type_id, children: old_children }
    &&& exists|c: Vec<usize>|
        #[trigger] new.node_map() == old.node_map().insert(k, node).insert(
            list,
            NBTNode::List { type_id, children: c },
        ) && c@ == old_children@.push(k)
}

impl NBT {
    /// The nodes under `n`, `n` included.
    pub closed spec fn subtree(&self, n: usize) -> Set<usize> {
        slab_nodes(self.nodes).dom().filter(|x: usize| in_subtree(self.parents@, self.depths@, x, n))
    }

    /// The node under slab key `idx`.
    fn node(&self, idx: usize) -> (r: &NBTNode)
        requires
            self.node_map().dom().contains(idx),
        ensures
            *r == self.node_map()[idx],
    {
        slab_get(&self.nodes, idx)
    }

    /// Stores the new leaf `node` under `key` in the compound `parent` and returns its key.
    fn insert_child(&mut self, parent: usize, key: &str, node: NBTNode) -> (k: usize)
        requires
            old(self).wf(),
            old(self).node_map().dom().contains(parent),
            old(self).node_map()[parent] is Compound,
            children(node).len() == 0,
            node_sorted(node),
        ensures
            final(self).wf(),
            put_in_compound(*old(self), *final(self), parent, key@, node, k),
    {
        let ghost m = slab_nodes(self.nodes);
        let ghost root = self.root_index;
        let ghost par = self.parents@;
        let ghost dep = self.depths@;
        let ghost orph = self.orphans@;
        let k = slab_insert(&mut self.nodes, node);
        let taken = slab_replace(&mut self.nodes, parent, NBTNode::Byte(0));
        let mut compound = match taken {
            NBTNode::Compound(c) => c,
            _ => unreached(),
        };
        let ghost before = compound@;
        proof {
            assert(m.dom().contains(parent));
            assert(node_sorted(m[parent]));
        }
        compound.insert(key, k);
        let ghost after = compound@;
        let ghost replaced = entries_find(before, key@) is Some;
        let ghost pos: int = if replaced {
            choose|i: int|
                0 <= i < before.len() && before[i] == (key@, entries_find(before, key@).unwrap())
                    && after == before.update(i, (key@, k))
        } else {
            choose|i: int| 0 <= i <= before.len() && after == before.insert(i, (key@, k))
        };
        let ghost o = children(m[parent])[pos];
        let ghost newp = NBTNode::Compound(compound);
        slab_replace(&mut self.nodes, parent, NBTNode::Compound(compound));
        proof {
            let oc = children(m[parent]);
            if replaced {
                assert(children(newp) =~= oc.update(pos, k));
            } else {
                assert(children(newp) =~= oc.insert(pos, k));
            }
            lemma_link_child(m, root, par, dep, orph, parent, k, node, newp, pos, replaced);
            assert(slab_nodes(self.nodes) =~= m.insert(k, node).insert(parent, newp));
        }
        self.parents = Ghost(if replaced { par.remove(o).insert(k, parent) } else { par.insert(k, parent) });
        self.depths = Ghost(dep.insert(k, dep[parent] + 1));
        self.orphans = Ghost(if replaced { orph.insert(o) } else { orph });
        proof {
            assert(self.node_map() == m.insert(k, node).insert(parent, newp));
        }
        k
    }

    /// Appends the new leaf `node` to the list `list` and returns its key.
    fn push_child(&mut self, list: usize, node: NBTNode) -> (k: usize)
        requires
            old(self).wf(),
            old(self).node_map().dom().contains(list),
            old(self).node_map()[list] is List,
            children(node).len() == 0,
            node_sorted(node),
        ensures
            final(self).wf(),
            put_in_list(*old(self), *final(self), list, node, k),
    {
        let ghost m = slab_nodes(self.nodes);
        let ghost root = self.root_index;
        let ghost par = self.parents@;
        let ghost dep = self.depths@;
        let ghost orph = self.orphans@;
        let k = slab_insert(&mut self.nodes, node);
        let taken = slab_replace(&mut self.nodes, list, NBTNode::Byte(0));
        let (type_id, mut kids) = match taken {
            NBTNode::List { type_id, children } => (type_id, children),
            _ => unreached(),
        };
        let ghost before = kids@;
        kids.push(k);
        let ghost newp = NBTNode::List { type_id, children: kids };
        slab_replace(&mut self.nodes, list, NBTNode::List { type_id, children: kids });
        proof {
            let oc = children(m[list]);
            assert(oc == before);
            assert(children(newp) =~= oc.insert(oc.len() as int, k));
            assert(list != root);
            lemma_link_child(m, root, par, dep, orph, list, k, node, newp, oc.len() as int, false);
            assert(slab_nodes(self.nodes) =~= m.insert(k, node).insert(list, newp));
        }
        self.parents = Ghost(par.insert(k, list));
        self.depths = Ghost(dep.insert(k, dep[list] + 1));
        proof {
            assert(self.node_map() == m.insert(k, node).insert(list, newp));
        }
        k
    }

    /// Removes entry `index` of the list `list` with the subtree under it; `false` when
    /// there is no such entry.
    fn remove_list_entry(&mut self, list: usize, index: usize) -> (r: bool)
        requires
            old(self).wf(),
            old(self).node_map().dom().contains(list),
            old(self).node_map()[list] is List,
        ensures
            final(self).wf(),
            final(self).root() == old(self).root(),
            final(self).name() == old(self).name(),
            r == (index < children(old(self).node_map()[list]).len()),
            !r ==> final(self).node_map() == old(self).node_map(),
            r ==> (old(self).node_map()[list] matches NBTNode::List { type_id, children: old_children }
                && exists|c: Vec<usize>|
                #[trigger] final(self).node_map() == old(self).node_map().insert(
                    list,
                    NBTNode::List { type_id, children: c },
                ).remove_keys(old(self).subtree(old_children@[index as int]))
                    && c@ == old_children@.remove(index as int)),
    {
        let ghost m = slab_nodes(self.nodes);
        let ghost root = self.root_index;
        let ghost par = self.parents@;
        let ghost dep = self.depths@;
        let ghost orph = self.orphans@;
        let len = match self.node(list) {
            NBTNode::List { type_id: _, children } => children.len(),
            _ => unreached(),
        };
        if index >= len {
            return false;
        }
        let taken = slab_replace(&mut self.nodes, list, NBTNode::Byte(0));
        let (type_id, mut kids) = match taken {
            NBTNode::List { type_id, children } => (type_id, children),
            _ => unreached(),
        };
        let ghost before = kids@;
        let idx = kids.remove(index);
        let ghost newp = NBTNode::List { type_id, children: kids };
        slab_replace(&mut self.nodes, list, NBTNode::List { type_id, children: kids });
        let ghost m1 = slab_nodes(self.nodes);
        proof {
            assert(list != root);
            lemma_detach_child(m, root, par, dep, orph, list, index as int, newp);
            assert(m1 =~= m.insert(list, newp));
        }
        let ghost det = set![idx];
        self.remove_node(idx, Ghost(det));
        proof {
            assert(set![idx].remove(idx) =~= Set::<usize>::empty());
            let old_subtree = m.dom().filter(|x: usize| in_subtree(par, dep, x, idx));
            assert(slab_nodes(self.nodes) =~= m.insert(list, newp).remove_keys(old_subtree));
        }
        true
    }

    /// Moves entry `from` of the list `list` to position `to`; `false` (and nothing
    /// moves) when either position is past the end or both are the same.
    fn move_list_entry(&mut self, list: usize, from: usize, to: usize) -> (r: bool)
        requires
            old(self).wf(),
            old(self).node_map().dom().contains(list),
            old(self).node_map()[list] is List,
        ensures
            final(self).wf(),
            final(self).root() == old(self).root(),
            final(self).name() == old(self).name(),
            r == (from < children(old(self).node_map()[list]).len() && to < children(
                old(self).node_map()[list],
            ).len() && from != to),
            !r ==> final(self).node_map() == old(self).node_map(),
            r ==> (old(self).node_map()[list] matches NBTNode::List { type_id, children: old_children }
                && exists|c: Vec<usize>|
                #[trigger] final(self).node_map() == old(self).node_map().insert(
                    list,
                    NBTNode::List { type_id, children: c },
                ) && c@ == old_children@.remove(from as int).insert(
                    to as int,
                    old_children@[from as int],
                )),
    {
        let ghost m = slab_nodes(self.nodes);
        let ghost root = self.root_index;
        let ghost par = self.parents@;
        let ghost dep = self.depths@;
        let ghost orph = self.orphans@;
        let len = match self.node(list) {
            NBTNode::List { type_id: _, children } => children.len(),
            _ => unreached(),
        };
        if from >= len || to >= len || from == to {
            return false;
        }
        let taken = slab_replace(&mut self.nodes, list, NBTNode::Byte(0));
        let (type_id, mut kids) = match taken {
            NBTNode::List { type_id, children } => (type_id, children),
            _ => unreached(),
        };
        let ghost before = kids@;
        let entry = kids.remove(from);
        let mut insert_at = to;
        if insert_at > kids.len() {
            insert_at = kids.len();
        }
        kids.insert(insert_at, entry);
        let ghost newp = NBTNode::List { type_id, children: kids };
        slab_replace(&mut self.nodes, list, NBTNode::List { type_id, children: kids });
        proof {
            assert(list != root);
            lemma_move_keeps_elements(before, from as int, to as int);
            lemma_same_children(m, root, par, dep, orph, list, newp);
            assert(slab_nodes(self.nodes) =~= m.insert(list, newp));
        }
        true
    }
}

}

verus! {

impl NBT {
    /// The entries of the compound node `idx`.
    fn compound_node(&self, idx: usize) -> (r: &NBTCompound)
        requires
            self.wf(),
            self.node_map().dom().contains(idx),
            self.node_map()[idx] is Compound,
        ensures
            r@ == compound_entries(self.node_map()[idx]),
            keys_sorted(r@),
    {
        match slab_get(&self.nodes, idx) {
            NBTNode::Compound(compound) => compound,
            _ => unreached(),
        }
    }

    /// The element type and children of the list node `idx`.
    fn list_node(&self, idx: usize) -> (r: (TagType, &Vec<usize>))
        requires
            self.node_map().dom().contains(idx),
            self.node_map()[idx] is List,
        ensures
            self.node_map()[idx] == (NBTNode::List { type_id: r.0, children: *r.1 }),
    {
        match slab_get(&self.nodes, idx) {
            NBTNode::List { type_id, children } => (*type_id, children),
            _ => unreached(),
        }
    }

    /// A node found under a key of a compound is live.
    proof fn lemma_found_child(&self, p: usize, key: Seq<char>)
        requires
            self.wf(),
            self.node_map().dom().contains(p),
        ensures
            entries_find(compound_entries(self.node_map()[p]), key) matches Some(c)
                ==> self.node_map().dom().contains(c),
    {
        let m = self.node_map();
        let es = compound_entries(m[p]);
        lemma_entries_find_absent(es, key);
        if entries_find(es, key) is Some {
            let c = entries_find(es, key).unwrap();
            let i = choose|i: int| 0 <= i < es.len() && #[trigger] es[i] == (key, c);
            assert(children(m[p])[i] == c);
            assert(child_linked(
                m,
                self.root_index,
                self.parents@,
                self.depths@,
                self.orphans@,
                Set::empty(),
                p,
                children(m[p])[i],
            ));
        }
    }

    /// Every child of a live node is live.
    proof fn lemma_child_live(&self, p: usize, i: int)
        requires
            self.wf(),
            self.node_map().dom().contains(p),
            0 <= i < children(self.node_map()[p]).len(),
        ensures
            self.node_map().dom().contains(children(self.node_map()[p])[i]),
    {
        assert(child_linked(
            self.node_map(),
            self.root_index,
            self.parents@,
            self.depths@,
            self.orphans@,
            Set::empty(),
            p,
            children(self.node_map()[p])[i],
        ));
    }

    /// A node does not lie under any of its children.
    proof fn lemma_parent_outside_child(&self, p: usize, i: int)
        requires
            self.wf(),
            self.node_map().dom().contains(p),
            0 <= i < children(self.node_map()[p]).len(),
        ensures
            !self.subtree(children(self.node_map()[p])[i]).contains(p),
    {
        let c = children(self.node_map()[p])[i];
        assert(child_linked(
            self.node_map(),
            self.root_index,
            self.parents@,
            self.depths@,
            self.orphans@,
            Set::empty(),
            p,
            c,
        ));
        if in_subtree(self.parents@, self.depths@, p, c) {
            lemma_subtree_depth(self.parents@, self.depths@, p, c);
        }
    }
}

// ---------------------------------------------------------------------------
// References into a document
// ---------------------------------------------------------------------------

/// A read-only view of one tag of a document.
#[derive(Copy, Clone)]
pub enum NBTRef<'a> {
    Byte(&'a i8),
    Short(&'a i16),
    Int(&'a i32),
    Long(&'a i64),
    Float(&'a u32),
    Double(&'a u64),
    ByteArray(&'a Vec<i8>),
    String(&'a String),
    List(ListRef<'a>),
    Compound(CompoundRef<'a>),
    IntArray(&'a Vec<i32>),
    LongArray(&'a Vec<i64>),
}

/// Whether `r` views node `idx` of `doc`.
pub open spec fn refers_to(r: NBTRef, doc: NBT, idx: usize) -> bool {
    &&& doc.node_map().dom().contains(idx)
    &&& match r {
        NBTRef::Byte(v) => doc.node_map()[idx] == NBTNode::Byte(*v),
        NBTRef::Short(v) => doc.node_map()[idx] == NBTNode::Short(*v),
        NBTRef::Int(v) => doc.node_map()[idx] == NBTNode::Int(*v),
        NBTRef::Long(v) => doc.node_map()[idx] == NBTNode::Long(*v),
        NBTRef::Float(v) => doc.node_map()[idx] == NBTNode::Float(*v),
        NBTRef::Double(v) => doc.node_map()[idx] == NBTNode::Double(*v),
        NBTRef::ByteArray(v) => doc.node_map()[idx] == NBTNode::ByteArray(*v),
        NBTRef::String(v) => doc.node_map()[idx] == NBTNode::String(*v),
        NBTRef::List(l) => doc.node_map()[idx] is List && l.doc() == doc && l.node_index() == idx,
        NBTRef::Compound(c) => doc.node_map()[idx] is Compound && c.doc() == doc && c.node_index()
            == idx,
        NBTRef::IntArray(v) => doc.node_map()[idx] == NBTNode::IntArray(*v),
        NBTRef::LongArray(v) => doc.node_map()[idx] == NBTNode::LongArray(*v),
    }
}

impl<'a> NBTRef<'a> {
    /// The compound this refers to, if it refers to a compound.
    pub fn as_compound(self) -> (r: Option<CompoundRef<'a>>)
        ensures
            r == (match self {
                NBTRef::Compound(c) => Some(c),
                _ => None,
            }),
    {
        match self {
            NBTRef::Compound(compound) => Some(compound),
            _ => None,
        }
    }
}

impl NBT {
    /// A view of node `node_idx`.
    fn get_reference(&self, node_idx: usize) -> (r: NBTRef<'_>)
        requires
            self.wf(),
            self.node_map().dom().contains(node_idx),
        ensures
            refers_to(r, *self, node_idx),
    {
        match slab_get(&self.nodes, node_idx) {
            NBTNode::Byte(value) => NBTRef::Byte(value),
            NBTNode::Short(value) => NBTRef::Short(value),
            NBTNode::Int(value) => NBTRef::Int(value),
            NBTNode::Long(value) => NBTRef::Long(value),
            NBTNode::Float(value) => NBTRef::Float(value),
            NBTNode::Double(value) => NBTRef::Double(value),
            NBTNode::ByteArray(value) => NBTRef::ByteArray(value),
            NBTNode::String(value) => NBTRef::String(value),
            NBTNode::List { type_id: _, children: _ } => NBTRef::List(ListRef { nbt: self, node_idx }),
            NBTNode::Compound(_) => NBTRef::Compound(CompoundRef { nbt: self, node_idx }),
            NBTNode::IntArray(value) => NBTRef::IntArray(value),
            NBTNode::LongArray(value) => NBTRef::LongArray(value),
        }
    }

    /// A view of the root tag.
    pub fn as_reference(&self) -> (r: NBTRef<'_>)
        requires
            self.wf(),
        ensures
            refers_to(r, *self, self.root()),
    {
        self.get_reference(self.root_index)
    }

    /// The root compound.
    pub fn as_compound(&self) -> (r: Option<CompoundRef<'_>>)
        requires
            self.wf(),
        ensures
            r matches Some(c) && c.doc() == *self && c.node_index() == self.root(),
    {
        match slab_get(&self.nodes, self.root_index) {
            NBTNode::Compound(_) => Some(CompoundRef { nbt: self, node_idx: self.root_index }),
            _ => None,
        }
    }

    /// The root compound, for changing it.
    pub fn as_compound_mut(&mut self) -> (r: Option<CompoundRefMut<'_>>)
        requires
            old(self).wf(),
        ensures
            r matches Some(c) && c.valid() && *c.target() == *old(self) && c.node_index() == old(
                self,
            ).root() && *final(self) == *final(c.target()),
    {
        let node_idx = self.root_index;
        match slab_get(&self.nodes, self.root_index) {
            NBTNode::Compound(_) => Some(CompoundRefMut { nbt: self, node_idx }),
            _ => None,
        }
    }
}

/// A read-only view of a compound tag.
#[derive(Copy, Clone)]
pub struct CompoundRef<'a> {
    pub(crate) nbt: &'a NBT,
    pub(crate) node_idx: usize,
}

impl<'a> CompoundRef<'a> {
    #[verifier::type_invariant]
    spec fn inv(self) -> bool {
        &&& self.nbt.wf()
        &&& self.nbt.node_map().dom().contains(self.node_idx)
        &&& self.nbt.node_map()[self.node_idx] is Compound
    }

    /// The document this views.
    pub closed spec fn doc(&self) -> NBT {
        *self.nbt
    }

    /// The slab key of the compound.
    pub closed spec fn node_index(&self) -> usize {
        self.node_idx
    }

    /// The entries of the compound: each key with the slab key of its tag.
    pub open spec fn entries_view(&self) -> Seq<(Seq<char>, usize)> {
        compound_entries(self.doc().node_map()[self.node_index()])
    }

    /// The tag stored under `key`, if any.
    pub open spec fn child(&self, key: Seq<char>) -> Option<NBTNode> {
        match entries_find(self.entries_view(), key) {
            Some(c) => Some(self.doc().node_map()[c]),
            None => None,
        }
    }

    fn find_idx(&self, key: &str) -> (r: Option<usize>)
        ensures
            r == entries_find(self.entries_view(), key@),
            r matches Some(c) ==> self.doc().node_map().dom().contains(c),
    {
        proof {
            use_type_invariant(self);
            self.nbt.lemma_found_child(self.node_idx, key@);
        }
        self.nbt.compound_node(self.node_idx).find(key)
    }

    fn get_node(&self, idx: usize) -> (r: &NBTNode)
        requires
            self.doc().node_map().dom().contains(idx),
        ensures
            *r == self.doc().node_map()[idx],
    {
        self.nbt.node(idx)
    }

    /// Each entry's key with a view of its tag, in key order.
    pub fn entries(&self) -> (r: Vec<(&'a str, NBTRef<'a>)>)
        ensures
            r@.len() == self.entries_view().len(),
            forall|i: int|
                0 <= i < r@.len() ==> r@[i].0@ == self.entries_view()[i].0 && refers_to(
                    r@[i].1,
                    self.doc(),
                    self.entries_view()[i].1,
                ),
    {
        proof {
            use_type_invariant(self);
        }
        let nbt: &'a NBT = self.nbt;
        let compound = nbt.compound_node(self.node_idx);
        let mut out: Vec<(&'a str, NBTRef<'a>)> = Vec::new();
        let mut i: usize = 0;
        while i < compound.0.len()
            invariant
                nbt.wf(),
                nbt == self.doc(),
                compound@ == self.entries_view(),
                nbt.node_map().dom().contains(self.node_index()),
                i <= compound@.len(),
                out@.len() == i,
                forall|j: int|
                    0 <= j < i ==> out@[j].0@ == self.entries_view()[j].0 && refers_to(
                        out@[j].1,
                        self.doc(),
                        self.entries_view()[j].1,
                    ),
            decreases compound@.len() - i,
        {
            proof {
                nbt.lemma_child_live(self.node_index(), i as int);
                assert(children(nbt.node_map()[self.node_index()])[i as int] == compound@[i as int].1);
            }
            let entry = &compound.0[i];
            let value = nbt.get_reference(entry.1);
            out.push((entry.0.as_str(), value));
            i += 1;
        }
        out
    }
}

}

verus! {

/// A numeric tag's value; floating-point values are given as their IEEE-754 bits.
#[derive(Debug, Copy, Clone, PartialEq, Eq, Structural)]
pub enum NumericValue {
    Byte(i8),
    Short(i16),
    Int(i32),
    Long(i64),
    Float(u32),
    Double(u64),
}

impl<'a> CompoundRef<'a> {
    /// The `Byte` tag under `key`, if the tag under `key` is one.
    pub fn find_byte(&self, key: &str) -> (r: Option<&i8>)
        ensures
            r is Some <==> self.child(key@) matches Some(NBTNode::Byte(_)),
            r matches Some(x) ==> self.child(key@) == Some(NBTNode::Byte(*x)),
    {
        let idx = match self.find_idx(key) {
            Some(idx) => idx,
            None => return None,
        };
        match self.get_node(idx) {
            NBTNode::Byte(value) => Some(value),
            _ => None,
        }
    }

    /// The `Short` tag under `key`, if the tag under `key` is one.
    pub fn find_short(&self, key: &str) -> (r: Option<&i16>)
        ensures
            r is Some <==> self.child(key@) matches Some(NBTNode::Short(_)),
            r matches Some(x) ==> self.child(key@) == Some(NBTNode::Short(*x)),
    {
        let idx = match self.find_idx(key) {
            Some(idx) => idx,
            None => return None,
        };
        match self.get_node(idx) {
            NBTNode::Short(value) => Some(value),
            _ => None,
        }
    }

    /// The `Int` tag under `key`, if the tag under `key` is one.
    pub fn find_int(&self, key: &str) -> (r: Option<&i32>)
        ensures
            r is Some <==> self.child(key@) matches Some(NBTNode::Int(_)),
            r matches Some(x) ==> self.child(key@) == Some(NBTNode::Int(*x)),
    {
        let idx = match self.find_idx(key) {
            Some(idx) => idx,
            None => return None,
        };
        match self.get_node(idx) {
            NBTNode::Int(value) => Some(value),
            _ => None,
        }
    }

    /// The `Long` tag under `key`, if the tag under `key` is one.
    pub fn find_long(&self, key: &str) -> (r: Option<&i64>)
        ensures
            r is Some <==> self.child(key@) matches Some(NBTNode::Long(_)),
            r matches Some(x) ==> self.child(key@) == Some(NBTNode::Long(*x)),
    {
        let idx = match self.find_idx(key) {
            Some(idx) => idx,
            None => return None,
        };
        match self.get_node(idx) {
            NBTNode::Long(value) => Some(value),
            _ => None,
        }
    }

    /// The `Float` tag under `key` (its IEEE-754 bits), if the tag under `key` is one.
    pub fn find_float(&self, key: &str) -> (r: Option<&u32>)
        ensures
            r is Some <==> self.child(key@) matches Some(NBTNode::Float(_)),
            r matches Some(x) ==> self.child(key@) == Some(NBTNode::Float(*x)),
    {
        let idx = match self.find_idx(key) {
            Some(idx) => idx,
            None => return None,
        };
        match self.get_node(idx) {
            NBTNode::Float(value) => Some(value),
            _ => None,
        }
    }

    /// The `Double` tag under `key` (its IEEE-754 bits), if the tag under `key` is one.
    pub fn find_double(&self, key: &str) -> (r: Option<&u64>)
        ensures
            r is Some <==> self.child(key@) matches Some(NBTNode::Double(_)),
            r matches Some(x) ==> self.child(key@) == Some(NBTNode::Double(*x)),
    {
        let idx = match self.find_idx(key) {
            Some(idx) => idx,
            None => return None,
        };
        match self.get_node(idx) {
            NBTNode::Double(value) => Some(value),
            _ => None,
        }
    }

    /// The `ByteArray` tag under `key`, if the tag under `key` is one.
    pub fn find_byte_array(&self, key: &str) -> (r: Option<&Vec<i8>>)
        ensures
            r is Some <==> self.child(key@) matches Some(NBTNode::ByteArray(_)),
            r matches Some(x) ==> self.child(key@) == Some(NBTNode::ByteArray(*x)),
    {
        let idx = match self.find_idx(key) {
            Some(idx) => idx,
            None => return None,
        };
        match self.get_node(idx) {
            NBTNode::ByteArray(value) => Some(value),
            _ => None,
        }
    }

    /// The `String` tag under `key`, if the tag under `key` is one.
    pub fn find_string(&self, key: &str) -> (r: Option<&String>)
        ensures
            r is Some <==> self.child(key@) matches Some(NBTNode::String(_)),
            r matches Some(x) ==> self.child(key@) == Some(NBTNode::String(*x)),
    {
        let idx = match self.find_idx(key) {
            Some(idx) => idx,
            None => return None,
        };
        match self.get_node(idx) {
            NBTNode::String(value) => Some(value),
            _ => None,
        }
    }

    /// The `IntArray` tag under `key`, if the tag under `key` is one.
    pub fn find_int_array(&self, key: &str) -> (r: Option<&Vec<i32>>)
        ensures
            r is Some <==> self.child(key@) matches Some(NBTNode::IntArray(_)),
            r matches Some(x) ==> self.child(key@) == Some(NBTNode::IntArray(*x)),
    {
        let idx = match self.find_idx(key) {
            Some(idx) => idx,
            None => return None,
        };
        match self.get_node(idx) {
            NBTNode::IntArray(value) => Some(value),
            _ => None,
        }
    }

    /// The `LongArray` tag under `key`, if the tag under `key` is one.
    pub fn find_long_array(&self, key: &str) -> (r: Option<&Vec<i64>>)
        ensures
            r is Some <==> self.child(key@) matches Some(NBTNode::LongArray(_)),
            r matches Some(x) ==> self.child(key@) == Some(NBTNode::LongArray(*x)),
    {
        let idx = match self.find_idx(key) {
            Some(idx) => idx,
            None => return None,
        };
        match self.get_node(idx) {
            NBTNode::LongArray(value) => Some(value),
            _ => None,
        }
    }

    /// The value of the numeric tag under `key`, if the tag under `key` is numeric.
    pub fn find_numeric(&self, key: &str) -> (r: Option<NumericValue>)
        ensures
            r == (match self.child(key@) {
                Some(NBTNode::Byte(v)) => Some(NumericValue::Byte(v)),
                Some(NBTNode::Short(v)) => Some(NumericValue::Short(v)),
                Some(NBTNode::Int(v)) => Some(NumericValue::Int(v)),
                Some(NBTNode::Long(v)) => Some(NumericValue::Long(v)),
                Some(NBTNode::Float(v)) => Some(NumericValue::Float(v)),
                Some(NBTNode::Double(v)) => Some(NumericValue::Double(v)),
                _ => None,
            }),
    {
        let idx = match self.find_idx(key) {
            Some(idx) => idx,
            None => return None,
        };
        match self.get_node(idx) {
            NBTNode::Byte(v) => Some(NumericValue::Byte(*v)),
            NBTNode::Short(v) => Some(NumericValue::Short(*v)),
            NBTNode::Int(v) => Some(NumericValue::Int(*v)),
            NBTNode::Long(v) => Some(NumericValue::Long(*v)),
            NBTNode::Float(v) => Some(NumericValue::Float(*v)),
            NBTNode::Double(v) => Some(NumericValue::Double(*v)),
            NBTNode::ByteArray(_) => None,
            NBTNode::String(_) => None,
            NBTNode::List { type_id: _, children: _ } => None,
            NBTNode::Compound(_) => None,
            NBTNode::IntArray(_) => None,
            NBTNode::LongArray(_) => None,
        }
    }

    /// The list under `key`, if the tag under `key` is a list of `type_id` tags.
    pub fn find_list(&self, key: &str, type_id: TagType) -> (r: Option<ListRef<'_>>)
        ensures
            r is Some <==> (self.child(key@) matches Some(NBTNode::List { type_id: t, .. }) && t
                == type_id),
            r matches Some(l) ==> l.doc() == self.doc() && Some(l.node_index()) == entries_find(
                self.entries_view(),
                key@,
            ),
    {
        let idx = match self.find_idx(key) {
            Some(idx) => idx,
            None => return None,
        };
        proof {
            use_type_invariant(self);
        }
        match self.get_node(idx) {
            NBTNode::List { type_id: list_type_id, children: _ } if *list_type_id == type_id => Some(
                ListRef { nbt: self.nbt, node_idx: idx },
            ),
            _ => None,
        }
    }

    /// The compound under `key`, if the tag under `key` is a compound.
    pub fn find_compound(&self, key: &str) -> (r: Option<CompoundRef<'_>>)
        ensures
            r is Some <==> self.child(key@) matches Some(NBTNode::Compound(_)),
            r matches Some(c) ==> c.doc() == self.doc() && Some(c.node_index()) == entries_find(
                self.entries_view(),
                key@,
            ),
    {
        let idx = match self.find_idx(key) {
            Some(idx) => idx,
            None => return None,
        };
        proof {
            use_type_invariant(self);
        }
        match self.get_node(idx) {
            NBTNode::Compound(_) => Some(CompoundRef { nbt: self.nbt, node_idx: idx }),
            _ => None,
        }
    }
}

/// A view of a compound tag through which it can be changed.
pub struct CompoundRefMut<'a> {
    pub(crate) nbt: &'a mut NBT,
    pub(crate) node_idx: usize,
}

impl<'a> CompoundRefMut<'a> {
    /// The document is well formed and the view's node is a live compound.
    pub closed spec fn valid(&self) -> bool {
        &&& self.nbt.wf()
        &&& self.nbt.node_map().dom().contains(self.node_idx)
        &&& self.nbt.node_map()[self.node_idx] is Compound
    }

    /// The document this changes.
    pub closed spec fn target(&self) -> &'a mut NBT {
        self.nbt
    }

    /// The document as it is now.
    pub open spec fn doc(&self) -> NBT {
        *self.target()
    }

    /// The slab key of the compound.
    pub closed spec fn node_index(&self) -> usize {
        self.node_idx
    }

    /// The entries of the compound: each key with the slab key of its tag.
    pub open spec fn entries_view(&self) -> Seq<(Seq<char>, usize)> {
        compound_entries(self.doc().node_map()[self.node_index()])
    }

    /// The tag stored under `key`, if any.
    pub open spec fn child(&self, key: Seq<char>) -> Option<NBTNode> {
        match entries_find(self.entries_view(), key) {
            Some(c) => Some(self.doc().node_map()[c]),
            None => None,
        }
    }

    fn find_idx(&self, key: &str) -> (r: Option<usize>)
        requires
            self.valid(),
        ensures
            r == entries_find(self.entries_view(), key@),
            r matches Some(c) ==> self.doc().node_map().dom().contains(c),
    {
        proof {
            self.nbt.lemma_found_child(self.node_idx, key@);
        }
        self.nbt.compound_node(self.node_idx).find(key)
    }

    fn get_node(&self, idx: usize) -> (r: &NBTNode)
        requires
            self.valid(),
            self.doc().node_map().dom().contains(idx),
        ensures
            *r == self.doc().node_map()[idx],
    {
        self.nbt.node(idx)
    }

    fn insert_node(&mut self, key: &str, node: NBTNode) -> (k: usize)
        requires
            old(self).valid(),
            children(node).len() == 0,
            node_sorted(node),
        ensures
            final(self).valid(),
            final(self).node_index() == old(self).node_index(),
            *final(final(self).target()) == *final(old(self).target()),
            put_in_compound(old(self).doc(), final(self).doc(), old(self).node_index(), key@, node, k),
    {
        self.nbt.insert_child(self.node_idx, key, node)
    }

    /// Each entry's key with a view of its tag, in key order.
    pub fn entries(&self) -> (r: Vec<(&str, NBTRef<'_>)>)
        requires
            self.valid(),
        ensures
            r@.len() == self.entries_view().len(),
            forall|i: int|
                0 <= i < r@.len() ==> r@[i].0@ == self.entries_view()[i].0 && refers_to(
                    r@[i].1,
                    self.doc(),
                    self.entries_view()[i].1,
                ),
    {
        let view = CompoundRef { nbt: &*self.nbt, node_idx: self.node_idx };
        view.entries()
    }

    /// Stores a `Byte` tag under `key`, in place of any tag that was there.
    pub fn insert_byte(&mut self, key: &str, value: i8)
        requires
            old(self).valid(),
        ensures
            final(self).valid(),
            final(self).node_index() == old(self).node_index(),
            *final(final(self).target()) == *final(old(self).target()),
            exists|k: usize|
                put_in_compound(
                    old(self).doc(),
                    final(self).doc(),
                    old(self).node_index(),
                    key@,
                    NBTNode::Byte(value),
                    k,
                ),
    {
        let ghost node = NBTNode::Byte(value);
        let k = self.insert_node(key, NBTNode::Byte(value));
        assert(put_in_compound(old(self).doc(), final(self).doc(), old(self).node_index(), key@, node, k));
    }

    /// Stores a `Short` tag under `key`, in place of any tag that was there.
    pub fn insert_short(&mut self, key: &str, value: i16)
        requires
            old(self).valid(),
        ensures
            final(self).valid(),
            final(self).node_index() == old(self).node_index(),
            *final(final(self).target()) == *final(old(self).target()),
            exists|k: usize|
                put_in_compound(
                    old(self).doc(),
                    final(self).doc(),
                    old(self).node_index(),
                    key@,
                    NBTNode::Short(value),
                    k,
                ),
    {
        let ghost node = NBTNode::Short(value);
        let k = self.insert_node(key, NBTNode::Short(value));
        assert(put_in_compound(old(self).doc(), final(self).doc(), old(self).node_index(), key@, node, k));
    }

    /// Stores a `Int` tag under `key`, in place of any tag that was there.
    pub fn insert_int(&mut self, key: &str, value: i32)
        requires
            old(self).valid(),
        ensures
            final(self).valid(),
            final(self).node_index() == old(self).node_index(),
            *final(final(self).target()) == *final(old(self).target()),
            exists|k: usize|
                put_in_compound(
                    old(self).doc(),
                    final(self).doc(),
                    old(self).node_index(),
                    key@,
                    NBTNode::Int(value),
                    k,
                ),
    {
        let ghost node = NBTNode::Int(value);
        let k = self.insert_node(key, NBTNode::Int(value));
        assert(put_in_compound(old(self).doc(), final(self).doc(), old(self).node_index(), key@, node, k));
    }

    /// Stores a `Long` tag under `key`, in place of any tag that was there.
    pub fn insert_long(&mut self, key: &str, value: i64)
        requires
            old(self).valid(),
        ensures
            final(self).valid(),
            final(self).node_index() == old(self).node_index(),
            *final(final(self).target()) == *final(old(self).target()),
            exists|k: usize|
                put_in_compound(
                    old(self).doc(),
                    final(self).doc(),
                    old(self).node_index(),
                    key@,
                    NBTNode::Long(value),
                    k,
                ),
    {
        let ghost node = NBTNode::Long(value);
        let k = self.insert_node(key, NBTNode::Long(value));
        assert(put_in_compound(old(self).doc(), final(self).doc(), old(self).node_index(), key@, node, k));
    }

    /// Stores a `Float` tag (given as its IEEE-754 bits) under `key`, in place of any tag that was there.
    pub fn insert_float(&mut self, key: &str, value: u32)
        requires
            old(self).valid(),
        ensures
            final(self).valid(),
            final(self).node_index() == old(self).node_index(),
            *final(final(self).target()) == *final(old(self).target()),
            exists|k: usize|
                put_in_compound(
                    old(self).doc(),
                    final(self).doc(),
                    old(self).node_index(),
                    key@,
                    NBTNode::Float(value),
                    k,
                ),
    {
        let ghost node = NBTNode::Float(value);
        let k = self.insert_node(key, NBTNode::Float(value));
        assert(put_in_compound(old(self).doc(), final(self).doc(), old(self).node_index(), key@, node, k));
    }

    /// Stores a `Double` tag (given as its IEEE-754 bits) under `key`, in place of any tag that was there.
    pub fn insert_double(&mut self, key: &str, value: u64)
        requires
            old(self).valid(),
        ensures
            final(self).valid(),
            final(self).node_index() == old(self).node_index(),
            *final(final(self).target()) == *final(old(self).target()),
            exists|k: usize|
                put_in_compound(
                    old(self).doc(),
                    final(self).doc(),
                    old(self).node_index(),
                    key@,
                    NBTNode::Double(value),
                    k,
                ),
    {
        let ghost node = NBTNode::Double(value);
        let k = self.insert_node(key, NBTNode::Double(value));
        assert(put_in_compound(old(self).doc(), final(self).doc(), old(self).node_index(), key@, node, k));
    }

    /// Stores a `ByteArray` tag under `key`, in place of any tag that was there.
    pub fn insert_byte_array(&mut self, key: &str, value: Vec<i8>)
        requires
            old(self).valid(),
        ensures
            final(self).valid(),
            final(self).node_index() == old(self).node_index(),
            *final(final(self).target()) == *final(old(self).target()),
            exists|k: usize|
                put_in_compound(
                    old(self).doc(),
                    final(self).doc(),
                    old(self).node_index(),
                    key@,
                    NBTNode::ByteArray(value),
                    k,
                ),
    {
        let ghost node = NBTNode::ByteArray(value);
        let k = self.insert_node(key, NBTNode::ByteArray(value));
        assert(put_in_compound(old(self).doc(), final(self).doc(), old(self).node_index(), key@, node, k));
    }

    /// Stores a `String` tag under `key`, in place of any tag that was there.
    pub fn insert_string(&mut self, key: &str, value: String)
        requires
            old(self).valid(),
        ensures
            final(self).valid(),
            final(self).node_index() == old(self).node_index(),
            *final(final(self).target()) == *final(old(self).target()),
            exists|k: usize|
                put_in_compound(
                    old(self).doc(),
                    final(self).doc(),
                    old(self).node_index(),
                    key@,
                    NBTNode::String(value),
                    k,
                ),
    {
        let ghost node = NBTNode::String(value);
        let k = self.insert_node(key, NBTNode::String(value));
        assert(put_in_compound(old(self).doc(), final(self).doc(), old(self).node_index(), key@, node, k));
    }

    /// Stores a `IntArray` tag under `key`, in place of any tag that was there.
    pub fn insert_int_array(&mut self, key: &str, value: Vec<i32>)
        requires
            old(self).valid(),
        ensures
            final(self).valid(),
            final(self).node_index() == old(self).node_index(),
            *final(final(self).target()) == *final(old(self).target()),
            exists|k: usize|
                put_in_compound(
                    old(self).doc(),
                    final(self).doc(),
                    old(self).node_index(),
                    key@,
                    NBTNode::IntArray(value),
                    k,
                ),
    {
        let ghost node = NBTNode::IntArray(value);
        let k = self.insert_node(key, NBTNode::IntArray(value));
        assert(put_in_compound(old(self).doc(), final(self).doc(), old(self).node_index(), key@, node, k));
    }

    /// Stores a `LongArray` tag under `key`, in place of any tag that was there.
    pub fn insert_long_array(&mut self, key: &str, value: Vec<i64>)
        requires
            old(self).valid(),
        ensures
            final(self).valid(),
            final(self).node_index() == old(self).node_index(),
            *final(final(self).target()) == *final(old(self).target()),
            exists|k: usize|
                put_in_compound(
                    old(self).doc(),
                    final(self).doc(),
                    old(self).node_index(),
                    key@,
                    NBTNode::LongArray(value),
                    k,
                ),
    {
        let ghost node = NBTNode::LongArray(value);
        let k = self.insert_node(key, NBTNode::LongArray(value));
        assert(put_in_compound(old(self).doc(), final(self).doc(), old(self).node_index(), key@, node, k));
    }

    /// Stores a new empty list of `type_id` tags under `key` and returns it.
    pub fn create_list(&mut self, key: &str, type_id: TagType) -> (r: ListRefMut<'_>)
        requires
            old(self).valid(),
        ensures
            r.valid(),
            exists|c: Vec<usize>|
                c@.len() == 0 && put_in_compound(
                    old(self).doc(),
                    r.doc(),
                    old(self).node_index(),
                    key@,
                    NBTNode::List { type_id, children: c },
                    r.node_index(),
                ),
            *final(self).target() == *final(r.target()),
            final(self).node_index() == old(self).node_index(),
            *final(final(self).target()) == *final(old(self).target()),
    {
        let idx = self.insert_node(key, NBTNode::List { type_id, children: Vec::new() });
        ListRefMut { nbt: &mut *self.nbt, node_idx: idx }
    }

    /// Stores a new empty compound under `key` and returns it.
    pub fn create_compound(&mut self, key: &str) -> (r: CompoundRefMut<'_>)
        requires
            old(self).valid(),
        ensures
            r.valid(),
            exists|c: NBTCompound|
                c@.len() == 0 && put_in_compound(
                    old(self).doc(),
                    r.doc(),
                    old(self).node_index(),
                    key@,
                    NBTNode::Compound(c),
                    r.node_index(),
                ),
            *final(self).target() == *final(r.target()),
            final(self).node_index() == old(self).node_index(),
            *final(final(self).target()) == *final(old(self).target()),
    {
        let idx = self.insert_node(key, NBTNode::Compound(NBTCompound::new()));
        CompoundRefMut { nbt: &mut *self.nbt, node_idx: idx }
    }

    /// The list under `key`, for changing it, if the tag under `key` is a list of
    /// `type_id` tags.
    pub fn find_list_mut(&mut self, key: &str, type_id: TagType) -> (r: Option<ListRefMut<'_>>)
        requires
            old(self).valid(),
        ensures
            r matches Some(l) ==> l.valid(),
            r is None ==> final(self).valid(),
            r is Some <==> (old(self).child(key@) matches Some(NBTNode::List { type_id: t, .. })
                && t == type_id),
            r matches Some(l) ==> *l.target() == old(self).doc() && Some(l.node_index())
                == entries_find(old(self).entries_view(), key@) && *final(self).target()
                == *final(l.target()),
            r is None ==> *final(self) == *old(self),
            final(self).node_index() == old(self).node_index(),
            *final(final(self).target()) == *final(old(self).target()),
    {
        let idx = match self.find_idx(key) {
            Some(idx) => idx,
            None => return None,
        };
        let matches = match self.get_node(idx) {
            NBTNode::List { type_id: list_type_id, children: _ } => *list_type_id == type_id,
            _ => false,
        };
        if matches {
            Some(ListRefMut { nbt: &mut *self.nbt, node_idx: idx })
        } else {
            None
        }
    }
}

/// A read-only view of a list tag.
#[derive(Copy, Clone)]
pub struct ListRef<'a> {
    pub(crate) nbt: &'a NBT,
    pub(crate) node_idx: usize,
}

impl<'a> ListRef<'a> {
    #[verifier::type_invariant]
    spec fn inv(self) -> bool {
        &&& self.nbt.wf()
        &&& self.nbt.node_map().dom().contains(self.node_idx)
        &&& self.nbt.node_map()[self.node_idx] is List
    }

    /// The document this views.
    pub closed spec fn doc(&self) -> NBT {
        *self.nbt
    }

    /// The slab key of the list.
    pub closed spec fn node_index(&self) -> usize {
        self.node_idx
    }

    /// The slab keys of the list's elements, in order.
    pub open spec fn items_view(&self) -> Seq<usize> {
        children(self.doc().node_map()[self.node_index()])
    }

    /// Number of elements.
    pub fn len(&self) -> (r: usize)
        ensures
            r == self.items_view().len(),
    {
        proof {
            use_type_invariant(self);
        }
        self.nbt.list_node(self.node_idx).1.len()
    }

    /// A view of element `index`, if there is one.
    pub fn get(&self, index: usize) -> (r: Option<NBTRef<'_>>)
        ensures
            r is Some <==> index < self.items_view().len(),
            r matches Some(x) ==> refers_to(x, self.doc(), self.items_view()[index as int]),
    {
        proof {
            use_type_invariant(self);
        }
        let (_, children) = self.nbt.list_node(self.node_idx);
        if index >= children.len() {
            return None;
        }
        let idx = children[index];
        proof {
            self.nbt.lemma_child_live(self.node_idx, index as int);
        }
        Some(self.nbt.get_reference(idx))
    }

    /// Views of all elements, in order.
    pub fn iter(&self) -> (r: Vec<NBTRef<'a>>)
        ensures
            r@.len() == self.items_view().len(),
            forall|i: int| 0 <= i < r@.len() ==> refers_to(r@[i], self.doc(), self.items_view()[i]),
    {
        proof {
            use_type_invariant(self);
        }
        let nbt: &'a NBT = self.nbt;
        let (_, children) = nbt.list_node(self.node_idx);
        let mut out: Vec<NBTRef<'a>> = Vec::new();
        let mut i: usize = 0;
        while i < children.len()
            invariant
                nbt.wf(),
                nbt == self.doc(),
                nbt.node_map().dom().contains(self.node_index()),
                children@ == self.items_view(),
                i <= children@.len(),
                out@.len() == i,
                forall|j: int| 0 <= j < i ==> refers_to(out@[j], self.doc(), self.items_view()[j]),
            decreases children@.len() - i,
        {
            proof {
                nbt.lemma_child_live(self.node_index(), i as int);
            }
            out.push(nbt.get_reference(children[i]));
            i += 1;
        }
        out
    }
}

/// A view of a list tag through which it can be changed.
pub struct ListRefMut<'a> {
    pub(crate) nbt: &'a mut NBT,
    pub(crate) node_idx: usize,
}

impl<'a> ListRefMut<'a> {
    /// The document is well formed and the view's node is a live list.
    pub closed spec fn valid(&self) -> bool {
        &&& self.nbt.wf()
        &&& self.nbt.node_map().dom().contains(self.node_idx)
        &&& self.nbt.node_map()[self.node_idx] is List
    }

    /// The document this changes.
    pub closed spec fn target(&self) -> &'a mut NBT {
        self.nbt
    }

    /// The document as it is now.
    pub open spec fn doc(&self) -> NBT {
        *self.target()
    }

    /// The slab key of the list.
    pub closed spec fn node_index(&self) -> usize {
        self.node_idx
    }

    /// The slab keys of the list's elements, in order.
    pub open spec fn items_view(&self) -> Seq<usize> {
        children(self.doc().node_map()[self.node_index()])
    }

    /// The type of the list's elements.
    pub open spec fn element_type(&self) -> TagType {
        match self.doc().node_map()[self.node_index()] {
            NBTNode::List { type_id, .. } => type_id,
            _ => TagType::End,
        }
    }

    /// Number of elements.
    pub fn len(&self) -> (r: usize)
        requires
            self.valid(),
        ensures
            r == self.items_view().len(),
    {
        self.nbt.list_node(self.node_idx).1.len()
    }

    /// A view of element `index`, if there is one.
    pub fn get(&self, index: usize) -> (r: Option<NBTRef<'_>>)
        requires
            self.valid(),
        ensures
            r is Some <==> index < self.items_view().len(),
            r matches Some(x) ==> refers_to(x, self.doc(), self.items_view()[index as int]),
    {
        let (_, children) = self.nbt.list_node(self.node_idx);
        if index >= children.len() {
            return None;
        }
        let idx = children[index];
        proof {
            self.nbt.lemma_child_live(self.node_idx, index as int);
        }
        Some(self.nbt.get_reference(idx))
    }

    /// Removes element `index` together with everything under it; `false` when there is
    /// no such element.
    pub fn remove_index(&mut self, index: usize) -> (r: bool)
        requires
            old(self).valid(),
        ensures
            final(self).valid(),
            r == (index < old(self).items_view().len()),
            !r ==> final(self).doc().node_map() == old(self).doc().node_map(),
            r ==> final(self).items_view() == old(self).items_view().remove(index as int),
            r ==> final(self).doc().node_map() == old(self).doc().node_map().insert(
                old(self).node_index(),
                final(self).doc().node_map()[old(self).node_index()],
            ).remove_keys(old(self).doc().subtree(old(self).items_view()[index as int])),
            final(self).element_type() == old(self).element_type(),
            final(self).doc().root() == old(self).doc().root(),
            final(self).doc().name() == old(self).doc().name(),
            final(self).node_index() == old(self).node_index(),
            *final(final(self).target()) == *final(old(self).target()),
    {
        let r = self.nbt.remove_list_entry(self.node_idx, index);
        proof {
            if r {
                old(self).doc().lemma_parent_outside_child(old(self).node_index(), index as int);
            }
        }
        r
    }

    /// Moves element `from` to position `to`; `false` (and nothing moves) when either
    /// position is past the end or both are the same.
    pub fn move_index(&mut self, from: usize, to: usize) -> (r: bool)
        requires
            old(self).valid(),
        ensures
            final(self).valid(),
            r == (from < old(self).items_view().len() && to < old(self).items_view().len() && from
                != to),
            !r ==> final(self).doc().node_map() == old(self).doc().node_map(),
            r ==> final(self).items_view() == old(self).items_view().remove(from as int).insert(
                to as int,
                old(self).items_view()[from as int],
            ),
            r ==> final(self).doc().node_map() == old(self).doc().node_map().insert(
                old(self).node_index(),
                final(self).doc().node_map()[old(self).node_index()],
            ),
            final(self).element_type() == old(self).element_type(),
            final(self).doc().root() == old(self).doc().root(),
            final(self).doc().name() == old(self).doc().name(),
            final(self).node_index() == old(self).node_index(),
            *final(final(self).target()) == *final(old(self).target()),
    {
        self.nbt.move_list_entry(self.node_idx, from, to)
    }

    fn insert_node(&mut self, node: NBTNode) -> (k: usize)
        requires
            old(self).valid(),
            node_type(node) == old(self).element_type(),
            children(node).len() == 0,
            node_sorted(node),
        ensures
            final(self).valid(),
            put_in_list(old(self).doc(), final(self).doc(), old(self).node_index(), node, k),
            final(self).node_index() == old(self).node_index(),
            *final(final(self).target()) == *final(old(self).target()),
    {
        self.nbt.push_child(self.node_idx, node)
    }

    /// Appends a new empty compound and returns it. The list must hold compounds.
    pub fn create_compound(&mut self) -> (r: CompoundRefMut<'_>)
        requires
            old(self).valid(),
            old(self).element_type() == TagType::Compound,
        ensures
            r.valid(),
            exists|c: NBTCompound|
                c@.len() == 0 && put_in_list(
                    old(self).doc(),
                    r.doc(),
                    old(self).node_index(),
                    NBTNode::Compound(c),
                    r.node_index(),
                ),
            *final(self).target() == *final(r.target()),
            final(self).node_index() == old(self).node_index(),
            *final(final(self).target()) == *final(old(self).target()),
    {
        let idx = self.insert_node(NBTNode::Compound(NBTCompound::new()));
        CompoundRefMut { nbt: &mut *self.nbt, node_idx: idx }
    }

    /// Appends a new empty list of `type_id` tags and returns it. The list must hold
    /// lists.
    pub fn create_list(&mut self, type_id: TagType) -> (r: ListRefMut<'_>)
        requires
            old(self).valid(),
            old(self).element_type() == TagType::List,
        ensures
            r.valid(),
            exists|c: Vec<usize>|
                c@.len() == 0 && put_in_list(
                    old(self).doc(),
                    r.doc(),
                    old(self).node_index(),
                    NBTNode::List { type_id, children: c },
                    r.node_index(),
                ),
            *final(self).target() == *final(r.target()),
            final(self).node_index() == old(self).node_index(),
            *final(final(self).target()) == *final(old(self).target()),
    {
        let idx = self.insert_node(NBTNode::List { type_id, children: Vec::new() });
        ListRefMut { nbt: &mut *self.nbt, node_idx: idx }
    }
}

}

verus! {

/// `Slab`'s `Clone`: a slab holding the same nodes under the same keys (each node is
/// cloned by its derived `Clone`, which copies it field by field).
#[verifier::external_body]
fn slab_clone(s: &Slab<NBTNode>) -> (r: Slab<NBTNode>)
    ensures
        slab_nodes(r) == slab_nodes(*s),
{
    s.clone()
}

impl Clone for NBT {
    fn clone(&self) -> (r: Self)
        ensures
            r.node_map() == self.node_map(),
            r.root() == self.root(),
            r.name() == self.name(),
            self.wf() ==> r.wf(),
    {
        NBT {
            root_name: self.root_name.clone(),
            root_index: self.root_index,
            nodes: slab_clone(&self.nodes),
            parents: Ghost(self.parents@),
            depths: Ghost(self.depths@),
            orphans: Ghost(self.orphans@),
        }
    }
}

impl Default for NBT {
    fn default() -> (r: Self)
        ensures
            r.wf(),
            r.name() == Seq::<char>::empty(),
            r.node_map().dom() == set![r.root()],
            r.node_map()[r.root()] is Compound,
            children(r.node_map()[r.root()]).len() == 0,
    {
        Self::new()
    }
}

}

verus! {

/// `Slab`'s `IndexMut`: the value under an occupied key, to change in place.
#[verifier::external_body]
fn slab_get_mut(s: &mut Slab<NBTNode>, key: usize) -> (r: &mut NBTNode)
    requires
        slab_nodes(*old(s)).dom().contains(key),
    ensures
        *r == slab_nodes(*old(s))[key],
        slab_nodes(*final(s)) == slab_nodes(*old(s)).insert(key, *final(r)),
{
    &mut s[key]
}

/// A view of one tag of a document through which it can be changed.
pub enum NBTRefMut<'a> {
    Byte(&'a mut i8),
    Short(&'a mut i16),
    Int(&'a mut i32),
    Long(&'a mut i64),
    Float(&'a mut u32),
    Double(&'a mut u64),
    ByteArray(&'a mut Vec<i8>),
    String(&'a mut String),
    List(ListRefMut<'a>),
    Compound(CompoundRefMut<'a>),
    IntArray(&'a mut Vec<i32>),
    LongArray(&'a mut Vec<i64>),
}

impl NBT {
    /// A changeable view of node `node_idx`.
    fn get_reference_mut(&mut self, node_idx: usize) -> (r: NBTRefMut<'_>)
        requires
            old(self).wf(),
            old(self).node_map().dom().contains(node_idx),
        ensures
            match r {
                NBTRefMut::Byte(v) => old(self).node_map()[node_idx] == NBTNode::Byte(*v)
                    && final(self).node_map() == old(self).node_map().insert(node_idx, NBTNode::Byte(*final(v))),
                NBTRefMut::Short(v) => old(self).node_map()[node_idx] == NBTNode::Short(*v)
                    && final(self).node_map() == old(self).node_map().insert(node_idx, NBTNode::Short(*final(v))),
                NBTRefMut::Int(v) => old(self).node_map()[node_idx] == NBTNode::Int(*v)
                    && final(self).node_map() == old(self).node_map().insert(node_idx, NBTNode::Int(*final(v))),
                NBTRefMut::Long(v) => old(self).node_map()[node_idx] == NBTNode::Long(*v)
                    && final(self).node_map() == old(self).node_map().insert(node_idx, NBTNode::Long(*final(v))),
                NBTRefMut::Float(v) => old(self).node_map()[node_idx] == NBTNode::Float(*v)
                    && final(self).node_map() == old(self).node_map().insert(node_idx, NBTNode::Float(*final(v))),
                NBTRefMut::Double(v) => old(self).node_map()[node_idx] == NBTNode::Double(*v)
                    && final(self).node_map() == old(self).node_map().insert(node_idx, NBTNode::Double(*final(v))),
                NBTRefMut::ByteArray(v) => old(self).node_map()[node_idx] == NBTNode::ByteArray(*v)
                    && final(self).node_map() == old(self).node_map().insert(node_idx, NBTNode::ByteArray(*final(v))),
                NBTRefMut::String(v) => old(self).node_map()[node_idx] == NBTNode::String(*v)
                    && final(self).node_map() == old(self).node_map().insert(node_idx, NBTNode::String(*final(v))),
                NBTRefMut::IntArray(v) => old(self).node_map()[node_idx] == NBTNode::IntArray(*v)
                    && final(self).node_map() == old(self).node_map().insert(node_idx, NBTNode::IntArray(*final(v))),
                NBTRefMut::LongArray(v) => old(self).node_map()[node_idx] == NBTNode::LongArray(*v)
                    && final(self).node_map() == old(self).node_map().insert(node_idx, NBTNode::LongArray(*final(v))),
                NBTRefMut::List(l) => old(self).node_map()[node_idx] is List && l.valid()
                    && *l.target() == *old(self) && l.node_index() == node_idx
                    && *final(self) == *final(l.target()),
                NBTRefMut::Compound(c) => old(self).node_map()[node_idx] is Compound && c.valid()
                    && *c.target() == *old(self) && c.node_index() == node_idx
                    && *final(self) == *final(c.target()),
            },
            !(r is List || r is Compound) ==> final(self).root() == old(self).root()
                && final(self).name() == old(self).name(),
    {
        let is_list = match slab_get(&self.nodes, node_idx) {
            NBTNode::List { type_id: _, children: _ } => true,
            _ => false,
        };
        let is_compound = match slab_get(&self.nodes, node_idx) {
            NBTNode::Compound(_) => true,
            _ => false,
        };
        if is_list {
            return NBTRefMut::List(ListRefMut { nbt: self, node_idx });
        }
        if is_compound {
            return NBTRefMut::Compound(CompoundRefMut { nbt: self, node_idx });
        }
        match slab_get_mut(&mut self.nodes, node_idx) {
            NBTNode::Byte(value) => NBTRefMut::Byte(value),
            NBTNode::Short(value) => NBTRefMut::Short(value),
            NBTNode::Int(value) => NBTRefMut::Int(value),
            NBTNode::Long(value) => NBTRefMut::Long(value),
            NBTNode::Float(value) => NBTRefMut::Float(value),
            NBTNode::Double(value) => NBTRefMut::Double(value),
            NBTNode::ByteArray(value) => NBTRefMut::ByteArray(value),
            NBTNode::String(value) => NBTRefMut::String(value),
            NBTNode::IntArray(value) => NBTRefMut::IntArray(value),
            NBTNode::LongArray(value) => NBTRefMut::LongArray(value),
            NBTNode::List { type_id: _, children: _ } => unreached(),
            NBTNode::Compound(_) => unreached(),
        }
    }

    /// A changeable view of the root tag.
    pub fn as_reference_mut(&mut self) -> (r: NBTRefMut<'_>)
        requires
            old(self).wf(),
        ensures
            r matches NBTRefMut::Compound(c) && c.valid() && *c.target() == *old(self)
                && c.node_index() == old(self).root() && *final(self) == *final(c.target()),
    {
        self.get_reference_mut(self.root_index)
    }
}


// ---------------------------------------------------------------------------
// Equality of tags
// ---------------------------------------------------------------------------

/// Whether 32 float bits encode a NaN.
pub open spec fn f32_is_nan(b: u32) -> bool {
    b & 0x7f80_0000u32 == 0x7f80_0000u32 && b & 0x007f_ffffu32 != 0
}

/// Whether 64 float bits encode a NaN.
pub open spec fn f64_is_nan(b: u64) -> bool {
    b & 0x7ff0_0000_0000_0000u64 == 0x7ff0_0000_0000_0000u64 && b & 0x000f_ffff_ffff_ffffu64 != 0
}

/// Two `f32`, given by their bits, are equal as floats (zeros of either sign are
/// equal), or are both NaN.
pub open spec fn f32_same(x: u32, y: u32) -> bool {
    if f32_is_nan(x) || f32_is_nan(y) {
        f32_is_nan(x) && f32_is_nan(y)
    } else {
        x == y || (x | y) & 0x7fff_ffffu32 == 0
    }
}

/// Two `f64`, given by their bits, are equal as floats, or are both NaN.
pub open spec fn f64_same(x: u64, y: u64) -> bool {
    if f64_is_nan(x) || f64_is_nan(y) {
        f64_is_nan(x) && f64_is_nan(y)
    } else {
        x == y || (x | y) & 0x7fff_ffff_ffff_ffffu64 == 0
    }
}

fn f32_bits_same(x: u32, y: u32) -> (r: bool)
    ensures
        r == f32_same(x, y),
{
    let x_nan = x & 0x7f80_0000 == 0x7f80_0000 && x & 0x007f_ffff != 0;
    let y_nan = y & 0x7f80_0000 == 0x7f80_0000 && y & 0x007f_ffff != 0;
    if x_nan || y_nan {
        x_nan && y_nan
    } else {
        x == y || (x | y) & 0x7fff_ffff == 0
    }
}

fn f64_bits_same(x: u64, y: u64) -> (r: bool)
    ensures
        r == f64_same(x, y),
{
    let x_nan = x & 0x7ff0_0000_0000_0000 == 0x7ff0_0000_0000_0000 && x & 0x000f_ffff_ffff_ffff != 0;
    let y_nan = y & 0x7ff0_0000_0000_0000 == 0x7ff0_0000_0000_0000 && y & 0x000f_ffff_ffff_ffff != 0;
    if x_nan || y_nan {
        x_nan && y_nan
    } else {
        x == y || (x | y) & 0x7fff_ffff_ffff_ffff == 0
    }
}

/// Whether tag `ia` of `a` and tag `ib` of `b` are the same: the same type and value,
/// floats compared as floats with NaN equal to NaN, lists with the same element type
/// and equal elements in order, compounds with the same keys in order and equal tags
/// under them. `fuel` bounds how deep the comparison goes.
pub open spec fn same_tag(a: NBT, ia: usize, b: NBT, ib: usize, fuel: nat) -> bool
    decreases fuel, 0nat,
{
    if fuel == 0 {
        false
    } else {
        match (a.node_map()[ia], b.node_map()[ib]) {
            (NBTNode::Byte(x), NBTNode::Byte(y)) => x == y,
            (NBTNode::Short(x), NBTNode::Short(y)) => x == y,
            (NBTNode::Int(x), NBTNode::Int(y)) => x == y,
            (NBTNode::Long(x), NBTNode::Long(y)) => x == y,
            (NBTNode::Float(x), NBTNode::Float(y)) => f32_same(x, y),
            (NBTNode::Double(x), NBTNode::Double(y)) => f64_same(x, y),
            (NBTNode::ByteArray(x), NBTNode::ByteArray(y)) => x@ == y@,
            (NBTNode::String(x), NBTNode::String(y)) => x@ == y@,
            (NBTNode::IntArray(x), NBTNode::IntArray(y)) => x@ == y@,
            (NBTNode::LongArray(x), NBTNode::LongArray(y)) => x@ == y@,
            (
                NBTNode::List { type_id: t, children: c },
                NBTNode::List { type_id: u, children: d },
            ) => t == u && same_children(a, c@, b, d@, (fuel - 1) as nat),
            (NBTNode::Compound(x), NBTNode::Compound(y)) => {
                &&& entry_keys(x@) == entry_keys(y@)
                &&& same_children(a, entry_tags(x@), b, entry_tags(y@), (fuel - 1) as nat)
            },
            _ => false,
        }
    }
}

/// The keys of a compound's entries, in order.
pub open spec fn entry_keys(xs: Seq<(Seq<char>, usize)>) -> Seq<Seq<char>> {
    xs.map_values(|e: (Seq<char>, usize)| e.0)
}

/// The tags of a compound's entries, in order.
pub open spec fn entry_tags(xs: Seq<(Seq<char>, usize)>) -> Seq<usize> {
    xs.map_values(|e: (Seq<char>, usize)| e.1)
}

/// Whether two lists of tags have the same length and the same tags in order.
pub open spec fn same_children(a: NBT, cs: Seq<usize>, b: NBT, ds: Seq<usize>, fuel: nat) -> bool
    decreases fuel, cs.len() + 1,
{
    if cs.len() == 0 {
        ds.len() == 0
    } else {
        &&& ds.len() > 0
        &&& same_tag(a, cs.last(), b, ds.last(), fuel)
        &&& same_children(a, cs.drop_last(), b, ds.drop_last(), fuel)
    }
}

/// Leaf tags are the same exactly when they hold equal values: equal numbers, equal
/// texts, equal arrays element by element; a float is the same as itself. Tags of
/// different types are never the same.
pub proof fn law_same_leaf_tags_hold_equal_values(a: NBT, ia: usize, b: NBT, ib: usize, fuel: nat)
    requires
        fuel > 0,
    ensures
        node_type(a.node_map()[ia]) != node_type(b.node_map()[ib]) ==> !same_tag(a, ia, b, ib, fuel),
        match (a.node_map()[ia], b.node_map()[ib]) {
            (NBTNode::Byte(x), NBTNode::Byte(y)) => same_tag(a, ia, b, ib, fuel) <==> x == y,
            (NBTNode::Short(x), NBTNode::Short(y)) => same_tag(a, ia, b, ib, fuel) <==> x == y,
            (NBTNode::Int(x), NBTNode::Int(y)) => same_tag(a, ia, b, ib, fuel) <==> x == y,
            (NBTNode::Long(x), NBTNode::Long(y)) => same_tag(a, ia, b, ib, fuel) <==> x == y,
            (NBTNode::Float(x), NBTNode::Float(y)) => x == y ==> same_tag(a, ia, b, ib, fuel),
            (NBTNode::Double(x), NBTNode::Double(y)) => x == y ==> same_tag(a, ia, b, ib, fuel),
            (NBTNode::String(x), NBTNode::String(y)) => same_tag(a, ia, b, ib, fuel) <==> x@ == y@,
            (NBTNode::ByteArray(x), NBTNode::ByteArray(y)) => same_tag(a, ia, b, ib, fuel) <==> (
            x@.len() == y@.len() && forall|k: int| 0 <= k < x@.len() ==> x@[k] == y@[k]),
            (NBTNode::IntArray(x), NBTNode::IntArray(y)) => same_tag(a, ia, b, ib, fuel) <==> (
            x@.len() == y@.len() && forall|k: int| 0 <= k < x@.len() ==> x@[k] == y@[k]),
            (NBTNode::LongArray(x), NBTNode::LongArray(y)) => same_tag(a, ia, b, ib, fuel) <==> (
            x@.len() == y@.len() && forall|k: int| 0 <= k < x@.len() ==> x@[k] == y@[k]),
            _ => true,
        },
{
    match (a.node_map()[ia], b.node_map()[ib]) {
        (NBTNode::ByteArray(x), NBTNode::ByteArray(y)) => {
            if x@.len() == y@.len() && forall|k: int| 0 <= k < x@.len() ==> x@[k] == y@[k] {
                assert(x@ =~= y@);
            }
        },
        (NBTNode::IntArray(x), NBTNode::IntArray(y)) => {
            if x@.len() == y@.len() && forall|k: int| 0 <= k < x@.len() ==> x@[k] == y@[k] {
                assert(x@ =~= y@);
            }
        },
        (NBTNode::LongArray(x), NBTNode::LongArray(y)) => {
            if x@.len() == y@.len() && forall|k: int| 0 <= k < x@.len() ==> x@[k] == y@[k] {
                assert(x@ =~= y@);
            }
        },
        _ => {},
    }
}

/// Two compounds are the same exactly when they hold the same keys in the same order
/// and, under each key, the same tag: a tag with a different value anywhere in a
/// compound makes the compounds differ. Two lists are the same exactly when their
/// element types agree and they hold the same tags in order.
pub proof fn law_same_containers_hold_same_tags(a: NBT, ia: usize, b: NBT, ib: usize, fuel: nat)
    requires
        fuel > 0,
    ensures
        match (a.node_map()[ia], b.node_map()[ib]) {
            (NBTNode::Compound(x), NBTNode::Compound(y)) => same_tag(a, ia, b, ib, fuel) <==> (
            x@.len() == y@.len() && (forall|k: int| 0 <= k < x@.len() ==> #[trigger] x@[k].0 == y@[k].0)
                && forall|k: int|
                0 <= k < x@.len() ==> #[trigger] same_tag(
                    a,
                    x@[k].1,
                    b,
                    y@[k].1,
                    (fuel - 1) as nat,
                )),
            (
                NBTNode::List { type_id: t, children: c },
                NBTNode::List { type_id: u, children: d },
            ) => same_tag(a, ia, b, ib, fuel) <==> (t == u && c@.len() == d@.len() && forall|k: int|
                0 <= k < c@.len() ==> #[trigger] same_tag(a, c@[k], b, d@[k], (fuel - 1) as nat)),
            _ => true,
        },
{
    let f = (fuel - 1) as nat;
    match (a.node_map()[ia], b.node_map()[ib]) {
        (NBTNode::Compound(x), NBTNode::Compound(y)) => {
            let xs = x@;
            let ys = y@;
            let held = xs.len() == ys.len() && (forall|k: int| 0 <= k < xs.len() ==> #[trigger] xs[k].0 == ys[k].0)
                && forall|k: int| 0 <= k < xs.len() ==> #[trigger] same_tag(a, xs[k].1, b, ys[k].1, f);
            assert(entry_keys(xs).len() == xs.len());
            assert(entry_keys(ys).len() == ys.len());
            assert(same_tag(a, ia, b, ib, fuel) ==> held) by {
                if same_tag(a, ia, b, ib, fuel) {
                    assert(entry_keys(xs) == entry_keys(ys));
                    assert(xs.len() == ys.len());
                    lemma_same_children_all(a, entry_tags(xs), b, entry_tags(ys), f);
                    assert forall|k: int| 0 <= k < xs.len() implies #[trigger] xs[k].0 == ys[k].0 by {
                        assert(entry_keys(xs)[k] == entry_keys(ys)[k]);
                    }
                    assert forall|k: int| 0 <= k < xs.len() implies #[trigger] same_tag(a, xs[k].1, b, ys[k].1, f) by {
                        assert(same_tag(a, entry_tags(xs)[k], b, entry_tags(ys)[k], f));
                    }
                }
            }
            assert(held ==> same_tag(a, ia, b, ib, fuel)) by {
                if held {
                    lemma_same_children_all(a, entry_tags(xs), b, entry_tags(ys), f);
                    assert forall|k: int| 0 <= k < xs.len() implies #[trigger] entry_keys(xs)[k]
                        == entry_keys(ys)[k] by {
                        assert(xs[k].0 == ys[k].0);
                    }
                    assert(entry_keys(xs) =~= entry_keys(ys));
                    assert forall|k: int| 0 <= k < xs.len() implies #[trigger] same_tag(
                        a,
                        entry_tags(xs)[k],
                        b,
                        entry_tags(ys)[k],
                        f,
                    ) by {
                        assert(same_tag(a, xs[k].1, b, ys[k].1, f));
                    }
                }
            }
        },
        (NBTNode::List { type_id: t, children: c }, NBTNode::List { type_id: u, children: d }) => {
            if c@.len() == d@.len() {
                lemma_same_children_all(a, c@, b, d@, f);
            } else {
                lemma_same_children_len(a, c@, b, d@, f);
            }
            assert(same_tag(a, ia, b, ib, fuel) <==> (t == u && c@.len() == d@.len() && forall|k: int|
                0 <= k < c@.len() ==> #[trigger] same_tag(a, c@[k], b, d@[k], f)));
        },
        _ => {},
    }
}

/// References to leaf tags are equal exactly when the values they view are equal, and
/// references to tags of different types are never equal.
pub proof fn law_equal_refs_view_equal_values(x: NBTRef, y: NBTRef)
    ensures
        match (x, y) {
            (NBTRef::Byte(p), NBTRef::Byte(q)) => refs_same(x, y) <==> *p == *q,
            (NBTRef::Short(p), NBTRef::Short(q)) => refs_same(x, y) <==> *p == *q,
            (NBTRef::Int(p), NBTRef::Int(q)) => refs_same(x, y) <==> *p == *q,
            (NBTRef::Long(p), NBTRef::Long(q)) => refs_same(x, y) <==> *p == *q,
            (NBTRef::String(p), NBTRef::String(q)) => refs_same(x, y) <==> p@ == q@,
            (NBTRef::ByteArray(p), NBTRef::ByteArray(q)) => refs_same(x, y) <==> p@ == q@,
            (NBTRef::IntArray(p), NBTRef::IntArray(q)) => refs_same(x, y) <==> p@ == q@,
            (NBTRef::LongArray(p), NBTRef::LongArray(q)) => refs_same(x, y) <==> p@ == q@,
            (NBTRef::Float(p), NBTRef::Float(q)) => *p == *q ==> refs_same(x, y),
            (NBTRef::Double(p), NBTRef::Double(q)) => *p == *q ==> refs_same(x, y),
            (NBTRef::List(_), NBTRef::List(_)) => true,
            (NBTRef::Compound(_), NBTRef::Compound(_)) => true,
            _ => !refs_same(x, y),
        },
{
}

proof fn lemma_same_children_all(a: NBT, cs: Seq<usize>, b: NBT, ds: Seq<usize>, fuel: nat)
    requires
        cs.len() == ds.len(),
    ensures
        same_children(a, cs, b, ds, fuel) == forall|k: int|
            0 <= k < cs.len() ==> #[trigger] same_tag(a, cs[k], b, ds[k], fuel),
    decreases cs.len(),
{
    if cs.len() > 0 {
        lemma_same_children_all(a, cs.drop_last(), b, ds.drop_last(), fuel);
        let n = cs.len() - 1;
        if forall|k: int| 0 <= k < cs.len() ==> #[trigger] same_tag(a, cs[k], b, ds[k], fuel) {
            assert(same_tag(a, cs[n], b, ds[n], fuel));
            assert forall|k: int| 0 <= k < n implies #[trigger] same_tag(
                a,
                cs.drop_last()[k],
                b,
                ds.drop_last()[k],
                fuel,
            ) by {
                assert(same_tag(a, cs[k], b, ds[k], fuel));
            }
        }
        if same_children(a, cs, b, ds, fuel) {
            assert forall|k: int| 0 <= k < cs.len() implies #[trigger] same_tag(
                a,
                cs[k],
                b,
                ds[k],
                fuel,
            ) by {
                if k < n {
                    assert(same_tag(a, cs.drop_last()[k], b, ds.drop_last()[k], fuel));
                }
            }
        }
    }
}

proof fn lemma_same_tag_list(
    a: NBT,
    ia: usize,
    b: NBT,
    ib: usize,
    fuel: nat,
    t: TagType,
    c: Vec<usize>,
    u: TagType,
    d: Vec<usize>,
)
    requires
        fuel > 0,
        a.node_map()[ia] == (NBTNode::List { type_id: t, children: c }),
        b.node_map()[ib] == (NBTNode::List { type_id: u, children: d }),
    ensures
        same_tag(a, ia, b, ib, fuel) == (t == u && c@.len() == d@.len() && forall|k: int|
            0 <= k < c@.len() ==> #[trigger] same_tag(a, c@[k], b, d@[k], (fuel - 1) as nat)),
{
    if c@.len() == d@.len() {
        lemma_same_children_all(a, c@, b, d@, (fuel - 1) as nat);
    } else {
        lemma_same_children_len(a, c@, b, d@, (fuel - 1) as nat);
    }
}

proof fn lemma_same_children_len(a: NBT, cs: Seq<usize>, b: NBT, ds: Seq<usize>, fuel: nat)
    ensures
        same_children(a, cs, b, ds, fuel) ==> cs.len() == ds.len(),
    decreases cs.len(),
{
    if cs.len() > 0 && ds.len() > 0 {
        lemma_same_children_len(a, cs.drop_last(), b, ds.drop_last(), fuel);
    }
}

/// The first `n` entries of two compounds have the same keys and the same tags.
pub open spec fn entries_match_upto(
    a: NBT,
    xs: Seq<(Seq<char>, usize)>,
    b: NBT,
    ys: Seq<(Seq<char>, usize)>,
    fuel: nat,
    n: int,
) -> bool {
    forall|k: int| 0 <= k < n ==> #[trigger] entry_matches(a, xs, b, ys, fuel, k)
}

/// Entry `k` of two compounds has the same key and the same tag.
pub open spec fn entry_matches(
    a: NBT,
    xs: Seq<(Seq<char>, usize)>,
    b: NBT,
    ys: Seq<(Seq<char>, usize)>,
    fuel: nat,
    k: int,
) -> bool {
    xs[k].0 == ys[k].0 && same_tag(a, xs[k].1, b, ys[k].1, fuel)
}

proof fn lemma_same_tag_compound(
    a: NBT,
    ia: usize,
    b: NBT,
    ib: usize,
    fuel: nat,
    x: NBTCompound,
    y: NBTCompound,
)
    requires
        fuel > 0,
        a.node_map()[ia] == NBTNode::Compound(x),
        b.node_map()[ib] == NBTNode::Compound(y),
    ensures
        same_tag(a, ia, b, ib, fuel) == (x@.len() == y@.len() && entries_match_upto(
            a,
            x@,
            b,
            y@,
            (fuel - 1) as nat,
            x@.len() as int,
        )),
{
    let xk = entry_keys(x@);
    let yk = entry_keys(y@);
    let xt = entry_tags(x@);
    let yt = entry_tags(y@);
    let f = (fuel - 1) as nat;
    assert(xk.len() == x@.len() && xt.len() == x@.len());
    assert(yk.len() == y@.len() && yt.len() == y@.len());
    assert(forall|k: int| 0 <= k < x@.len() ==> #[trigger] xk[k] == x@[k].0 && xt[k] == x@[k].1);
    assert(forall|k: int| 0 <= k < y@.len() ==> #[trigger] yk[k] == y@[k].0 && yt[k] == y@[k].1);
    assert(same_tag(a, ia, b, ib, fuel) == (xk == yk && same_children(a, xt, b, yt, f)));
    if x@.len() == y@.len() {
        lemma_same_children_all(a, xt, b, yt, f);
        if entries_match_upto(a, x@, b, y@, f, x@.len() as int) {
            assert forall|k: int| 0 <= k < xk.len() implies xk[k] == yk[k] by {
                assert(entry_matches(a, x@, b, y@, f, k));
            }
            assert(xk =~= yk);
            assert forall|k: int| 0 <= k < xt.len() implies #[trigger] same_tag(a, xt[k], b, yt[k], f) by {
                assert(entry_matches(a, x@, b, y@, f, k));
            }
            assert(same_children(a, xt, b, yt, f));
            assert(same_tag(a, ia, b, ib, fuel));
        }
        if xk == yk && same_children(a, xt, b, yt, f) {
            assert forall|k: int| 0 <= k < x@.len() implies #[trigger] entry_matches(a, x@, b, y@, f, k) by {
                assert(xk[k] == yk[k]);
                assert(same_tag(a, xt[k], b, yt[k], f));
            }
        }
    } else {
        assert(xk.len() != yk.len());
        assert(!same_tag(a, ia, b, ib, fuel));
    }
}

/// The largest depth that `d` gives to a key of `s`.
pub open spec fn max_depth(d: Map<usize, nat>, s: Set<usize>) -> nat
    decreases s.len(),
    when s.finite()
{
    if s.len() == 0 {
        0
    } else {
        let x = s.choose();
        let rest = max_depth(d, s.remove(x));
        if d[x] > rest {
            d[x]
        } else {
            rest
        }
    }
}

pub proof fn lemma_max_depth(d: Map<usize, nat>, s: Set<usize>, y: usize)
    requires
        s.finite(),
        s.contains(y),
    ensures
        d[y] <= max_depth(d, s),
    decreases s.len(),
{
    let x = s.choose();
    if y != x {
        lemma_max_depth(d, s.remove(x), y);
    }
}

impl NBT {
    /// How deep a comparison from node `i` may have to go: one more than the levels
    /// below it.
    pub closed spec fn tag_budget(&self, i: usize) -> nat {
        (max_depth(self.depths@, self.node_map().dom()) - self.depths@[i] + 1) as nat
    }

    proof fn lemma_budget_child(&self, p: usize, k: int)
        requires
            self.wf(),
            self.node_map().dom().contains(p),
            0 <= k < children(self.node_map()[p]).len(),
        ensures
            self.node_map().dom().contains(children(self.node_map()[p])[k]),
            self.tag_budget(p) >= 2,
            self.tag_budget(children(self.node_map()[p])[k]) == self.tag_budget(p) - 1,
    {
        let c = children(self.node_map()[p])[k];
        assert(child_linked(
            slab_nodes(self.nodes),
            self.root_index,
            self.parents@,
            self.depths@,
            self.orphans@,
            Set::empty(),
            p,
            c,
        ));
        lemma_max_depth(self.depths@, self.node_map().dom(), c);
    }

    proof fn lemma_budget_positive(&self, i: usize)
        requires
            self.wf(),
            self.node_map().dom().contains(i),
        ensures
            self.tag_budget(i) >= 1,
    {
        lemma_max_depth(self.depths@, self.node_map().dom(), i);
    }

    /// Compares tag `ia` of this document with tag `ib` of `other`.
    fn tags_equal(&self, ia: usize, other: &NBT, ib: usize, Ghost(fuel): Ghost<nat>) -> (r: bool)
        requires
            self.wf(),
            other.wf(),
            self.node_map().dom().contains(ia),
            other.node_map().dom().contains(ib),
            fuel >= self.tag_budget(ia),
        ensures
            r == same_tag(*self, ia, *other, ib, fuel),
        decreases fuel,
    {
        proof {
            self.lemma_budget_positive(ia);
        }
        match (slab_get(&self.nodes, ia), slab_get(&other.nodes, ib)) {
            (NBTNode::Byte(x), NBTNode::Byte(y)) => *x == *y,
            (NBTNode::Short(x), NBTNode::Short(y)) => *x == *y,
            (NBTNode::Int(x), NBTNode::Int(y)) => *x == *y,
            (NBTNode::Long(x), NBTNode::Long(y)) => *x == *y,
            (NBTNode::Float(x), NBTNode::Float(y)) => f32_bits_same(*x, *y),
            (NBTNode::Double(x), NBTNode::Double(y)) => f64_bits_same(*x, *y),
            (NBTNode::ByteArray(x), NBTNode::ByteArray(y)) => {
                let r = *x == *y;
                proof {
                    if r {
                        assert(x@ =~= y@);
                    }
                }
                r
            },
            (NBTNode::String(x), NBTNode::String(y)) => *x == *y,
            (NBTNode::IntArray(x), NBTNode::IntArray(y)) => {
                let r = *x == *y;
                proof {
                    if r {
                        assert(x@ =~= y@);
                    }
                }
                r
            },
            (NBTNode::LongArray(x), NBTNode::LongArray(y)) => {
                let r = *x == *y;
                proof {
                    if r {
                        assert(x@ =~= y@);
                    }
                }
                r
            },
            (
                NBTNode::List { type_id: t, children: c },
                NBTNode::List { type_id: u, children: d },
            ) => {
                if *t != *u || c.len() != d.len() {
                    proof {
                        lemma_same_tag_list(*self, ia, *other, ib, fuel, *t, *c, *u, *d);
                    }
                    return false;
                }
                let mut k: usize = 0;
                while k < c.len()
                    invariant
                        self.wf(),
                        other.wf(),
                        self.node_map().dom().contains(ia),
                        other.node_map().dom().contains(ib),
                        fuel >= self.tag_budget(ia),
                        fuel >= 1,
                        self.node_map()[ia] == (NBTNode::List { type_id: *t, children: *c }),
                        other.node_map()[ib] == (NBTNode::List { type_id: *u, children: *d }),
                        *t == *u,
                        c@.len() == d@.len(),
                        k <= c@.len(),
                        forall|j: int|
                            0 <= j < k ==> #[trigger] same_tag(
                                *self,
                                c@[j],
                                *other,
                                d@[j],
                                (fuel - 1) as nat,
                            ),
                    decreases c@.len() - k,
                {
                    proof {
                        self.lemma_budget_child(ia, k as int);
                        other.lemma_budget_child(ib, k as int);
                    }
                    if !self.tags_equal(c[k], other, d[k], Ghost((fuel - 1) as nat)) {
                        proof {
                            assert(!same_tag(*self, c@[k as int], *other, d@[k as int], (fuel - 1) as nat));
                            lemma_same_tag_list(*self, ia, *other, ib, fuel, *t, *c, *u, *d);
                        }
                        return false;
                    }
                    k += 1;
                }
                proof {
                    lemma_same_tag_list(*self, ia, *other, ib, fuel, *t, *c, *u, *d);
                }
                true
            },
            (NBTNode::Compound(x), NBTNode::Compound(y)) => {
                if x.0.len() != y.0.len() {
                    proof {
                        lemma_same_tag_compound(*self, ia, *other, ib, fuel, *x, *y);
                    }
                    return false;
                }
                let mut k: usize = 0;
                while k < x.0.len()
                    invariant
                        self.wf(),
                        other.wf(),
                        self.node_map().dom().contains(ia),
                        other.node_map().dom().contains(ib),
                        fuel >= self.tag_budget(ia),
                        fuel >= 1,
                        self.node_map()[ia] == NBTNode::Compound(*x),
                        other.node_map()[ib] == NBTNode::Compound(*y),
                        x@.len() == y@.len(),
                        x.0@.len() == x@.len(),
                        y.0@.len() == y@.len(),
                        k <= x@.len(),
                        entries_match_upto(*self, x@, *other, y@, (fuel - 1) as nat, k as int),
                    decreases x@.len() - k,
                {
                    proof {
                        self.lemma_budget_child(ia, k as int);
                        other.lemma_budget_child(ib, k as int);
                        assert(children(self.node_map()[ia])[k as int] == x@[k as int].1);
                        assert(children(other.node_map()[ib])[k as int] == y@[k as int].1);
                    }
                    assert(x@[k as int] == (x.0@[k as int].0@, x.0@[k as int].1));
                    assert(y@[k as int] == (y.0@[k as int].0@, y.0@[k as int].1));
                    if x.0[k].0 != y.0[k].0 {
                        proof {
                            assert(x@[k as int].0 != y@[k as int].0);
                            assert(!entry_matches(*self, x@, *other, y@, (fuel - 1) as nat, k as int));
                            lemma_same_tag_compound(*self, ia, *other, ib, fuel, *x, *y);
                        }
                        return false;
                    }
                    if !self.tags_equal(x.0[k].1, other, y.0[k].1, Ghost((fuel - 1) as nat)) {
                        proof {
                            assert(!same_tag(*self, x@[k as int].1, *other, y@[k as int].1, (fuel - 1) as nat));
                            assert(!entry_matches(*self, x@, *other, y@, (fuel - 1) as nat, k as int));
                            lemma_same_tag_compound(*self, ia, *other, ib, fuel, *x, *y);
                        }
                        return false;
                    }
                    k += 1;
                }
                proof {
                    lemma_same_tag_compound(*self, ia, *other, ib, fuel, *x, *y);
                }
                true
            },
            _ => false,
        }
    }

    /// Whether two documents hold the same root tag (their root names aside).
    pub fn eq(&self, other: &NBT) -> (r: bool)
        requires
            self.wf(),
            other.wf(),
        ensures
            r == same_tag(*self, self.root(), *other, other.root(), self.tag_budget(self.root())),
    {
        self.tags_equal(self.root_index, other, other.root_index, Ghost(self.tag_budget(self.root_index)))
    }
}

impl<'a> PartialEq for CompoundRef<'a> {
    fn eq(&self, other: &Self) -> (r: bool) {
        proof {
            use_type_invariant(self);
            use_type_invariant(other);
        }
        self.nbt.tags_equal(self.node_idx, other.nbt, other.node_idx, Ghost(self.nbt.tag_budget(self.node_idx)))
    }
}

impl<'a> vstd::std_specs::cmp::PartialEqSpecImpl for CompoundRef<'a> {
    open spec fn obeys_eq_spec() -> bool {
        true
    }

    open spec fn eq_spec(&self, other: &Self) -> bool {
        same_tag(self.doc(), self.node_index(), other.doc(), other.node_index(), self.doc().tag_budget(self.node_index()))
    }
}

impl<'a> PartialEq for ListRef<'a> {
    fn eq(&self, other: &Self) -> (r: bool) {
        proof {
            use_type_invariant(self);
            use_type_invariant(other);
        }
        self.nbt.tags_equal(self.node_idx, other.nbt, other.node_idx, Ghost(self.nbt.tag_budget(self.node_idx)))
    }
}

impl<'a> vstd::std_specs::cmp::PartialEqSpecImpl for ListRef<'a> {
    open spec fn obeys_eq_spec() -> bool {
        true
    }

    open spec fn eq_spec(&self, other: &Self) -> bool {
        same_tag(self.doc(), self.node_index(), other.doc(), other.node_index(), self.doc().tag_budget(self.node_index()))
    }
}

/// Whether two references view the same tag: leaves by value (floats as floats, NaN
/// equal to NaN), lists and compounds by their contents.
pub open spec fn refs_same(x: NBTRef, y: NBTRef) -> bool {
    match (x, y) {
        (NBTRef::Byte(a), NBTRef::Byte(b)) => *a == *b,
        (NBTRef::Short(a), NBTRef::Short(b)) => *a == *b,
        (NBTRef::Int(a), NBTRef::Int(b)) => *a == *b,
        (NBTRef::Long(a), NBTRef::Long(b)) => *a == *b,
        (NBTRef::Float(a), NBTRef::Float(b)) => f32_same(*a, *b),
        (NBTRef::Double(a), NBTRef::Double(b)) => f64_same(*a, *b),
        (NBTRef::ByteArray(a), NBTRef::ByteArray(b)) => a@ == b@,
        (NBTRef::String(a), NBTRef::String(b)) => a@ == b@,
        (NBTRef::IntArray(a), NBTRef::IntArray(b)) => a@ == b@,
        (NBTRef::LongArray(a), NBTRef::LongArray(b)) => a@ == b@,
        (NBTRef::List(a), NBTRef::List(b)) => same_tag(a.doc(), a.node_index(), b.doc(), b.node_index(), a.doc().tag_budget(a.node_index())),
        (NBTRef::Compound(a), NBTRef::Compound(b)) => same_tag(a.doc(), a.node_index(), b.doc(), b.node_index(), a.doc().tag_budget(a.node_index())),
        _ => false,
    }
}

impl<'a> PartialEq for NBTRef<'a> {
    fn eq(&self, other: &Self) -> (r: bool) {
        match (self, other) {
            (NBTRef::Byte(a), NBTRef::Byte(b)) => **a == **b,
            (NBTRef::Short(a), NBTRef::Short(b)) => **a == **b,
            (NBTRef::Int(a), NBTRef::Int(b)) => **a == **b,
            (NBTRef::Long(a), NBTRef::Long(b)) => **a == **b,
            (NBTRef::Float(a), NBTRef::Float(b)) => f32_bits_same(**a, **b),
            (NBTRef::Double(a), NBTRef::Double(b)) => f64_bits_same(**a, **b),
            (NBTRef::ByteArray(a), NBTRef::ByteArray(b)) => {
                let r = **a == **b;
                proof {
                    if r {
                        assert(a@ =~= b@);
                    }
                }
                r
            },
            (NBTRef::String(a), NBTRef::String(b)) => **a == **b,
            (NBTRef::IntArray(a), NBTRef::IntArray(b)) => {
                let r = **a == **b;
                proof {
                    if r {
                        assert(a@ =~= b@);
                    }
                }
                r
            },
            (NBTRef::LongArray(a), NBTRef::LongArray(b)) => {
                let r = **a == **b;
                proof {
                    if r {
                        assert(a@ =~= b@);
                    }
                }
                r
            },
            (NBTRef::List(a), NBTRef::List(b)) => a == b,
            (NBTRef::Compound(a), NBTRef::Compound(b)) => a == b,
            _ => false,
        }
    }
}

impl<'a> vstd::std_specs::cmp::PartialEqSpecImpl for NBTRef<'a> {
    open spec fn obeys_eq_spec() -> bool {
        true
    }

    open spec fn eq_spec(&self, other: &Self) -> bool {
        refs_same(*self, *other)
    }
}

}
