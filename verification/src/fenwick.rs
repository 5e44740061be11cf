use vstd::prelude::*;

verus! {

// ---------------------------------------------------------------------------
// Mathematical model
// ---------------------------------------------------------------------------

/// `p` with its lowest set bit cleared (`0` stays `0`).
pub open spec fn drop_lowest_bit(p: usize) -> usize {
    if p == 0 {
        0
    } else {
        p & ((p - 1) as usize)
    }
}

/// Sum of the first `p` items, read from the tree by the usual query walk:
/// node `p - 1` holds the items in `[drop_lowest_bit(p), p)`.
pub open spec fn tree_prefix(tree: Seq<usize>, p: usize) -> int
    decreases p,
{
    if p == 0 || p > tree.len() {
        0
    } else {
        proof {
            lemma_drop_lowest_bit_lt(p);
        }
        tree[p - 1] + tree_prefix(tree, p & ((p - 1) as usize))
    }
}

/// The item sizes that a tree stores: item `i` is the difference of two prefix sums.
pub open spec fn tree_items(tree: Seq<usize>) -> Seq<int> {
    Seq::new(tree.len(), |i: int| tree_prefix(tree, (i + 1) as usize) - tree_prefix(tree, i as usize))
}

/// Sum of the first `k` elements of `s`.
pub open spec fn sum_first(s: Seq<int>, k: int) -> int
    decreases k,
{
    if k <= 0 {
        0
    } else {
        sum_first(s, k - 1) + s[k - 1]
    }
}

/// Sum of all elements of `s`.
pub open spec fn total(s: Seq<int>) -> int {
    sum_first(s, s.len() as int)
}

/// The sum that node `j` of a tree over `items` holds: the items in `[j & (j + 1), j]`.
pub open spec fn node_sum(items: Seq<int>, j: int) -> int {
    sum_first(items, j + 1) - sum_first(items, ((j as usize) & ((j + 1) as usize)) as int)
}

/// Whether every node of a tree over `items` holds a sum that fits in a `usize`.
pub open spec fn nodes_fit(items: Seq<int>) -> bool {
    forall|j: int| 0 <= j < items.len() ==> #[trigger] node_sum(items, j) <= usize::MAX
}

/// Whether adding `diff` to item `index` keeps every node that covers it within a `usize`.
pub open spec fn add_fits(items: Seq<int>, index: usize, diff: usize) -> bool {
    forall|j: int|
        0 <= j < items.len() && covers(j as usize, index) ==> #[trigger] node_sum(items, j) + diff
            <= usize::MAX
}

/// Whether every element of `s` is non-negative.
pub open spec fn all_non_negative(s: Seq<int>) -> bool {
    forall|i: int| 0 <= i < s.len() ==> s[i] >= 0
}

/// Whether node `j` covers item `x`, i.e. `x` lies in `[j & (j + 1), j]`.
pub open spec fn covers(j: usize, x: usize) -> bool {
    j < usize::MAX && (j & ((j + 1) as usize)) <= x && x <= j
}

/// Whether `n` is a power of two.
pub open spec fn is_pow2(n: usize) -> bool {
    n != 0 && n & ((n - 1) as usize) == 0
}

// ---------------------------------------------------------------------------
// Bit lemmas
// ---------------------------------------------------------------------------

pub proof fn lemma_drop_lowest_bit_lt(p: usize)
    by (bit_vector)
    requires
        p > 0,
    ensures
        p & ((p - 1) as usize) < p,
{
}

/// The node after `i` on the update walk still covers `x`, and no node in between does.
proof fn lemma_update_step(i: usize, x: usize, j: usize)
    by (bit_vector)
    requires
        (i + 1) as usize == i + 1,
        (i & ((i + 1) as usize)) <= x,
        x <= i,
    ensures
        (i | ((i + 1) as usize)) > i,
        ((i | ((i + 1) as usize)) + 1) as usize == (i | ((i + 1) as usize)) + 1 ==> ((i | ((i + 1) as usize)) & (((i | ((i
            + 1) as usize)) + 1) as usize)) <= x,
        i < j && j < (i | ((i + 1) as usize)) ==> !((j & ((j + 1) as usize))
            <= x && x <= j),
{
}

/// Node `p - 1` covers exactly the items `[drop_lowest_bit(p), p)`.
proof fn lemma_covers_range(p: usize, x: usize)
    by (bit_vector)
    requires
        p > 0,
    ensures
        (((p - 1) as usize) & p) == (p & ((p - 1) as usize)),
{
}

proof fn lemma_lowest_bit_of_probe(index: usize, step: usize)
    by (bit_vector)
    requires
        step != 0,
        step & ((step - 1) as usize) == 0,
        index & ((step - 1) as usize) == 0,
        index & step == 0,
        (index + step) as usize == index + step,
    ensures
        ((index + step) as usize) & (((index + step) - 1) as usize) == index,
        ((index + step) as usize) & (((index + step) as usize) ^ (((index + step) - 1) as usize)) == step,
{
}

}

verus! {

// ---------------------------------------------------------------------------
// Lemmas about prefix sums
// ---------------------------------------------------------------------------

/// Appending a node does not change the prefix sums that end before it.
pub proof fn lemma_prefix_sum_push(tree: Seq<usize>, v: usize, p: usize)
    requires
        p <= tree.len(),
    ensures
        tree_prefix(tree.push(v), p) == tree_prefix(tree, p),
    decreases p,
{
    if p > 0 {
        lemma_drop_lowest_bit_lt(p);
        lemma_prefix_sum_push(tree, v, p & ((p - 1) as usize));
    }
}

/// The prefix sums of a tree are the sums of its items.
pub proof fn lemma_prefix_sum_is_sum(tree: Seq<usize>, k: usize)
    requires
        k <= tree.len(),
    ensures
        tree_prefix(tree, k) == sum_first(tree_items(tree), k as int),
    decreases k,
{
    if k > 0 {
        lemma_prefix_sum_is_sum(tree, (k - 1) as usize);
    }
}

pub proof fn lemma_sum_first_mono(s: Seq<int>, a: int, b: int)
    requires
        all_non_negative(s),
        0 <= a <= b <= s.len(),
    ensures
        sum_first(s, a) <= sum_first(s, b),
    decreases b,
{
    if a < b {
        lemma_sum_first_mono(s, a, b - 1);
    }
}

pub proof fn lemma_sum_first_ge_elem(s: Seq<int>, a: int, x: int, b: int)
    requires
        all_non_negative(s),
        0 <= a <= x < b <= s.len(),
    ensures
        sum_first(s, b) - sum_first(s, a) >= s[x],
{
    lemma_sum_first_mono(s, x + 1, b);
    lemma_sum_first_mono(s, a, x);
}

pub proof fn lemma_sum_first_nonneg(s: Seq<int>, k: int)
    requires
        all_non_negative(s),
        0 <= k <= s.len(),
    ensures
        sum_first(s, k) >= 0,
{
    lemma_sum_first_mono(s, 0, k);
}

pub proof fn lemma_sum_first_update(s: Seq<int>, x: int, d: int, k: int)
    requires
        0 <= x < s.len(),
        0 <= k <= s.len(),
    ensures
        sum_first(s.update(x, s[x] + d), k) == sum_first(s, k) + (if x < k { d } else { 0 }),
    decreases k,
{
    if k > 0 {
        lemma_sum_first_update(s, x, d, k - 1);
    }
}

pub proof fn lemma_sum_first_push(s: Seq<int>, v: int, k: int)
    requires
        0 <= k <= s.len(),
    ensures
        sum_first(s.push(v), k) == sum_first(s, k),
    decreases k,
{
    if k > 0 {
        lemma_sum_first_push(s, v, k - 1);
    }
}

/// Every node holds a contiguous range sum; with non-negative items it lies between
/// the size of any item it covers and the total.
proof fn lemma_node_bounds(tree: Seq<usize>, j: usize)
    requires
        j < tree.len(),
        tree.len() <= usize::MAX,
        all_non_negative(tree_items(tree)),
    ensures
        tree[j as int] <= total(tree_items(tree)),
        forall|x: usize| covers(j, x) ==> tree[j as int] >= #[trigger] tree_items(tree)[x as int],
{
    let p = (j + 1) as usize;
    let q = p & ((p - 1) as usize);
    lemma_drop_lowest_bit_lt(p);
    lemma_covers_range(p, 0);
    let items = tree_items(tree);
    lemma_prefix_sum_is_sum(tree, p);
    lemma_prefix_sum_is_sum(tree, q);
    lemma_prefix_sum_is_sum(tree, tree.len() as usize);
    assert(tree[j as int] == tree_prefix(tree, p) - tree_prefix(tree, q));
    lemma_sum_first_nonneg(items, q as int);
    lemma_sum_first_mono(items, p as int, tree.len() as int);
    assert forall|x: usize| covers(j, x) implies tree[j as int] >= #[trigger] items[x as int] by {
        lemma_sum_first_ge_elem(items, q as int, x as int, p as int);
    }
}

/// Node `j` holds the sum of the items it covers.
proof fn lemma_node_is_sum(tree: Seq<usize>, j: int)
    requires
        0 <= j < tree.len(),
        tree.len() <= usize::MAX,
    ensures
        tree[j] == node_sum(tree_items(tree), j),
{
    let p = (j + 1) as usize;
    lemma_covers_range(p, 0);
    lemma_drop_lowest_bit_lt(p);
    lemma_prefix_sum_is_sum(tree, p);
    lemma_prefix_sum_is_sum(tree, p & ((p - 1) as usize));
    assert(((p - 1) as usize) & p == (j as usize) & ((j + 1) as usize));
}

/// Node sums depend only on the items up to the node.
proof fn lemma_node_sum_take(items: Seq<int>, k: int, j: int)
    requires
        0 <= j < k <= items.len(),
        k <= usize::MAX,
    ensures
        node_sum(items.take(k), j) == node_sum(items, j),
{
    let p = (j + 1) as usize;
    lemma_covers_range(p, 0);
    lemma_drop_lowest_bit_lt(p);
    assert(((p - 1) as usize) & p == (j as usize) & ((j + 1) as usize));
    lemma_sum_first_take(items, k, j + 1);
    lemma_sum_first_take(items, k, ((j as usize) & ((j + 1) as usize)) as int);
}

/// Adding `d` to every node that covers `x` adds `d` to each prefix sum past `x`.
proof fn lemma_prefix_sum_add(old_tree: Seq<usize>, new_tree: Seq<usize>, x: usize, d: int, p: usize)
    requires
        old_tree.len() == new_tree.len(),
        p <= old_tree.len(),
        forall|j: int|
            0 <= j < old_tree.len() ==> new_tree[j] == old_tree[j] + (if covers(
                j as usize,
                x,
            ) {
                d
            } else {
                0
            }),
    ensures
        tree_prefix(new_tree, p) == tree_prefix(old_tree, p) + (if x < p { d } else { 0 }),
    decreases p,
{
    if p > 0 {
        let q = p & ((p - 1) as usize);
        lemma_drop_lowest_bit_lt(p);
        lemma_covers_range(p, x);
        lemma_prefix_sum_add(old_tree, new_tree, x, d, q);
        assert(new_tree[p - 1] == old_tree[p - 1] + (if covers((p - 1) as usize, x) {
            d
        } else {
            0
        }));
    }
}

/// The items after adding `d` to every node that covers `x`.
proof fn lemma_items_add(old_tree: Seq<usize>, new_tree: Seq<usize>, x: usize, d: int)
    requires
        old_tree.len() == new_tree.len(),
        old_tree.len() <= usize::MAX,
        forall|j: int|
            0 <= j < old_tree.len() ==> new_tree[j] == old_tree[j] + (if covers(
                j as usize,
                x,
            ) {
                d
            } else {
                0
            }),
    ensures
        x < old_tree.len() ==> tree_items(new_tree) == tree_items(old_tree).update(
            x as int,
            tree_items(old_tree)[x as int] + d,
        ),
        x >= old_tree.len() ==> tree_items(new_tree) == tree_items(old_tree),
{
    let n = old_tree.len();
    assert forall|i: int| 0 <= i < n implies #[trigger] tree_items(new_tree)[i] == tree_items(
        old_tree,
    )[i] + (if i == x { d } else { 0 }) by {
        lemma_prefix_sum_add(old_tree, new_tree, x, d, (i + 1) as usize);
        lemma_prefix_sum_add(old_tree, new_tree, x, d, i as usize);
    }
    if x < n {
        assert(tree_items(new_tree) =~= tree_items(old_tree).update(
            x as int,
            tree_items(old_tree)[x as int] + d,
        ));
    } else {
        assert(tree_items(new_tree) =~= tree_items(old_tree));
    }
}

}

verus! {

proof fn lemma_highest_bit(n: usize, k: u32)
    by (bit_vector)
    requires
        k < usize::BITS,
        (n >> k) == 1usize,
    ensures
        (1usize << k) <= n,
        n / 2 < (1usize << k),
        (1usize << k) != 0usize,
        (1usize << k) & (((1usize << k) - 1usize) as usize) == 0usize,
{
}

proof fn lemma_pow2_half(step: usize)
    by (bit_vector)
    requires
        step != 0usize,
        step & ((step - 1usize) as usize) == 0usize,
    ensures
        step / 2 == 0usize ==> step == 1usize,
        step / 2 != 0usize ==> (step / 2) & (((step / 2) - 1usize) as usize) == 0usize,
        step % 2 == 1usize ==> step == 1usize,
        step / 2 + step / 2 == step || step == 1usize,
{
}

proof fn lemma_multiple_step(index: usize, step: usize)
    by (bit_vector)
    requires
        step != 0usize,
        step & ((step - 1usize) as usize) == 0usize,
        step / 2 != 0usize,
        index & ((step - 1usize) as usize) == 0usize,
        index & step == 0usize,
        (index + step) as usize == index + step,
    ensures
        ((index + step) as usize) & ((step / 2 - 1usize) as usize) == 0usize,
        ((index + step) as usize) & (step / 2) == 0usize,
        index & ((step / 2 - 1usize) as usize) == 0usize,
        index & (step / 2) == 0usize,
{
}

/// The children that `push` folds into a new node `index` whose `t` lowest bits are set.
proof fn lemma_push_child(index: usize, t: u32, i: u32)
    by (bit_vector)
    requires
        i < t,
        t < usize::BITS,
        (!index) & (((1usize << t) - 1usize) as usize) == 0usize,
        ((!index) >> t) & 1usize == 1usize,
    ensures
        (1usize << i) <= index,
        (1usize << i) > 0usize,
        index & !(1usize << i) == index - (1usize << i),
        ((index - (1usize << i) + 1usize) as usize) & ((index - (1usize << i)) as usize) == index
            - (1usize << ((i + 1) as u32)) + 1usize,
        (1usize << ((i + 1) as u32)) <= index + 1,
        (1usize << ((i + 1) as u32)) > 0usize,
        (1usize << ((i + 1) as u32)) <= (1usize << t),
{
}

proof fn lemma_push_end(index: usize, t: u32)
    by (bit_vector)
    requires
        t < usize::BITS,
        (!index) & (((1usize << t) - 1usize) as usize) == 0usize,
        ((!index) >> t) & 1usize == 1usize,
        (index + 1usize) as usize == index + 1usize,
    ensures
        ((index + 1usize) as usize) & index == index - (1usize << t) + 1usize,
        (1usize << t) <= index + 1usize,
        (1usize << t) > 0usize,
{
}

proof fn lemma_not_max(index: usize)
    by (bit_vector)
    requires
        (index + 1usize) as usize == index + 1usize,
    ensures
        !index != 0usize,
{
}

proof fn lemma_covers_self(i: usize)
    by (bit_vector)
    requires
        (i + 1usize) as usize == i + 1usize,
    ensures
        i & ((i + 1usize) as usize) <= i,
{
}

proof fn lemma_and_comm(a: usize, b: usize)
    by (bit_vector)
    ensures
        a & b == b & a,
{
}

proof fn lemma_zero_and(y: usize)
    by (bit_vector)
    ensures
        0usize & y == 0usize,
{
}

proof fn lemma_shift_zero()
    by (bit_vector)
    ensures
        (1usize << 0u32) == 1usize,
{
}

proof fn lemma_double_pow2(m: usize)
    by (bit_vector)
    requires
        m != 0usize,
        m & ((m - 1usize) as usize) == 0usize,
        (m * 2) as usize == m * 2,
    ensures
        ((m * 2) as usize) != 0usize,
        ((m * 2) as usize) & ((((m * 2) as usize) - 1usize) as usize) == 0usize,
{
}

proof fn lemma_or_no_overflow(i: usize)
    by (bit_vector)
    requires
        (i + 1usize) as usize == i + 1usize,
    ensures
        i | ((i + 1usize) as usize) >= i,
{
}

// ---------------------------------------------------------------------------
// Calls into std
// ---------------------------------------------------------------------------

/// `usize::leading_zeros`: the number of zero bits above the highest set bit, so for a
/// non-zero `n` the highest set bit is bit `usize::BITS - 1 - r`.
#[verifier::external_body]
fn usize_leading_zeros(n: usize) -> (r: u32)
    ensures
        r <= usize::BITS,
        n == 0 ==> r == usize::BITS,
        n != 0 ==> r < usize::BITS && (n >> ((usize::BITS - 1 - r) as u32)) == 1usize,
{
    n.leading_zeros()
}

/// `usize::trailing_zeros`: the number of zero bits below the lowest set bit, so for a
/// non-zero `n` bit `r` is set and all bits below it are clear.
#[verifier::external_body]
fn usize_trailing_zeros(n: usize) -> (r: u32)
    ensures
        r <= usize::BITS,
        n == 0 ==> r == usize::BITS,
        n != 0 ==> r < usize::BITS && (n >> r) & 1usize == 1usize && n & (((1usize << r)
            - 1usize) as usize) == 0usize,
{
    n.trailing_zeros()
}

// ---------------------------------------------------------------------------
// Bit helpers
// ---------------------------------------------------------------------------

/// The lowest set bit of `n` (`0` for `0`).
fn least_significant_bit(n: usize) -> (r: usize)
    ensures
        n == 0 ==> r == 0,
        n != 0 ==> r == n & (n ^ ((n - 1) as usize)),
{
    if n == 0 {
        0
    } else {
        n & (n ^ (n - 1))
    }
}

/// The highest set bit of `n` (`0` for `0`).
fn most_significant_bit(n: usize) -> (r: usize)
    ensures
        n == 0 ==> r == 0,
        n != 0 ==> is_pow2(r) && r <= n && n / 2 < r,
{
    if n == 0 {
        0
    } else {
        let lz = usize_leading_zeros(n);
        let k = usize::BITS - 1 - lz;
        proof {
            lemma_highest_bit(n, k);
        }
        1 << k
    }
}

// ---------------------------------------------------------------------------
// The tree
// ---------------------------------------------------------------------------

/// Largest number of items a tree holds: a `Vec<usize>` longer than this could not be
/// allocated.
pub open spec fn max_items() -> nat {
    (usize::MAX / 2) as nat
}

/// A Fenwick (binary indexed) tree over item sizes: it answers prefix sums and finds the
/// item that contains a given offset in logarithmic time.
#[derive(Debug, PartialEq, Eq)]
pub struct FenwickTree {
    inner: Vec<usize>,
}

impl View for FenwickTree {
    type V = Seq<int>;

    /// The item sizes, in order.
    closed spec fn view(&self) -> Seq<int> {
        tree_items(self.inner@)
    }
}

impl Clone for FenwickTree {
    fn clone(&self) -> (r: Self)
        ensures
            r@ == self@,
    {
        proof {
            use_type_invariant(self);
        }
        FenwickTree { inner: self.inner.clone() }
    }
}

impl FenwickTree {
    #[verifier::type_invariant]
    spec fn inv(self) -> bool {
        &&& self.inner@.len() <= max_items()
        &&& all_non_negative(tree_items(self.inner@))
    }

    /// An empty tree.
    pub fn new() -> (r: Self)
        ensures
            r@ == Seq::<int>::empty(),
            all_non_negative(r@),
    {
        let r = Self { inner: Vec::new() };
        assert(r@ =~= Seq::<int>::empty());
        r
    }

    /// A tree holding `values`, in order.
    pub fn from_iter(values: &[usize]) -> (r: Self)
        requires
            values@.len() <= max_items(),
            nodes_fit(values@.map_values(|v: usize| v as int)),
        ensures
            r@ == values@.map_values(|v: usize| v as int),
            all_non_negative(r@),
    {
        let ghost vs = values@.map_values(|v: usize| v as int);
        let mut tree = Self::new();
        let mut k: usize = 0;
        while k < values.len()
            invariant
                k <= values@.len(),
                values@.len() <= max_items(),
                vs == values@.map_values(|v: usize| v as int),
                nodes_fit(vs),
                tree@ == vs.take(k as int),
            decreases values@.len() - k,
        {
            proof {
                assert(vs.take(k as int + 1) == vs.take(k as int).push(vs[k as int]));
                assert(vs[k as int] == values@[k as int] as int);
                lemma_node_sum_take(vs, k as int + 1, k as int);
                assert(node_sum(vs, k as int) <= usize::MAX);
            }
            tree.push(values[k]);
            k += 1;
        }
        assert(vs.take(k as int) =~= vs);
        tree
    }

    /// Number of items.
    pub fn len(&self) -> (r: usize)
        ensures
            r == self@.len(),
            all_non_negative(self@),
    {
        proof {
            use_type_invariant(self);
        }
        self.inner.len()
    }

    /// Whether the tree holds no item.
    pub fn is_empty(&self) -> (r: bool)
        ensures
            r == (self@.len() == 0),
    {
        self.inner.len() == 0
    }

    /// The nodes of the tree: node `j` holds the sum of the items in
    /// `[j & (j + 1), j]`.
    pub fn inner(&self) -> (r: &[usize])
        ensures
            r@.len() == self@.len(),
            forall|j: int| 0 <= j < r@.len() ==> r@[j] == node_sum(self@, j),
    {
        proof {
            use_type_invariant(self);
            assert forall|j: int| 0 <= j < self.inner@.len() implies self.inner@[j] == node_sum(
                self@,
                j,
            ) by {
                lemma_node_is_sum(self.inner@, j);
            }
        }
        self.inner.as_slice()
    }

    /// Adds `diff` to the item at `index`; an index past the end changes nothing.
    pub fn add_at(&mut self, index: usize, diff: usize)
        requires
            add_fits(old(self)@, index, diff),
        ensures
            index < old(self)@.len() ==> final(self)@ == old(self)@.update(
                index as int,
                old(self)@[index as int] + diff,
            ),
            index >= old(self)@.len() ==> final(self)@ == old(self)@,
            all_non_negative(final(self)@),
    {
        proof {
            use_type_invariant(&*self);
        }
        let mut inner = Vec::new();
        std::mem::swap(&mut inner, &mut self.inner);
        let ghost old_tree = inner@;
        let n = inner.len();
        let mut i = index;
        proof {
            if index < n {
                lemma_covers_self(index);
            }
        }
        while i < n
            invariant
                n == inner@.len(),
                n == old_tree.len(),
                n <= max_items(),
                all_non_negative(tree_items(old_tree)),
                add_fits(tree_items(old_tree), index, diff),
                i < n ==> covers(i, index),
                index <= i,
                forall|j: int|
                    0 <= j < n ==> inner@[j] == old_tree[j] + (if j < i && covers(
                        j as usize,
                        index,
                    ) {
                        diff as int
                    } else {
                        0
                    }),
            decreases usize::MAX - i,
        {
            proof {
                lemma_node_is_sum(old_tree, i as int);
                assert(node_sum(tree_items(old_tree), i as int) + diff <= usize::MAX);
                lemma_or_no_overflow(i);
                assert forall|j: usize| i < j < (i | ((i + 1) as usize)) implies !covers(j, index) by {
                    lemma_update_step(i, index, j);
                }
                lemma_update_step(i, index, i);
            }
            let v = inner[i];
            inner.set(i, v + diff);
            i |= i + 1;
        }
        proof {
            lemma_items_add(old_tree, inner@, index, diff as int);
        }
        self.inner = inner;
    }

    /// Subtracts `diff` from the item at `index`; an index past the end changes nothing.
    pub fn sub_at(&mut self, index: usize, diff: usize)
        requires
            index < old(self)@.len() ==> diff <= old(self)@[index as int],
        ensures
            index < old(self)@.len() ==> final(self)@ == old(self)@.update(
                index as int,
                old(self)@[index as int] - diff,
            ),
            index >= old(self)@.len() ==> final(self)@ == old(self)@,
            all_non_negative(final(self)@),
    {
        proof {
            use_type_invariant(&*self);
        }
        let mut inner = Vec::new();
        std::mem::swap(&mut inner, &mut self.inner);
        let ghost old_tree = inner@;
        let n = inner.len();
        let mut i = index;
        proof {
            if index < n {
                lemma_covers_self(index);
            }
        }
        while i < n
            invariant
                n == inner@.len(),
                n == old_tree.len(),
                n <= max_items(),
                all_non_negative(tree_items(old_tree)),
                index < n ==> diff <= tree_items(old_tree)[index as int],
                i < n ==> covers(i, index),
                index <= i,
                forall|j: int|
                    0 <= j < n ==> inner@[j] == old_tree[j] - (if j < i && covers(
                        j as usize,
                        index,
                    ) {
                        diff as int
                    } else {
                        0
                    }),
            decreases usize::MAX - i,
        {
            proof {
                lemma_node_bounds(old_tree, i);
                lemma_or_no_overflow(i);
                assert forall|j: usize| i < j < (i | ((i + 1) as usize)) implies !covers(j, index) by {
                    lemma_update_step(i, index, j);
                }
                lemma_update_step(i, index, i);
            }
            let v = inner[i];
            inner.set(i, v - diff);
            i |= i + 1;
        }
        proof {
            lemma_items_add(old_tree, inner@, index, -diff);
            if index < n {
                assert forall|k: int| 0 <= k < n implies #[trigger] tree_items(inner@)[k] >= 0 by {}
            }
        }
        self.inner = inner;
    }

    /// Appends an item.
    pub fn push(&mut self, value: usize)
        requires
            old(self)@.len() < max_items(),
            node_sum(old(self)@.push(value as int), old(self)@.len() as int) <= usize::MAX,
        ensures
            final(self)@ == old(self)@.push(value as int),
            all_non_negative(final(self)@),
    {
        proof {
            use_type_invariant(&*self);
        }
        let mut inner = Vec::new();
        std::mem::swap(&mut inner, &mut self.inner);
        let ghost old_tree = inner@;
        let ghost items = tree_items(old_tree);
        let index = inner.len();
        inner.push(value);
        proof {
            lemma_not_max(index);
            lemma_prefix_sum_is_sum(old_tree, index);
            lemma_sum_first_nonneg(items, index as int);
        }
        let lower_one_bits = usize_trailing_zeros(!index);
        let mut i: u32 = 0;
        let ghost lo = (index - (1usize << lower_one_bits) + 1) as usize;
        proof {
            lemma_shift_zero();
            lemma_push_end(index, lower_one_bits);
            lemma_and_comm(index, (index + 1) as usize);
            let pushed = items.push(value as int);
            assert(sum_first(pushed, index + 1) == sum_first(pushed, index as int) + value);
            lemma_sum_first_push(items, value as int, index as int);
            lemma_sum_first_push(items, value as int, lo as int);
            lemma_prefix_sum_is_sum(old_tree, lo);
            assert(node_sum(pushed, index as int) == value + tree_prefix(old_tree, index)
                - tree_prefix(old_tree, lo));
        }
        while i < lower_one_bits
            invariant
                index == old_tree.len(),
                index < max_items(),
                lower_one_bits < usize::BITS,
                (!index) & (((1usize << lower_one_bits) - 1usize) as usize) == 0usize,
                ((!index) >> lower_one_bits) & 1usize == 1usize,
                i <= lower_one_bits,
                inner@.len() == index + 1,
                inner@.subrange(0, index as int) == old_tree,
                all_non_negative(items),
                items == tree_items(old_tree),
                tree_prefix(old_tree, index) == total(items),
                lo == (index - (1usize << lower_one_bits) + 1) as usize,
                (1usize << lower_one_bits) <= index + 1,
                value + tree_prefix(old_tree, index) - tree_prefix(old_tree, lo) <= usize::MAX,
                (1usize << i) <= index + 1,
                (1usize << i) <= (1usize << lower_one_bits),
                inner@[index as int] == value + tree_prefix(old_tree, index) - tree_prefix(
                    old_tree,
                    (index - (1usize << i) + 1) as usize,
                ),
            decreases lower_one_bits - i,
        {
            proof {
                lemma_push_child(index, lower_one_bits, i);
            }
            let child = index & !(1 << i);
            proof {
                let c = child;
                let p = (c + 1) as usize;
                assert(c < index);
                assert(inner@.subrange(0, index as int)[c as int] == inner@[c as int]);
                assert(inner@[c as int] == old_tree[c as int]);
                assert(p & ((p - 1) as usize) == index - (1usize << ((i + 1) as u32)) + 1);
                assert(old_tree[c as int] == tree_prefix(old_tree, p) - tree_prefix(
                    old_tree,
                    p & ((p - 1) as usize),
                ));
                lemma_prefix_sum_is_sum(old_tree, (index - (1usize << ((i + 1) as u32)) + 1) as usize);
                lemma_prefix_sum_is_sum(old_tree, lo);
                lemma_sum_first_mono(items, lo as int, index - (1usize << ((i + 1) as u32)) + 1);
            }
            let child_val = inner[child];
            let cur = inner[index];
            inner.set(index, cur + child_val);
            i += 1;
        }
        proof {
            let new_tree = inner@;
            assert(new_tree == old_tree.push(new_tree[index as int]));
            assert forall|p: usize| p <= index implies tree_prefix(new_tree, p) == tree_prefix(
                old_tree,
                p,
            ) by {
                lemma_prefix_sum_push(old_tree, new_tree[index as int], p);
            }
            assert(tree_prefix(new_tree, (index + 1) as usize) == new_tree[index as int]
                + tree_prefix(new_tree, lo));
            assert(tree_prefix(new_tree, lo) == tree_prefix(old_tree, lo));
            assert(tree_prefix(new_tree, index) == tree_prefix(old_tree, index));
            assert(new_tree[index as int] == value + tree_prefix(old_tree, index) - tree_prefix(old_tree, lo));
            assert(tree_items(new_tree)[index as int] == value);
            assert forall|k: int| 0 <= k < index implies tree_items(new_tree)[k] == items[k] by {
                assert(tree_prefix(new_tree, (k + 1) as usize) == tree_prefix(old_tree, (k + 1) as usize));
                assert(tree_prefix(new_tree, k as usize) == tree_prefix(old_tree, k as usize));
            }
            assert(tree_items(new_tree) =~= items.push(value as int));
        }
        self.inner = inner;
    }

    /// Finds the item that holds offset `prefix_sum`: the result is the number `k` of
    /// leading items whose sizes add up to less than `prefix_sum` (as many as there are,
    /// items of size zero included), and the offset that remains inside item `k`.
    pub fn index_of_with_remainder(&self, prefix_sum: usize) -> (r: (usize, usize))
        ensures
            r.0 <= self@.len(),
            r.1 == prefix_sum - sum_first(self@, r.0 as int),
            r.0 == 0 || sum_first(self@, r.0 as int) < prefix_sum,
            r.0 == self@.len() || sum_first(self@, r.0 + 1) >= prefix_sum,
            r.0 < self@.len() ==> r.1 <= self@[r.0 as int],
    {
        proof {
            use_type_invariant(self);
        }
        let ghost tree = self.inner@;
        let ghost s0 = prefix_sum;
        let mut prefix_sum = prefix_sum;
        let n = self.inner.len();
        let mut index: usize = 0;
        let msb = most_significant_bit(n);
        let mut probe = msb * 2;
        let ghost mut step: usize = probe;
        proof {
            if n > 0 {
                lemma_double_pow2(msb);
                lemma_zero_and((probe - 1) as usize);
                lemma_zero_and(probe);
            }
        }
        loop
            invariant_except_break
                probe == 0 ==> n == 0 && index == 0 && prefix_sum == s0,
                probe != 0 ==> {
                    &&& is_pow2(step)
                    &&& probe == index + step
                    &&& index & ((step - 1) as usize) == 0
                    &&& index & step == 0
                    &&& index + 2 * step > n || tree_prefix(tree, (index + 2 * step) as usize) >= s0
                },
            invariant
                n == tree.len(),
                tree == self.inner@,
                n <= max_items(),
                index <= n,
                prefix_sum == s0 - tree_prefix(tree, index),
                index == 0 || tree_prefix(tree, index) < s0,
            ensures
                index <= n,
                prefix_sum == s0 - tree_prefix(tree, index),
                index == 0 || tree_prefix(tree, index) < s0,
                index == n || tree_prefix(tree, (index + 1) as usize) >= s0,
            decreases step,
        {
            if probe == 0 {
                break;
            }
            let lsb = least_significant_bit(probe);
            proof {
                lemma_lowest_bit_of_probe(index, step);
                lemma_pow2_half(step);
            }
            let half_lsb = lsb / 2;
            let other_half_lsb = lsb - half_lsb;
            if probe - 1 < n && self.inner[probe - 1] < prefix_sum {
                let value = self.inner[probe - 1];
                proof {
                    assert(tree_prefix(tree, probe) == value + tree_prefix(tree, index));
                    if half_lsb > 0 {
                        lemma_multiple_step(index, step);
                    }
                }
                index = probe;
                prefix_sum -= value;
                probe += half_lsb;
                if half_lsb > 0 {
                    proof {
                        step = half_lsb;
                    }
                    continue;
                }
            }
            if lsb % 2 > 0 {
                break;
            }
            proof {
                lemma_multiple_step(index, step);
                step = half_lsb;
            }
            probe -= other_half_lsb;
        }
        proof {
            lemma_prefix_sum_is_sum(tree, index);
            if index < n {
                lemma_prefix_sum_is_sum(tree, (index + 1) as usize);
            }
        }
        (index, prefix_sum)
    }
}

/// Records that the item at `index`, which took `old_size` lines, now takes `new_size`,
/// keeping `total_line_count` the sum of all item sizes.
pub fn set_item_size(
    item_sizes: &mut FenwickTree,
    total_line_count: &mut usize,
    index: usize,
    old_size: usize,
    new_size: usize,
)
    requires
        index < old(item_sizes)@.len(),
        old(item_sizes)@[index as int] == old_size,
        *old(total_line_count) == total(old(item_sizes)@),
        total(old(item_sizes)@) - old_size + new_size <= usize::MAX,
    ensures
        final(item_sizes)@ == old(item_sizes)@.update(index as int, new_size as int),
        *final(total_line_count) == total(final(item_sizes)@),
{
    proof {
        use_type_invariant(&*item_sizes);
    }
    let ghost items = item_sizes@;
    let ghost n = items.len() as int;
    if new_size > old_size {
        let diff = new_size - old_size;
        proof {
            assert forall|j: int|
                0 <= j < items.len() && covers(j as usize, index) implies #[trigger] node_sum(
                items,
                j,
            ) + diff <= usize::MAX by {
                let lo = ((j as usize) & ((j + 1) as usize)) as int;
                lemma_sum_first_mono(items, j + 1, n);
                lemma_sum_first_nonneg(items, lo);
            }
            lemma_sum_first_update(items, index as int, diff as int, n);
        }
        item_sizes.add_at(index, diff);
        *total_line_count = *total_line_count + diff;
    } else if new_size < old_size {
        let diff = old_size - new_size;
        proof {
            lemma_sum_first_update(items, index as int, -diff, n);
            lemma_sum_first_ge_elem(items, 0, index as int, n);
        }
        item_sizes.sub_at(index, diff);
        *total_line_count = *total_line_count - diff;
    } else {
        assert(items.update(index as int, new_size as int) =~= items);
    }
}

/// Subtracting what was added to an item gives the sizes back: `sub_at(i, d)` undoes
/// `add_at(i, d)` for every index, in range or not, and on a tree (whose sizes are never
/// negative) the subtraction is always allowed after the addition.
pub proof fn law_sub_at_undoes_add_at(items: Seq<int>, index: usize, diff: usize)
    ensures
        after_op(after_op(items, TreeOp::AddAt(index, diff)), TreeOp::SubAt(index, diff))
            == items,
        all_non_negative(items) && index < items.len() ==> diff <= after_op(
            items,
            TreeOp::AddAt(index, diff),
        )[index as int],
{
    if index < items.len() {
        let added = items.update(index as int, items[index as int] + diff);
        assert(added.update(index as int, added[index as int] - diff) =~= items);
    }
}

/// The offset found lies inside the item found: the sizes before it, and the
/// remainder, add up to the offset asked for.
pub proof fn law_offset_inside_item(items: Seq<int>, prefix_sum: int, index: int, remainder: int)
    requires
        0 <= index < items.len(),
        remainder == prefix_sum - sum_first(items, index),
        sum_first(items, index + 1) >= prefix_sum,
        index == 0 || sum_first(items, index) < prefix_sum,
        prefix_sum > 0,
    ensures
        sum_first(items, index) + remainder == prefix_sum,
        0 < remainder <= items[index],
{
}

/// A change made to a tree: one of its updating calls.
pub enum TreeOp {
    Push(usize),
    AddAt(usize, usize),
    SubAt(usize, usize),
}

/// The item sizes after one call, as its contract gives them.
pub open spec fn after_op(items: Seq<int>, op: TreeOp) -> Seq<int> {
    match op {
        TreeOp::Push(v) => items.push(v as int),
        TreeOp::AddAt(i, d) => if i < items.len() {
            items.update(i as int, items[i as int] + d)
        } else {
            items
        },
        TreeOp::SubAt(i, d) => if i < items.len() {
            items.update(i as int, items[i as int] - d)
        } else {
            items
        },
    }
}

/// The item sizes after a sequence of calls.
pub open spec fn after_ops(items: Seq<int>, ops: Seq<TreeOp>) -> Seq<int>
    decreases ops.len(),
{
    if ops.len() == 0 {
        items
    } else {
        after_op(after_ops(items, ops.drop_last()), ops.last())
    }
}

/// How many of the calls push an item.
pub open spec fn push_count(ops: Seq<TreeOp>) -> nat
    decreases ops.len(),
{
    if ops.len() == 0 {
        0
    } else {
        push_count(ops.drop_last()) + if ops.last() is Push {
            1nat
        } else {
            0nat
        }
    }
}

/// A tree grows by one item per push; adding to or subtracting from an item never
/// changes how many items it holds.
pub proof fn law_length_after_ops(items: Seq<int>, ops: Seq<TreeOp>)
    ensures
        after_ops(items, ops).len() == items.len() + push_count(ops),
    decreases ops.len(),
{
    if ops.len() > 0 {
        law_length_after_ops(items, ops.drop_last());
    }
}

pub proof fn lemma_sum_first_take(s: Seq<int>, k: int, j: int)
    requires
        0 <= j <= k <= s.len(),
    ensures
        sum_first(s.take(k), j) == sum_first(s, j),
    decreases j,
{
    if j > 0 {
        lemma_sum_first_take(s, k, j - 1);
    }
}

}
