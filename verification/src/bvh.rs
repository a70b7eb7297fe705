//! Building the bounding-volume hierarchy.
//!
//! The hierarchy is a binary tree over the scene's objects, built once
//! and read-only afterwards.  Its build step is purely combinatorial:
//! sort the objects by their bounding box's minimum coordinate on a
//! chosen axis, split at the median index, and recurse on the halves,
//! rotating the axis per level.  Each object enters the build as a
//! [`BoxKey`]: its index in the scene's object list and one
//! order-embedded integer sort key per axis (any embedding of the box
//! minima that keeps their order gives the same tree).
//!
//! The contracts pin the three facts a resolver needs of the build: no
//! object is lost or duplicated, the split is at the median index — so
//! the tree is balanced whatever the objects' spatial clustering — and
//! within every node the left subtree's keys on the node's axis lie at
//! or below the right subtree's.

use vstd::prelude::*;

verus! {

use vstd::seq_lib::group_to_multiset_ensures;
use vstd::seq_lib::lemma_multiset_commutative;

/// One object's build record: its index in the scene's object list and
/// an order-embedded sort key per axis, the bounding box's minimum
/// corner coordinate on that axis.
#[derive(PartialEq, Eq, Structural, Clone, Copy, Debug)]
pub struct BoxKey {
    pub id: usize,
    pub min_x: u64,
    pub min_y: u64,
    pub min_z: u64,
}

/// The sort key of `k` on an axis (0, 1, 2 for x, y, z).
pub open spec fn key_on(k: BoxKey, axis: int) -> u64 {
    if axis == 0 {
        k.min_x
    } else if axis == 1 {
        k.min_y
    } else {
        k.min_z
    }
}

fn key_of(k: &BoxKey, axis: u8) -> (r: u64)
    requires
        axis < 3,
    ensures
        r == key_on(*k, axis as int),
{
    if axis == 0 {
        k.min_x
    } else if axis == 1 {
        k.min_y
    } else {
        k.min_z
    }
}

/// Whether `s` is ordered by its keys on `axis`.
pub open spec fn sorted_on(s: Seq<BoxKey>, axis: int) -> bool {
    forall|i: int, j: int| 0 <= i < j < s.len() ==> key_on(s[i], axis) <= key_on(s[j], axis)
}

/// The hierarchy's shape: a leaf per object, and inner nodes that
/// remember (in ghost form) which axis they were split on.
pub enum Bvh {
    Leaf(BoxKey),
    Pair { axis: Ghost<int>, left: Box<Bvh>, right: Box<Bvh> },
}

impl Bvh {
    /// The build records at the tree's leaves, left to right.
    pub open spec fn leaves(self) -> Seq<BoxKey>
        decreases self,
    {
        match self {
            Bvh::Leaf(k) => seq![k],
            Bvh::Pair { left, right, .. } => left.leaves() + right.leaves(),
        }
    }

    /// How many objects the tree holds.
    pub open spec fn size(self) -> nat {
        self.leaves().len()
    }

    /// Whether every node splits its objects at the median index: the
    /// left child holds exactly half, rounded down.  This is what keeps
    /// the tree's depth logarithmic whatever the scene looks like.
    pub open spec fn balanced(self) -> bool
        decreases self,
    {
        match self {
            Bvh::Leaf(_) => true,
            Bvh::Pair { left, right, .. } => {
                &&& left.size() == self.size() / 2
                &&& left.balanced()
                &&& right.balanced()
            },
        }
    }

    /// Whether every node separates its halves on its own axis: each
    /// left leaf's key lies at or below each right leaf's.
    pub open spec fn partitioned(self) -> bool
        decreases self,
    {
        match self {
            Bvh::Leaf(_) => true,
            Bvh::Pair { axis, left, right } => {
                &&& 0 <= axis@ < 3
                &&& forall|i: int, j: int|
                    0 <= i < left.leaves().len() && 0 <= j < right.leaves().len() ==> key_on(
                        #[trigger] left.leaves()[i],
                        axis@,
                    ) <= key_on(#[trigger] right.leaves()[j], axis@)
                &&& left.partitioned()
                &&& right.partitioned()
            },
        }
    }

    /// The longest root-to-leaf path, in edges.
    pub open spec fn height(self) -> nat
        decreases self,
    {
        match self {
            Bvh::Leaf(_) => 0,
            Bvh::Pair { left, right, .. } => 1 + if left.height() >= right.height() {
                left.height()
            } else {
                right.height()
            },
        }
    }

    /// The objects' indices at the leaves, left to right.
    pub fn leaf_ids(&self) -> (r: Vec<usize>)
        ensures
            r@ == self.leaves().map_values(|k: BoxKey| k.id),
        decreases *self,
    {
        match self {
            Bvh::Leaf(k) => {
                let mut v: Vec<usize> = Vec::new();
                v.push(k.id);
                proof {
                    assert(v@ =~= self.leaves().map_values(|k: BoxKey| k.id));
                }
                v
            },
            Bvh::Pair { left, right, .. } => {
                let mut l = left.leaf_ids();
                let mut r = right.leaf_ids();
                l.append(&mut r);
                proof {
                    assert(l@ =~= self.leaves().map_values(|k: BoxKey| k.id));
                }
                l
            },
        }
    }

    /// Build the hierarchy over at least one object, sorting this level
    /// on `axis` and rotating the axis per level.  The tree that comes
    /// back holds exactly the given records, balanced and partitioned.
    pub fn build(items: Vec<BoxKey>, axis: u8) -> (t: Bvh)
        requires
            items@.len() >= 1,
            axis < 3,
        ensures
            t.leaves().to_multiset() == items@.to_multiset(),
            t.size() == items@.len(),
            t.balanced(),
            t.partitioned(),
        decreases items@.len(),
    {
        let ghost items0 = items@;
        if items.len() == 1 {
            let t = Bvh::Leaf(items[0]);
            proof {
                broadcast use group_to_multiset_ensures;

                assert(items0 =~= seq![items0[0]]);
                assert(t.leaves() == seq![items0[0]]);
            }
            t
        } else {
            let (left_items, right_items) = split_on_axis(items, axis);
            let ghost left_seq = left_items@;
            let ghost right_seq = right_items@;
            let next_axis = if axis == 2 {
                0
            } else {
                axis + 1
            };
            let left = Bvh::build(left_items, next_axis);
            let right = Bvh::build(right_items, next_axis);
            let t = Bvh::Pair { axis: Ghost(axis as int), left: Box::new(left), right: Box::new(right) };
            proof {
                broadcast use group_to_multiset_ensures;

                lemma_multiset_commutative(left.leaves(), right.leaves());
                lemma_multiset_commutative(left_seq, right_seq);
                assert(t.leaves() == left.leaves() + right.leaves());
                assert((left_seq + right_seq).to_multiset() == items0.to_multiset());
                assert(t.leaves().to_multiset() == items0.to_multiset());
                assert(t.size() == items0.len());
                assert forall|i: int, j: int|
                    0 <= i < left.leaves().len() && 0 <= j < right.leaves().len() implies key_on(
                    #[trigger] left.leaves()[i],
                    axis as int,
                ) <= key_on(#[trigger] right.leaves()[j], axis as int) by {
                    let a = left.leaves()[i];
                    let b = right.leaves()[j];
                    assert(left.leaves().contains(a));
                    assert(left.leaves().to_multiset().count(a) > 0);
                    assert(left_seq.contains(a));
                    assert(right.leaves().contains(b));
                    assert(right.leaves().to_multiset().count(b) > 0);
                    assert(right_seq.contains(b));
                }
                assert(t.balanced());
                assert(t.partitioned());
            }
            t
        }
    }
}

/// The height that a median-split tree over `n` objects has: zero for a
/// single object, and one more than the height over the larger half —
/// `n` halved, rounded up — otherwise.  This is the ceiling of the base
/// two logarithm of `n`.
pub open spec fn balanced_height(n: nat) -> nat
    decreases n,
{
    if n <= 1 {
        0
    } else {
        1 + balanced_height(((n + 1) / 2) as nat)
    }
}

/// Trees hold at least one object.
pub proof fn lemma_size_positive(t: Bvh)
    ensures
        t.size() >= 1,
    decreases t,
{
    match t {
        Bvh::Leaf(_) => {},
        Bvh::Pair { left, right, .. } => {
            lemma_size_positive(*left);
            lemma_size_positive(*right);
        },
    }
}

proof fn lemma_balanced_height_monotone(a: nat, b: nat)
    requires
        a <= b,
    ensures
        balanced_height(a) <= balanced_height(b),
    decreases b,
{
    if b <= 1 || a <= 1 {
    } else {
        lemma_balanced_height_monotone(((a + 1) / 2) as nat, ((b + 1) / 2) as nat);
    }
}

/// A balanced tree's height is a function of its size alone: the
/// ceiling of the base two logarithm.  However the objects cluster in
/// space, the median split keeps the paths logarithmic.
pub proof fn lemma_balanced_height(t: Bvh)
    requires
        t.balanced(),
    ensures
        t.height() == balanced_height(t.size()),
    decreases t,
{
    match t {
        Bvh::Leaf(_) => {},
        Bvh::Pair { left, right, .. } => {
            lemma_size_positive(*left);
            lemma_size_positive(*right);
            lemma_balanced_height(*left);
            lemma_balanced_height(*right);
            let n = t.size();
            assert(left.size() + right.size() == n);
            assert(right.size() == n - n / 2);
            assert(n - n / 2 == (n + 1) / 2) by (nonlinear_arith);
            lemma_balanced_height_monotone(left.size(), right.size());
        },
    }
}

/// Sort the records by their key on `axis` and split them at the median
/// index.  Both halves are non-empty when two or more records come in;
/// together they hold exactly the given records; and every record of
/// the left half keys at or below every record of the right half.
///
/// The cost-aware build variant scores candidate axes before splitting;
/// it makes this same sorted median split once it has chosen.
pub fn split_on_axis(items: Vec<BoxKey>, axis: u8) -> (r: (Vec<BoxKey>, Vec<BoxKey>))
    requires
        axis < 3,
    ensures
        r.0@.len() == items@.len() / 2,
        r.1@.len() == items@.len() - items@.len() / 2,
        (r.0@ + r.1@).to_multiset() == items@.to_multiset(),
        sorted_on(r.0@ + r.1@, axis as int),
        forall|i: int, j: int|
            0 <= i < r.0@.len() && 0 <= j < r.1@.len() ==> key_on(#[trigger] r.0@[i], axis as int)
                <= key_on(#[trigger] r.1@[j], axis as int),
{
    let ghost items0 = items@;
    let mut sorted = sort_on_axis(items, axis);
    let ghost full = sorted@;
    let n = sorted.len();
    let right = sorted.split_off(n / 2);
    proof {
        assert(sorted@ + right@ =~= full);
        assert((sorted@ + right@).to_multiset() == items0.to_multiset());
        assert forall|i: int, j: int|
            0 <= i < sorted@.len() && 0 <= j < right@.len() implies key_on(
            #[trigger] sorted@[i],
            axis as int,
        ) <= key_on(#[trigger] right@[j], axis as int) by {
            assert(sorted@[i] == full[i]);
            assert(right@[j] == full[n as int / 2 + j]);
            assert(key_on(full[i], axis as int) <= key_on(full[n as int / 2 + j], axis as int));
        }
    }
    (sorted, right)
}

/// Insertion sort by the key on `axis`: same records, ordered.
fn sort_on_axis(items: Vec<BoxKey>, axis: u8) -> (r: Vec<BoxKey>)
    requires
        axis < 3,
    ensures
        r@.len() == items@.len(),
        r@.to_multiset() == items@.to_multiset(),
        sorted_on(r@, axis as int),
{
    let ghost items0 = items@;
    let mut v = items;
    if v.len() == 0 {
        return v;
    }
    let mut i: usize = 1;
    while i < v.len()
        invariant
            axis < 3,
            1 <= i <= v@.len(),
            v@.len() == items0.len(),
            v@.to_multiset() == items0.to_multiset(),
            sorted_on(v@.take(i as int), axis as int),
        decreases v@.len() - i,
    {
        let ghost v0 = v@;
        let x = v.remove(i);
        let ghost removed = v@;
        proof {
            assert(removed.take(i as int) =~= v0.take(i as int));
        }
        let mut j: usize = i;
        while j > 0 && key_of(&v[j - 1], axis) > key_of(&x, axis)
            invariant
                axis < 3,
                j <= i,
                i < items0.len(),
                v@ == removed,
                v@.len() == items0.len() - 1,
                sorted_on(v@.take(i as int), axis as int),
                forall|m: int|
                    j <= m < i ==> key_on(#[trigger] v@[m], axis as int) > key_on(x, axis as int),
            decreases j,
        {
            j = j - 1;
        }
        v.insert(j, x);
        proof {
            broadcast use group_to_multiset_ensures;
            broadcast use vstd::multiset::group_multiset_axioms;

            vstd::seq_lib::to_multiset_remove(v0, i as int);
            vstd::seq_lib::to_multiset_insert(removed, j as int, x);
            assert(v0[i as int] == x);
            assert(v0.contains(x));
            assert(v0.to_multiset().count(x) > 0);
            assert(v@.to_multiset() =~= v0.to_multiset());
            let pre = removed.take(i as int);
            assert forall|a: int, b: int| 0 <= a < b < i + 1 implies key_on(
                #[trigger] v@.take(i as int + 1)[a],
                axis as int,
            ) <= key_on(#[trigger] v@.take(i as int + 1)[b], axis as int) by {
                assert(v@.take(i as int + 1)[a] == v@[a]);
                assert(v@.take(i as int + 1)[b] == v@[b]);
                if b < j {
                    assert(v@[a] == pre[a] && v@[b] == pre[b]);
                } else if a < j && b == j {
                    assert(v@[b] == x);
                    assert(v@[a] == pre[a]);
                    assert(key_on(pre[j - 1], axis as int) <= key_on(x, axis as int));
                    if a < j - 1 {
                        assert(key_on(pre[a], axis as int) <= key_on(pre[j - 1], axis as int));
                    }
                } else if a < j && b > j {
                    assert(v@[a] == pre[a] && v@[b] == pre[b - 1]);
                    assert(key_on(pre[a], axis as int) <= key_on(pre[b - 1], axis as int));
                } else if a == j {
                    assert(v@[a] == x && v@[b] == removed[b - 1]);
                    assert(key_on(x, axis as int) < key_on(removed[b - 1], axis as int));
                } else {
                    assert(v@[a] == removed[a - 1] && v@[b] == removed[b - 1]);
                    assert(key_on(pre[a - 1], axis as int) <= key_on(pre[b - 1], axis as int));
                }
            }
            assert(sorted_on(v@.take(i as int + 1), axis as int));
        }
        i = i + 1;
    }
    proof {
        assert(v@.take(v@.len() as int) =~= v@);
    }
    v
}

} // verus!
