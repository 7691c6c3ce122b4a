//! Integers coded as walks down a growing tree of binary contexts.

use crate::zp::{zp_context_bit, SpecZpDecoder, ZpState};
use vstd::prelude::*;

verus! {

/// A tree of contexts. Node 1 is the root; a link of 0 means that the child has
/// not been reached yet.
#[verifier::ext_equal]
pub struct NumTree {
    pub contexts: Seq<u8>,
    pub left: Seq<usize>,
    pub right: Seq<usize>,
}

/// The tree that holds the root alone.
pub open spec fn num_tree_root() -> NumTree {
    NumTree { contexts: seq![0u8, 0u8], left: seq![0usize, 0usize], right: seq![0usize, 0usize] }
}

/// All links lead to nodes of the tree.
pub open spec fn num_tree_wf(tree: NumTree) -> bool {
    &&& tree.contexts.len() >= 2
    &&& tree.left.len() == tree.contexts.len()
    &&& tree.right.len() == tree.contexts.len()
    &&& forall|i: int| 0 <= i < tree.left.len() ==> #[trigger] tree.left[i] < tree.contexts.len()
    &&& forall|i: int| 0 <= i < tree.right.len() ==> #[trigger] tree.right[i] < tree.contexts.len()
}

/// The child of `node` on one side, made if it was missing.
pub open spec fn num_child(tree: NumTree, node: int, right: bool) -> (NumTree, int) {
    let link = if right { tree.right[node] } else { tree.left[node] };
    if link != 0 {
        (tree, link as int)
    } else {
        let index = tree.contexts.len();
        let grown = NumTree {
            contexts: tree.contexts.push(0),
            left: tree.left.push(0),
            right: tree.right.push(0),
        };
        (
            if right {
                NumTree { right: grown.right.update(node, index as usize), ..grown }
            } else {
                NumTree { left: grown.left.update(node, index as usize), ..grown }
            },
            index as int,
        )
    }
}

/// Where a walk stands: the coder, the tree, and the node reached.
#[verifier::ext_equal]
pub struct NumWalk {
    pub zp: ZpState,
    pub tree: NumTree,
    pub node: int,
}

/// Decides whether the number, known to lie in `low..=high`, is at least `cutoff`:
/// by its bounds where they settle it, by the node's context otherwise.
pub open spec fn num_decide(walk: NumWalk, low: int, high: int, cutoff: int) -> (bool, NumWalk) {
    let (decision, zp, contexts) = if low >= cutoff {
        (true, walk.zp, walk.tree.contexts)
    } else if high >= cutoff {
        let (bit, zp, context) = zp_context_bit(walk.zp, walk.tree.contexts[walk.node]);
        (bit, zp, walk.tree.contexts.update(walk.node, context))
    } else {
        (false, walk.zp, walk.tree.contexts)
    };
    let (tree, node) = num_child(NumTree { contexts, ..walk.tree }, walk.node, decision);
    (decision, NumWalk { zp, tree, node })
}

/// Raises the cutoff through 1, 3, 7, 15 and so on until the number is below it.
pub open spec fn num_magnitude(walk: NumWalk, low: int, high: int, cutoff: int) -> (int, NumWalk)
    decreases 2 * high + 2 - cutoff,
{
    let (decision, next) = num_decide(walk, low, high, cutoff);
    if decision && 1 <= cutoff <= high {
        num_magnitude(next, low, high, 2 * cutoff + 1)
    } else {
        (cutoff, next)
    }
}

/// Halves a range of candidates around `cutoff` until one is left.
pub open spec fn num_search(
    walk: NumWalk,
    low: int,
    high: int,
    cutoff: int,
    range: int,
) -> (int, NumWalk)
    decreases range,
{
    if range <= 1 {
        (cutoff, walk)
    } else {
        let (decision, next) = num_decide(walk, low, high, cutoff);
        let half = range / 2;
        let moved = if half != 1 {
            if decision { cutoff + half / 2 } else { cutoff - half / 2 }
        } else if decision {
            cutoff
        } else {
            cutoff - 1
        };
        num_search(next, low, high, moved, half)
    }
}

/// The magnitude of a number of known sign, and the walk after it.
pub open spec fn num_size(walk: NumWalk, low: int, high: int) -> (int, NumWalk) {
    let (cutoff, next) = num_magnitude(walk, low, high, 1);
    let range = (cutoff + 1) / 2;
    if range == 1 {
        (0, next)
    } else {
        num_search(next, low, high, cutoff - range / 2, range)
    }
}

/// Decodes a number in `low..=high`: its value, the coder and the tree after it.
#[verifier::opaque]
pub open spec fn num_decode(
    zp: ZpState,
    tree: NumTree,
    low: int,
    high: int,
) -> (int, ZpState, NumTree) {
    let (positive, walk) = num_decide(NumWalk { zp, tree, node: 1 }, low, high, 0);
    if positive {
        let (value, end) = num_size(walk, low, high);
        (value, end.zp, end.tree)
    } else {
        let (value, end) = num_size(walk, -high - 1, -low - 1);
        (-value - 1, end.zp, end.tree)
    }
}

/// A power of two.
pub open spec fn is_power_of_two(n: int) -> bool
    decreases n,
{
    n == 1 || (n > 1 && n % 2 == 0 && is_power_of_two(n / 2))
}

/// A search keeps to the candidates and to the bounds of the number.
proof fn lemma_search_range(walk: NumWalk, low: int, high: int, cutoff: int, range: int)
    requires
        low <= high,
        range >= 2,
        is_power_of_two(range),
        low <= cutoff + range / 2 - 1,
        high >= cutoff - range / 2,
    ensures
        low <= num_search(walk, low, high, cutoff, range).0 <= high,
    decreases range,
{
    let (decision, next) = num_decide(walk, low, high, cutoff);
    let half = range / 2;
    assert(is_power_of_two(half));
    if half != 1 {
        let moved = if decision { cutoff + half / 2 } else { cutoff - half / 2 };
        assert(half % 2 == 0);
        lemma_search_range(next, low, high, moved, half);
    } else {
        let moved = if decision { cutoff } else { cutoff - 1 };
        assert(num_search(next, low, high, moved, half) == (moved, next));
    }
}

/// Raising the cutoff stops at one less than a power of two that no candidate
/// within the bounds contradicts.
proof fn lemma_magnitude_range(walk: NumWalk, low: int, high: int, cutoff: int)
    requires
        low <= high,
        cutoff >= 1,
        is_power_of_two(cutoff + 1),
        high >= (cutoff - 1) / 2,
    ensures
        ({
            let end = num_magnitude(walk, low, high, cutoff).0;
            &&& end >= 1
            &&& is_power_of_two(end + 1)
            &&& low < end
            &&& high >= (end - 1) / 2
        }),
    decreases 2 * high + 2 - cutoff,
{
    let (decision, next) = num_decide(walk, low, high, cutoff);
    if decision && 1 <= cutoff <= high {
        assert((2 * cutoff + 2) / 2 == cutoff + 1);
        lemma_magnitude_range(next, low, high, 2 * cutoff + 1);
    }
}

/// The magnitude lies within the bounds.
proof fn lemma_size_range(walk: NumWalk, low: int, high: int)
    requires
        low <= high,
        high >= 0,
    ensures
        low <= num_size(walk, low, high).0 <= high,
{
    assert(is_power_of_two(1));
    assert(is_power_of_two(2));
    lemma_magnitude_range(walk, low, high, 1);
    let (cutoff, next) = num_magnitude(walk, low, high, 1);
    let range = (cutoff + 1) / 2;
    assert(is_power_of_two(range));
    if range != 1 {
        lemma_search_range(next, low, high, cutoff - range / 2, range);
    }
}

/// A number decoded with bounds lies within its bounds.
pub proof fn lemma_num_decode_range(zp: ZpState, tree: NumTree, low: int, high: int)
    requires
        low <= high,
    ensures
        low <= num_decode(zp, tree, low, high).0 <= high,
{
    reveal(num_decode);
    let (positive, walk) = num_decide(NumWalk { zp, tree, node: 1 }, low, high, 0);
    if positive {
        lemma_size_range(walk, low, high);
    } else {
        lemma_size_range(walk, -high - 1, -low - 1);
    }
}

/// The contexts of one kind of number.
pub struct NumContext {
    contexts: Vec<u8>,
    left: Vec<usize>,
    right: Vec<usize>,
}

impl View for NumContext {
    type V = NumTree;

    closed spec fn view(&self) -> NumTree {
        NumTree { contexts: self.contexts@, left: self.left@, right: self.right@ }
    }
}

impl NumContext {
    /// All links lead to nodes of the tree.
    pub closed spec fn wf(&self) -> bool {
        num_tree_wf(self@)
    }

    /// A tree that holds the root alone.
    pub fn new() -> (context: Self)
        ensures
            context.wf(),
            context@ == num_tree_root(),
    {
        let context = NumContext { contexts: vec![0, 0], left: vec![0, 0], right: vec![0, 0] };
        assert(context@.contexts =~= num_tree_root().contexts);
        assert(context@.left =~= num_tree_root().left);
        assert(context@.right =~= num_tree_root().right);
        context
    }

    /// The left child of a node, made if it was missing.
    fn left_child(&mut self, node: usize) -> (child: usize)
        requires
            old(self).wf(),
            node < old(self)@.contexts.len(),
        ensures
            final(self).wf(),
            (final(self)@, child as int) == num_child(old(self)@, node as int, false),
            child < final(self)@.contexts.len(),
    {
        if self.left[node] == 0 {
            self.push_child(node, false);
        }
        self.left[node]
    }

    /// The right child of a node, made if it was missing.
    fn right_child(&mut self, node: usize) -> (child: usize)
        requires
            old(self).wf(),
            node < old(self)@.contexts.len(),
        ensures
            final(self).wf(),
            (final(self)@, child as int) == num_child(old(self)@, node as int, true),
            child < final(self)@.contexts.len(),
    {
        if self.right[node] == 0 {
            self.push_child(node, true);
        }
        self.right[node]
    }

    /// Adds a node and links it to its parent.
    fn push_child(&mut self, node: usize, right: bool)
        requires
            old(self).wf(),
            node < old(self)@.contexts.len(),
            (if right { old(self)@.right[node as int] } else { old(self)@.left[node as int] }) == 0,
        ensures
            final(self).wf(),
            final(self)@ == num_child(old(self)@, node as int, right).0,
            num_child(old(self)@, node as int, right).1 == (if right {
                final(self)@.right[node as int]
            } else {
                final(self)@.left[node as int]
            }),
            num_child(old(self)@, node as int, right).1 < final(self)@.contexts.len(),
    {
        let index: usize = self.contexts.len();
        self.contexts.push(0);
        self.left.push(0);
        self.right.push(0);
        if right {
            self.right[node] = index;
        } else {
            self.left[node] = index;
        }
    }

    /// Decides whether the number is at least `cutoff` and moves down the tree.
    fn decide(
        &mut self,
        decoder: &mut SpecZpDecoder<'_>,
        node: usize,
        low: i64,
        high: i64,
        cutoff: i64,
    ) -> (outcome: (bool, usize))
        requires
            old(self).wf(),
            old(decoder).wf(),
            node < old(self)@.contexts.len(),
        ensures
            final(self).wf(),
            final(decoder).wf(),
            outcome.1 < final(self)@.contexts.len(),
            (
                outcome.0,
                NumWalk { zp: final(decoder)@, tree: final(self)@, node: outcome.1 as int },
            ) == num_decide(
                NumWalk { zp: old(decoder)@, tree: old(self)@, node: node as int },
                low as int,
                high as int,
                cutoff as int,
            ),
    {
        let decision: bool = if low >= cutoff {
            true
        } else if high >= cutoff {
            let mut context: u8 = self.contexts[node];
            let bit: bool = decoder.decode_context_bit(&mut context);
            self.contexts[node] = context;
            bit
        } else {
            false
        };
        let child: usize = if decision {
            self.right_child(node)
        } else {
            self.left_child(node)
        };
        (decision, child)
    }

    /// Decodes the magnitude of a number of known sign.
    fn size(
        &mut self,
        decoder: &mut SpecZpDecoder<'_>,
        start: usize,
        low: i64,
        high: i64,
    ) -> (value: i64)
        requires
            old(self).wf(),
            old(decoder).wf(),
            start < old(self)@.contexts.len(),
            low <= high,
            -0x8000_0000 <= low,
            0 <= high <= 0x7fff_ffff,
        ensures
            final(self).wf(),
            final(decoder).wf(),
            low <= value <= high,
            ({
                let (size, end) = num_size(
                    NumWalk { zp: old(decoder)@, tree: old(self)@, node: start as int },
                    low as int,
                    high as int,
                );
                value == size && final(decoder)@ == end.zp && final(self)@ == end.tree
            }),
    {
        let ghost first = NumWalk { zp: decoder@, tree: self@, node: start as int };
        proof {
            lemma_size_range(first, low as int, high as int);
        }
        let mut node: usize = start;
        let mut cutoff: i64 = 1;
        let mut above: bool = true;
        while above
            invariant
                self.wf(),
                decoder.wf(),
                node < self@.contexts.len(),
                low <= high,
                0 <= high <= 0x7fff_ffff,
                1 <= cutoff <= 0x1_0000_0000,
                above ==> num_magnitude(
                    NumWalk { zp: decoder@, tree: self@, node: node as int },
                    low as int,
                    high as int,
                    cutoff as int,
                ) == num_magnitude(first, low as int, high as int, 1),
                !above ==> (
                    cutoff as int,
                    NumWalk { zp: decoder@, tree: self@, node: node as int },
                ) == num_magnitude(first, low as int, high as int, 1),
                above ==> cutoff <= 2 * high + 1,
            decreases if above { 2 * high + 3 - cutoff } else { 0 },
        {
            let (decision, child) = self.decide(decoder, node, low, high, cutoff);
            node = child;
            if decision {
                cutoff = 2 * cutoff + 1;
            } else {
                above = false;
            }
        }
        let mut range: i64 = (cutoff + 1) / 2;
        if range == 1 {
            return 0;
        }
        proof {
            assert(is_power_of_two(1));
            assert(is_power_of_two(2));
            lemma_magnitude_range(first, low as int, high as int, 1);
        }
        let ghost second = NumWalk { zp: decoder@, tree: self@, node: node as int };
        let ghost start_cutoff = cutoff - range / 2;
        let ghost start_range = range as int;
        cutoff = cutoff - range / 2;
        while range > 1
            invariant
                self.wf(),
                decoder.wf(),
                node < self@.contexts.len(),
                1 <= range <= 0x8000_0000,
                -0x2_0000_0000 <= cutoff - range,
                cutoff + range <= 0x2_0000_0000,
                num_search(
                    NumWalk { zp: decoder@, tree: self@, node: node as int },
                    low as int,
                    high as int,
                    cutoff as int,
                    range as int,
                ) == num_search(second, low as int, high as int, start_cutoff, start_range),
            decreases range,
        {
            let (decision, child) = self.decide(decoder, node, low, high, cutoff);
            node = child;
            let half: i64 = range / 2;
            if half != 1 {
                if decision {
                    cutoff = cutoff + half / 2;
                } else {
                    cutoff = cutoff - half / 2;
                }
            } else if !decision {
                cutoff = cutoff - 1;
            }
            range = half;
        }
        cutoff
    }
}

/// Decodes a number in `low..=high`.
pub fn decode_num(
    decoder: &mut SpecZpDecoder<'_>,
    context: &mut NumContext,
    low: i32,
    high: i32,
) -> (value: i32)
    requires
        old(decoder).wf(),
        old(context).wf(),
        low <= high,
    ensures
        final(decoder).wf(),
        final(context).wf(),
        low <= value <= high,
        (value as int, final(decoder)@, final(context)@) == num_decode(
            old(decoder)@,
            old(context)@,
            low as int,
            high as int,
        ),
{
    proof {
        reveal(num_decode);
    }
    let (positive, node) = context.decide(decoder, 1, low as i64, high as i64, 0);
    if positive {
        let value: i64 = context.size(decoder, node, low as i64, high as i64);
        value as i32
    } else {
        let value: i64 = context.size(decoder, node, -(high as i64) - 1, -(low as i64) - 1);
        (-value - 1) as i32
    }
}

} // verus!
