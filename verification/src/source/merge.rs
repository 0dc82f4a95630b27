//! The merge of two configuration trees, in which the overlay wins.

use vstd::prelude::*;
use crate::node::{lemma_field_height, lemma_table_finite, ConfigNode};
use crate::tree::{height, Tree};

verus! {

/// The merge of two trees. Two tables merge key by key: every key of either
/// is kept; under a key that both hold stands the merge of the two values.
/// In every other case the overlay replaces the base.
pub open spec fn merge(base: Tree, overlay: Tree) -> Tree
    decreases overlay,
{
    match (base, overlay) {
        (Tree::Table(left), Tree::Table(right)) => Tree::Table(
            Map::new(
                |k: Seq<char>| left.contains_key(k) || right.contains_key(k),
                |k: Seq<char>|
                    if !right.contains_key(k) {
                        left[k]
                    } else if left.contains_key(k) {
                        merge(left[k], right[k])
                    } else {
                        right[k]
                    },
            ),
        ),
        (_, other) => other,
    }
}

/// What the merge of two tables holds while the keys in `rest` are still to
/// be taken from the overlay.
spec fn merge_partial(
    left: Map<Seq<char>, Tree>,
    right: Map<Seq<char>, Tree>,
    rest: Set<Seq<char>>,
) -> Map<Seq<char>, Tree> {
    Map::new(
        |k: Seq<char>| left.contains_key(k) || (right.contains_key(k) && !rest.contains(k)),
        |k: Seq<char>|
            if !right.contains_key(k) || rest.contains(k) {
                left[k]
            } else if left.contains_key(k) {
                merge(left[k], right[k])
            } else {
                right[k]
            },
    )
}

/// Combine two configuration trees, where values from `overlay` take
/// precedence.
pub fn merge_nodes(base: ConfigNode, overlay: ConfigNode) -> (merged: ConfigNode)
    ensures
        merged@ == merge(base@, overlay@),
    decreases height(overlay@),
{
    match (base, overlay) {
        (ConfigNode::Table(left), ConfigNode::Table(right)) => {
            let ghost l0 = left@;
            let ghost r0 = right@;
            let ghost whole = right;
            let mut left = left;
            let mut right = right;
            proof {
                use_type_invariant(&right);
                lemma_table_finite(right);
                assert(left@ =~= merge_partial(l0, r0, right@.dom()));
            }
            loop
                invariant
                    r0 == whole@,
                    whole.well_formed(),
                    overlay@ == Tree::Table(r0),
                    forall|k: Seq<char>| #[trigger]
                        right@.contains_key(k) ==> r0.contains_key(k) && right@[k] == r0[k],
                    left@ == merge_partial(l0, r0, right@.dom()),
                ensures
                    left@ == merge_partial(l0, r0, Set::empty()),
                decreases right@.dom().len(),
            {
                proof {
                    lemma_table_finite(right);
                }
                let ghost pending = right@;
                let ghost rest = right@.dom();
                match right.pop_last() {
                    None => {
                        assert(rest =~= Set::empty());
                        break ;
                    },
                    Some((key, value)) => {
                        assert(pending.contains_key(key@));
                        assert(value@ == r0[key@]);
                        assert forall|k: Seq<char>| #[trigger] right@.contains_key(k) implies r0.contains_key(
                            k,
                        ) && right@[k] == r0[k] by {
                            assert(pending.contains_key(k));
                        }
                        match left.remove(key.as_str()) {
                            Some(existing) => {
                                proof {
                                    lemma_field_height(whole, key@);
                                }
                                let merged = merge_nodes(existing, value);
                                left.insert(key, merged);
                            },
                            None => {
                                left.insert(key, value);
                            },
                        }
                        assert(left@ =~= merge_partial(l0, r0, right@.dom()));
                    },
                }
            }
            assert(merge_partial(l0, r0, Set::empty()) =~= merge(base@, overlay@)->Table_0);
            ConfigNode::Table(left)
        },
        (_, other) => other,
    }
}

/// Where the two are not both tables, the overlay replaces the base.
pub proof fn lemma_merge_replaces(base: Tree, overlay: Tree)
    requires
        !(base is Table && overlay is Table),
    ensures
        merge(base, overlay) == overlay,
{
}

/// The merge of two tables without a common key holds the entries of both.
pub proof fn lemma_merge_disjoint(left: Map<Seq<char>, Tree>, right: Map<Seq<char>, Tree>)
    requires
        forall|k: Seq<char>| !(left.contains_key(k) && right.contains_key(k)),
    ensures
        merge(Tree::Table(left), Tree::Table(right)) == Tree::Table(left.union_prefer_right(right)),
{
    assert(merge(Tree::Table(left), Tree::Table(right))->Table_0 =~= left.union_prefer_right(right));
}

/// The merge of two tables keeps every key of both: under a key that only
/// the base holds stands the base's value, and under a key of the overlay
/// whose value there, or in the base, is no table stands the overlay's value.
pub proof fn lemma_merge_right_bias(left: Map<Seq<char>, Tree>, right: Map<Seq<char>, Tree>, key: Seq<char>)
    requires
        left.contains_key(key) || right.contains_key(key),
    ensures
        merge(Tree::Table(left), Tree::Table(right)) is Table,
        merge(Tree::Table(left), Tree::Table(right))->Table_0.contains_key(key),
        !right.contains_key(key) ==> merge(Tree::Table(left), Tree::Table(right))->Table_0[key] == left[key],
        right.contains_key(key) && !(left.contains_key(key) && left[key] is Table && right[key] is Table)
            ==> merge(Tree::Table(left), Tree::Table(right))->Table_0[key] == right[key],
{
    if right.contains_key(key) && left.contains_key(key) && !(left[key] is Table && right[key] is Table) {
        lemma_merge_replaces(left[key], right[key]);
    }
}

/// A tree merged onto an empty table is that tree.
pub proof fn lemma_merge_onto_empty(tree: Tree)
    ensures
        merge(Tree::Table(Map::empty()), tree) == tree,
{
    if tree is Table {
        assert(merge(Tree::Table(Map::empty()), tree)->Table_0 =~= tree->Table_0);
    }
}

/// The merge of the first `n` of `trees` onto `base`, one after the other.
pub open spec fn merge_all(base: Tree, trees: Seq<Tree>, n: nat) -> Tree
    decreases n,
{
    if n == 0 || n > trees.len() {
        base
    } else {
        merge(merge_all(base, trees, (n - 1) as nat), trees[n - 1])
    }
}

/// What the tree merged last says under a key, where that is no table, is
/// what the whole merge says under that key.
pub proof fn lemma_last_overlay_wins(base: Tree, trees: Seq<Tree>, key: Seq<char>)
    requires
        trees.len() > 0,
        trees.last() is Table,
        trees.last()->Table_0.contains_key(key),
        !(trees.last()->Table_0[key] is Table),
    ensures
        merge_all(base, trees, trees.len()) is Table,
        merge_all(base, trees, trees.len())->Table_0.contains_key(key),
        merge_all(base, trees, trees.len())->Table_0[key] == trees.last()->Table_0[key],
{
    let before = merge_all(base, trees, (trees.len() - 1) as nat);
    let right = trees.last()->Table_0;
    assert(trees[trees.len() - 1] == Tree::Table(right));
    if before is Table {
        lemma_merge_right_bias(before->Table_0, right, key);
    } else {
        lemma_merge_replaces(before, trees.last());
    }
}

/// The merge of the first `n` trees looks at no tree after them.
pub proof fn lemma_merge_all_prefix(base: Tree, a: Seq<Tree>, b: Seq<Tree>, n: nat)
    requires
        n <= a.len() <= b.len(),
        forall|i: int| 0 <= i < n ==> a[i] == b[i],
    ensures
        merge_all(base, a, n) == merge_all(base, b, n),
    decreases n,
{
    if n > 0 {
        lemma_merge_all_prefix(base, a, b, (n - 1) as nat);
    }
}

} // verus!
