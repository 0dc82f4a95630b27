//! The mathematical model of a configuration tree, and what is said of a
//! tree in terms of it: its keys in their order, its display text and its
//! depth.

use vstd::prelude::*;
use crate::text::{ascii_lowercase, key_lt, lemma_key_lt_irreflexive, lemma_key_lt_transitive};

verus! {

/// Mathematical model of a configuration tree.
pub ghost enum Tree {
    Table(Map<Seq<char>, Tree>),
    Array(Seq<Tree>),
    Scalar(Seq<char>),
    Null,
}

/// `keys` lists the members of `dom` in key order, each once.
pub open spec fn is_key_list(keys: Seq<Seq<char>>, dom: Set<Seq<char>>) -> bool {
    &&& forall|i: int, j: int| 0 <= i < j < keys.len() ==> key_lt(#[trigger] keys[i], #[trigger] keys[j])
    &&& forall|k: Seq<char>| dom.contains(k) <==> keys.contains(k)
}

/// The members of a finite set of keys in key order.
pub open spec fn sorted_keys(dom: Set<Seq<char>>) -> Seq<Seq<char>> {
    choose|keys: Seq<Seq<char>>| is_key_list(keys, dom)
}

/// A set of keys has one listing in key order.
pub proof fn lemma_key_list_unique(a: Seq<Seq<char>>, b: Seq<Seq<char>>, dom: Set<Seq<char>>)
    requires
        is_key_list(a, dom),
        is_key_list(b, dom),
    ensures
        a == b,
    decreases a.len(),
{
    if a.len() == 0 {
        if b.len() > 0 {
            assert(b.contains(b[0]));
            assert(a.contains(b[0]));
        }
        assert(a =~= b);
    } else if b.len() == 0 {
        assert(a.contains(a[0]));
        assert(b.contains(a[0]));
    } else {
        let x = a.last();
        let y = b.last();
        assert(a.contains(x));
        assert(b.contains(y));
        assert(b.contains(x));
        assert(a.contains(y));
        let j = choose|j: int| 0 <= j < b.len() && b[j] == x;
        let i = choose|i: int| 0 <= i < a.len() && a[i] == y;
        if x != y {
            assert(key_lt(b[j], b[b.len() - 1]));
            assert(key_lt(a[i], a[a.len() - 1]));
            lemma_key_lt_transitive(x, y, x);
            lemma_key_lt_irreflexive(x);
        }
        let a2 = a.drop_last();
        let b2 = b.drop_last();
        let dom2 = dom.remove(x);
        lemma_key_lt_irreflexive(x);
        assert(is_key_list(a2, dom2)) by {
            assert forall|k: Seq<char>| dom2.contains(k) <==> a2.contains(k) by {
                if dom2.contains(k) {
                    assert(a.contains(k));
                    let n = choose|n: int| 0 <= n < a.len() && a[n] == k;
                    assert(a2[n] == k);
                }
                if a2.contains(k) {
                    let n = choose|n: int| 0 <= n < a2.len() && a2[n] == k;
                    assert(a[n] == k);
                    assert(key_lt(a[n], a[a.len() - 1]));
                    assert(a.contains(k));
                }
            }
            assert forall|p: int, q: int| 0 <= p < q < a2.len() implies key_lt(
                #[trigger] a2[p],
                #[trigger] a2[q],
            ) by {
                assert(a2[p] == a[p] && a2[q] == a[q]);
            }
        }
        assert(is_key_list(b2, dom2)) by {
            assert forall|k: Seq<char>| dom2.contains(k) <==> b2.contains(k) by {
                if dom2.contains(k) {
                    assert(b.contains(k));
                    let n = choose|n: int| 0 <= n < b.len() && b[n] == k;
                    assert(b2[n] == k);
                }
                if b2.contains(k) {
                    let n = choose|n: int| 0 <= n < b2.len() && b2[n] == k;
                    assert(b[n] == k);
                    assert(key_lt(b[n], b[b.len() - 1]));
                    assert(b.contains(k));
                }
            }
            assert forall|p: int, q: int| 0 <= p < q < b2.len() implies key_lt(
                #[trigger] b2[p],
                #[trigger] b2[q],
            ) by {
                assert(b2[p] == b[p] && b2[q] == b[q]);
            }
        }
        lemma_key_list_unique(a2, b2, dom2);
        assert(a =~= a2.push(x));
        assert(b =~= b2.push(y));
    }
}

/// The first of `keys` from position `i` on that is `target` but for the
/// case of ASCII letters.
pub open spec fn folded_match(keys: Seq<Seq<char>>, target: Seq<char>, i: int) -> Option<Seq<char>>
    decreases keys.len() - i,
{
    if i < 0 || i >= keys.len() {
        None
    } else if ascii_lowercase(keys[i]) == ascii_lowercase(target) {
        Some(keys[i])
    } else {
        folded_match(keys, target, i + 1)
    }
}

/// The key under which a table is searched for `target`: `target` itself
/// where case counts, else the first key in key order that is `target`
/// but for the case of ASCII letters.
pub open spec fn found_key(m: Map<Seq<char>, Tree>, target: Seq<char>, insensitive: bool) -> Option<
    Seq<char>,
> {
    if insensitive {
        folded_match(sorted_keys(m.dom()), target, 0)
    } else if m.contains_key(target) {
        Some(target)
    } else {
        None
    }
}

/// What is found is one of the keys.
pub proof fn lemma_folded_match(keys: Seq<Seq<char>>, target: Seq<char>, i: int)
    requires
        0 <= i,
    ensures
        folded_match(keys, target, i) matches Some(key) ==> exists|j: int|
            0 <= j < keys.len() && keys[j] == key,
    decreases keys.len() - i,
{
    if i < keys.len() && ascii_lowercase(keys[i]) != ascii_lowercase(target) {
        lemma_folded_match(keys, target, i + 1);
    }
}

/// A search from `i` on finds a match at `at` or one before it.
pub proof fn lemma_folded_match_first(keys: Seq<Seq<char>>, target: Seq<char>, i: int, at: int)
    requires
        0 <= i <= at < keys.len(),
        ascii_lowercase(keys[at]) == ascii_lowercase(target),
    ensures
        folded_match(keys, target, i) matches Some(k) && ascii_lowercase(k) == ascii_lowercase(target)
            && exists|j: int| i <= j <= at && keys[j] == k,
    decreases at - i,
{
    if ascii_lowercase(keys[i]) != ascii_lowercase(target) {
        lemma_folded_match_first(keys, target, i + 1, at);
        let k = folded_match(keys, target, i + 1)->Some_0;
        let j = choose|j: int| i + 1 <= j <= at && keys[j] == k;
        assert(i <= j <= at && keys[j] == k);
    } else {
        assert(i <= i <= at && keys[i] == keys[i]);
    }
}

/// The name of the kind of a tree.
pub open spec fn kind_name(tree: Tree) -> Seq<char> {
    match tree {
        Tree::Table(_) => "table"@,
        Tree::Array(_) => "array"@,
        Tree::Scalar(_) => "scalar"@,
        Tree::Null => "null"@,
    }
}

/// The display text of a tree: a scalar as it is, null as `null`, an array
/// in square brackets and a table in curly brackets with its fields in key
/// order, the parts separated by a comma and a space.
pub open spec fn display_text(tree: Tree) -> Seq<char>
    decreases tree, 0nat,
{
    match tree {
        Tree::Scalar(s) => s,
        Tree::Null => "null"@,
        Tree::Array(items) => "["@ + display_items(items, items.len()) + "]"@,
        Tree::Table(m) => "{"@ + display_fields(m, sorted_keys(m.dom()), sorted_keys(m.dom()).len())
            + "}"@,
    }
}

/// The display text of the first `n` items of an array.
pub open spec fn display_items(items: Seq<Tree>, n: nat) -> Seq<char>
    decreases items, n,
{
    if n == 0 || n > items.len() {
        Seq::empty()
    } else if n == 1 {
        display_text(items[0])
    } else {
        display_items(items, (n - 1) as nat) + ", "@ + display_text(items[n - 1])
    }
}

/// The display text of the fields of a table under the first `n` of `keys`.
pub open spec fn display_fields(m: Map<Seq<char>, Tree>, keys: Seq<Seq<char>>, n: nat) -> Seq<char>
    decreases m, n,
{
    if n == 0 || n > keys.len() {
        Seq::empty()
    } else {
        let key = keys[n - 1];
        let value = if m.dom().finite() && m.contains_key(key) {
            display_text(m[key])
        } else {
            Seq::empty()
        };
        if n == 1 {
            key + ": "@ + value
        } else {
            display_fields(m, keys, (n - 1) as nat) + ", "@ + key + ": "@ + value
        }
    }
}

/// The nesting depth of a tree: 0 for a scalar or null, and for an array or
/// a table one more than the greatest depth among its parts.
pub open spec fn height(tree: Tree) -> nat
    decreases tree, 0nat,
{
    match tree {
        Tree::Scalar(_) => 0,
        Tree::Null => 0,
        Tree::Array(items) => 1 + items_height(items, items.len()),
        Tree::Table(m) => 1 + fields_height(m, sorted_keys(m.dom()), sorted_keys(m.dom()).len()),
    }
}

/// The greatest depth among the first `n` items of an array.
pub open spec fn items_height(items: Seq<Tree>, n: nat) -> nat
    decreases items, n,
{
    if n == 0 || n > items.len() {
        0
    } else {
        let rest = items_height(items, (n - 1) as nat);
        let last = height(items[n - 1]);
        if rest < last {
            last
        } else {
            rest
        }
    }
}

/// The greatest depth among the fields of a table under the first `n` of `keys`.
pub open spec fn fields_height(m: Map<Seq<char>, Tree>, keys: Seq<Seq<char>>, n: nat) -> nat
    decreases m, n,
{
    if n == 0 || n > keys.len() {
        0
    } else {
        let rest = fields_height(m, keys, (n - 1) as nat);
        let last = if m.dom().finite() && m.contains_key(keys[n - 1]) {
            height(m[keys[n - 1]])
        } else {
            0
        };
        if rest < last {
            last
        } else {
            rest
        }
    }
}

/// No field among the first `n` is deeper than the greatest depth among them.
pub proof fn lemma_fields_height_bound(m: Map<Seq<char>, Tree>, keys: Seq<Seq<char>>, n: nat, i: int)
    requires
        m.dom().finite(),
        0 <= i < n <= keys.len(),
        m.contains_key(keys[i]),
    ensures
        height(m[keys[i]]) <= fields_height(m, keys, n),
    decreases n,
{
    if i < n - 1 {
        lemma_fields_height_bound(m, keys, (n - 1) as nat, i);
    }
}

} // verus!
