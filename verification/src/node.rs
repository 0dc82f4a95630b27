//! The configuration tree: tables, arrays, scalars and null.

use vstd::prelude::*;
use vstd::string::StringExecFns;
use crate::error::{ConfigError, Failure};
use crate::text::{
    ascii_lowercase, compare_keys, eq_ignore_ascii_case, key_lt, lemma_key_lt_irreflexive,
    lemma_key_lt_transitive, KeyOrder,
};
use crate::tree::{
    display_fields, display_items, display_text, folded_match, found_key, height, is_key_list,
    kind_name, lemma_fields_height_bound, lemma_folded_match, lemma_folded_match_first,
    lemma_key_list_unique, sorted_keys, Tree,
};

verus! {

/// One key of a table with the node stored under it.
#[derive(Debug, PartialEq)]
struct Entry {
    key: String,
    value: ConfigNode,
}

/// A mapping from keys to nodes, kept in key order; no key occurs twice.
#[derive(Debug, PartialEq)]
pub struct Table {
    entries: Vec<Entry>,
}

/// Representation of a configuration tree.
#[derive(Debug, PartialEq)]
pub enum ConfigNode {
    Table(Table),
    Array(Vec<ConfigNode>),
    Scalar(String),
    Null,
}

/// The mapping that a table stands for.
pub closed spec fn table_map(table: Table) -> Map<Seq<char>, Tree>
    decreases table,
{
    entries_map(table.entries@)
}

/// The tree that a node stands for.
pub open spec fn node_tree(node: ConfigNode) -> Tree
    decreases node,
{
    match node {
        ConfigNode::Table(t) => Tree::Table(table_map(t)),
        ConfigNode::Array(items) => Tree::Array(
            Seq::new(
                items.len() as nat,
                |i: int|
                    if 0 <= i < items.len() {
                        node_tree(items[i])
                    } else {
                        Tree::Null
                    },
            ),
        ),
        ConfigNode::Scalar(s) => Tree::Scalar(s@),
        ConfigNode::Null => Tree::Null,
    }
}

impl View for Table {
    type V = Map<Seq<char>, Tree>;

    open spec fn view(&self) -> Map<Seq<char>, Tree> {
        table_map(*self)
    }
}

impl View for ConfigNode {
    type V = Tree;

    open spec fn view(&self) -> Tree {
        node_tree(*self)
    }
}

/// A table holds finitely many keys.
pub proof fn lemma_table_finite(table: Table)
    ensures
        table@.dom().finite(),
{
    lemma_entries_map_dom(table.entries@);
}

/// A node stored in a table is less deep than the table.
pub proof fn lemma_field_height(table: Table, key: Seq<char>)
    requires
        table.well_formed(),
        table@.contains_key(key),
    ensures
        height(table@[key]) < height(Tree::Table(table@)),
{
    let es = table.entries@;
    lemma_entries_map_sorted(es);
    lemma_entry_keys_sorted(es);
    let i = choose|i: int| 0 <= i < es.len() && #[trigger] es[i].key@ == key;
    assert(entry_keys(es)[i] == key);
    lemma_fields_height_bound(table@, entry_keys(es), es.len(), i);
}

/// A key that is found is a key of the table.
pub proof fn lemma_found_key(table: Table, target: Seq<char>, insensitive: bool)
    requires
        table.well_formed(),
    ensures
        found_key(table@, target, insensitive) matches Some(key) ==> table@.contains_key(key),
{
    if insensitive {
        lemma_entry_keys_sorted(table.entries@);
        lemma_entries_map_sorted(table.entries@);
        lemma_folded_match(entry_keys(table.entries@), target, 0);
        if folded_match(entry_keys(table.entries@), target, 0) is Some {
            let key = folded_match(entry_keys(table.entries@), target, 0)->Some_0;
            let i = choose|i: int| 0 <= i < table.entries@.len() && entry_keys(table.entries@)[i] == key;
            assert(table.entries@[i].key@ == key);
        }
    }
}

/// A key that is `target` but for the case of ASCII letters is found by a
/// search that ignores case, or another such key before it is.
pub proof fn lemma_case_is_ignored(table: Table, target: Seq<char>, key: Seq<char>)
    requires
        table.well_formed(),
        table@.contains_key(key),
        ascii_lowercase(key) == ascii_lowercase(target),
    ensures
        found_key(table@, target, true) matches Some(k) && table@.contains_key(k) && ascii_lowercase(k)
            == ascii_lowercase(target) && (k == key || key_lt(k, key)),
{
    let es = table.entries@;
    let keys = entry_keys(es);
    lemma_entry_keys_sorted(es);
    lemma_entries_map_sorted(es);
    let i = choose|i: int| 0 <= i < es.len() && #[trigger] es[i].key@ == key;
    assert(keys[i] == key);
    lemma_folded_match_first(keys, target, 0, i);
    let k = folded_match(keys, target, 0)->Some_0;
    let j = choose|j: int| 0 <= j <= i && keys[j] == k;
    assert(es[j].key@ == k);
    if j < i {
        assert(key_lt(es[j].key@, es[i].key@));
    }
}

impl Table {
    /// What holds of every table: its entries stand in key order.
    #[verifier::type_invariant]
    pub closed spec fn well_formed(&self) -> bool {
        sorted_entries(self.entries@)
    }

    /// An empty table.
    pub fn new() -> (t: Table)
        ensures
            t@ == Map::<Seq<char>, Tree>::empty(),
    {
        Table { entries: Vec::new() }
    }

    /// Where `key` stands among the entries, or where it would have to be put.
    fn locate(&self, key: &str) -> (r: (usize, bool))
        ensures
            r.0 <= self.entries@.len(),
            r.1 ==> r.0 < self.entries@.len() && self.entries@[r.0 as int].key@ == key@,
            forall|i: int| 0 <= i < r.0 ==> key_lt(#[trigger] self.entries@[i].key@, key@),
            !r.1 ==> forall|i: int|
                r.0 <= i < self.entries@.len() ==> key_lt(key@, #[trigger] self.entries@[i].key@),
    {
        proof {
            use_type_invariant(self);
        }
        let mut low: usize = 0;
        let mut high: usize = self.entries.len();
        while low < high
            invariant
                low <= high <= self.entries@.len(),
                sorted_entries(self.entries@),
                forall|j: int| 0 <= j < low ==> key_lt(#[trigger] self.entries@[j].key@, key@),
                forall|j: int|
                    high <= j < self.entries@.len() ==> key_lt(key@, #[trigger] self.entries@[j].key@),
            decreases high - low,
        {
            let mid = low + (high - low) / 2;
            let ghost middle = self.entries@[mid as int].key@;
            match compare_keys(self.entries[mid].key.as_str(), key) {
                KeyOrder::Equal => {
                    proof {
                        assert forall|j: int| 0 <= j < mid implies key_lt(
                            #[trigger] self.entries@[j].key@,
                            key@,
                        ) by {
                            assert(key_lt(self.entries@[j].key@, self.entries@[mid as int].key@));
                        }
                    }
                    return (mid, true);
                },
                KeyOrder::Less => {
                    proof {
                        assert forall|j: int| 0 <= j < mid + 1 implies key_lt(
                            #[trigger] self.entries@[j].key@,
                            key@,
                        ) by {
                            if j < mid {
                                assert(key_lt(self.entries@[j].key@, self.entries@[mid as int].key@));
                                lemma_key_lt_transitive(self.entries@[j].key@, middle, key@);
                            }
                        }
                    }
                    low = mid + 1;
                },
                KeyOrder::Greater => {
                    proof {
                        assert forall|j: int| mid <= j < self.entries@.len() implies key_lt(
                            key@,
                            #[trigger] self.entries@[j].key@,
                        ) by {
                            if j > mid {
                                assert(key_lt(self.entries@[mid as int].key@, self.entries@[j].key@));
                                lemma_key_lt_transitive(key@, middle, self.entries@[j].key@);
                            }
                        }
                    }
                    high = mid;
                },
            }
        }
        (low, false)
    }

    /// The node stored under `key`, if there is one.
    pub fn get(&self, key: &str) -> (found: Option<&ConfigNode>)
        ensures
            match found {
                Some(node) => self@.contains_key(key@) && node@ == self@[key@],
                None => !self@.contains_key(key@),
            },
    {
        proof {
            use_type_invariant(self);
            lemma_entries_map_dom(self.entries@);
        }
        let (idx, present) = self.locate(key);
        if present {
            proof {
                lemma_entries_map_value(self.entries@, idx as int);
            }
            Some(&self.entries[idx].value)
        } else {
            proof {
                if self@.contains_key(key@) {
                    let i = choose|i: int|
                        0 <= i < self.entries@.len() && #[trigger] self.entries@[i].key@ == key@;
                    lemma_key_lt_irreflexive(key@);
                }
            }
            None
        }
    }

    /// Whether a node is stored under `key`.
    pub fn contains_key(&self, key: &str) -> (present: bool)
        ensures
            present == self@.contains_key(key@),
    {
        self.get(key).is_some()
    }

    /// Stores `value` under `key` and hands back the node that was there before.
    pub fn insert(&mut self, key: String, value: ConfigNode) -> (previous: Option<ConfigNode>)
        ensures
            final(self)@ == old(self)@.insert(key@, value@),
            match previous {
                Some(node) => old(self)@.contains_key(key@) && node@ == old(self)@[key@],
                None => !old(self)@.contains_key(key@),
            },
    {
        proof {
            use_type_invariant(&*self);
        }
        let (idx, present) = self.locate(key.as_str());
        if present {
            proof {
                lemma_remove_entry(self.entries@, idx as int);
            }
            let ghost before = self.entries@;
            let mut entries: Vec<Entry> = Vec::new();
            core::mem::swap(&mut self.entries, &mut entries);
            let replaced = entries.remove(idx);
            let entry = Entry { key, value };
            proof {
                lemma_insert_entry(entries@, idx as int, entry);
                assert(entries_map(before).remove(key@).insert(key@, node_tree(value)) =~= entries_map(
                    before,
                ).insert(key@, node_tree(value)));
            }
            entries.insert(idx, entry);
            self.entries = entries;
            Some(replaced.value)
        } else {
            let entry = Entry { key, value };
            proof {
                lemma_insert_entry(self.entries@, idx as int, entry);
            }
            let mut entries: Vec<Entry> = Vec::new();
            core::mem::swap(&mut self.entries, &mut entries);
            entries.insert(idx, entry);
            self.entries = entries;
            None
        }
    }

    /// Takes the node stored under `key` out of the table.
    pub fn remove(&mut self, key: &str) -> (removed: Option<ConfigNode>)
        ensures
            final(self)@ == old(self)@.remove(key@),
            match removed {
                Some(node) => old(self)@.contains_key(key@) && node@ == old(self)@[key@],
                None => !old(self)@.contains_key(key@),
            },
    {
        proof {
            use_type_invariant(&*self);
            lemma_entries_map_sorted(self.entries@);
        }
        let (idx, present) = self.locate(key);
        if present {
            proof {
                lemma_remove_entry(self.entries@, idx as int);
            }
            let mut entries: Vec<Entry> = Vec::new();
            core::mem::swap(&mut self.entries, &mut entries);
            let entry = entries.remove(idx);
            self.entries = entries;
            Some(entry.value)
        } else {
            proof {
                if self@.contains_key(key@) {
                    let i = choose|i: int|
                        0 <= i < self.entries@.len() && #[trigger] self.entries@[i].key@ == key@;
                    lemma_key_lt_irreflexive(key@);
                }
                assert(self@.remove(key@) =~= self@);
            }
            None
        }
    }
    /// The number of entries.
    pub fn len(&self) -> (n: usize)
        ensures
            n == self@.dom().len(),
            self@.dom().finite(),
    {
        proof {
            use_type_invariant(self);
            lemma_entries_map_len(self.entries@);
        }
        self.entries.len()
    }

    /// Whether the table has no entry.
    pub fn is_empty(&self) -> (empty: bool)
        ensures
            empty == (self@ == Map::<Seq<char>, Tree>::empty()),
    {
        proof {
            use_type_invariant(self);
            lemma_entries_map_sorted(self.entries@);
            if self.entries@.len() > 0 {
                assert(self@.contains_key(self.entries@[0].key@));
            } else {
                assert(self@ =~= Map::<Seq<char>, Tree>::empty());
            }
        }
        self.entries.len() == 0
    }

    /// The keys of the table in key order.
    pub fn keys(&self) -> (keys: Vec<String>)
        ensures
            keys@.len() == sorted_keys(self@.dom()).len(),
            forall|i: int| 0 <= i < keys@.len() ==> (#[trigger] keys@[i])@ == sorted_keys(self@.dom())[i],
    {
        proof {
            use_type_invariant(self);
            lemma_entry_keys_sorted(self.entries@);
        }
        let mut keys: Vec<String> = Vec::new();
        let mut i: usize = 0;
        while i < self.entries.len()
            invariant
                i <= self.entries@.len(),
                keys@.len() == i,
                forall|j: int| 0 <= j < i ==> (#[trigger] keys@[j])@ == self.entries@[j].key@,
            decreases self.entries@.len() - i,
        {
            keys.push(self.entries[i].key.clone());
            i = i + 1;
        }
        keys
    }

    /// The key under which the table is searched for `target`.
    pub fn find_key(&self, target: &str, insensitive: bool) -> (found: Option<String>)
        ensures
            match found_key(self@, target@, insensitive) {
                Some(key) => found matches Some(k) && k@ == key,
                None => found is None,
            },
    {
        if !insensitive {
            return if self.contains_key(target) {
                Some(target.to_string())
            } else {
                None
            };
        }
        proof {
            use_type_invariant(self);
            lemma_entry_keys_sorted(self.entries@);
        }
        let ghost keys = sorted_keys(self@.dom());
        let mut i: usize = 0;
        while i < self.entries.len()
            invariant
                i <= self.entries@.len(),
                insensitive,
                keys == sorted_keys(self@.dom()),
                keys == entry_keys(self.entries@),
                folded_match(keys, target@, 0) == folded_match(keys, target@, i as int),
            decreases self.entries@.len() - i,
        {
            assert(keys[i as int] == self.entries@[i as int].key@);
            if eq_ignore_ascii_case(self.entries[i].key.as_str(), target) {
                return Some(self.entries[i].key.clone());
            }
            i = i + 1;
        }
        None
    }

    /// Takes the entry with the greatest key out of the table.
    pub fn pop_last(&mut self) -> (last: Option<(String, ConfigNode)>)
        ensures
            match last {
                Some((key, node)) => {
                    &&& old(self)@.contains_key(key@)
                    &&& node@ == old(self)@[key@]
                    &&& final(self)@ == old(self)@.remove(key@)
                    &&& forall|k: Seq<char>| final(self)@.contains_key(k) ==> key_lt(k, key@)
                },
                None => old(self)@ == Map::<Seq<char>, Tree>::empty() && final(self)@ == old(self)@,
            },
    {
        proof {
            use_type_invariant(&*self);
            lemma_entries_map_sorted(self.entries@);
        }
        let n = self.entries.len();
        if n == 0 {
            assert(self@ =~= Map::<Seq<char>, Tree>::empty());
            return None;
        }
        proof {
            lemma_remove_entry(self.entries@, n - 1);
            lemma_entries_map_sorted(self.entries@.remove(n - 1));
        }
        let mut entries: Vec<Entry> = Vec::new();
        core::mem::swap(&mut self.entries, &mut entries);
        let entry = entries.remove(n - 1);
        self.entries = entries;
        Some((entry.key, entry.value))
    }

    /// A copy of the table.
    pub fn duplicate(&self) -> (copy: Table)
        ensures
            copy@ == self@,
        decreases self,
    {
        proof {
            use_type_invariant(self);
        }
        let mut entries: Vec<Entry> = Vec::new();
        let mut i: usize = 0;
        while i < self.entries.len()
            invariant
                i <= self.entries@.len(),
                entries@.len() == i,
                forall|j: int|
                    0 <= j < i ==> (#[trigger] entries@[j]).key@ == self.entries@[j].key@ && node_tree(
                        entries@[j].value,
                    ) == node_tree(self.entries@[j].value),
            decreases self.entries@.len() - i,
        {
            let entry = &self.entries[i];
            entries.push(Entry { key: entry.key.clone(), value: entry.value.duplicate() });
            i = i + 1;
        }
        proof {
            lemma_same_entries(self.entries@, entries@);
        }
        Table { entries }
    }
}

impl ConfigNode {
    /// Create an empty table node.
    pub fn empty_table() -> (node: ConfigNode)
        ensures
            node@ == Tree::Table(Map::empty()),
    {
        ConfigNode::Table(Table::new())
    }

    /// Returns a reference to the underlying table when the node is a table.
    pub fn as_table(&self) -> (table: Option<&Table>)
        ensures
            match self@ {
                Tree::Table(m) => table matches Some(t) && t@ == m,
                _ => table is None,
            },
    {
        match self {
            ConfigNode::Table(map) => Some(map),
            _ => None,
        }
    }

    /// Returns a copy of the table content; a node that is no table is
    /// turned down with the name of its kind.
    pub fn to_owned_table(&self) -> (table: Result<Table, ConfigError>)
        ensures
            match self@ {
                Tree::Table(m) => table matches Ok(t) && t@ == m,
                other => table matches Err(e) && e@ == (Failure::TypeMismatch {
                    field: "root"@,
                    expected: "table"@,
                    found: kind_name(other),
                }),
            },
    {
        match self {
            ConfigNode::Table(map) => Ok(map.duplicate()),
            _ => Err(ConfigError::mismatch("root", "table", self.kind())),
        }
    }

    /// Returns a textual identifier for the type of the node.
    pub fn kind(&self) -> (name: &'static str)
        ensures
            name@ == kind_name(self@),
    {
        match self {
            ConfigNode::Table(_) => "table",
            ConfigNode::Array(_) => "array",
            ConfigNode::Scalar(_) => "scalar",
            ConfigNode::Null => "null",
        }
    }

    /// A copy of the node.
    #[verifier::loop_isolation(false)]
    pub fn duplicate(&self) -> (copy: ConfigNode)
        ensures
            copy@ == self@,
        decreases self,
    {
        match self {
            ConfigNode::Table(map) => ConfigNode::Table(map.duplicate()),
            ConfigNode::Array(items) => {
                let mut copies: Vec<ConfigNode> = Vec::new();
                let mut i: usize = 0;
                while i < items.len()
                    invariant
                        i <= items@.len(),
                        copies@.len() == i,
                        forall|j: int|
                            0 <= j < i ==> node_tree(#[trigger] copies@[j]) == node_tree(items@[j]),
                    decreases items@.len() - i,
                {
                    copies.push(items[i].duplicate());
                    i = i + 1;
                }
                assert(node_tree(ConfigNode::Array(copies))->Array_0 =~= node_tree(*self)->Array_0);
                ConfigNode::Array(copies)
            },
            ConfigNode::Scalar(text) => ConfigNode::Scalar(text.clone()),
            ConfigNode::Null => ConfigNode::Null,
        }
    }

    /// The display text of the node.
    #[verifier::loop_isolation(false)]
    pub fn to_string(&self) -> (text: String)
        ensures
            text@ == display_text(self@),
        decreases self,
    {
        match self {
            ConfigNode::Scalar(value) => value.clone(),
            ConfigNode::Null => String::from_str("null"),
            ConfigNode::Array(items) => {
                let mut out = String::from_str("[");
                let ghost trees = self@->Array_0;
                let mut i: usize = 0;
                while i < items.len()
                    invariant
                        i <= items@.len(),
                        trees.len() == items@.len(),
                        forall|j: int| 0 <= j < items@.len() ==> trees[j] == node_tree(#[trigger] items@[j]),
                        out@ == "["@ + display_items(trees, i as nat),
                    decreases items@.len() - i,
                {
                    if i > 0 {
                        out.append(", ");
                    }
                    let part = items[i].to_string();
                    out.append(part.as_str());
                    i = i + 1;
                }
                out.append("]");
                out
            },
            ConfigNode::Table(map) => {
                proof {
                    use_type_invariant(map);
                    lemma_entry_keys_sorted(map.entries@);
                    lemma_entries_map_sorted(map.entries@);
                }
                let mut out = String::from_str("{");
                let ghost m = map@;
                let ghost keys = sorted_keys(m.dom());
                let mut i: usize = 0;
                while i < map.entries.len()
                    invariant
                        i <= map.entries@.len(),
                        m == entries_map(map.entries@),
                        m.dom().finite(),
                        keys == entry_keys(map.entries@),
                        forall|j: int|
                            0 <= j < map.entries@.len() ==> m.contains_key(#[trigger] map.entries@[j].key@)
                                && m[map.entries@[j].key@] == node_tree(map.entries@[j].value),
                        out@ == "{"@ + display_fields(m, keys, i as nat),
                    decreases map.entries@.len() - i,
                {
                    if i > 0 {
                        out.append(", ");
                    }
                    let entry = &map.entries[i];
                    out.append(entry.key.as_str());
                    out.append(": ");
                    let part = entry.value.to_string();
                    out.append(part.as_str());
                    i = i + 1;
                }
                out.append("}");
                out
            },
        }
    }
}

impl Clone for Table {
    fn clone(&self) -> (copy: Table)
        ensures
            copy@ == self@,
    {
        self.duplicate()
    }
}

impl Clone for ConfigNode {
    fn clone(&self) -> (copy: ConfigNode)
        ensures
            copy@ == self@,
    {
        self.duplicate()
    }
}

/// The entries come in strictly increasing key order.
spec fn sorted_entries(es: Seq<Entry>) -> bool {
    forall|i: int, j: int| 0 <= i < j < es.len() ==> key_lt(#[trigger] es[i].key@, #[trigger] es[j].key@)
}

/// The mapping that a list of entries stands for; of two entries with one key the later counts.
spec fn entries_map(es: Seq<Entry>) -> Map<Seq<char>, Tree>
    decreases es,
{
    if es.len() == 0 {
        Map::empty()
    } else {
        entries_map(es.drop_last()).insert(es.last().key@, node_tree(es.last().value))
    }
}

/// The keys of a list of entries, in the order of the list.
spec fn entry_keys(es: Seq<Entry>) -> Seq<Seq<char>> {
    Seq::new(es.len(), |i: int| es[i].key@)
}

/// Keys and values of the mapping of a list of entries.
proof fn lemma_entries_map_dom(es: Seq<Entry>)
    ensures
        entries_map(es).dom().finite(),
        forall|k: Seq<char>|
            entries_map(es).contains_key(k) <==> exists|i: int|
                0 <= i < es.len() && #[trigger] es[i].key@ == k,
    decreases es.len(),
{
    if es.len() > 0 {
        let front = es.drop_last();
        lemma_entries_map_dom(front);
        assert forall|k: Seq<char>|
            entries_map(es).contains_key(k) <==> exists|i: int|
                0 <= i < es.len() && #[trigger] es[i].key@ == k by {
            if entries_map(es).contains_key(k) {
                if k == es.last().key@ {
                    assert(es[es.len() - 1].key@ == k);
                } else {
                    let i = choose|i: int| 0 <= i < front.len() && #[trigger] front[i].key@ == k;
                    assert(es[i].key@ == k);
                }
            }
            if exists|i: int| 0 <= i < es.len() && #[trigger] es[i].key@ == k {
                let i = choose|i: int| 0 <= i < es.len() && #[trigger] es[i].key@ == k;
                if i < es.len() - 1 {
                    assert(front[i].key@ == k);
                }
            }
        }
    }
}

/// In a list without repeated keys every entry is found under its key.
proof fn lemma_entries_map_value(es: Seq<Entry>, i: int)
    requires
        sorted_entries(es),
        0 <= i < es.len(),
    ensures
        entries_map(es).contains_key(es[i].key@),
        entries_map(es)[es[i].key@] == node_tree(es[i].value),
    decreases es.len(),
{
    if i < es.len() - 1 {
        let front = es.drop_last();
        assert(sorted_entries(front)) by {
            assert forall|a: int, b: int| 0 <= a < b < front.len() implies key_lt(
                #[trigger] front[a].key@,
                #[trigger] front[b].key@,
            ) by {
                assert(front[a] == es[a]);
                assert(front[b] == es[b]);
            }
        }
        lemma_entries_map_value(front, i);
        assert(front[i] == es[i]);
        assert(key_lt(es[i].key@, es[es.len() - 1].key@));
        lemma_key_lt_irreflexive(es[i].key@);
    }
}

/// The mapping of a list in key order, entry by entry.
proof fn lemma_entries_map_sorted(es: Seq<Entry>)
    requires
        sorted_entries(es),
    ensures
        entries_map(es).dom().finite(),
        forall|k: Seq<char>|
            entries_map(es).contains_key(k) <==> exists|i: int|
                0 <= i < es.len() && #[trigger] es[i].key@ == k,
        forall|i: int|
            0 <= i < es.len() ==> entries_map(es).contains_key(#[trigger] es[i].key@) && entries_map(
                es,
            )[es[i].key@] == node_tree(es[i].value),
{
    lemma_entries_map_dom(es);
    assert forall|i: int| 0 <= i < es.len() implies entries_map(es).contains_key(#[trigger] es[i].key@)
        && entries_map(es)[es[i].key@] == node_tree(es[i].value) by {
        lemma_entries_map_value(es, i);
    }
}

/// The keys of a list in key order are the sorted keys of its mapping.
proof fn lemma_entry_keys_sorted(es: Seq<Entry>)
    requires
        sorted_entries(es),
    ensures
        sorted_keys(entries_map(es).dom()) == entry_keys(es),
{
    let keys = entry_keys(es);
    let dom = entries_map(es).dom();
    lemma_entries_map_sorted(es);
    assert(is_key_list(keys, dom)) by {
        assert forall|k: Seq<char>| dom.contains(k) <==> keys.contains(k) by {
            if dom.contains(k) {
                let i = choose|i: int| 0 <= i < es.len() && #[trigger] es[i].key@ == k;
                assert(keys[i] == k);
            }
            if keys.contains(k) {
                let i = choose|i: int| 0 <= i < keys.len() && keys[i] == k;
                assert(es[i].key@ == k);
            }
        }
        assert forall|i: int, j: int| 0 <= i < j < keys.len() implies key_lt(
            #[trigger] keys[i],
            #[trigger] keys[j],
        ) by {
            assert(key_lt(es[i].key@, es[j].key@));
        }
    }
    lemma_key_list_unique(sorted_keys(dom), keys, dom);
}

/// A list in key order has as many entries as its mapping has keys.
proof fn lemma_entries_map_len(es: Seq<Entry>)
    requires
        sorted_entries(es),
    ensures
        entries_map(es).dom().finite(),
        entries_map(es).dom().len() == es.len(),
    decreases es.len(),
{
    lemma_entries_map_dom(es);
    if es.len() > 0 {
        let front = es.drop_last();
        assert(sorted_entries(front)) by {
            assert forall|a: int, b: int| 0 <= a < b < front.len() implies key_lt(
                #[trigger] front[a].key@,
                #[trigger] front[b].key@,
            ) by {
                assert(front[a] == es[a]);
                assert(front[b] == es[b]);
            }
        }
        lemma_entries_map_len(front);
        lemma_entries_map_dom(front);
        if entries_map(front).contains_key(es.last().key@) {
            let i = choose|i: int| 0 <= i < front.len() && #[trigger] front[i].key@ == es.last().key@;
            assert(front[i] == es[i]);
            assert(key_lt(es[i].key@, es[es.len() - 1].key@));
            lemma_key_lt_irreflexive(es[i].key@);
        }
    }
}

/// Two lists with the same keys and the same trees stand for one mapping.
proof fn lemma_same_entries(a: Seq<Entry>, b: Seq<Entry>)
    requires
        a.len() == b.len(),
        forall|j: int|
            0 <= j < a.len() ==> (#[trigger] b[j]).key@ == a[j].key@ && node_tree(b[j].value) == node_tree(
                a[j].value,
            ),
    ensures
        entries_map(a) == entries_map(b),
        sorted_entries(a) ==> sorted_entries(b),
    decreases a.len(),
{
    if a.len() > 0 {
        let a2 = a.drop_last();
        let b2 = b.drop_last();
        assert forall|j: int| 0 <= j < a2.len() implies (#[trigger] b2[j]).key@ == a2[j].key@ && node_tree(
            b2[j].value,
        ) == node_tree(a2[j].value) by {
            assert(b2[j] == b[j]);
            assert(a2[j] == a[j]);
        }
        lemma_same_entries(a2, b2);
        assert(b.last() == b[b.len() - 1]);
    }
    if sorted_entries(a) {
        assert forall|i: int, j: int| 0 <= i < j < b.len() implies key_lt(
            #[trigger] b[i].key@,
            #[trigger] b[j].key@,
        ) by {
            assert(key_lt(a[i].key@, a[j].key@));
        }
    }
}

/// Putting an entry with a new key in its place adds it to the mapping.
proof fn lemma_insert_entry(es: Seq<Entry>, idx: int, e: Entry)
    requires
        sorted_entries(es),
        0 <= idx <= es.len(),
        forall|i: int| 0 <= i < idx ==> key_lt(#[trigger] es[i].key@, e.key@),
        forall|i: int| idx <= i < es.len() ==> key_lt(e.key@, #[trigger] es[i].key@),
    ensures
        sorted_entries(es.insert(idx, e)),
        !entries_map(es).contains_key(e.key@),
        entries_map(es.insert(idx, e)) == entries_map(es).insert(e.key@, node_tree(e.value)),
{
    let es2 = es.insert(idx, e);
    assert forall|i: int, j: int| 0 <= i < j < es2.len() implies key_lt(
        #[trigger] es2[i].key@,
        #[trigger] es2[j].key@,
    ) by {
        let a = if i < idx { i } else { i - 1 };
        let b = if j < idx { j } else { j - 1 };
        if i != idx && j != idx {
            assert(es2[i] == es[a]);
            assert(es2[j] == es[b]);
        } else if i == idx {
            assert(es2[j] == es[b]);
        } else {
            assert(es2[i] == es[a]);
        }
    }
    lemma_entries_map_sorted(es);
    lemma_entries_map_sorted(es2);
    lemma_key_lt_irreflexive(e.key@);
    let m1 = entries_map(es2);
    let m2 = entries_map(es).insert(e.key@, node_tree(e.value));
    assert forall|k: Seq<char>| m1.contains_key(k) <==> m2.contains_key(k) by {
        if m1.contains_key(k) {
            let i = choose|i: int| 0 <= i < es2.len() && #[trigger] es2[i].key@ == k;
            if i < idx {
                assert(es[i].key@ == k);
            } else if i > idx {
                assert(es[i - 1].key@ == k);
            }
        }
        if m2.contains_key(k) && k != e.key@ {
            let i = choose|i: int| 0 <= i < es.len() && #[trigger] es[i].key@ == k;
            if i < idx {
                assert(es2[i].key@ == k);
            } else {
                assert(es2[i + 1].key@ == k);
            }
        }
        assert(es2[idx].key@ == e.key@);
    }
    assert forall|k: Seq<char>| m1.contains_key(k) implies m1[k] == m2[k] by {
        let i = choose|i: int| 0 <= i < es2.len() && #[trigger] es2[i].key@ == k;
        if i < idx {
            assert(es[i].key@ == k);
        } else if i > idx {
            assert(es[i - 1].key@ == k);
        }
    }
    assert(m1 =~= m2);
}

/// Taking an entry out of a list in key order takes its key out of the mapping.
proof fn lemma_remove_entry(es: Seq<Entry>, idx: int)
    requires
        sorted_entries(es),
        0 <= idx < es.len(),
    ensures
        sorted_entries(es.remove(idx)),
        entries_map(es).contains_key(es[idx].key@),
        entries_map(es)[es[idx].key@] == node_tree(es[idx].value),
        entries_map(es.remove(idx)) == entries_map(es).remove(es[idx].key@),
        forall|i: int| 0 <= i < idx ==> key_lt(#[trigger] es.remove(idx)[i].key@, es[idx].key@),
        forall|i: int|
            idx <= i < es.remove(idx).len() ==> key_lt(es[idx].key@, #[trigger] es.remove(idx)[i].key@),
{
    let es2 = es.remove(idx);
    let key = es[idx].key@;
    assert forall|i: int, j: int| 0 <= i < j < es2.len() implies key_lt(
        #[trigger] es2[i].key@,
        #[trigger] es2[j].key@,
    ) by {
        let a = if i < idx { i } else { i + 1 };
        let b = if j < idx { j } else { j + 1 };
        assert(es2[i] == es[a]);
        assert(es2[j] == es[b]);
    }
    assert forall|i: int| 0 <= i < idx implies key_lt(#[trigger] es2[i].key@, key) by {
        assert(es2[i] == es[i]);
    }
    assert forall|i: int| idx <= i < es2.len() implies key_lt(key, #[trigger] es2[i].key@) by {
        assert(es2[i] == es[i + 1]);
    }
    lemma_entries_map_sorted(es);
    lemma_entries_map_sorted(es2);
    let m1 = entries_map(es2);
    let m2 = entries_map(es).remove(key);
    assert forall|k: Seq<char>| m1.contains_key(k) <==> m2.contains_key(k) by {
        if m1.contains_key(k) {
            let i = choose|i: int| 0 <= i < es2.len() && #[trigger] es2[i].key@ == k;
            let a = if i < idx { i } else { i + 1 };
            assert(es2[i] == es[a]);
            assert(es[a].key@ == k);
            lemma_key_lt_irreflexive(key);
            if a < idx {
                assert(key_lt(es[a].key@, es[idx].key@));
            } else {
                assert(key_lt(es[idx].key@, es[a].key@));
            }
        }
        if m2.contains_key(k) {
            let i = choose|i: int| 0 <= i < es.len() && #[trigger] es[i].key@ == k;
            if i < idx {
                assert(es2[i].key@ == k);
            } else {
                assert(es2[i - 1].key@ == k);
            }
        }
    }
    assert forall|k: Seq<char>| m1.contains_key(k) implies m1[k] == m2[k] by {
        let i = choose|i: int| 0 <= i < es2.len() && #[trigger] es2[i].key@ == k;
        let a = if i < idx { i } else { i + 1 };
        assert(es2[i] == es[a]);
        assert(es[a].key@ == k);
    }
    assert(m1 =~= m2);
}

} // verus!
