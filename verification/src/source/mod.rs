//! Sources of configuration trees and the builder that loads and merges
//! them by priority.

use vstd::prelude::*;
use crate::error::ConfigError;
use crate::node::ConfigNode;
use crate::tree::Tree;

pub mod cli;
pub mod file;
pub mod merge;

pub use merge::merge_nodes;
use merge::{lemma_last_overlay_wins, lemma_merge_all_prefix, merge, merge_all};

verus! {

/// Trait implemented by configuration sources (files, CLI, etc).
pub trait ConfigSource: Send + Sync {
    /// Higher priority sources override lower priority ones.
    fn priority(&self) -> u8 {
        0
    }

    /// Load configuration data from the source.
    fn load(&self) -> Result<ConfigNode, ConfigError>;
}

/// `outcome` is what the source gave when it was asked to load.
pub open spec fn gave<S: ConfigSource + ?Sized>(
    source: &S,
    outcome: Result<ConfigNode, ConfigError>,
) -> bool {
    call_ensures(S::load, (source,), outcome)
}

/// Asks a source to load and hands on what it gave.
pub fn ask<S: ConfigSource + ?Sized>(source: &S) -> (outcome: Result<ConfigNode, ConfigError>)
    ensures
        gave::<S>(source, outcome),
{
    source.load()
}

/// The source at `a` is loaded before the one at `b`: its priority is lower,
/// or the two are equal and it was added first.
pub open spec fn loads_before(priorities: Seq<u8>, a: int, b: int) -> bool {
    priorities[a] < priorities[b] || (priorities[a] == priorities[b] && a < b)
}

/// The position `p` occurs in `order`.
pub open spec fn lists(order: Seq<usize>, p: int) -> bool {
    exists|i: int| 0 <= i < order.len() && #[trigger] order[i] == p
}

/// `order` lists the positions of all sources by ascending priority, those
/// of one priority in the order in which they were added.
pub open spec fn is_load_order(order: Seq<usize>, priorities: Seq<u8>) -> bool {
    &&& order.len() == priorities.len()
    &&& forall|i: int| 0 <= i < order.len() ==> (#[trigger] order[i]) < priorities.len()
    &&& forall|i: int, j: int|
        0 <= i < j < order.len() ==> loads_before(
            priorities,
            #[trigger] order[i] as int,
            #[trigger] order[j] as int,
        )
    &&& forall|p: int| 0 <= p < priorities.len() ==> #[trigger] lists(order, p)
}

/// No source has a higher priority than the one that is loaded last.
pub proof fn lemma_highest_priority_last(order: Seq<usize>, priorities: Seq<u8>)
    requires
        is_load_order(order, priorities),
        priorities.len() > 0,
    ensures
        forall|p: int|
            0 <= p < priorities.len() ==> #[trigger] priorities[p] <= priorities[order.last() as int],
{
    let last = order.last() as int;
    assert forall|p: int| 0 <= p < priorities.len() implies #[trigger] priorities[p] <= priorities[last] by {
        assert(lists(order, p));
        let i = choose|i: int| 0 <= i < order.len() && #[trigger] order[i] == p;
        if i < order.len() - 1 {
            assert(loads_before(priorities, order[i] as int, order[order.len() - 1] as int));
        }
    }
}

/// The order in which sources of the given priorities are loaded.
pub fn load_order(priorities: &Vec<u8>) -> (order: Vec<usize>)
    ensures
        is_load_order(order@, priorities@),
{
    let mut order: Vec<usize> = Vec::new();
    let mut next: usize = 0;
    while next < priorities.len()
        invariant
            next <= priorities@.len(),
            is_load_order(order@, priorities@.take(next as int)),
        decreases priorities@.len() - next,
    {
        let ghost known = priorities@.take(next as int);
        let ghost grown = priorities@.take(next + 1);
        let rank = priorities[next];
        let mut at: usize = 0;
        while at < order.len() && priorities[order[at]] <= rank
            invariant
                at <= order@.len(),
                next < priorities@.len(),
                rank == priorities@[next as int],
                is_load_order(order@, priorities@.take(next as int)),
                forall|i: int| 0 <= i < at ==> priorities@[(#[trigger] order@[i]) as int] <= rank,
            decreases order@.len() - at,
        {
            assert(order@[at as int] < priorities@.take(next as int).len());
            at = at + 1;
        }
        let ghost before = order@;
        proof {
            if at < before.len() {
                assert(before[at as int] < known.len());
            }
        }
        order.insert(at, next);
        proof {
            let after = order@;
            assert forall|i: int| 0 <= i < after.len() implies (#[trigger] after[i]) < grown.len() by {
                if i < at {
                    assert(after[i] == before[i]);
                } else if i > at {
                    assert(after[i] == before[i - 1]);
                }
            }
            assert forall|i: int, j: int| 0 <= i < j < after.len() implies loads_before(
                grown,
                #[trigger] after[i] as int,
                #[trigger] after[j] as int,
            ) by {
                let a = if i < at { i } else { i - 1 };
                let b = if j < at { j } else { j - 1 };
                if i != at {
                    assert(after[i] == before[a]);
                    assert(before[a] < known.len());
                    assert(known[before[a] as int] == grown[before[a] as int]);
                }
                if j != at {
                    assert(after[j] == before[b]);
                    assert(before[b] < known.len());
                    assert(known[before[b] as int] == grown[before[b] as int]);
                }
                if i != at && j != at {
                    assert(loads_before(known, before[a] as int, before[b] as int));
                } else if i == at {
                    assert(loads_before(known, before[at as int] as int, before[b] as int) || b == at);
                    assert(priorities@[before[at as int] as int] > rank);
                }
            }
            assert forall|p: int| 0 <= p < grown.len() implies #[trigger] lists(after, p) by {
                if p == next {
                    assert(after[at as int] == p);
                } else {
                    assert(p < known.len());
                    assert(lists(before, p));
                    let i = choose|i: int| 0 <= i < before.len() && #[trigger] before[i] == p;
                    if i < at {
                        assert(after[i] == p);
                    } else {
                        assert(after[i + 1] == p);
                    }
                }
            }
        }
        next = next + 1;
    }
    assert(priorities@.take(next as int) =~= priorities@);
    order
}

/// What the merge holds once a source was asked: its tree merged onto
/// what was merged before, or the error with which it failed.
pub fn absorb(merged: ConfigNode, outcome: Result<ConfigNode, ConfigError>) -> (next: Result<
    ConfigNode,
    ConfigError,
>)
    ensures
        match outcome {
            Ok(value) => next matches Ok(node) && node@ == merge(merged@, value@),
            Err(error) => next == Err::<ConfigNode, ConfigError>(error),
        },
{
    match outcome {
        Ok(value) => Ok(merge_nodes(merged, value)),
        Err(error) => Err(error),
    }
}

/// The trees that the sources gave, a failure counting as null.
pub open spec fn trees_of(outcomes: Seq<Result<ConfigNode, ConfigError>>) -> Seq<Tree> {
    Seq::new(
        outcomes.len(),
        |i: int|
            match outcomes[i] {
                Ok(node) => node@,
                Err(_) => Tree::Null,
            },
    )
}

/// `outcomes` are what the sources gave when they were asked in `order`,
/// one after the other, until all were asked or one failed.
pub open spec fn asked_in_order<S: ConfigSource>(
    sources: Seq<S>,
    order: Seq<usize>,
    outcomes: Seq<Result<ConfigNode, ConfigError>>,
) -> bool {
    &&& outcomes.len() <= order.len()
    &&& forall|i: int|
        0 <= i < outcomes.len() ==> call_ensures(S::load, (&sources[order[i] as int],), #[trigger] outcomes[i])
    &&& forall|i: int| 0 <= i < outcomes.len() - 1 ==> (#[trigger] outcomes[i]) is Ok
    &&& outcomes.len() < order.len() ==> outcomes.len() > 0 && outcomes.last() is Err
}

/// `merged` is what comes of the outcomes: the failure of the last, if it
/// failed; else the trees merged onto an empty table, each onto the merge
/// of those before it.
pub open spec fn merged_from(
    outcomes: Seq<Result<ConfigNode, ConfigError>>,
    merged: Result<ConfigNode, ConfigError>,
) -> bool {
    if outcomes.len() > 0 && outcomes.last() is Err {
        merged == Err::<ConfigNode, ConfigError>(outcomes.last()->Err_0)
    } else {
        merged matches Ok(node) && node@ == merge_all(
            Tree::Table(Map::empty()),
            trees_of(outcomes),
            outcomes.len(),
        )
    }
}

/// Asks the sources in the given order and merges what they give onto an
/// empty table, each onto the merge of those before it. The first source
/// that fails ends the load with its error; those after it are not asked.
pub fn load_in_order<S: ConfigSource>(sources: &Vec<S>, order: &Vec<usize>) -> (merged: Result<
    ConfigNode,
    ConfigError,
>)
    requires
        forall|i: int| 0 <= i < order@.len() ==> (#[trigger] order@[i]) < sources@.len(),
    ensures
        exists|outcomes: Seq<Result<ConfigNode, ConfigError>>| #[trigger]
            asked_in_order(sources@, order@, outcomes) && merged_from(outcomes, merged),
{
    let mut merged = ConfigNode::empty_table();
    let ghost mut outcomes: Seq<Result<ConfigNode, ConfigError>> = Seq::empty();
    let mut turn: usize = 0;
    while turn < order.len()
        invariant
            turn <= order@.len(),
            forall|i: int| 0 <= i < order@.len() ==> (#[trigger] order@[i]) < sources@.len(),
            outcomes.len() == turn,
            forall|i: int|
                0 <= i < turn ==> call_ensures(S::load, (&sources@[order@[i] as int],), #[trigger] outcomes[i]),
            forall|i: int| 0 <= i < turn ==> (#[trigger] outcomes[i]) is Ok,
            merged@ == merge_all(Tree::Table(Map::empty()), trees_of(outcomes), outcomes.len()),
        decreases order@.len() - turn,
    {
        let source = &sources[order[turn]];
        let outcome = source.load();
        assert(call_ensures(S::load, (&sources@[order@[turn as int] as int],), outcome));
        let ghost before = outcomes;
        proof {
            outcomes = outcomes.push(outcome);
            lemma_merge_all_prefix(
                Tree::Table(Map::empty()),
                trees_of(before),
                trees_of(outcomes),
                before.len(),
            );
            assert forall|i: int| 0 <= i < turn + 1 implies call_ensures(
                S::load,
                (&sources@[order@[i] as int],),
                #[trigger] outcomes[i],
            ) by {
                if i < turn {
                    assert(outcomes[i] == before[i]);
                }
            }
        }
        match absorb(merged, outcome) {
            Ok(node) => {
                merged = node;
            },
            Err(error) => {
                proof {
                    assert forall|i: int| 0 <= i < outcomes.len() - 1 implies (#[trigger] outcomes[i]) is Ok by {
                        assert(outcomes[i] == before[i]);
                    }
                    assert(asked_in_order(sources@, order@, outcomes));
                    assert(merged_from(outcomes, Err::<ConfigNode, ConfigError>(error)));
                }
                return Err(error);
            },
        }
        proof {
            assert forall|i: int| 0 <= i < turn + 1 implies (#[trigger] outcomes[i]) is Ok by {
                if i < turn {
                    assert(outcomes[i] == before[i]);
                }
            }
        }
        turn = turn + 1;
    }
    proof {
        assert(asked_in_order(sources@, order@, outcomes));
        assert(merged_from(outcomes, Ok::<ConfigNode, ConfigError>(merged)));
    }
    Ok(merged)
}

/// Where every source gave a tree, the source that was loaded last has
/// the highest priority, and what its table says under a key, where that
/// is no table, is what the merged tree says under that key.
pub proof fn lemma_highest_priority_wins(
    priorities: Seq<u8>,
    order: Seq<usize>,
    outcomes: Seq<Result<ConfigNode, ConfigError>>,
    merged: Result<ConfigNode, ConfigError>,
    key: Seq<char>,
)
    requires
        is_load_order(order, priorities),
        outcomes.len() == order.len(),
        outcomes.len() > 0,
        merged_from(outcomes, merged),
        outcomes.last() is Ok,
        outcomes.last()->Ok_0@ is Table,
        outcomes.last()->Ok_0@->Table_0.contains_key(key),
        !(outcomes.last()->Ok_0@->Table_0[key] is Table),
    ensures
        forall|p: int|
            0 <= p < priorities.len() ==> #[trigger] priorities[p] <= priorities[order.last() as int],
        merged is Ok,
        merged->Ok_0@ is Table,
        merged->Ok_0@->Table_0.contains_key(key),
        merged->Ok_0@->Table_0[key] == outcomes.last()->Ok_0@->Table_0[key],
{
    lemma_highest_priority_last(order, priorities);
    let trees = trees_of(outcomes);
    assert(trees.last() == outcomes.last()->Ok_0@);
    lemma_last_overlay_wins(Tree::Table(Map::empty()), trees, key);
}

/// `outcome` is what `bind` made of a tree that was loaded, or the error
/// with which loading failed.
pub open spec fn bound_to<T, L: Fn(&ConfigNode) -> Result<T, ConfigError>>(
    loaded: Result<ConfigNode, ConfigError>,
    bind: L,
    outcome: Result<T, ConfigError>,
) -> bool {
    match loaded {
        Ok(node) => call_ensures(bind, (&node,), outcome),
        Err(error) => outcome matches Err(e) && e@ == error@,
    }
}

/// Binds a record to what was loaded; a failure to load is handed on.
pub fn bind_loaded<T, L: Fn(&ConfigNode) -> Result<T, ConfigError>>(
    loaded: Result<ConfigNode, ConfigError>,
    bind: &L,
) -> (outcome: Result<T, ConfigError>)
    requires
        forall|node: &ConfigNode| call_requires(*bind, (node,)),
    ensures
        bound_to(loaded, *bind, outcome),
{
    match loaded {
        Ok(node) => bind(&node),
        Err(error) => Err(error),
    }
}

/// One source of a builder with the priority that it gave when it was added.
pub struct Slot {
    priority: u8,
    source: Box<dyn ConfigSource>,
}

impl Slot {
    /// The priority that the source gave when it was added.
    pub closed spec fn rank(&self) -> u8 {
        self.priority
    }

    /// `outcome` is what the source that the slot holds gave when it was
    /// asked to load.
    pub closed spec fn yields(&self, outcome: Result<ConfigNode, ConfigError>) -> bool {
        gave::<dyn ConfigSource>(&*self.source, outcome)
    }

    /// A source with the priority that it gave.
    fn new(priority: u8, source: Box<dyn ConfigSource>) -> (slot: Slot)
        ensures
            slot.rank() == priority,
    {
        Slot { priority, source }
    }
}

impl ConfigSource for Slot {
    fn priority(&self) -> (priority: u8)
        ensures
            priority == self.rank(),
    {
        self.priority
    }

    /// Asks the source that the slot holds and hands on what it gave.
    fn load(&self) -> (outcome: Result<ConfigNode, ConfigError>)
        ensures
            self.yields(outcome),
    {
        ask::<dyn ConfigSource>(&*self.source)
    }
}

/// Builder that merges a set of [`ConfigSource`] instances.
pub struct ConfigBuilder {
    sources: Vec<Slot>,
}

impl Default for ConfigBuilder {
    fn default() -> (builder: ConfigBuilder)
        ensures
            builder.priorities() == Seq::<u8>::empty(),
    {
        ConfigBuilder::new()
    }
}

impl ConfigBuilder {
    /// The priorities of the sources, in the order in which they were added.
    pub open spec fn priorities(&self) -> Seq<u8> {
        Seq::new(self.slots().len(), |i: int| self.slots()[i].rank())
    }

    /// The sources, in the order in which they were added.
    pub closed spec fn slots(&self) -> Seq<Slot> {
        self.sources@
    }

    /// A builder without sources.
    pub fn new() -> (builder: ConfigBuilder)
        ensures
            builder.priorities() == Seq::<u8>::empty(),
    {
        let builder = ConfigBuilder { sources: Vec::new() };
        assert(builder.priorities() =~= Seq::<u8>::empty());
        builder
    }

    /// Adds a source; its priority is asked for once, here.
    pub fn add_source<S: ConfigSource + 'static>(self, source: S) -> (builder: ConfigBuilder)
        ensures
            builder.priorities().len() == self.priorities().len() + 1,
            builder.priorities().drop_last() == self.priorities(),
            call_ensures(S::priority, (&source,), builder.priorities().last()),
    {
        let priority = source.priority();
        let boxed: Box<dyn ConfigSource> = Box::new(source);
        let slot = Slot::new(priority, boxed);
        let mut sources = self.sources;
        sources.push(slot);
        let builder = ConfigBuilder { sources };
        assert(builder.priorities().drop_last() =~= self.priorities());
        builder
    }

    /// The positions of the sources in the order in which they are loaded:
    /// by ascending priority, those of one priority in the order in which
    /// they were added.
    pub fn order(&self) -> (order: Vec<usize>)
        ensures
            is_load_order(order@, self.priorities()),
    {
        let mut priorities: Vec<u8> = Vec::new();
        let mut i: usize = 0;
        while i < self.sources.len()
            invariant
                i <= self.sources@.len(),
                priorities@.len() == i,
                forall|j: int| 0 <= j < i ==> priorities@[j] == self.sources@[j].priority,
            decreases self.sources@.len() - i,
        {
            priorities.push(self.sources[i].priority);
            i = i + 1;
        }
        assert(priorities@ =~= self.priorities());
        load_order(&priorities)
    }

    /// Loads the sources in their order and merges what they give onto an
    /// empty table, each onto the merge of those before it. The first
    /// source that fails ends the load with its error; those after it are
    /// not asked.
    pub fn load(self) -> (outcome: Result<ConfigNode, ConfigError>)
        ensures
            exists|order: Seq<usize>, outcomes: Seq<Result<ConfigNode, ConfigError>>|
                is_load_order(order, self.priorities()) && #[trigger] asked_in_order(
                    self.slots(),
                    order,
                    outcomes,
                ) && merged_from(outcomes, outcome),
    {
        let order = self.order();
        let outcome = load_in_order(&self.sources, &order);
        proof {
            let outcomes = choose|outcomes: Seq<Result<ConfigNode, ConfigError>>| #[trigger]
                asked_in_order(self.sources@, order@, outcomes) && merged_from(outcomes, outcome);
            assert(asked_in_order(self.slots(), order@, outcomes));
        }
        outcome
    }

    /// Loads the sources and has `bind` bind a record to the merged tree.
    pub fn load_into<T, L: Fn(&ConfigNode) -> Result<T, ConfigError>>(self, bind: &L) -> (outcome: Result<
        T,
        ConfigError,
    >)
        requires
            forall|node: &ConfigNode| call_requires(*bind, (node,)),
        ensures
            exists|
                order: Seq<usize>,
                outcomes: Seq<Result<ConfigNode, ConfigError>>,
                loaded: Result<ConfigNode, ConfigError>,
            |
                is_load_order(order, self.priorities()) && #[trigger] asked_in_order(
                    self.slots(),
                    order,
                    outcomes,
                ) && merged_from(outcomes, loaded) && #[trigger] bound_to(loaded, *bind, outcome),
    {
        let ghost slots = self.slots();
        let ghost priorities = self.priorities();
        let loaded = self.load();
        let outcome = bind_loaded(loaded, bind);
        proof {
            let (order, outcomes) = choose|order: Seq<usize>, outcomes: Seq<Result<ConfigNode, ConfigError>>|
                is_load_order(order, priorities) && #[trigger] asked_in_order(slots, order, outcomes)
                    && merged_from(outcomes, loaded);
            assert(asked_in_order(slots, order, outcomes) && bound_to(loaded, *bind, outcome));
        }
        outcome
    }
}

} // verus!
