//! Overrides given as command-line arguments of the shape `--key.with.dots=value`.

use vstd::prelude::*;
use vstd::string::StrSliceExecFns;
use crate::error::ConfigError;
use crate::node::{ConfigNode, Table};
use crate::tree::Tree;
use crate::source::ConfigSource;
use crate::text::{chars_of, find_char, index_of, texts, trim, trim_range};

verus! {

/// Key and value of an argument of the shape `--key=value`, each without the
/// white space around it; nothing for an argument without the two dashes,
/// without `=` or with an empty key.
pub open spec fn flag_parts(arg: Seq<char>) -> Option<(Seq<char>, Seq<char>)> {
    if arg.len() >= 2 && arg[0] == '-' && arg[1] == '-' {
        let body = arg.skip(2);
        let eq = index_of(body, '=', 0);
        if eq >= body.len() {
            None
        } else {
            let key = trim(body.take(eq));
            let value = trim(body.skip(eq + 1));
            if key.len() == 0 {
                None
            } else {
                Some((key, value))
            }
        }
    } else {
        None
    }
}

/// The parts of a dotted path that are not empty.
pub open spec fn path_segments(path: Seq<char>) -> Seq<Seq<char>>
    decreases path.len(),
{
    if path.len() == 0 {
        Seq::empty()
    } else {
        let dot = index_of(path, '.', 0);
        let head = path.take(dot);
        let rest = if 0 <= dot < path.len() {
            path_segments(path.skip(dot + 1))
        } else {
            Seq::empty()
        };
        if head.len() == 0 {
            rest
        } else {
            seq![head] + rest
        }
    }
}

/// The table under `key`, or an empty one where `key` holds no table.
pub open spec fn branch(m: Map<Seq<char>, Tree>, key: Seq<char>) -> Map<Seq<char>, Tree> {
    if m.contains_key(key) && m[key] is Table {
        m[key]->Table_0
    } else {
        Map::empty()
    }
}

/// The table with the scalar `value` put at the end of the path
/// `segments`: every segment but the last names a table inside the one
/// before, made where there is none, and the last names the scalar.
pub open spec fn with_path(m: Map<Seq<char>, Tree>, segments: Seq<Seq<char>>, value: Seq<char>) -> Map<
    Seq<char>,
    Tree,
>
    decreases segments.len(),
{
    if segments.len() == 0 {
        m
    } else if segments.len() == 1 {
        m.insert(segments[0], Tree::Scalar(value))
    } else {
        m.insert(
            segments[0],
            Tree::Table(with_path(branch(m, segments[0]), segments.drop_first(), value)),
        )
    }
}

/// The table after the first `n` of `args` were applied to it in turn, those
/// that are no flags left out.
pub open spec fn with_flags(m: Map<Seq<char>, Tree>, args: Seq<Seq<char>>, n: nat) -> Map<Seq<char>, Tree>
    decreases n,
{
    if n == 0 || n > args.len() {
        m
    } else {
        let before = with_flags(m, args, (n - 1) as nat);
        match flag_parts(args[n - 1]) {
            Some((key, value)) => with_path(before, path_segments(key), value),
            None => before,
        }
    }
}

/// Splits an argument of the shape `--key=value` into key and value.
pub fn parse_flag(arg: &str) -> (parts: Option<(&str, &str)>)
    ensures
        match flag_parts(arg@) {
            Some((key, value)) => parts matches Some((k, v)) && k@ == key && v@ == value,
            None => parts is None,
        },
{
    let chars = chars_of(arg);
    let n = chars.len();
    if n < 2 || chars[0] != '-' || chars[1] != '-' {
        return None;
    }
    let ghost body = arg@.skip(2);
    assert(body =~= chars@.subrange(2, n as int));
    let eq = find_char(&chars, 2, n, '=');
    if eq == n {
        return None;
    }
    let (key_from, key_to) = trim_range(&chars, 2, eq);
    let (value_from, value_to) = trim_range(&chars, eq + 1, n);
    assert(body.take(eq - 2) =~= chars@.subrange(2, eq as int));
    assert(body.skip(eq - 2 + 1) =~= chars@.subrange(eq + 1, n as int));
    if key_from == key_to {
        assert(chars@.subrange(key_from as int, key_to as int).len() == 0);
        return None;
    }
    let key = arg.substring_char(key_from, key_to);
    let value = arg.substring_char(value_from, value_to);
    Some((key, value))
}

/// The parts of a dotted path that are not empty.
pub fn split_path(path: &str) -> (segments: Vec<String>)
    ensures
        texts(segments@) == path_segments(path@),
{
    let chars = chars_of(path);
    let n = chars.len();
    let mut segments: Vec<String> = Vec::new();
    let mut from: usize = 0;
    assert(path@.skip(0) =~= path@);
    while from < n
        invariant
            from <= n,
            n == chars@.len(),
            chars@ == path@,
            path_segments(path@) == texts(segments@) + path_segments(path@.skip(from as int)),
        decreases n - from,
    {
        let ghost rest = path@.skip(from as int);
        let ghost done = texts(segments@);
        assert(rest =~= chars@.subrange(from as int, n as int));
        let dot = find_char(&chars, from, n, '.');
        assert(rest.take(dot - from) =~= chars@.subrange(from as int, dot as int));
        if dot > from {
            let piece = path.substring_char(from, dot);
            segments.push(piece.to_string());
            assert(texts(segments@) =~= done + seq![rest.take(dot - from)]);
        }
        if dot < n {
            assert(rest.skip(dot - from + 1) =~= path@.skip(dot + 1));
            from = dot + 1;
        } else {
            from = n;
        }
        assert(path_segments(path@) =~= texts(segments@) + path_segments(path@.skip(from as int)));
    }
    assert(path_segments(path@) =~= texts(segments@));
    segments
}

/// The node as a table; what is no table gives an empty one.
pub fn as_table(node: Option<ConfigNode>) -> (table: Table)
    ensures
        table@ == match node {
            Some(n) => match n@ {
                Tree::Table(m) => m,
                _ => Map::empty(),
            },
            None => Map::empty(),
        },
{
    match node {
        Some(ConfigNode::Table(table)) => table,
        _ => Table::new(),
    }
}

/// Puts the scalar `value` at the end of the path made of `segments` from
/// position `at` on.
pub fn insert_segments(tree: &mut Table, segments: &Vec<String>, at: usize, value: &str)
    requires
        at <= segments@.len(),
    ensures
        final(tree)@ == with_path(old(tree)@, texts(segments@).skip(at as int), value@),
    decreases segments@.len() - at,
{
    let ghost rest = texts(segments@).skip(at as int);
    if at < segments.len() {
        let head = segments[at].clone();
        assert(rest[0] == head@);
        if at + 1 == segments.len() {
            tree.insert(head, ConfigNode::Scalar(value.to_string()));
        } else {
            let existing = tree.remove(head.as_str());
            let mut inner = as_table(existing);
            assert(inner@ == branch(old(tree)@, head@));
            insert_segments(&mut inner, segments, at + 1, value);
            assert(rest.drop_first() =~= texts(segments@).skip(at + 1));
            tree.insert(head, ConfigNode::Table(inner));
            assert(tree@ =~= old(tree)@.insert(head@, Tree::Table(inner@)));
        }
    }
}

/// Puts the scalar `value` into the tree at the dotted `path`, making the
/// tables on the way where they are missing.
pub fn insert_path(tree: &mut Table, path: &str, value: &str)
    ensures
        final(tree)@ == with_path(old(tree)@, path_segments(path@), value@),
{
    let segments = split_path(path);
    if segments.len() == 0 {
        return ;
    }
    assert(texts(segments@).skip(0) =~= texts(segments@));
    insert_segments(tree, &segments, 0, value);
}

/// Overrides taken from a list of command-line arguments. The source
/// scans the list that it is given with [`CliArguments::with_args`]; it
/// does not read the arguments of the process itself, so a caller that
/// wants those hands them in, without the program's name. A source that
/// was given no list loads an empty table.
pub struct CliArguments {
    priority: u8,
    args: Option<Vec<String>>,
}

impl CliArguments {
    /// The arguments that the source was given; none where it was given no list.
    pub closed spec fn given(&self) -> Seq<Seq<char>> {
        match self.args {
            Some(list) => texts(list@),
            None => Seq::empty(),
        }
    }

    /// The rank of the source.
    pub closed spec fn rank(&self) -> u8 {
        self.priority
    }

    /// A source of the highest rank that was given no arguments yet; until
    /// it is given a list, it loads an empty table.
    pub fn new() -> (cli: CliArguments)
        ensures
            cli.rank() == u8::MAX,
            cli.given() == Seq::<Seq<char>>::empty(),
    {
        CliArguments { priority: u8::MAX, args: None }
    }

    /// The same source with another priority.
    pub fn with_priority(self, priority: u8) -> (cli: CliArguments)
        ensures
            cli.rank() == priority,
            cli.given() == self.given(),
    {
        CliArguments { priority, args: self.args }
    }

    /// Provide the arguments to scan.
    pub fn with_args(self, args: Vec<String>) -> (cli: CliArguments)
        ensures
            cli.rank() == self.rank(),
            cli.given() == texts(args@),
    {
        CliArguments { priority: self.priority, args: Some(args) }
    }
}

impl Default for CliArguments {
    fn default() -> (cli: CliArguments)
        ensures
            cli.rank() == u8::MAX,
            cli.given() == Seq::<Seq<char>>::empty(),
    {
        CliArguments::new()
    }
}

impl ConfigSource for CliArguments {
    fn priority(&self) -> (p: u8)
        ensures
            p == self.rank(),
    {
        self.priority
    }

    /// The table made of the flags among the arguments that the source
    /// was given, each put at its dotted path, in their order; an empty
    /// table where it was given none.
    fn load(&self) -> (loaded: Result<ConfigNode, ConfigError>)
        ensures
            loaded matches Ok(node) && node@ == Tree::Table(
                with_flags(Map::empty(), self.given(), self.given().len()),
            ),
    {
        let mut tree = Table::new();
        match &self.args {
            None => {},
            Some(list) => {
                let mut i: usize = 0;
                while i < list.len()
                    invariant
                        i <= list@.len(),
                        tree@ == with_flags(Map::empty(), texts(list@), i as nat),
                    decreases list@.len() - i,
                {
                    match parse_flag(list[i].as_str()) {
                        Some((key, value)) => {
                            insert_path(&mut tree, key, value);
                        },
                        None => {},
                    }
                    i = i + 1;
                }
            },
        }
        Ok(ConfigNode::Table(tree))
    }
}

} // verus!
