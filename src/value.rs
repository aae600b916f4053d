//! The structured value tree and navigation through it.
use vstd::prelude::*;

verus! {

/// A parsed tree of structured data.
#[derive(Debug, PartialEq)]
pub enum StructuredValue {
    Null,
    Bool(bool),
    Number(serde_json::Number),
    Str(String),
    /// An ordered list of values.
    Sequence(Vec<StructuredValue>),
    /// String-keyed entries; the order of the entries carries no meaning.
    Mapping(Vec<(String, StructuredValue)>),
}

/// One hop of a path through a `StructuredValue`.
#[derive(Debug, PartialEq)]
pub enum NavigationStep {
    /// Look up a key of a mapping.
    Key(String),
    /// Take the entry at a 0-based position of a sequence.
    Index(usize),
}

/// Navigation failed: `step` is the position in the path of the first step
/// that did not resolve.
#[derive(Debug, PartialEq, Eq)]
pub struct NotFound {
    pub step: usize,
}

/// No mapping in the tree holds the same key twice.
pub open spec fn well_formed(v: StructuredValue) -> bool
    decreases v,
{
    match v {
        StructuredValue::Sequence(items) => forall|i: int|
            0 <= i < items@.len() ==> well_formed(#[trigger] items@[i]),
        StructuredValue::Mapping(entries) => {
            &&& forall|i: int, j: int|
                0 <= i < j < entries@.len() ==> (#[trigger] entries@[i]).0@ != (#[trigger] entries@[j]).0@
            &&& forall|i: int| 0 <= i < entries@.len() ==> well_formed((#[trigger] entries@[i]).1)
        },
        _ => true,
    }
}

/// The value stored under key `k` in `entries`: the first entry with that key.
pub open spec fn lookup_key(entries: Seq<(String, StructuredValue)>, k: Seq<char>) -> Option<StructuredValue>
    decreases entries.len(),
{
    if entries.len() == 0 {
        None
    } else if entries[0].0@ == k {
        Some(entries[0].1)
    } else {
        lookup_key(entries.drop_first(), k)
    }
}

/// The child of `v` that one step reaches, if any.
pub open spec fn step_spec(v: StructuredValue, s: NavigationStep) -> Option<StructuredValue> {
    match s {
        NavigationStep::Key(k) => match v {
            StructuredValue::Mapping(entries) => lookup_key(entries@, k@),
            _ => None,
        },
        NavigationStep::Index(i) => match v {
            StructuredValue::Sequence(items) => if i < items@.len() {
                Some(items@[i as int])
            } else {
                None
            },
            _ => None,
        },
    }
}

/// The value reached from `v` by applying the steps of `path` left to right.
pub open spec fn walk(v: StructuredValue, path: Seq<NavigationStep>) -> Option<StructuredValue>
    decreases path.len(),
{
    if path.len() == 0 {
        Some(v)
    } else {
        match walk(v, path.drop_last()) {
            Some(c) => step_spec(c, path.last()),
            None => None,
        }
    }
}

/// The position of the first entry of `entries` whose key is `k`.
fn key_position(entries: &Vec<(String, StructuredValue)>, k: &String) -> (r: Option<usize>)
    ensures
        r matches Some(i) ==> i < entries@.len() && lookup_key(entries@, k@) == Some(entries@[i as int].1),
        r is None ==> lookup_key(entries@, k@) is None,
{
    let n = entries.len();
    let mut i: usize = 0;
    assert(entries@.subrange(0, n as int) =~= entries@);
    while i < n
        invariant
            n == entries@.len(),
            i <= n,
            lookup_key(entries@, k@) == lookup_key(entries@.subrange(i as int, n as int), k@),
        decreases n - i,
    {
        let ghost rest = entries@.subrange(i as int, n as int);
        assert(rest.drop_first() =~= entries@.subrange(i + 1, n as int));
        if entries[i].0 == *k {
            return Some(i);
        }
        i = i + 1;
    }
    None
}

fn step<'a>(v: &'a StructuredValue, s: &NavigationStep) -> (r: Option<&'a StructuredValue>)
    ensures
        r matches Some(c) ==> step_spec(*v, *s) == Some(*c),
        r is None ==> step_spec(*v, *s) is None,
{
    match s {
        NavigationStep::Key(k) => match v {
            StructuredValue::Mapping(entries) => match key_position(entries, k) {
                Some(j) => Some(&entries[j].1),
                None => None,
            },
            _ => None,
        },
        NavigationStep::Index(i) => match v {
            StructuredValue::Sequence(items) => if *i < items.len() {
                Some(&items[*i])
            } else {
                None
            },
            _ => None,
        },
    }
}

/// Once a prefix of a path fails, every longer path fails too.
proof fn lemma_failure_persists(v: StructuredValue, path: Seq<NavigationStep>, k: int)
    requires
        0 <= k <= path.len(),
        walk(v, path.take(k)) is None,
    ensures
        walk(v, path) is None,
    decreases path.len() - k,
{
    if k < path.len() {
        assert(path.take(k + 1).drop_last() =~= path.take(k));
        lemma_failure_persists(v, path, k + 1);
    } else {
        assert(path.take(k) =~= path);
    }
}

/// Follows `path` from `root`. The result is the sub-value that the steps reach,
/// or the position of the first step that does not resolve.
pub fn navigate<'a>(root: &'a StructuredValue, path: &[NavigationStep]) -> (r: Result<&'a StructuredValue, NotFound>)
    ensures
        r matches Ok(v) ==> walk(*root, path@) == Some(*v),
        r is Err <==> walk(*root, path@) is None,
        r matches Err(e) ==> {
            &&& e.step < path@.len()
            &&& walk(*root, path@.take(e.step as int)) is Some
            &&& walk(*root, path@.take(e.step + 1)) is None
        },
{
    let n = path.len();
    let mut cur: &'a StructuredValue = root;
    let mut i: usize = 0;
    assert(path@.take(0) =~= Seq::<NavigationStep>::empty());
    while i < n
        invariant
            n == path@.len(),
            i <= n,
            walk(*root, path@.take(i as int)) == Some(*cur),
        decreases n - i,
    {
        assert(path@.take(i + 1).drop_last() =~= path@.take(i as int));
        assert(path@.take(i + 1).last() == path@[i as int]);
        match step(cur, &path[i]) {
            Some(c) => {
                cur = c;
            },
            None => {
                proof {
                    lemma_failure_persists(*root, path@, i + 1);
                }
                return Err(NotFound { step: i });
            },
        }
        i = i + 1;
    }
    assert(path@.take(n as int) =~= path@);
    Ok(cur)
}

/// Moves out of `v` the child that one step reaches.
fn take_step(v: StructuredValue, s: &NavigationStep) -> (r: StructuredValue)
    requires
        step_spec(v, *s) is Some,
    ensures
        step_spec(v, *s) == Some(r),
{
    match s {
        NavigationStep::Key(k) => match v {
            StructuredValue::Mapping(mut entries) => {
                let j = key_position(&entries, k).unwrap();
                entries.swap_remove(j).1
            },
            _ => StructuredValue::Null,
        },
        NavigationStep::Index(i) => match v {
            StructuredValue::Sequence(mut items) => items.swap_remove(*i),
            _ => StructuredValue::Null,
        },
    }
}

/// Moves out of `root` the sub-value that `path` reaches, where every step resolves.
pub fn take_path(root: StructuredValue, path: &[NavigationStep]) -> (r: StructuredValue)
    requires
        walk(root, path@) is Some,
    ensures
        walk(root, path@) == Some(r),
{
    let ghost start = root;
    let n = path.len();
    let mut cur = root;
    let mut i: usize = 0;
    assert(path@.take(0) =~= Seq::<NavigationStep>::empty());
    while i < n
        invariant
            n == path@.len(),
            i <= n,
            walk(start, path@) is Some,
            walk(start, path@.take(i as int)) == Some(cur),
        decreases n - i,
    {
        assert(path@.take(i + 1).drop_last() =~= path@.take(i as int));
        assert(path@.take(i + 1).last() == path@[i as int]);
        proof {
            if step_spec(cur, path@[i as int]) is None {
                lemma_failure_persists(start, path@, i + 1);
            }
        }
        cur = take_step(cur, &path[i]);
        i = i + 1;
    }
    assert(path@.take(n as int) =~= path@);
    cur
}

proof fn lemma_lookup_is_an_entry(entries: Seq<(String, StructuredValue)>, k: Seq<char>)
    requires
        lookup_key(entries, k) is Some,
    ensures
        exists|i: int| 0 <= i < entries.len() && entries[i].0@ == k && lookup_key(entries, k) == Some(#[trigger] entries[i].1),
    decreases entries.len(),
{
    if entries[0].0@ != k {
        lemma_lookup_is_an_entry(entries.drop_first(), k);
        let i = choose|i: int| 0 <= i < entries.drop_first().len() && entries.drop_first()[i].0@ == k
            && lookup_key(entries.drop_first(), k) == Some(#[trigger] entries.drop_first()[i].1);
        assert(entries[i + 1] == entries.drop_first()[i]);
    } else {
        assert(entries[0].0@ == k && lookup_key(entries, k) == Some(entries[0].1));
    }
}

proof fn lemma_lookup_unique(entries: Seq<(String, StructuredValue)>, i: int)
    requires
        0 <= i < entries.len(),
        forall|a: int, b: int| 0 <= a < b < entries.len() ==> (#[trigger] entries[a]).0@ != (#[trigger] entries[b]).0@,
    ensures
        lookup_key(entries, entries[i].0@) == Some(entries[i].1),
    decreases i,
{
    if i > 0 {
        let rest = entries.drop_first();
        assert(entries[0].0@ != entries[i].0@);
        assert(rest[i - 1] == entries[i]);
        assert forall|a: int, b: int| 0 <= a < b < rest.len() implies (#[trigger] rest[a]).0@ != (#[trigger] rest[b]).0@ by {
            assert(rest[a] == entries[a + 1] && rest[b] == entries[b + 1]);
        }
        lemma_lookup_unique(rest, i - 1);
    }
}

/// In a well-formed mapping the order of the entries plays no part: a key
/// gives the value of the one entry that holds it, wherever that entry stands.
pub proof fn law_lookup_finds_the_entry(entries: Vec<(String, StructuredValue)>, i: int)
    requires
        well_formed(StructuredValue::Mapping(entries)),
        0 <= i < entries@.len(),
    ensures
        lookup_key(entries@, entries@[i].0@) == Some(entries@[i].1),
{
    let e = entries@;
    assert forall|a: int, b: int| 0 <= a < b < e.len() implies (#[trigger] e[a]).0@ != (#[trigger] e[b]).0@ by {
        let m = StructuredValue::Mapping(entries);
        assert(well_formed(m));
        assert(m->Mapping_0 == entries);
        assert(e[a] == entries@[a] && e[b] == entries@[b]);
    }
    lemma_lookup_unique(e, i);
}

/// Every sub-value of a well-formed tree is well formed.
pub proof fn law_walk_keeps_well_formed(v: StructuredValue, path: Seq<NavigationStep>)
    requires
        well_formed(v),
        walk(v, path) is Some,
    ensures
        well_formed(walk(v, path)->Some_0),
    decreases path.len(),
{
    if path.len() > 0 {
        law_walk_keeps_well_formed(v, path.drop_last());
        let c = walk(v, path.drop_last())->Some_0;
        match path.last() {
            NavigationStep::Key(k) => {
                if let StructuredValue::Mapping(entries) = c {
                    lemma_lookup_is_an_entry(entries@, k@);
                }
            },
            NavigationStep::Index(i) => {},
        }
    }
}

/// Following the empty path gives back the starting value unchanged.
pub proof fn law_empty_path(root: StructuredValue)
    ensures
        walk(root, Seq::<NavigationStep>::empty()) == Some(root),
{
}

/// Following `p + q` is following `p`, then `q` from where `p` led.
pub proof fn law_walk_concat(root: StructuredValue, p: Seq<NavigationStep>, q: Seq<NavigationStep>)
    ensures
        walk(root, p + q) == match walk(root, p) {
            Some(v) => walk(v, q),
            None => None,
        },
    decreases q.len(),
{
    if q.len() == 0 {
        assert(p + q =~= p);
    } else {
        assert((p + q).drop_last() =~= p + q.drop_last());
        assert((p + q).last() == q.last());
        law_walk_concat(root, p, q.drop_last());
    }
}

/// When step `k` is the first that does not resolve, the walk fails, and the
/// steps after `k` play no part: every path that agrees with `path` up to and
/// including step `k` fails as well.
pub proof fn law_first_failure_stops(root: StructuredValue, path: Seq<NavigationStep>, k: int)
    requires
        0 <= k < path.len(),
        walk(root, path.take(k)) is Some,
        step_spec(walk(root, path.take(k))->Some_0, path[k]) is None,
    ensures
        walk(root, path) is None,
        forall|other: Seq<NavigationStep>|
            k < other.len() && other.take(k + 1) == path.take(k + 1) ==> #[trigger] walk(root, other) is None,
{
    assert(path.take(k + 1).drop_last() =~= path.take(k));
    assert(path.take(k + 1).last() == path[k]);
    lemma_failure_persists(root, path, k + 1);
    assert forall|other: Seq<NavigationStep>|
        k < other.len() && other.take(k + 1) == path.take(k + 1) implies #[trigger] walk(root, other) is None by {
        assert(other.take(k + 1) + other.skip(k + 1) =~= other);
        law_walk_concat(root, other.take(k + 1), other.skip(k + 1));
    }
}

} // verus!
