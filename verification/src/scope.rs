use vstd::prelude::*;
use vstd::string::StringExecFns;
use crate::value::{Value, ValueView};

verus! {

/// The variables that an expression may refer to, each with its value. The
/// evaluator only looks names up.
#[derive(Debug)]
pub struct Scope {
    entries: Vec<(String, Value)>,
}

/// The map that the first `n` bindings make, a later one replacing an
/// earlier one of the same name.
pub open spec fn bindings(entries: Seq<(String, Value)>, n: nat) -> Map<Seq<char>, ValueView>
    decreases n,
{
    if n == 0 {
        Map::empty()
    } else {
        bindings(entries, (n - 1) as nat).insert(entries[n - 1].0@, entries[n - 1].1@)
    }
}

/// Bindings that do not bear the name `key` change nothing for `key`.
proof fn lemma_bindings_skip(entries: Seq<(String, Value)>, from: nat, to: nat, key: Seq<char>)
    requires
        from <= to <= entries.len(),
        forall|j: int| from <= j < to ==> entries[j].0@ != key,
    ensures
        bindings(entries, to).contains_key(key) == bindings(entries, from).contains_key(key),
        bindings(entries, to).contains_key(key) ==> bindings(entries, to)[key] == bindings(
            entries,
            from,
        )[key],
    decreases to,
{
    if from < to {
        lemma_bindings_skip(entries, from, (to - 1) as nat, key);
    }
}

/// The first `n` bindings do not depend on what follows them.
proof fn lemma_bindings_prefix(
    entries: Seq<(String, Value)>,
    longer: Seq<(String, Value)>,
    n: nat,
)
    requires
        n <= entries.len() <= longer.len(),
        forall|j: int| 0 <= j < n ==> entries[j] == longer[j],
    ensures
        bindings(entries, n) == bindings(longer, n),
    decreases n,
{
    if n > 0 {
        lemma_bindings_prefix(entries, longer, (n - 1) as nat);
    }
}

impl View for Scope {
    type V = Map<Seq<char>, ValueView>;

    closed spec fn view(&self) -> Map<Seq<char>, ValueView> {
        bindings(self.entries@, self.entries@.len())
    }
}

impl Scope {
    /// A scope without variables.
    pub fn new() -> (scope: Scope)
        ensures
            scope@ == Map::<Seq<char>, ValueView>::empty(),
    {
        Scope { entries: Vec::new() }
    }

    /// Binds `name` to `value`; an earlier binding of `name` is replaced.
    pub fn insert(&mut self, name: &str, value: Value)
        ensures
            final(self)@ == old(self)@.insert(name@, value@),
    {
        let owned = String::from_str(name);
        let ghost before = self.entries@;
        self.entries.push((owned, value));
        proof {
            lemma_bindings_prefix(before, self.entries@, before.len());
        }
    }

    /// The value that `name` is bound to, if it is bound.
    pub fn get(&self, name: &str) -> (found: Option<&Value>)
        ensures
            match found {
                Some(value) => self@.contains_key(name@) && self@[name@] == value@,
                None => !self@.contains_key(name@),
            },
    {
        let wanted = String::from_str(name);
        self.find(&wanted)
    }

    /// The value that `name` is bound to, if it is bound.
    pub fn find(&self, name: &String) -> (found: Option<&Value>)
        ensures
            match found {
                Some(value) => self@.contains_key(name@) && self@[name@] == value@,
                None => !self@.contains_key(name@),
            },
    {
        let mut i: usize = self.entries.len();
        while i > 0
            invariant
                i <= self.entries@.len(),
                forall|j: int| i <= j < self.entries@.len() ==> self.entries@[j].0@ != name@,
            decreases i,
        {
            i -= 1;
            if self.entries[i].0 == *name {
                proof {
                    lemma_bindings_skip(
                        self.entries@,
                        (i + 1) as nat,
                        self.entries@.len(),
                        name@,
                    );
                }
                return Some(&self.entries[i].1);
            }
        }
        proof {
            lemma_bindings_skip(self.entries@, 0, self.entries@.len(), name@);
        }
        None
    }

    /// Whether `name` is bound.
    pub fn contains(&self, name: &str) -> (bound: bool)
        ensures
            bound == self@.contains_key(name@),
    {
        self.get(name).is_some()
    }
}

} // verus!
