use vstd::prelude::*;

verus! {

/// The map given by a list of bindings, a later binding of a name hiding earlier ones.
pub open spec fn bindings_map(s: Seq<(String, i32)>) -> Map<Seq<char>, i32>
    decreases s.len(),
{
    if s.len() == 0 {
        Map::empty()
    } else {
        bindings_map(s.drop_last()).insert(s.last().0@, s.last().1)
    }
}

/// The binding at `i` is the last one of its name, so its value is the one seen.
proof fn lemma_last_binding(s: Seq<(String, i32)>, i: int)
    requires
        0 <= i < s.len(),
        forall|j: int| i < j < s.len() ==> s[j].0@ != s[i].0@,
    ensures
        bindings_map(s).contains_key(s[i].0@),
        bindings_map(s)[s[i].0@] == s[i].1,
    decreases s.len(),
{
    if i < s.len() - 1 {
        lemma_last_binding(s.drop_last(), i);
    }
}

/// A name bound nowhere in the list is absent from the map.
proof fn lemma_unbound(s: Seq<(String, i32)>, k: Seq<char>)
    requires
        forall|j: int| 0 <= j < s.len() ==> s[j].0@ != k,
    ensures
        !bindings_map(s).contains_key(k),
    decreases s.len(),
{
    if s.len() > 0 {
        lemma_unbound(s.drop_last(), k);
    }
}

/// Rebinding the last binding of a name updates the map at that name.
proof fn lemma_rebind(s: Seq<(String, i32)>, i: int, b: (String, i32))
    requires
        0 <= i < s.len(),
        b.0@ == s[i].0@,
        forall|j: int| i < j < s.len() ==> s[j].0@ != s[i].0@,
    ensures
        bindings_map(s.update(i, b)) == bindings_map(s).insert(b.0@, b.1),
    decreases s.len(),
{
    let t = s.update(i, b);
    if i == s.len() - 1 {
        assert(t.drop_last() =~= s.drop_last());
        assert(bindings_map(t) =~= bindings_map(s).insert(b.0@, b.1));
    } else {
        assert(t.drop_last() =~= s.drop_last().update(i, b));
        lemma_rebind(s.drop_last(), i, b);
        assert(bindings_map(t) =~= bindings_map(s).insert(b.0@, b.1));
    }
}

/// The global variable store: each variable name with its integer value.
///
/// The bindings are kept in a vector rather than a `HashMap<String, i32>`:
/// vstd models a hash map only for key types it knows to hash consistently
/// with equality (`obeys_key_model`), which it states for integer keys and not
/// for `String`, so nothing about lookups or inserts by name could be proved.
pub struct Scope {
    entries: Vec<(String, i32)>,
}

impl View for Scope {
    type V = Map<Seq<char>, i32>;

    closed spec fn view(&self) -> Map<Seq<char>, i32> {
        bindings_map(self.entries@)
    }
}

impl Scope {
    /// An empty store.
    pub fn new() -> (r: Scope)
        ensures
            r@ == Map::<Seq<char>, i32>::empty(),
    {
        Scope { entries: Vec::new() }
    }

    /// The position of the last binding of `name`, if any.
    fn find(&self, name: &String) -> (r: Option<usize>)
        ensures
            match r {
                Some(i) => i < self.entries@.len() && self.entries@[i as int].0@ == name@ && forall|
                    j: int,
                | i < j < self.entries@.len() ==> self.entries@[j].0@ != name@,
                None => forall|j: int| 0 <= j < self.entries@.len() ==> self.entries@[j].0@ != name@,
            },
    {
        let mut i = self.entries.len();
        while i > 0
            invariant
                i <= self.entries@.len(),
                forall|j: int| i <= j < self.entries@.len() ==> self.entries@[j].0@ != name@,
            decreases i,
        {
            i = i - 1;
            if self.entries[i].0 == *name {
                return Some(i);
            }
        }
        None
    }

    /// The value stored under `name`, if there is one.
    pub fn get(&self, name: &String) -> (r: Option<&i32>)
        ensures
            match r {
                Some(v) => self@.contains_key(name@) && self@[name@] == *v,
                None => !self@.contains_key(name@),
            },
    {
        match self.find(name) {
            Some(i) => {
                proof {
                    lemma_last_binding(self.entries@, i as int);
                }
                Some(&self.entries[i].1)
            },
            None => {
                proof {
                    lemma_unbound(self.entries@, name@);
                }
                None
            },
        }
    }

    /// Stores `value` under `name`, creating or overwriting the entry.
    pub fn insert(&mut self, name: String, value: i32)
        ensures
            final(self)@ == old(self)@.insert(name@, value),
    {
        match self.find(&name) {
            Some(i) => {
                proof {
                    lemma_rebind(self.entries@, i as int, (name, value));
                }
                self.entries[i] = (name, value);
            },
            None => {
                proof {
                    assert(self.entries@.push((name, value)).drop_last() =~= self.entries@);
                }
                self.entries.push((name, value));
            },
        }
    }
}

} // verus!
