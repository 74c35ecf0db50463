//! The environment: the one flat table from variable names to values.
use vstd::prelude::*;

verus! {

/// The map that a list of bindings stands for; a later binding of a name
/// hides an earlier one.
pub open spec fn bindings_map(s: Seq<(String, i32)>) -> Map<Seq<char>, i32>
    decreases s.len(),
{
    if s.len() == 0 {
        Map::empty()
    } else {
        bindings_map(s.drop_last()).insert(s.last().0@, s.last().1)
    }
}

pub open spec fn distinct_names(s: Seq<(String, i32)>) -> bool {
    forall|i: int, j: int| 0 <= i < j < s.len() ==> s[i].0@ != s[j].0@
}

proof fn lemma_bindings_lookup(s: Seq<(String, i32)>, i: int)
    requires
        distinct_names(s),
        0 <= i < s.len(),
    ensures
        bindings_map(s).contains_key(s[i].0@),
        bindings_map(s)[s[i].0@] == s[i].1,
    decreases s.len(),
{
    if i < s.len() - 1 {
        lemma_bindings_lookup(s.drop_last(), i);
    }
}

proof fn lemma_bindings_absent(s: Seq<(String, i32)>, k: Seq<char>)
    requires
        forall|i: int| 0 <= i < s.len() ==> (#[trigger] s[i]).0@ != k,
    ensures
        !bindings_map(s).contains_key(k),
    decreases s.len(),
{
    if s.len() > 0 {
        lemma_bindings_absent(s.drop_last(), k);
    }
}

proof fn lemma_bindings_update(s: Seq<(String, i32)>, i: int, b: (String, i32))
    requires
        distinct_names(s),
        0 <= i < s.len(),
        b.0@ == s[i].0@,
    ensures
        bindings_map(s.update(i, b)) == bindings_map(s).insert(b.0@, b.1),
    decreases s.len(),
{
    let t = s.update(i, b);
    if i == s.len() - 1 {
        assert(t.drop_last() =~= s.drop_last());
        assert(bindings_map(t) =~= bindings_map(s).insert(b.0@, b.1));
    } else {
        assert(t.drop_last() =~= s.drop_last().update(i, b));
        lemma_bindings_update(s.drop_last(), i, b);
        assert(bindings_map(t) =~= bindings_map(s).insert(b.0@, b.1));
    }
}

/// Variable bindings; no name is bound twice.
pub struct Env {
    bindings: Vec<(String, i32)>,
}

impl View for Env {
    type V = Map<Seq<char>, i32>;

    closed spec fn view(&self) -> Map<Seq<char>, i32> {
        bindings_map(self.bindings@)
    }
}

impl Env {
    pub closed spec fn wf(&self) -> bool {
        distinct_names(self.bindings@)
    }

    /// An environment with no bindings.
    pub fn new() -> (e: Env)
        ensures
            e.wf(),
            e@ == Map::<Seq<char>, i32>::empty(),
    {
        Env { bindings: Vec::new() }
    }

    /// The value bound to `name`, if any.
    pub fn get(&self, name: &String) -> (r: Option<i32>)
        requires
            self.wf(),
        ensures
            r == (if self@.contains_key(name@) {
                Some(self@[name@])
            } else {
                None
            }),
    {
        let mut i: usize = 0;
        while i < self.bindings.len()
            invariant
                distinct_names(self.bindings@),
                i <= self.bindings@.len(),
                forall|k: int| 0 <= k < i ==> (#[trigger] self.bindings@[k]).0@ != name@,
            decreases self.bindings@.len() - i,
        {
            if self.bindings[i].0 == *name {
                proof {
                    lemma_bindings_lookup(self.bindings@, i as int);
                }
                return Some(self.bindings[i].1);
            }
            i = i + 1;
        }
        proof {
            lemma_bindings_absent(self.bindings@, name@);
        }
        None
    }

    /// Binds `name` to `value`, replacing any earlier binding of `name`.
    pub fn insert(&mut self, name: String, value: i32)
        requires
            old(self).wf(),
        ensures
            final(self).wf(),
            final(self)@ == old(self)@.insert(name@, value),
    {
        let mut i: usize = 0;
        while i < self.bindings.len()
            invariant
                self.bindings@ == old(self).bindings@,
                distinct_names(self.bindings@),
                i <= self.bindings@.len(),
                forall|k: int| 0 <= k < i ==> (#[trigger] self.bindings@[k]).0@ != name@,
            decreases self.bindings@.len() - i,
        {
            if self.bindings[i].0 == name {
                let ghost old_bindings = self.bindings@;
                proof {
                    lemma_bindings_update(old_bindings, i as int, (name, value));
                }
                self.bindings.set(i, (name, value));
                assert(self.bindings@ == old_bindings.update(i as int, (name, value)));
                return;
            }
            i = i + 1;
        }
        let ghost old_bindings = self.bindings@;
        self.bindings.push((name, value));
        assert(self.bindings@.drop_last() =~= old_bindings);
    }
}

} // verus!
