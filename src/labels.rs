//! The table from label names to instruction indices.
use vstd::prelude::*;

verus! {

/// The map that a list of definitions gives, a later definition of a name
/// replacing an earlier one.
pub open spec fn entries_map(e: Seq<(String, usize)>) -> Map<Seq<char>, usize>
    decreases e.len(),
{
    if e.len() == 0 {
        Map::empty()
    } else {
        entries_map(e.drop_last()).insert(e.last().0@, e.last().1)
    }
}

/// Label names and the instruction index each one is bound to.
#[derive(Debug)]
pub struct LabelTable {
    entries: Vec<(String, usize)>,
}

impl View for LabelTable {
    type V = Map<Seq<char>, usize>;

    closed spec fn view(&self) -> Map<Seq<char>, usize> {
        entries_map(self.entries@)
    }
}

/// Definitions after index `i` that do not name `n` leave its binding as it
/// was after the first `i` definitions.
proof fn lemma_entries_suffix(e: Seq<(String, usize)>, i: int, n: Seq<char>)
    requires
        0 <= i <= e.len(),
        forall|k: int| i <= k < e.len() ==> (#[trigger] e[k]).0@ != n,
    ensures
        entries_map(e).contains_key(n) == entries_map(e.take(i)).contains_key(n),
        entries_map(e).contains_key(n) ==> entries_map(e)[n] == entries_map(e.take(i))[n],
    decreases e.len(),
{
    if i == e.len() {
        assert(e.take(i) =~= e);
    } else {
        let d = e.drop_last();
        assert(e[e.len() - 1].0@ != n);
        assert forall|k: int| i <= k < d.len() implies (#[trigger] d[k]).0@ != n by {
            assert(d[k] == e[k]);
        }
        lemma_entries_suffix(d, i, n);
        assert(d.take(i) =~= e.take(i));
    }
}

impl LabelTable {
    pub fn new() -> (r: LabelTable)
        ensures
            r@ == Map::<Seq<char>, usize>::empty(),
    {
        LabelTable { entries: Vec::new() }
    }

    /// Binds `name` to `index`.
    pub fn insert(&mut self, name: String, index: usize)
        ensures
            final(self)@ == old(self)@.insert(name@, index),
    {
        self.entries.push((name, index));
        assert(self.entries@.drop_last() =~= old(self).entries@);
    }

    /// The index that `name` is bound to, if it is bound.
    pub fn get(&self, name: &String) -> (r: Option<usize>)
        ensures
            r == (if self@.contains_key(name@) {
                Some(self@[name@])
            } else {
                None::<usize>
            }),
    {
        let ghost e = self.entries@;
        let mut i: usize = self.entries.len();
        while i > 0
            invariant
                e == self.entries@,
                i <= e.len(),
                forall|k: int| i <= k < e.len() ==> (#[trigger] e[k]).0@ != name@,
            decreases i,
        {
            if self.entries[i - 1].0 == *name {
                proof {
                    lemma_entries_suffix(e, i as int, name@);
                    assert(e.take(i as int).drop_last() =~= e.take(i - 1));
                }
                return Some(self.entries[i - 1].1);
            }
            i -= 1;
        }
        proof {
            lemma_entries_suffix(e, 0, name@);
            assert(e.take(0) =~= Seq::<(String, usize)>::empty());
        }
        None
    }
}

} // verus!
