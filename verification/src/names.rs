//! Maps from names to paths, kept as a record of what was put in.
use vstd::prelude::*;

verus! {

/// What a record of insertions maps each name to: the text that was put in
/// last under that name.
pub open spec fn record_map(record: Seq<(String, String)>) -> Map<Seq<char>, Seq<char>>
    decreases record.len(),
{
    if record.len() == 0 {
        Map::empty()
    } else {
        record_map(record.drop_last()).insert(record.last().0@, record.last().1@)
    }
}

/// A map from names to texts.
#[derive(Debug)]
pub struct NameMap {
    record: Vec<(String, String)>,
}

impl View for NameMap {
    type V = Map<Seq<char>, Seq<char>>;

    closed spec fn view(&self) -> Map<Seq<char>, Seq<char>> {
        record_map(self.record@)
    }
}

impl NameMap {
    /// A map without entries.
    pub fn new() -> (m: NameMap)
        ensures
            m@ == Map::<Seq<char>, Seq<char>>::empty(),
    {
        NameMap { record: Vec::new() }
    }

    /// Maps `name` to `value`, in place of what it was mapped to before.
    pub fn insert(&mut self, name: String, value: String)
        ensures
            final(self)@ == old(self)@.insert(name@, value@),
    {
        self.record.push((name, value));
        assert(self.record@.drop_last() =~= old(self).record@);
    }

    /// What `name` is mapped to, if anything.
    pub fn get(&self, name: &String) -> (r: Option<&String>)
        ensures
            match r {
                Some(value) => self@.contains_key(name@) && self@[name@] == value@,
                None => !self@.contains_key(name@),
            },
    {
        let mut i: usize = self.record.len();
        assert(self.record@.take(i as int) =~= self.record@);
        while i > 0
            invariant
                i <= self.record.len(),
                self@.contains_key(name@) == record_map(self.record@.take(i as int)).contains_key(
                    name@,
                ),
                self@.contains_key(name@) ==> self@[name@] == record_map(
                    self.record@.take(i as int),
                )[name@],
            decreases i,
        {
            i -= 1;
            assert(self.record@.take(i + 1).drop_last() =~= self.record@.take(i as int));
            if self.record[i].0 == *name {
                return Some(&self.record[i].1);
            }
        }
        None
    }
}

} // verus!
