//! A small insertion-ordered map from text keys to values.

use vstd::prelude::*;
use vstd::string::*;

verus! {

/// A map keyed by text. Later insertions under a key replace earlier ones.
///
/// The view is the mathematical map from key text to the view of the value.
#[derive(Clone, Debug)]
pub struct TextMap<V> {
    entries: Vec<(String, V)>,
}

/// The map obtained by inserting `entries` from first to last.
pub open spec fn fold_entries<V: View>(entries: Seq<(String, V)>) -> Map<Seq<char>, V::V>
    decreases entries.len(),
{
    if entries.len() == 0 {
        Map::empty()
    } else {
        fold_entries(entries.drop_last()).insert(entries.last().0@, entries.last().1@)
    }
}

/// The fold binds `key` to the value of the last entry that carries it.
proof fn lemma_fold_last_match<V: View>(entries: Seq<(String, V)>, key: Seq<char>, i: int)
    requires
        0 <= i < entries.len(),
        entries[i].0@ == key,
        forall|j: int| i < j < entries.len() ==> #[trigger] entries[j].0@ != key,
    ensures
        fold_entries(entries).contains_key(key),
        fold_entries(entries)[key] == entries[i].1@,
    decreases entries.len(),
{
    if i < entries.len() - 1 {
        let rest = entries.drop_last();
        assert(entries[entries.len() - 1].0@ != key);
        lemma_fold_last_match(rest, key, i);
    }
}

/// The fold binds no key that no entry carries.
proof fn lemma_fold_absent<V: View>(entries: Seq<(String, V)>, key: Seq<char>)
    requires
        forall|j: int| 0 <= j < entries.len() ==> #[trigger] entries[j].0@ != key,
    ensures
        !fold_entries(entries).contains_key(key),
    decreases entries.len(),
{
    if entries.len() > 0 {
        assert(entries[entries.len() - 1].0@ != key);
        lemma_fold_absent(entries.drop_last(), key);
    }
}

impl<V: View> View for TextMap<V> {
    type V = Map<Seq<char>, V::V>;

    closed spec fn view(&self) -> Map<Seq<char>, V::V> {
        fold_entries(self.entries@)
    }
}

impl<V: View> TextMap<V> {
    /// An empty map.
    pub fn new() -> (m: Self)
        ensures
            m@ == Map::<Seq<char>, V::V>::empty(),
    {
        TextMap { entries: Vec::new() }
    }

    /// Binds `key` to `value`, replacing any earlier binding of `key`.
    pub fn insert(&mut self, key: String, value: V)
        ensures
            final(self)@ == old(self)@.insert(key@, value@),
    {
        let ghost before = self.entries@;
        self.entries.push((key, value));
        assert(self.entries@.drop_last() =~= before);
    }

    /// The entries in insertion order. Inserting them from first to last
    /// yields the map.
    pub fn entries(&self) -> (r: &Vec<(String, V)>)
        ensures
            fold_entries(r@) == self@,
    {
        &self.entries
    }

    /// The value bound to `key`, if any.
    pub fn get(&self, key: &str) -> (r: Option<&V>)
        ensures
            match r {
                Some(v) => self@.contains_key(key@) && self@[key@] == v@,
                None => !self@.contains_key(key@),
            },
    {
        let wanted = key.to_owned();
        let mut i: usize = self.entries.len();
        while i > 0
            invariant
                i <= self.entries@.len(),
                wanted@ == key@,
                forall|j: int| i <= j < self.entries@.len() ==> #[trigger] self.entries@[j].0@ != key@,
            decreases i,
        {
            i -= 1;
            if self.entries[i].0 == wanted {
                proof {
                    lemma_fold_last_match(self.entries@, key@, i as int);
                }
                return Some(&self.entries[i].1);
            }
        }
        proof {
            lemma_fold_absent(self.entries@, key@);
        }
        None
    }
}

} // verus!
