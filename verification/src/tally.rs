//! Counting tables: how often each key was recorded, and in which order the
//! keys were first seen.

use crate::ranking::{completions, Completion};
use crate::text::{has_prefix, texts};
use vstd::hash_map::StringHashMap;
use vstd::prelude::*;
use vstd::string::StringExecFns;

verus! {

/// What a counting table holds: its keys in the order in which they were first
/// recorded, and the count of each.
pub struct Tallies {
    pub order: Seq<Seq<char>>,
    pub counts: Map<Seq<char>, u32>,
}

/// One more than `n`, but never past the largest count a table can hold.
pub open spec fn bumped(n: u32) -> u32 {
    if n < u32::MAX {
        (n + 1) as u32
    } else {
        n
    }
}

/// `n`, but never past the largest count a table can hold.
pub open spec fn capped(n: int) -> int {
    if n <= u32::MAX {
        n
    } else {
        u32::MAX as int
    }
}

/// How many times `key` stands in `keys`.
pub open spec fn occurrences(keys: Seq<Seq<char>>, key: Seq<char>) -> nat
    decreases keys.len(),
{
    if keys.len() == 0 {
        0
    } else if keys.last() == key {
        occurrences(keys.drop_last(), key) + 1
    } else {
        occurrences(keys.drop_last(), key)
    }
}

impl Tallies {
    /// The table in which nothing was recorded.
    pub open spec fn empty() -> Tallies {
        Tallies { order: Seq::empty(), counts: Map::empty() }
    }

    /// Every key is listed once, exactly the listed keys have a count, and no
    /// count is zero.
    pub open spec fn valid(self) -> bool {
        &&& self.order.no_duplicates()
        &&& forall|key: Seq<char>| self.order.contains(key) <==> self.counts.contains_key(key)
        &&& forall|key: Seq<char>| self.counts.contains_key(key) ==> self.counts[key] >= 1
    }

    /// How often `key` was recorded: zero for a key never seen.
    pub open spec fn count(self, key: Seq<char>) -> u32 {
        if self.counts.contains_key(key) {
            self.counts[key]
        } else {
            0
        }
    }

    /// The table after `key` is recorded once more.
    pub open spec fn record(self, key: Seq<char>) -> Tallies {
        if self.counts.contains_key(key) {
            Tallies { order: self.order, counts: self.counts.insert(key, bumped(self.counts[key])) }
        } else {
            Tallies { order: self.order.push(key), counts: self.counts.insert(key, 1) }
        }
    }

    /// The table after each of `keys` is recorded, in turn.
    pub open spec fn record_all(self, keys: Seq<Seq<char>>) -> Tallies
        decreases keys.len(),
    {
        if keys.len() == 0 {
            self
        } else {
            self.record_all(keys.drop_last()).record(keys.last())
        }
    }

    /// The suggestion that stands for `key`.
    pub open spec fn suggestion(self, key: Seq<char>, category: Seq<char>) -> Completion {
        Completion { text: key, category, count: self.count(key) }
    }

    /// Those of `keys` that begin with `prefix`, in order, each as a
    /// suggestion of the given category.
    pub open spec fn entries_among(
        self,
        keys: Seq<Seq<char>>,
        prefix: Seq<char>,
        category: Seq<char>,
    ) -> Seq<Completion> {
        keys.filter(|key: Seq<char>| prefix.is_prefix_of(key)).map_values(
            |key: Seq<char>| self.suggestion(key, category),
        )
    }

    /// The keys that begin with `prefix`, in the order in which they were
    /// first recorded, each as a suggestion of the given category.
    pub open spec fn entries(self, prefix: Seq<char>, category: Seq<char>) -> Seq<Completion> {
        self.entries_among(self.order, prefix, category)
    }
}

/// Recording a key keeps a table valid.
pub proof fn lemma_record_valid(table: Tallies, key: Seq<char>)
    requires
        table.valid(),
    ensures
        table.record(key).valid(),
{
    let after = table.record(key);
    if table.counts.contains_key(key) {
    } else {
        assert(!table.order.contains(key));
        assert forall|other: Seq<char>| after.order.contains(other) <==> after.counts.contains_key(
            other,
        ) by {
            if after.order.contains(other) {
                let i = choose|i: int| 0 <= i < after.order.len() && after.order[i] == other;
                if i < table.order.len() {
                    assert(table.order[i] == other);
                    assert(table.order.contains(other));
                }
            }
            if after.counts.contains_key(other) {
                if other == key {
                    assert(after.order[table.order.len() as int] == key);
                } else {
                    assert(table.order.contains(other));
                    let i = choose|i: int| 0 <= i < table.order.len() && table.order[i] == other;
                    assert(after.order[i] == other);
                }
            }
        }
        assert forall|i: int, j: int|
            0 <= i < after.order.len() && 0 <= j < after.order.len() && i != j implies after.order[i]
            != after.order[j] by {
            if i < table.order.len() && j < table.order.len() {
            } else if i < table.order.len() {
                assert(table.order.contains(table.order[i]));
            } else {
                assert(table.order.contains(table.order[j]));
            }
        }
    }
}

/// Recording a list of keys keeps a table valid.
pub proof fn lemma_record_all_valid(table: Tallies, keys: Seq<Seq<char>>)
    requires
        table.valid(),
    ensures
        table.record_all(keys).valid(),
    decreases keys.len(),
{
    if keys.len() > 0 {
        lemma_record_all_valid(table, keys.drop_last());
        lemma_record_valid(table.record_all(keys.drop_last()), keys.last());
    }
}

/// After a list of keys is recorded, each key's count has grown by the number
/// of times it stands in the list, up to the largest count a table can hold.
pub proof fn lemma_record_all_count(table: Tallies, keys: Seq<Seq<char>>, key: Seq<char>)
    ensures
        table.record_all(keys).count(key) == capped(table.count(key) + occurrences(keys, key)),
    decreases keys.len(),
{
    if keys.len() > 0 {
        lemma_record_all_count(table, keys.drop_last(), key);
    }
}

/// Recording the same list a second time adds to each count what the first
/// time added, as long as the count still fits.
pub proof fn lemma_record_all_again(table: Tallies, keys: Seq<Seq<char>>, key: Seq<char>)
    ensures
        ({
            let once = table.record_all(keys);
            let twice = once.record_all(keys);
            table.count(key) + 2 * (once.count(key) - table.count(key)) <= u32::MAX
                ==> twice.count(key) - once.count(key) == once.count(key) - table.count(key)
        }),
{
    lemma_record_all_count(table, keys, key);
    lemma_record_all_count(table.record_all(keys), keys, key);
}

/// Of no keys, none is a suggestion.
pub proof fn lemma_entries_among_none(table: Tallies, prefix: Seq<char>, category: Seq<char>)
    ensures
        table.entries_among(Seq::empty(), prefix, category) == Seq::<Completion>::empty(),
{
    reveal(Seq::filter);
}

/// One more key adds its suggestion at the end if it begins with the prefix,
/// and nothing if it does not.
pub proof fn lemma_entries_among_push(
    table: Tallies,
    keys: Seq<Seq<char>>,
    key: Seq<char>,
    prefix: Seq<char>,
    category: Seq<char>,
)
    ensures
        table.entries_among(keys.push(key), prefix, category) == if prefix.is_prefix_of(key) {
            table.entries_among(keys, prefix, category).push(table.suggestion(key, category))
        } else {
            table.entries_among(keys, prefix, category)
        },
{
    reveal(Seq::filter);
    assert(keys.push(key).drop_last() == keys);
}

/// A table of counts keyed by text, which remembers the order in which its
/// keys were first recorded.
pub struct FrequencyTable {
    order: Vec<String>,
    counts: StringHashMap<u32>,
}

impl View for FrequencyTable {
    type V = Tallies;

    closed spec fn view(&self) -> Tallies {
        Tallies { order: texts(self.order@), counts: self.counts@ }
    }
}

impl FrequencyTable {
    #[verifier::type_invariant]
    spec fn well_formed(self) -> bool {
        self@.valid()
    }

    /// A table in which nothing was recorded.
    pub fn new() -> (table: Self)
        ensures
            table@ == Tallies::empty(),
            table@.valid(),
    {
        let table = FrequencyTable { order: Vec::new(), counts: StringHashMap::new() };
        assert(table@.order =~= Seq::empty());
        table
    }

    /// Counts `key` once more. A count that has reached `u32::MAX` stays there.
    pub fn record(&mut self, key: String)
        ensures
            final(self)@ == old(self)@.record(key@),
            final(self)@.valid(),
    {
        proof {
            use_type_invariant(&*self);
            lemma_record_valid(self@, key@);
        }
        let mut taken = FrequencyTable::new();
        std::mem::swap(self, &mut taken);
        let FrequencyTable { mut order, mut counts } = taken;
        let seen: Option<u32> = match counts.get(key.as_str()) {
            Some(n) => Some(*n),
            None => None,
        };
        match seen {
            Some(n) => {
                let next: u32 = if n < u32::MAX {
                    n + 1
                } else {
                    n
                };
                counts.insert(key, next);
            },
            None => {
                let ghost before = order@;
                order.push(key.clone());
                counts.insert(key, 1);
                assert(texts(order@) =~= texts(before).push(key@));
            },
        }
        *self = FrequencyTable { order, counts };
    }

    /// Counts each of `keys` once more, in turn.
    pub fn record_all(&mut self, keys: Vec<String>)
        ensures
            final(self)@ == old(self)@.record_all(texts(keys@)),
            final(self)@.valid(),
    {
        proof {
            use_type_invariant(&*self);
        }
        let ghost all = texts(keys@);
        for key in it: keys
            invariant
                texts(it.seq()) == all,
                self@ == old(self)@.record_all(all.take(it.index() as int)),
                self@.valid(),
        {
            proof {
                let i = it.index() as int;
                assert(all.take(i + 1).drop_last() == all.take(i));
                assert(all.take(i + 1).last() == key@);
            }
            self.record(key);
        }
        assert(all.take(all.len() as int) == all);
    }

    /// Forgets every key.
    pub fn clear(&mut self)
        ensures
            final(self)@ == Tallies::empty(),
    {
        *self = FrequencyTable::new();
    }

    /// How often `key` was recorded: zero for a key never seen.
    pub fn count(&self, key: &str) -> (n: u32)
        ensures
            n == self@.count(key@),
    {
        match self.counts.get(key) {
            Some(n) => *n,
            None => 0,
        }
    }

    /// The number of distinct keys.
    pub fn len(&self) -> (n: usize)
        ensures
            n == self@.order.len(),
    {
        self.order.len()
    }

    /// Whether nothing was recorded.
    pub fn is_empty(&self) -> (yes: bool)
        ensures
            yes == (self@.order.len() == 0),
    {
        self.order.len() == 0
    }

    /// Appends to `found` a suggestion of the given category for each key
    /// that begins with `prefix`, in the order in which the keys were first
    /// recorded.
    pub fn add_completions(
        &self,
        prefix: &Vec<char>,
        category: &str,
        found: &mut Vec<(String, String, u32)>,
    )
        ensures
            completions(final(found)@) == completions(old(found)@) + self@.entries(
                prefix@,
                category@,
            ),
    {
        let ghost base = completions(found@);
        let ghost keys = self@.order;
        let mut i: usize = 0;
        proof {
            lemma_entries_among_none(self@, prefix@, category@);
        }
        while i < self.order.len()
            invariant
                i <= self.order.len(),
                keys == self@.order,
                keys.len() == self.order.len(),
                completions(found@) == base + self@.entries_among(
                    keys.take(i as int),
                    prefix@,
                    category@,
                ),
            decreases self.order.len() - i,
        {
            let key = &self.order[i];
            proof {
                assert(keys.take(i + 1) == keys.take(i as int).push(key@));
                lemma_entries_among_push(self@, keys.take(i as int), key@, prefix@, category@);
            }
            if has_prefix(key.as_str(), prefix) {
                let n = self.count(key.as_str());
                let ghost before = found@;
                found.push((key.clone(), String::from_str(category), n));
                assert(completions(found@) == completions(before).push(
                    self@.suggestion(key@, category@),
                ));
            }
            i = i + 1;
        }
        assert(keys.take(keys.len() as int) == keys);
    }
}

} // verus!
