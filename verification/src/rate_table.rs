use vstd::prelude::*;
use vstd::std_specs::cmp::PartialEqSpecImpl;

use crate::types::{same_value, ExchangeRate};

verus! {

/// The map that the entries of a table stand for: each entry sets its key,
/// later entries over earlier ones.
pub open spec fn entries_map(entries: Seq<(String, ExchangeRate)>) -> Map<Seq<char>, ExchangeRate>
    decreases entries.len(),
{
    if entries.len() == 0 {
        Map::empty()
    } else {
        entries_map(entries.drop_last()).insert(entries.last().0@, entries.last().1)
    }
}

/// No key occurs twice among the entries.
pub open spec fn keys_distinct(entries: Seq<(String, ExchangeRate)>) -> bool {
    forall|i: int, j: int|
        0 <= i < j < entries.len() ==> (#[trigger] entries[i]).0@ != (#[trigger] entries[j]).0@
}

proof fn lemma_entries_map_dom(entries: Seq<(String, ExchangeRate)>, k: Seq<char>)
    ensures
        entries_map(entries).dom().contains(k) <==> exists|i: int|
            0 <= i < entries.len() && (#[trigger] entries[i]).0@ == k,
    decreases entries.len(),
{
    if entries.len() > 0 {
        let init = entries.drop_last();
        lemma_entries_map_dom(init, k);
        if entries_map(entries).dom().contains(k) {
            if entries.last().0@ == k {
                assert(entries[entries.len() - 1].0@ == k);
            } else {
                let i = choose|i: int| 0 <= i < init.len() && (#[trigger] init[i]).0@ == k;
                assert(entries[i] == init[i]);
            }
        } else {
            assert forall|i: int| 0 <= i < entries.len() implies (#[trigger] entries[i]).0@ != k by {
                if i < init.len() {
                    assert(entries[i] == init[i]);
                }
            }
        }
    }
}

proof fn lemma_entries_map_value(entries: Seq<(String, ExchangeRate)>, i: int)
    requires
        keys_distinct(entries),
        0 <= i < entries.len(),
    ensures
        entries_map(entries).dom().contains(entries[i].0@),
        entries_map(entries)[entries[i].0@] == entries[i].1,
    decreases entries.len(),
{
    let init = entries.drop_last();
    if i < entries.len() - 1 {
        assert(init[i] == entries[i]);
        assert(keys_distinct(init)) by {
            assert forall|a: int, b: int| 0 <= a < b < init.len() implies
                (#[trigger] init[a]).0@ != (#[trigger] init[b]).0@ by {
                assert(init[a] == entries[a] && init[b] == entries[b]);
            }
        }
        lemma_entries_map_value(init, i);
        assert(entries[i].0@ != entries[entries.len() - 1].0@);
    }
}

proof fn lemma_entries_map_finite(entries: Seq<(String, ExchangeRate)>)
    requires
        keys_distinct(entries),
    ensures
        entries_map(entries).dom().finite(),
        entries_map(entries).dom().len() == entries.len(),
    decreases entries.len(),
{
    if entries.len() > 0 {
        let init = entries.drop_last();
        assert(keys_distinct(init)) by {
            assert forall|a: int, b: int| 0 <= a < b < init.len() implies
                (#[trigger] init[a]).0@ != (#[trigger] init[b]).0@ by {
                assert(init[a] == entries[a] && init[b] == entries[b]);
            }
        }
        lemma_entries_map_finite(init);
        lemma_entries_map_dom(init, entries.last().0@);
        assert(!entries_map(init).dom().contains(entries.last().0@)) by {
            if entries_map(init).dom().contains(entries.last().0@) {
                let i = choose|i: int| 0 <= i < init.len() && (#[trigger] init[i]).0@ == entries.last().0@;
                assert(init[i] == entries[i]);
                assert(entries[i].0@ != entries[entries.len() - 1].0@);
            }
        }
    }
}

proof fn lemma_replace_entry(before: Seq<(String, ExchangeRate)>, i: int, name: String, rate: ExchangeRate)
    requires
        keys_distinct(before),
        0 <= i < before.len(),
        before[i].0@ == name@,
    ensures
        keys_distinct(before.update(i, (name, rate))),
        entries_map(before.update(i, (name, rate))) == entries_map(before).insert(name@, rate),
{
    let after = before.update(i, (name, rate));
    assert(keys_distinct(after)) by {
        assert forall|a: int, b: int| 0 <= a < b < after.len() implies
            (#[trigger] after[a]).0@ != (#[trigger] after[b]).0@ by {
            assert(after[a].0@ == before[a].0@ && after[b].0@ == before[b].0@);
        }
    }
    let m1 = entries_map(after);
    let m2 = entries_map(before).insert(name@, rate);
    assert forall|k: Seq<char>| m1.dom().contains(k) <==> m2.dom().contains(k) by {
        lemma_entries_map_dom(after, k);
        lemma_entries_map_dom(before, k);
        if m1.dom().contains(k) {
            let j = choose|j: int| 0 <= j < after.len() && (#[trigger] after[j]).0@ == k;
            assert(before[j].0@ == k);
        }
        if m2.dom().contains(k) && k != name@ {
            let j = choose|j: int| 0 <= j < before.len() && (#[trigger] before[j]).0@ == k;
            assert(after[j].0@ == k);
        }
        if k == name@ {
            assert(after[i].0@ == k);
        }
    }
    assert forall|k: Seq<char>| #[trigger] m1.dom().contains(k) implies m1[k] == m2[k] by {
        lemma_entries_map_dom(after, k);
        let j = choose|j: int| 0 <= j < after.len() && (#[trigger] after[j]).0@ == k;
        lemma_entries_map_value(after, j);
        lemma_entries_map_value(before, j);
        if j != i {
            assert(before[j].0@ != before[i].0@);
        }
    }
    assert(m1 =~= m2);
}

/// A table from asset name to exchange rate. Setting a name that is already
/// present replaces its rate.
#[derive(Debug)]
pub struct RateTable {
    entries: Vec<(String, ExchangeRate)>,
}

impl View for RateTable {
    type V = Map<Seq<char>, ExchangeRate>;

    closed spec fn view(&self) -> Map<Seq<char>, ExchangeRate> {
        entries_map(self.entries@)
    }
}

impl RateTable {
    #[verifier::type_invariant]
    spec fn inv(self) -> bool {
        keys_distinct(self.entries@)
    }

    /// An empty table.
    pub fn new() -> (table: Self)
        ensures
            table@ == Map::<Seq<char>, ExchangeRate>::empty(),
    {
        RateTable { entries: Vec::new() }
    }

    /// Sets the rate of `name`, replacing the rate it had.
    pub fn insert(&mut self, name: String, rate: ExchangeRate)
        ensures
            final(self)@ == old(self)@.insert(name@, rate),
    {
        proof {
            use_type_invariant(&*self);
        }
        let mut entries: Vec<(String, ExchangeRate)> = Vec::new();
        std::mem::swap(&mut entries, &mut self.entries);
        let ghost before = entries@;
        let len = entries.len();
        let mut i: usize = 0;
        while i < len
            invariant
                len == entries.len(),
                entries@ == before,
                i <= len,
                forall|j: int| 0 <= j < i ==> (#[trigger] entries@[j]).0@ != name@,
            ensures
                i <= len,
                forall|j: int| 0 <= j < i ==> (#[trigger] entries@[j]).0@ != name@,
                i < len ==> entries@[i as int].0@ == name@,
            decreases len - i,
        {
            if entries[i].0 == name {
                break;
            }
            i = i + 1;
        }
        if i < len {
            entries.set(i, (name, rate));
            proof {
                lemma_replace_entry(before, i as int, name, rate);
            }
        } else {
            entries.push((name, rate));
            proof {
                assert(entries@.drop_last() =~= before);
                assert forall|a: int, b: int| 0 <= a < b < entries@.len() implies
                    (#[trigger] entries@[a]).0@ != (#[trigger] entries@[b]).0@ by {
                    if b < before.len() {
                        assert(entries@[a] == before[a] && entries@[b] == before[b]);
                    } else {
                        assert(entries@[a] == before[a]);
                    }
                }
            }
        }
        self.entries = entries;
    }
}


impl RateTable {
    /// The number of names in the table.
    pub fn len(&self) -> (n: usize)
        ensures
            self@.dom().finite(),
            n == self@.dom().len(),
    {
        proof {
            use_type_invariant(self);
            lemma_entries_map_finite(self.entries@);
        }
        self.entries.len()
    }

    /// Whether the table holds no name.
    pub fn is_empty(&self) -> (empty: bool)
        ensures
            empty <==> self@ == Map::<Seq<char>, ExchangeRate>::empty(),
    {
        proof {
            use_type_invariant(self);
            lemma_entries_map_finite(self.entries@);
            if self.entries@.len() > 0 {
                lemma_entries_map_value(self.entries@, 0);
            } else {
                assert(self@ =~= Map::<Seq<char>, ExchangeRate>::empty());
            }
        }
        self.entries.len() == 0
    }

    /// The rate of `name`, if the table holds it.
    pub fn get(&self, name: &str) -> (rate: Option<ExchangeRate>)
        ensures
            rate == lookup(self@, name@),
    {
        proof {
            use_type_invariant(self);
        }
        let key = name.to_owned();
        let len = self.entries.len();
        let mut i: usize = 0;
        while i < len
            invariant
                len == self.entries@.len(),
                key@ == name@,
                keys_distinct(self.entries@),
                i <= len,
                forall|j: int| 0 <= j < i ==> (#[trigger] self.entries@[j]).0@ != name@,
            decreases len - i,
        {
            if self.entries[i].0 == key {
                proof {
                    lemma_entries_map_value(self.entries@, i as int);
                }
                return Some(self.entries[i].1);
            }
            i = i + 1;
        }
        proof {
            lemma_entries_map_dom(self.entries@, name@);
        }
        None
    }

    /// The names and rates of the table, each name once.
    pub fn entries(&self) -> (list: Vec<(String, ExchangeRate)>)
        ensures
            list@.len() == self@.dom().len(),
            keys_distinct(list@),
            forall|i: int|
                0 <= i < list@.len() ==> self@.dom().contains((#[trigger] list@[i]).0@)
                    && self@[list@[i].0@] == list@[i].1,
    {
        proof {
            use_type_invariant(self);
            lemma_entries_map_finite(self.entries@);
        }
        let mut list: Vec<(String, ExchangeRate)> = Vec::new();
        let len = self.entries.len();
        let mut i: usize = 0;
        while i < len
            invariant
                len == self.entries@.len(),
                keys_distinct(self.entries@),
                i <= len,
                list@.len() == i,
                forall|j: int| 0 <= j < i ==> (#[trigger] list@[j]).0@ == self.entries@[j].0@
                    && list@[j].1 == self.entries@[j].1,
            decreases len - i,
        {
            let name = self.entries[i].0.clone();
            list.push((name, self.entries[i].1));
            i = i + 1;
        }
        proof {
            assert forall|a: int, b: int| 0 <= a < b < list@.len() implies
                (#[trigger] list@[a]).0@ != (#[trigger] list@[b]).0@ by {
                assert(self.entries@[a].0@ != self.entries@[b].0@);
            }
            assert forall|j: int| 0 <= j < list@.len() implies self@.dom().contains(
                (#[trigger] list@[j]).0@) && self@[list@[j].0@] == list@[j].1 by {
                lemma_entries_map_value(self.entries@, j);
            }
        }
        list
    }
}

/// Two tables hold the same names, each with rates that stand for the same
/// number.
pub open spec fn same_rates(a: Map<Seq<char>, ExchangeRate>, b: Map<Seq<char>, ExchangeRate>) -> bool {
    &&& a.dom() == b.dom()
    &&& forall|k: Seq<char>| #[trigger] a.dom().contains(k) ==> same_value(a[k], b[k])
}

/// The rate of `name` in a table, if the table holds it.
pub open spec fn lookup(table: Map<Seq<char>, ExchangeRate>, name: Seq<char>) -> Option<ExchangeRate> {
    if table.dom().contains(name) {
        Some(table[name])
    } else {
        None
    }
}

/// Two tables are equal when they hold the same names with the same rates,
/// compared as numbers, whatever the order in which the names were set.
impl PartialEq for RateTable {
    fn eq(&self, other: &Self) -> (equal: bool) {
        proof {
            use_type_invariant(self);
            use_type_invariant(other);
            lemma_entries_map_finite(self.entries@);
            lemma_entries_map_finite(other.entries@);
        }
        let len = self.entries.len();
        if len != other.entries.len() {
            return false;
        }
        let mut i: usize = 0;
        while i < len
            invariant
                len == self.entries@.len(),
                len == other@.dom().len(),
                keys_distinct(self.entries@),
                i <= len,
                forall|j: int| 0 <= j < i ==> other@.dom().contains((#[trigger] self.entries@[j]).0@)
                    && same_value(self.entries@[j].1, other@[self.entries@[j].0@]),
            decreases len - i,
        {
            proof {
                lemma_entries_map_value(self.entries@, i as int);
            }
            match other.get(self.entries[i].0.as_str()) {
                Some(r) => {
                    if !(r == self.entries[i].1) {
                        return false;
                    }
                },
                None => {
                    return false;
                },
            }
            i = i + 1;
        }
        proof {
            assert forall|k: Seq<char>| #[trigger] self@.dom().contains(k) implies other@.dom().contains(k)
                && same_value(self@[k], other@[k]) by {
                lemma_entries_map_dom(self.entries@, k);
                let j = choose|j: int| 0 <= j < self.entries@.len() && (#[trigger] self.entries@[j]).0@ == k;
                lemma_entries_map_value(self.entries@, j);
            }
            vstd::set_lib::lemma_subset_equality(self@.dom(), other@.dom());
            assert(self@.dom() =~= other@.dom());
        }
        true
    }
}

impl PartialEqSpecImpl for RateTable {
    open spec fn obeys_eq_spec() -> bool {
        true
    }

    open spec fn eq_spec(&self, other: &RateTable) -> bool {
        same_rates(self@, other@)
    }
}

/// After `insert` of a name, `get` of that name gives the new rate, and
/// `get` of any other name gives what it gave before.
pub proof fn law_insert_then_get(before: RateTable, after: RateTable, name: Seq<char>, rate: ExchangeRate, other: Seq<char>)
    requires
        after@ == before@.insert(name, rate),
        other != name,
    ensures
        lookup(after@, name) == Some(rate),
        lookup(after@, other) == lookup(before@, other),
{
}

} // verus!
