//! The names that the user has hidden from the listing of process times. The
//! list only filters what is shown: it never changes the times themselves.

use vstd::prelude::*;
use vstd::string::*;
use vstd::relations::sorted_by;
use vstd::seq_lib::{lemma_sorted_unique, to_multiset_build, to_multiset_remove};
use crate::accumulator::{unknown, TimeAccumulator, TimeEntry};
use crate::snapshot::{find_name, texts};
use crate::text::{lemma_text_order_total, text_le, text_le_of, text_order};

verus! {

/// `names` with every run of one repeated text shortened to its first.
pub open spec fn squeezed(names: Seq<Seq<char>>) -> Seq<Seq<char>>
    decreases names.len(),
{
    if names.len() == 0 {
        Seq::empty()
    } else {
        let front = squeezed(names.drop_last());
        if front.len() > 0 && front.last() == names.last() {
            front
        } else {
            front.push(names.last())
        }
    }
}

/// `list` after each of `names` was hidden in turn.
pub open spec fn hidden_all(list: Seq<Seq<char>>, names: Seq<Seq<char>>) -> Seq<Seq<char>>
    decreases names.len(),
{
    if names.len() == 0 {
        list
    } else {
        squeezed(hidden_all(list, names.drop_last()).push(names.last()))
    }
}

/// Squeezing keeps every text, ends on the text that the list ends on, and
/// leaves no text next to itself.
pub proof fn lemma_squeezed(names: Seq<Seq<char>>)
    ensures
        squeezed(names).to_set() == names.to_set(),
        squeezed(names).len() <= names.len(),
        names.len() > 0 ==> squeezed(names).len() > 0 && squeezed(names).last() == names.last(),
        forall|i: int|
            0 < i < squeezed(names).len() ==> squeezed(names)[i - 1] != #[trigger] squeezed(
                names,
            )[i],
    decreases names.len(),
{
    if names.len() > 0 {
        let front_names = names.drop_last();
        let front = squeezed(front_names);
        let last = names.last();
        lemma_squeezed(front_names);
        let all = squeezed(names);
        assert forall|name: Seq<char>| all.to_set().contains(name) <==> names.to_set().contains(
            name,
        ) by {
            if all.contains(name) {
                let j = choose|j: int| 0 <= j < all.len() && all[j] == name;
                if j < front.len() {
                    assert(front[j] == name);
                    assert(front.to_set().contains(name));
                    assert(front_names.contains(name));
                    let i = choose|i: int| 0 <= i < front_names.len() && front_names[i] == name;
                    assert(names[i] == name);
                } else {
                    assert(names[names.len() - 1] == name);
                }
            }
            if names.contains(name) {
                let i = choose|i: int| 0 <= i < names.len() && names[i] == name;
                if i < front_names.len() {
                    assert(front_names[i] == name);
                    assert(front_names.to_set().contains(name));
                    assert(front.contains(name));
                    let j = choose|j: int| 0 <= j < front.len() && front[j] == name;
                    assert(all[j] == name);
                } else {
                    assert(all[all.len() - 1] == name);
                }
            }
        }
        assert(all.to_set() =~= names.to_set());
    } else {
        assert(squeezed(names).to_set() =~= names.to_set());
    }
}

/// The names hidden from the listing, in the order in which the user hid
/// them. A name may stand in the list more than once; hiding a name leaves
/// none next to itself.
#[derive(Debug)]
pub struct HiddenSet {
    pub names: Vec<String>,
}

impl View for HiddenSet {
    type V = Set<Seq<char>>;

    /// The set of hidden names.
    open spec fn view(&self) -> Set<Seq<char>> {
        self.list().to_set()
    }
}

/// Shortens every run of one repeated text to its first.
fn squeeze(names: &Vec<String>) -> (kept: Vec<String>)
    ensures
        texts(kept@) == squeezed(texts(names@)),
{
    let ghost all = texts(names@);
    let mut kept: Vec<String> = Vec::new();
    let mut i: usize = 0;
    assert(texts(kept@) =~= squeezed(all.take(0)));
    while i < names.len()
        invariant
            i <= names.len(),
            all == texts(names@),
            texts(kept@) == squeezed(all.take(i as int)),
        decreases names.len() - i,
    {
        proof {
            let next = all.take(i + 1);
            assert(next.drop_last() =~= all.take(i as int));
            assert(next.last() == names[i as int]@);
        }
        let ghost before = kept@;
        let repeats: bool = kept.len() > 0 && kept[kept.len() - 1] == names[i];
        proof {
            if kept.len() > 0 {
                assert(texts(kept@).last() == kept[kept.len() - 1]@);
            }
        }
        if !repeats {
            kept.push(names[i].clone());
            assert(texts(kept@) =~= texts(before).push(names[i as int]@));
        }
        i += 1;
    }
    assert(all.take(i as int) =~= all);
    kept
}

/// Copies `names` into the order of strings. Equal texts keep their order.
fn sorted_copy(names: &Vec<String>) -> (sorted: Vec<String>)
    ensures
        texts(sorted@) == texts(names@).sort_by(text_order()),
{
    let ghost all = texts(names@);
    let ghost order = text_order();
    let mut sorted: Vec<String> = Vec::new();
    let mut i: usize = 0;
    proof {
        lemma_text_order_total();
        assert(all.take(0) =~= texts(sorted@));
    }
    while i < names.len()
        invariant
            i <= names.len(),
            all == texts(names@),
            order == text_order(),
            vstd::relations::total_ordering(order),
            sorted_by(texts(sorted@), order),
            texts(sorted@).to_multiset() == all.take(i as int).to_multiset(),
        decreases names.len() - i,
    {
        let name = names[i].clone();
        let mut place: usize = 0;
        while place < sorted.len() && text_le_of(sorted[place].as_str(), name.as_str())
            invariant
                place <= sorted.len(),
                forall|k: int| 0 <= k < place ==> text_le(sorted[k]@, name@),
            decreases sorted.len() - place,
        {
            place += 1;
        }
        let ghost before = texts(sorted@);
        let ghost text = name@;
        sorted.insert(place, name);
        proof {
            let after = texts(sorted@);
            assert(after =~= before.insert(place as int, text));
            assert forall|a: int, b: int| 0 <= a < b < after.len() implies #[trigger] order(
                after[a],
                after[b],
            ) by {
                if b < place {
                    assert(order(before[a], before[b]));
                } else if b == place {
                    assert(text_le(before[a], text));
                } else if a < place {
                    assert(order(before[a], before[b - 1]));
                } else if a == place {
                    assert(order(text, before[place as int]) || order(before[place as int], text));
                    if b - 1 > place {
                        assert(order(before[place as int], before[b - 1]));
                    }
                    assert(order(text, before[b - 1]));
                } else {
                    assert(order(before[a - 1], before[b - 1]));
                }
            }
            assert(after.remove(place as int) =~= before);
            to_multiset_remove(after, place as int);
            assert(after.contains(after[place as int]));
            after.to_multiset_ensures();
            assert(after.to_multiset() =~= before.to_multiset().insert(text));
            let next = all.take(i + 1);
            assert(next =~= all.take(i as int).push(text));
            to_multiset_build(all.take(i as int), text);
        }
        i += 1;
    }
    proof {
        assert(all.take(i as int) =~= all);
        all.lemma_sort_by_ensures(order);
        lemma_sorted_unique(texts(sorted@), all.sort_by(order), order);
    }
    sorted
}

impl HiddenSet {
    /// The hidden names in the order of the list.
    pub open spec fn list(&self) -> Seq<Seq<char>> {
        texts(self.names@)
    }

    /// A list that hides nothing.
    pub fn new() -> (hidden: HiddenSet)
        ensures
            hidden.list() == Seq::<Seq<char>>::empty(),
    {
        let hidden = HiddenSet { names: Vec::new() };
        assert(hidden.list() =~= Seq::<Seq<char>>::empty());
        hidden
    }

    /// Whether `name` is hidden.
    pub fn is_hidden(&self, name: &str) -> (hidden: bool)
        ensures
            hidden == self@.contains(name@),
    {
        let key = String::from_str(name);
        find_name(&self.names, &key).is_some()
    }

    /// Hides `name`: it is put at the end of the list, and every run of one
    /// repeated name in the list is then shortened to its first.
    pub fn hide_name(&mut self, name: String)
        ensures
            final(self).list() == squeezed(old(self).list().push(name@)),
            final(self)@ == old(self)@.insert(name@),
    {
        let ghost before = self.list();
        self.names.push(name);
        assert(texts(self.names@) =~= before.push(name@));
        self.names = squeeze(&self.names);
        proof {
            lemma_squeezed(before.push(name@));
            assert(before.push(name@).to_set() =~= before.to_set().insert(name@)) by {
                assert forall|text: Seq<char>| before.push(name@).contains(text) <==> (
                before.contains(text) || text == name@) by {
                    if before.contains(text) {
                        let i = choose|i: int| 0 <= i < before.len() && before[i] == text;
                        assert(before.push(name@)[i] == text);
                    }
                    if text == name@ {
                        assert(before.push(name@)[before.len() as int] == text);
                    }
                }
            }
        }
    }

    /// Hides every name that `times` holds, in the order in which `times`
    /// lists them.
    pub fn hide_all(&mut self, times: &TimeAccumulator)
        ensures
            final(self).list() == hidden_all(old(self).list(), times.names()),
            final(self)@ == old(self)@ + times@.dom(),
    {
        let ghost before = self.list();
        let ghost all = times.names();
        let entries = times.read();
        let mut i: usize = 0;
        proof {
            assert(self@ =~= before.to_set() + all.take(0).to_set());
        }
        while i < entries.len()
            invariant
                i <= entries.len(),
                entries.len() == all.len(),
                forall|k: int| 0 <= k < entries.len() ==> (#[trigger] entries[k]).name@ == all[k],
                self.list() == hidden_all(before, all.take(i as int)),
                self@ == before.to_set() + all.take(i as int).to_set(),
            decreases entries.len() - i,
        {
            proof {
                let next = all.take(i + 1);
                assert(next.drop_last() =~= all.take(i as int));
                assert(next.last() == entries[i as int].name@);
                assert(next.to_set() =~= all.take(i as int).to_set().insert(next.last())) by {
                    assert(next =~= all.take(i as int).push(next.last()));
                    all.take(i as int).lemma_push_to_set_commute(next.last());
                }
            }
            self.hide_name(entries[i].name.clone());
            assert(self@ =~= before.to_set() + all.take(i + 1).to_set());
            i += 1;
        }
        assert(all.take(i as int) =~= all);
    }

    /// Shows the name at place `i` of the list again: it leaves the list.
    pub fn restore(&mut self, i: usize)
        requires
            i < old(self).list().len(),
        ensures
            final(self).list() == old(self).list().remove(i as int),
    {
        let ghost before = self.list();
        let _ = self.names.remove(i);
        assert(texts(self.names@) =~= before.remove(i as int));
    }

    /// Puts the list in the order of strings.
    pub fn sort(&mut self)
        ensures
            final(self).list() == old(self).list().sort_by(text_order()),
            final(self)@ == old(self)@,
    {
        let ghost before = self.list();
        self.names = sorted_copy(&self.names);
        proof {
            lemma_text_order_total();
            before.lemma_sort_by_ensures(text_order());
            let after = self.list();
            after.to_multiset_ensures();
            before.to_multiset_ensures();
            assert forall|text: Seq<char>| after.contains(text) <==> before.contains(text) by {
                assert(after.to_multiset().count(text) == before.to_multiset().count(text));
            }
            assert(after.to_set() =~= before.to_set());
        }
    }

    /// The entries of `times` that are not hidden, in the order in which
    /// `times` lists them.
    pub fn visible(&self, times: &TimeAccumulator) -> (shown: Vec<TimeEntry>)
        ensures
            entry_names(shown@) == unknown(times.names(), self@),
            forall|k: int|
                0 <= k < shown.len() ==> times@.dom().contains((#[trigger] shown[k]).name@)
                    && shown[k].seconds == times@[shown[k].name@],
    {
        let ghost all = times.names();
        let entries = times.read();
        let mut shown: Vec<TimeEntry> = Vec::new();
        let mut i: usize = 0;
        proof {
            assert(entry_names(shown@) =~= unknown(all.take(0), self@));
        }
        while i < entries.len()
            invariant
                i <= entries.len(),
                entries.len() == all.len(),
                all == times.names(),
                all.to_set() == times@.dom(),
                forall|k: int|
                    0 <= k < entries.len() ==> (#[trigger] entries[k]).name@ == all[k]
                        && entries[k].seconds == times@[all[k]],
                entry_names(shown@) == unknown(all.take(i as int), self@),
                forall|k: int|
                    0 <= k < shown.len() ==> times@.dom().contains((#[trigger] shown[k]).name@)
                        && shown[k].seconds == times@[shown[k].name@],
            decreases entries.len() - i,
        {
            proof {
                let next = all.take(i + 1);
                assert(next.drop_last() =~= all.take(i as int));
                assert(next.last() == entries[i as int].name@);
                assert(all.contains(all[i as int]));
            }
            let ghost before = shown@;
            if !self.is_hidden(entries[i].name.as_str()) {
                shown.push(
                    TimeEntry { name: entries[i].name.clone(), seconds: entries[i].seconds },
                );
                assert(entry_names(shown@) =~= entry_names(before).push(entries[i as int].name@));
            }
            i += 1;
        }
        assert(all.take(i as int) =~= all);
        shown
    }
}

/// The names of a list of entries, in order.
pub open spec fn entry_names(entries: Seq<TimeEntry>) -> Seq<Seq<char>> {
    entries.map_values(|entry: TimeEntry| entry.name@)
}

} // verus!
