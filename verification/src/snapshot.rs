//! One point-in-time set of running process names.

use vstd::prelude::*;
use vstd::string::*;
use crate::text::lowercase;

verus! {

/// The texts that a list of strings holds, in order.
pub open spec fn texts(names: Seq<String>) -> Seq<Seq<char>> {
    names.map_values(|name: String| name@)
}

/// `names` without repetitions: each text stays where it first occurs.
pub open spec fn distinct(names: Seq<Seq<char>>) -> Seq<Seq<char>>
    decreases names.len(),
{
    if names.len() == 0 {
        Seq::empty()
    } else {
        let front = distinct(names.drop_last());
        if front.contains(names.last()) {
            front
        } else {
            front.push(names.last())
        }
    }
}

/// Each text of `names` in lower case.
pub open spec fn lowercased(names: Seq<Seq<char>>) -> Seq<Seq<char>> {
    names.map_values(|name: Seq<char>| lowercase(name))
}

/// `distinct` repeats nothing and loses nothing.
pub proof fn lemma_distinct(names: Seq<Seq<char>>)
    ensures
        distinct(names).no_duplicates(),
        forall|name: Seq<char>| distinct(names).contains(name) <==> names.contains(name),
        distinct(names).to_set() == names.to_set(),
        distinct(names).len() <= names.len(),
    decreases names.len(),
{
    if names.len() > 0 {
        let front_names = names.drop_last();
        let front = distinct(front_names);
        let last = names.last();
        lemma_distinct(front_names);
        assert forall|name: Seq<char>| distinct(names).contains(name) <==> names.contains(name) by {
            if names.contains(name) {
                let i = choose|i: int| 0 <= i < names.len() && names[i] == name;
                if i < front_names.len() {
                    assert(front_names[i] == name);
                    assert(front_names.contains(name));
                    assert(front.contains(name));
                    let j = choose|j: int| 0 <= j < front.len() && front[j] == name;
                    assert(distinct(names)[j] == name);
                } else if !front.contains(last) {
                    assert(distinct(names)[front.len() as int] == name);
                }
            }
            if distinct(names).contains(name) {
                let j = choose|j: int| 0 <= j < distinct(names).len() && distinct(names)[j] == name;
                if j < front.len() {
                    assert(front[j] == name);
                    assert(front.contains(name));
                    assert(front_names.contains(name));
                    let i = choose|i: int| 0 <= i < front_names.len() && front_names[i] == name;
                    assert(names[i] == name);
                } else {
                    assert(names[names.len() - 1] == name);
                }
            }
        }
    }
    assert(distinct(names).to_set() =~= names.to_set());
}

/// A list that repeats nothing is its own `distinct`.
pub proof fn lemma_distinct_of_distinct(names: Seq<Seq<char>>)
    requires
        names.no_duplicates(),
    ensures
        distinct(names) == names,
    decreases names.len(),
{
    if names.len() > 0 {
        let front_names = names.drop_last();
        lemma_distinct_of_distinct(front_names);
        if front_names.contains(names.last()) {
            let i = choose|i: int| 0 <= i < front_names.len() && front_names[i] == names.last();
            assert(names[i] == names[names.len() - 1]);
        }
        assert(front_names.push(names.last()) =~= names);
    }
}

/// The index at which the text of `name` first stands in `names`.
pub fn find_name(names: &Vec<String>, name: &String) -> (found: Option<usize>)
    ensures
        found is Some <==> texts(names@).contains(name@),
        found matches Some(i) ==> {
            &&& i < names.len()
            &&& names[i as int]@ == name@
            &&& forall|j: int| 0 <= j < i ==> names[j]@ != name@
        },
{
    let mut i: usize = 0;
    while i < names.len()
        invariant
            i <= names.len(),
            forall|j: int| 0 <= j < i ==> names[j]@ != name@,
        decreases names.len() - i,
    {
        if names[i] == *name {
            assert(texts(names@)[i as int] == name@);
            return Some(i);
        }
        i += 1;
    }
    proof {
        if texts(names@).contains(name@) {
            let j = choose|j: int| 0 <= j < texts(names@).len() && texts(names@)[j] == name@;
            assert(names[j]@ == name@);
        }
    }
    None
}

/// The distinct process names seen at one moment.
#[derive(Debug)]
pub struct Snapshot {
    names: Vec<String>,
}

impl View for Snapshot {
    type V = Set<Seq<char>>;

    /// The set of names in the snapshot.
    open spec fn view(&self) -> Set<Seq<char>> {
        self.names().to_set()
    }
}

impl Snapshot {
    #[verifier::type_invariant]
    closed spec fn repeats_nothing(self) -> bool {
        texts(self.names@).no_duplicates()
    }

    /// The names in the order in which they were first seen.
    pub closed spec fn names(&self) -> Seq<Seq<char>> {
        texts(self.names@)
    }

    /// The snapshot of a moment at which nothing runs.
    pub fn empty() -> (snapshot: Snapshot)
        ensures
            snapshot.names() == Seq::<Seq<char>>::empty(),
            snapshot@ == Set::<Seq<char>>::empty(),
    {
        let snapshot = Snapshot { names: Vec::new() };
        assert(snapshot.names() =~= Seq::<Seq<char>>::empty());
        assert(snapshot@ =~= Set::<Seq<char>>::empty());
        snapshot
    }

    /// Collects `names` as they are: a name that occurs several times counts
    /// once, at its first place.
    pub fn from_names(names: &Vec<String>) -> (snapshot: Snapshot)
        ensures
            snapshot.names() == distinct(texts(names@)),
            snapshot@ == texts(names@).to_set(),
    {
        let ghost all = texts(names@);
        let mut kept: Vec<String> = Vec::new();
        let mut i: usize = 0;
        assert(texts(kept@) =~= distinct(all.take(0)));
        while i < names.len()
            invariant
                i <= names.len(),
                all == texts(names@),
                texts(kept@) == distinct(all.take(i as int)),
            decreases names.len() - i,
        {
            proof {
                let next = all.take(i + 1);
                assert(next.drop_last() =~= all.take(i as int));
                assert(next.last() == names[i as int]@);
            }
            let ghost before = kept@;
            if find_name(&kept, &names[i]).is_none() {
                kept.push(names[i].clone());
                assert(texts(kept@) =~= texts(before).push(names[i as int]@));
            }
            i += 1;
        }
        proof {
            assert(all.take(i as int) =~= all);
            lemma_distinct(all);
        }
        Snapshot { names: kept }
    }

    /// Collects the names that the system reports for its processes: each is
    /// put in lower case, and a name that several processes share counts once.
    pub fn from_process_names(reported: &Vec<String>) -> (snapshot: Snapshot)
        ensures
            snapshot.names() == distinct(lowercased(texts(reported@))),
            snapshot@ == lowercased(texts(reported@)).to_set(),
    {
        let mut lowered: Vec<String> = Vec::new();
        let mut i: usize = 0;
        while i < reported.len()
            invariant
                i <= reported.len(),
                lowered.len() == i,
                forall|j: int| 0 <= j < i ==> lowered[j]@ == lowercase(#[trigger] reported[j]@),
            decreases reported.len() - i,
        {
            lowered.push(reported[i].as_str().to_lowercase());
            i += 1;
        }
        assert(texts(lowered@) =~= lowercased(texts(reported@)));
        Snapshot::from_names(&lowered)
    }

    /// How many names the snapshot holds.
    pub fn len(&self) -> (count: usize)
        ensures
            count == self.names().len(),
            count == self@.len(),
            self.names().no_duplicates(),
    {
        proof {
            use_type_invariant(self);
            self.names().unique_seq_to_set();
        }
        self.names.len()
    }

    /// The name at place `i`.
    pub fn name_at(&self, i: usize) -> (name: &String)
        requires
            i < self.names().len(),
        ensures
            name@ == self.names()[i as int],
            self.names().no_duplicates(),
    {
        proof {
            use_type_invariant(self);
        }
        &self.names[i]
    }

    /// Whether `name` is in the snapshot.
    pub fn contains(&self, name: &str) -> (present: bool)
        ensures
            present == self@.contains(name@),
    {
        let key = String::from_str(name);
        find_name(&self.names, &key).is_some()
    }

    /// The names as a list, in the order in which they were first seen.
    pub fn to_vec(&self) -> (names: Vec<String>)
        ensures
            texts(names@) == self.names(),
            self.names().no_duplicates(),
    {
        proof {
            use_type_invariant(self);
        }
        let mut names: Vec<String> = Vec::new();
        let mut i: usize = 0;
        while i < self.names.len()
            invariant
                i <= self.names.len(),
                names.len() == i,
                forall|j: int| 0 <= j < i ==> names[j]@ == self.names[j]@,
            decreases self.names.len() - i,
        {
            names.push(self.names[i].clone());
            i += 1;
        }
        assert(texts(names@) =~= self.names());
        names
    }
}

} // verus!
