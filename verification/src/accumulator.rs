//! The seconds credited to each process name.

use vstd::prelude::*;
use vstd::string::*;
use crate::snapshot::{distinct, find_name, lemma_distinct, texts, Snapshot};

verus! {

/// The seconds that `times` holds for `name`: 0 for a name it has not seen.
pub open spec fn total(times: Map<Seq<char>, nat>, name: Seq<char>) -> nat {
    if times.dom().contains(name) {
        times[name]
    } else {
        0
    }
}

/// `times` after `amount` seconds went to each name of `names`, a name not
/// seen before starting from 0. Every other name keeps what it had.
pub open spec fn credited(times: Map<Seq<char>, nat>, names: Set<Seq<char>>, amount: nat) -> Map<
    Seq<char>,
    nat,
> {
    Map::new(
        |name: Seq<char>| times.dom().contains(name) || names.contains(name),
        |name: Seq<char>|
            if names.contains(name) {
                total(times, name) + amount
            } else {
                times[name]
            },
    )
}

/// Whether `amount` more seconds for each name of `names` still fit the
/// counters.
pub open spec fn fits(times: Map<Seq<char>, nat>, names: Set<Seq<char>>, amount: nat) -> bool {
    forall|name: Seq<char>| names.contains(name) ==> total(times, name) + amount <= u64::MAX
}

/// The names of `names` that `known` lacks, in their order.
pub open spec fn unknown(names: Seq<Seq<char>>, known: Set<Seq<char>>) -> Seq<Seq<char>>
    decreases names.len(),
{
    if names.len() == 0 {
        Seq::empty()
    } else {
        let front = unknown(names.drop_last(), known);
        if known.contains(names.last()) {
            front
        } else {
            front.push(names.last())
        }
    }
}

/// The map that two lists of equal length stand for: the name at each place
/// with the seconds at that place.
spec fn table(names: Seq<Seq<char>>, seconds: Seq<u64>) -> Map<Seq<char>, nat> {
    Map::new(
        |name: Seq<char>| names.contains(name),
        |name: Seq<char>| seconds[names.index_of(name)] as nat,
    )
}

proof fn lemma_index_of(names: Seq<Seq<char>>, i: int)
    requires
        names.no_duplicates(),
        0 <= i < names.len(),
    ensures
        names.contains(names[i]),
        names.index_of(names[i]) == i,
{
    assert(names.contains(names[i]));
    let j = names.index_of(names[i]);
    assert(0 <= j < names.len() && names[j] == names[i]);
}

proof fn lemma_table_at(names: Seq<Seq<char>>, seconds: Seq<u64>, i: int)
    requires
        names.no_duplicates(),
        names.len() == seconds.len(),
        0 <= i < names.len(),
    ensures
        table(names, seconds).dom().contains(names[i]),
        table(names, seconds)[names[i]] == seconds[i],
{
    lemma_index_of(names, i);
}

proof fn lemma_table_push(names: Seq<Seq<char>>, seconds: Seq<u64>, name: Seq<char>, value: u64)
    requires
        names.no_duplicates(),
        names.len() == seconds.len(),
        !names.contains(name),
    ensures
        names.push(name).no_duplicates(),
        table(names.push(name), seconds.push(value)) == table(names, seconds).insert(
            name,
            value as nat,
        ),
{
    let longer = names.push(name);
    let more = seconds.push(value);
    assert forall|i: int, j: int| 0 <= i < longer.len() && 0 <= j < longer.len() && i != j implies longer[i]
        != longer[j] by {
        if i < names.len() {
            assert(names.contains(names[i]));
        }
        if j < names.len() {
            assert(names.contains(names[j]));
        }
    }
    let left = table(longer, more);
    let right = table(names, seconds).insert(name, value as nat);
    assert forall|key: Seq<char>| left.dom().contains(key) <==> right.dom().contains(key) by {
        if longer.contains(key) {
            let i = choose|i: int| 0 <= i < longer.len() && longer[i] == key;
            if i < names.len() {
                assert(names[i] == key);
                assert(names.contains(key));
            }
        }
        if names.contains(key) {
            let i = choose|i: int| 0 <= i < names.len() && names[i] == key;
            assert(longer[i] == key);
        }
        if key == name {
            assert(longer[names.len() as int] == key);
        }
    }
    assert forall|key: Seq<char>| left.dom().contains(key) implies left[key] == right[key] by {
        let i = choose|i: int| 0 <= i < longer.len() && longer[i] == key;
        lemma_index_of(longer, i);
        if i < names.len() {
            assert(names[i] == key);
            lemma_index_of(names, i);
        }
    }
    assert(left =~= right);
}

proof fn lemma_table_update(names: Seq<Seq<char>>, seconds: Seq<u64>, i: int, value: u64)
    requires
        names.no_duplicates(),
        names.len() == seconds.len(),
        0 <= i < names.len(),
    ensures
        table(names, seconds.update(i, value)) == table(names, seconds).insert(
            names[i],
            value as nat,
        ),
{
    let left = table(names, seconds.update(i, value));
    let right = table(names, seconds).insert(names[i], value as nat);
    lemma_index_of(names, i);
    assert forall|key: Seq<char>| left.dom().contains(key) implies left[key] == right[key] by {
        let j = choose|j: int| 0 <= j < names.len() && names[j] == key;
        lemma_index_of(names, j);
    }
    assert(left =~= right);
}

/// Crediting one more name is one more entry set.
pub proof fn lemma_credited_insert(
    times: Map<Seq<char>, nat>,
    names: Set<Seq<char>>,
    name: Seq<char>,
    amount: nat,
)
    requires
        !names.contains(name),
    ensures
        credited(times, names.insert(name), amount) == credited(times, names, amount).insert(
            name,
            total(times, name) + amount,
        ),
        total(credited(times, names, amount), name) == total(times, name),
{
    assert(credited(times, names.insert(name), amount) =~= credited(times, names, amount).insert(
        name,
        total(times, name) + amount,
    ));
}

/// `times` after each set of `rounds` was credited in turn, `amount` seconds
/// a round.
pub open spec fn credited_all(
    times: Map<Seq<char>, nat>,
    rounds: Seq<Set<Seq<char>>>,
    amount: nat,
) -> Map<Seq<char>, nat>
    decreases rounds.len(),
{
    if rounds.len() == 0 {
        times
    } else {
        credited(credited_all(times, rounds.drop_last(), amount), rounds.last(), amount)
    }
}

/// In how many of `rounds` `name` occurs.
pub open spec fn appearances(rounds: Seq<Set<Seq<char>>>, name: Seq<char>) -> nat
    decreases rounds.len(),
{
    if rounds.len() == 0 {
        0
    } else {
        appearances(rounds.drop_last(), name) + if rounds.last().contains(name) {
            1nat
        } else {
            0nat
        }
    }
}

/// One round gives a name of the round `amount` seconds more and leaves every
/// other name what it had: no name ever loses seconds.
pub proof fn lemma_credited_total(
    times: Map<Seq<char>, nat>,
    names: Set<Seq<char>>,
    amount: nat,
    name: Seq<char>,
)
    ensures
        total(credited(times, names, amount), name) == total(times, name) + if names.contains(
            name,
        ) {
            amount
        } else {
            0
        },
        total(credited(times, names, amount), name) >= total(times, name),
{
}

/// After any rounds, a name holds what it had before them plus `amount`
/// seconds for each round in which it occurs.
pub proof fn lemma_credited_all_total(
    times: Map<Seq<char>, nat>,
    rounds: Seq<Set<Seq<char>>>,
    amount: nat,
    name: Seq<char>,
)
    ensures
        total(credited_all(times, rounds, amount), name) == total(times, name) + amount
            * appearances(rounds, name),
    decreases rounds.len(),
{
    if rounds.len() > 0 {
        let earlier = rounds.drop_last();
        lemma_credited_all_total(times, earlier, amount, name);
        lemma_credited_total(credited_all(times, earlier, amount), rounds.last(), amount, name);
        let count = appearances(earlier, name);
        assert(amount * (count + 1) == amount * count + amount) by (nonlinear_arith);
    } else {
        assert(amount * 0 == 0) by (nonlinear_arith);
    }
}

/// From an empty accumulator, a name holds `amount` seconds times the number
/// of rounds in which it occurred, and has an entry if it occurred at all.
pub proof fn lemma_credited_all_from_empty(
    rounds: Seq<Set<Seq<char>>>,
    amount: nat,
    name: Seq<char>,
)
    ensures
        total(credited_all(Map::empty(), rounds, amount), name) == amount * appearances(
            rounds,
            name,
        ),
        credited_all(Map::empty(), rounds, amount).dom().contains(name) <==> appearances(
            rounds,
            name,
        ) > 0,
    decreases rounds.len(),
{
    lemma_credited_all_total(Map::empty(), rounds, amount, name);
    if rounds.len() > 0 {
        lemma_credited_all_from_empty(rounds.drop_last(), amount, name);
    }
}

/// A name that several processes share is credited once: what a list of names
/// credits depends on which names it holds, not on how often.
pub proof fn lemma_repeated_names_credit_once(
    times: Map<Seq<char>, nat>,
    reported: Seq<Seq<char>>,
    amount: nat,
    name: Seq<char>,
)
    requires
        reported.contains(name),
    ensures
        credited(times, distinct(reported).to_set(), amount) == credited(
            times,
            reported.to_set(),
            amount,
        ),
        total(credited(times, distinct(reported).to_set(), amount), name) == total(times, name)
            + amount,
{
    lemma_distinct(reported);
}

/// A name with the seconds credited to it.
#[derive(Debug, PartialEq, Eq)]
pub struct TimeEntry {
    pub name: String,
    pub seconds: u64,
}

/// The names and, at the same places, their seconds.
#[derive(Debug)]
struct Columns {
    names: Vec<String>,
    seconds: Vec<u64>,
}

/// The seconds credited to each process name so far. Seconds are only ever
/// added; a name is entered when it is first credited.
#[derive(Debug)]
pub struct TimeAccumulator {
    columns: Columns,
}

impl View for TimeAccumulator {
    type V = Map<Seq<char>, nat>;

    /// The seconds held for each name that was ever credited.
    closed spec fn view(&self) -> Map<Seq<char>, nat> {
        table(texts(self.columns.names@), self.columns.seconds@)
    }
}

impl TimeAccumulator {
    #[verifier::type_invariant]
    closed spec fn consistent(self) -> bool {
        &&& self.columns.names.len() == self.columns.seconds.len()
        &&& texts(self.columns.names@).no_duplicates()
    }

    /// The names held, in the order in which they were entered.
    pub closed spec fn names(&self) -> Seq<Seq<char>> {
        texts(self.columns.names@)
    }

    /// The names are listed once each, they are the names that have seconds,
    /// and the seconds of each fit a counter. This holds of every accumulator
    /// that a program can hold.
    pub open spec fn listed(&self) -> bool {
        &&& self.names().no_duplicates()
        &&& self.names().to_set() == self@.dom()
        &&& self@.dom().finite()
        &&& forall|name: Seq<char>| self@.dom().contains(name) ==> self@[name] <= u64::MAX
    }

    proof fn lemma_listed(&self)
        requires
            self.consistent(),
        ensures
            self.listed(),
    {
        assert(self.names().to_set() =~= self@.dom());
        vstd::seq_lib::seq_to_set_is_finite(self.names());
    }

    /// An accumulator that has credited nothing yet.
    pub fn new() -> (times: TimeAccumulator)
        ensures
            times@ == Map::<Seq<char>, nat>::empty(),
            times.names() == Seq::<Seq<char>>::empty(),
    {
        let times = TimeAccumulator { columns: Columns { names: Vec::new(), seconds: Vec::new() } };
        proof {
            assert(times.names() =~= Seq::<Seq<char>>::empty());
            assert(times@ =~= Map::<Seq<char>, nat>::empty());
        }
        times
    }

    /// How many names have seconds.
    pub fn len(&self) -> (count: usize)
        ensures
            count == self.names().len(),
            count == self@.dom().len(),
            self.listed(),
    {
        proof {
            use_type_invariant(self);
            self.lemma_listed();
            self.names().unique_seq_to_set();
        }
        self.columns.names.len()
    }

    /// The seconds held for `name`, if it was ever credited.
    pub fn get(&self, name: &str) -> (seconds: Option<u64>)
        ensures
            seconds is Some <==> self@.dom().contains(name@),
            seconds matches Some(held) ==> held == self@[name@],
    {
        proof {
            use_type_invariant(self);
        }
        let key = String::from_str(name);
        match find_name(&self.columns.names, &key) {
            Some(i) => {
                proof {
                    assert(texts(self.columns.names@)[i as int] == name@);
                    lemma_table_at(texts(self.columns.names@), self.columns.seconds@, i as int);
                }
                Some(self.columns.seconds[i])
            },
            None => None,
        }
    }

    /// The seconds held for `name`: 0 where it was never credited.
    pub fn seconds_of(&self, name: &str) -> (seconds: u64)
        ensures
            seconds == total(self@, name@),
    {
        match self.get(name) {
            Some(held) => held,
            None => 0,
        }
    }

    /// Sets the seconds of `name`, entering the name where it is new.
    pub fn insert(&mut self, name: String, seconds: u64)
        ensures
            final(self)@ == old(self)@.insert(name@, seconds as nat),
            final(self).names() == if old(self)@.dom().contains(name@) {
                old(self).names()
            } else {
                old(self).names().push(name@)
            },
            final(self).listed(),
    {
        proof {
            use_type_invariant(&*self);
            self.lemma_listed();
        }
        // The columns change outside the accumulator, which holds consistent
        // columns at every moment.
        let mut columns = Columns { names: Vec::new(), seconds: Vec::new() };
        core::mem::swap(&mut self.columns, &mut columns);
        let ghost names = texts(columns.names@);
        match find_name(&columns.names, &name) {
            Some(i) => {
                proof {
                    assert(names[i as int] == name@);
                    lemma_table_update(names, columns.seconds@, i as int, seconds);
                }
                columns.seconds.set(i, seconds);
            },
            None => {
                proof {
                    lemma_table_push(names, columns.seconds@, name@, seconds);
                }
                columns.names.push(name);
                columns.seconds.push(seconds);
                assert(texts(columns.names@) =~= names.push(name@));
            },
        }
        self.columns = columns;
        proof {
            self.lemma_listed();
        }
    }

    /// Whether `amount` more seconds for every name of `snapshot` fit.
    pub fn can_credit(&self, snapshot: &Snapshot, amount: u64) -> (possible: bool)
        ensures
            possible == fits(self@, snapshot@, amount as nat),
    {
        let count = snapshot.len();
        let mut i: usize = 0;
        while i < count
            invariant
                i <= count,
                count == snapshot.names().len(),
                forall|j: int|
                    0 <= j < i ==> total(self@, #[trigger] snapshot.names()[j]) + amount
                        <= u64::MAX,
            decreases count - i,
        {
            let held = self.seconds_of(snapshot.name_at(i).as_str());
            if held > u64::MAX - amount {
                assert(snapshot@.contains(snapshot.names()[i as int]));
                return false;
            }
            i += 1;
        }
        proof {
            assert forall|name: Seq<char>| snapshot@.contains(name) implies total(self@, name)
                + amount <= u64::MAX by {
                let j = choose|j: int|
                    0 <= j < snapshot.names().len() && snapshot.names()[j] == name;
                assert(total(self@, snapshot.names()[j]) + amount <= u64::MAX);
            }
        }
        true
    }

    /// Credits `amount` seconds to every name of `snapshot`, all in this one
    /// call: the accumulator is borrowed exclusively for it, so whoever reads
    /// finds the times of before the call or those of after it. New names are
    /// entered behind the ones held, in the snapshot's order.
    pub fn increment_by(&mut self, snapshot: &Snapshot, amount: u64)
        requires
            fits(old(self)@, snapshot@, amount as nat),
        ensures
            final(self)@ == credited(old(self)@, snapshot@, amount as nat),
            final(self).names() == old(self).names() + unknown(
                snapshot.names(),
                old(self)@.dom(),
            ),
            final(self).listed(),
    {
        let ghost before = self@;
        let ghost before_names = self.names();
        let ghost seen = snapshot.names();
        let count = snapshot.len();
        let mut i: usize = 0;
        proof {
            use_type_invariant(&*self);
            self.lemma_listed();
            assert(seen.take(0) =~= Seq::<Seq<char>>::empty());
            assert(seen.take(0).to_set() =~= Set::<Seq<char>>::empty());
            assert(before =~= credited(before, Set::<Seq<char>>::empty(), amount as nat));
            assert(before_names =~= before_names + unknown(seen.take(0), before.dom()));
        }
        while i < count
            invariant
                i <= count,
                count == seen.len(),
                seen == snapshot.names(),
                seen.no_duplicates(),
                fits(before, snapshot@, amount as nat),
                before_names.to_set() == before.dom(),
                self.listed(),
                self@ == credited(before, seen.take(i as int).to_set(), amount as nat),
                self.names() == before_names + unknown(seen.take(i as int), before.dom()),
            decreases count - i,
        {
            let name = snapshot.name_at(i);
            let ghost prefix = seen.take(i as int);
            proof {
                assert(seen.contains(seen[i as int]));
                assert(snapshot@.contains(name@));
                if prefix.contains(name@) {
                    let j = choose|j: int| 0 <= j < prefix.len() && prefix[j] == name@;
                    assert(seen[j] == seen[i as int]);
                }
                lemma_credited_insert(before, prefix.to_set(), name@, amount as nat);
                let next = seen.take(i + 1);
                assert(next.drop_last() =~= prefix);
                assert(next.last() == name@);
                assert(next.to_set() =~= prefix.to_set().insert(name@));
            }
            let held = self.seconds_of(name.as_str());
            self.insert(name.clone(), held + amount);
            i += 1;
        }
        proof {
            assert(seen.take(i as int) =~= seen);
        }
    }

    /// Every name with its seconds, in the order in which the names were
    /// entered.
    pub fn read(&self) -> (entries: Vec<TimeEntry>)
        ensures
            entries.len() == self.names().len(),
            forall|i: int|
                0 <= i < entries.len() ==> {
                    &&& (#[trigger] entries[i]).name@ == self.names()[i]
                    &&& entries[i].seconds == self@[self.names()[i]]
                },
            self.listed(),
    {
        proof {
            use_type_invariant(self);
            self.lemma_listed();
        }
        let mut entries: Vec<TimeEntry> = Vec::new();
        let mut i: usize = 0;
        while i < self.columns.names.len()
            invariant
                i <= self.columns.names.len(),
                self.columns.names.len() == self.columns.seconds.len(),
                texts(self.columns.names@).no_duplicates(),
                entries.len() == i,
                forall|j: int|
                    0 <= j < i ==> {
                        &&& (#[trigger] entries[j]).name@ == self.names()[j]
                        &&& entries[j].seconds == self@[self.names()[j]]
                    },
            decreases self.columns.names.len() - i,
        {
            proof {
                lemma_table_at(texts(self.columns.names@), self.columns.seconds@, i as int);
            }
            entries.push(
                TimeEntry {
                    name: self.columns.names[i].clone(),
                    seconds: self.columns.seconds[i],
                },
            );
            i += 1;
        }
        entries
    }
}

} // verus!
