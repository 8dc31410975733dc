//! The registry: every live poll under the identifier that it was created
//! with.

use crate::error::PollError;
use crate::record::{PollRecord, RecordView};
use std::collections::hash_map::Entry;
use std::collections::HashMap;
use vstd::prelude::*;
use vstd::std_specs::hash::OccupiedEntrySpecFns;

verus! {

broadcast use vstd::std_specs::hash::group_hash_axioms;

/// Every poll of the registry is a valid record.
pub open spec fn all_valid(polls: Map<u64, RecordView>) -> bool {
    forall|id: u64| polls.contains_key(id) ==> (#[trigger] polls[id]).valid()
}

/// What a sweep at clock reading `now` leaves of a registry: the polls that
/// have not outlived `max_age`, each as it was.
pub open spec fn swept(polls: Map<u64, RecordView>, now: u128, max_age: u128) -> Map<
    u64,
    RecordView,
> {
    Map::new(
        |id: u64| polls.contains_key(id) && !polls[id].expired(now, max_age),
        |id: u64| polls[id],
    )
}

/// A sweep closes a poll if and only if the poll has outlived `max_age`: a
/// poll of exactly that age or younger stays, and stays as it was.
pub proof fn lemma_sweep_closes_the_expired(
    polls: Map<u64, RecordView>,
    now: u128,
    max_age: u128,
    id: u64,
)
    requires
        polls.contains_key(id),
    ensures
        polls[id].age(now) > max_age ==> !swept(polls, now, max_age).contains_key(id),
        polls[id].age(now) <= max_age ==> swept(polls, now, max_age).contains_key(id) && swept(
            polls,
            now,
            max_age,
        )[id] == polls[id],
{
}

/// A sweep opens no poll and alters none: what it leaves is part of what
/// was there.
pub proof fn lemma_sweep_opens_no_poll(polls: Map<u64, RecordView>, now: u128, max_age: u128)
    ensures
        swept(polls, now, max_age).submap_of(polls),
{
}

/// Eviction is monotonic. A poll that has outlived `max_age` at `now` has
/// outlived it at every later clock reading; a sweep then closes it, and no
/// later sweep brings it back.
pub proof fn lemma_eviction_is_monotonic(
    polls: Map<u64, RecordView>,
    now: u128,
    later: u128,
    max_age: u128,
    id: u64,
)
    requires
        polls.contains_key(id),
        polls[id].expired(now, max_age),
        now <= later,
    ensures
        polls[id].expired(later, max_age),
        !swept(polls, now, max_age).contains_key(id),
        !swept(polls, later, max_age).contains_key(id),
        !swept(swept(polls, now, max_age), later, max_age).contains_key(id),
{
}

/// Two sweeps in the order of their clock readings leave what the later one
/// alone would have left.
pub proof fn lemma_later_sweep_decides(
    polls: Map<u64, RecordView>,
    now: u128,
    later: u128,
    max_age: u128,
)
    requires
        now <= later,
    ensures
        swept(swept(polls, now, max_age), later, max_age) == swept(polls, later, max_age),
{
    assert(swept(swept(polls, now, max_age), later, max_age) =~= swept(polls, later, max_age));
}

/// The polls that are open, each under its identifier.
pub struct PollStore {
    polls: HashMap<u64, PollRecord>,
}

impl View for PollStore {
    type V = Map<u64, RecordView>;

    closed spec fn view(&self) -> Map<u64, RecordView> {
        self.polls@.map_values(|record: PollRecord| record@)
    }
}

impl PollStore {
    /// The shape that the registry keeps: finitely many polls, all of them
    /// valid.
    pub open spec fn valid(&self) -> bool {
        &&& self@.dom().finite()
        &&& all_valid(self@)
    }

    /// A registry without polls.
    pub fn new() -> (store: PollStore)
        ensures
            store@ == Map::<u64, RecordView>::empty(),
            store.valid(),
    {
        let store = PollStore { polls: HashMap::new() };
        proof {
            assert(store@ =~= Map::<u64, RecordView>::empty());
        }
        store
    }

    /// How many polls are open.
    pub fn len(&self) -> (n: usize)
        ensures
            n == self@.dom().len(),
    {
        proof {
            assert(self@.dom() =~= self.polls@.dom());
        }
        self.polls.len()
    }

    /// Whether a poll is open under `id`.
    pub fn contains(&self, id: u64) -> (r: bool)
        ensures
            r == self@.contains_key(id),
    {
        self.polls.contains_key(&id)
    }

    /// The poll that is open under `id`, to read.
    pub fn get(&self, id: u64) -> (found: Option<&PollRecord>)
        ensures
            match found {
                Some(record) => self@.contains_key(id) && record@ == self@[id],
                None => !self@.contains_key(id),
            },
    {
        self.polls.get(&id)
    }

    /// Opens `record` under `id`. Identifiers are issued once, so no poll
    /// is open under `id` yet; if one is, `record` takes its place.
    pub fn insert(&mut self, id: u64, record: PollRecord)
        requires
            old(self).valid(),
            record@.valid(),
        ensures
            final(self)@ == old(self)@.insert(id, record@),
            final(self).valid(),
    {
        self.polls.insert(id, record);
        proof {
            assert(self@ =~= old(self)@.insert(id, record@));
        }
    }

    /// Hands the poll that is open under `id` to `change`, which may alter
    /// it, and returns what `change` returns. Where no poll is open under
    /// `id`, `change` is not called, nothing changes, and the result is
    /// `UnknownPoll`.
    pub fn with_record_mut<R, F: FnOnce(&mut PollRecord) -> R>(&mut self, id: u64, change: F) -> (r:
        Result<R, PollError>)
        requires
            old(self).valid(),
            forall|record: &mut PollRecord|
                old(self)@.contains_key(id) && (*record)@ == old(self)@[id]
                    ==> #[trigger] change.requires((record,)),
            forall|record: &mut PollRecord, out: R|
                (*record)@.valid() && #[trigger] change.ensures((record,), out)
                    ==> (*final(record))@.valid(),
        ensures
            final(self).valid(),
            match r {
                Ok(out) => {
                    &&& old(self)@.contains_key(id)
                    &&& final(self)@ == old(self)@.insert(id, final(self)@[id])
                    &&& exists|record: &mut PollRecord|
                        {
                            &&& (*record)@ == old(self)@[id]
                            &&& (*final(record))@ == final(self)@[id]
                            &&& #[trigger] change.ensures((record,), out)
                        }
                },
                Err(e) => {
                    &&& e == PollError::UnknownPoll
                    &&& !old(self)@.contains_key(id)
                    &&& final(self)@ == old(self)@
                },
            },
    {
        match self.polls.entry(id) {
            Entry::Occupied(occupied) => {
                assert(occupied.value()@ == old(self)@[id]);
                let record: &mut PollRecord = occupied.into_mut();
                let out = change(record);
                let result: Result<R, PollError> = Ok(out);
                proof {
                    assert(self@ =~= old(self)@.insert(id, self@[id]));
                    assert(exists|r: &mut PollRecord|
                        {
                            &&& (*r)@ == old(self)@[id]
                            &&& (*final(r))@ == self@[id]
                            &&& #[trigger] change.ensures((r,), out)
                        });
                    assert(result matches Ok(o) && o == out);
                }
                result
            },
            Entry::Vacant(_) => {
                proof {
                    assert(self@ =~= old(self)@);
                }
                Err(PollError::UnknownPoll)
            },
        }
    }

    /// Sweeps the registry at clock reading `now`: closes every poll that
    /// is older than `max_age`, and leaves the others as they are.
    pub fn evict_older_than(&mut self, now: u128, max_age: u128)
        requires
            old(self).valid(),
        ensures
            final(self)@ == swept(old(self)@, now, max_age),
            final(self).valid(),
    {
        let ghost before = self@;
        let ghost mut seen: Set<u64> = Set::empty();
        let mut expired: Vec<u64> = Vec::new();
        for entry in it: self.polls.iter()
            invariant
                before == self@,
                forall|id: u64|
                    seen.contains(id) <==> exists|j: int|
                        0 <= j < it.index() && *(#[trigger] it.seq()[j]).0 == id,
                forall|j: int|
                    0 <= j < it.seq().len() ==> {
                        &&& #[trigger] before.contains_key(*it.seq()[j].0)
                        &&& before[*it.seq()[j].0] == (*it.seq()[j].1)@
                    },
                forall|id: u64| #[trigger]
                    before.contains_key(id) ==> exists|j: int|
                        0 <= j < it.seq().len() && *(#[trigger] it.seq()[j]).0 == id,
                forall|k: int|
                    0 <= k < expired@.len() ==> before.contains_key(#[trigger] expired@[k])
                        && before[expired@[k]].expired(now, max_age),
                forall|id: u64|
                    seen.contains(id) && before[id].expired(now, max_age)
                        ==> #[trigger] expired@.contains(id),
        {
            let ghost at: int = it.index();
            let ghost listed = expired@;
            let (id, record) = entry;
            assert(*it.seq()[at].0 == *id);
            assert(before.contains_key(*it.seq()[at].0));
            assert(before[*id] == record@);
            if record.is_expired(now, max_age) {
                expired.push(*id);
            }
            proof {
                assert forall|other: u64|
                    seen.insert(*id).contains(other) && before[other].expired(
                        now,
                        max_age,
                    ) implies #[trigger] expired@.contains(other) by {
                    if other == *id {
                        assert(expired@[listed.len() as int] == other);
                    } else {
                        assert(listed.contains(other));
                        let k: int = choose|k: int| 0 <= k < listed.len() && listed[k] == other;
                        assert(expired@[k] == other);
                    }
                }
                seen = seen.insert(*id);
            }
        }
        proof {
            assert forall|id: u64| before.contains_key(id) implies seen.contains(id) by {}
        }
        let mut k: usize = 0;
        proof {
            assert(expired@.take(0).to_set() =~= Set::<u64>::empty());
            assert(self@ =~= before.remove_keys(expired@.take(0).to_set()));
        }
        while k < expired.len()
            invariant
                0 <= k <= expired@.len(),
                self@ == before.remove_keys(expired@.take(k as int).to_set()),
            decreases expired@.len() - k,
        {
            let ghost open = self@;
            let ghost gone = expired@.take(k as int);
            self.polls.remove(&expired[k]);
            proof {
                assert(self@ =~= open.remove(expired@[k as int]));
                assert(expired@.take(k + 1) == gone.push(expired@[k as int]));
                gone.lemma_push_to_set_commute(expired@[k as int]);
                assert(self@ =~= before.remove_keys(expired@.take(k + 1).to_set()));
            }
            k = k + 1;
        }
        proof {
            assert(self@.dom() =~= self.polls@.dom());
            assert(expired@.take(k as int) == expired@);
            assert(self@ =~= swept(before, now, max_age));
            assert forall|id: u64| self@.contains_key(id) implies (#[trigger] self@[id]).valid() by {
                assert(before.contains_key(id));
            }
        }
    }
}

} // verus!
