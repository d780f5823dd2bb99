use crate::error::SimError;
use crate::happiness::{single_default, Happiness};
use crate::ids::{issues, IdAllocator, PersonId};
use crate::store::{has_key, unique_keys, Keyed, KeyedStore};
use vstd::prelude::*;

verus! {

/// A simulated individual.
#[derive(Debug)]
pub struct Person {
    id: PersonId,
    happiness: Happiness,
}

impl Person {
    pub closed spec fn id_of(&self) -> PersonId {
        self.id
    }

    pub closed spec fn happiness_of(&self) -> Happiness {
        self.happiness
    }

    pub open spec fn wf(&self) -> bool {
        self.happiness_of().wf()
    }

    /// A person with a fresh identifier from `person_ids` and an initial
    /// happiness whose modifier identifier comes from `modifier_ids`.
    pub fn create(person_ids: &mut IdAllocator, modifier_ids: &mut IdAllocator) -> (r: Result<
        Self,
        SimError,
    >)
        ensures
            old(person_ids).upcoming() < u64::MAX && old(modifier_ids).upcoming() < u64::MAX ==> (
            r matches Ok(p) && p.wf() && issues(
                old(person_ids).upcoming(),
                p.id_of().0,
                final(person_ids).upcoming(),
            ) && single_default(p.happiness_of().modifiers(), old(modifier_ids).upcoming())
                && final(modifier_ids).upcoming() == old(modifier_ids).upcoming() + 1),
            old(person_ids).upcoming() == u64::MAX ==> r == Err::<Self, SimError>(
                SimError::IdsExhausted,
            ) && final(person_ids).upcoming() == old(person_ids).upcoming() && final(modifier_ids).upcoming() == old(modifier_ids).upcoming(),
            old(person_ids).upcoming() < u64::MAX && old(modifier_ids).upcoming() == u64::MAX ==> r
                == Err::<Self, SimError>(SimError::IdsExhausted) && final(person_ids).upcoming()
                == old(person_ids).upcoming() + 1 && final(modifier_ids).upcoming() == old(modifier_ids).upcoming(),
    {
        let id = match person_ids.next() {
            Some(v) => PersonId(v),
            None => return Err(SimError::IdsExhausted),
        };
        let happiness = Happiness::new_initial(modifier_ids)?;
        Ok(Person { id, happiness })
    }

    pub fn key(&self) -> (r: PersonId)
        ensures
            r == self.id_of(),
    {
        self.id
    }

    pub fn happiness(&self) -> (r: &Happiness)
        ensures
            *r == self.happiness_of(),
    {
        &self.happiness
    }

    /// Advances this person by one week: their happiness is recomputed.
    pub fn finish_week(&mut self, modifier_ids: &mut IdAllocator) -> (r: Result<(), SimError>)
        requires
            old(self).wf(),
        ensures
            final(self).wf(),
            final(self).id_of() == old(self).id_of(),
            old(modifier_ids).upcoming() < u64::MAX ==> (r is Ok && single_default(
                final(self).happiness_of().modifiers(),
                old(modifier_ids).upcoming(),
            ) && final(modifier_ids).upcoming() == old(modifier_ids).upcoming() + 1),
            old(modifier_ids).upcoming() == u64::MAX ==> r == Err::<(), SimError>(
                SimError::IdsExhausted,
            ) && final(modifier_ids).upcoming() == old(modifier_ids).upcoming()
                && final(self).happiness_of().modifiers() == old(self).happiness_of().modifiers(),
    {
        self.happiness.finish_week(modifier_ids)
    }
}

impl Keyed for Person {
    open spec fn key_of(&self) -> u64 {
        self.id_of().0
    }

    fn store_key(&self) -> (k: u64) {
        self.id.0
    }
}

/// The root of the simulation: every person, and the allocators that give
/// people and modifiers their identifiers.
#[derive(Debug)]
pub struct Population {
    people: KeyedStore<Person>,
    person_ids: IdAllocator,
    modifier_ids: IdAllocator,
}

/// Each person in `people` holds exactly one `Default` modifier, and the
/// modifier of the person at position `i` has identifier `first + i`.
pub open spec fn fresh_week(people: Seq<Person>, first: int) -> bool {
    forall|i: int|
        0 <= i < people.len() ==> single_default(
            (#[trigger] people[i]).happiness_of().modifiers(),
            (first + i) as u64,
        )
}

/// `before` became `after` through one weekly advance that returned `r`:
/// when the modifier identifiers cover every person, each person kept their
/// identifier and place and had their happiness recomputed exactly once, in
/// order; otherwise nothing changed and the identifiers are reported exhausted.
pub open spec fn advanced_one_week(before: Population, after: Population, r: Result<(), SimError>) -> bool {
    let n = before.people_of().len();
    let c = before.modifier_counter();
    &&& c + n <= u64::MAX ==> {
        &&& r is Ok
        &&& after.people_of().len() == n
        &&& forall|i: int|
            0 <= i < n ==> (#[trigger] after.people_of()[i]).id_of() == before.people_of()[i].id_of()
        &&& fresh_week(after.people_of(), c as int)
        &&& forall|i: int, j: int|
            0 <= i < n && 0 <= j < before.people_of()[i].happiness_of().modifiers().len() ==> (
            #[trigger] before.people_of()[i].happiness_of().modifiers()[j]).id_of()
                != after.people_of()[i].happiness_of().modifiers()[0].id_of()
        &&& after.modifier_counter() == c + n
        &&& after.person_counter() == before.person_counter()
    }
    &&& c + n > u64::MAX ==> {
        &&& r == Err::<(), SimError>(SimError::IdsExhausted)
        &&& after.people_of() == before.people_of()
        &&& after.modifier_counter() == c
        &&& after.person_counter() == before.person_counter()
    }
}

/// A weekly advance leaves the set of person identifiers as it was, and
/// gives every person a modifier of their own: the fresh identifiers of two
/// different people differ.
pub proof fn lemma_week_keeps_people(before: Population, after: Population, r: Result<(), SimError>)
    requires
        advanced_one_week(before, after, r),
    ensures
        forall|k: u64| has_key(before.people_of(), k) <==> has_key(after.people_of(), k),
        r is Ok ==> forall|i: int, j: int|
            0 <= i < j < after.people_of().len() ==> (#[trigger] after.people_of()[i]).happiness_of().modifiers()[0].id_of()
                != (#[trigger] after.people_of()[j]).happiness_of().modifiers()[0].id_of(),
{
    let n = before.people_of().len();
    if before.modifier_counter() + n <= u64::MAX {
        assert forall|k: u64| has_key(before.people_of(), k) implies has_key(after.people_of(), k) by {
            let i = choose|i: int| 0 <= i < n && (#[trigger] before.people_of()[i]).key_of() == k;
            assert(after.people_of()[i].id_of() == before.people_of()[i].id_of());
        }
        assert forall|k: u64| has_key(after.people_of(), k) implies has_key(before.people_of(), k) by {
            let i = choose|i: int| 0 <= i < n && (#[trigger] after.people_of()[i]).key_of() == k;
            assert(after.people_of()[i].id_of() == before.people_of()[i].id_of());
        }
    }
}

impl Population {
    /// The people, in the order they were created.
    pub closed spec fn people_of(&self) -> Seq<Person> {
        self.people@
    }

    /// The identifier that the next person created would get.
    pub closed spec fn person_counter(&self) -> u64 {
        self.person_ids.upcoming()
    }

    /// The identifier that the next modifier created will get.
    pub closed spec fn modifier_counter(&self) -> u64 {
        self.modifier_ids.upcoming()
    }

    /// The index of the people store agrees with its contents.
    pub closed spec fn store_ok(&self) -> bool {
        self.people.wf()
    }

    /// Person identifiers are unique, and every identifier in use lies below
    /// the counter of its allocator, so what the allocators hand out next is new.
    pub open spec fn wf(&self) -> bool {
        &&& self.store_ok()
        &&& unique_keys(self.people_of())
        &&& forall|i: int|
            0 <= i < self.people_of().len() ==> (#[trigger] self.people_of()[i]).wf()
                && self.people_of()[i].id_of().0 < self.person_counter()
                && self.people_of()[i].happiness_of().ids_below(self.modifier_counter())
    }

    /// A population of `initial_size` people, built in one pass with
    /// identifiers drawn from `person_ids` and `modifier_ids`, which the
    /// population keeps. It fails only when an allocator cannot cover every
    /// person.
    pub fn new(initial_size: usize, person_ids: IdAllocator, modifier_ids: IdAllocator) -> (r:
        Result<Self, SimError>)
        ensures
            person_ids.upcoming() + initial_size <= u64::MAX && modifier_ids.upcoming()
                + initial_size <= u64::MAX ==> (r matches Ok(p) && p.wf() && p.people_of().len()
                == initial_size && (forall|i: int|
                0 <= i < initial_size ==> (#[trigger] p.people_of()[i]).id_of() == PersonId(
                    (person_ids.upcoming() + i) as u64,
                )) && fresh_week(p.people_of(), modifier_ids.upcoming() as int)
                && p.person_counter() == person_ids.upcoming() + initial_size
                && p.modifier_counter() == modifier_ids.upcoming() + initial_size),
            person_ids.upcoming() + initial_size > u64::MAX || modifier_ids.upcoming()
                + initial_size > u64::MAX ==> r == Err::<Self, SimError>(SimError::IdsExhausted),
    {
        let mut pids = person_ids;
        let mut mids = modifier_ids;
        let p0 = pids.peek();
        let m0 = mids.peek();
        if u64::MAX - p0 < initial_size as u64 || u64::MAX - m0 < initial_size as u64 {
            return Err(SimError::IdsExhausted);
        }
        let mut people: KeyedStore<Person> = KeyedStore::new();
        let mut i: usize = 0;
        while i < initial_size
            invariant
                p0 == person_ids.upcoming(),
                m0 == modifier_ids.upcoming(),
                p0 + initial_size <= u64::MAX,
                m0 + initial_size <= u64::MAX,
                i <= initial_size,
                people.wf(),
                people@.len() == i,
                pids.upcoming() == p0 + i,
                mids.upcoming() == m0 + i,
                forall|j: int|
                    0 <= j < i ==> (#[trigger] people@[j]).id_of() == PersonId((p0 + j) as u64)
                        && people@[j].wf() && people@[j].happiness_of().ids_below(mids.upcoming()),
                fresh_week(people@, m0 as int),
            decreases initial_size - i,
        {
            let person = match Person::create(&mut pids, &mut mids) {
                Ok(person) => person,
                Err(e) => return Err(e),
            };
            proof {
                if has_key(people@, person.key_of()) {
                    let j = choose|j: int|
                        0 <= j < people@.len() && (#[trigger] people@[j]).key_of()
                            == person.key_of();
                    assert(people@[j].id_of() == PersonId((p0 + j) as u64));
                }
            }
            let ins = people.insert(person);
            assert(ins is Ok);
            i = i + 1;
        }
        Ok(Population { people, person_ids: pids, modifier_ids: mids })
    }

    /// The person with identifier `person_id`.
    pub fn person(&self, person_id: PersonId) -> (r: Result<&Person, SimError>)
        requires
            self.wf(),
        ensures
            has_key(self.people_of(), person_id.0) <==> r is Ok,
            !has_key(self.people_of(), person_id.0) ==> r == Err::<&Person, SimError>(
                SimError::NotFound,
            ),
            r matches Ok(p) ==> self.people_of().contains(*p) && p.id_of() == person_id,
            r matches Ok(p) ==> forall|i: int|
                0 <= i < self.people_of().len() && (#[trigger] self.people_of()[i]).id_of()
                    == person_id ==> *p == self.people_of()[i],
    {
        self.people.get(person_id.0)
    }

    /// The people, in the order they were created.
    pub fn people(&self) -> (r: &[Person])
        ensures
            r@ == self.people_of(),
    {
        self.people.as_slice()
    }

    /// Advances every person by one week, in order, each exactly once. The
    /// people and their identifiers stay as they were. When the modifier
    /// identifiers cannot cover every person, nothing changes.
    pub fn finish_week(&mut self) -> (r: Result<(), SimError>)
        requires
            old(self).wf(),
        ensures
            final(self).wf(),
            advanced_one_week(*old(self), *final(self), r),
    {
        let n = self.people.len();
        let c = self.modifier_ids.peek();
        if u64::MAX - c < n as u64 {
            return Err(SimError::IdsExhausted);
        }
        let mut i: usize = 0;
        while i < n
            invariant
                n == old(self).people@.len(),
                c == old(self).modifier_ids.upcoming(),
                c + n <= u64::MAX,
                i <= n,
                self.people.wf(),
                self.people@.len() == n,
                self.modifier_ids.upcoming() == c + i,
                forall|j: int|
                    0 <= j < n ==> (#[trigger] self.people@[j]).id_of() == old(self).people@[j].id_of()
                        && self.people@[j].wf() && self.people@[j].happiness_of().ids_below(
                        self.modifier_ids.upcoming(),
                    ),
                forall|j: int|
                    0 <= j < i ==> single_default(
                        (#[trigger] self.people@[j]).happiness_of().modifiers(),
                        (c + j) as u64,
                    ),
                forall|j: int| i <= j < n ==> #[trigger] self.people@[j] == old(self).people@[j],
                self.person_ids.upcoming() == old(self).person_ids.upcoming(),
                old(self).wf(),
            decreases n - i,
        {
            let p = self.people.get_mut_at(i);
            let r = p.finish_week(&mut self.modifier_ids);
            assert(r is Ok);
            i = i + 1;
        }
        assert forall|j: int, k: int|
            0 <= j < n && 0 <= k < old(self).people_of()[j].happiness_of().modifiers().len() implies (
            #[trigger] old(self).people_of()[j].happiness_of().modifiers()[k]).id_of()
                != self.people_of()[j].happiness_of().modifiers()[0].id_of() by {
            assert(old(self).people_of()[j].happiness_of().ids_below(c));
        }
        Ok(())
    }
}

/// The state of the whole simulation.
#[derive(Debug)]
pub struct GlobalState {
    population: Population,
}

impl GlobalState {
    pub closed spec fn population_of(&self) -> Population {
        self.population
    }

    pub open spec fn wf(&self) -> bool {
        self.population_of().wf()
    }

    /// The state used by the interactive application: five people, with the
    /// process's person and modifier allocators, which start here.
    pub fn new_debug_instance() -> (r: Self)
        ensures
            r.wf(),
            r.population_of().people_of().len() == 5,
            forall|i: int|
                0 <= i < 5 ==> (#[trigger] r.population_of().people_of()[i]).id_of() == PersonId(
                    (i + 1) as u64,
                ),
            fresh_week(r.population_of().people_of(), 1),
    {
        let r = Population::new(5, IdAllocator::new(), IdAllocator::new());
        assert(r is Ok);
        GlobalState { population: r.unwrap() }
    }

    pub fn population(&self) -> (r: &Population)
        ensures
            *r == self.population_of(),
    {
        &self.population
    }

    /// Advances the whole population by one week.
    pub fn finish_week(&mut self) -> (r: Result<(), SimError>)
        requires
            old(self).wf(),
        ensures
            final(self).wf(),
            advanced_one_week(old(self).population_of(), final(self).population_of(), r),
    {
        self.population.finish_week()
    }
}

} // verus!
