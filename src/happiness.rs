use crate::error::SimError;
use crate::ids::{issues, HappinessModifierId, IdAllocator};
use crate::store::{has_key, unique_keys, Keyed, KeyedStore};
use vstd::prelude::*;

verus! {

/// The closed set of reasons a modifier can exist.
#[derive(Debug, Clone, Copy, PartialEq, Eq, Structural)]
pub enum HappinessModifierKind {
    Default,
}

/// Contribution of a modifier of kind `k` to happiness, in percentage points.
pub open spec fn contribution(k: HappinessModifierKind) -> nat {
    match k {
        HappinessModifierKind::Default => 50,
    }
}

impl HappinessModifierKind {
    /// Contribution to happiness, in percentage points (50 means one half).
    pub fn happiness(&self) -> (r: u32)
        ensures
            r == contribution(*self),
    {
        match self {
            HappinessModifierKind::Default => 50,
        }
    }
}

/// Every kind has a contribution, the same one each time, and it lies
/// between 1 and 100 percentage points.
pub proof fn lemma_contribution_total(a: HappinessModifierKind, b: HappinessModifierKind)
    requires
        a == b,
    ensures
        contribution(a) == contribution(b),
        0 < contribution(a) <= 100,
{
}

/// One contribution to a person's happiness for the current week.
#[derive(Debug)]
pub struct HappinessModifier {
    id: HappinessModifierId,
    kind: HappinessModifierKind,
}

impl HappinessModifier {
    pub closed spec fn id_of(&self) -> HappinessModifierId {
        self.id
    }

    pub closed spec fn kind_of(&self) -> HappinessModifierKind {
        self.kind
    }

    /// A modifier with an identifier chosen by the caller.
    pub fn with_id(id: HappinessModifierId, kind: HappinessModifierKind) -> (r: Self)
        ensures
            r.id_of() == id,
            r.kind_of() == kind,
    {
        HappinessModifier { id, kind }
    }

    /// A modifier of kind `kind` with a fresh identifier from `ids`.
    pub fn create(kind: HappinessModifierKind, ids: &mut IdAllocator) -> (r: Result<Self, SimError>)
        ensures
            old(ids).upcoming() < u64::MAX ==> (r matches Ok(m) && issues(
                old(ids).upcoming(),
                m.id_of().0,
                final(ids).upcoming(),
            ) && m.kind_of() == kind),
            old(ids).upcoming() == u64::MAX ==> r == Err::<Self, SimError>(SimError::IdsExhausted)
                && final(ids).upcoming() == old(ids).upcoming(),
    {
        match ids.next() {
            Some(v) => Ok(HappinessModifier { id: HappinessModifierId(v), kind }),
            None => Err(SimError::IdsExhausted),
        }
    }

    pub fn key(&self) -> (r: HappinessModifierId)
        ensures
            r == self.id_of(),
    {
        self.id
    }

    pub fn kind(&self) -> (r: HappinessModifierKind)
        ensures
            r == self.kind_of(),
    {
        self.kind
    }

    /// Contribution to happiness, in percentage points.
    pub fn happiness(&self) -> (r: u32)
        ensures
            r == contribution(self.kind_of()),
    {
        self.kind.happiness()
    }
}

impl Keyed for HappinessModifier {
    open spec fn key_of(&self) -> u64 {
        self.id_of().0
    }

    fn store_key(&self) -> (k: u64) {
        self.id.0
    }
}

/// Sum of the contributions of the modifiers in `s`, in percentage points.
pub open spec fn total_of(s: Seq<HappinessModifier>) -> nat
    decreases s.len(),
{
    if s.len() == 0 {
        0
    } else {
        total_of(s.drop_last()) + contribution(s.last().kind_of())
    }
}

/// `s` holds exactly one modifier, of kind `Default`, with identifier `id`.
pub open spec fn single_default(s: Seq<HappinessModifier>, id: u64) -> bool {
    &&& s.len() == 1
    &&& s[0].id_of() == HappinessModifierId(id)
    &&& s[0].kind_of() == HappinessModifierKind::Default
}

/// A person's happiness: the modifiers that make it up this week.
#[derive(Debug)]
pub struct Happiness {
    happiness_modifiers: KeyedStore<HappinessModifier>,
}

impl Happiness {
    /// The modifiers, in insertion order.
    pub closed spec fn modifiers(&self) -> Seq<HappinessModifier> {
        self.happiness_modifiers@
    }

    /// The index of the modifier store agrees with its contents.
    pub closed spec fn store_ok(&self) -> bool {
        self.happiness_modifiers.wf()
    }

    /// No two modifiers share an identifier, and the store is consistent.
    pub open spec fn wf(&self) -> bool {
        self.store_ok() && unique_keys(self.modifiers())
    }

    /// Every modifier identifier lies below `bound`.
    pub open spec fn ids_below(&self, bound: u64) -> bool {
        forall|i: int|
            0 <= i < self.modifiers().len() ==> (#[trigger] self.modifiers()[i]).id_of().0 < bound
    }

    /// A happiness holding one `Default` modifier with a fresh identifier.
    pub fn new_initial(ids: &mut IdAllocator) -> (r: Result<Self, SimError>)
        ensures
            old(ids).upcoming() < u64::MAX ==> (r matches Ok(h) && h.wf() && single_default(
                h.modifiers(),
                old(ids).upcoming(),
            ) && final(ids).upcoming() == old(ids).upcoming() + 1),
            old(ids).upcoming() == u64::MAX ==> r == Err::<Self, SimError>(SimError::IdsExhausted)
                && final(ids).upcoming() == old(ids).upcoming(),
    {
        let m = HappinessModifier::create(HappinessModifierKind::Default, ids)?;
        let mut store = KeyedStore::new();
        let ins = store.insert(m);
        assert(ins is Ok);
        assert(store@ =~= seq![m]);
        Ok(Happiness { happiness_modifiers: store })
    }

    /// Inserts a modifier built by the caller; its identifier must be new
    /// to this happiness.
    pub fn insert_modifier(&mut self, m: HappinessModifier) -> (r: Result<(), SimError>)
        requires
            old(self).wf(),
        ensures
            final(self).wf(),
            has_key(old(self).modifiers(), m.id_of().0) ==> r == Err::<(), SimError>(
                SimError::DuplicateKey,
            ) && final(self).modifiers() == old(self).modifiers(),
            !has_key(old(self).modifiers(), m.id_of().0) ==> r is Ok && final(self).modifiers()
                == old(self).modifiers().push(m),
    {
        self.happiness_modifiers.insert(m)
    }

    /// Adds a `Default` modifier with a fresh identifier from `ids`.
    pub fn add_happiness_modifier(&mut self, ids: &mut IdAllocator) -> (r: Result<(), SimError>)
        requires
            old(self).wf(),
            old(self).ids_below(old(ids).upcoming()),
        ensures
            final(self).wf(),
            final(self).ids_below(final(ids).upcoming()),
            old(ids).upcoming() < u64::MAX ==> (r is Ok && final(ids).upcoming() == old(ids).upcoming()
                + 1 && final(self).modifiers().len() == old(self).modifiers().len() + 1
                && final(self).modifiers().drop_last() == old(self).modifiers()
                && final(self).modifiers().last().id_of() == HappinessModifierId(old(ids).upcoming())
                && final(self).modifiers().last().kind_of() == HappinessModifierKind::Default
                && forall|i: int|
                0 <= i < old(self).modifiers().len() ==> (#[trigger] old(self).modifiers()[i]).id_of().0
                    < final(self).modifiers().last().id_of().0),
            old(ids).upcoming() == u64::MAX ==> r == Err::<(), SimError>(SimError::IdsExhausted)
                && final(ids).upcoming() == old(ids).upcoming() && final(self).modifiers()
                == old(self).modifiers(),
    {
        let m = HappinessModifier::create(HappinessModifierKind::Default, ids)?;
        proof {
            if has_key(self.modifiers(), m.id_of().0) {
                let i = choose|i: int|
                    0 <= i < self.modifiers().len() && (#[trigger] self.modifiers()[i]).key_of()
                        == m.id_of().0;
                assert(self.modifiers()[i].id_of().0 < old(ids).upcoming());
            }
        }
        let r = self.happiness_modifiers.insert(m);
        assert(self.modifiers().drop_last() =~= old(self).modifiers());
        r
    }

    /// The week's recomputation: all modifiers are dropped and one fresh
    /// `Default` modifier is added. Nothing changes when `ids` is exhausted.
    pub fn finish_week(&mut self, ids: &mut IdAllocator) -> (r: Result<(), SimError>)
        requires
            old(self).wf(),
        ensures
            final(self).wf(),
            old(ids).upcoming() < u64::MAX ==> (r is Ok && single_default(
                final(self).modifiers(),
                old(ids).upcoming(),
            ) && final(ids).upcoming() == old(ids).upcoming() + 1),
            old(ids).upcoming() == u64::MAX ==> r == Err::<(), SimError>(SimError::IdsExhausted)
                && final(ids).upcoming() == old(ids).upcoming() && final(self).modifiers()
                == old(self).modifiers(),
    {
        let m = HappinessModifier::create(HappinessModifierKind::Default, ids)?;
        self.happiness_modifiers.clear();
        let ins = self.happiness_modifiers.insert(m);
        assert(ins is Ok);
        assert(self.modifiers() =~= seq![m]);
        Ok(())
    }

    /// The modifier with identifier `id`.
    pub fn modifier(&self, id: HappinessModifierId) -> (r: Result<&HappinessModifier, SimError>)
        requires
            self.wf(),
        ensures
            has_key(self.modifiers(), id.0) <==> r is Ok,
            !has_key(self.modifiers(), id.0) ==> r == Err::<&HappinessModifier, SimError>(
                SimError::NotFound,
            ),
            r matches Ok(m) ==> self.modifiers().contains(*m) && m.id_of() == id,
            r matches Ok(m) ==> forall|i: int|
                0 <= i < self.modifiers().len() && (#[trigger] self.modifiers()[i]).id_of() == id
                    ==> *m == self.modifiers()[i],
    {
        self.happiness_modifiers.get(id.0)
    }

    /// The modifiers, in insertion order.
    pub fn happiness_modifiers(&self) -> (r: &[HappinessModifier])
        ensures
            r@ == self.modifiers(),
    {
        self.happiness_modifiers.as_slice()
    }

    /// Sum of all modifiers' contributions, in percentage points.
    pub fn total_happiness(&self) -> (r: u128)
        ensures
            r == total_of(self.modifiers()),
    {
        let s = self.happiness_modifiers.as_slice();
        let mut total: u128 = 0;
        let mut i: usize = 0;
        while i < s.len()
            invariant
                s@ == self.modifiers(),
                i <= s@.len(),
                total == total_of(s@.subrange(0, i as int)),
                total <= 100 * i,
            decreases s@.len() - i,
        {
            assert(s@.subrange(0, i + 1).drop_last() =~= s@.subrange(0, i as int));
            let c = s[i].happiness();
            total = total + c as u128;
            i = i + 1;
        }
        assert(s@.subrange(0, i as int) =~= s@);
        total
    }
}

} // verus!

verus! {

/// A week's recomputation leaves exactly one modifier however many there were
/// before, and its identifier is new: when every earlier identifier lay below
/// the allocator's counter, the one drawn from that counter matches none of
/// them.
pub proof fn lemma_week_leaves_one_fresh_modifier(before: Happiness, after: Happiness, counter: u64)
    requires
        before.ids_below(counter),
        single_default(after.modifiers(), counter),
    ensures
        after.modifiers().len() == 1,
        after.modifiers()[0].kind_of() == HappinessModifierKind::Default,
        total_of(after.modifiers()) == 50,
        forall|i: int|
            0 <= i < before.modifiers().len() ==> (#[trigger] before.modifiers()[i]).id_of()
                != after.modifiers()[0].id_of(),
{
    let s = after.modifiers();
    assert(s.drop_last().len() == 0);
    assert(total_of(s.drop_last()) == 0);
}

} // verus!
