use population_sim::{
    GlobalState, Happiness, HappinessModifier, HappinessModifierId, HappinessModifierKind,
    IdAllocator, KeyedStore, PersonId, Population, SimError,
};

fn modifier_ids_of(p: &Population) -> Vec<u64> {
    p.people()
        .iter()
        .map(|person| person.happiness().happiness_modifiers()[0].key().0)
        .collect()
}

#[test]
fn allocator_hands_out_increasing_ids() {
    let mut ids = IdAllocator::new();
    let mut seen = Vec::new();
    for _ in 0..100 {
        seen.push(ids.next().unwrap());
    }
    assert_eq!(seen[0], 1);
    for w in seen.windows(2) {
        assert!(w[0] < w[1]);
    }
    assert_eq!(ids.peek(), 101);
}

#[test]
fn allocator_fails_when_exhausted() {
    let mut ids = IdAllocator::starting_at(u64::MAX - 1);
    assert_eq!(ids.next(), Some(u64::MAX - 1));
    assert_eq!(ids.next(), None);
    assert_eq!(ids.next(), None);
    assert_eq!(ids.peek(), u64::MAX);
}

#[test]
fn store_insert_get_and_order() {
    let mut store: KeyedStore<HappinessModifier> = KeyedStore::new();
    for k in [7u64, 3, 9] {
        let m = HappinessModifier::with_id(HappinessModifierId(k), HappinessModifierKind::Default);
        assert_eq!(store.insert(m), Ok(()));
    }
    assert_eq!(store.len(), 3);
    let order: Vec<u64> = store.as_slice().iter().map(|m| m.key().0).collect();
    assert_eq!(order, vec![7, 3, 9]);
    for k in [7u64, 3, 9] {
        assert_eq!(store.get(k).unwrap().key(), HappinessModifierId(k));
        assert!(store.contains_key(k));
    }
    assert_eq!(store.get(4).unwrap_err(), SimError::NotFound);
    assert_eq!(store.get_at(1).key(), HappinessModifierId(3));
}

#[test]
fn store_rejects_duplicate_key() {
    let mut store: KeyedStore<HappinessModifier> = KeyedStore::new();
    let a = HappinessModifier::with_id(HappinessModifierId(5), HappinessModifierKind::Default);
    let b = HappinessModifier::with_id(HappinessModifierId(5), HappinessModifierKind::Default);
    assert_eq!(store.insert(a), Ok(()));
    assert_eq!(store.insert(b), Err(SimError::DuplicateKey));
    assert_eq!(store.len(), 1);
}

#[test]
fn store_clear_then_reuse() {
    let mut store: KeyedStore<HappinessModifier> = KeyedStore::new();
    for k in 1..=4u64 {
        let m = HappinessModifier::with_id(HappinessModifierId(k), HappinessModifierKind::Default);
        store.insert(m).unwrap();
    }
    store.clear();
    assert_eq!(store.len(), 0);
    assert_eq!(store.get(2).unwrap_err(), SimError::NotFound);
    assert!(!store.contains_key(2));
    let m = HappinessModifier::with_id(HappinessModifierId(2), HappinessModifierKind::Default);
    assert_eq!(store.insert(m), Ok(()));
    assert_eq!(store.get(2).unwrap().key(), HappinessModifierId(2));
}

#[test]
fn happiness_week_leaves_one_fresh_modifier() {
    let mut ids = IdAllocator::new();
    let mut h = Happiness::new_initial(&mut ids).unwrap();
    for _ in 0..3 {
        h.add_happiness_modifier(&mut ids).unwrap();
    }
    assert_eq!(h.happiness_modifiers().len(), 4);
    let before: Vec<u64> = h.happiness_modifiers().iter().map(|m| m.key().0).collect();
    h.finish_week(&mut ids).unwrap();
    let after = h.happiness_modifiers();
    assert_eq!(after.len(), 1);
    assert_eq!(after[0].kind(), HappinessModifierKind::Default);
    assert!(!before.contains(&after[0].key().0));
    assert_eq!(after[0].key(), HappinessModifierId(5));
    assert_eq!(h.total_happiness(), 50);
}

#[test]
fn happiness_week_with_exhausted_ids_changes_nothing() {
    let mut ids = IdAllocator::starting_at(u64::MAX - 1);
    let mut h = Happiness::new_initial(&mut ids).unwrap();
    assert_eq!(h.finish_week(&mut ids), Err(SimError::IdsExhausted));
    assert_eq!(h.happiness_modifiers().len(), 1);
    assert_eq!(h.happiness_modifiers()[0].key(), HappinessModifierId(u64::MAX - 1));
    assert_eq!(Happiness::new_initial(&mut ids).unwrap_err(), SimError::IdsExhausted);
}

#[test]
fn happiness_total_sums_contributions() {
    let mut ids = IdAllocator::new();
    let mut h = Happiness::new_initial(&mut ids).unwrap();
    h.add_happiness_modifier(&mut ids).unwrap();
    h.add_happiness_modifier(&mut ids).unwrap();
    assert_eq!(h.total_happiness(), 150);
    let m = h.modifier(HappinessModifierId(2)).unwrap();
    assert_eq!(m.happiness(), 50);
    assert_eq!(h.modifier(HappinessModifierId(4)).unwrap_err(), SimError::NotFound);
}

#[test]
fn happiness_duplicate_modifier_key() {
    let mut ids = IdAllocator::new();
    let mut h = Happiness::new_initial(&mut ids).unwrap();
    let a = HappinessModifier::with_id(HappinessModifierId(100), HappinessModifierKind::Default);
    let b = HappinessModifier::with_id(HappinessModifierId(100), HappinessModifierKind::Default);
    assert_eq!(h.insert_modifier(a), Ok(()));
    assert_eq!(h.insert_modifier(b), Err(SimError::DuplicateKey));
    assert_eq!(h.happiness_modifiers().len(), 2);
}

#[test]
fn contribution_of_default_kind() {
    let k = HappinessModifierKind::Default;
    assert_eq!(k.happiness(), 50);
    assert_eq!(k.happiness(), HappinessModifierKind::Default.happiness());
    assert_eq!(k.happiness() as f64 / 100.0, 0.5);
}

#[test]
fn person_create_draws_both_ids() {
    let mut person_ids = IdAllocator::starting_at(10);
    let mut modifier_ids = IdAllocator::starting_at(20);
    let p = population_sim::Person::create(&mut person_ids, &mut modifier_ids).unwrap();
    assert_eq!(p.key(), PersonId(10));
    assert_eq!(p.happiness().happiness_modifiers()[0].key(), HappinessModifierId(20));
    assert_eq!(person_ids.peek(), 11);
    assert_eq!(modifier_ids.peek(), 21);
    let mut spent = IdAllocator::starting_at(u64::MAX);
    let r = population_sim::Person::create(&mut person_ids, &mut spent);
    assert_eq!(r.unwrap_err(), SimError::IdsExhausted);
    assert_eq!(person_ids.peek(), 12);
}

#[test]
fn population_of_five_then_one_week() {
    let mut p = Population::new(5, IdAllocator::new(), IdAllocator::new()).unwrap();
    let ids: Vec<PersonId> = p.people().iter().map(|x| x.key()).collect();
    assert_eq!(ids.len(), 5);
    for i in 0..5 {
        for j in 0..5 {
            if i != j {
                assert_ne!(ids[i], ids[j]);
            }
        }
    }
    for person in p.people() {
        let mods = person.happiness().happiness_modifiers();
        assert_eq!(mods.len(), 1);
        assert_eq!(mods[0].kind(), HappinessModifierKind::Default);
        assert_eq!(mods[0].happiness(), 50);
        assert_eq!(mods[0].happiness() as f64 / 100.0, 0.5);
    }
    let before = modifier_ids_of(&p);
    p.finish_week().unwrap();
    let after_ids: Vec<PersonId> = p.people().iter().map(|x| x.key()).collect();
    assert_eq!(after_ids, ids);
    let after = modifier_ids_of(&p);
    for i in 0..5 {
        assert_ne!(before[i], after[i]);
        let person = p.person(ids[i]).unwrap();
        assert_eq!(person.happiness().happiness_modifiers().len(), 1);
        assert_eq!(person.happiness().total_happiness(), 50);
    }
}

#[test]
fn population_ids_are_numbered_in_order() {
    let p = Population::new(3, IdAllocator::new(), IdAllocator::new()).unwrap();
    let ids: Vec<u64> = p.people().iter().map(|x| x.key().0).collect();
    assert_eq!(ids, vec![1, 2, 3]);
    assert_eq!(modifier_ids_of(&p), vec![1, 2, 3]);
}

#[test]
fn population_week_advances_each_person_once() {
    let mut p = Population::new(4, IdAllocator::new(), IdAllocator::new()).unwrap();
    p.finish_week().unwrap();
    assert_eq!(modifier_ids_of(&p), vec![5, 6, 7, 8]);
    p.finish_week().unwrap();
    assert_eq!(modifier_ids_of(&p), vec![9, 10, 11, 12]);
}

#[test]
fn population_lookup_of_unknown_person() {
    let p = Population::new(5, IdAllocator::new(), IdAllocator::new()).unwrap();
    assert_eq!(p.person(PersonId(6)).unwrap_err(), SimError::NotFound);
    assert_eq!(p.person(PersonId(0)).unwrap_err(), SimError::NotFound);
    assert_eq!(p.person(PersonId(3)).unwrap().key(), PersonId(3));
}

#[test]
fn empty_population() {
    let mut p = Population::new(0, IdAllocator::new(), IdAllocator::new()).unwrap();
    assert_eq!(p.people().len(), 0);
    assert_eq!(p.finish_week(), Ok(()));
}

#[test]
fn global_state_debug_instance() {
    let mut g = GlobalState::new_debug_instance();
    assert_eq!(g.population().people().len(), 5);
    g.finish_week().unwrap();
    assert_eq!(g.population().people().len(), 5);
    assert_eq!(g.population().person(PersonId(2)).unwrap().key(), PersonId(2));
}

#[test]
fn population_draws_ids_from_given_allocators() {
    let p = Population::new(3, IdAllocator::starting_at(40), IdAllocator::starting_at(70)).unwrap();
    let ids: Vec<u64> = p.people().iter().map(|x| x.key().0).collect();
    assert_eq!(ids, vec![40, 41, 42]);
    assert_eq!(modifier_ids_of(&p), vec![70, 71, 72]);
}

#[test]
fn population_fails_when_allocators_cannot_cover() {
    let r = Population::new(3, IdAllocator::starting_at(u64::MAX - 2), IdAllocator::new());
    assert_eq!(r.unwrap_err(), SimError::IdsExhausted);
    let r = Population::new(2, IdAllocator::new(), IdAllocator::starting_at(u64::MAX - 1));
    assert_eq!(r.unwrap_err(), SimError::IdsExhausted);
    let p = Population::new(2, IdAllocator::starting_at(u64::MAX - 2), IdAllocator::new()).unwrap();
    assert_eq!(p.people()[1].key(), PersonId(u64::MAX - 1));
}

#[test]
fn population_week_fails_without_changes_when_modifier_ids_run_short() {
    let mut p = Population::new(3, IdAllocator::new(), IdAllocator::starting_at(u64::MAX - 4)).unwrap();
    let before = modifier_ids_of(&p);
    assert_eq!(p.finish_week(), Err(SimError::IdsExhausted));
    assert_eq!(modifier_ids_of(&p), before);
}
