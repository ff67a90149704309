use bina_ecs::field::Modifier;
use bina_ecs::field::NumberField;
use bina_ecs::store::chunk_ranges;
use bina_ecs::store::Component;
use bina_ecs::store::ComponentStore;

struct Health {
    hp: NumberField<u32>,
}

impl Health {
    fn new(hp: u32) -> Health {
        Health { hp: NumberField::new(hp) }
    }
}

impl Component for Health {
    fn flush(&mut self) {
        self.hp.process_modifiers();
    }
}

#[test]
fn named_add_registers_and_resolves() {
    let mut s: ComponentStore<Health> = ComponentStore::new();
    assert!(s.queue_add_named_component(Health::new(30), 77).is_ok());
    s.flush();
    let r = s.get_component(77).unwrap();
    assert!(s.is_alive(&r));
    assert_eq!(r.id, 0);
}

#[test]
fn duplicate_name_is_returned_to_caller() {
    let mut s: ComponentStore<Health> = ComponentStore::new();
    assert!(s.queue_add_named_component(Health::new(1), 5).is_ok());
    // a name staged this same tick is already taken
    let back = s.queue_add_named_component(Health::new(2), 5);
    assert!(back.is_err());
    assert_eq!(back.err().unwrap().hp.get(), 2);
    s.flush();
    // and so is a registered one
    let back = s.queue_add_named_component(Health::new(3), 5);
    assert!(back.is_err());
    assert_eq!(back.err().unwrap().hp.get(), 3);
}

#[test]
fn freed_component_releases_its_name() {
    let mut s: ComponentStore<Health> = ComponentStore::new();
    assert!(s.queue_add_named_component(Health::new(9), 42).is_ok());
    s.flush();
    let r = s.get_component(42).unwrap();
    s.queue_free_component(0);
    s.flush();
    assert!(!s.is_alive(&r));
    assert!(s.get_component(42).is_none());
    // the name is reusable once its component is gone
    assert!(s.queue_add_named_component(Health::new(10), 42).is_ok());
    s.flush();
    let r2 = s.get_component(42).unwrap();
    assert!(s.is_alive(&r2));
    assert_eq!(r2.id, 1);
}

#[test]
fn unnamed_adds_and_index_lookup() {
    let mut s: ComponentStore<Health> = ComponentStore::new();
    s.queue_add_unnamed_component(Health::new(3));
    s.queue_add_unnamed_component(Health::new(4));
    assert!(s.get_component_by_index(0).is_none());
    s.flush();
    assert_eq!(s.len(), 2);
    assert_eq!(s.get_component_by_index(0).unwrap().hp.get(), 3);
    assert_eq!(s.get_component_by_index(1).unwrap().hp.get(), 4);
    assert!(s.get_component_by_index(2).is_none());
}

#[test]
fn store_flush_commits_staged_fields() {
    let mut s: ComponentStore<Health> = ComponentStore::new();
    s.queue_add_unnamed_component(Health::new(50));
    s.flush();
    // stage a field mutation; the authoritative value holds until the
    // store's flush runs every component's own flush
    s.get_component_by_index_mut(0).hp.queue_modifier(Modifier::Sub(20));
    assert_eq!(s.get_component_by_index(0).unwrap().hp.get(), 50);
    s.flush();
    assert_eq!(s.get_component_by_index(0).unwrap().hp.get(), 30);
}

#[test]
fn out_of_range_free_is_ignored() {
    let mut s: ComponentStore<Health> = ComponentStore::new();
    s.queue_add_unnamed_component(Health::new(1));
    s.flush();
    s.queue_free_component(8);
    s.flush();
    assert_eq!(s.len(), 1);
}

#[test]
fn store_conservation_with_names() {
    let mut s: ComponentStore<Health> = ComponentStore::new();
    assert!(s.queue_add_named_component(Health::new(1), 100).is_ok());
    s.queue_add_unnamed_component(Health::new(2));
    assert!(s.queue_add_named_component(Health::new(3), 101).is_ok());
    s.flush();
    assert_eq!(s.len(), 3);
    s.queue_free_component(1);
    s.queue_free_component(1);
    s.flush();
    assert_eq!(s.len(), 2);
    // both named components survive: only the unnamed one was freed
    assert!(s.get_component(100).is_some());
    assert!(s.get_component(101).is_some());
}

#[test]
fn chunk_ranges_cover_exactly() {
    let r = chunk_ranges(10, 4);
    assert_eq!(r, vec![(0, 4), (4, 8), (8, 10)]);
    let r = chunk_ranges(0, 3);
    assert!(r.is_empty());
    let r = chunk_ranges(5, 5);
    assert_eq!(r, vec![(0, 5)]);
    let r = chunk_ranges(3, 100);
    assert_eq!(r, vec![(0, 3)]);
}
