use bina_ecs::buffer::EntityBuffer;
use bina_ecs::buffer::EntityIndex;
use bina_ecs::entity::Entity;
use bina_ecs::registry::UniqueTypeSet;
use bina_ecs::universe::Effects;

struct Blob(u32);

struct NoSing;

impl Entity<NoSing, ()> for Blob {
    fn process(&self, _my_index: usize, _s: &UniqueTypeSet<NoSing>, _fx: &mut Effects<Self, NoSing, ()>) {
    }

    fn flush(&mut self) {
    }
}

fn filled(values: &[u32]) -> EntityBuffer<Blob> {
    let mut b = EntityBuffer::new();
    for v in values {
        b.queue_add_entity(Blob(*v));
    }
    b.flush::<NoSing, ()>();
    b
}

#[test]
fn adds_appear_in_order_after_flush() {
    let b = filled(&[10, 11, 12]);
    assert_eq!(b.len(), 3);
    assert_eq!(b.entity_at(0).0, 10);
    assert_eq!(b.entity_at(1).0, 11);
    assert_eq!(b.entity_at(2).0, 12);
    assert!(b.cell(0) == EntityIndex::Alive(0));
    assert!(b.cell(1) == EntityIndex::Alive(1));
    assert!(b.cell(2) == EntityIndex::Alive(2));
}

#[test]
fn adds_invisible_before_flush() {
    let mut b = EntityBuffer::new();
    b.queue_add_entity(Blob(1));
    assert_eq!(b.len(), 0);
    b.flush::<NoSing, ()>();
    assert_eq!(b.len(), 1);
}

#[test]
fn index_stability_under_swap_remove() {
    // three entities at indices [0, 1, 2]; removing 0 and 2 in one tick
    // leaves exactly one entity, and it occupies index 0
    let mut b = filled(&[10, 11, 12]);
    b.queue_remove_entity(0);
    b.queue_remove_entity(2);
    b.flush::<NoSing, ()>();
    assert_eq!(b.len(), 1);
    assert_eq!(b.entity_at(0).0, 11);
    assert_eq!(b.id_at(0), 1);
    assert!(b.cell(0) == EntityIndex::Freed);
    assert!(b.cell(1) == EntityIndex::Alive(0));
    assert!(b.cell(2) == EntityIndex::Freed);
}

#[test]
fn add_remove_conservation() {
    // length after flush = previous length + adds - distinct valid removes
    let mut b = filled(&[1, 2, 3]);
    b.queue_remove_entity(0);
    b.queue_remove_entity(1);
    b.queue_remove_entity(1);
    b.queue_remove_entity(9);
    b.queue_add_entity(Blob(4));
    b.queue_add_entity(Blob(5));
    b.flush::<NoSing, ()>();
    assert_eq!(b.len(), 3);
}

#[test]
fn idempotent_removal() {
    let mut once = filled(&[7, 8, 9]);
    once.queue_remove_entity(1);
    once.flush::<NoSing, ()>();

    let mut twice = filled(&[7, 8, 9]);
    twice.queue_remove_entity(1);
    twice.queue_remove_entity(1);
    twice.flush::<NoSing, ()>();

    assert_eq!(once.len(), twice.len());
    for i in 0..once.len() {
        assert_eq!(once.entity_at(i).0, twice.entity_at(i).0);
        assert_eq!(once.id_at(i), twice.id_at(i));
    }
}

#[test]
fn freed_cell_stays_freed() {
    let mut b = filled(&[5, 6]);
    b.queue_remove_entity(0);
    b.flush::<NoSing, ()>();
    assert!(!b.is_alive(0));
    // later ticks with more churn never revive the freed cell
    b.queue_add_entity(Blob(7));
    b.queue_remove_entity(0);
    b.flush::<NoSing, ()>();
    assert!(!b.is_alive(0));
    assert!(b.cell(0) == EntityIndex::Freed);
}

#[test]
fn quiescent_flush_is_a_no_op() {
    let mut b = filled(&[1, 2]);
    b.flush::<NoSing, ()>();
    assert_eq!(b.len(), 2);
    assert_eq!(b.entity_at(0).0, 1);
    assert_eq!(b.entity_at(1).0, 2);
    assert!(b.cell(0) == EntityIndex::Alive(0));
    assert!(b.cell(1) == EntityIndex::Alive(1));
}

#[test]
fn out_of_range_removal_is_ignored() {
    let mut b = filled(&[1]);
    b.queue_remove_entity(3);
    b.flush::<NoSing, ()>();
    assert_eq!(b.len(), 1);
    assert_eq!(b.entity_at(0).0, 1);
}

#[test]
fn removing_last_entity_pops() {
    let mut b = filled(&[1, 2]);
    b.queue_remove_entity(1);
    b.flush::<NoSing, ()>();
    assert_eq!(b.len(), 1);
    assert_eq!(b.entity_at(0).0, 1);
    assert!(b.cell(0) == EntityIndex::Alive(0));
    assert!(b.cell(1) == EntityIndex::Freed);
}
