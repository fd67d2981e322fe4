use plaintext_server::lock::Lock;
use plaintext_server::slots::{SlotError, SlotTable, SLOT_COUNT};

#[test]
fn lock_round_trip() {
    let mut l = Lock::new(5u32);
    {
        let mut g = l.try_lock().unwrap();
        assert_eq!(*g.get(), 5);
        *g.get_mut() = 7;
        g.release();
    }
    let g = l.try_lock().unwrap();
    assert_eq!(*g.get(), 7);
    g.release();
}

#[test]
fn a_forgotten_guard_keeps_the_lock() {
    let mut l = Lock::new(1u8);
    let g = l.try_lock().unwrap();
    std::mem::forget(g);
    assert!(l.try_lock().is_none());
}

#[test]
fn fresh_table_takes_all_but_one_slot() {
    let mut t: SlotTable<u32> = SlotTable::new();
    for i in 0..(SLOT_COUNT - 1) {
        assert_eq!(t.insert_status(), Ok(()));
        assert_eq!(t.insert(i as u32), i + 1);
    }
    assert_eq!(t.insert_status(), Err(SlotError::Full));
    let g = t.lock(SLOT_COUNT - 1).unwrap();
    assert_eq!(*g.get(), Some((SLOT_COUNT - 2) as u32));
    g.release();
    let g = t.lock(SLOT_COUNT).unwrap();
    assert_eq!(*g.get(), None);
    g.release();
}

#[test]
fn remove_undoes_insert() {
    let mut t: SlotTable<&str> = SlotTable::new();
    let a = t.insert("a");
    let b = t.insert("b");
    assert_eq!((a, b), (1, 2));
    let mut g = t.lock(b).unwrap();
    *g.get_mut() = None;
    g.release();
    t.remove(b);
    assert_eq!(t.insert_status(), Ok(()));
    assert_eq!(t.insert("c"), 2);
    let g = t.lock(2).unwrap();
    assert_eq!(*g.get(), Some("c"));
    g.release();
}

#[test]
fn lock_rejects_bad_tokens() {
    let mut t: SlotTable<u8> = SlotTable::new();
    assert!(t.lock(0).is_none());
    assert!(t.lock(SLOT_COUNT + 1).is_none());
}

#[test]
fn locked_head_slot_refuses_insert() {
    let mut t: SlotTable<u8> = SlotTable::new();
    let g = t.lock(1).unwrap();
    std::mem::forget(g);
    assert_eq!(t.insert_status(), Err(SlotError::Locked));
}

#[test]
fn freeing_slot_zero_then_another_blocks_the_free_list() {
    // Freeing the first slot and then a second one threads the second to the
    // first through the value that also marks a slot in use, so the next
    // placement finds the head "in use".
    let mut t: SlotTable<u8> = SlotTable::new();
    let a = t.insert(1);
    let b = t.insert(2);
    for tok in [a, b] {
        let mut g = t.lock(tok).unwrap();
        *g.get_mut() = None;
        g.release();
    }
    t.remove(a);
    t.remove(b);
    assert_eq!(t.insert_status(), Err(SlotError::Busy));
}

#[test]
fn tables_stay_sound() {
    let mut t: SlotTable<u8> = SlotTable::new();
    assert!(t.is_sound());
    let a = t.insert(1);
    assert!(t.is_sound());
    t.remove(a);
    assert!(t.is_sound());
}

#[test]
fn a_freed_slot_is_taken_next() {
    let mut t: SlotTable<u8> = SlotTable::new();
    let _a = t.insert(1);
    let b = t.insert(2);
    let c = t.insert(3);
    assert_eq!((b, c), (2, 3));
    let mut g = t.lock(b).unwrap();
    *g.get_mut() = None;
    g.release();
    t.remove(b);
    assert_eq!(t.insert(4), b);
    assert_eq!(t.insert(5), 4);
}
