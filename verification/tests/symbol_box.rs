use orco::symbol_box::{SymbolBox, SymbolRef};

struct A;
struct B;

#[test]
fn test_box() {
    let mut symbol_box = SymbolBox::<A, B>::new(A);
    assert!(symbol_box.references().len() == 0);

    let symbol_ref = symbol_box.new_ref(B);
    assert!(symbol_box.references().len() == 1);
    assert!(symbol_ref.object().is_some());

    drop(symbol_box);
    assert!(symbol_ref.object().is_none());
}

#[test]
fn test_ref() {
    let mut symbol_box = SymbolBox::<A, B>::new(A);
    assert!(symbol_box.references().len() == 0);

    let symbol_ref = symbol_box.new_ref(B);
    assert!(symbol_box.references().len() == 1);
    assert!(symbol_ref.object().is_some());

    drop(symbol_ref);
    assert!(symbol_box.references().len() == 0);
}

#[test]
fn symbol_box_test_safety_drop_ref() {
    let mut symbol_box = SymbolBox::<A, B>::new(A);
    assert!(symbol_box.references().len() == 0);
    assert!(symbol_box.object_strong_count() == 1);
    assert!(symbol_box.object_weak_count() == 0);

    let symbol_ref = symbol_box.new_ref(B);
    assert!(symbol_box.references().len() == 1);
    assert!(symbol_box.object_strong_count() == 1);
    assert!(symbol_box.object_weak_count() == 1);

    drop(symbol_ref);
    assert!(symbol_box.references().len() == 0);
    assert!(symbol_box.object_strong_count() == 1);
    assert!(symbol_box.object_weak_count() == 0);
}

#[test]
fn symbol_box_test_safety_drop_box() {
    let mut symbol_box = SymbolBox::<A, B>::new(A);
    let symbol_ref = symbol_box.new_ref(B);
    assert!(symbol_ref.handler_strong_count() == 1);
    assert!(symbol_ref.handler_weak_count() == 1);

    drop(symbol_box);
    assert!(symbol_ref.handler_strong_count() == 1);
    assert!(symbol_ref.handler_weak_count() == 0);
    assert!(symbol_ref.object().is_none());
}

#[test]
fn keep_alive_keeps_what_upgraded() {
    let mut symbol_box = SymbolBox::<u32, u32>::new(1);
    let first = symbol_box.new_ref(10);
    let second = symbol_box.new_ref(20);
    let third = symbol_box.new_ref(30);
    drop(second);
    let guards = symbol_box.references();
    assert_eq!(guards.len(), 2);
    assert_eq!(*guards[0].0.read().unwrap(), 10);
    assert_eq!(*guards[1].0.read().unwrap(), 30);
    drop(guards);
    drop(first);
    assert_eq!(symbol_box.references().len(), 1);
    drop(third);
    assert_eq!(symbol_box.references().len(), 0);
}

#[test]
fn unbound_reference_sees_nothing() {
    let symbol_ref = SymbolRef::<u32, u32>::new(1);
    assert!(symbol_ref.object().is_none());
    let mut symbol_box = SymbolBox::<u32, u32>::new(5);
    let mut r = SymbolRef::new(2);
    r.bind(&mut symbol_box);
    assert_eq!(*r.object().unwrap().0.read().unwrap(), 5);
    *symbol_box.object().write().unwrap() = 6;
    assert_eq!(*r.object().unwrap().0.read().unwrap(), 6);
    let guards = symbol_box.references();
    assert_eq!(guards.len(), 1);
    assert_eq!(*guards[0].0.read().unwrap(), 2);
}

#[test]
fn box_and_reference_locks_hold_their_values() {
    let mut symbol_box: SymbolBox<i32, i32> = SymbolBox::new(42);
    let symbol_ref = symbol_box.new_ref(7);
    *symbol_box.object().try_write().unwrap() = 69;
    assert_eq!(*symbol_box.object().try_read().unwrap(), 69);
    assert_eq!(*symbol_ref.handler().try_read().unwrap(), 7);
    assert_eq!(*symbol_ref.object().unwrap().0.try_read().unwrap(), 69);
}
