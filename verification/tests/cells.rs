use globals::GlobalConst;
use globals::GlobalVar;
use std::cell::Cell;
use std::rc::Rc;

#[test]
fn lazy_var_realizes_initializer_value() {
    let cell = GlobalVar::new_unrestricted(|| 41u64);
    assert_eq!(cell.get(), 41);
}

#[test]
fn set_then_get_returns_value() {
    let cell = GlobalVar::new_unrestricted(|| 0u64);
    cell.set(7);
    assert_eq!(cell.get(), 7);
}

#[test]
fn last_set_wins() {
    let cell = GlobalVar::new_unrestricted(|| 0u64);
    cell.set(1);
    cell.set(2);
    assert_eq!(cell.get(), 2);
}

#[test]
fn updates_accumulate() {
    let counter = GlobalVar::new_unrestricted(|| 0u64);
    for _ in 0..100 {
        counter.update(|n| n + 1);
    }
    assert_eq!(counter.get(), 100);
}

#[test]
fn update_initializes_then_applies() {
    let cell = GlobalVar::new_unrestricted(|| 10u64);
    cell.update(|n| n * 2);
    assert_eq!(cell.get(), 20);
}

#[test]
fn get_with_observes_current_value() {
    let cell = GlobalVar::new_unrestricted(String::new);
    cell.set(String::from("abc"));
    let len = cell.get_with(|s: &String| s.len());
    assert_eq!(len, 3);
}

#[test]
fn set_skips_initializer() {
    let calls = Rc::new(Cell::new(0u32));
    let seen = calls.clone();
    let cell = GlobalVar::new_unrestricted(move || {
        seen.set(seen.get() + 1);
        0u64
    });
    cell.set(5);
    assert_eq!(cell.get(), 5);
    assert_eq!(calls.get(), 0);
}

#[test]
fn var_initializer_runs_once() {
    let calls = Rc::new(Cell::new(0u32));
    let seen = calls.clone();
    let cell = GlobalVar::new_unrestricted(move || {
        seen.set(seen.get() + 1);
        3u64
    });
    assert_eq!(cell.get(), 3);
    assert_eq!(cell.get(), 3);
    let doubled = cell.get_with(|n: &u64| n * 2);
    assert_eq!(doubled, 6);
    assert_eq!(calls.get(), 1);
}

#[test]
fn const_initializer_runs_once() {
    let calls = Rc::new(Cell::new(0u32));
    let seen = calls.clone();
    let cell = GlobalConst::new(move || {
        seen.set(seen.get() + 1);
        String::from("config-v1")
    });
    for _ in 0..10 {
        assert_eq!(cell.get(), "config-v1");
    }
    assert_eq!(calls.get(), 1);
}

#[test]
fn const_get_with_sees_realized_value() {
    let cell = GlobalConst::new(|| 6u64);
    let plus_one = cell.get_with(|n: &u64| n + 1);
    assert_eq!(plus_one, 7);
}

#[test]
fn nested_readers_share_access() {
    let cell = GlobalVar::new_unrestricted(|| 4u64);
    cell.set(4);
    let sum = cell.get_with(|a: &u64| {
        let outer = *a;
        cell.get_with(|b: &u64| outer + *b)
    });
    assert_eq!(sum, 8);
}

#[test]
fn distinct_cells_are_independent() {
    let first = GlobalVar::new_unrestricted(|| 1u64);
    let second = GlobalVar::new_unrestricted(|| 2u64);
    first.set(9);
    assert_eq!(first.get(), 9);
    assert_eq!(second.get(), 2);
}

#[test]
fn get_returns_a_clone() {
    let cell = GlobalVar::new_unrestricted(|| String::from("shared"));
    let a = cell.get();
    let b = cell.get();
    assert_eq!(a, "shared");
    assert_eq!(b, "shared");
    cell.set(String::from("changed"));
    assert_eq!(a, "shared");
}
