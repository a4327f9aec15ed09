use globals::GlobalConst;
use globals::GlobalConstExt;
use globals::GlobalVar;
use globals::GlobalVarExt;

#[test]
fn var_trait_surface_roundtrip() {
    let cell = GlobalVar::new_unrestricted(|| 0u64);
    GlobalVarExt::set(&cell, 11);
    assert_eq!(GlobalVarExt::get(&cell), 11);
    GlobalVarExt::update(&cell, |n: u64| n + 1);
    assert_eq!(GlobalVarExt::get(&cell), 12);
    let half = GlobalVarExt::get_with(&cell, |n: &u64| n / 2);
    assert_eq!(half, 6);
}

#[test]
fn const_trait_surface_reads() {
    let cell = GlobalConst::new(|| 21u64);
    assert_eq!(GlobalConstExt::get(&cell), 21);
    let doubled = GlobalConstExt::get_with(&cell, |n: &u64| n * 2);
    assert_eq!(doubled, 42);
}
