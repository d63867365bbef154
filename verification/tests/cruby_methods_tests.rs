use std::collections::HashMap;
use zjit::cruby_methods::{FnProperties, MethodEntry, annotate_c_method, init};

#[test]
fn init_records_the_stock_methods() {
    let annotations = init(10, 20, 30, 40);
    let props = FnProperties { no_gc: true, leaf: true };
    assert_eq!(
        annotations.get_cfunc_properties(&MethodEntry::CFunc { func: 10 }),
        Some(props)
    );
    assert_eq!(
        annotations.get_cfunc_properties(&MethodEntry::CFunc { func: 40 }),
        Some(props)
    );
}

#[test]
fn unrecorded_native_methods_have_no_properties() {
    let annotations = init(10, 20, 30, 40);
    assert_eq!(
        annotations.get_cfunc_properties(&MethodEntry::CFunc { func: 99 }),
        None
    );
}

#[test]
fn non_native_methods_have_no_properties() {
    let annotations = init(10, 20, 30, 40);
    assert_eq!(annotations.get_cfunc_properties(&MethodEntry::Other), None);
}

#[test]
fn annotations_can_be_overwritten() {
    let mut map: HashMap<u64, FnProperties> = HashMap::new();
    annotate_c_method(&mut map, 5, FnProperties { no_gc: true, leaf: false });
    annotate_c_method(&mut map, 5, FnProperties { no_gc: false, leaf: true });
    assert_eq!(map.get(&5), Some(&FnProperties { no_gc: false, leaf: true }));
    assert_eq!(map.len(), 1);
}

#[test]
fn default_properties_promise_nothing() {
    let d: FnProperties = Default::default();
    assert!(!d.no_gc);
    assert!(!d.leaf);
}
