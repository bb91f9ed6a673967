use std::collections::HashMap;

use commons::map::ContainsKeyValue;

#[test]
fn contains_key_value() {
    // given
    let map: HashMap<u32, u32> = HashMap::from_iter([(123, 456)]);

    // then
    assert!(map.contains_key_value(&123, &456));
}

#[test]
fn contains_key_with_different_value() {
    // given
    let map: HashMap<u32, u32> = HashMap::from_iter([(123, 123)]);

    // when
    assert!(!map.contains_key_value(&123, &456));
}

#[test]
fn does_not_contain_key() {
    // given
    let map: HashMap<u32, u32> = HashMap::from_iter([(456, 123)]);

    // then
    assert!(!map.contains_key_value(&123, &456));
}
