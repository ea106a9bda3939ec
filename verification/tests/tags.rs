use lipics_filter::tags::{add_keyval, add_tag, extend_keyvals, extend_tags, keyval_map, tag_set};

fn strings(items: &[&str]) -> Vec<String> {
    items.iter().map(|s| s.to_string()).collect()
}

fn pairs(items: &[(&str, &str)]) -> Vec<(String, String)> {
    items.iter().map(|(k, v)| (k.to_string(), v.to_string())).collect()
}

fn sorted<T: Ord>(mut items: Vec<T>) -> Vec<T> {
    items.sort();
    items
}

#[test]
fn a_tag_is_added_once() {
    let mut tags = strings(&["theorem"]);
    add_tag(&mut tags, "wide".to_string());
    add_tag(&mut tags, "theorem".to_string());
    add_tag(&mut tags, "wide".to_string());
    assert_eq!(sorted(tags), strings(&["theorem", "wide"]));
}

#[test]
fn tag_set_drops_repetitions() {
    let set = tag_set(&strings(&["b", "a", "b", "c", "a"]));
    assert_eq!(sorted(set), strings(&["a", "b", "c"]));
    assert!(tag_set(&vec![]).is_empty());
}

#[test]
fn extend_tags_is_the_union() {
    let mut tags = strings(&["a", "b"]);
    extend_tags(&mut tags, &strings(&["b", "c", "c"]));
    assert_eq!(sorted(tags), strings(&["a", "b", "c"]));
}

#[test]
fn a_pair_replaces_the_pair_with_its_key() {
    let mut map = pairs(&[("a", "1"), ("b", "2"), ("c", "3")]);
    add_keyval(&mut map, "b".to_string(), "20".to_string());
    add_keyval(&mut map, "d".to_string(), "4".to_string());
    assert_eq!(sorted(map), pairs(&[("a", "1"), ("b", "20"), ("c", "3"), ("d", "4")]));
}

#[test]
fn keyval_map_keeps_the_last_value_of_each_key() {
    let map = keyval_map(&pairs(&[("a", "1"), ("b", "2"), ("a", "3"), ("a", "4")]));
    assert_eq!(sorted(map), pairs(&[("a", "4"), ("b", "2")]));
    assert!(keyval_map(&vec![]).is_empty());
}

#[test]
fn extend_keyvals_writes_over_earlier_values() {
    let mut map = pairs(&[("a", "1"), ("b", "2")]);
    extend_keyvals(&mut map, &pairs(&[("b", "3"), ("c", "4"), ("c", "5")]));
    assert_eq!(sorted(map), pairs(&[("a", "1"), ("b", "3"), ("c", "5")]));
}
