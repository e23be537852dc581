use smik_jar_lib::properties::decode;
use smik_jar_lib::properties::encode;
use smik_jar_lib::string_map::comes_before;
use smik_jar_lib::string_map::StringMap;
use smik_jar_lib::JarError;

fn text(value: &str) -> String {
    value.to_string()
}

#[test]
fn a_new_map_is_empty() {
    let map: StringMap<String> = StringMap::new();
    assert!(map.is_empty());
    assert_eq!(map.len(), 0);
    assert_eq!(map.get(&text("a")), None);
    assert!(!map.contains_key(&text("a")));
}

#[test]
fn insert_puts_a_new_key_in_its_place() {
    let mut map: StringMap<String> = StringMap::new();
    assert_eq!(map.insert(text("b"), text("2")), None);
    assert_eq!(map.insert(text("a"), text("1")), None);
    assert_eq!(map.insert(text("c"), text("3")), None);
    assert_eq!(map.len(), 3);
    assert!(!map.is_empty());
    assert_eq!(map.key_at(0), "a");
    assert_eq!(map.value_at(0), "1");
    assert_eq!(map.key_at(1), "b");
    assert_eq!(map.value_at(1), "2");
    assert_eq!(map.key_at(2), "c");
    assert_eq!(map.get(&text("a")), Some(&text("1")));
    assert!(map.contains_key(&text("b")));
}

#[test]
fn insert_replaces_the_value_of_a_key_in_place() {
    let mut map: StringMap<String> = StringMap::new();
    map.insert(text("a"), text("1"));
    map.insert(text("b"), text("2"));
    map.insert(text("c"), text("3"));
    assert_eq!(map.insert(text("b"), text("20")), Some(text("2")));
    assert_eq!(map.len(), 3);
    assert_eq!(map.key_at(0), "a");
    assert_eq!(map.key_at(1), "b");
    assert_eq!(map.key_at(2), "c");
    assert_eq!(map.value_at(1), "20");
    assert_eq!(map.get(&text("a")), Some(&text("1")));
    assert_eq!(map.get(&text("c")), Some(&text("3")));
}

#[test]
fn insert_twice_is_insert_once() {
    let mut map: StringMap<String> = StringMap::new();
    map.insert(text("a"), text("1"));
    map.insert(text("b"), text("2"));
    map.insert(text("a"), text("1"));
    assert_eq!(map.len(), 2);
    assert_eq!(map.key_at(0), "a");
    assert_eq!(map.value_at(0), "1");
    assert_eq!(map.key_at(1), "b");
}

#[test]
fn remove_takes_the_key_out() {
    let mut map: StringMap<u32> = StringMap::new();
    map.insert(text("a"), 1);
    map.insert(text("b"), 2);
    map.insert(text("c"), 3);
    assert_eq!(map.remove(&text("b")), Some(2));
    assert_eq!(map.remove(&text("b")), None);
    assert_eq!(map.len(), 2);
    assert_eq!(map.key_at(0), "a");
    assert_eq!(map.key_at(1), "c");
    assert_eq!(map.get(&text("c")), Some(&3));
    assert_eq!(map.get(&text("b")), None);
}

#[test]
fn replace_value_at_swaps_the_value() {
    let mut map: StringMap<u32> = StringMap::new();
    map.insert(text("a"), 1);
    map.insert(text("b"), 2);
    assert_eq!(map.replace_value_at(0, 10), 1);
    assert_eq!(map.key_at(0), "a");
    assert_eq!(map.value_at(0), &10);
    assert_eq!(map.value_at(1), &2);
}

#[test]
fn decode_reads_the_pairs() {
    let mapping = decode(b"# comment\nb = 2\na:1\n! other comment\nc 3\n").unwrap();
    assert_eq!(mapping.len(), 3);
    assert_eq!(mapping.key_at(0), "a");
    assert_eq!(mapping.value_at(0), "1");
    assert_eq!(mapping.key_at(1), "b");
    assert_eq!(mapping.value_at(1), "2");
    assert_eq!(mapping.key_at(2), "c");
    assert_eq!(mapping.value_at(2), "3");
}

#[test]
fn decode_lets_a_later_line_replace_an_earlier_one() {
    let mapping = decode(b"a=1\nb=2\na=3\n").unwrap();
    assert_eq!(mapping.len(), 2);
    assert_eq!(mapping.key_at(0), "a");
    assert_eq!(mapping.value_at(0), "3");
    assert_eq!(mapping.key_at(1), "b");
    assert_eq!(mapping.value_at(1), "2");
}

#[test]
fn decode_of_nothing_is_the_empty_mapping() {
    assert!(decode(b"").unwrap().is_empty());
}

#[test]
fn decode_refuses_a_malformed_escape() {
    let error = decode(b"a=\\u12\n").err().unwrap();
    assert!(matches!(error, JarError::JavaProperties(_)));
    assert!(error.message().starts_with("Error parsing Java properties: "));
}

#[test]
fn encode_writes_one_line_per_pair() {
    let mut mapping: StringMap<String> = StringMap::new();
    mapping.insert(text("softwareVersion"), text("1.2.3"));
    mapping.insert(text("name"), text("demo"));
    assert_eq!(encode(&mapping).unwrap(), b"name=demo\nsoftwareVersion=1.2.3\n");
}

#[test]
fn encode_of_the_empty_mapping_is_empty() {
    let mapping: StringMap<String> = StringMap::new();
    assert_eq!(encode(&mapping).unwrap(), b"");
}

#[test]
fn encode_escapes_separators() {
    let mut mapping: StringMap<String> = StringMap::new();
    mapping.insert(text("a=b"), text("c:d e"));
    assert_eq!(encode(&mapping).unwrap(), b"a\\=b=c\\:d\\ e\n");
}

#[test]
fn decode_gives_back_what_encode_was_given() {
    let mut mapping: StringMap<String> = StringMap::new();
    mapping.insert(text("key with space"), text("value=with:separators"));
    mapping.insert(text("umlaut"), text("\u{e4}\u{f6}\u{fc}"));
    mapping.insert(text("chinese"), text("\u{4e2d}"));
    let decoded = decode(&encode(&mapping).unwrap()).unwrap();
    assert_eq!(decoded.len(), 3);
    assert_eq!(decoded.key_at(0), "chinese");
    assert_eq!(decoded.value_at(0), "\u{4e2d}");
    assert_eq!(decoded.key_at(1), "key with space");
    assert_eq!(decoded.value_at(1), "value=with:separators");
    assert_eq!(decoded.value_at(2), "\u{e4}\u{f6}\u{fc}");
}

#[test]
fn comes_before_orders_paths_by_their_components() {
    assert!(comes_before("a", "b"));
    assert!(!comes_before("b", "a"));
    assert!(!comes_before("a", "a"));
    assert!(comes_before("", "a"));
    assert!(!comes_before("", ""));
    assert!(comes_before("a", "a/b"));
    assert!(comes_before("a/b", "a-b"));
    assert!(!comes_before("a-b", "a/b"));
    assert!(comes_before("a/z", "ab/c"));
    assert!(comes_before("application-dev.properties", "application.properties"));
    assert!(comes_before("Z", "a"));
    assert!(comes_before("z", "\u{e4}"));
}

#[test]
fn the_keys_of_a_map_ascend_in_path_order() {
    let mut map: StringMap<u32> = StringMap::new();
    map.insert(text("lib-x/a"), 1);
    map.insert(text("lib/b"), 2);
    map.insert(text("lib/a"), 3);
    map.insert(text("lib"), 4);
    assert_eq!(map.key_at(0), "lib");
    assert_eq!(map.key_at(1), "lib/a");
    assert_eq!(map.key_at(2), "lib/b");
    assert_eq!(map.key_at(3), "lib-x/a");
    assert_eq!(map.get(&text("lib/b")), Some(&2));
}

#[test]
fn encode_writes_the_pairs_in_ascending_order() {
    let mut mapping: StringMap<String> = StringMap::new();
    mapping.insert(text("softwareVersion"), text("1"));
    mapping.insert(text("b"), text("2"));
    mapping.insert(text("a"), text("3"));
    assert_eq!(encode(&mapping).unwrap(), b"a=3\nb=2\nsoftwareVersion=1\n");
}
