use higher::{Bifunctor, BifunctorLeft, BifunctorRight};
use std::collections::{BTreeMap, HashMap};

#[test]
fn bimap_result_applies_left_to_success() {
    let r: Result<i32, String> = Ok(4);
    let out = r.bimap(|a| a * 2, |e: String| e.len());
    assert_eq!(out, Ok(8));
}

#[test]
fn bimap_result_applies_right_to_error() {
    let r: Result<i32, String> = Err("four".to_string());
    let out = r.bimap(|a| a * 2, |e: String| e.len());
    assert_eq!(out, Err(4));
}

#[test]
fn bimap_result_never_calls_the_other_side() {
    let ok: Result<u8, u8> = Ok(1);
    let out = ok.bimap(|a| a + 1, |_e| -> u8 { panic!("right called on a success") });
    assert_eq!(out, Ok(2));
    let err: Result<u8, u8> = Err(1);
    let out = err.bimap(|_a| -> u8 { panic!("left called on an error") }, |e| e + 1);
    assert_eq!(out, Err(2));
}

#[test]
fn lmap_is_bimap_with_identity() {
    let ok: Result<i32, &str> = Ok(3);
    assert_eq!(ok.lmap(|a| a + 1), ok.bimap(|a| a + 1, |e| e));
    assert_eq!(ok.lmap(|a| a + 1), Ok(4));
    let err: Result<i32, &str> = Err("e");
    assert_eq!(err.lmap(|a| a + 1), err.bimap(|a| a + 1, |e| e));
    assert_eq!(err.lmap(|a| a + 1), Err("e"));
}

#[test]
fn rmap_is_bimap_with_identity() {
    let ok: Result<i32, &str> = Ok(3);
    assert_eq!(ok.rmap(|e: &str| e.len()), ok.bimap(|a| a, |e: &str| e.len()));
    assert_eq!(ok.rmap(|e: &str| e.len()), Ok(3));
    let err: Result<i32, &str> = Err("err");
    assert_eq!(err.rmap(|e: &str| e.len()), err.bimap(|a| a, |e: &str| e.len()));
    assert_eq!(err.rmap(|e: &str| e.len()), Err(3));
}

#[test]
fn bimap_hash_map_maps_keys_and_values() {
    let mut m: HashMap<u32, &str> = HashMap::new();
    m.insert(1, "a");
    m.insert(2, "bb");
    m.insert(3, "ccc");
    let out = m.bimap(|k| k.to_string(), |v: &str| v.len());
    let mut want: HashMap<String, usize> = HashMap::new();
    want.insert("1".to_string(), 1);
    want.insert("2".to_string(), 2);
    want.insert("3".to_string(), 3);
    assert_eq!(out, want);
}

#[test]
fn bimap_hash_map_keeps_len_without_collisions() {
    let mut m: HashMap<u64, u64> = HashMap::new();
    for k in 0..50u64 {
        m.insert(k, k * k);
    }
    let out = m.bimap(|k| k + 1000, |v| v + 1);
    assert_eq!(out.len(), 50);
    assert_eq!(out.get(&1007), Some(&50));
    assert_eq!(out.get(&7), None);
}

#[test]
fn bimap_hash_map_collisions_lose_entries() {
    let mut m: HashMap<u32, u32> = HashMap::new();
    m.insert(1, 10);
    m.insert(2, 20);
    m.insert(3, 30);
    let out = m.bimap(|k| k % 2, |v| v);
    assert_eq!(out.len(), 2);
    assert_eq!(out.get(&0), Some(&20));
    let odd = out.get(&1).copied();
    assert!(odd == Some(10) || odd == Some(30));
}

#[test]
fn bimap_empty_hash_map() {
    let m: HashMap<u8, u8> = HashMap::new();
    let out = m.bimap(|k| u32::from(k), |v| v.to_string());
    assert!(out.is_empty());
}

#[test]
fn lmap_hash_map_maps_keys_only() {
    let mut m: HashMap<u8, char> = HashMap::new();
    m.insert(1, 'a');
    m.insert(2, 'b');
    let out = m.lmap(|k| u16::from(k) * 100);
    let mut want: HashMap<u16, char> = HashMap::new();
    want.insert(100, 'a');
    want.insert(200, 'b');
    assert_eq!(out, want);
}

#[test]
fn rmap_hash_map_maps_values_only() {
    let mut m: HashMap<u8, char> = HashMap::new();
    m.insert(1, 'a');
    m.insert(2, 'b');
    let out = m.rmap(|v: char| v.to_ascii_uppercase());
    let mut want: HashMap<u8, char> = HashMap::new();
    want.insert(1, 'A');
    want.insert(2, 'B');
    assert_eq!(out, want);
}

#[test]
fn bimap_btree_map_sorts_by_the_new_keys() {
    let mut m: BTreeMap<i32, &str> = BTreeMap::new();
    m.insert(1, "one");
    m.insert(2, "two");
    m.insert(3, "three");
    let out = m.bimap(|k| -k, |v: &str| v.len());
    assert_eq!(out.into_iter().collect::<Vec<_>>(), vec![(-3, 5), (-2, 3), (-1, 3)]);
}

#[test]
fn bimap_btree_map_last_written_wins_in_old_key_order() {
    let mut m: BTreeMap<u32, &str> = BTreeMap::new();
    m.insert(5, "five");
    m.insert(1, "one");
    m.insert(3, "three");
    m.insert(4, "four");
    let out = m.bimap(|k| k % 2, |v| v);
    assert_eq!(out.into_iter().collect::<Vec<_>>(), vec![(0, "four"), (1, "five")]);
}

#[test]
fn lmap_btree_map_is_bimap_with_identity() {
    let mut m: BTreeMap<u8, u8> = BTreeMap::new();
    m.insert(1, 10);
    m.insert(2, 20);
    let by_lmap = m.clone().lmap(|k| k + 1);
    let by_bimap = m.bimap(|k| k + 1, |v| v);
    assert_eq!(by_lmap, by_bimap);
    assert_eq!(by_lmap.into_iter().collect::<Vec<_>>(), vec![(2, 10), (3, 20)]);
}

#[test]
fn rmap_btree_map_is_bimap_with_identity() {
    let mut m: BTreeMap<u8, u8> = BTreeMap::new();
    m.insert(1, 10);
    m.insert(2, 20);
    let by_rmap = m.clone().rmap(|v| v / 10);
    let by_bimap = m.bimap(|k| k, |v| v / 10);
    assert_eq!(by_rmap, by_bimap);
    assert_eq!(by_rmap.into_iter().collect::<Vec<_>>(), vec![(1, 1), (2, 2)]);
}
