use pandora_core::nbt::{NumericValue, TagType, NBT, TAG_COMPOUND_ID, TAG_STRING_ID};

fn make_servers_nbt(count: usize) -> NBT {
    let mut nbt = NBT::new_named("".into());
    let mut root = nbt.as_compound_mut().unwrap();
    let mut list = root.create_list("servers", TAG_COMPOUND_ID);
    for i in 0..count {
        let mut entry = list.create_compound();
        entry.insert_string("ip", format!("192.168.0.{i}"));
        entry.insert_string("name", format!("server{i}"));
    }
    nbt
}

#[test]
fn remove_index_basic() {
    let mut nbt = make_servers_nbt(3);
    let mut root = nbt.as_compound_mut().unwrap();
    let mut list = root.find_list_mut("servers", TAG_COMPOUND_ID).unwrap();
    assert_eq!(list.len(), 3);
    assert!(list.remove_index(1));
    assert_eq!(list.len(), 2);
    // remaining should be server0 and server2
    assert_eq!(list.get(0).unwrap().as_compound().unwrap().find_string("name").unwrap(), "server0");
    assert_eq!(list.get(1).unwrap().as_compound().unwrap().find_string("name").unwrap(), "server2");
    drop(list);
    drop(root);
    let root = nbt.as_compound().unwrap();
    let servers = root.find_list("servers", TAG_COMPOUND_ID).unwrap();
    assert_eq!(servers.len(), 2);
}

#[test]
fn remove_index_out_of_range_false() {
    let mut nbt = make_servers_nbt(2);
    let mut root = nbt.as_compound_mut().unwrap();
    let mut list = root.find_list_mut("servers", TAG_COMPOUND_ID).unwrap();
    assert!(!list.remove_index(5));
    assert!(!list.remove_index(2));
    assert_eq!(list.len(), 2);
}

#[test]
fn remove_index_subtree_cleanup() {
    // each server entry is a compound with its own children; removing should delete subtree
    let mut nbt = make_servers_nbt(2);
    {
        let mut root = nbt.as_compound_mut().unwrap();
        let mut list = root.find_list_mut("servers", TAG_COMPOUND_ID).unwrap();
        assert!(list.remove_index(0));
        assert_eq!(list.len(), 1);
    }
    // after removal we can add new entries without slab corruption
    {
        let mut root = nbt.as_compound_mut().unwrap();
        let mut list = root.find_list_mut("servers", TAG_COMPOUND_ID).unwrap();
        let mut entry = list.create_compound();
        entry.insert_string("ip", "10.0.0.1".into());
        entry.insert_string("name", "new".into());
        assert_eq!(list.len(), 2);
    }
    let root = nbt.as_compound().unwrap();
    let servers = root.find_list("servers", TAG_COMPOUND_ID).unwrap();
    assert_eq!(servers.len(), 2);
    let names: Vec<String> = servers
        .iter()
        .into_iter()
        .map(|r| r.as_compound().unwrap().find_string("name").unwrap().clone())
        .collect();
    assert_eq!(names, vec!["server1".to_string(), "new".to_string()]);
}

#[test]
fn move_index_reorder() {
    let mut nbt = make_servers_nbt(3);
    let mut root = nbt.as_compound_mut().unwrap();
    let mut list = root.find_list_mut("servers", TAG_COMPOUND_ID).unwrap();
    assert!(list.move_index(0, 2));
    // order should be 1,2,0
    assert_eq!(list.get(0).unwrap().as_compound().unwrap().find_string("name").unwrap(), "server1");
    assert_eq!(list.get(1).unwrap().as_compound().unwrap().find_string("name").unwrap(), "server2");
    assert_eq!(list.get(2).unwrap().as_compound().unwrap().find_string("name").unwrap(), "server0");
    assert!(list.move_index(2, 0));
    assert_eq!(list.get(0).unwrap().as_compound().unwrap().find_string("name").unwrap(), "server0");
    assert!(!list.move_index(0, 0));
    assert!(!list.move_index(5, 0));
}

#[test]
fn a_stored_value_is_read_back() {
    let mut nbt = NBT::new();
    {
        let mut root = nbt.as_compound_mut().unwrap();
        root.insert_int("count", 7);
        root.insert_string("title", "hello".into());
        root.insert_int("count", 9);
        root.insert_byte("flag", -1);
        root.insert_long("big", 1 << 40);
    }
    let root = nbt.as_compound().unwrap();
    assert_eq!(root.find_int("count"), Some(&9));
    assert_eq!(root.find_string("title").map(|s| s.as_str()), Some("hello"));
    assert_eq!(root.find_byte("flag"), Some(&-1));
    assert_eq!(root.find_int("title"), None);
    assert_eq!(root.find_int("missing"), None);
    assert_eq!(root.find_numeric("big"), Some(NumericValue::Long(1 << 40)));
    assert_eq!(root.find_numeric("flag"), Some(NumericValue::Byte(-1)));
    assert_eq!(root.find_numeric("title"), None);
}

#[test]
fn entries_come_sorted_by_key() {
    let mut nbt = NBT::new();
    {
        let mut root = nbt.as_compound_mut().unwrap();
        root.insert_int("zeta", 1);
        root.insert_int("alpha", 2);
        root.insert_int("mid", 3);
    }
    let root = nbt.as_compound().unwrap();
    let keys: Vec<&str> = root.entries().into_iter().map(|(k, _)| k).collect();
    assert_eq!(keys, vec!["alpha", "mid", "zeta"]);
}

#[test]
fn lists_are_found_only_with_their_element_type() {
    let mut nbt = NBT::new();
    {
        let mut root = nbt.as_compound_mut().unwrap();
        let names = root.create_list("names", TAG_STRING_ID);
        assert_eq!(names.len(), 0);
    }
    let root = nbt.as_compound().unwrap();
    assert!(root.find_list("names", TAG_STRING_ID).is_some());
    assert!(root.find_list("names", TAG_COMPOUND_ID).is_none());
    assert!(root.find_compound("names").is_none());
}

#[test]
fn tag_ids_round_trip() {
    for id in 0u8..13 {
        let t = TagType::from_id(id).unwrap();
        assert_eq!(t.id(), id);
    }
    assert_eq!(TagType::from_id(13), None);
    assert_eq!(TAG_COMPOUND_ID.id(), 10);
}

#[test]
fn documents_compare_by_content() {
    let a = make_servers_nbt(2);
    let b = make_servers_nbt(2);
    let c = make_servers_nbt(3);
    assert!(a.eq(&b));
    assert!(!a.eq(&c));
    assert!(a.as_reference() == b.as_reference());
    let ra = a.as_compound().unwrap();
    let rc = c.as_compound().unwrap();
    assert!(ra != rc);
    let la = ra.find_list("servers", TAG_COMPOUND_ID).unwrap();
    let rb = b.as_compound().unwrap();
    let lb = rb.find_list("servers", TAG_COMPOUND_ID).unwrap();
    assert!(la == lb);
}

#[test]
fn floats_compare_as_floats() {
    let mut a = NBT::new();
    let mut b = NBT::new();
    {
        let mut root = a.as_compound_mut().unwrap();
        root.insert_float("zero", 0.0f32.to_bits());
        root.insert_double("nan", f64::NAN.to_bits());
    }
    {
        let mut root = b.as_compound_mut().unwrap();
        root.insert_float("zero", (-0.0f32).to_bits());
        root.insert_double("nan", f64::NAN.to_bits());
    }
    assert!(a.eq(&b));
    {
        let mut root = b.as_compound_mut().unwrap();
        root.insert_float("zero", 1.0f32.to_bits());
    }
    assert!(!a.eq(&b));
}
