use resp_node::models::db::{AppData, InMemoryDb, Role};
use resp_node::node::startup::DEFAULT_LISTENING_PORT;

fn master_db() -> InMemoryDb {
    let app_data = AppData::new_master(
        DEFAULT_LISTENING_PORT,
        b"8371b4fb1155b71f4a04d3e1bc3e18c4a990aeeb".to_vec(),
    )
    .unwrap();
    InMemoryDb::new(app_data)
}

#[test]
fn new_store_is_empty_and_keeps_the_startup_data() {
    let mut db = master_db();
    assert_eq!(db.len(), 0);
    assert_eq!(db.listening_port(), 6379);
    assert_eq!(db.get_app_data_ref().listening_port(), 6379);
    assert!(!db.get_app_data_ref().is_replica());
    assert_eq!(
        db.role(),
        &Role::Master {
            replication_id: b"8371b4fb1155b71f4a04d3e1bc3e18c4a990aeeb".to_vec(),
            offset: 0
        }
    );
    assert_eq!(db.get(b"foo", 0), None);
}

#[test]
fn master_needs_a_replication_id_of_one_word() {
    assert!(AppData::new_master(6379, Vec::new()).is_none());
    assert!(AppData::new_master(6379, b"two words".to_vec()).is_none());
    assert!(AppData::new_master(6379, b"line\r\nbreak".to_vec()).is_none());
    assert!(AppData::new_master(6379, b"abc123".to_vec()).is_some());
}

#[test]
fn replica_keeps_the_address_of_its_master() {
    let app_data = AppData::new_replica(6380, b"localhost".to_vec(), 6379);
    assert!(app_data.is_replica());
    assert_eq!(app_data.listening_port(), 6380);
    let db = InMemoryDb::new(app_data);
    assert_eq!(
        db.role(),
        &Role::Replica { master_host: b"localhost".to_vec(), master_port: 6379 }
    );
    assert_eq!(db.listening_port(), 6380);
}

#[test]
fn get_returns_what_set_stored() {
    let mut db = master_db();
    db.set(b"foo".to_vec(), b"Hey world, I'm Joe!".to_vec(), None);
    assert_eq!(db.get(b"foo", 0), Some(b"Hey world, I'm Joe!".to_vec()));
    assert_eq!(db.get(b"foo", u64::MAX), Some(b"Hey world, I'm Joe!".to_vec()));
    assert_eq!(db.get(b"fo", 0), None);
    assert_eq!(db.get(b"FOO", 0), None);
    assert_eq!(db.len(), 1);
}

#[test]
fn set_replaces_an_earlier_value() {
    let mut db = master_db();
    db.set(b"foo".to_vec(), b"one".to_vec(), None);
    db.set(b"bar".to_vec(), b"two".to_vec(), None);
    db.set(b"foo".to_vec(), b"three".to_vec(), None);
    assert_eq!(db.len(), 2);
    assert_eq!(db.get(b"foo", 0), Some(b"three".to_vec()));
    assert_eq!(db.get(b"bar", 0), Some(b"two".to_vec()));
}

#[test]
fn set_replaces_an_earlier_deadline() {
    let mut db = master_db();
    db.set(b"foo".to_vec(), b"one".to_vec(), Some(10));
    db.set(b"foo".to_vec(), b"two".to_vec(), None);
    assert_eq!(db.get(b"foo", 1_000), Some(b"two".to_vec()));
    db.set(b"foo".to_vec(), b"three".to_vec(), Some(2_000));
    assert_eq!(db.get(b"foo", 1_999), Some(b"three".to_vec()));
    assert_eq!(db.get(b"foo", 2_000), None);
}

#[test]
fn value_is_gone_from_its_deadline_on() {
    let mut db = master_db();
    db.set(b"foo".to_vec(), b"bar".to_vec(), Some(1_100));
    assert_eq!(db.get(b"foo", 1_000), Some(b"bar".to_vec()));
    assert_eq!(db.get(b"foo", 1_099), Some(b"bar".to_vec()));
    assert_eq!(db.get(b"foo", 1_100), None);
}

#[test]
fn read_past_the_deadline_drops_the_entry() {
    let mut db = master_db();
    db.set(b"foo".to_vec(), b"bar".to_vec(), Some(1_100));
    db.set(b"other".to_vec(), b"stays".to_vec(), None);
    assert_eq!(db.len(), 2);
    assert_eq!(db.get(b"foo", 1_101), None);
    assert_eq!(db.len(), 1);
    assert_eq!(db.get(b"foo", 0), None);
    assert_eq!(db.get(b"other", 1_101), Some(b"stays".to_vec()));
}

#[test]
fn entry_past_its_deadline_stays_until_it_is_read() {
    let mut db = master_db();
    db.set(b"foo".to_vec(), b"bar".to_vec(), Some(5));
    assert_eq!(db.get(b"other", 1_000), None);
    assert_eq!(db.len(), 1);
    assert_eq!(db.get(b"foo", 4), Some(b"bar".to_vec()));
}

#[test]
fn sets_on_distinct_keys_lose_no_update() {
    let mut db = master_db();
    let count: usize = 200;
    let mut order: Vec<usize> = (0..count).collect();
    order.reverse();
    order.rotate_left(37);
    for i in &order {
        db.set(format!("key-{}", i).into_bytes(), format!("value-{}", i).into_bytes(), None);
    }
    assert_eq!(db.len(), count);
    for i in 0..count {
        assert_eq!(
            db.get(format!("key-{}", i).as_bytes(), 0),
            Some(format!("value-{}", i).into_bytes())
        );
    }
}

#[test]
fn sets_on_distinct_keys_commute() {
    let mut one = master_db();
    let mut other = master_db();
    for i in 0..50 {
        one.set(vec![i], vec![i, i], None);
    }
    for i in (0..50).rev() {
        other.set(vec![i], vec![i, i], None);
    }
    for i in 0..50 {
        assert_eq!(one.get(&[i], 0), other.get(&[i], 0));
        assert_eq!(one.get(&[i], 0), Some(vec![i, i]));
    }
    assert_eq!(one.len(), other.len());
}

#[test]
fn replica_settings_are_kept_in_the_order_received() {
    let mut db = master_db();
    assert!(db.replica_settings().is_empty());
    db.record_replica_setting(vec![b"listening-port".to_vec(), b"6380".to_vec()]);
    db.record_replica_setting(vec![b"capa".to_vec(), b"eof".to_vec(), b"psync2".to_vec()]);
    assert_eq!(
        db.replica_settings(),
        &vec![
            vec![b"listening-port".to_vec(), b"6380".to_vec()],
            vec![b"capa".to_vec(), b"eof".to_vec(), b"psync2".to_vec()],
        ]
    );
    assert_eq!(db.len(), 0);
    assert_eq!(db.listening_port(), 6379);
}

#[test]
fn keys_and_values_are_arbitrary_bytes() {
    let mut db = master_db();
    db.set(Vec::new(), b"empty key".to_vec(), None);
    db.set(vec![0, 13, 10, 255], Vec::new(), None);
    assert_eq!(db.get(b"", 0), Some(b"empty key".to_vec()));
    assert_eq!(db.get(&[0, 13, 10, 255], 0), Some(Vec::new()));
}
