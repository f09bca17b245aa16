use respkv::config::get_default_config;
use respkv::keymap::RespMap;
use respkv::misc::{clock_reading_ms, get_current_ms, Db, Server};
use respkv::resp::Resp;

fn store_key(name: &[u8]) -> Resp {
    Resp::rbs_from_bytes(name)
}

#[test]
fn a_map_keeps_one_value_per_key() {
    let mut map: RespMap<u128> = RespMap::new();
    assert_eq!(map.get(&store_key(b"a")), None);
    assert!(!map.contains_key(&store_key(b"a")));
    assert_eq!(map.insert(store_key(b"a"), 1), None);
    assert_eq!(map.insert(store_key(b"b"), 2), None);
    assert_eq!(map.insert(store_key(b"a"), 3), Some(1));
    assert_eq!(map.get(&store_key(b"a")), Some(&3));
    assert_eq!(map.get(&store_key(b"b")), Some(&2));
    assert!(map.contains_key(&store_key(b"b")));
    assert_eq!(map.remove(&store_key(b"a")), Some(3));
    assert_eq!(map.remove(&store_key(b"a")), None);
    assert_eq!(map.get(&store_key(b"a")), None);
    assert_eq!(map.get(&store_key(b"b")), Some(&2));
    map.clear();
    assert_eq!(map.get(&store_key(b"b")), None);
}

#[test]
fn a_map_tells_keys_apart_by_kind() {
    let mut map: RespMap<u128> = RespMap::new();
    assert_eq!(map.insert(Resp::rbs_from_bytes(b"1"), 10), None);
    assert_eq!(map.insert(Resp::rss_from_static_bytes(b"1"), 20), None);
    assert_eq!(map.insert(Resp::Integer(1), 30), None);
    assert_eq!(map.get(&Resp::rbs_from_bytes(b"1")), Some(&10));
    assert_eq!(map.get(&Resp::rss_from_static_bytes(b"1")), Some(&20));
    assert_eq!(map.get(&Resp::Integer(1)), Some(&30));
    assert_eq!(map.get(&Resp::res_from_bytes(b"1")), None);
}

#[test]
fn a_map_entry_reads_and_writes_in_place() {
    let mut map: RespMap<u128> = RespMap::new();
    {
        let slot = map.entry(store_key(b"n"), 5);
        assert_eq!(*slot, 5);
        *slot += 1;
    }
    assert_eq!(map.get(&store_key(b"n")), Some(&6));
    {
        let slot = map.entry(store_key(b"n"), 100);
        assert_eq!(*slot, 6);
        *slot = 9;
    }
    assert_eq!(map.get(&store_key(b"n")), Some(&9));
}

#[test]
fn set_value_hands_back_what_was_there() {
    let mut db = Db::new();
    assert_eq!(db.set_value(store_key(b"k"), Resp::Integer(1)), None);
    assert_eq!(db.set_value(store_key(b"k"), Resp::Integer(2)), Some(Resp::Integer(1)));
    assert_eq!(db.get_value_at(&store_key(b"k"), 0), Some(&Resp::Integer(2)));
    assert_eq!(db.get_value_at(&store_key(b"other"), 0), None);
}

#[test]
fn set_value_leaves_the_expiry_alone() {
    let mut db = Db::new();
    db.set_value(store_key(b"k"), Resp::Integer(1));
    assert_eq!(db.set_expiry(store_key(b"k"), 500), None);
    db.set_value(store_key(b"k"), Resp::Integer(2));
    assert_eq!(db.get_expiry(&store_key(b"k")), Some(&500));
    assert_eq!(db.get_value_at(&store_key(b"k"), 499), Some(&Resp::Integer(2)));
    assert_eq!(db.get_value_at(&store_key(b"k"), 500), None);
}

#[test]
fn remove_value_takes_value_and_expiry() {
    let mut db = Db::new();
    db.set_value(store_key(b"k"), Resp::Integer(1));
    db.set_expiry(store_key(b"k"), 500);
    assert_eq!(db.remove_value(&store_key(b"k")), Some(Resp::Integer(1)));
    assert_eq!(db.remove_value(&store_key(b"k")), None);
    assert!(!db.contains_expiry(&store_key(b"k")));
    assert!(!db.contains_value_at(&store_key(b"k"), 0));
}

#[test]
fn a_key_is_gone_from_its_expiry_on() {
    let mut db = Db::new();
    db.set_value(store_key(b"k"), Resp::Integer(1));
    db.set_expiry(store_key(b"k"), 1000);
    assert!(db.contains_value_at(&store_key(b"k"), 999));
    assert!(db.contains_expiry(&store_key(b"k")));
    assert!(!db.contains_value_at(&store_key(b"k"), 1000));
    assert!(!db.contains_expiry(&store_key(b"k")));
    assert!(!db.contains_value_at(&store_key(b"k"), 0));
}

#[test]
fn looking_at_one_key_does_not_expire_another() {
    let mut db = Db::new();
    db.set_value(store_key(b"a"), Resp::Integer(1));
    db.set_value(store_key(b"b"), Resp::Integer(2));
    db.set_expiry(store_key(b"a"), 10);
    assert_eq!(db.get_value_at(&store_key(b"b"), 50), Some(&Resp::Integer(2)));
    assert!(db.contains_expiry(&store_key(b"a")));
    assert_eq!(db.get_value_at(&store_key(b"a"), 5), Some(&Resp::Integer(1)));
}

#[test]
fn contains_expiry_never_expires() {
    let mut db = Db::new();
    db.set_value(store_key(b"k"), Resp::Integer(1));
    db.set_expiry(store_key(b"k"), 1);
    assert!(db.contains_expiry(&store_key(b"k")));
    assert_eq!(db.get_expiry(&store_key(b"k")), Some(&1));
    assert_eq!(db.remove_expiry(&store_key(b"k")), Some(1));
    assert_eq!(db.remove_expiry(&store_key(b"k")), None);
    assert_eq!(db.get_value_at(&store_key(b"k"), u128::MAX), Some(&Resp::Integer(1)));
}

#[test]
fn set_expiry_hands_back_the_old_one() {
    let mut db = Db::new();
    assert_eq!(db.set_expiry(store_key(b"k"), 7), None);
    assert_eq!(db.set_expiry(store_key(b"k"), 8), Some(7));
    assert_eq!(db.get_expiry(&store_key(b"k")), Some(&8));
}

#[test]
fn entries_read_and_write_in_place() {
    let mut db = Db::new();
    {
        let slot = db.entry_value(store_key(b"n"), Resp::Integer(0));
        assert_eq!(*slot, Resp::Integer(0));
        *slot = Resp::Integer(1);
    }
    assert_eq!(db.get_value_at(&store_key(b"n"), 0), Some(&Resp::Integer(1)));
    {
        let slot = db.entry_value(store_key(b"n"), Resp::Integer(0));
        assert_eq!(*slot, Resp::Integer(1));
    }
    {
        let when = db.entry_expiry(store_key(b"n"), 40);
        assert_eq!(*when, 40);
        *when = 41;
    }
    assert_eq!(db.get_expiry(&store_key(b"n")), Some(&41));
}

#[test]
fn clear_empties_both_maps() {
    let mut db = Db::new();
    db.set_value(store_key(b"k"), Resp::Integer(1));
    db.set_expiry(store_key(b"k"), 1000);
    db.clear();
    assert!(!db.contains_value_at(&store_key(b"k"), 0));
    assert!(!db.contains_expiry(&store_key(b"k")));
    let mut fresh = Db::default();
    assert!(!fresh.contains_value_at(&store_key(b"k"), 0));
}

#[test]
fn the_clock_reads_a_time_of_this_century() {
    let now = get_current_ms();
    assert!(now > 1_600_000_000_000);
    assert!(now < 10_000_000_000_000);
}

#[test]
fn a_clock_before_the_epoch_reads_as_zero() {
    assert_eq!(clock_reading_ms(None), 0);
    assert_eq!(clock_reading_ms(Some(0)), 0);
    assert_eq!(clock_reading_ms(Some(1_700_000_000_123)), 1_700_000_000_123);
    assert_eq!(clock_reading_ms(Some(u128::MAX)), u128::MAX);
}

#[test]
fn reads_by_the_wall_clock() {
    let mut db = Db::new();
    db.set_value(store_key(b"past"), Resp::Integer(1));
    db.set_expiry(store_key(b"past"), 1);
    db.set_value(store_key(b"future"), Resp::Integer(2));
    db.set_expiry(store_key(b"future"), u128::MAX);
    db.set_value(store_key(b"plain"), Resp::Integer(3));
    assert_eq!(db.get_value(&store_key(b"past")), None);
    assert_eq!(db.get_value(&store_key(b"future")), Some(&Resp::Integer(2)));
    assert_eq!(db.get_value(&store_key(b"plain")), Some(&Resp::Integer(3)));
    assert!(!db.contains_value(&store_key(b"past")));
    assert!(db.contains_value(&store_key(b"future")));
    assert!(!db.contains_value(&store_key(b"absent")));
}

#[test]
fn the_default_config_has_two_entries() {
    let config = get_default_config();
    assert_eq!(
        config.get(&Resp::rbs_from_bytes(b"save")),
        Some(&Resp::rbs_from_bytes(b"900 1 300 10 60 10000"))
    );
    assert_eq!(
        config.get(&Resp::rbs_from_bytes(b"appendonly")),
        Some(&Resp::rbs_from_bytes(b"no"))
    );
    assert_eq!(config.get(&Resp::rbs_from_bytes(b"port")), None);
    assert_eq!(config.get(&Resp::rss_from_static_bytes(b"save")), None);
}

#[test]
fn a_server_starts_with_the_default_config() {
    let mut server = Server::default();
    assert_eq!(
        server.config().get(&Resp::rbs_from_bytes(b"appendonly")),
        Some(&Resp::rbs_from_bytes(b"no"))
    );
    server.config_mut().insert(Resp::rbs_from_bytes(b"appendonly"), Resp::rbs_from_bytes(b"yes"));
    assert_eq!(
        server.config().get(&Resp::rbs_from_bytes(b"appendonly")),
        Some(&Resp::rbs_from_bytes(b"yes"))
    );
}

#[test]
fn databases_are_apart_and_made_on_demand() {
    let mut server = Server::default();
    assert!(!server.get_db(7).contains_value_at(&store_key(b"k"), 0));
    server.get_db(7).set_value(store_key(b"k"), Resp::Integer(7));
    server.get_db(0).set_value(store_key(b"k"), Resp::Integer(0));
    assert_eq!(server.get_db(7).get_value_at(&store_key(b"k"), 0), Some(&Resp::Integer(7)));
    assert_eq!(server.get_db(0).get_value_at(&store_key(b"k"), 0), Some(&Resp::Integer(0)));
    assert_eq!(server.get_db(u64::MAX).get_value_at(&store_key(b"k"), 0), None);
}

#[test]
fn flush_all_empties_every_database() {
    let mut server = Server::default();
    server.get_db(1).set_value(store_key(b"k"), Resp::Integer(1));
    server.get_db(2).set_value(store_key(b"k"), Resp::Integer(2));
    server.get_db(2).set_expiry(store_key(b"k"), 99);
    server.flush_all();
    assert_eq!(server.get_db(1).get_value_at(&store_key(b"k"), 0), None);
    assert_eq!(server.get_db(2).get_value_at(&store_key(b"k"), 0), None);
    assert!(!server.get_db(2).contains_expiry(&store_key(b"k")));
    assert_eq!(
        server.config().get(&Resp::rbs_from_bytes(b"save")),
        Some(&Resp::rbs_from_bytes(b"900 1 300 10 60 10000"))
    );
}
