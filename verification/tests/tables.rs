use matchbox_server_star::protocol::PeerId;
use matchbox_server_star::state::{member_position, Origin, RoomId};
use matchbox_server_star::table::{Table, TableKey};

#[test]
fn table_insert_get_remove() {
    let mut table: Table<PeerId, u32> = Table::new();
    assert!(!table.contains_key(&PeerId(1)));
    assert_eq!(table.insert(PeerId(1), 10), None);
    assert_eq!(table.insert(PeerId(2), 20), None);
    assert_eq!(table.insert(PeerId(1), 11), Some(10));
    assert_eq!(table.get(&PeerId(1)), Some(&11));
    assert_eq!(table.get(&PeerId(2)), Some(&20));
    assert_eq!(table.get(&PeerId(3)), None);
    assert_eq!(table.entries.len(), 2);
    assert_eq!(table.remove(&PeerId(2)), Some(20));
    assert_eq!(table.remove(&PeerId(2)), None);
    assert!(table.contains_key(&PeerId(1)));
    assert_eq!(table.position(&PeerId(1)), Some(0));
    assert_eq!(table.position(&PeerId(2)), None);
}

#[test]
fn table_keys_by_room_name() {
    let mut table: Table<RoomId, u8> = Table::new();
    table.insert(RoomId("alpha".to_string()), 1);
    table.insert(RoomId("beta".to_string()), 2);
    assert_eq!(table.get(&RoomId("alpha".to_string())), Some(&1));
    assert_eq!(table.get(&RoomId("alph".to_string())), None);
    assert_eq!(table.remove(&RoomId("beta".to_string())), Some(2));
    assert_eq!(table.entries.len(), 1);
}

#[test]
fn keys_are_the_same_when_they_are_equal() {
    let v4 = Origin::V4 { octets: 1, port: 2 };
    let v6 = Origin::V6 { segments: 1, port: 2, flowinfo: 0, scope_id: 0 };
    assert!(v4.same(&v4));
    assert!(!v4.same(&v6));
    assert!(!v4.same(&Origin::V4 { octets: 1, port: 3 }));
    assert!(v6.same(&v6));
    assert!(!v6.same(&Origin::V6 { segments: 1, port: 2, flowinfo: 0, scope_id: 1 }));
    assert!(PeerId(5).same(&PeerId(5)));
    assert!(!PeerId(5).same(&PeerId(6)));
    assert!(RoomId("a".to_string()).same(&RoomId("a".to_string())));
    assert!(!RoomId("a".to_string()).same(&RoomId("A".to_string())));
}

#[test]
fn member_position_finds_the_first_place() {
    let members = vec![PeerId(3), PeerId(1), PeerId(2)];
    assert_eq!(member_position(&members, PeerId(1)), Some(1));
    assert_eq!(member_position(&members, PeerId(3)), Some(0));
    assert_eq!(member_position(&members, PeerId(9)), None);
    assert_eq!(member_position(&Vec::new(), PeerId(9)), None);
    assert_eq!(member_position(&vec![PeerId(4), PeerId(7), PeerId(7)], PeerId(7)), Some(1));
}
