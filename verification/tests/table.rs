use xdp_ip_counter::table::{
    BoundedFlowTable, CustomPortSet, SharedMaps, TableError, PACKETS_MAP_SIZE, PORTS_MAP_SIZE,
};

#[test]
fn table_starts_empty() {
    let table: BoundedFlowTable<[u8; 4]> = BoundedFlowTable::with_max_entries(8);
    assert!(table.is_empty());
    assert_eq!(table.len(), 0);
    assert_eq!(table.get(&[1, 2, 3, 4]), None);
    assert_eq!(table.to_vec(), vec![]);
}

#[test]
fn table_insert_then_get() {
    let mut table: BoundedFlowTable<[u8; 4]> = BoundedFlowTable::with_max_entries(8);
    assert_eq!(table.insert(&[203, 0, 113, 5], &443), Ok(()));
    assert_eq!(table.insert(&[203, 0, 113, 9], &80), Ok(()));
    assert_eq!(table.get(&[203, 0, 113, 5]), Some(443));
    assert_eq!(table.get(&[203, 0, 113, 9]), Some(80));
    assert_eq!(table.get(&[203, 0, 113, 1]), None);
    assert_eq!(table.len(), 2);
    assert!(!table.is_empty());
}

#[test]
fn table_reinsert_keeps_the_first_value() {
    let mut table: BoundedFlowTable<[u16; 8]> = BoundedFlowTable::with_max_entries(8);
    let key = [0x2001, 0xdb8, 0, 0, 0, 0, 0, 1];
    assert_eq!(table.insert(&key, &443), Ok(()));
    let before = table.to_vec();
    assert_eq!(table.insert(&key, &443), Ok(()));
    assert_eq!(table.to_vec(), before);
    assert_eq!(table.insert(&key, &22), Ok(()));
    assert_eq!(table.to_vec(), before);
    assert_eq!(table.get(&key), Some(443));
    assert_eq!(table.len(), 1);
}

#[test]
fn table_full_refuses_new_keys_only() {
    let mut table: BoundedFlowTable<[u8; 4]> = BoundedFlowTable::with_max_entries(2);
    assert_eq!(table.insert(&[1, 1, 1, 1], &1), Ok(()));
    assert_eq!(table.insert(&[2, 2, 2, 2], &2), Ok(()));
    assert_eq!(table.insert(&[3, 3, 3, 3], &3), Err(TableError::Full));
    assert_eq!(table.len(), 2);
    assert_eq!(table.get(&[3, 3, 3, 3]), None);
    // A key that is there is no new entry.
    assert_eq!(table.insert(&[1, 1, 1, 1], &9), Ok(()));
    assert_eq!(table.get(&[1, 1, 1, 1]), Some(1));
    // After a removal there is room again.
    assert!(table.remove(&[1, 1, 1, 1]));
    assert_eq!(table.insert(&[3, 3, 3, 3], &3), Ok(()));
    assert_eq!(table.to_vec(), vec![([2, 2, 2, 2], 2), ([3, 3, 3, 3], 3)]);
}

#[test]
fn table_of_no_capacity_refuses_everything() {
    let mut table: BoundedFlowTable<[u8; 4]> = BoundedFlowTable::with_max_entries(0);
    assert_eq!(table.insert(&[1, 1, 1, 1], &1), Err(TableError::Full));
    assert!(table.is_empty());
}

#[test]
fn table_remove_is_idempotent() {
    let mut table: BoundedFlowTable<[u8; 4]> = BoundedFlowTable::with_max_entries(4);
    table.insert(&[1, 1, 1, 1], &1).unwrap();
    table.insert(&[2, 2, 2, 2], &2).unwrap();
    table.insert(&[3, 3, 3, 3], &3).unwrap();
    assert!(table.remove(&[2, 2, 2, 2]));
    assert_eq!(table.to_vec(), vec![([1, 1, 1, 1], 1), ([3, 3, 3, 3], 3)]);
    assert!(!table.remove(&[2, 2, 2, 2]));
    assert_eq!(table.to_vec(), vec![([1, 1, 1, 1], 1), ([3, 3, 3, 3], 3)]);
    assert!(!table.remove(&[9, 9, 9, 9]));
    assert_eq!(table.len(), 2);
}

#[test]
fn table_enumerates_in_insertion_order() {
    let mut table: BoundedFlowTable<[u8; 4]> = BoundedFlowTable::with_max_entries(4);
    table.insert(&[9, 9, 9, 9], &9).unwrap();
    table.insert(&[1, 1, 1, 1], &1).unwrap();
    table.insert(&[5, 5, 5, 5], &5).unwrap();
    assert_eq!(table.to_vec(), vec![([9, 9, 9, 9], 9), ([1, 1, 1, 1], 1), ([5, 5, 5, 5], 5)]);
}

#[test]
fn table_drain_leaves_it_empty() {
    let mut table: BoundedFlowTable<[u8; 4]> = BoundedFlowTable::with_max_entries(16);
    for i in 0..40u8 {
        // Repeats and refusals included.
        let _ = table.insert(&[203, 0, 113, i % 20], &(i as u16));
    }
    assert_eq!(table.len(), 16);
    for (key, _) in table.to_vec() {
        table.remove(&key);
    }
    assert!(table.is_empty());
    assert_eq!(table.to_vec(), vec![]);
}

#[test]
fn port_set_holds_what_was_inserted() {
    let mut set = CustomPortSet::with_max_entries(3);
    assert_eq!(set.len(), 0);
    assert!(!set.contains(80));
    assert_eq!(set.insert(80), Ok(()));
    assert_eq!(set.insert(443), Ok(()));
    assert_eq!(set.insert(80), Ok(()));
    assert_eq!(set.len(), 2);
    assert!(set.contains(80));
    assert!(set.contains(443));
    assert!(!set.contains(22));
    assert_eq!(set.insert(22), Ok(()));
    assert_eq!(set.insert(8080), Err(TableError::Full));
    assert_eq!(set.insert(22), Ok(()));
    assert_eq!(set.len(), 3);
    assert!(!set.contains(8080));
}

#[test]
fn port_set_insert_all_is_all_or_nothing() {
    let mut set = CustomPortSet::with_max_entries(3);
    assert_eq!(set.insert(80), Ok(()));
    assert_eq!(set.insert_all(&vec![443, 80, 443, 22]), Ok(()));
    assert_eq!(set.len(), 3);
    assert!(set.contains(22) && set.contains(80) && set.contains(443));
    assert_eq!(set.insert_all(&vec![80, 22]), Ok(()));
    assert_eq!(set.insert_all(&vec![22, 8080]), Err(TableError::Full));
    assert_eq!(set.len(), 3);
    assert!(!set.contains(8080));

    let mut other = CustomPortSet::with_max_entries(2);
    assert_eq!(other.insert_all(&vec![1, 2, 3]), Err(TableError::Full));
    assert_eq!(other.len(), 0);
    assert!(!other.contains(1));
    assert_eq!(other.insert_all(&vec![]), Ok(()));
    assert_eq!(other.insert_all(&vec![7, 7, 7, 8, 8]), Ok(()));
    assert_eq!(other.len(), 2);
}

#[test]
fn shared_maps_start_empty_with_the_filter_off() {
    let maps = SharedMaps::new();
    assert!(!maps.use_custom_ports);
    assert_eq!(maps.custom_ports.len(), 0);
    assert!(maps.tcp_v4.is_empty());
    assert!(maps.udp_v4.is_empty());
    assert!(maps.tcp_v6.is_empty());
    assert!(maps.udp_v6.is_empty());
    assert!(maps.get_tcp_v4().is_empty());
    assert!(maps.get_udp_v4().is_empty());
    assert!(maps.get_tcp_v6().is_empty());
    assert!(maps.get_udp_v6().is_empty());
}

#[test]
fn shared_maps_have_the_reference_capacities() {
    assert_eq!(PACKETS_MAP_SIZE, 10240);
    assert_eq!(PORTS_MAP_SIZE, 100);
    let mut maps = SharedMaps::new();
    for i in 0..10240u32 {
        let key = i.to_be_bytes();
        assert_eq!(maps.tcp_v4.insert(&key, &443), Ok(()));
    }
    assert_eq!(maps.tcp_v4.insert(&[255, 255, 255, 255], &443), Err(TableError::Full));
    assert_eq!(maps.tcp_v4.len(), 10240);
    let ports: Vec<u16> = (1..=100).collect();
    assert_eq!(maps.custom_ports.insert_all(&ports), Ok(()));
    assert_eq!(maps.custom_ports.insert(101), Err(TableError::Full));
}

#[test]
fn add_custom_ports_switches_the_filter() {
    let mut maps = SharedMaps::new();
    assert_eq!(maps.add_custom_ports(Some(vec![80, 443])), Ok(()));
    assert!(maps.use_custom_ports);
    assert!(maps.custom_ports.contains(80));
    assert!(maps.custom_ports.contains(443));
    assert!(!maps.custom_ports.contains(22));
    assert_eq!(maps.add_custom_ports(None), Ok(()));
    assert!(!maps.use_custom_ports);
    assert!(maps.custom_ports.contains(80));
}

#[test]
fn add_custom_ports_refuses_more_than_fit() {
    let mut maps = SharedMaps::new();
    let too_many: Vec<u16> = (1..=101).collect();
    assert_eq!(maps.add_custom_ports(Some(too_many)), Err(TableError::Full));
    assert!(!maps.use_custom_ports);
    assert_eq!(maps.custom_ports.len(), 0);
    let with_repeats: Vec<u16> = (0..300).map(|i| i % 100).collect();
    assert_eq!(maps.add_custom_ports(Some(with_repeats)), Ok(()));
    assert!(maps.use_custom_ports);
    assert_eq!(maps.custom_ports.len(), 100);
}

#[test]
fn remove_from_each_table() {
    let mut maps = SharedMaps::new();
    let v4 = [203, 0, 113, 5];
    let v6 = [0x2001, 0xdb8, 0, 0, 0, 0, 0, 5];
    maps.tcp_v4.insert(&v4, &1).unwrap();
    maps.udp_v4.insert(&v4, &2).unwrap();
    maps.tcp_v6.insert(&v6, &3).unwrap();
    maps.udp_v6.insert(&v6, &4).unwrap();

    maps.remove_from_tcp_v4(&v4);
    assert!(maps.tcp_v4.is_empty());
    assert_eq!(maps.udp_v4.get(&v4), Some(2));
    maps.remove_from_tcp_v4(&v4);
    maps.remove_from_udp_v4(&v4);
    assert!(maps.udp_v4.is_empty());
    assert_eq!(maps.tcp_v6.get(&v6), Some(3));
    maps.remove_from_tcp_v6(&v6);
    assert!(maps.tcp_v6.is_empty());
    assert_eq!(maps.udp_v6.get(&v6), Some(4));
    maps.remove_from_udp_v6(&v6);
    maps.remove_from_udp_v6(&v6);
    assert!(maps.udp_v6.is_empty());
}
