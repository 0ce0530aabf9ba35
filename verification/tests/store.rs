use ground_station::store::TelemetryStore;
use ground_station::telemetry::{F64Bits, TelemetryPacket};

fn record(running_us: u64, offset: u16) -> TelemetryPacket {
    TelemetryPacket {
        running_us,
        tvc_x: F64Bits::from_bits(0),
        tvc_z: F64Bits::from_bits(0),
        angle: F64Bits::from_bits(0),
        temperature: F64Bits::from_bits(0),
        v_sys: F64Bits::from_bits(0),
        v_bat: F64Bits::from_bits(0),
        offset,
        v_bus_present: true,
    }
}

fn store_of(keys: &[u64]) -> TelemetryStore {
    let mut store = TelemetryStore::new();
    for key in keys {
        store.insert(record(*key, 0));
    }
    store
}

#[test]
fn range_query_gives_exactly_the_record_in_range() {
    let store = store_of(&[10, 20, 30]);
    assert_eq!(store.range_query(15, 30), vec![record(20, 0)]);
}

#[test]
fn range_query_takes_the_start_in_and_leaves_the_end_out() {
    let store = store_of(&[10, 20, 30]);
    assert_eq!(store.range_query(10, 30), vec![record(10, 0), record(20, 0)]);
    assert_eq!(store.range_query(10, 31), vec![record(10, 0), record(20, 0), record(30, 0)]);
    assert_eq!(store.range_query(11, 20), vec![]);
    assert_eq!(store.range_query(0, 10), vec![]);
    assert_eq!(store.range_query(30, u64::MAX), vec![record(30, 0)]);
    assert_eq!(store.range_query(0, u64::MAX), vec![record(10, 0), record(20, 0), record(30, 0)]);
}

#[test]
fn range_query_on_an_empty_or_inverted_range_gives_nothing() {
    let store = store_of(&[10, 20, 30]);
    assert_eq!(store.range_query(20, 20), vec![]);
    assert_eq!(store.range_query(30, 10), vec![]);
    assert_eq!(TelemetryStore::new().range_query(0, u64::MAX), vec![]);
}

#[test]
fn records_come_out_by_rising_timestamp_whatever_the_order_of_arrival() {
    let store = store_of(&[30, 10, 50, 20, 40, 0, u64::MAX]);
    let keys: Vec<u64> =
        store.range_query(0, u64::MAX).iter().map(|record| record.running_us).collect();
    assert_eq!(keys, vec![0, 10, 20, 30, 40, 50]);
    assert_eq!(store.len(), 7);
}

#[test]
fn the_last_record_under_a_timestamp_wins() {
    let mut store = TelemetryStore::new();
    store.insert(record(10, 1));
    store.insert(record(20, 2));
    store.insert(record(10, 3));
    store.insert(record(20, 4));
    store.insert(record(20, 5));
    assert_eq!(store.len(), 2);
    assert_eq!(store.range_query(0, 100), vec![record(10, 3), record(20, 5)]);
}

#[test]
fn clear_empties_the_store() {
    let mut store = store_of(&[1, 2, 3]);
    assert_eq!(store.len(), 3);
    store.clear();
    assert_eq!(store.len(), 0);
    assert_eq!(store.range_query(0, u64::MAX), vec![]);
    store.insert(record(2, 9));
    assert_eq!(store.range_query(0, u64::MAX), vec![record(2, 9)]);
}

#[test]
fn a_large_store_answers_like_a_filter() {
    let mut store = TelemetryStore::new();
    let mut key: u64 = 12345;
    let mut keys = Vec::new();
    for _ in 0..2000 {
        key = key.wrapping_mul(6364136223846793005).wrapping_add(1442695040888963407);
        let stamp = key >> 48;
        store.insert(record(stamp, (key >> 20) as u16));
        keys.push((stamp, (key >> 20) as u16));
    }
    for (start, end) in [(0, 70000), (1000, 2000), (65000, 65536), (300, 299), (40000, 40001)] {
        let mut expected = std::collections::BTreeMap::new();
        for (stamp, offset) in &keys {
            expected.insert(*stamp, *offset);
        }
        let expected: Vec<TelemetryPacket> = expected
            .iter()
            .filter(|(stamp, _)| start <= **stamp && **stamp < end)
            .map(|(stamp, offset)| record(*stamp, *offset))
            .collect();
        assert_eq!(store.range_query(start, end), expected);
    }
}
