use ground_station::codec::{encode, FRAME_SIZE};
use ground_station::sync::{FrameSynchronizer, SyncEvent};
use ground_station::telemetry::{F64Bits, TelemetryPacket};

fn packet_at(running_us: u64) -> TelemetryPacket {
    TelemetryPacket {
        running_us,
        tvc_x: F64Bits::from_bits(1.0f64.to_bits()),
        tvc_z: F64Bits::from_bits(2.0f64.to_bits()),
        angle: F64Bits::from_bits(3.0f64.to_bits()),
        temperature: F64Bits::from_bits(4.0f64.to_bits()),
        v_sys: F64Bits::from_bits(5.0f64.to_bits()),
        v_bat: F64Bits::from_bits(6.0f64.to_bits()),
        offset: 7,
        v_bus_present: false,
    }
}

fn push_all(sync: &mut FrameSynchronizer, bytes: &[u8]) -> Vec<SyncEvent> {
    bytes.iter().map(|byte| sync.push(*byte)).collect()
}

#[test]
fn a_fresh_synchronizer_wants_a_whole_frame() {
    let sync = FrameSynchronizer::new();
    assert_eq!(sync.wanted(), FRAME_SIZE);
    assert!(!sync.is_seeking());
}

#[test]
fn an_aligned_frame_locks_without_a_shift() {
    let frame = encode(&packet_at(1));
    let mut sync = FrameSynchronizer::new();
    let events = push_all(&mut sync, &frame);
    assert_eq!(events.len(), FRAME_SIZE);
    assert!(events[..FRAME_SIZE - 1].iter().all(|event| *event == SyncEvent::Pending));
    assert_eq!(events[FRAME_SIZE - 1], SyncEvent::Locked { frame, shifted: 0 });
    assert_eq!(sync.wanted(), FRAME_SIZE);
    assert!(!sync.is_seeking());
}

#[test]
fn wanted_counts_down_while_a_frame_fills() {
    let frame = encode(&packet_at(1));
    let mut sync = FrameSynchronizer::new();
    for (read, byte) in frame.iter().enumerate().take(FRAME_SIZE - 1) {
        assert_eq!(sync.wanted(), FRAME_SIZE - read);
        assert_eq!(sync.push(*byte), SyncEvent::Pending);
    }
    assert_eq!(sync.wanted(), 1);
}

#[test]
fn garbage_before_a_frame_is_shifted_out() {
    let frame = encode(&packet_at(2));
    let mut stream = vec![0x11, 0x22, 0x33, 0x44, 0x55];
    stream.extend_from_slice(&frame);
    let mut sync = FrameSynchronizer::new();
    let events = push_all(&mut sync, &stream);
    assert!(events[..FRAME_SIZE - 1].iter().all(|event| *event == SyncEvent::Pending));
    assert_eq!(events[FRAME_SIZE - 1], SyncEvent::LostLock);
    assert!(events[FRAME_SIZE..FRAME_SIZE + 4].iter().all(|event| *event == SyncEvent::Pending));
    assert_eq!(events[FRAME_SIZE + 4], SyncEvent::Locked { frame, shifted: 5 });
    assert!(!sync.is_seeking());
}

#[test]
fn lost_lock_is_reported_once_for_a_run_of_garbage() {
    let mut sync = FrameSynchronizer::new();
    let events = push_all(&mut sync, &[0u8; 500]);
    let lost = events.iter().filter(|event| **event == SyncEvent::LostLock).count();
    assert_eq!(lost, 1);
    assert_eq!(events[FRAME_SIZE - 1], SyncEvent::LostLock);
    assert!(sync.is_seeking());
    assert_eq!(sync.wanted(), 1);
}

#[test]
fn lock_is_found_again_after_each_run_of_garbage() {
    let first = encode(&packet_at(10));
    let second = encode(&packet_at(20));
    let mut stream = Vec::new();
    stream.extend_from_slice(&first);
    stream.extend_from_slice(&[0xAA; 7]);
    stream.extend_from_slice(&second);
    stream.extend_from_slice(&[0xBB; 200]);
    stream.extend_from_slice(&first);
    let mut sync = FrameSynchronizer::new();
    let events = push_all(&mut sync, &stream);
    let locks: Vec<SyncEvent> = events
        .iter()
        .filter(|event| matches!(event, SyncEvent::Locked { .. }))
        .copied()
        .collect();
    assert_eq!(
        locks,
        vec![
            SyncEvent::Locked { frame: first, shifted: 0 },
            SyncEvent::Locked { frame: second, shifted: 7 },
            SyncEvent::Locked { frame: first, shifted: 200 },
        ]
    );
    let lost = events.iter().filter(|event| **event == SyncEvent::LostLock).count();
    assert_eq!(lost, 2);
}

#[test]
fn a_marker_inside_a_frame_is_not_looked_at_while_locked() {
    let marker_as_timestamp = encode(&packet_at(0xDEAD_BEEF_BEEF_DEAD));
    let mut stream = Vec::new();
    stream.extend_from_slice(&marker_as_timestamp);
    stream.extend_from_slice(&marker_as_timestamp);
    let mut sync = FrameSynchronizer::new();
    let events = push_all(&mut sync, &stream);
    assert_eq!(events[FRAME_SIZE - 1], SyncEvent::Locked { frame: marker_as_timestamp, shifted: 0 });
    assert_eq!(
        events[2 * FRAME_SIZE - 1],
        SyncEvent::Locked { frame: marker_as_timestamp, shifted: 0 }
    );
    assert!(events.iter().all(|event| *event != SyncEvent::LostLock));
}

#[test]
fn a_stream_that_ends_early_gives_no_frame() {
    let frame = encode(&packet_at(3));
    let mut sync = FrameSynchronizer::new();
    let events = push_all(&mut sync, &frame[..FRAME_SIZE - 1]);
    assert!(events.iter().all(|event| *event == SyncEvent::Pending));
}
