use bevy_glicol::{block_fits, engine_error, BlockLog, CarryBuffer, StreamBridge, BLOCK_SIZE};
use std::cell::Cell;

/// A mono block whose samples count on from `start`.
fn ramp(start: i64, n: usize) -> Vec<Vec<i64>> {
    vec![(0..n as i64).map(|i| start + i).collect()]
}

/// Renders one callback of `frames` mono frames from a source that hands out
/// consecutive ramps, continuing from `counter`.
fn callback(bridge: &mut StreamBridge<i64>, counter: &Cell<i64>, frames: usize) -> Vec<i64> {
    let n = bridge.block_size();
    let mut out = vec![-1i64; frames];
    let src = || {
        let start = counter.get();
        counter.set(start + n as i64);
        (ramp(start, n), false)
    };
    let written = bridge.render(&mut out, &mut BlockLog::new(src));
    assert_eq!(written, frames);
    out
}

#[test]
fn scenario_uneven_callbacks_carry_the_remainder() {
    let mut bridge = StreamBridge::new(BLOCK_SIZE, 1, 0i64);
    let counter = Cell::new(0i64);

    let first = callback(&mut bridge, &counter, 100);
    assert_eq!(first, (0..100).collect::<Vec<i64>>());
    assert_eq!(bridge.pending_len(), 28);
    assert_eq!(counter.get(), 128);

    let second = callback(&mut bridge, &counter, 50);
    assert_eq!(second, (100..150).collect::<Vec<i64>>());
    assert_eq!(bridge.pending_len(), 106);
    assert_eq!(counter.get(), 256);

    let third = callback(&mut bridge, &counter, 200);
    assert_eq!(third, (150..350).collect::<Vec<i64>>());
    assert_eq!(bridge.pending_len(), 34);
    assert_eq!(counter.get(), 384);
}

#[test]
fn every_frame_delivered_once_in_order() {
    let mut bridge = StreamBridge::new(16, 1, 0i64);
    let counter = Cell::new(0i64);
    let requests = [0usize, 5, 16, 1, 40, 3, 0, 31, 17, 64];
    let mut all = Vec::new();
    for r in requests {
        all.extend(callback(&mut bridge, &counter, r));
        assert!(bridge.pending_len() <= bridge.block_size());
        assert_eq!(
            counter.get() as usize,
            all.len() + bridge.pending_len()
        );
    }
    let total: usize = requests.iter().sum();
    assert_eq!(all.len(), total);
    assert_eq!(all, (0..total as i64).collect::<Vec<i64>>());
}

#[test]
fn callback_longer_than_several_blocks() {
    let mut bridge = StreamBridge::new(BLOCK_SIZE, 1, 0i64);
    let counter = Cell::new(0i64);
    let out = callback(&mut bridge, &counter, 300);
    assert_eq!(out, (0..300).collect::<Vec<i64>>());
    assert_eq!(counter.get(), 384);
    assert_eq!(bridge.pending_len(), 84);
}

#[test]
fn callback_of_exact_block_leaves_nothing() {
    let mut bridge = StreamBridge::new(BLOCK_SIZE, 1, 0i64);
    let counter = Cell::new(0i64);
    let out = callback(&mut bridge, &counter, 256);
    assert_eq!(out, (0..256).collect::<Vec<i64>>());
    assert_eq!(bridge.pending_len(), 0);
    assert_eq!(counter.get(), 256);
}

#[test]
fn empty_callback_takes_no_block() {
    let mut bridge = StreamBridge::new(BLOCK_SIZE, 2, 0i64);
    let counter = Cell::new(0i64);
    let out = callback(&mut bridge, &counter, 0);
    assert!(out.is_empty());
    assert_eq!(counter.get(), 0);
    assert_eq!(bridge.pending_len(), 0);
}

#[test]
fn scenario_failed_block_becomes_silence() {
    let mut bridge = StreamBridge::new(4, 2, 0.0f32);
    let calls = Cell::new(0usize);
    let mut out = vec![9.0f32; 12];
    let src = || {
        calls.set(calls.get() + 1);
        if calls.get() == 1 {
            (vec![vec![0.5f32; 4], vec![0.25f32; 4]], true)
        } else {
            (vec![vec![1.0f32; 4], vec![-1.0f32; 4]], false)
        }
    };
    assert_eq!(bridge.render(&mut out, &mut BlockLog::new(src)), 6);
    assert_eq!(calls.get(), 2);
    assert_eq!(&out[..8], &[0.0f32; 8]);
    assert_eq!(&out[8..], &[1.0f32, -1.0, 1.0, -1.0]);
    assert_eq!(bridge.pending_len(), 2);
}

#[test]
fn scenario_error_signal_reported_once_per_block() {
    let mut raw = [0u8; 8];
    raw[0] = 1;
    raw[1..4].copy_from_slice(b"bad");
    let reports = Cell::new(0usize);
    let mut bridge = StreamBridge::new(4, 1, 0i32);
    let mut out = vec![7i32; 4];
    let src = || {
        if let Some(msg) = engine_error(&raw) {
            assert_eq!(&msg[..3], b"bad");
            reports.set(reports.get() + 1);
            (vec![vec![5i32; 4]], true)
        } else {
            (vec![vec![5i32; 4]], false)
        }
    };
    bridge.render(&mut out, &mut BlockLog::new(src));
    assert_eq!(out, vec![0, 0, 0, 0]);
    assert_eq!(reports.get(), 1);
}

#[test]
fn scenario_mono_block_broadcast_to_stereo() {
    let mut bridge = StreamBridge::new(8, 2, 0i64);
    let counter = Cell::new(100i64);
    let mut out = vec![-1i64; 2 * 12];
    let src = || {
        let start = counter.get();
        counter.set(start + 8);
        (ramp(start, 8), false)
    };
    assert_eq!(bridge.render(&mut out, &mut BlockLog::new(src)), 12);
    for f in 0..12 {
        assert_eq!(out[2 * f], 100 + f as i64);
        assert_eq!(out[2 * f], out[2 * f + 1]);
    }
}

#[test]
fn stereo_block_keeps_channels_apart() {
    let mut bridge = StreamBridge::new(3, 2, 0i32);
    let mut out = vec![0i32; 6];
    let src = || (vec![vec![1, 2, 3], vec![-1, -2, -3]], false);
    bridge.render(&mut out, &mut BlockLog::new(src));
    assert_eq!(out, vec![1, -1, 2, -2, 3, -3]);
}

#[test]
fn extra_block_channels_are_dropped() {
    let mut bridge = StreamBridge::new(2, 1, 0i32);
    let mut out = vec![0i32; 2];
    let src = || (vec![vec![4, 5], vec![8, 9]], false);
    bridge.render(&mut out, &mut BlockLog::new(src));
    assert_eq!(out, vec![4, 5]);
}

#[test]
fn misshapen_block_becomes_silence() {
    let mut bridge = StreamBridge::new(4, 1, 0i32);
    let mut out = vec![3i32; 4];
    let src = || (vec![vec![1, 2, 3]], false);
    bridge.render(&mut out, &mut BlockLog::new(src));
    assert_eq!(out, vec![0, 0, 0, 0]);
}

#[test]
fn partial_trailing_frame_is_left_alone() {
    let mut bridge = StreamBridge::new(4, 2, 0i32);
    let mut out = vec![-7i32; 5];
    let src = || (vec![vec![1, 2, 3, 4]], false);
    assert_eq!(bridge.render(&mut out, &mut BlockLog::new(src)), 2);
    assert_eq!(out, vec![1, 1, 2, 2, -7]);
}

#[test]
fn drain_of_zero_frames_changes_nothing() {
    let mut carry = CarryBuffer::new(4, 1, 0i32);
    let mut out = vec![0i32; 4];
    carry.refill(vec![vec![10, 11, 12, 13]], 1);
    assert_eq!(carry.drain(&mut out, 0, 0), 0);
    assert_eq!(carry.pending_len(), 3);
    assert_eq!(out, vec![0, 0, 0, 0]);
    assert_eq!(carry.drain(&mut out, 1, 2), 2);
    assert_eq!(out, vec![0, 11, 12, 0]);
    assert_eq!(carry.pending_len(), 1);
    assert_eq!(carry.drain(&mut out, 0, 4), 1);
    assert_eq!(out, vec![13, 11, 12, 0]);
    assert_eq!(carry.drain(&mut out, 0, 4), 0);
    assert_eq!(carry.pending_len(), 0);
}

#[test]
fn new_carry_buffer_is_empty() {
    let carry = CarryBuffer::new(8, 2, 1i32);
    assert_eq!(carry.pending_len(), 0);
    assert_eq!(carry.block_size(), 8);
    assert_eq!(carry.device_channels(), 2);
}

#[test]
fn block_shape_check() {
    assert!(block_fits(&vec![vec![0u8; 3], vec![1u8; 3]], 3));
    assert!(!block_fits(&vec![vec![0u8; 3], vec![1u8; 2]], 3));
    assert!(!block_fits::<u8>(&vec![], 3));
}

#[test]
fn error_signal_decoding() {
    assert_eq!(engine_error(&[0u8, 104, 105]), None);
    assert_eq!(engine_error(&[]), None);
    assert_eq!(engine_error(&[3u8, 104, 105]), Some(vec![104u8, 105]));
    assert_eq!(engine_error(&[1u8]), Some(vec![]));
}

#[test]
fn source_called_once_per_needed_block() {
    let mut bridge = StreamBridge::new(BLOCK_SIZE, 2, 0i64);
    let counter = Cell::new(0i64);
    let calls = Cell::new(0usize);
    let src = || {
        calls.set(calls.get() + 1);
        let start = counter.get();
        counter.set(start + BLOCK_SIZE as i64);
        (ramp(start, BLOCK_SIZE), false)
    };
    let mut log = BlockLog::new(src);
    let mut expected_calls = 0;
    for (frames, needed) in [(100usize, 1usize), (50, 1), (200, 1), (0, 0), (34, 0), (300, 3)] {
        let mut out = vec![-1i64; 2 * frames];
        assert_eq!(bridge.render(&mut out, &mut log), frames);
        expected_calls += needed;
        assert_eq!(calls.get(), expected_calls);
    }
    assert_eq!(bridge.pending_len(), 84);
}

#[test]
fn carry_stands_in_silence() {
    let mut carry = CarryBuffer::new(3, 2, 0i32);
    carry.refill(vec![vec![1, 2, 3]], 0);
    carry.refill_silent(1);
    assert_eq!(carry.pending_len(), 2);
    assert_eq!(carry.silence(), 0);
    let mut out = vec![5i32; 6];
    assert_eq!(carry.drain(&mut out, 0, 3), 2);
    assert_eq!(out, vec![0, 0, 0, 0, 5, 5]);
}

#[test]
fn failed_block_tail_is_carried_as_silence() {
    let mut bridge = StreamBridge::new(4, 1, 0i32);
    let calls = Cell::new(0usize);
    let src = || {
        calls.set(calls.get() + 1);
        (vec![vec![calls.get() as i32; 4]], calls.get() == 1)
    };
    let mut log = BlockLog::new(src);
    let mut out = vec![9i32; 3];
    bridge.render(&mut out, &mut log);
    assert_eq!(out, vec![0, 0, 0]);
    let mut out = vec![9i32; 3];
    bridge.render(&mut out, &mut log);
    assert_eq!(out, vec![0, 2, 2]);
    assert_eq!(calls.get(), 2);
}
