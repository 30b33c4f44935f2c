use rv_core::components::memory::{MemType, QueueMemory, Transaction};
use rv_core::memory::Memory;
use rv_core::{ACCESS_CYCLES, BLOCK_SIZE};

/// A block of `BLOCK_SIZE` bytes counting up from `start`.
fn counting_block(start: u8) -> Vec<u8> {
    let mut data = Vec::new();
    let mut i: u8 = 0;
    while (i as u32) < BLOCK_SIZE {
        data.push(start.wrapping_add(i));
        i += 1;
    }
    data
}

/// An engine over an all-zero image of the given length.
fn fresh_engine(image_len: usize, capacity: usize) -> QueueMemory {
    QueueMemory::init(Memory::new(vec![0u8; image_len], 0), capacity, capacity)
}

#[test]
fn end_to_end_scenario() {
    // write bytes 0..63 at 0x00100000 (id 1), read at 0x00000000 (id 0):
    // both admitted, the data queue is now full; a third request is
    // refused; after exactly 50 ticks both report done; a further read
    // at 0x00100000 returns bytes 0..63 in order.
    let mut engine = fresh_engine(16, 2);
    let data = counting_block(0);

    let t1 = engine.enqueue_write(MemType::DMem, 0x0010_0000, data.clone(), 1);
    assert!(matches!(t1, Transaction::WriteStarted(_)));
    let t0 = engine.enqueue_read(MemType::DMem, 0x0000_0000, 0);
    assert!(matches!(t0, Transaction::ReadStarted));
    let t2 = engine.enqueue_read(MemType::DMem, 0x0000_0040, 2);
    assert!(matches!(t2, Transaction::Busy));

    let mut tick: u32 = 0;
    while tick < ACCESS_CYCLES {
        assert!(engine.pending(MemType::DMem, 0));
        assert!(engine.pending(MemType::DMem, 1));
        assert_eq!(engine.poll(MemType::DMem, 0), None);
        assert_eq!(engine.poll(MemType::DMem, 1), None);
        engine.advance();
        tick += 1;
    }
    assert!(!engine.pending(MemType::DMem, 0));
    assert!(!engine.pending(MemType::DMem, 1));
    assert_eq!(engine.poll(MemType::DMem, 1), Some(&Transaction::WriteDone));
    assert_eq!(engine.poll(MemType::DMem, 0), Some(&Transaction::ReadDone(vec![0u8; 64])));

    let t3 = engine.enqueue_read(MemType::DMem, 0x0010_0000, 3);
    assert!(matches!(t3, Transaction::ReadStarted));
    let mut tick: u32 = 0;
    while tick < ACCESS_CYCLES {
        engine.advance();
        tick += 1;
    }
    assert_eq!(engine.poll(MemType::DMem, 3), Some(&Transaction::ReadDone(counting_block(0))));
}

#[test]
fn admission_bound_refuses_at_capacity() {
    let mut engine = fresh_engine(0, 2);
    assert!(matches!(engine.enqueue_read(MemType::DMem, 0, 0), Transaction::ReadStarted));
    assert!(matches!(engine.enqueue_read(MemType::DMem, 64, 1), Transaction::ReadStarted));
    // the queue is at capacity: reads and writes alike are refused and
    // nothing changes
    assert!(matches!(engine.enqueue_read(MemType::DMem, 128, 2), Transaction::Busy));
    assert!(matches!(
        engine.enqueue_write(MemType::DMem, 128, counting_block(7), 3),
        Transaction::Busy
    ));
    assert!(engine.pending(MemType::DMem, 0));
    assert!(engine.pending(MemType::DMem, 1));
    assert!(!engine.pending(MemType::DMem, 2));
    assert!(!engine.pending(MemType::DMem, 3));
    // the channels are independent: the instruction queue still admits
    assert!(matches!(engine.enqueue_read(MemType::IMem, 0, 4), Transaction::ReadStarted));
    // the refused requests never complete; the admitted ones do
    let mut tick: u32 = 0;
    while tick < ACCESS_CYCLES {
        engine.advance();
        tick += 1;
    }
    assert!(engine.poll(MemType::DMem, 0).is_some());
    assert!(engine.poll(MemType::DMem, 1).is_some());
    assert!(engine.poll(MemType::DMem, 2).is_none());
    assert!(engine.poll(MemType::DMem, 3).is_none());
    assert!(engine.poll(MemType::IMem, 4).is_some());
}

#[test]
fn latency_exactness_by_tick() {
    // pending through tick 49, completed on tick 50 exactly
    let mut engine = fresh_engine(0, 2);
    engine.enqueue_read(MemType::IMem, 0x200, 9);
    let mut tick: u32 = 0;
    while tick < ACCESS_CYCLES - 1 {
        engine.advance();
        tick += 1;
        assert!(engine.pending(MemType::IMem, 9));
        assert!(engine.poll(MemType::IMem, 9).is_none());
    }
    engine.advance();
    assert!(!engine.pending(MemType::IMem, 9));
    assert!(engine.poll(MemType::IMem, 9).is_some());
}

#[test]
fn latency_counts_from_admission() {
    // a transaction admitted 10 ticks after another still waits its own
    // full 50 ticks
    let mut engine = fresh_engine(0, 2);
    engine.enqueue_read(MemType::DMem, 0, 0);
    let mut tick: u32 = 0;
    while tick < 10 {
        engine.advance();
        tick += 1;
    }
    engine.enqueue_read(MemType::DMem, 64, 1);
    let mut tick: u32 = 0;
    while tick < 40 {
        engine.advance();
        tick += 1;
    }
    // the first has completed; the second has 10 ticks to go
    assert!(engine.poll(MemType::DMem, 0).is_some());
    assert!(engine.pending(MemType::DMem, 1));
    let mut tick: u32 = 0;
    while tick < 9 {
        engine.advance();
        tick += 1;
        assert!(engine.pending(MemType::DMem, 1));
    }
    engine.advance();
    assert!(engine.poll(MemType::DMem, 1).is_some());
}

#[test]
fn block_alignment_of_reads() {
    // two reads admitted anywhere inside one block fetch the identical
    // byte range: the block holding addresses 0x80..0xC0
    let mut image = Vec::new();
    let mut i: u32 = 0;
    while i < 256 {
        image.push(i as u8);
        i += 1;
    }
    let mut engine = QueueMemory::init(Memory::new(image, 0), 2, 2);
    engine.enqueue_read(MemType::DMem, 0x85, 0);
    engine.enqueue_read(MemType::DMem, 0xBF, 1);
    let mut tick: u32 = 0;
    while tick < ACCESS_CYCLES {
        engine.advance();
        tick += 1;
    }
    let expected = counting_block(0x80);
    assert_eq!(engine.poll(MemType::DMem, 0), Some(&Transaction::ReadDone(expected.clone())));
    assert_eq!(engine.poll(MemType::DMem, 1), Some(&Transaction::ReadDone(expected)));
}

#[test]
fn write_read_round_trip_unaligned_addresses() {
    // a write at an unaligned address lands on its block; a later read
    // admitted elsewhere in the same block returns the data unchanged
    let mut engine = fresh_engine(0, 2);
    let data = counting_block(100);
    engine.enqueue_write(MemType::DMem, 0x123, data.clone(), 0);
    let mut tick: u32 = 0;
    while tick < ACCESS_CYCLES {
        engine.advance();
        tick += 1;
    }
    assert_eq!(engine.poll(MemType::DMem, 0), Some(&Transaction::WriteDone));
    engine.enqueue_read(MemType::DMem, 0x13F, 1);
    let mut tick: u32 = 0;
    while tick < ACCESS_CYCLES {
        engine.advance();
        tick += 1;
    }
    assert_eq!(engine.poll(MemType::DMem, 1), Some(&Transaction::ReadDone(data)));
}

#[test]
fn write_handle_carries_the_block() {
    let mut engine = fresh_engine(0, 1);
    let data = counting_block(5);
    let handle = engine.enqueue_write(MemType::IMem, 0x40, data.clone(), 7);
    assert_eq!(handle, Transaction::WriteStarted(data));
}

#[test]
fn channels_complete_independently() {
    // one transaction per channel; both complete after the same tick,
    // each on its own channel only
    let mut engine = fresh_engine(0, 2);
    engine.enqueue_read(MemType::IMem, 0, 1);
    engine.enqueue_read(MemType::DMem, 0, 1);
    let mut tick: u32 = 0;
    while tick < ACCESS_CYCLES {
        engine.advance();
        tick += 1;
    }
    assert!(engine.poll(MemType::IMem, 1).is_some());
    assert!(engine.poll(MemType::DMem, 1).is_some());
    assert!(!engine.pending(MemType::IMem, 1));
    assert!(!engine.pending(MemType::DMem, 1));
}

#[test]
fn same_tick_completions_keep_fifo_order() {
    // two writes to the same block admitted on the same tick complete
    // on the same tick, in admission order: the later write wins
    let mut engine = fresh_engine(0, 2);
    let first = counting_block(10);
    let second = counting_block(200);
    engine.enqueue_write(MemType::DMem, 0x40, first, 0);
    engine.enqueue_write(MemType::DMem, 0x40, second.clone(), 1);
    let mut tick: u32 = 0;
    while tick < ACCESS_CYCLES {
        engine.advance();
        tick += 1;
    }
    assert_eq!(engine.poll(MemType::DMem, 0), Some(&Transaction::WriteDone));
    assert_eq!(engine.poll(MemType::DMem, 1), Some(&Transaction::WriteDone));
    engine.enqueue_read(MemType::DMem, 0x40, 2);
    let mut tick: u32 = 0;
    while tick < ACCESS_CYCLES {
        engine.advance();
        tick += 1;
    }
    assert_eq!(engine.poll(MemType::DMem, 2), Some(&Transaction::ReadDone(second)));
}

#[test]
fn read_sees_write_completed_earlier_same_tick() {
    // a write ahead of a read in the same queue commits first; the
    // read, completing on the same tick, already sees the written data
    let mut engine = fresh_engine(0, 2);
    let data = counting_block(33);
    engine.enqueue_write(MemType::DMem, 0x80, data.clone(), 0);
    engine.enqueue_read(MemType::DMem, 0x80, 1);
    let mut tick: u32 = 0;
    while tick < ACCESS_CYCLES {
        engine.advance();
        tick += 1;
    }
    assert_eq!(engine.poll(MemType::DMem, 1), Some(&Transaction::ReadDone(data)));
}
