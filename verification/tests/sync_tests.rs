use kernel::keyboard::{poll_event, queue_scancode, ScancodeDecoder, EXTENDED_PREFIX};
use kernel::sync::{CircularBuffer, Mutex, OnceInit, SpinLock};

#[test]
fn spin_lock_is_taken_once_until_unlocked() {
    let lock = SpinLock::new();
    assert!(lock.try_lock());
    assert!(!lock.try_lock());
    lock.unlock();
    assert!(lock.try_lock());
}

#[test]
fn once_init_holds_the_value_it_was_given() {
    let mut cell: OnceInit<u32> = OnceInit::new();
    assert!(!cell.is_init());
    cell.init(5);
    assert!(cell.is_init());
    assert_eq!(*cell.get(), 5);
    *cell.get_mut() = 7;
    assert_eq!(*cell.get(), 7);
    cell.init(9);
    assert_eq!(*cell.get(), 9);
}

#[test]
fn mutex_gives_back_its_data() {
    let m = Mutex::new(vec![1u8, 2, 3]);
    assert_eq!(m.into_inner(), vec![1, 2, 3]);
}

#[test]
fn mutex_guard_writes_the_value() {
    let mut m = Mutex::new(5u32);
    {
        let g = m.lock();
        assert_eq!(*g.data, 5);
        *g.data = 7;
    }
    {
        let g = m.lock();
        assert_eq!(*g.data, 7);
    }
    assert_eq!(m.into_inner(), 7);
}

#[test]
fn ring_capacity_is_what_fits_in_the_pages() {
    let ring: CircularBuffer<u16> = CircularBuffer::allocate(1);
    assert_eq!(ring.capacity(), 2048);
    assert_eq!(ring.size(), 0);
    let ring: CircularBuffer<u64> = CircularBuffer::allocate(2);
    assert_eq!(ring.capacity(), 1024);
    let ring: CircularBuffer<u8> = CircularBuffer::allocate(0);
    assert_eq!(ring.capacity(), 0);
}

#[test]
fn ring_is_first_in_first_out() {
    let mut ring: CircularBuffer<u16> = CircularBuffer::allocate(1);
    ring.writer().push_back(10);
    ring.writer().push_back(20);
    ring.writer().push_back(30);
    assert_eq!(ring.size(), 3);
    assert_eq!(ring.reader().pop_front(), 10);
    assert_eq!(ring.reader().pop_front(), 20);
    ring.writer().push_back(40);
    assert_eq!(ring.size(), 2);
    assert_eq!(ring.reader().pop_front(), 30);
    assert_eq!(ring.reader().pop_front(), 40);
    assert_eq!(ring.size(), 0);
}

#[test]
fn ring_wraps_around_its_end() {
    // Four slots of 1024 bytes in one page; three can hold elements.
    let mut ring: CircularBuffer<[u64; 128]> = CircularBuffer::allocate(1);
    assert_eq!(ring.capacity(), 4);
    for round in 0..10u64 {
        ring.writer().push_back([round; 128]);
        ring.writer().push_back([round + 100; 128]);
        ring.writer().push_back([round + 200; 128]);
        assert_eq!(ring.size(), 3);
        assert_eq!(ring.reader().pop_front()[0], round);
        assert_eq!(ring.reader().pop_front()[5], round + 100);
        assert_eq!(ring.size(), 1);
        assert_eq!(ring.reader().pop_front()[127], round + 200);
        assert_eq!(ring.size(), 0);
    }
}

#[test]
fn guards_see_the_same_ring() {
    let mut ring: CircularBuffer<u16> = CircularBuffer::allocate(1);
    {
        let mut w = ring.writer();
        w.push_back(1);
        w.push_back(2);
        assert_eq!(w.size(), 2);
    }
    {
        let mut r = ring.reader();
        assert_eq!(r.size(), 2);
        assert_eq!(r.pop_front(), 1);
        assert_eq!(r.size(), 1);
    }
    assert_eq!(ring.size(), 1);
}

#[test]
fn ring_holds_one_less_than_its_capacity() {
    let mut ring: CircularBuffer<[u64; 128]> = CircularBuffer::allocate(1);
    ring.writer().push_back([1; 128]);
    ring.reader().pop_front();
    ring.writer().push_back([2; 128]);
    ring.writer().push_back([3; 128]);
    ring.writer().push_back([4; 128]);
    assert_eq!(ring.size(), 3);
    assert_eq!(ring.reader().pop_front()[0], 2);
    assert_eq!(ring.reader().pop_front()[0], 3);
    assert_eq!(ring.reader().pop_front()[0], 4);
}

#[test]
fn decoder_combines_extended_prefix_with_next_byte() {
    let mut dec = ScancodeDecoder::new();
    assert_eq!(dec.on_scancode(0x1E), Some(0x001E));
    assert_eq!(dec.on_scancode(EXTENDED_PREFIX), None);
    assert_eq!(dec.extended, 0xE0);
    assert_eq!(dec.on_scancode(0x48), Some(0xE048));
    assert_eq!(dec.extended, 0);
    assert_eq!(dec.on_scancode(0x9E), Some(0x009E));
}

#[test]
fn decoder_repeated_prefix_stays_pending() {
    let mut dec = ScancodeDecoder::new();
    assert_eq!(dec.on_scancode(0xE0), None);
    assert_eq!(dec.on_scancode(0xE0), None);
    assert_eq!(dec.on_scancode(0xC8), Some(0xE0C8));
}

#[test]
fn poll_event_takes_oldest_event() {
    let mut events: CircularBuffer<u16> = CircularBuffer::allocate(1);
    assert_eq!(poll_event(&mut events), None);
    events.writer().push_back(0x1E);
    events.writer().push_back(0xE048);
    assert_eq!(poll_event(&mut events), Some(0x1E));
    assert_eq!(poll_event(&mut events), Some(0xE048));
    assert_eq!(poll_event(&mut events), None);
}

#[test]
fn scancodes_are_queued_as_events() {
    let mut dec = ScancodeDecoder::new();
    let mut events: CircularBuffer<u16> = CircularBuffer::allocate(1);
    queue_scancode(&mut dec, &mut events, 0x1E);
    queue_scancode(&mut dec, &mut events, 0xE0);
    assert_eq!(events.size(), 1);
    queue_scancode(&mut dec, &mut events, 0x48);
    queue_scancode(&mut dec, &mut events, 0x9E);
    assert_eq!(poll_event(&mut events), Some(0x1E));
    assert_eq!(poll_event(&mut events), Some(0xE048));
    assert_eq!(poll_event(&mut events), Some(0x9E));
    assert_eq!(poll_event(&mut events), None);
}

#[test]
fn a_full_ring_gives_back_its_values_in_order() {
    let mut ring: CircularBuffer<u16> = CircularBuffer::allocate(1);
    for round in 0..3u16 {
        for v in 0..2047u16 {
            ring.writer().push_back(v ^ round);
        }
        assert_eq!(ring.size(), 2047);
        for v in 0..2047u16 {
            assert_eq!(ring.reader().pop_front(), v ^ round);
        }
        assert_eq!(ring.size(), 0);
    }
}
