//! The PS/2 keyboard: scan code bytes become keyboard events, which the
//! interrupt handler queues for the console.

use vstd::prelude::*;
use crate::sync::CircularBuffer;

verus! {

/// The prefix byte of extended scan codes.
pub const EXTENDED_PREFIX: u8 = 0xE0;

/// Turns the bytes the keyboard sends into keyboard events: an extended
/// prefix byte is remembered and combined with the byte that follows it.
pub struct ScancodeDecoder {
    pub extended: u8,
}

impl ScancodeDecoder {
    /// A decoder with no pending prefix.
    pub fn new() -> (r: Self)
        ensures
            r.extended == 0,
    {
        ScancodeDecoder { extended: 0 }
    }

    /// Handles one byte from the keyboard. The prefix byte gives no event
    /// and is remembered; another byte gives the event made of the pending
    /// prefix (or 0) as its high byte and the byte as its low byte, and
    /// clears the prefix.
    pub fn on_scancode(&mut self, scancode: u8) -> (r: Option<u16>)
        ensures
            scancode == EXTENDED_PREFIX ==> r is None && final(self).extended == EXTENDED_PREFIX,
            scancode != EXTENDED_PREFIX ==> r == Some((old(self).extended * 256 + scancode) as u16)
                && final(self).extended == 0,
    {
        let extended = self.extended;
        self.extended = 0;
        if scancode == EXTENDED_PREFIX {
            self.extended = scancode;
            return None;
        }
        let high = extended as u16;
        let low = scancode as u16;
        proof {
            lemma_combine(high, low);
        }
        Some((high << 8) | low)
    }
}

proof fn lemma_combine(high: u16, low: u16)
    by (bit_vector)
    requires
        high < 256,
        low < 256,
    ensures
        (high << 8u16) | low == high * 256 + low,
{
}

/// Handles a byte from the keyboard in the interrupt handler: the event it
/// completes, if any, is queued. The queue must have room for it.
pub fn queue_scancode(decoder: &mut ScancodeDecoder, events: &mut CircularBuffer<u16>, scancode: u8)
    requires
        old(events).wf(),
        scancode != EXTENDED_PREFIX ==> old(events)@.len() + 1 < old(events).capacity_spec(),
    ensures
        final(events).wf(),
        final(events).capacity_spec() == old(events).capacity_spec(),
        scancode == EXTENDED_PREFIX ==> final(decoder).extended == EXTENDED_PREFIX && final(events)@
            == old(events)@,
        scancode != EXTENDED_PREFIX ==> final(decoder).extended == 0 && final(events)@ == old(
            events,
        )@.push((old(decoder).extended * 256 + scancode) as u16),
{
    match decoder.on_scancode(scancode) {
        Some(event) => {
            let mut writer = events.writer();
            writer.push_back(event);
        },
        None => {},
    }
}

/// Takes the oldest keyboard event from the queue, if there is one.
pub fn poll_event(events: &mut CircularBuffer<u16>) -> (r: Option<u16>)
    requires
        old(events).wf(),
    ensures
        final(events).wf(),
        old(events)@.len() == 0 ==> r is None && final(events)@ == old(events)@,
        old(events)@.len() > 0 ==> r == Some(old(events)@[0]) && final(events)@ == old(
            events,
        )@.drop_first(),
{
    let mut reader = events.reader();
    if reader.size() == 0 {
        return None;
    }
    Some(reader.pop_front())
}

} // verus!
