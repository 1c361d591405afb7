//! Sending text over a 16550-compatible serial port: one byte at a time, each
//! as soon as the transmit register is empty.

use vstd::prelude::*;

verus! {

/// Where the port's registers are.
pub const UART0_BASE: u64 = 0x1000_0000;

/// The offset of the line status register.
pub const LSR_OFFSET: u64 = 5;

/// The bit of the line status register that says that the transmit register is
/// empty.
pub const LSR_THR_EMPTY: u8 = 0x20;

/// What to do with the port next.
#[derive(Clone, Copy, PartialEq, Eq, Structural, Debug)]
pub enum PortAction {
    /// Read the line status again.
    Poll,
    /// Write this byte to the transmit register.
    Write { byte: u8 },
    /// Everything has been written.
    Done,
}

/// Text on its way out over the port.
pub struct Uart<'a> {
    pub text: &'a [u8],
    pub sent: usize,
}

/// The line status says that a byte may be written.
pub open spec fn ready_to_send(status: u8) -> bool {
    status & LSR_THR_EMPTY != 0
}

/// What to do when `sent` bytes of `text` are out and the line status is
/// `status`.
pub open spec fn action_of(text: Seq<u8>, sent: int, status: u8) -> PortAction {
    if sent >= text.len() {
        PortAction::Done
    } else if ready_to_send(status) {
        PortAction::Write { byte: text[sent] }
    } else {
        PortAction::Poll
    }
}

/// How many bytes are out after that: a byte to write counts as out.
pub open spec fn sent_next(text: Seq<u8>, sent: int, status: u8) -> int {
    if action_of(text, sent, status) is Write {
        sent + 1
    } else {
        sent
    }
}

/// How many bytes of `text` are out after the line status has been read
/// `statuses.len()` times.
pub open spec fn sent_after(text: Seq<u8>, statuses: Seq<u8>) -> int
    decreases statuses.len(),
{
    if statuses.len() == 0 {
        0
    } else {
        sent_next(text, sent_after(text, statuses.drop_last()), statuses.last())
    }
}

/// What has been written after those readings.
pub open spec fn written_after(text: Seq<u8>, statuses: Seq<u8>) -> Seq<u8>
    decreases statuses.len(),
{
    if statuses.len() == 0 {
        Seq::empty()
    } else {
        let less = statuses.drop_last();
        match action_of(text, sent_after(text, less), statuses.last()) {
            PortAction::Write { byte } => written_after(text, less).push(byte),
            _ => written_after(text, less),
        }
    }
}

/// How many of the readings allow a byte to be written: bit 5 says so.
pub open spec fn ready_count(statuses: Seq<u8>) -> int
    decreases statuses.len(),
{
    if statuses.len() == 0 {
        0
    } else {
        ready_count(statuses.drop_last()) + (if (statuses.last() / 32) % 2 == 1 {
            1int
        } else {
            0
        })
    }
}

impl<'a> Uart<'a> {
    /// No more bytes are out than there are.
    pub open spec fn wf(&self) -> bool {
        self.sent <= self.text@.len()
    }

    /// Text of which nothing is out yet.
    pub fn new(text: &'a [u8]) -> (uart: Uart<'a>)
        ensures
            uart.wf(),
            uart.text@ == text@,
            uart.sent == 0,
    {
        Uart { text, sent: 0 }
    }

    /// What to do, now that the line status reads `status`. A byte to write
    /// counts as out.
    pub fn putc(&mut self, status: u8) -> (action: PortAction)
        requires
            old(self).wf(),
        ensures
            final(self).wf(),
            final(self).text == old(self).text,
            action == action_of(old(self).text@, old(self).sent as int, status),
            final(self).sent == sent_next(old(self).text@, old(self).sent as int, status),
    {
        if self.sent >= self.text.len() {
            return PortAction::Done;
        }
        if status & LSR_THR_EMPTY == 0 {
            return PortAction::Poll;
        }
        let byte: u8 = self.text[self.sent];
        self.sent = self.sent + 1;
        PortAction::Write { byte }
    }
}

/// Whatever the port says and whenever, what has been written is the
/// beginning of the text, in order, each byte once; and once the port has been
/// ready as often as the text is long, all of it is out.
pub proof fn law_text_goes_out_in_order(text: Seq<u8>, statuses: Seq<u8>)
    ensures
        0 <= sent_after(text, statuses) <= text.len(),
        written_after(text, statuses) == text.take(sent_after(text, statuses)),
        sent_after(text, statuses) == (if ready_count(statuses) <= text.len() {
            ready_count(statuses)
        } else {
            text.len() as int
        }),
    decreases statuses.len(),
{
    if statuses.len() == 0 {
        assert(text.take(0) =~= Seq::empty());
    } else {
        let less = statuses.drop_last();
        law_text_goes_out_in_order(text, less);
        let sent = sent_after(text, less);
        let status = statuses.last();
        assert(status & 0x20 != 0 <==> (status / 32) % 2 == 1) by (bit_vector);
        if action_of(text, sent, statuses.last()) is Write {
            assert(text.take(sent).push(text[sent]) =~= text.take(sent + 1));
        }
    }
}

} // verus!
