//! COM1 serial output, as the bytes it transmits.
//!
//! The port keeps the bytes written to it until the owner of the hardware
//! takes them and sends them; [`configuration_writes`] is the register
//! sequence that puts the UART at 115200 baud, 8N1, FIFO on.

use vstd::prelude::*;

verus! {

/// COM1 base I/O port.
pub const SERIAL_PORT_COM1_BASE_ADDRESS: u16 = 0x3F8;

/// Line-status register, whose bit 5 says the transmit buffer is empty.
pub const SERIAL_LINE_STATUS_REGISTER: u16 = 0x3FD;

/// Line-status bit: transmit holding register empty.
pub const SERIAL_LINE_STATUS_TRANSMIT_EMPTY_BIT: u8 = 0x20;

/// The register writes, in order, that program COM1 for 115200 baud, 8N1,
/// FIFO enabled, interrupts off: `(port, value)`.
pub open spec fn configuration_sequence() -> Seq<(u16, u8)> {
    seq![
        (0x3FBu16, 0x80u8),
        (0x3F8u16, 0x01u8),
        (0x3F9u16, 0x00u8),
        (0x3FBu16, 0x03u8),
        (0x3F9u16, 0x00u8),
        (0x3FAu16, 0xC7u8),
        (0x3FCu16, 0x0Bu8),
    ]
}

/// The register writes that program COM1: divisor latch on, divisor 1
/// (115200 baud), 8N1 with the latch off, interrupts off, FIFO on with a
/// 14-byte threshold, modem control ready.
pub fn configuration_writes() -> (writes: Vec<(u16, u8)>)
    ensures
        writes@ == configuration_sequence(),
{
    let writes = vec![
        (0x3FBu16, 0x80u8),
        (0x3F8u16, 0x01u8),
        (0x3F9u16, 0x00u8),
        (0x3FBu16, 0x03u8),
        (0x3F9u16, 0x00u8),
        (0x3FAu16, 0xC7u8),
        (0x3FCu16, 0x0Bu8),
    ];
    assert(writes@ =~= configuration_sequence());
    writes
}

/// Whether a line-status value says the transmitter can take a byte.
pub fn transmit_buffer_empty(line_status: u8) -> (empty: bool)
    ensures
        empty == (line_status & SERIAL_LINE_STATUS_TRANSMIT_EMPTY_BIT != 0),
{
    line_status & SERIAL_LINE_STATUS_TRANSMIT_EMPTY_BIT != 0
}

/// Text as the terminal gets it: every line feed preceded by a carriage
/// return.
pub open spec fn crlf(text: Seq<u8>) -> Seq<u8>
    decreases text.len(),
{
    if text.len() == 0 {
        Seq::empty()
    } else {
        crlf(text.drop_last()) + if text.last() == 10 {
            seq![13u8, 10u8]
        } else {
            seq![text.last()]
        }
    }
}

/// Law: text is sent piece by piece, each byte as itself except a line
/// feed, which goes out as a carriage return and a line feed: what two
/// pieces become is what each becomes, one after the other, and nothing
/// becomes nothing.
pub proof fn lemma_crlf_byte_by_byte(text: Seq<u8>, more: Seq<u8>, byte: u8)
    ensures
        crlf(Seq::<u8>::empty()) == Seq::<u8>::empty(),
        crlf(seq![byte]) == if byte == 10 {
            seq![13u8, 10u8]
        } else {
            seq![byte]
        },
        crlf(text + more) == crlf(text) + crlf(more),
    decreases more.len(),
{
    assert(seq![byte].drop_last() =~= Seq::<u8>::empty());
    assert(crlf(Seq::<u8>::empty()) == Seq::<u8>::empty());
    assert(crlf(seq![byte]) == crlf(Seq::<u8>::empty()) + if byte == 10 {
        seq![13u8, 10u8]
    } else {
        seq![byte]
    });
    assert(Seq::<u8>::empty() + seq![13u8, 10u8] =~= seq![13u8, 10u8]);
    assert(Seq::<u8>::empty() + seq![byte] =~= seq![byte]);
    if more.len() > 0 {
        lemma_crlf_byte_by_byte(text, more.drop_last(), byte);
        assert((text + more).drop_last() =~= text + more.drop_last());
        assert((text + more).last() == more.last());
    } else {
        assert(text + more =~= text);
    }
}

/// COM1 serial output port.
pub struct SerialOutputPort {
    transmitted: Vec<u8>,
}

impl SerialOutputPort {
    /// The bytes written and not yet taken.
    pub closed spec fn output(self) -> Seq<u8> {
        self.transmitted@
    }

    /// A port with nothing written yet.
    pub fn initialize() -> (port: Self)
        ensures
            port.output() == Seq::<u8>::empty(),
    {
        SerialOutputPort { transmitted: Vec::new() }
    }

    /// Write one byte.
    pub fn write_byte(&mut self, byte_value: u8)
        ensures
            final(self).output() == old(self).output().push(byte_value),
    {
        self.transmitted.push(byte_value);
    }

    /// Write text, with a carriage return before every line feed.
    pub fn write_text(&mut self, text: &[u8])
        ensures
            final(self).output() == old(self).output() + crlf(text@),
    {
        let ghost start = self.output();
        let mut index: usize = 0;
        while index < text.len()
            invariant
                index <= text@.len(),
                self.output() == start + crlf(text@.subrange(0, index as int)),
            decreases text@.len() - index,
        {
            let byte_value = text[index];
            if byte_value == 10 {
                self.write_byte(13);
            }
            self.write_byte(byte_value);
            proof {
                let taken = text@.subrange(0, index + 1);
                assert(taken.drop_last() =~= text@.subrange(0, index as int));
                assert(taken.last() == byte_value);
            }
            index = index + 1;
            assert(self.output() =~= start + crlf(text@.subrange(0, index as int)));
        }
        assert(text@.subrange(0, text@.len() as int) =~= text@);
    }

    /// Take the bytes written so far, leaving the port empty.
    pub fn take_output(&mut self) -> (bytes: Vec<u8>)
        ensures
            bytes@ == old(self).output(),
            final(self).output() == Seq::<u8>::empty(),
    {
        let mut bytes = Vec::new();
        std::mem::swap(&mut bytes, &mut self.transmitted);
        bytes
    }
}

} // verus!
