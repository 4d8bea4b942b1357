//! Boot-phase step logger: structured `[BOOT]` lines on the serial console.

use vstd::prelude::*;
use crate::bytes::append_bytes;
use crate::serial::{SerialOutputPort, crlf, lemma_crlf_byte_by_byte};
use vstd::string::StringSliceAdditionalSpecFns;

verus! {

/// `[BOOT] `, the prefix of every step line.
pub open spec fn boot_prefix() -> Seq<u8> {
    seq![91u8, 66, 79, 79, 84, 93, 32]
}

/// `[OK  ]`
pub open spec fn ok_tag() -> Seq<u8> {
    seq![91u8, 79, 75, 32, 32, 93]
}

/// `[STEP]`
pub open spec fn step_tag() -> Seq<u8> {
    seq![91u8, 83, 84, 69, 80, 93]
}

/// `[INFO]`
pub open spec fn info_tag() -> Seq<u8> {
    seq![91u8, 73, 78, 70, 79, 93]
}

/// `[WARN]`
pub open spec fn warn_tag() -> Seq<u8> {
    seq![91u8, 87, 65, 82, 78, 93]
}

/// `[FAIL]`
pub open spec fn fail_tag() -> Seq<u8> {
    seq![91u8, 70, 65, 73, 76, 93]
}

/// `[HALT]`
pub open spec fn halt_tag() -> Seq<u8> {
    seq![91u8, 72, 65, 76, 84, 93]
}

/// The line `[BOOT] <tag> <message>` and its line feed.
pub open spec fn step_line(tag: Seq<u8>, message: Seq<u8>) -> Seq<u8> {
    boot_prefix() + tag + seq![32u8] + message + seq![10u8]
}

/// Eighty `=` and a line feed.
pub open spec fn separator_line() -> Seq<u8> {
    Seq::new(80, |i: int| 61u8).push(10u8)
}

proof fn lemma_crlf_keeps_single_lines(text: Seq<u8>)
    requires
        !text.contains(10u8),
    ensures
        crlf(text) == text,
    decreases text.len(),
{
    if text.len() > 0 {
        let rest = text.drop_last();
        assert(!rest.contains(10u8)) by {
            if rest.contains(10u8) {
                let k = choose|k: int| 0 <= k < rest.len() && rest[k] == 10u8;
                assert(text[k] == 10u8);
            }
        }
        lemma_crlf_keeps_single_lines(rest);
        assert(text.last() != 10u8) by {
            if text.last() == 10u8 {
                assert(text[text.len() - 1] == 10u8);
            }
        }
        assert(rest.push(text.last()) =~= text);
    }
}

/// Law: a boot step line for a one-line message reaches the terminal as
/// `[BOOT] `, the tag, a space, the message byte for byte, and a carriage
/// return and line feed: the message is neither altered nor cut.
pub proof fn lemma_step_line_carries_the_message(tag: Seq<u8>, message: Seq<u8>)
    requires
        !tag.contains(10u8),
        !message.contains(10u8),
    ensures
        crlf(step_line(tag, message)) == boot_prefix() + tag + seq![32u8] + message + seq![13u8, 10u8],
        crlf(step_line(tag, message)).subrange(
            8 + tag.len() as int,
            8 + tag.len() + message.len() as int,
        ) == message,
{
    let head = boot_prefix() + tag + seq![32u8] + message;
    assert(!head.contains(10u8)) by {
        if head.contains(10u8) {
            let k = choose|k: int| 0 <= k < head.len() && head[k] == 10u8;
            if k < 7 {
                assert(boot_prefix()[k] == head[k]);
            } else if k < 7 + tag.len() {
                assert(tag[k - 7] == head[k]);
            } else if k == 7 + tag.len() {
            } else {
                assert(message[k - 8 - tag.len()] == head[k]);
            }
        }
    }
    lemma_crlf_keeps_single_lines(head);
    lemma_crlf_byte_by_byte(head, seq![10u8], 10u8);
    assert(step_line(tag, message) == head + seq![10u8]);
    let out = head + seq![13u8, 10u8];
    assert(out.subrange(8 + tag.len() as int, 8 + tag.len() + message.len() as int) =~= message);
}

/// Writes structured boot log lines to a serial port.
pub struct BootStepLogger {
    serial_output_port: SerialOutputPort,
}

impl BootStepLogger {
    /// Everything the logger has written and the port still holds.
    pub closed spec fn output(self) -> Seq<u8> {
        self.serial_output_port.output()
    }

    /// A logger that owns the given serial port.
    pub fn new(serial_output_port: SerialOutputPort) -> (logger: Self)
        ensures
            logger.output() == serial_output_port.output(),
    {
        Self { serial_output_port }
    }

    /// Print a full-width separator line.
    pub fn separator(&mut self)
        ensures
            final(self).output() == old(self).output() + crlf(separator_line()),
    {
        let mut text: Vec<u8> = Vec::new();
        let mut count: usize = 0;
        while count < 80
            invariant
                count <= 80,
                text@ == Seq::new(count as nat, |i: int| 61u8),
            decreases 80 - count,
        {
            text.push(61);
            count = count + 1;
            assert(text@ =~= Seq::new(count as nat, |i: int| 61u8));
        }
        text.push(10);
        self.serial_output_port.write_text(text.as_slice());
    }

    /// Print a raw line with no `[BOOT]` prefix (used for the banner).
    pub fn line(&mut self, message: &str)
        ensures
            final(self).output() == old(self).output() + crlf(message.spec_bytes().push(10u8)),
    {
        let mut text: Vec<u8> = Vec::new();
        append_bytes(&mut text, message.as_bytes());
        text.push(10);
        self.serial_output_port.write_text(text.as_slice());
    }

    /// `[OK  ]`: a step completed.
    pub fn ok(&mut self, message: &str)
        ensures
            final(self).output() == old(self).output() + crlf(
                step_line(ok_tag(), message.spec_bytes()),
            ),
    {
        let tag = [91u8, 79, 75, 32, 32, 93];
        assert(tag@ =~= ok_tag());
        self.write_prefixed_line(tag.as_slice(), message);
    }

    /// `[STEP]`: a step is starting.
    pub fn step(&mut self, message: &str)
        ensures
            final(self).output() == old(self).output() + crlf(
                step_line(step_tag(), message.spec_bytes()),
            ),
    {
        let tag = [91u8, 83, 84, 69, 80, 93];
        assert(tag@ =~= step_tag());
        self.write_prefixed_line(tag.as_slice(), message);
    }

    /// `[INFO]`: an informational detail.
    pub fn info(&mut self, message: &str)
        ensures
            final(self).output() == old(self).output() + crlf(
                step_line(info_tag(), message.spec_bytes()),
            ),
    {
        let tag = [91u8, 73, 78, 70, 79, 93];
        assert(tag@ =~= info_tag());
        self.write_prefixed_line(tag.as_slice(), message);
    }

    /// `[WARN]`: a non-fatal warning.
    pub fn warn(&mut self, message: &str)
        ensures
            final(self).output() == old(self).output() + crlf(
                step_line(warn_tag(), message.spec_bytes()),
            ),
    {
        let tag = [91u8, 87, 65, 82, 78, 93];
        assert(tag@ =~= warn_tag());
        self.write_prefixed_line(tag.as_slice(), message);
    }

    /// `[FAIL]`: a step failed, with its detail on a second line.
    pub fn fail(&mut self, message: &str, detail: &str)
        ensures
            final(self).output() == old(self).output() + crlf(
                step_line(fail_tag(), message.spec_bytes()),
            ) + crlf(step_line(fail_tag(), detail.spec_bytes())),
    {
        let tag = [91u8, 70, 65, 73, 76, 93];
        assert(tag@ =~= fail_tag());
        self.write_prefixed_line(tag.as_slice(), message);
        self.write_prefixed_line(tag.as_slice(), detail);
    }

    /// `[HALT]`: the kernel is halting.
    pub fn halt(&mut self, message: &str)
        ensures
            final(self).output() == old(self).output() + crlf(
                step_line(halt_tag(), message.spec_bytes()),
            ),
    {
        let tag = [91u8, 72, 65, 76, 84, 93];
        assert(tag@ =~= halt_tag());
        self.write_prefixed_line(tag.as_slice(), message);
    }

    /// Take what has been written, for sending, leaving nothing held.
    pub fn take_output(&mut self) -> (bytes: Vec<u8>)
        ensures
            bytes@ == old(self).output(),
            final(self).output() == Seq::<u8>::empty(),
    {
        self.serial_output_port.take_output()
    }

    fn write_prefixed_line(&mut self, tag: &[u8], message: &str)
        ensures
            final(self).output() == old(self).output() + crlf(step_line(tag@, message.spec_bytes())),
    {
        let prefix = [91u8, 66, 79, 79, 84, 93, 32];
        let mut text: Vec<u8> = Vec::new();
        append_bytes(&mut text, prefix.as_slice());
        append_bytes(&mut text, tag);
        text.push(32);
        append_bytes(&mut text, message.as_bytes());
        text.push(10);
        assert(text@ =~= step_line(tag@, message.spec_bytes()));
        self.serial_output_port.write_text(text.as_slice());
    }
}

} // verus!
