//! The framing of the debug path: every datagram is a fixed header followed
//! by one metric line.

use vstd::prelude::*;

verus! {

/// The length of the header of a datagram.
pub const DROPLET_HEADER_LEN: usize = 5;

/// The version of the protocol, which is the last byte of the header.
pub const DROPLET_VERSION: u8 = 2;

/// The header of a datagram: four zero bytes and the version of the protocol.
pub open spec fn droplet_header() -> Seq<u8> {
    seq![0u8, 0u8, 0u8, 0u8, DROPLET_VERSION]
}

/// The datagram of a metric line: the header and the line's bytes.
pub open spec fn droplet_datagram(line: Seq<u8>) -> Seq<u8> {
    droplet_header() + line
}

/// The buffer in which datagrams are framed, one after the other.
pub struct DropletSink {
    buffer: Vec<u8>,
}

impl DropletSink {
    /// The buffer starts with the header.
    pub closed spec fn wf(&self) -> bool {
        &&& self.buffer@.len() >= DROPLET_HEADER_LEN
        &&& self.buffer@.subrange(0, DROPLET_HEADER_LEN as int) == droplet_header()
    }

    /// The bytes in the buffer.
    pub closed spec fn framed(&self) -> Seq<u8> {
        self.buffer@
    }

    /// A buffer that holds the header and no line.
    pub fn new() -> (sink: DropletSink)
        ensures
            sink.wf(),
            sink.framed() == droplet_header(),
    {
        let mut buffer: Vec<u8> = Vec::new();
        buffer.push(0);
        buffer.push(0);
        buffer.push(0);
        buffer.push(0);
        buffer.push(DROPLET_VERSION);
        assert(buffer@ =~= droplet_header());
        assert(buffer@.subrange(0, DROPLET_HEADER_LEN as int) =~= buffer@);
        DropletSink { buffer }
    }

    /// Frames a metric line: afterwards the buffer holds the header and the
    /// bytes of this line, and nothing of the line before.
    pub fn frame(&mut self, metric: &str)
        requires
            old(self).wf(),
        ensures
            final(self).wf(),
            final(self).framed() == droplet_datagram(vstd::utf8::encode_utf8(metric@)),
    {
        self.buffer.truncate(DROPLET_HEADER_LEN);
        self.buffer.extend_from_slice(metric.as_bytes());
        proof {
            assert(self.buffer@.subrange(0, DROPLET_HEADER_LEN as int) =~= droplet_header());
        }
    }

    /// The datagram that was framed last.
    pub fn datagram(&self) -> (bytes: &Vec<u8>)
        ensures
            bytes@ == self.framed(),
    {
        &self.buffer
    }
}

/// A datagram starts with the header, is as long as the header and the line
/// together, and holds the line behind the header: nothing else.
pub proof fn lemma_datagram(line: Seq<u8>)
    ensures
        droplet_datagram(line).len() == DROPLET_HEADER_LEN + line.len(),
        droplet_datagram(line).subrange(0, DROPLET_HEADER_LEN as int) == droplet_header(),
        droplet_datagram(line).subrange(
            DROPLET_HEADER_LEN as int,
            droplet_datagram(line).len() as int,
        ) == line,
        droplet_header().len() == DROPLET_HEADER_LEN,
        forall|i: int| 0 <= i < 4 ==> droplet_datagram(line)[i] == 0,
        droplet_datagram(line)[4] == DROPLET_VERSION,
{
}

} // verus!
