//! Packets of the standard streams: one byte for the stream, then the data.
use vstd::prelude::*;
use vstd::slice::slice_subrange;

verus! {

/// The stream that a packet belongs to.
#[derive(Debug, Clone, Copy, PartialEq, Eq, Structural)]
pub enum StreamType {
    Stdin,
    Stdout,
    Stderr,
}

impl StreamType {
    /// The byte that stands for a stream.
    pub open spec fn byte(self) -> u8 {
        match self {
            StreamType::Stdin => 0x00,
            StreamType::Stdout => 0x01,
            StreamType::Stderr => 0x02,
        }
    }

    fn to_byte(self) -> (r: u8)
        ensures
            r == self.byte(),
    {
        match self {
            StreamType::Stdin => 0x00,
            StreamType::Stdout => 0x01,
            StreamType::Stderr => 0x02,
        }
    }
}

/// The stream that a byte stands for; any other byte stands for standard input.
pub open spec fn stream_of(byte: u8) -> StreamType {
    if byte == 0x01 {
        StreamType::Stdout
    } else if byte == 0x02 {
        StreamType::Stderr
    } else {
        StreamType::Stdin
    }
}

/// A packet of a stream.
pub open spec fn packet(stream_type: StreamType, data: Seq<u8>) -> Seq<u8> {
    seq![stream_type.byte()] + data
}

/// The stream and the data of a packet; an empty packet is empty input.
pub open spec fn unpacked(data: Seq<u8>) -> (StreamType, Seq<u8>) {
    if data.len() == 0 {
        (StreamType::Stdin, Seq::empty())
    } else {
        (stream_of(data[0]), data.skip(1))
    }
}

/// Makes a packet of a stream.
pub fn wrap_packet(stream_type: StreamType, data: &[u8]) -> (r: Vec<u8>)
    ensures
        r@ == packet(stream_type, data@),
{
    let mut out: Vec<u8> = Vec::new();
    out.push(stream_type.to_byte());
    let mut i: usize = 0;
    assert(out@ =~= packet(stream_type, data@.take(0)));
    while i < data.len()
        invariant
            i <= data@.len(),
            out@ == packet(stream_type, data@.take(i as int)),
        decreases data@.len() - i,
    {
        out.push(data[i]);
        i = i + 1;
        assert(out@ =~= packet(stream_type, data@.take(i as int)));
    }
    assert(data@.take(i as int) =~= data@);
    out
}

/// Splits a packet into its stream and its data.
pub fn unwrap_packet(data: &[u8]) -> (r: (StreamType, &[u8]))
    ensures
        (r.0, r.1@) == unpacked(data@),
{
    if data.len() == 0 {
        assert(data@ =~= Seq::empty());
        return (StreamType::Stdin, data);
    }
    let stream_type = if data[0] == 0x01 {
        StreamType::Stdout
    } else if data[0] == 0x02 {
        StreamType::Stderr
    } else {
        StreamType::Stdin
    };
    let rest = slice_subrange(data, 1, data.len());
    assert(rest@ =~= data@.skip(1));
    (stream_type, rest)
}

/// A packet that was made of a stream and data gives both back.
pub proof fn law_packet_round_trip(stream_type: StreamType, data: Seq<u8>)
    ensures
        unpacked(packet(stream_type, data)) == (stream_type, data),
{
    assert(packet(stream_type, data).skip(1) =~= data);
}

/// A packet is one byte longer than its data, and the bytes of the three streams
/// differ: zero stands for input, one for output and two for errors. Any other byte,
/// and no byte, stands for input.
pub proof fn law_packet_layout(stream_type: StreamType, data: Seq<u8>)
    ensures
        packet(stream_type, data).len() == data.len() + 1,
        packet(stream_type, data)[0] == 0 <==> stream_type == StreamType::Stdin,
        packet(stream_type, data)[0] == 1 <==> stream_type == StreamType::Stdout,
        packet(stream_type, data)[0] == 2 <==> stream_type == StreamType::Stderr,
        data.len() == 0 ==> unpacked(data) == (StreamType::Stdin, data),
        data.len() > 0 && data[0] > 2 ==> unpacked(data) == (StreamType::Stdin, data.skip(1)),
        data.len() > 0 && data[0] <= 2 ==> packet(unpacked(data).0, unpacked(data).1) == data,
{
    if data.len() > 0 && data[0] <= 2 {
        assert(packet(unpacked(data).0, unpacked(data).1) =~= data);
    }
    if data.len() == 0 {
        assert(unpacked(data).1 =~= data);
    }
}

} // verus!
