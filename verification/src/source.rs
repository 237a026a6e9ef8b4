//! Finding packets in bytes: where the pacer's input is aligned.
//!
//! Any producer of MPEG-TS packets is one source of bytes. A MoQ subscriber, an SRT
//! or RIST receiver, a file reader, or a socket all look identical here, and none
//! of them has to deliver on packet boundaries.

use vstd::prelude::*;
use vstd::slice::slice_subrange;

use crate::packet::{bytes_of, is_packet, Packet};
use crate::pcr::{SYNC_BYTE, TS_PACKET_SIZE};

verus! {

/// The packets found in `bytes`: at each position a packet if a sync byte stands
/// there and enough follows, otherwise one byte is passed over.
pub open spec fn packets_in(bytes: Seq<u8>) -> Seq<Seq<u8>>
    decreases bytes.len(),
{
    if bytes.len() < TS_PACKET_SIZE {
        Seq::empty()
    } else if bytes[0] == SYNC_BYTE {
        seq![bytes.take(TS_PACKET_SIZE as int)] + packets_in(bytes.skip(TS_PACKET_SIZE as int))
    } else {
        packets_in(bytes.skip(1))
    }
}

/// What is left of `bytes` once its packets have been found: too little for one
/// more.
pub open spec fn left_of(bytes: Seq<u8>) -> Seq<u8>
    decreases bytes.len(),
{
    if bytes.len() < TS_PACKET_SIZE {
        bytes
    } else if bytes[0] == SYNC_BYTE {
        left_of(bytes.skip(TS_PACKET_SIZE as int))
    } else {
        left_of(bytes.skip(1))
    }
}

/// What is kept of `gathered` once it has been looked at for a packet: nothing of a
/// packet, all but the first byte of something as long as one, and otherwise all.
pub open spec fn kept_of(gathered: Seq<u8>) -> Seq<u8> {
    if is_packet(gathered) {
        Seq::empty()
    } else if gathered.len() == TS_PACKET_SIZE {
        gathered.skip(1)
    } else {
        gathered
    }
}

/// A packet source over a byte reader, reading fixed 188-byte packets.
///
/// This is the generic byte-stream adapter: point it at a socket, a pipe, a
/// file, or process stdin and it hands whole transport packets to the pacer. It
/// resynchronises on the `0x47` sync byte if the stream slips, and a trailing
/// partial packet at the end of the input is never handed over.
///
/// The bytes are read by whoever owns the reader: read at most
/// [`ReadSource::wanted`] of them, hand them to [`ReadSource::fill`], and ask
/// [`ReadSource::next_packet`] for what they complete.
#[derive(Debug)]
pub struct ReadSource<R> {
    reader: R,
    buf: [u8; TS_PACKET_SIZE],
    filled: usize,
}

impl<R> ReadSource<R> {
    /// The bytes gathered towards the next packet.
    pub closed spec fn gathered(&self) -> Seq<u8> {
        self.buf@.take(self.filled as int)
    }

    /// Where the bytes come from.
    pub closed spec fn input(&self) -> R {
        self.reader
    }

    /// No more gathered than a packet.
    pub closed spec fn wf(&self) -> bool {
        self.filled <= TS_PACKET_SIZE
    }

    /// Wrap a reader as a packet source.
    pub fn new(reader: R) -> (r: Self)
        ensures
            r.wf(),
            r.input() == reader,
            r.gathered() == Seq::<u8>::empty(),
    {
        ReadSource { reader, buf: [0u8;TS_PACKET_SIZE], filled: 0 }
    }

    /// The reader, to read from.
    pub fn reader_mut(&mut self) -> (r: &mut R)
        requires
            old(self).wf(),
        ensures
            *r == old(self).input(),
            final(self).input() == *final(r),
            final(self).wf(),
            final(self).gathered() == old(self).gathered(),
    {
        &mut self.reader
    }

    /// How many bytes are wanting for the next packet.
    pub fn wanted(&self) -> (n: usize)
        requires
            self.wf(),
        ensures
            n == TS_PACKET_SIZE - self.gathered().len(),
    {
        TS_PACKET_SIZE - self.filled
    }

    /// Take in bytes read from the reader, no more than were wanted.
    pub fn fill(&mut self, bytes: &[u8])
        requires
            old(self).wf(),
            bytes@.len() <= TS_PACKET_SIZE - old(self).gathered().len(),
        ensures
            final(self).wf(),
            final(self).input() == old(self).input(),
            final(self).gathered() == old(self).gathered() + bytes@,
    {
        let ghost before = self.gathered();
        let ghost from = self.filled;
        let n: usize = bytes.len();
        let mut at: usize = 0;
        while at < n
            invariant
                at <= n,
                n == bytes@.len(),
                self.filled == from + at,
                before.len() == from,
                from + n <= TS_PACKET_SIZE,
                self.wf(),
                self.reader == old(self).reader,
                self.gathered() == before + bytes@.take(at as int),
            decreases n - at,
        {
            let ghost prior = self.gathered();
            let ghost was = self.buf@;
            self.buf[self.filled] = bytes[at];
            assert(self.buf@ == was.update(self.filled as int, bytes@[at as int]));
            self.filled += 1;
            assert(self.gathered() =~= prior.push(bytes@[at as int]));
            assert(bytes@.take(at + 1) =~= bytes@.take(at as int).push(bytes@[at as int]));
            at += 1;
            assert(self.gathered() =~= before + bytes@.take(at as int));
        }
        assert(bytes@.take(n as int) =~= bytes@);
    }

    /// The packet that what has been gathered completes. Where it has the length
    /// of one but has slipped off the sync byte, one byte is dropped instead.
    pub fn next_packet(&mut self) -> (packet: Option<Packet>)
        requires
            old(self).wf(),
        ensures
            final(self).wf(),
            final(self).input() == old(self).input(),
            match packet {
                Some(p) => is_packet(old(self).gathered()) && p@ == old(self).gathered(),
                None => !is_packet(old(self).gathered()),
            },
            final(self).gathered() == kept_of(old(self).gathered()),
    {
        if self.filled < TS_PACKET_SIZE {
            return None;
        }
        assert(self.gathered() =~= self.buf@);
        if self.buf[0] != SYNC_BYTE {
            // Slipped alignment: drop one byte and refill.
            self.drop_byte();
            return None;
        }
        let whole: &[u8] = &self.buf;
        let packet: Option<Packet> = match Packet::from_slice(whole) {
            Ok(packet) => Some(packet),
            Err(_) => None,
        };
        self.filled = 0;
        assert(self.gathered() =~= Seq::<u8>::empty());
        packet
    }

    /// Drop the first of a packet's worth of bytes.
    fn drop_byte(&mut self)
        requires
            old(self).wf(),
            old(self).gathered().len() == TS_PACKET_SIZE,
        ensures
            final(self).wf(),
            final(self).input() == old(self).input(),
            final(self).gathered() == old(self).gathered().skip(1),
    {
        let ghost before = self.buf@;
        let mut at: usize = 0;
        while at < TS_PACKET_SIZE - 1
            invariant
                at <= TS_PACKET_SIZE - 1,
                before.len() == TS_PACKET_SIZE,
                self.filled == TS_PACKET_SIZE,
                self.reader == old(self).reader,
                forall|i: int| 0 <= i < at ==> #[trigger] self.buf@[i] == before[i + 1],
                forall|i: int| at <= i < TS_PACKET_SIZE ==> #[trigger] self.buf@[i] == before[i],
            decreases TS_PACKET_SIZE - at,
        {
            self.buf[at] = self.buf[at + 1];
            at += 1;
        }
        self.filled = TS_PACKET_SIZE - 1;
        assert(self.gathered() =~= before.skip(1));
    }
}

/// Cuts a byte stream that arrives in arbitrary pieces into packets.
///
/// Whole packets are handed over; a trailing partial packet is kept until the next
/// piece. Convenient when reading fixed-size reads off a socket or pipe that don't
/// fall on packet boundaries.
#[derive(Debug)]
pub struct PacketSplitter {
    partial: Vec<u8>,
}

impl PacketSplitter {
    /// The bytes kept back.
    pub closed spec fn kept(&self) -> Seq<u8> {
        self.partial@
    }

    /// A splitter that has seen nothing.
    pub fn new() -> (r: Self)
        ensures
            r.kept() == Seq::<u8>::empty(),
    {
        PacketSplitter { partial: Vec::new() }
    }

    /// Take in `data` and drain the whole packets out of what has gathered.
    pub fn split_packets(&mut self, data: &[u8]) -> (packets: Vec<Packet>)
        ensures
            bytes_of(packets@) == packets_in(old(self).kept() + data@),
            final(self).kept() == left_of(old(self).kept() + data@),
    {
        self.partial.extend_from_slice(data);
        let ghost all = self.partial@;
        assert(all =~= old(self).kept() + data@);
        let n: usize = self.partial.len();
        let mut packets: Vec<Packet> = Vec::new();
        let mut offset: usize = 0;
        assert(all.skip(0) =~= all);
        assert(bytes_of(packets@) + packets_in(all) =~= packets_in(all));
        while n - offset >= TS_PACKET_SIZE
            invariant
                offset <= n == all.len(),
                self.partial@ == all,
                bytes_of(packets@) + packets_in(all.skip(offset as int)) == packets_in(all),
                left_of(all.skip(offset as int)) == left_of(all),
            decreases n - offset,
        {
            let ghost rest = all.skip(offset as int);
            if self.partial[offset] != SYNC_BYTE {
                assert(rest.skip(1) =~= all.skip(offset + 1));
                offset += 1;  // resync on the next candidate byte
            } else {
                let piece: &[u8] = slice_subrange(
                    self.partial.as_slice(),
                    offset,
                    offset + TS_PACKET_SIZE,
                );
                assert(piece@ =~= rest.take(TS_PACKET_SIZE as int));
                assert(rest.skip(TS_PACKET_SIZE as int) =~= all.skip(offset + TS_PACKET_SIZE));
                let ghost before = bytes_of(packets@);
                if let Ok(packet) = Packet::from_slice(piece) {
                    packets.push(packet);
                }
                assert(bytes_of(packets@) =~= before.push(piece@));
                assert(before.push(piece@) + packets_in(all.skip(offset + TS_PACKET_SIZE))
                    =~= before + (seq![piece@] + packets_in(all.skip(offset + TS_PACKET_SIZE))));
                offset += TS_PACKET_SIZE;
            }
        }
        assert(packets_in(all.skip(offset as int)) =~= Seq::<Seq<u8>>::empty());
        assert(bytes_of(packets@) + Seq::<Seq<u8>>::empty() =~= bytes_of(packets@));
        let tail: Vec<u8> = self.partial.split_off(offset);
        self.partial = tail;
        assert(self.partial@ =~= all.skip(offset as int));
        packets
    }
}

/// Where the pieces are cut makes no difference: the packets found in a stream are
/// those found in its first part, then those found in what that leaves and the
/// rest.
pub proof fn law_pieces_do_not_matter(first: Seq<u8>, rest: Seq<u8>)
    ensures
        packets_in(first + rest) == packets_in(first) + packets_in(left_of(first) + rest),
        left_of(first + rest) == left_of(left_of(first) + rest),
    decreases first.len(),
{
    let all = first + rest;
    if first.len() < TS_PACKET_SIZE {
        assert(packets_in(first) + packets_in(all) =~= packets_in(all));
    } else if first[0] == SYNC_BYTE {
        let n = TS_PACKET_SIZE as int;
        law_pieces_do_not_matter(first.skip(n), rest);
        assert(all.take(n) =~= first.take(n));
        assert(all.skip(n) =~= first.skip(n) + rest);
        assert(packets_in(all) =~= packets_in(first) + packets_in(left_of(first) + rest));
    } else {
        law_pieces_do_not_matter(first.skip(1), rest);
        assert(all.skip(1) =~= first.skip(1) + rest);
    }
}

/// Everything found is a packet, and what is kept back is too short to be one.
pub proof fn law_only_whole_packets_are_found(bytes: Seq<u8>)
    ensures
        forall|i: int|
            0 <= i < packets_in(bytes).len() ==> is_packet(#[trigger] packets_in(bytes)[i]),
        left_of(bytes).len() < TS_PACKET_SIZE,
    decreases bytes.len(),
{
    if bytes.len() >= TS_PACKET_SIZE {
        let n = if bytes[0] == SYNC_BYTE {
            TS_PACKET_SIZE as int
        } else {
            1
        };
        law_only_whole_packets_are_found(bytes.skip(n));
        assert forall|i: int| 0 <= i < packets_in(bytes).len() implies is_packet(
            #[trigger] packets_in(bytes)[i],
        ) by {
            if bytes[0] != SYNC_BYTE {
                assert(packets_in(bytes)[i] == packets_in(bytes.skip(n))[i]);
            } else if i > 0 {
                assert(packets_in(bytes)[i] == packets_in(bytes.skip(n))[i - 1]);
            } else {
                assert(packets_in(bytes)[0] == bytes.take(n));
            }
        }
    }
}

/// `reads` put together.
pub open spec fn together(reads: Seq<Seq<u8>>) -> Seq<u8>
    decreases reads.len(),
{
    if reads.len() == 0 {
        Seq::empty()
    } else {
        reads[0] + together(reads.drop_first())
    }
}

/// Whether each of `reads` brings no more than is wanting, from `gathered` on.
pub open spec fn as_wanted(gathered: Seq<u8>, reads: Seq<Seq<u8>>) -> bool
    decreases reads.len(),
{
    reads.len() > 0 ==> {
        &&& gathered.len() + reads[0].len() <= TS_PACKET_SIZE
        &&& as_wanted(kept_of(gathered + reads[0]), reads.drop_first())
    }
}

/// What a source hands over that fills from each of `reads` and then looks for a
/// packet, from `gathered` on.
pub open spec fn handed_over(gathered: Seq<u8>, reads: Seq<Seq<u8>>) -> Seq<Seq<u8>>
    decreases reads.len(),
{
    if reads.len() == 0 {
        Seq::empty()
    } else {
        let filled = gathered + reads[0];
        let rest = handed_over(kept_of(filled), reads.drop_first());
        if is_packet(filled) {
            seq![filled] + rest
        } else {
            rest
        }
    }
}

/// What such a source has gathered in the end.
pub open spec fn gathered_after(gathered: Seq<u8>, reads: Seq<Seq<u8>>) -> Seq<u8>
    decreases reads.len(),
{
    if reads.len() == 0 {
        gathered
    } else {
        gathered_after(kept_of(gathered + reads[0]), reads.drop_first())
    }
}

/// A source hands over the packets of everything it read, and however the reads were
/// cut makes no difference. What it keeps at the end is too short to be a packet.
pub proof fn law_reads_do_not_matter(gathered: Seq<u8>, reads: Seq<Seq<u8>>)
    requires
        gathered.len() < TS_PACKET_SIZE,
        as_wanted(gathered, reads),
    ensures
        handed_over(gathered, reads) == packets_in(gathered + together(reads)),
        gathered_after(gathered, reads) == left_of(gathered + together(reads)),
        gathered_after(gathered, reads).len() < TS_PACKET_SIZE,
    decreases reads.len(),
{
    if reads.len() == 0 {
        assert(gathered + together(reads) =~= gathered);
    } else {
        let n = TS_PACKET_SIZE as int;
        let filled = gathered + reads[0];
        let rest = together(reads.drop_first());
        let all = gathered + together(reads);
        assert(all =~= filled + rest);
        law_reads_do_not_matter(kept_of(filled), reads.drop_first());
        if is_packet(filled) {
            assert(all.take(n) =~= filled);
            assert(all.skip(n) =~= rest);
            assert(kept_of(filled) + rest =~= rest);
        } else if filled.len() == n {
            assert(all.skip(1) =~= filled.skip(1) + rest);
        }
    }
}

} // verus!
