//! Framing messages onto a byte stream.
//!
//! A frame is a four byte network marker, a four byte length, and the message.
//! Both numbers are written least significant byte first.
//!
//! The marker means a peer speaking a different network is recognised on its
//! first four bytes. The length is checked against a hard cap before a single
//! byte is reserved, because it is the one number an anonymous peer gets to
//! choose about this node's memory.
//!
//! A read distinguishes two silences. A peer with nothing to say between
//! frames is normal and must not be disconnected. A peer that opens a frame,
//! announces a length, and then stops is not.
//!
//! Nothing here touches a socket. What a socket did is handed in, one call at
//! a time, with the moment it came back; what is handed out says whether to
//! call again.

use vstd::prelude::*;

use crate::network::NetworkId;

verus! {

/// Largest message this node will read or write.
pub const MAX_FRAME_BYTES: usize = 1_048_576;

/// What a peer may send before it has introduced itself.
pub const MOST_BEFORE_A_NAME: usize = 4_096;

/// Bytes in front of every message: the marker and the length.
pub const HEADER_BYTES: usize = 8;

/// How long a frame may go without getting on with it, in nanoseconds.
pub const FRAME_PATIENCE: u64 = 20_000_000_000;

/// What a frame has to move to be given [`FRAME_PATIENCE`] again.
pub const PROGRESS_BYTES: usize = 65_536;

/// How much this node will read from a peer, by whether it knows who it is.
pub fn most_from(announced: bool) -> (most: usize)
    ensures
        most == if announced {
            MAX_FRAME_BYTES
        } else {
            MOST_BEFORE_A_NAME
        },
{
    if announced {
        MAX_FRAME_BYTES
    } else {
        MOST_BEFORE_A_NAME
    }
}

/// Why a call on a socket came back without moving anything.
#[derive(Clone, Copy, Debug, PartialEq, Eq, Structural)]
pub enum Fault {
    /// A signal arrived. Nothing was lost.
    Interrupted,
    /// One of the two ways a platform says a deadline passed.
    WouldBlock,
    /// The other.
    TimedOut,
    /// The stream ended where more was expected.
    UnexpectedEof,
    /// The stream would take nothing.
    WriteZero,
    /// The connection was cut from the far end.
    ConnectionReset,
    /// Anything else.
    Other,
}

impl Fault {
    /// Whether this is the socket's own deadline passing.
    pub open spec fn deadline(self) -> bool {
        self == Fault::WouldBlock || self == Fault::TimedOut
    }
}

/// Whether an error is the read deadline passing rather than a real failure.
///
/// Platforms disagree on which of the two kinds a socket timeout raises, so
/// both are treated as the deadline.
pub fn is_deadline(fault: Fault) -> (answer: bool)
    ensures
        answer == fault.deadline(),
{
    match fault {
        Fault::WouldBlock | Fault::TimedOut => true,
        _ => false,
    }
}

/// What stopped a frame.
#[derive(Clone, Copy, Debug, PartialEq, Eq, Structural)]
pub enum WireError {
    Io(Fault),
    WrongNetwork { expected: NetworkId, found: NetworkId },
    FrameTooLarge { declared: usize },
    /// The body of the frame is not a message.
    Malformed,
    OversizedSend { size: usize },
    Stalled { had: usize, wanted: usize },
    Unaccepted { sent: usize, size: usize },
}

/// What one read attempt found.
#[derive(Debug)]
pub enum Incoming {
    /// A whole frame arrived, and this is what was in it.
    Message(Vec<u8>),
    /// The deadline passed with no frame open. The peer is simply idle.
    Quiet,
}

/// Four bytes that carry `number`, least significant first.
pub open spec fn word(number: u32) -> Seq<u8> {
    seq![
        (number % 256) as u8,
        (number / 256 % 256) as u8,
        (number / 65_536 % 256) as u8,
        (number / 16_777_216) as u8,
    ]
}

/// The number four bytes carry.
pub open spec fn number_in(bytes: Seq<u8>) -> int {
    bytes[0] + 256 * bytes[1] + 65_536 * bytes[2] + 16_777_216 * bytes[3]
}

/// A word carries the number it was written from, and no other.
pub proof fn a_word_carries_its_number(number: u32)
    ensures
        word(number).len() == 4,
        number_in(word(number)) == number,
{
}

/// The frame that carries `body` on `network`.
pub open spec fn frame(network: NetworkId, body: Seq<u8>) -> Seq<u8> {
    word(network.marker) + word(body.len() as u32) + body
}

fn append_word(bytes: &mut Vec<u8>, number: u32)
    ensures
        final(bytes)@ == old(bytes)@ + word(number),
{
    bytes.push((number % 256) as u8);
    bytes.push((number / 256 % 256) as u8);
    bytes.push((number / 65_536 % 256) as u8);
    bytes.push((number / 16_777_216) as u8);
    assert(bytes@ =~= old(bytes)@ + word(number));
}

fn number_at(bytes: &Vec<u8>, at: usize) -> (number: u32)
    requires
        at + 4 <= bytes.len(),
    ensures
        number == number_in(bytes@.subrange(at as int, at + 4)),
{
    bytes[at] as u32 + 256 * bytes[at + 1] as u32 + 65_536 * bytes[at + 2] as u32 + 16_777_216
        * bytes[at + 3] as u32
}

/// The moment a frame started at `now` runs out of patience.
///
/// A clock so far along that adding to it overflows is no reason to stop
/// framing messages, so the sum saturates at the last moment there is.
pub open spec fn runs_out(now: u64) -> u64 {
    if now + FRAME_PATIENCE <= u64::MAX {
        (now + FRAME_PATIENCE) as u64
    } else {
        u64::MAX
    }
}

/// The moment a frame started at `now` runs out of patience.
pub fn patience_from(now: u64) -> (by: u64)
    ensures
        by == runs_out(now),
        now < u64::MAX ==> now < by,
{
    now.saturating_add(FRAME_PATIENCE)
}

/// How long a frame may go without getting on with it.
///
/// Carried across both halves of a read, so the header and the body are one
/// frame and not two deadlines.
#[derive(Clone, Copy, Debug, PartialEq, Eq, Structural)]
pub struct Patience {
    /// The moment it runs out, in the nanoseconds the caller counts in.
    pub by: u64,
    /// Bytes moved when the deadline was last renewed.
    pub marked: usize,
}

impl Patience {
    /// Whether moving `moved` bytes earns a fresh deadline.
    pub open spec fn earned(self, moved: usize) -> bool {
        moved - self.marked >= PROGRESS_BYTES
    }

    /// The patience left once it has been asked about `moved` bytes at `now`.
    pub open spec fn asked(self, moved: usize, now: u64) -> Patience {
        if self.earned(moved) {
            Patience { by: runs_out(now), marked: moved }
        } else {
            self
        }
    }

    /// Whether a frame that has moved `moved` bytes by `now` may carry on.
    pub open spec fn lasts(self, moved: usize, now: u64) -> bool {
        self.earned(moved) || now < self.by
    }

    pub fn started(now: u64) -> (patience: Patience)
        ensures
            patience == (Patience { by: runs_out(now), marked: 0 }),
    {
        Patience { by: patience_from(now), marked: 0 }
    }

    /// Whether a frame that has moved `moved` bytes by `now` may carry on.
    ///
    /// Renewed by progress rather than by time: the difference between judging
    /// a peer on how fast it is and judging it on whether it is still going.
    pub fn holds(&mut self, moved: usize, now: u64) -> (holds: bool)
        ensures
            holds == old(self).lasts(moved, now),
            *final(self) == old(self).asked(moved, now),
    {
        if moved.saturating_sub(self.marked) >= PROGRESS_BYTES {
            self.marked = moved;
            self.by = patience_from(now);
            return true;
        }
        now < self.by
    }
}

/// What one call on a socket handed over.
#[derive(Debug)]
pub enum Arrival {
    /// Bytes. None at all is the end of the stream.
    Bytes(Vec<u8>),
    Failed(Fault),
}

impl Arrival {
    /// The bytes that came, if any did.
    pub open spec fn bytes(&self) -> Seq<u8> {
        match self {
            Arrival::Bytes(bytes) => bytes@,
            Arrival::Failed(_) => Seq::empty(),
        }
    }

    /// Whether what came stops nothing: bytes, or a signal.
    pub open spec fn goes_on(&self) -> bool {
        match self {
            Arrival::Bytes(bytes) => bytes@.len() > 0,
            Arrival::Failed(fault) => fault == Fault::Interrupted,
        }
    }
}

#[derive(Clone, Copy, Debug, PartialEq, Eq, Structural)]
pub enum Filled {
    Complete,
    /// The deadline passed before the first byte.
    Nothing,
}

/// A run of bytes being read, and how many of them there are to be.
#[derive(Debug)]
pub struct Buffer {
    pub bytes: Vec<u8>,
    pub wanted: usize,
}

impl Buffer {
    pub open spec fn wf(&self) -> bool {
        self.bytes@.len() <= self.wanted
    }

    /// Bytes still to come.
    pub open spec fn short_by(&self) -> int {
        self.wanted - self.bytes@.len()
    }

    pub fn new(wanted: usize) -> (buffer: Buffer)
        ensures
            buffer.wf(),
            buffer.wanted == wanted,
            buffer.bytes@ == Seq::<u8>::empty(),
    {
        Buffer { bytes: Vec::new(), wanted }
    }

    /// Bytes still to come, which is how many the next read may hand over.
    pub fn rest(&self) -> (rest: usize)
        requires
            self.wf(),
        ensures
            rest == self.short_by(),
    {
        self.wanted - self.bytes.len()
    }
}

/// Takes what one read handed over into `buffer`, and says which silence, if
/// either, stopped it. `None` is a buffer still short, to be read into again.
///
/// Two ways of never finishing, and they need different answers. A peer that
/// opens a frame and stops is caught by the socket's own deadline, on the read
/// that finds nothing. A peer that opens a frame and dribbles is caught by
/// `patience`, because it never lets that deadline fire.
pub fn fill(buffer: &mut Buffer, arrival: Arrival, patience: &mut Patience, now: u64) -> (outcome:
    Result<Option<Filled>, WireError>)
    requires
        old(buffer).wf(),
        old(buffer).short_by() > 0,
        arrival.bytes().len() <= old(buffer).short_by(),
    ensures
        final(buffer).wf(),
        final(buffer).wanted == old(buffer).wanted,
        final(buffer).bytes@ == old(buffer).bytes@ + arrival.bytes(),
        // The patience is asked of a buffer that is still short and that
        // nothing else stopped, and of no other.
        *final(patience) == if arrival.goes_on() && final(buffer).short_by() > 0 {
            old(patience).asked(final(buffer).bytes@.len() as usize, now)
        } else {
            *old(patience)
        },
        match arrival {
            Arrival::Bytes(bytes) if bytes@.len() == 0 => outcome == Err::<Option<Filled>, WireError>(
                WireError::Io(Fault::UnexpectedEof),
            ),
            Arrival::Failed(fault) if fault.deadline() => if old(buffer).bytes@.len() == 0 {
                outcome == Ok::<Option<Filled>, WireError>(Some(Filled::Nothing))
            } else {
                outcome == Err::<Option<Filled>, WireError>(
                    WireError::Stalled {
                        had: old(buffer).bytes@.len() as usize,
                        wanted: old(buffer).wanted,
                    },
                )
            },
            Arrival::Failed(fault) if fault != Fault::Interrupted => outcome == Err::<
                Option<Filled>,
                WireError,
            >(WireError::Io(fault)),
            _ => if final(buffer).short_by() == 0 {
                outcome == Ok::<Option<Filled>, WireError>(Some(Filled::Complete))
            } else if old(patience).lasts(final(buffer).bytes@.len() as usize, now) {
                outcome == Ok::<Option<Filled>, WireError>(None)
            } else {
                outcome == Err::<Option<Filled>, WireError>(
                    WireError::Stalled {
                        had: final(buffer).bytes@.len() as usize,
                        wanted: old(buffer).wanted,
                    },
                )
            },
        },
{
    let had: usize = buffer.bytes.len();
    match arrival {
        Arrival::Bytes(bytes) => {
            if bytes.len() == 0 {
                assert(buffer.bytes@ =~= old(buffer).bytes@ + bytes@);
                return Err(WireError::Io(Fault::UnexpectedEof));
            }
            let mut bytes = bytes;
            buffer.bytes.append(&mut bytes);
        },
        Arrival::Failed(fault) => {
            assert(buffer.bytes@ =~= old(buffer).bytes@ + Seq::<u8>::empty());
            if is_deadline(fault) {
                if had == 0 {
                    return Ok(Some(Filled::Nothing));
                }
                return Err(WireError::Stalled { had, wanted: buffer.wanted });
            }
            match fault {
                Fault::Interrupted => {},
                _ => {
                    return Err(WireError::Io(fault));
                },
            }
        },
    }
    let had: usize = buffer.bytes.len();
    if had == buffer.wanted {
        return Ok(Some(Filled::Complete));
    }
    if !patience.holds(had, now) {
        return Err(WireError::Stalled { had, wanted: buffer.wanted });
    }
    Ok(None)
}

/// What one call that writes did.
#[derive(Clone, Copy, Debug, PartialEq, Eq, Structural)]
pub enum Departure {
    /// Bytes taken by the far end. None at all is a stream that takes no more.
    Count(usize),
    Failed(Fault),
}

impl Departure {
    pub open spec fn count(self) -> int {
        match self {
            Departure::Count(count) => count as int,
            Departure::Failed(_) => 0,
        }
    }
}

/// Counts what one write handed over towards `size` bytes, or gives up on the
/// peer. `true` is the whole of them sent.
///
/// The mirror of [`fill`], and there for the mirror reason: a peer accepting
/// one byte per deadline restarts the deadline every time. A writer carries no
/// deadline of its own to be quiet under, so every failure but a signal is a
/// failed connection.
pub fn drain(sent: &mut usize, size: usize, departure: Departure, patience: &mut Patience, now: u64) -> (outcome:
    Result<bool, WireError>)
    requires
        *old(sent) < size,
        *old(sent) + departure.count() <= size,
    ensures
        *final(sent) == *old(sent) + departure.count(),
        *final(patience) == if *final(sent) < size && (departure == Departure::Failed(
            Fault::Interrupted,
        ) || departure.count() > 0) {
            old(patience).asked(*final(sent), now)
        } else {
            *old(patience)
        },
        match departure {
            Departure::Count(count) if count == 0 => outcome == Err::<bool, WireError>(
                WireError::Io(Fault::WriteZero),
            ),
            Departure::Failed(fault) if fault != Fault::Interrupted => outcome == Err::<
                bool,
                WireError,
            >(WireError::Io(fault)),
            _ => if *final(sent) == size {
                outcome == Ok::<bool, WireError>(true)
            } else if old(patience).lasts(*final(sent), now) {
                outcome == Ok::<bool, WireError>(false)
            } else {
                outcome == Err::<bool, WireError>(WireError::Unaccepted { sent: *final(sent), size })
            },
        },
{
    match departure {
        Departure::Count(count) => {
            if count == 0 {
                return Err(WireError::Io(Fault::WriteZero));
            }
            *sent = *sent + count;
        },
        Departure::Failed(fault) => match fault {
            Fault::Interrupted => {},
            _ => {
                return Err(WireError::Io(fault));
            },
        },
    }
    if *sent == size {
        return Ok(true);
    }
    if !patience.holds(*sent, now) {
        return Err(WireError::Unaccepted { sent: *sent, size });
    }
    Ok(false)
}

/// The frame that carries `body`, or a refusal to send one over this node's
/// own limit.
pub fn write_message(network: NetworkId, body: &Vec<u8>) -> (outcome: Result<Vec<u8>, WireError>)
    ensures
        match outcome {
            Ok(bytes) => body@.len() <= MAX_FRAME_BYTES && bytes@ == frame(network, body@),
            Err(error) => body@.len() > MAX_FRAME_BYTES && error == (WireError::OversizedSend {
                size: body@.len() as usize,
            }),
        },
{
    if body.len() > MAX_FRAME_BYTES {
        return Err(WireError::OversizedSend { size: body.len() });
    }
    let length: u32 = body.len() as u32;
    let mut bytes: Vec<u8> = Vec::with_capacity(body.len() + HEADER_BYTES);
    append_word(&mut bytes, network.as_u32());
    append_word(&mut bytes, length);
    bytes.extend_from_slice(body.as_slice());
    assert(bytes@ =~= frame(network, body@));
    Ok(bytes)
}

/// How many bytes of body `most` allows a peer to ask for.
pub open spec fn cap(most: usize) -> usize {
    if most <= MAX_FRAME_BYTES {
        most
    } else {
        MAX_FRAME_BYTES
    }
}

/// What a whole header says: the length of the body to come, or why there is
/// to be none.
pub open spec fn header_says(network: NetworkId, most: usize, header: Seq<u8>) -> Result<usize, WireError> {
    let marker = number_in(header.subrange(0, 4)) as u32;
    let declared = number_in(header.subrange(4, 8)) as usize;
    if marker != network.marker {
        Err(WireError::WrongNetwork { expected: network, found: NetworkId { marker } })
    } else if declared > cap(most) {
        Err(WireError::FrameTooLarge { declared })
    } else {
        Ok(declared)
    }
}

/// What the bytes read so far amount to.
pub enum Parsed {
    /// A frame with more to come.
    Short,
    /// Something that is no frame this node reads.
    Refused(WireError),
    /// A frame, and what was in it.
    Whole(Seq<u8>),
}

/// What `bytes` amount to, read from a peer allowed `most` bytes.
pub open spec fn parsed(network: NetworkId, most: usize, bytes: Seq<u8>) -> Parsed {
    if bytes.len() < HEADER_BYTES {
        Parsed::Short
    } else {
        match header_says(network, most, bytes.take(HEADER_BYTES as int)) {
            Err(error) => Parsed::Refused(error),
            Ok(declared) => if bytes.len() < HEADER_BYTES + declared {
                Parsed::Short
            } else {
                Parsed::Whole(bytes.subrange(HEADER_BYTES as int, HEADER_BYTES + declared))
            },
        }
    }
}

/// A frame being read.
#[derive(Debug)]
pub struct Reading {
    pub network: NetworkId,
    /// How much this peer may ask this node to read.
    pub most: usize,
    pub patience: Patience,
    pub header: Buffer,
    /// The body, once the header has said how long it is.
    pub body: Option<Buffer>,
}

impl Reading {
    /// The header is the first to be filled, and the body is as long as the
    /// header says and never full: a full one is a frame that was handed out.
    pub open spec fn wf(&self) -> bool {
        &&& self.header.wf()
        &&& self.header.wanted == HEADER_BYTES
        &&& match self.body {
            None => self.header.short_by() > 0,
            Some(body) => {
                &&& self.header.short_by() == 0
                &&& header_says(self.network, self.most, self.header.bytes@) == Ok::<usize, WireError>(body.wanted)
                &&& body.wf()
                &&& body.short_by() > 0
            },
        }
    }

    /// Every byte read so far, in order.
    pub open spec fn so_far(&self) -> Seq<u8> {
        match self.body {
            None => self.header.bytes@,
            Some(body) => self.header.bytes@ + body.bytes@,
        }
    }

    /// The buffer the next read goes into.
    pub open spec fn open_buffer(&self) -> Buffer {
        match self.body {
            None => self.header,
            Some(body) => body,
        }
    }

    /// A frame about to be read at `now`, from a peer allowed `most` bytes.
    pub fn started(network: NetworkId, most: usize, now: u64) -> (reading: Reading)
        ensures
            reading.wf(),
            reading.network == network,
            reading.most == most,
            reading.so_far() == Seq::<u8>::empty(),
            reading.patience == (Patience { by: runs_out(now), marked: 0 }),
    {
        Reading {
            network,
            most,
            patience: Patience::started(now),
            header: Buffer::new(HEADER_BYTES),
            body: None,
        }
    }

    /// How many bytes the next read may hand over.
    pub fn rest(&self) -> (rest: usize)
        requires
            self.wf(),
        ensures
            rest > 0,
            rest == self.open_buffer().short_by(),
    {
        match &self.body {
            None => self.header.rest(),
            Some(body) => body.rest(),
        }
    }
}

/// Takes what one read handed over into the frame being read.
///
/// `None` asks for another read. A deadline that passes before a frame starts
/// is [`Incoming::Quiet`], so a caller can tell an idle peer from one holding
/// a frame open.
pub fn read_message(reading: &mut Reading, arrival: Arrival, now: u64) -> (outcome: Result<
    Option<Incoming>,
    WireError,
>)
    requires
        old(reading).wf(),
        arrival.bytes().len() <= old(reading).open_buffer().short_by(),
    ensures
        final(reading).network == old(reading).network,
        final(reading).most == old(reading).most,
        outcome is Ok && outcome->Ok_0 is None ==> final(reading).wf() && final(reading).so_far()
            == old(reading).so_far() + arrival.bytes(),
        // What stops the part of the frame being read stops the frame.
        match arrival {
            Arrival::Bytes(bytes) if bytes@.len() == 0 => outcome == Err::<Option<Incoming>, WireError>(
                WireError::Io(Fault::UnexpectedEof),
            ),
            Arrival::Failed(fault) if fault.deadline() => if old(reading).so_far().len() == 0 {
                outcome == Ok::<Option<Incoming>, WireError>(Some(Incoming::Quiet))
            } else {
                outcome == Err::<Option<Incoming>, WireError>(
                    WireError::Stalled {
                        had: old(reading).open_buffer().bytes@.len() as usize,
                        wanted: old(reading).open_buffer().wanted,
                    },
                )
            },
            Arrival::Failed(fault) if fault != Fault::Interrupted => outcome == Err::<
                Option<Incoming>,
                WireError,
            >(WireError::Io(fault)),
            _ => {
                let had = old(reading).open_buffer().bytes@.len() + arrival.bytes().len();
                let wanted = old(reading).open_buffer().wanted;
                match parsed(
                    old(reading).network,
                    old(reading).most,
                    old(reading).so_far() + arrival.bytes(),
                ) {
                    Parsed::Refused(error) => outcome == Err::<Option<Incoming>, WireError>(error),
                    // The last byte is taken however late it is.
                    Parsed::Whole(body) => outcome matches Ok(Some(Incoming::Message(read)))
                        && read@ == body,
                    Parsed::Short => if had == wanted || old(reading).patience.lasts(
                        had as usize,
                        now,
                    ) {
                        &&& outcome == Ok::<Option<Incoming>, WireError>(None)
                        &&& final(reading).patience == if had == wanted {
                            old(reading).patience
                        } else {
                            old(reading).patience.asked(had as usize, now)
                        }
                    } else {
                        outcome == Err::<Option<Incoming>, WireError>(
                            WireError::Stalled { had: had as usize, wanted },
                        )
                    },
                }
            },
        },
{
    let ghost before = *reading;
    if reading.body.is_some() {
        let mut body = Buffer::new(0);
        let mut slot: Option<Buffer> = None;
        std::mem::swap(&mut slot, &mut reading.body);
        match slot {
            Some(held) => {
                body = held;
            },
            None => {},
        }
        assert(Some(body) == before.body);
        let filled = fill(&mut body, arrival, &mut reading.patience, now);
        let ghost bytes = before.so_far() + arrival.bytes();
        assert(before.header.bytes@ + body.bytes@ =~= bytes);
        assert(bytes.take(HEADER_BYTES as int) =~= before.header.bytes@);
        match filled {
            Err(error) => Err(error),
            Ok(None) => {
                reading.body = Some(body);
                Ok(None)
            },
            Ok(Some(Filled::Nothing)) => Err(WireError::Stalled { had: 0, wanted: body.wanted }),
            Ok(Some(Filled::Complete)) => {
                assert(bytes.subrange(HEADER_BYTES as int, HEADER_BYTES + body.wanted) =~= body.bytes@);
                Ok(Some(Incoming::Message(body.bytes)))
            },
        }
    } else {
        let filled = fill(&mut reading.header, arrival, &mut reading.patience, now);
        match filled {
            Err(error) => Err(error),
            Ok(None) => Ok(None),
            Ok(Some(Filled::Nothing)) => Ok(Some(Incoming::Quiet)),
            Ok(Some(Filled::Complete)) => {
                let ghost bytes = before.so_far() + arrival.bytes();
                assert(bytes.take(HEADER_BYTES as int) =~= reading.header.bytes@);
                let marker: u32 = number_at(&reading.header.bytes, 0);
                if marker != reading.network.as_u32() {
                    return Err(
                        WireError::WrongNetwork {
                            expected: reading.network,
                            found: NetworkId::new(marker),
                        },
                    );
                }
                let declared: usize = number_at(&reading.header.bytes, 4) as usize;
                let limit: usize = if reading.most < MAX_FRAME_BYTES {
                    reading.most
                } else {
                    MAX_FRAME_BYTES
                };
                if declared > limit {
                    return Err(WireError::FrameTooLarge { declared });
                }
                if declared == 0 {
                    assert(bytes.subrange(HEADER_BYTES as int, HEADER_BYTES + declared) =~= Seq::<u8>::empty());
                    return Ok(Some(Incoming::Message(Vec::new())));
                }
                reading.body = Some(Buffer::new(declared));
                assert(reading.so_far() =~= before.so_far() + arrival.bytes());
                Ok(None)
            },
        }
    }
}

/// What a node writes is what a node reads: every frame comes back whole with
/// the body it was written from once its last byte is in, and asks for more at
/// every byte before that, however the bytes were split.
pub proof fn a_frame_reads_back_whole(network: NetworkId, most: usize, body: Seq<u8>, had: int)
    requires
        body.len() <= cap(most),
        0 <= had <= frame(network, body).len(),
    ensures
        frame(network, body).len() == HEADER_BYTES + body.len(),
        parsed(network, most, frame(network, body).take(had)) == if had < frame(network, body).len() {
            Parsed::Short
        } else {
            Parsed::Whole(body)
        },
{
    let whole = frame(network, body);
    let part = whole.take(had);
    if had >= HEADER_BYTES {
        let header = part.take(HEADER_BYTES as int);
        assert(header.subrange(0, 4) =~= word(network.marker));
        assert(header.subrange(4, 8) =~= word(body.len() as u32));
        a_word_carries_its_number(network.marker);
        a_word_carries_its_number(body.len() as u32);
        assert(header_says(network, most, header) == Ok::<usize, WireError>(body.len() as usize));
        if had == whole.len() {
            assert(part.subrange(HEADER_BYTES as int, HEADER_BYTES + body.len()) =~= body);
        }
    }
}

/// A frame of another network is refused at its header, whatever is in it.
pub proof fn another_networks_frame_is_refused(
    ours: NetworkId,
    theirs: NetworkId,
    most: usize,
    body: Seq<u8>,
    had: int,
)
    requires
        ours != theirs,
        body.len() <= MAX_FRAME_BYTES,
        HEADER_BYTES <= had <= frame(theirs, body).len(),
    ensures
        parsed(ours, most, frame(theirs, body).take(had)) == Parsed::Refused(
            WireError::WrongNetwork { expected: ours, found: theirs },
        ),
{
    let header = frame(theirs, body).take(had).take(HEADER_BYTES as int);
    assert(header.subrange(0, 4) =~= word(theirs.marker));
    a_word_carries_its_number(theirs.marker);
}

/// A frame longer than a peer is allowed is refused at its header, before a
/// byte of its body is read.
pub proof fn a_frame_over_the_cap_is_refused_at_its_header(
    network: NetworkId,
    most: usize,
    body: Seq<u8>,
)
    requires
        cap(most) < body.len() <= u32::MAX,
    ensures
        parsed(network, most, frame(network, body).take(HEADER_BYTES as int)) == Parsed::Refused(
            WireError::FrameTooLarge { declared: body.len() as usize },
        ),
{
    let header = frame(network, body).take(HEADER_BYTES as int).take(HEADER_BYTES as int);
    assert(header.subrange(0, 4) =~= word(network.marker));
    assert(header.subrange(4, 8) =~= word(body.len() as u32));
    a_word_carries_its_number(network.marker);
    a_word_carries_its_number(body.len() as u32);
}

/// How often a patience is renewed over a run of questions, each with the
/// bytes moved by then and the moment it was asked.
pub open spec fn renewals(patience: Patience, asked: Seq<(usize, u64)>) -> nat
    decreases asked.len(),
{
    if asked.len() == 0 {
        0
    } else {
        let (moved, now) = asked[0];
        let rest = renewals(patience.asked(moved, now), asked.skip(1));
        if patience.earned(moved) {
            rest + 1
        } else {
            rest
        }
    }
}

proof fn renewals_are_paid_for(patience: Patience, asked: Seq<(usize, u64)>)
    requires
        patience.marked <= MAX_FRAME_BYTES,
        forall|i: int| 0 <= i < asked.len() ==> (#[trigger] asked[i]).0 <= MAX_FRAME_BYTES,
    ensures
        patience.marked + renewals(patience, asked) * PROGRESS_BYTES <= MAX_FRAME_BYTES,
    decreases asked.len(),
{
    if asked.len() > 0 {
        let (moved, now) = asked[0];
        let next = patience.asked(moved, now);
        assert forall|i: int| 0 <= i < asked.skip(1).len() implies (#[trigger] asked.skip(1)[i]).0
            <= MAX_FRAME_BYTES by {
            assert(asked.skip(1)[i] == asked[i + 1]);
        }
        renewals_are_paid_for(next, asked.skip(1));
    }
}

/// A frame holds its connection for at most sixteen renewals of patience,
/// whoever is feeding it and however slowly.
pub proof fn a_frame_is_renewed_sixteen_times_at_most(started: u64, asked: Seq<(usize, u64)>)
    requires
        forall|i: int| 0 <= i < asked.len() ==> (#[trigger] asked[i]).0 <= MAX_FRAME_BYTES,
    ensures
        renewals(Patience { by: runs_out(started), marked: 0 }, asked) <= 16,
{
    renewals_are_paid_for(Patience { by: runs_out(started), marked: 0 }, asked);
}

/// A line that is only slow is told from one that failed.
pub proof fn a_slow_line_is_not_a_failed_one(fault: Fault, answer: bool)
    requires
        call_ensures(is_deadline, (fault,), answer),
    ensures
        answer <==> fault == Fault::WouldBlock || fault == Fault::TimedOut,
{
}

/// Patience runs out twenty seconds on, and is never asked twice for the same
/// bytes: sixty-four kilobytes more than were last marked start it over, and
/// fewer have to come before it runs out.
pub proof fn patience_is_renewed_by_progress_alone(
    patience: &mut Patience,
    moved: usize,
    now: u64,
    holds: bool,
)
    requires
        call_ensures(Patience::holds, (patience, moved, now), holds),
        now + 20_000_000_000 <= u64::MAX,
    ensures
        old(patience).marked + 65_536 <= moved ==> holds && final(patience).marked == moved
            && final(patience).by == now + 20_000_000_000,
        moved < old(patience).marked + 65_536 ==> (holds <==> now < old(patience).by)
            && *final(patience) == *old(patience),
{
}

/// Patience starts with twenty seconds and nothing marked.
pub proof fn patience_starts_with_twenty_seconds(now: u64, patience: Patience, by: u64)
    requires
        call_ensures(Patience::started, (now,), patience),
        call_ensures(patience_from, (now,), by),
        now + 20_000_000_000 <= u64::MAX,
    ensures
        patience.by == now + 20_000_000_000,
        patience.marked == 0,
        by == now + 20_000_000_000,
{
}

/// Before a name a peer may send four kilobytes in a frame, and a megabyte
/// after.
pub proof fn a_frame_is_held_to_less_before_a_name(announced: bool, most: usize)
    requires
        call_ensures(most_from, (announced,), most),
    ensures
        announced ==> most == 1_048_576,
        !announced ==> most == 4_096,
{
}

/// A frame is the network's marker, how long its body is, and its body: the two
/// numbers four bytes each, least first. A body over a megabyte is not framed.
pub proof fn a_frame_is_a_marker_a_length_and_a_body(
    network: NetworkId,
    body: &Vec<u8>,
    outcome: Result<Vec<u8>, WireError>,
)
    requires
        call_ensures(write_message, (network, body), outcome),
    ensures
        outcome is Ok <==> body@.len() <= 1_048_576,
        outcome matches Ok(bytes) ==> {
            &&& bytes@.len() == 8 + body@.len()
            &&& bytes@[0] + 256 * bytes@[1] + 65_536 * bytes@[2] + 16_777_216 * bytes@[3]
                == network.marker
            &&& bytes@[4] + 256 * bytes@[5] + 65_536 * bytes@[6] + 16_777_216 * bytes@[7]
                == body@.len()
            &&& bytes@.skip(8) == body@
        },
        outcome matches Err(error) ==> error == (WireError::OversizedSend {
            size: body@.len() as usize,
        }),
{
    if outcome is Ok {
        a_word_carries_its_number(network.marker);
        a_word_carries_its_number(body@.len() as u32);
        assert(frame(network, body@).skip(8) =~= body@);
    }
}

/// The bytes that end a frame give back the body it was written with, however
/// it came apart on the way and however late they are.
pub proof fn a_message_written_is_the_message_read(
    network: NetworkId,
    body: &Vec<u8>,
    bytes: Vec<u8>,
    reading: &mut Reading,
    last: Vec<u8>,
    now: u64,
    outcome: Result<Option<Incoming>, WireError>,
)
    requires
        call_ensures(write_message, (network, body), Ok::<Vec<u8>, WireError>(bytes)),
        call_ensures(read_message, (reading, Arrival::Bytes(last), now), outcome),
        old(reading).network == network,
        body@.len() <= old(reading).most,
        last@.len() > 0,
        old(reading).so_far() + last@ == bytes@,
    ensures
        outcome matches Ok(Some(Incoming::Message(read))) && read@ == body@,
{
    a_frame_reads_back_whole(network, old(reading).most, body@, bytes@.len() as int);
    assert(frame(network, body@).take(bytes@.len() as int) =~= bytes@);
}

/// A frame short of its end is waited for while there is patience, with
/// everything that came kept in order.
pub proof fn a_frame_short_of_its_end_is_waited_for(
    network: NetworkId,
    body: &Vec<u8>,
    bytes: Vec<u8>,
    reading: &mut Reading,
    some: Vec<u8>,
    now: u64,
    outcome: Result<Option<Incoming>, WireError>,
    had: int,
)
    requires
        call_ensures(write_message, (network, body), Ok::<Vec<u8>, WireError>(bytes)),
        call_ensures(read_message, (reading, Arrival::Bytes(some), now), outcome),
        old(reading).network == network,
        body@.len() <= old(reading).most,
        some@.len() > 0,
        0 <= had < bytes@.len(),
        old(reading).so_far() + some@ == bytes@.take(had),
        now < old(reading).patience.by,
    ensures
        outcome == Ok::<Option<Incoming>, WireError>(None),
        final(reading).so_far() == bytes@.take(had),
{
    a_frame_reads_back_whole(network, old(reading).most, body@, had);
}

/// A frame is refused at its header, before any of its body is waited for: one
/// of another network as such, and one longer than may be sent as too large.
pub proof fn a_frame_is_refused_at_its_header(
    reading: &mut Reading,
    last: Vec<u8>,
    now: u64,
    outcome: Result<Option<Incoming>, WireError>,
    header: Seq<u8>,
)
    requires
        call_ensures(read_message, (reading, Arrival::Bytes(last), now), outcome),
        old(reading).wf(),
        last@.len() > 0,
        header == old(reading).so_far() + last@,
        header.len() == 8,
    ensures
        ({
            let marker = header[0] + 256 * header[1] + 65_536 * header[2] + 16_777_216 * header[3];
            let long = header[4] + 256 * header[5] + 65_536 * header[6] + 16_777_216 * header[7];
            &&& marker != old(reading).network.marker ==> (outcome matches Err(
                WireError::WrongNetwork { expected, found },
            ) && expected == old(reading).network && found.marker == marker)
            &&& marker == old(reading).network.marker && (long > old(reading).most || long
                > 1_048_576) ==> (outcome matches Err(WireError::FrameTooLarge { declared })
                && declared == long)
            &&& marker == old(reading).network.marker && 0 < long <= old(reading).most && long
                <= 1_048_576 ==> outcome is Ok
            &&& marker == old(reading).network.marker && long == 0 ==> (outcome matches Ok(
                Some(Incoming::Message(read)),
            ) && read@.len() == 0)
        }),
{
    let whole = old(reading).so_far() + last@;
    assert(whole.take(HEADER_BYTES as int) =~= whole);
    let a = whole.subrange(0, 4);
    let b = whole.subrange(4, 8);
    assert(a[0] == whole[0] && a[1] == whole[1] && a[2] == whole[2] && a[3] == whole[3]);
    assert(b[0] == whole[4] && b[1] == whole[5] && b[2] == whole[6] && b[3] == whole[7]);
    assert(0 <= number_in(a) <= u32::MAX);
    assert(0 <= number_in(b) <= u32::MAX);
}

/// A line quiet between frames is quiet; one that goes quiet inside a frame has
/// stalled. A line that ends has ended, wherever it does, and any other fault
/// is what it is.
pub proof fn a_line_is_quiet_only_between_frames(
    reading: &mut Reading,
    fault: Fault,
    now: u64,
    outcome: Result<Option<Incoming>, WireError>,
)
    requires
        call_ensures(read_message, (reading, Arrival::Failed(fault), now), outcome),
    ensures
        fault == Fault::WouldBlock || fault == Fault::TimedOut ==> {
            &&& old(reading).so_far().len() == 0 ==> (outcome matches Ok(Some(
                Incoming::Quiet,
            )))
            &&& old(reading).so_far().len() > 0 ==> (outcome matches Err(
                WireError::Stalled { .. },
            ))
        },
        fault != Fault::WouldBlock && fault != Fault::TimedOut && fault != Fault::Interrupted ==> (
        outcome matches Err(WireError::Io(said)) && said == fault),
{
}

/// A line that closes ends what was being read.
pub proof fn a_closed_line_ends_a_frame(
    reading: &mut Reading,
    nothing: Vec<u8>,
    now: u64,
    outcome: Result<Option<Incoming>, WireError>,
)
    requires
        call_ensures(read_message, (reading, Arrival::Bytes(nothing), now), outcome),
        nothing@.len() == 0,
    ensures
        outcome matches Err(WireError::Io(said)) && said == Fault::UnexpectedEof,
{
}

/// What arrives is put after what came before. A buffer is full once it has all
/// it wants, however late, waits while there is patience, and has stalled when
/// there is none.
pub proof fn a_buffer_fills_in_order(
    buffer: &mut Buffer,
    bytes: Vec<u8>,
    patience: &mut Patience,
    now: u64,
    outcome: Result<Option<Filled>, WireError>,
)
    requires
        call_ensures(fill, (buffer, Arrival::Bytes(bytes), patience, now), outcome),
    ensures
        final(buffer).bytes@ == old(buffer).bytes@ + bytes@,
        final(buffer).wanted == old(buffer).wanted,
        bytes@.len() == 0 ==> (outcome matches Err(WireError::Io(said)) && said
            == Fault::UnexpectedEof),
        bytes@.len() > 0 && final(buffer).bytes@.len() == old(buffer).wanted ==> (outcome matches Ok(
            Some(Filled::Complete),
        )),
        bytes@.len() > 0 && final(buffer).bytes@.len() < old(buffer).wanted ==> {
            let renewed = old(patience).marked + 65_536 <= final(buffer).bytes@.len();
            &&& renewed || now < old(patience).by ==> outcome == Ok::<Option<Filled>, WireError>(
                None,
            )
            &&& !renewed && old(patience).by <= now ==> (outcome matches Err(
                WireError::Stalled { had, wanted },
            ) && had == final(buffer).bytes@.len() && wanted == old(buffer).wanted)
            &&& renewed ==> final(patience).marked == final(buffer).bytes@.len()
            &&& !renewed ==> *final(patience) == *old(patience)
        },
{
}

/// What is written is counted, and is done once all of it went, however late. A
/// line that takes nothing has failed, and one that is slow is waited for while
/// there is patience.
pub proof fn a_frame_drains_as_it_is_taken(
    sent: &mut usize,
    size: usize,
    count: usize,
    patience: &mut Patience,
    now: u64,
    outcome: Result<bool, WireError>,
)
    requires
        call_ensures(drain, (sent, size, Departure::Count(count), patience, now), outcome),
    ensures
        *final(sent) == *old(sent) + count,
        count == 0 ==> (outcome matches Err(WireError::Io(said)) && said == Fault::WriteZero),
        count > 0 && *final(sent) == size ==> outcome == Ok::<bool, WireError>(true),
        count > 0 && *final(sent) < size ==> {
            let renewed = old(patience).marked + 65_536 <= *final(sent);
            &&& renewed || now < old(patience).by ==> outcome == Ok::<bool, WireError>(false)
            &&& !renewed && old(patience).by <= now ==> (outcome matches Err(
                WireError::Unaccepted { sent: said, size: of },
            ) && said == *final(sent) && of == size)
            &&& renewed ==> final(patience).marked == *final(sent)
            &&& !renewed ==> *final(patience) == *old(patience)
        },
{
}

/// A line that fails while it is written to has failed, with nothing more sent;
/// one that was only interrupted is tried again while there is patience.
pub proof fn a_line_that_fails_takes_nothing(
    sent: &mut usize,
    size: usize,
    fault: Fault,
    patience: &mut Patience,
    now: u64,
    outcome: Result<bool, WireError>,
)
    requires
        call_ensures(drain, (sent, size, Departure::Failed(fault), patience, now), outcome),
        *old(sent) < size,
    ensures
        *final(sent) == *old(sent),
        fault != Fault::Interrupted ==> (outcome matches Err(WireError::Io(said)) && said == fault),
        fault == Fault::Interrupted && now < old(patience).by ==> outcome == Ok::<bool, WireError>(
            false,
        ),
{
}

/// A buffer wants what it does not have yet, and a new one wants everything.
pub proof fn a_buffer_wants_what_it_lacks(wanted: usize, fresh: Buffer, buffer: &Buffer, rest: usize)
    requires
        call_ensures(Buffer::new, (wanted,), fresh),
        call_ensures(Buffer::rest, (buffer,), rest),
    ensures
        fresh.bytes@.len() == 0 && fresh.wanted == wanted,
        rest + buffer.bytes@.len() == buffer.wanted,
{
}

/// A frame is read from nothing, its eight bytes of header first, with twenty
/// seconds of patience.
pub proof fn a_frame_is_read_from_its_header_on(
    network: NetworkId,
    most: usize,
    now: u64,
    reading: Reading,
    rest: usize,
)
    requires
        call_ensures(Reading::started, (network, most, now), reading),
        call_ensures(Reading::rest, (&reading,), rest),
        now + 20_000_000_000 <= u64::MAX,
    ensures
        reading.so_far().len() == 0,
        rest == 8,
        reading.network == network && reading.most == most,
        reading.patience.by == now + 20_000_000_000 && reading.patience.marked == 0,
{
}

} // verus!
