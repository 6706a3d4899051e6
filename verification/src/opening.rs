//! Starting a node on what its directory already holds.
//!
//! Every step is a decision about a file already on the disk, and each one
//! comes where it does because of what the step before it left behind: the
//! ledger before the replay, the replay before the cut, the cut before the
//! headers. A start that has to stop stops before anything is cut.

use vstd::prelude::*;
use vstd::string::*;

use crate::disk::Extent;
use crate::joining::Handed;
use crate::logs::{Accepted, CaughtUp};
use crate::probation::{settles_at, Undertaking};
use crate::text::{append_number, decimal};

verus! {

/// Why a connection that opened was closed again without becoming a peer.
#[derive(Clone, Copy, Debug, PartialEq, Eq, Structural)]
pub enum Unkept {
    /// The host sent something a peer should not send, and is being turned
    /// away.
    Refusing,
    /// The node holds as many connections as it takes.
    Full,
    /// The node is stopping, or the socket could not be set up.
    Stopping,
}

impl Unkept {
    pub open spec fn words(self) -> Seq<char> {
        match self {
            Unkept::Refusing =>
                "this node is refusing that host for now, after it sent something a peer should not send"@,
            Unkept::Full => "this node already holds as many connections as it takes"@,
            Unkept::Stopping => "this node is stopping, or the socket could not be set up"@,
        }
    }

    pub fn to_string(&self) -> (said: String)
        ensures
            said@ == self.words(),
    {
        match self {
            Unkept::Refusing => String::from_str(
                "this node is refusing that host for now, after it sent something a peer should not send",
            ),
            Unkept::Full => String::from_str(
                "this node already holds as many connections as it takes",
            ),
            Unkept::Stopping => String::from_str(
                "this node is stopping, or the socket could not be set up",
            ),
        }
    }
}

/// Why a node did not start, or did not keep a connection.
#[derive(Debug)]
#[allow(inconsistent_fields)]
pub enum NodeError {
    /// The connection could not be opened, in the words of the machine.
    Io(String),
    /// The store refused, in its own words.
    Store(String),
    /// One file of this node's directory, named, and what the store said about
    /// it.
    File { file: String, source: String },
    /// What is on this disk was written under rules this build does not have.
    /// Fatal before anything is written: the same build refuses the same
    /// blocks from the network, so nothing cut for it would ever come back.
    OtherRules { file: String, because: String },
    /// A node asked to keep the whole cold set, over blocks that do not begin
    /// at the first one.
    CannotArchive { from: u64 },
    /// What is on this disk is another network's chain.
    OtherNetwork { file: String, because: String },
    /// The ledger this node starts from is there and cannot be used. Fatal
    /// before anything is written: the blocks on the disk build on it.
    UnusableLedger { because: String },
    /// The socket opened and was closed again without becoming a peer. The
    /// address is as it is written.
    NotKept { address: String, because: Unkept },
}

/// What an error says, apart from how it is held.
#[allow(inconsistent_fields)]
pub enum NodeErrorView {
    Io(Seq<char>),
    Store(Seq<char>),
    File { file: Seq<char>, source: Seq<char> },
    OtherRules { file: Seq<char>, because: Seq<char> },
    CannotArchive { from: u64 },
    OtherNetwork { file: Seq<char>, because: Seq<char> },
    UnusableLedger { because: Seq<char> },
    NotKept { address: Seq<char>, because: Unkept },
}

impl View for NodeError {
    type V = NodeErrorView;

    open spec fn view(&self) -> NodeErrorView {
        match *self {
            NodeError::Io(words) => NodeErrorView::Io(words@),
            NodeError::Store(words) => NodeErrorView::Store(words@),
            NodeError::File { file, source } => NodeErrorView::File {
                file: file@,
                source: source@,
            },
            NodeError::OtherRules { file, because } => NodeErrorView::OtherRules {
                file: file@,
                because: because@,
            },
            NodeError::CannotArchive { from } => NodeErrorView::CannotArchive { from },
            NodeError::OtherNetwork { file, because } => NodeErrorView::OtherNetwork {
                file: file@,
                because: because@,
            },
            NodeError::UnusableLedger { because } => NodeErrorView::UnusableLedger {
                because: because@,
            },
            NodeError::NotKept { address, because } => NodeErrorView::NotKept {
                address: address@,
                because,
            },
        }
    }
}

impl NodeErrorView {
    /// What an operator reads.
    pub open spec fn words(self) -> Seq<char> {
        match self {
            NodeErrorView::Io(words) => "could not open the connection: "@ + words,
            NodeErrorView::Store(words) => words,
            NodeErrorView::File { file, source } => "could not use "@ + file + ": "@ + source,
            NodeErrorView::OtherRules { file, because } => file
                + " was written under rules this build does not have: "@ + because
                + ". Nothing on          the disk has been changed. Start it again with a build that has the rules for          that height, and the chain here is picked up where it was left; deleting          anything would not help, because this build refuses the same blocks from the          network"@,
            NodeErrorView::CannotArchive { from } =>
                "this node was asked to keep the whole cold set, and the blocks on its disk begin at height "@
                + decimal(from as nat)
                + ". The archive is built by reading every block from the first at every start, and those below "@
                + decimal(from as nat)
                + " are not here, so nothing has been changed and it has not started. An archivist keeps every block it reads: give it a directory of its own, where it reads the chain from the first block, or start this one without keeping the cold set"@,
            NodeErrorView::OtherNetwork { file, because } => file
                + " holds another network's chain: "@ + because
                + ". Nothing on the disk has been          changed. If that is the network meant, start this node for it; if not, this          node needs a directory of its own, because this one is that network's"@,
            NodeErrorView::UnusableLedger { because } => because
                + ". The blocks on this disk build on that ledger, so nothing has been changed: put the file back if there is a copy of it, or delete it, which costs the stored blocks and has this node join the chain again. It keeps its headers and its address book either way"@,
            NodeErrorView::NotKept { address, because } => "the connection to "@ + address
                + " was opened and closed again without being kept: "@ + because.words()
                + ". The address is in the book, so upkeep dials it again"@,
        }
    }
}

impl NodeError {
    /// What an operator reads.
    pub fn to_string(&self) -> (said: String)
        ensures
            said@ == self@.words(),
    {
        match self {
            NodeError::Io(words) => {
                let mut said = String::from_str("could not open the connection: ");
                said.append(words.as_str());
                said
            },
            NodeError::Store(words) => String::from_str(words.as_str()),
            NodeError::File { file, source } => {
                let mut said = String::from_str("could not use ");
                said.append(file.as_str());
                said.append(": ");
                said.append(source.as_str());
                said
            },
            NodeError::OtherRules { file, because } => {
                let mut said = String::from_str(file.as_str());
                said.append(" was written under rules this build does not have: ");
                said.append(because.as_str());
                said.append(
                    ". Nothing on          the disk has been changed. Start it again with a build that has the rules for          that height, and the chain here is picked up where it was left; deleting          anything would not help, because this build refuses the same blocks from the          network",
                );
                said
            },
            NodeError::CannotArchive { from } => {
                let mut said = String::from_str(
                    "this node was asked to keep the whole cold set, and the blocks on its disk begin at height ",
                );
                append_number(&mut said, *from);
                said.append(
                    ". The archive is built by reading every block from the first at every start, and those below ",
                );
                append_number(&mut said, *from);
                said.append(
                    " are not here, so nothing has been changed and it has not started. An archivist keeps every block it reads: give it a directory of its own, where it reads the chain from the first block, or start this one without keeping the cold set",
                );
                said
            },
            NodeError::OtherNetwork { file, because } => {
                let mut said = String::from_str(file.as_str());
                said.append(" holds another network's chain: ");
                said.append(because.as_str());
                said.append(
                    ". Nothing on the disk has been          changed. If that is the network meant, start this node for it; if not, this          node needs a directory of its own, because this one is that network's",
                );
                said
            },
            NodeError::UnusableLedger { because } => {
                let mut said = String::from_str(because.as_str());
                said.append(
                    ". The blocks on this disk build on that ledger, so nothing has been changed: put the file back if there is a copy of it, or delete it, which costs the stored blocks and has this node join the chain again. It keeps its headers and its address book either way",
                );
                said
            },
            NodeError::NotKept { address, because } => {
                let mut said = String::from_str("the connection to ");
                said.append(address.as_str());
                said.append(" was opened and closed again without being kept: ");
                let why = because.to_string();
                said.append(why.as_str());
                said.append(". The address is in the book, so upkeep dials it again");
                said
            },
        }
    }
}

/// Why the rules refused a stored ledger, each in its own words but for a
/// header of another network, which is said from its parts.
#[derive(Debug)]
pub enum HandoverRefusal {
    SoftwareTooOld(String),
    WrongVersion(String),
    WrongNetwork { height: u64, expected: String, found: String },
    BeforeTheNetworkOpened(String),
    Other(String),
}

/// What a start says about a stored ledger the rules refused.
pub open spec fn about_the_ledger(refusal: HandoverRefusal, file: Seq<char>) -> NodeErrorView {
    match refusal {
        HandoverRefusal::SoftwareTooOld(words) | HandoverRefusal::WrongVersion(words) => NodeErrorView::OtherRules {
            file,
            because: words@,
        },
        HandoverRefusal::WrongNetwork { height, expected, found } => NodeErrorView::OtherNetwork {
            file,
            because: "the header at "@ + decimal(height as nat) + " belongs to "@ + found@
                + ", and this node was started for "@ + expected@,
        },
        HandoverRefusal::BeforeTheNetworkOpened(words) => NodeErrorView::OtherNetwork {
            file,
            because: words@,
        },
        HandoverRefusal::Other(words) => NodeErrorView::UnusableLedger {
            because: file + " was refused: "@ + words@,
        },
    }
}

/// What a start says about a stored ledger, in the file named, that the rules
/// refused.
///
/// Four of the refusals are about this build or this command line and not
/// about the file, and are not answered with the remedy for a damaged one.
pub fn ledger_refused(refusal: &HandoverRefusal, file: &str) -> (error: NodeError)
    ensures
        error@ == about_the_ledger(*refusal, file@),
{
    match refusal {
        HandoverRefusal::SoftwareTooOld(words) | HandoverRefusal::WrongVersion(words) => NodeError::OtherRules {
            file: String::from_str(file),
            because: String::from_str(words.as_str()),
        },
        HandoverRefusal::WrongNetwork { height, expected, found } => {
            let mut because = String::from_str("the header at ");
            append_number(&mut because, *height);
            because.append(" belongs to ");
            because.append(found.as_str());
            because.append(", and this node was started for ");
            because.append(expected.as_str());
            NodeError::OtherNetwork { file: String::from_str(file), because }
        },
        HandoverRefusal::BeforeTheNetworkOpened(words) => NodeError::OtherNetwork {
            file: String::from_str(file),
            because: String::from_str(words.as_str()),
        },
        HandoverRefusal::Other(words) => {
            let mut because = String::from_str(file);
            because.append(" was refused: ");
            because.append(words.as_str());
            NodeError::UnusableLedger { because }
        },
    }
}

/// What reading the ledger file came to.
#[derive(Debug)]
pub enum LedgerFile {
    /// There is none, which is every node before its first.
    Missing,
    /// It could not be read, in the words of the disk.
    Unreadable(String),
    /// It is longer than any ledger this build writes or takes.
    TooLong(u64),
    Read(Vec<u8>),
}

/// A ledger read back off the disk, by what the start needs of it.
#[derive(Clone, Copy, Debug, PartialEq, Eq, Structural)]
pub struct HandedBack {
    /// The height of the ledger.
    pub anchor: u64,
    /// The height this node must reach on its own before it will stand behind
    /// it.
    pub settles_at: u64,
}

/// What is said of a file longer than `most` bytes.
pub open spec fn too_long(file: Seq<char>, length: u64, most: u64) -> Seq<char> {
    file + " is "@ + decimal(length as nat)
        + " bytes, longer than any ledger this build writes or takes ("@ + decimal(most as nat)
        + " bytes)"@
}

/// Reads the ledger a node starts from, in the file named, telling a file that
/// is not there apart from one that is and will not be used.
///
/// `decode` reads the bytes, and `accept` holds what they say to the rules.
pub fn read_handed_ledger<
    D: FnOnce(&Vec<u8>) -> Result<Handed, String>,
    A: FnOnce(&Handed) -> Result<(), HandoverRefusal>,
>(read: LedgerFile, file: &str, most: u64, burial: u64, decode: D, accept: A) -> (handed: Result<
    Option<HandedBack>,
    NodeError,
>)
    requires
        read matches LedgerFile::Read(bytes) ==> call_requires(decode, (&bytes,)),
        read matches LedgerFile::Read(bytes) ==> forall|handover: Handed|
            call_ensures(decode, (&bytes,), Ok::<Handed, String>(handover)) ==> #[trigger]
                call_requires(accept, (&handover,)),
    ensures
        match read {
            LedgerFile::Missing => handed matches Ok(None),
            LedgerFile::Unreadable(words) => handed matches Err(error) && error@ == (
            NodeErrorView::UnusableLedger { because: file@ + " could not be read: "@ + words@ }),
            LedgerFile::TooLong(length) => handed matches Err(error) && error@ == (
            NodeErrorView::UnusableLedger { because: too_long(file@, length, most) }),
            LedgerFile::Read(bytes) => taken_back(bytes, file@, burial, decode, accept, handed),
        },
{
    let bytes: Vec<u8> = match read {
        LedgerFile::Missing => {
            return Ok(None);
        },
        LedgerFile::Unreadable(words) => {
            let mut because = String::from_str(file);
            because.append(" could not be read: ");
            because.append(words.as_str());
            return Err(NodeError::UnusableLedger { because });
        },
        LedgerFile::TooLong(length) => {
            let mut because = String::from_str(file);
            because.append(" is ");
            append_number(&mut because, length);
            because.append(" bytes, longer than any ledger this build writes or takes (");
            append_number(&mut because, most);
            because.append(" bytes)");
            return Err(NodeError::UnusableLedger { because });
        },
        LedgerFile::Read(bytes) => bytes,
    };
    let decoded = decode(&bytes);
    assert(call_ensures(decode, (&bytes,), decoded));
    match decoded {
        Err(words) => {
            let mut because = String::from_str(file);
            because.append(" is not a ledger this build can read: ");
            because.append(words.as_str());
            Err(NodeError::UnusableLedger { because })
        },
        Ok(handover) => {
            let accepted = accept(&handover);
            assert(call_ensures(accept, (&handover,), accepted));
            match accepted {
                Err(refusal) => Err(ledger_refused(&refusal, file)),
                Ok(()) => Ok(
                    Some(
                        HandedBack {
                            anchor: handover.anchor,
                            settles_at: settles_at(handover.anchor, handover.tip.height, burial),
                        },
                    ),
                ),
            }
        },
    }
}

/// What a handover the rules took is taken back as.
pub open spec fn as_handed_back(handover: Handed, burial: u64, back: HandedBack) -> bool {
    &&& back.anchor == handover.anchor
    &&& back.settles_at == if handover.anchor + burial <= handover.tip.height {
        (handover.anchor + burial) as int
    } else {
        handover.tip.height as int
    }
}

/// Whether a ledger file that was read may be answered this way.
pub open spec fn taken_back<
    D: FnOnce(&Vec<u8>) -> Result<Handed, String>,
    A: FnOnce(&Handed) -> Result<(), HandoverRefusal>,
>(
    bytes: Vec<u8>,
    file: Seq<char>,
    burial: u64,
    decode: D,
    accept: A,
    handed: Result<Option<HandedBack>, NodeError>,
) -> bool {
    exists|decoded: Result<Handed, String>| #[trigger]
        call_ensures(decode, (&bytes,), decoded) && match decoded {
            Err(words) => handed matches Err(error) && error@ == (NodeErrorView::UnusableLedger {
                because: file + " is not a ledger this build can read: "@ + words@,
            }),
            Ok(handover) => exists|accepted: Result<(), HandoverRefusal>| #[trigger]
                call_ensures(accept, (&handover,), accepted) && match accepted {
                    Err(refusal) => handed matches Err(error) && error@ == about_the_ledger(
                        refusal,
                        file,
                    ),
                    Ok(()) => handed matches Ok(Some(back)) && as_handed_back(handover, burial, back),
                },
        }
}

/// Why the chain refused a block of this node's own log.
#[derive(Debug)]
pub enum BlockRefusal {
    /// This build has no rules for its height, in words.
    SoftwareTooOld(String),
    /// A version the rules there do not name.
    UnsupportedVersion(u16),
    /// It belongs to another network, in words.
    WrongNetwork(String),
    /// It is from before this network opened, in words.
    BeforeTheNetworkOpened(String),
    /// Anything that is about the block.
    AboutTheBlock,
}

/// What a start stops with over a block refused for something about the
/// reader, or `None` for a refusal about the block.
pub open spec fn stops_with(height: u64, first: bool, refusal: BlockRefusal, known: u16, file: Seq<char>) -> Option<
    NodeErrorView,
> {
    match refusal {
        BlockRefusal::SoftwareTooOld(words) => Some(
            NodeErrorView::OtherRules { file, because: words@ },
        ),
        BlockRefusal::UnsupportedVersion(version) => Some(
            NodeErrorView::OtherRules {
                file,
                because: "the block at height "@ + decimal(height as nat) + " is version "@ + decimal(
                    version as nat,
                ) + ", and this build knows only version "@ + decimal(known as nat),
            },
        ),
        BlockRefusal::WrongNetwork(words) | BlockRefusal::BeforeTheNetworkOpened(words) => if first {
            Some(
                NodeErrorView::OtherNetwork {
                    file,
                    because: "the block at height "@ + decimal(height as nat) + ": "@ + words@,
                },
            )
        } else {
            None
        },
        BlockRefusal::AboutTheBlock => None,
    }
}

/// Whether a block the replay refused was refused for something about this
/// build or this command line, and what to stop the start with if so.
///
/// `known` is the version this build knows. Only the first record of the log
/// can make it another network's directory: one further up that names another
/// network is a record that changed, and it is refused like any other.
pub fn about_the_reader(height: u64, first: bool, refusal: &BlockRefusal, known: u16, file: &str) -> (stop: Option<
    NodeError,
>)
    ensures
        match stop {
            Some(error) => stops_with(height, first, *refusal, known, file@) == Some(error@),
            None => stops_with(height, first, *refusal, known, file@) is None,
        },
{
    match refusal {
        BlockRefusal::SoftwareTooOld(words) => Some(
            NodeError::OtherRules {
                file: String::from_str(file),
                because: String::from_str(words.as_str()),
            },
        ),
        BlockRefusal::UnsupportedVersion(version) => {
            let mut because = String::from_str("the block at height ");
            append_number(&mut because, height);
            because.append(" is version ");
            append_number(&mut because, *version as u64);
            because.append(", and this build knows only version ");
            append_number(&mut because, known as u64);
            Some(NodeError::OtherRules { file: String::from_str(file), because })
        },
        BlockRefusal::WrongNetwork(words) | BlockRefusal::BeforeTheNetworkOpened(words) => {
            if !first {
                return None;
            }
            let mut because = String::from_str("the block at height ");
            append_number(&mut because, height);
            because.append(": ");
            because.append(words.as_str());
            Some(NodeError::OtherNetwork { file: String::from_str(file), because })
        },
        BlockRefusal::AboutTheBlock => None,
    }
}

/// What walking the block log found.
#[derive(Clone, Copy, Debug, PartialEq, Eq, Structural)]
pub struct Recovery {
    /// Bytes cut off the end because a write never finished.
    pub discarded_bytes: u64,
    /// Bytes left on the disk past the last record that could be read.
    pub left_in_place: u64,
    /// The whole record that would not decode, when one stopped the walk.
    pub unreadable: Option<usize>,
    /// Block records set aside because the log does not know where it starts.
    pub blocks_set_aside: usize,
}

/// What replaying a stored chain found.
#[derive(Clone, Copy, Debug, PartialEq, Eq, Structural)]
pub struct Restored {
    /// Blocks read back and reapplied.
    pub blocks: usize,
    /// Blocks read back but not replayed, and therefore cut from the log. What
    /// was cut is asked for again.
    pub refused: usize,
    /// Bytes cut off the end of the log because a write never finished.
    pub discarded_bytes: u64,
    /// Bytes left on the disk past the last record that could be read.
    pub left_in_place: u64,
    /// The record a walk of the log stopped at, when what stopped it was a
    /// whole record that would not decode rather than one cut short.
    pub unreadable: Option<usize>,
    /// Header records the store would not stand behind.
    pub headers_set_aside: u64,
    /// Header records deleted because the blocks left them stranded.
    pub headers_dropped: u64,
    /// Header records cut because they were of a branch the blocks are not on,
    /// and written again from the blocks.
    pub headers_replaced: u64,
    /// Block records set aside because the log does not know where it starts.
    pub blocks_set_aside: usize,
    /// Whether the log was set aside because it does not start at the first
    /// block of the chain.
    pub rejoining: bool,
    /// Addresses read back from the address book.
    pub addresses: usize,
}

impl Default for Restored {
    fn default() -> (restored: Restored)
        ensures
            restored == (Restored {
                blocks: 0,
                refused: 0,
                discarded_bytes: 0,
                left_in_place: 0,
                unreadable: None,
                headers_set_aside: 0,
                headers_dropped: 0,
                headers_replaced: 0,
                blocks_set_aside: 0,
                rejoining: false,
                addresses: 0,
            }),
    {
        Restored {
            blocks: 0,
            refused: 0,
            discarded_bytes: 0,
            left_in_place: 0,
            unreadable: None,
            headers_set_aside: 0,
            headers_dropped: 0,
            headers_replaced: 0,
            blocks_set_aside: 0,
            rejoining: false,
            addresses: 0,
        }
    }
}

/// One record of the block log, as the replay meets it.
#[derive(Debug)]
pub enum Record {
    /// A block: where it sits, and the moment it says it was made.
    Block { height: u64, timestamp: u64 },
    /// The disk refused the read, in its own words. That says nothing about
    /// what is written there.
    Unreachable(String),
    /// A whole record that will not decode. It is left where it is.
    Undecodable,
    /// The end of the log.
    End,
}

/// What the chain made of a block of this node's own log.
#[derive(Debug)]
pub enum Replayed {
    Took(Accepted),
    Refused(BlockRefusal),
}

/// What a start does next.
#[derive(Clone, Copy, Debug, PartialEq, Eq, Structural)]
pub enum OpenStep {
    /// Read the ledger file.
    ReadLedger,
    /// Have the chain adopt the ledger read.
    Adopt,
    /// Read the record of the block log at this height.
    Read(u64),
    /// Give the block just read to the chain, as though it were `clock`.
    Apply { height: u64, clock: u64 },
    /// Read the log again past the record that would not decode.
    ReadAgain,
    /// Keep the records of the block log below this height and no others.
    Cut(u64),
    /// The disk is as it is going to be: open the rest and start.
    Start,
    /// Stop, with nothing cut.
    Failed,
}

/// Starting a node on a directory.
#[derive(Debug)]
pub struct Opening {
    pub step: OpenStep,
    /// The block log as it was found, or, once it has been read again past a
    /// record that would not decode, as the second reading found it.
    pub log: Extent,
    pub recovered: Recovery,
    pub read_again: Option<Recovery>,
    pub handed: Option<HandedBack>,
    /// Where the replay has to start: after the ledger if there is one, and at
    /// the first block if there is not.
    pub start: u64,
    /// The height of the record read last, or to be read next.
    pub at: u64,
    pub rejoining: bool,
    pub applied: usize,
    pub error: Option<NodeError>,
}

/// Where a replay reads a log from: from where it has to start rather than from
/// the first record, so that a start does not grow with the chain.
pub open spec fn reads_from(log: Extent, start: u64) -> u64 {
    if start >= log.first {
        start
    } else {
        log.first
    }
}

/// Whether a log that is held begins past where the replay has to start, so
/// that nothing joins the two.
pub open spec fn leads_nowhere(log: Extent, start: u64) -> bool {
    !log.holding_nothing() && log.first > start
}

impl Opening {
    /// The height the replay reached.
    pub open spec fn reached(&self) -> u64 {
        self.start.saturating_add(self.applied as u64)
    }

    /// Records at or past where the replay began, that it did not apply. The
    /// ones before it were passed over, and passing over is not refusing. Nor
    /// is a record that would not decode counted, with what follows it: the
    /// second reading ends where it stands, and it is left on the disk.
    pub open spec fn refused(&self) -> usize {
        let past = self.log.reaches.saturating_sub(reads_from(self.log, self.start));
        if self.rejoining || past > usize::MAX {
            0
        } else {
            (past as usize).saturating_sub(self.applied)
        }
    }

    /// The start once it knows where the replay begins: with nothing to replay
    /// where the log leads nowhere, and otherwise with the log to read.
    pub open spec fn replaying_from(self, start: u64) -> Opening {
        let rejoining = leads_nowhere(self.log, start);
        Opening {
            start,
            at: reads_from(self.log, start),
            rejoining,
            step: if rejoining {
                OpenStep::Cut(start)
            } else {
                OpenStep::Read(reads_from(self.log, start))
            },
            ..self
        }
    }

    /// The start at an end, with nothing cut.
    pub open spec fn is_stopped_with(&self, error: NodeErrorView) -> bool {
        self.step == OpenStep::Failed && (self.error matches Some(held) && held@ == error)
    }

    /// The same, for one that stood at `before`: nothing else of it is changed.
    pub open spec fn stopped_from(self, before: Opening, error: NodeErrorView) -> bool {
        self.is_stopped_with(error) && self == (Opening {
            step: self.step,
            error: self.error,
            ..before
        })
    }

    /// Begins a start on a directory whose block log holds `log`.
    ///
    /// An archivist does not start from a ledger: the archive is built by
    /// reading blocks, and a ledger carries the cold set as roots. So it reads
    /// every block from the first, and where its blocks do not begin there it
    /// cannot build the archive at all and says so.
    pub fn open_with(archiving: bool, log: Extent, recovered: Recovery) -> (opening: Opening)
        ensures
            opening.log == log,
            opening.recovered == recovered,
            opening.read_again is None,
            opening.handed is None,
            opening.applied == 0,
            opening.start == 0,
            opening.at == log.first,
            !opening.rejoining,
            archiving && leads_nowhere(log, 0) ==> opening.is_stopped_with(
                (NodeErrorView::CannotArchive { from: log.first }),
            ),
            archiving && !leads_nowhere(log, 0) ==> opening.step == OpenStep::Read(log.first) && opening.error is None,
            !archiving ==> opening.step == OpenStep::ReadLedger && opening.error is None,
    {
        let mut opening = Opening {
            step: OpenStep::ReadLedger,
            log,
            recovered,
            read_again: None,
            handed: None,
            start: 0,
            at: log.first,
            rejoining: false,
            applied: 0,
            error: None,
        };
        if archiving {
            if !log.is_empty() && log.first > 0 {
                opening.step = OpenStep::Failed;
                opening.error = Some(NodeError::CannotArchive { from: log.first });
            } else {
                opening.step = OpenStep::Read(log.first);
            }
        }
        opening
    }

    fn replay_from(&mut self, start: u64)
        ensures
            *final(self) == old(self).replaying_from(start),
    {
        self.start = start;
        self.at = if start >= self.log.first {
            start
        } else {
            self.log.first
        };
        self.rejoining = !self.log.is_empty() && self.log.first > start;
        if self.rejoining {
            self.step = OpenStep::Cut(start);
        } else {
            self.step = OpenStep::Read(self.at);
        }
    }

    /// The start with the next record to read.
    pub open spec fn reading_on(self) -> Opening {
        let next = self.at.saturating_add(1);
        Opening { step: OpenStep::Read(next), at: next, ..self }
    }

    fn read_on(&mut self)
        ensures
            *final(self) == old(self).reading_on(),
    {
        self.at = self.at.saturating_add(1);
        self.step = OpenStep::Read(self.at);
    }

    fn fail(&mut self, error: NodeError)
        ensures
            *final(self) == (Opening {
                step: OpenStep::Failed,
                error: Some(error),
                ..*old(self)
            }),
    {
        self.step = OpenStep::Failed;
        self.error = Some(error);
    }

    /// Takes what reading the ledger came to.
    pub fn ledger(&mut self, read: Result<Option<HandedBack>, NodeError>)
        requires
            old(self).step == OpenStep::ReadLedger,
        ensures
            match read {
                Ok(Some(handed)) => *final(self) == (Opening {
                    step: OpenStep::Adopt,
                    handed: Some(handed),
                    ..*old(self)
                }),
                Ok(None) => *final(self) == old(self).replaying_from(0),
                Err(error) => *final(self) == (Opening {
                    step: OpenStep::Failed,
                    error: Some(error),
                    ..*old(self)
                }),
            },
    {
        match read {
            Ok(Some(handed)) => {
                self.handed = Some(handed);
                self.step = OpenStep::Adopt;
            },
            Ok(None) => {
                self.replay_from(0);
            },
            Err(error) => {
                self.fail(error);
            },
        }
    }

    /// Takes what adopting the ledger came to: the height of its newest header
    /// when it carries any, or the words it was refused with.
    pub fn adopted(&mut self, outcome: Result<Option<u64>, String>, file: &str)
        requires
            old(self).step == OpenStep::Adopt,
        ensures
            match outcome {
                Ok(newest) => *final(self) == old(self).replaying_from(
                    match newest {
                        Some(height) => height.saturating_add(1),
                        None => 0,
                    },
                ),
                Err(words) => final(self).stopped_from(
                    *old(self),
                    (NodeErrorView::UnusableLedger {
                        because: file@ + " could not be adopted: "@ + words@,
                    }),
                ),
            },
    {
        match outcome {
            Ok(newest) => {
                let start: u64 = match newest {
                    Some(height) => height.saturating_add(1),
                    None => 0,
                };
                self.replay_from(start);
            },
            Err(words) => {
                let mut because = String::from_str(file);
                because.append(" could not be adopted: ");
                because.append(words.as_str());
                self.fail(NodeError::UnusableLedger { because });
            },
        }
    }

    /// Takes the record of the block log that was to be read, in the file named.
    ///
    /// A block is judged against its own timestamp and not against the clock:
    /// it is one this node validated and wrote down itself, and a machine whose
    /// clock was put back would otherwise refuse its own blocks.
    pub fn record(&mut self, record: Record, file: &str)
        requires
            old(self).step == OpenStep::Read(old(self).at),
        ensures
            match record {
                Record::Block { height, timestamp } => *final(self) == if height < old(self).start {
                    old(self).reading_on()
                } else {
                    Opening {
                        step: OpenStep::Apply { height, clock: timestamp },
                        ..*old(self)
                    }
                },
                Record::Unreachable(words) => final(self).stopped_from(
                    *old(self),
                    (NodeErrorView::File { file: file@, source: words@ }),
                ),
                Record::Undecodable => *final(self) == (Opening {
                    step: OpenStep::ReadAgain,
                    ..*old(self)
                }),
                Record::End => *final(self) == (Opening {
                    step: OpenStep::Cut(old(self).reached()),
                    ..*old(self)
                }),
            },
    {
        match record {
            Record::Block { height, timestamp } => {
                if height < self.start {
                    self.read_on();
                } else {
                    self.step = OpenStep::Apply { height, clock: timestamp };
                }
            },
            Record::Unreachable(words) => {
                self.fail(NodeError::File { file: String::from_str(file), source: words });
            },
            Record::Undecodable => {
                self.step = OpenStep::ReadAgain;
            },
            Record::End => {
                self.step = OpenStep::Cut(self.start.saturating_add(self.applied as u64));
            },
        }
    }

    /// Takes what the chain made of the block just read.
    ///
    /// Anything but a plain extension ends the replay, because the log is the
    /// followed branch in order of height. A refusal about the reader stops
    /// the start instead, with nothing cut: the same build refuses the same
    /// blocks from the network, so what a cut would have asked for again could
    /// never have been taken back.
    pub fn replayed(&mut self, outcome: Replayed, known: u16, file: &str)
        requires
            old(self).step is Apply,
        ensures
            match (old(self).step, outcome) {
                (OpenStep::Apply { .. }, Replayed::Took(Accepted::Extended)) => *final(self) == (
                Opening {
                    applied: old(self).applied.saturating_add(1),
                    ..old(self).reading_on()
                }),
                (OpenStep::Apply { .. }, Replayed::Took(_)) => *final(self) == (Opening {
                    step: OpenStep::Cut(old(self).reached()),
                    ..*old(self)
                }),
                (OpenStep::Apply { height, .. }, Replayed::Refused(refusal)) => match stops_with(
                    height,
                    old(self).applied == 0,
                    refusal,
                    known,
                    file@,
                ) {
                    Some(error) => final(self).stopped_from(*old(self), error),
                    None => *final(self) == (Opening {
                        step: OpenStep::Cut(old(self).reached()),
                        ..*old(self)
                    }),
                },
                _ => true,
            },
    {
        let height: u64 = match self.step {
            OpenStep::Apply { height, .. } => height,
            _ => 0,
        };
        match outcome {
            Replayed::Took(Accepted::Extended) => {
                self.applied = self.applied.saturating_add(1);
                self.read_on();
            },
            Replayed::Took(_) => {
                self.step = OpenStep::Cut(self.start.saturating_add(self.applied as u64));
            },
            Replayed::Refused(refusal) => match about_the_reader(
                height,
                self.applied == 0,
                &refusal,
                known,
                file,
            ) {
                Some(error) => {
                    self.fail(error);
                },
                None => {
                    self.step = OpenStep::Cut(self.start.saturating_add(self.applied as u64));
                },
            },
        }
    }

    /// Takes what reading the log again past a record that would not decode
    /// came to: what was found, and what the log holds by that reading.
    pub fn read_again(&mut self, outcome: Result<(Recovery, Extent), String>, file: &str)
        requires
            old(self).step == OpenStep::ReadAgain,
        ensures
            match outcome {
                Ok((found, log)) => *final(self) == (Opening {
                    step: OpenStep::Cut(old(self).reached()),
                    log,
                    read_again: Some(found),
                    ..*old(self)
                }),
                Err(words) => final(self).stopped_from(
                    *old(self),
                    (NodeErrorView::File { file: file@, source: words@ }),
                ),
            },
    {
        match outcome {
            Ok((found, log)) => {
                self.log = log;
                self.read_again = Some(found);
                self.step = OpenStep::Cut(self.start.saturating_add(self.applied as u64));
            },
            Err(words) => {
                self.fail(NodeError::File { file: String::from_str(file), source: words });
            },
        }
    }

    /// Takes what the cut came to: nothing, or the words it was refused with.
    pub fn cut(&mut self, refused: Option<String>, file: &str)
        requires
            old(self).step is Cut,
        ensures
            match refused {
                None => *final(self) == (Opening { step: OpenStep::Start, ..*old(self) }),
                Some(words) => final(self).stopped_from(
                    *old(self),
                    (NodeErrorView::File { file: file@, source: words@ }),
                ),
            },
    {
        match refused {
            None => {
                self.step = OpenStep::Start;
            },
            Some(words) => {
                self.fail(NodeError::File { file: String::from_str(file), source: words });
            },
        }
    }

    /// What this node still owes on a ledger it was handed, carried across the
    /// restart. Worked out after the replay, because how much of the burial it
    /// has already validated is exactly what the replay settles.
    pub fn probation(&self, height: Option<u64>, now: u64) -> (held: Option<Undertaking>)
        ensures
            held == match (self.handed, height) {
                (Some(handed), Some(reached)) => if reached < handed.settles_at {
                    Some(
                        Undertaking {
                            anchor: handed.anchor,
                            settles_at: handed.settles_at,
                            reached,
                            moved: now,
                            asked: None,
                        },
                    )
                } else {
                    None
                },
                _ => None,
            },
    {
        match self.handed {
            Some(handed) => Undertaking::resumed(handed.anchor, handed.settles_at, height, now),
            None => None,
        }
    }

    /// The account of the start, once the headers have been caught up and the
    /// book read. What reading the log again found stands in place of what the
    /// open found.
    pub fn restored(&self, headers_set_aside: u64, caught_up: &CaughtUp, addresses: usize) -> (restored: Restored)
        ensures
            restored == (Restored {
                blocks: self.applied,
                refused: self.refused(),
                discarded_bytes: match self.read_again {
                    Some(found) => self.recovered.discarded_bytes.saturating_add(
                        found.discarded_bytes,
                    ),
                    None => self.recovered.discarded_bytes,
                },
                left_in_place: match self.read_again {
                    Some(found) => found.left_in_place,
                    None => self.recovered.left_in_place,
                },
                unreadable: match self.read_again {
                    Some(found) => found.unreadable,
                    None => self.recovered.unreadable,
                },
                headers_set_aside,
                headers_dropped: caught_up.dropped,
                headers_replaced: caught_up.replaced,
                blocks_set_aside: self.recovered.blocks_set_aside,
                rejoining: self.rejoining,
                addresses,
            }),
    {
        let from: u64 = if self.start >= self.log.first {
            self.start
        } else {
            self.log.first
        };
        let past: u64 = self.log.reaches.saturating_sub(from);
        let refused: usize = if self.rejoining || past > usize::MAX as u64 {
            0
        } else {
            (past as usize).saturating_sub(self.applied)
        };
        let (discarded_bytes, left_in_place, unreadable) = match self.read_again {
            Some(found) => (
                self.recovered.discarded_bytes.saturating_add(found.discarded_bytes),
                found.left_in_place,
                found.unreadable,
            ),
            None => (
                self.recovered.discarded_bytes,
                self.recovered.left_in_place,
                self.recovered.unreadable,
            ),
        };
        Restored {
            blocks: self.applied,
            refused,
            discarded_bytes,
            left_in_place,
            unreadable,
            headers_set_aside,
            headers_dropped: caught_up.dropped,
            headers_replaced: caught_up.replaced,
            blocks_set_aside: self.recovered.blocks_set_aside,
            rejoining: self.rejoining,
            addresses,
        }
    }
}

/// Whether a ledger file of `length` bytes is longer than any ledger there is,
/// which is asked before a byte of it is read.
pub fn is_too_long(length: u64, most: u64) -> (long: bool)
    ensures
        long == (length > most),
{
    length > most
}

/// Records a header log holds and will not answer for: whole records in a file
/// of `bytes` whose log reports holding nothing.
///
/// Asked before the log is filled in from the blocks, because filling it in is
/// what destroys the evidence.
pub fn headers_the_store_will_not_stand_behind(headers: Extent, bytes: u64, header_bytes: u64) -> (count: u64)
    ensures
        count == if !headers.holding_nothing() || header_bytes == 0 {
            0
        } else {
            bytes / header_bytes
        },
{
    if !headers.is_empty() {
        return 0;
    }
    match bytes.checked_div(header_bytes) {
        Some(count) => count,
        None => 0,
    }
}

/// What the chain made of the network's first block.
#[derive(Clone, Copy, Debug, PartialEq, Eq, Structural)]
pub enum FirstBlock {
    Took,
    /// Dated further ahead than this machine's clock allows.
    TooFarAhead { timestamp: u64 },
    /// Refused for anything else, which no clock would mend.
    Refused,
}

/// What laying down the first block came to.
#[derive(Clone, Copy, Debug, PartialEq, Eq, Structural)]
pub enum Laid {
    /// There was nothing to lay down, or it was refused.
    Nothing,
    /// Laid down, and to be written to the block log too where that is empty.
    InMemory,
    /// This machine's clock is this far behind it.
    Ahead(u64),
}

/// What laying down the first block comes to, by what the chain made of it.
pub open spec fn laid_by(made: Option<FirstBlock>, now: u64) -> Laid {
    match made {
        Some(FirstBlock::Took) => Laid::InMemory,
        Some(FirstBlock::TooFarAhead { timestamp }) => Laid::Ahead(timestamp.saturating_sub(now)),
        Some(FirstBlock::Refused) | None => Laid::Nothing,
    }
}

/// Lays down the network's first block, so a node that has never spoken to
/// anyone still knows where the story starts.
///
/// Only for a network that pins its first block, and only into a chain that
/// holds nothing. `first` gives this build's own first block to the chain;
/// `None` where there is none. A refusal over the clock is said, because the
/// person running the machine can mend it once somebody does.
pub fn open_the_chain<F: FnOnce() -> Option<FirstBlock>>(pinned: bool, empty: bool, now: u64, first: F) -> (laid: Laid)
    requires
        pinned && empty ==> call_requires(first, ()),
    ensures
        if !pinned || !empty {
            laid == Laid::Nothing
        } else {
            exists|made: Option<FirstBlock>| #[trigger]
                call_ensures(first, (), made) && laid == laid_by(made, now)
        },
{
    if !pinned || !empty {
        return Laid::Nothing;
    }
    let made = first();
    assert(call_ensures(first, (), made));
    match made {
        Some(FirstBlock::Took) => Laid::InMemory,
        Some(FirstBlock::TooFarAhead { timestamp }) => Laid::Ahead(timestamp.saturating_sub(now)),
        Some(FirstBlock::Refused) | None => Laid::Nothing,
    }
}

/// Nothing is cut for a refusal about the reader: a block this build has no
/// rules for stops the start where it stands, wherever in the log it is met.
pub proof fn nothing_is_cut_for_a_newer_rule(
    height: u64,
    first: bool,
    words: String,
    version: u16,
    known: u16,
    file: Seq<char>,
)
    ensures
        stops_with(height, first, BlockRefusal::SoftwareTooOld(words), known, file) is Some,
        stops_with(height, first, BlockRefusal::UnsupportedVersion(version), known, file) is Some,
{
}

/// What is left on the disk is not counted as refused: where reading the log
/// again past a record that would not decode ends no further than the replay
/// got, the cut takes nothing and the account counts nothing.
pub proof fn what_is_left_on_the_disk_is_not_refused(opening: Opening)
    requires
        opening.read_again is Some,
        opening.log.reaches <= opening.reached(),
    ensures
        opening.refused() == 0,
{
}

/// A cut never takes a block the replay applied: every one of them sits below
/// where the log is cut.
pub proof fn a_cut_keeps_what_was_replayed(opening: Opening, height: u64)
    requires
        opening.step == OpenStep::Cut(opening.reached()),
        opening.start + opening.applied <= u64::MAX,
        opening.start <= height < opening.start + opening.applied,
    ensures
        opening.step matches OpenStep::Cut(kept_below) && height < kept_below,
{
}

/// An archivist needs every block from the first and does not start without
/// them; anybody else begins with the ledger.
pub proof fn an_archivist_needs_every_block(
    archiving: bool,
    log: Extent,
    recovered: Recovery,
    opening: Opening,
)
    requires
        call_ensures(Opening::open_with, (archiving, log, recovered), opening),
    ensures
        !archiving ==> opening.step is ReadLedger && opening.error is None,
        archiving && log.first > 0 && log.first != log.reaches ==> opening.step is Failed && (
        opening.error matches Some(error) && (error@ matches NodeErrorView::CannotArchive { from }
            && from == log.first)),
        archiving && (log.first == 0 || log.first == log.reaches) ==> opening.step
            == OpenStep::Read(log.first) && opening.error is None,
        opening.applied == 0,
        opening.handed is None,
        opening.log == log,
{
}

/// A ledger read is adopted before anything is replayed. With none, blocks are
/// replayed from the first, and where the log does not go down that far it is
/// cut and the chain joined again. A ledger that cannot be used stops the node.
pub proof fn a_ledger_is_adopted_before_blocks_are_replayed(
    opening: &mut Opening,
    read: Result<Option<HandedBack>, NodeError>,
)
    requires
        call_ensures(Opening::ledger, (opening, read), ()),
    ensures
        read matches Ok(Some(handed)) ==> final(opening).step is Adopt && final(opening).handed
            == Some(handed),
        read matches Ok(None) ==> {
            let short = old(opening).log.first != old(opening).log.reaches
                && old(opening).log.first > 0;
            &&& short ==> final(opening).step == OpenStep::Cut(0) && final(opening).rejoining
            &&& !short ==> final(opening).step == OpenStep::Read(old(opening).log.first)
                && !final(opening).rejoining
            &&& final(opening).start == 0
        },
        read matches Err(error) ==> final(opening).step is Failed && final(opening).error == Some(
            error,
        ),
        final(opening).applied == old(opening).applied,
        final(opening).log == old(opening).log,
{
}

/// Once a ledger is adopted, blocks are replayed from the one above its newest,
/// or the log is cut there where it begins higher up.
pub proof fn blocks_are_replayed_above_the_ledger(
    opening: &mut Opening,
    outcome: Result<Option<u64>, String>,
    file: &str,
)
    requires
        call_ensures(Opening::adopted, (opening, outcome, file), ()),
    ensures
        outcome is Err ==> final(opening).step is Failed && final(opening).error is Some,
        outcome matches Ok(newest) ==> {
            &&& newest is None ==> final(opening).start == 0
            &&& newest matches Some(height) ==> height < u64::MAX ==> final(opening).start == height
                + 1
            &&& old(opening).log.first != old(opening).log.reaches && old(opening).log.first
                > final(opening).start ==> final(opening).step == OpenStep::Cut(
                final(opening).start,
            ) && final(opening).rejoining
            &&& old(opening).log.first <= final(opening).start ==> final(opening).step
                == OpenStep::Read(final(opening).start) && !final(opening).rejoining
        },
        final(opening).handed == old(opening).handed,
        final(opening).applied == old(opening).applied,
{
}

/// A record below where replaying begins is passed over, and any other is
/// applied with the clock at its own time. The end of the log cuts it at what
/// was applied, a record that cannot be made out has the log read again, and
/// one that cannot be got at stops the node.
pub proof fn a_record_is_applied_from_where_replaying_begins(
    opening: &mut Opening,
    record: Record,
    file: &str,
)
    requires
        call_ensures(Opening::record, (opening, record, file), ()),
    ensures
        record matches Record::Block { height, timestamp } ==> {
            &&& height < old(opening).start && old(opening).at < u64::MAX ==> (
            final(opening).step matches OpenStep::Read(next) && next == old(opening).at + 1
                && final(opening).at == next)
            &&& height >= old(opening).start ==> final(opening).step == (OpenStep::Apply {
                height,
                clock: timestamp,
            }) && final(opening).at == old(opening).at
        },
        record is End && old(opening).start + old(opening).applied <= u64::MAX ==> (
        final(opening).step matches OpenStep::Cut(at) && at == old(opening).start
            + old(opening).applied),
        record is Undecodable ==> final(opening).step is ReadAgain,
        record is Unreachable ==> final(opening).step is Failed && final(opening).error is Some,
        final(opening).applied == old(opening).applied,
        final(opening).start == old(opening).start,
{
}

/// A block that extends the chain is counted and the next is read. One that
/// does anything else, or that the rules refuse, cuts the log at what was
/// applied; one written under rules this build does not have stops the node
/// instead, and so does another network's at the very first.
pub proof fn a_block_replayed_is_counted_when_it_extends(
    opening: &mut Opening,
    outcome: Replayed,
    known: u16,
    file: &str,
)
    requires
        call_ensures(Opening::replayed, (opening, outcome, known, file), ()),
        old(opening).step is Apply,
        old(opening).start + old(opening).applied < u64::MAX,
        old(opening).applied < usize::MAX,
        old(opening).at < u64::MAX,
    ensures
        (outcome matches Replayed::Took(Accepted::Extended)) ==> final(opening).applied
            == old(opening).applied + 1 && (final(opening).step matches OpenStep::Read(next) && next
            == old(opening).at + 1),
        (outcome matches Replayed::Took(accepted) && !(accepted is Extended)) ==> (
        final(opening).step matches OpenStep::Cut(at) && at == old(opening).start
            + old(opening).applied),
        outcome matches Replayed::Refused(refusal) ==> {
            let stops = refusal is SoftwareTooOld || refusal is UnsupportedVersion || (
            old(opening).applied == 0 && (refusal is WrongNetwork
                || refusal is BeforeTheNetworkOpened));
            &&& stops ==> final(opening).step is Failed && final(opening).error is Some
            &&& !stops ==> (final(opening).step matches OpenStep::Cut(at) && at
                == old(opening).start + old(opening).applied)
        },
        !(outcome matches Replayed::Took(Accepted::Extended)) ==> final(opening).applied
            == old(opening).applied,
{
}

/// A refusal stops the reader when it is about the reader and not the block.
pub proof fn a_refusal_about_the_reader_stops_it(
    height: u64,
    first: bool,
    refusal: &BlockRefusal,
    known: u16,
    file: &str,
    stop: Option<NodeError>,
)
    requires
        call_ensures(about_the_reader, (height, first, refusal, known, file), stop),
    ensures
        *refusal is AboutTheBlock ==> stop is None,
        *refusal is SoftwareTooOld || *refusal is UnsupportedVersion ==> (stop matches Some(error)
            && error@ is OtherRules),
        *refusal is WrongNetwork || *refusal is BeforeTheNetworkOpened ==> (stop is Some <==> first)
            && (stop matches Some(error) ==> error@ is OtherNetwork),
{
}

/// Once the log is cut the node starts; a log read again is cut at what was
/// applied, as it was found to be. What the disk refuses of either stops it.
pub proof fn a_node_starts_once_its_log_is_cut(
    cut: &mut Opening,
    refused: Option<String>,
    again: &mut Opening,
    outcome: Result<(Recovery, Extent), String>,
    file: &str,
)
    requires
        call_ensures(Opening::cut, (cut, refused, file), ()),
        call_ensures(Opening::read_again, (again, outcome, file), ()),
        old(again).start + old(again).applied <= u64::MAX,
    ensures
        refused is None ==> final(cut).step is Start && final(cut).error == old(cut).error,
        refused is Some ==> final(cut).step is Failed && final(cut).error is Some,
        outcome matches Ok((found, log)) ==> final(again).log == log && final(again).read_again
            == Some(found) && (final(again).step matches OpenStep::Cut(at) && at
            == old(again).start + old(again).applied),
        outcome is Err ==> final(again).step is Failed && final(again).error is Some,
{
}

/// A node that adopted a ledger is on probation until its chain reaches where
/// that settles; no other is.
pub proof fn adopting_a_ledger_is_an_undertaking(
    opening: &Opening,
    height: Option<u64>,
    now: u64,
    held: Option<Undertaking>,
)
    requires
        call_ensures(Opening::probation, (opening, height, now), held),
    ensures
        held is Some <==> (opening.handed matches Some(handed) && (height matches Some(height)
            && height < handed.settles_at)),
        held matches Some(held) ==> (opening.handed matches Some(handed) && held.anchor
            == handed.anchor && held.settles_at == handed.settles_at && Some(held.reached) == height
            && held.moved == now && held.asked is None),
{
}

/// What is said of a start is what was found: how many blocks were replayed,
/// how many of those on the disk were not, and what the log had to let go of,
/// all that both readings of it dropped and what the later left.
pub proof fn what_is_said_of_a_start_is_what_was_found(
    opening: &Opening,
    headers_set_aside: u64,
    caught_up: &CaughtUp,
    addresses: usize,
    restored: Restored,
)
    requires
        call_ensures(
            Opening::restored,
            (opening, headers_set_aside, caught_up, addresses),
            restored,
        ),
        opening.log.first <= opening.start <= opening.log.reaches,
        opening.log.reaches - opening.start <= usize::MAX,
    ensures
        restored.blocks == opening.applied,
        opening.rejoining ==> restored.refused == 0,
        !opening.rejoining && opening.start + opening.applied <= opening.log.reaches
            ==> restored.refused + opening.start + opening.applied == opening.log.reaches,
        !opening.rejoining && opening.start + opening.applied > opening.log.reaches
            ==> restored.refused == 0,
        restored.headers_set_aside == headers_set_aside,
        restored.headers_dropped == caught_up.dropped,
        restored.headers_replaced == caught_up.replaced,
        restored.rejoining == opening.rejoining,
        restored.addresses == addresses,
        opening.read_again is None ==> restored.discarded_bytes == opening.recovered.discarded_bytes,
        opening.read_again matches Some(found) ==> opening.recovered.discarded_bytes
            + found.discarded_bytes <= u64::MAX ==> restored.discarded_bytes
            == opening.recovered.discarded_bytes + found.discarded_bytes,
{
}

/// A ledger file that is not there is no trouble; one that cannot be read, is
/// too long, cannot be made out or is refused is, and is not used. One that is
/// used stands a burial above its anchor, or at its tip.
pub proof fn only_a_ledger_that_is_accepted_is_used<
    D: FnOnce(&Vec<u8>) -> Result<Handed, String>,
    A: FnOnce(&Handed) -> Result<(), HandoverRefusal>,
>(
    read: LedgerFile,
    file: &str,
    most: u64,
    burial: u64,
    decode: D,
    accept: A,
    handed: Result<Option<HandedBack>, NodeError>,
)
    requires
        call_ensures(
            read_handed_ledger::<D, A>,
            (read, file, most, burial, decode, accept),
            handed,
        ),
    ensures
        read is Missing <==> (handed matches Ok(None)),
        read is Unreadable || read is TooLong ==> (handed matches Err(error)
            && error@ is UnusableLedger),
        handed matches Ok(Some(back)) ==> (read matches LedgerFile::Read(bytes) && exists|
            handover: Handed,
        |
            #![trigger call_ensures(accept, (&handover,), Ok::<(), HandoverRefusal>(()))]
            call_ensures(decode, (&bytes,), Ok::<Handed, String>(handover)) && call_ensures(
                accept,
                (&handover,),
                Ok::<(), HandoverRefusal>(()),
            ) && back.anchor == handover.anchor && back.settles_at <= handover.tip.height
                && back.settles_at <= handover.anchor + burial && (back.settles_at
                == handover.tip.height || back.settles_at == handover.anchor + burial)),
{
    match read {
        LedgerFile::Read(bytes) => {
            let decoded = choose|decoded: Result<Handed, String>| #[trigger]
                call_ensures(decode, (&bytes,), decoded) && match decoded {
                    Err(words) => handed matches Err(error) && error@ == (
                    NodeErrorView::UnusableLedger {
                        because: file@ + " is not a ledger this build can read: "@ + words@,
                    }),
                    Ok(handover) => exists|accepted: Result<(), HandoverRefusal>| #[trigger]
                        call_ensures(accept, (&handover,), accepted) && match accepted {
                            Err(refusal) => handed matches Err(error) && error@
                                == about_the_ledger(refusal, file@),
                            Ok(()) => handed matches Ok(Some(back)) && as_handed_back(
                                handover,
                                burial,
                                back,
                            ),
                        },
                };
            match decoded {
                Ok(handover) => {
                    let accepted = choose|accepted: Result<(), HandoverRefusal>| #[trigger]
                        call_ensures(accept, (&handover,), accepted) && match accepted {
                            Err(refusal) => handed matches Err(error) && error@
                                == about_the_ledger(refusal, file@),
                            Ok(()) => handed matches Ok(Some(back)) && as_handed_back(
                                handover,
                                burial,
                                back,
                            ),
                        };
                    match accepted {
                        Ok(unit) => {
                            assert(call_ensures(
                                accept,
                                (&handover,),
                                Ok::<(), HandoverRefusal>(()),
                            ));
                        },
                        Err(_) => {},
                    }
                },
                Err(_) => {},
            }
        },
        _ => {},
    }
}

/// A ledger refused for its rules is kept for a build that has them, and one of
/// another network for that network; anything else makes it unusable.
pub proof fn a_ledger_refused_says_what_would_read_it(
    refusal: &HandoverRefusal,
    file: &str,
    error: NodeError,
)
    requires
        call_ensures(ledger_refused, (refusal, file), error),
    ensures
        *refusal is SoftwareTooOld || *refusal is WrongVersion <==> error@ is OtherRules,
        *refusal is WrongNetwork || *refusal is BeforeTheNetworkOpened <==> error@ is OtherNetwork,
        *refusal is Other <==> error@ is UnusableLedger,
{
}

/// A chain is opened with its first block only by a node told which it is and
/// holding none. One dated ahead of the clock is waited for, and for how long
/// is said.
pub proof fn a_chain_is_opened_by_its_first_block<F: FnOnce() -> Option<FirstBlock>>(
    pinned: bool,
    empty: bool,
    now: u64,
    first: F,
    laid: Laid,
)
    requires
        call_ensures(open_the_chain::<F>, (pinned, empty, now, first), laid),
    ensures
        !pinned || !empty ==> laid is Nothing,
        laid is InMemory ==> pinned && empty && call_ensures(first, (), Some(FirstBlock::Took)),
        laid matches Laid::Ahead(seconds) ==> pinned && empty && exists|timestamp: u64| #[trigger]
            call_ensures(first, (), Some(FirstBlock::TooFarAhead { timestamp })) && (now
                <= timestamp ==> now + seconds == timestamp),
        pinned && empty && laid is Nothing ==> call_ensures(first, (), Some(FirstBlock::Refused))
            || call_ensures(first, (), None::<FirstBlock>),
{
    if pinned && empty {
        let made = choose|made: Option<FirstBlock>| #[trigger]
            call_ensures(first, (), made) && laid == laid_by(made, now);
        match made {
            Some(FirstBlock::TooFarAhead { timestamp }) => {
                assert(call_ensures(first, (), Some(FirstBlock::TooFarAhead { timestamp })));
            },
            _ => {},
        }
    }
}

/// A file is too long past its most, and headers a store will not stand behind
/// are those on the disk of a log that says it holds none.
pub proof fn what_a_store_will_not_stand_behind(
    length: u64,
    most: u64,
    long: bool,
    headers: Extent,
    bytes: u64,
    header_bytes: u64,
    count: u64,
)
    requires
        call_ensures(is_too_long, (length, most), long),
        call_ensures(
            headers_the_store_will_not_stand_behind,
            (headers, bytes, header_bytes),
            count,
        ),
    ensures
        long <==> most < length,
        headers.first != headers.reaches || header_bytes == 0 ==> count == 0,
        headers.first == headers.reaches && header_bytes > 0 ==> count * header_bytes <= bytes
            < (count + 1) * header_bytes,
{
    if header_bytes > 0 {
        let n = bytes as int / header_bytes as int;
        assert(n * header_bytes <= bytes < (n + 1) * header_bytes) by (nonlinear_arith)
            requires
                header_bytes > 0,
                n == bytes as int / header_bytes as int,
        ;
    }
}

/// Why a connection was not kept is told apart in words.
pub proof fn reasons_for_not_keeping_are_told_apart(
    refusing: String,
    full: String,
    stopping: String,
)
    requires
        call_ensures(Unkept::to_string, (&Unkept::Refusing,), refusing),
        call_ensures(Unkept::to_string, (&Unkept::Full,), full),
        call_ensures(Unkept::to_string, (&Unkept::Stopping,), stopping),
    ensures
        refusing@
            == "this node is refusing that host for now, after it sent something a peer should not send"@,
        full@ == "this node already holds as many connections as it takes"@,
        stopping@ == "this node is stopping, or the socket could not be set up"@,
{
}

/// Whether one text has another in it.
pub open spec fn says(text: Seq<char>, part: Seq<char>) -> bool {
    exists|before: Seq<char>, after: Seq<char>| text == #[trigger] (before + part + after)
}

proof fn it_says(text: Seq<char>, before: Seq<char>, part: Seq<char>, after: Seq<char>)
    requires
        text =~= before + part + after,
    ensures
        says(text, part),
{
    assert(text == before + part + after);
}

/// An error says what it is about: the file it is of, and what was wrong.
pub proof fn an_error_says_what_it_is_about(error: &NodeError, said: String)
    requires
        call_ensures(NodeError::to_string, (error,), said),
    ensures
        match error@ {
            NodeErrorView::Io(words) => says(said@, words),
            NodeErrorView::Store(words) => said@ == words,
            NodeErrorView::File { file, source } => says(said@, file) && says(said@, source),
            NodeErrorView::OtherRules { file, because } => says(said@, file) && says(
                said@,
                because,
            ),
            NodeErrorView::CannotArchive { from } => says(said@, decimal(from as nat)),
            NodeErrorView::OtherNetwork { file, because } => says(said@, file) && says(
                said@,
                because,
            ),
            NodeErrorView::UnusableLedger { because } => says(said@, because),
            NodeErrorView::NotKept { address, because } => says(said@, address) && says(
                said@,
                because.words(),
            ),
        },
{
    let none = Seq::<char>::empty();
    match error@ {
        NodeErrorView::Io(words) => {
            it_says(said@, "could not open the connection: "@, words, none);
        },
        NodeErrorView::Store(_) => {},
        NodeErrorView::File { file, source } => {
            it_says(said@, "could not use "@, file, ": "@ + source);
            it_says(said@, "could not use "@ + file + ": "@, source, none);
        },
        NodeErrorView::OtherRules { file, because } => {
            it_says(said@, none, file, said@.skip(file.len() as int));
            let start = (file + " was written under rules this build does not have: "@).len();
            it_says(
                said@,
                said@.take(start as int),
                because,
                said@.skip((start + because.len()) as int),
            );
        },
        NodeErrorView::CannotArchive { from } => {
            let number = decimal(from as nat);
            let start =
                "this node was asked to keep the whole cold set, and the blocks on its disk begin at height "@.len();
            it_says(
                said@,
                said@.take(start as int),
                number,
                said@.skip((start + number.len()) as int),
            );
        },
        NodeErrorView::OtherNetwork { file, because } => {
            it_says(said@, none, file, said@.skip(file.len() as int));
            let start = (file + " holds another network's chain: "@).len();
            it_says(
                said@,
                said@.take(start as int),
                because,
                said@.skip((start + because.len()) as int),
            );
        },
        NodeErrorView::UnusableLedger { because } => {
            it_says(said@, none, because, said@.skip(because.len() as int));
        },
        NodeErrorView::NotKept { address, because } => {
            let start = "the connection to "@.len();
            it_says(
                said@,
                said@.take(start as int),
                address,
                said@.skip((start + address.len()) as int),
            );
            let words = because.words();
            let later = ("the connection to "@ + address
                + " was opened and closed again without being kept: "@).len();
            it_says(
                said@,
                said@.take(later as int),
                words,
                said@.skip((later + words.len()) as int),
            );
        },
    }
}

} // verus!
