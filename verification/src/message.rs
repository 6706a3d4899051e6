//! What two nodes say to each other, as far as deciding about it needs.
//!
//! A block, a transfer and a header are named here by what the logic reads of
//! them: a height, an identifier. The bodies stay with whoever carries them.

use vstd::prelude::*;

use crate::address::Address;
use crate::network::{Hash32, Located, NetworkId};

verus! {

/// Blocks one question asks for at most.
pub const MAX_REQUESTED: usize = 128;

/// Places in the cold set one message names at most.
pub const MAX_PROVEN: usize = 64;

/// What a node says it keeps.
#[derive(Clone, Copy, Debug, PartialEq, Eq, Structural)]
pub struct Keeps {
    /// Every header, and the forest over them, so it can show the chain.
    pub headers: bool,
    /// The whole cold set, so it can rebuild a path for a note that fell.
    pub cold_set: bool,
}

/// How a node introduces itself.
#[derive(Clone, Copy, Debug, PartialEq, Eq, Structural)]
pub struct Handshake {
    pub version: u32,
    pub network: NetworkId,
    /// The first block of its chain, or nothing.
    pub genesis: Hash32,
    pub tip: Hash32,
    pub height: u64,
    pub total_work: u128,
    pub keeps: Keeps,
    /// The port it listens on, or nought when it listens on none.
    pub listen: u16,
    /// What it calls itself, for one run.
    pub nonce: u64,
}

/// The two answers a join is made of.
#[derive(Clone, Copy, Debug, PartialEq, Eq, Structural)]
pub enum Joining {
    /// What work stands behind a chain.
    Weight,
    /// The ledger at its tip.
    Ledger,
}

/// A path from a leaf up to a commitment.
#[derive(Debug)]
pub struct Path {
    pub siblings: Vec<Hash32>,
}

/// One place in the cold set, and the path to it where there is one.
#[derive(Debug)]
pub struct Placed {
    pub position: u64,
    pub proof: Option<Path>,
}

/// Which message a message is.
#[derive(Clone, Copy, Debug, PartialEq, Eq, Structural)]
pub enum Kind {
    Hello,
    Welcome,
    Ping,
    Pong,
    GetChain,
    Chain,
    GetBlocks,
    Block,
    Announce,
    GetPeers,
    Peers,
    Transaction,
    GetJoin,
    JoinPart,
    GetHeaders,
    Headers,
    GetProofs,
    Proofs,
}

/// One message.
#[derive(Debug)]
pub enum Message {
    Hello(Handshake),
    Welcome(Handshake),
    Ping(u64),
    Pong(u64),
    GetChain { locator: Vec<Located> },
    Chain { from: u64, count: u64 },
    GetBlocks(Vec<u64>),
    /// A block, by where it sits and what it is.
    Block(Located),
    Announce(Vec<Located>),
    GetPeers,
    Peers(Vec<Address>),
    /// A transfer, by what it is.
    Transaction(Hash32),
    GetJoin { what: Joining, part: u32 },
    JoinPart { what: Joining, at: Hash32, part: u32, parts: u32, bytes: Vec<u8> },
    GetHeaders { from: u64, count: u64 },
    /// A run of headers, by the heights they claim.
    Headers { from: u64, heights: Vec<u64> },
    GetProofs(Vec<u64>),
    Proofs(Vec<Placed>),
}

/// What a message says, apart from how it is held.
pub enum MessageView {
    Hello(Handshake),
    Welcome(Handshake),
    Ping(u64),
    Pong(u64),
    GetChain { locator: Seq<Located> },
    Chain { from: u64, count: u64 },
    GetBlocks(Seq<u64>),
    Block(Located),
    Announce(Seq<Located>),
    GetPeers,
    Peers(Seq<Address>),
    Transaction(Hash32),
    GetJoin { what: Joining, part: u32 },
    JoinPart { what: Joining, at: Hash32, part: u32, parts: u32, bytes: Seq<u8> },
    GetHeaders { from: u64, count: u64 },
    Headers { from: u64, heights: Seq<u64> },
    GetProofs(Seq<u64>),
    Proofs(Seq<Placed>),
}

impl View for Message {
    type V = MessageView;

    open spec fn view(&self) -> MessageView {
        match *self {
            Message::Hello(theirs) => MessageView::Hello(theirs),
            Message::Welcome(theirs) => MessageView::Welcome(theirs),
            Message::Ping(nonce) => MessageView::Ping(nonce),
            Message::Pong(nonce) => MessageView::Pong(nonce),
            Message::GetChain { locator } => MessageView::GetChain { locator: locator@ },
            Message::Chain { from, count } => MessageView::Chain { from, count },
            Message::GetBlocks(heights) => MessageView::GetBlocks(heights@),
            Message::Block(block) => MessageView::Block(block),
            Message::Announce(ids) => MessageView::Announce(ids@),
            Message::GetPeers => MessageView::GetPeers,
            Message::Peers(addresses) => MessageView::Peers(addresses@),
            Message::Transaction(id) => MessageView::Transaction(id),
            Message::GetJoin { what, part } => MessageView::GetJoin { what, part },
            Message::JoinPart { what, at, part, parts, bytes } => MessageView::JoinPart {
                what,
                at,
                part,
                parts,
                bytes: bytes@,
            },
            Message::GetHeaders { from, count } => MessageView::GetHeaders { from, count },
            Message::Headers { from, heights } => MessageView::Headers { from, heights: heights@ },
            Message::GetProofs(positions) => MessageView::GetProofs(positions@),
            Message::Proofs(placed) => MessageView::Proofs(placed@),
        }
    }
}

impl MessageView {
    pub open spec fn kind(self) -> Kind {
        match self {
            MessageView::Hello(_) => Kind::Hello,
            MessageView::Welcome(_) => Kind::Welcome,
            MessageView::Ping(_) => Kind::Ping,
            MessageView::Pong(_) => Kind::Pong,
            MessageView::GetChain { .. } => Kind::GetChain,
            MessageView::Chain { .. } => Kind::Chain,
            MessageView::GetBlocks(_) => Kind::GetBlocks,
            MessageView::Block(_) => Kind::Block,
            MessageView::Announce(_) => Kind::Announce,
            MessageView::GetPeers => Kind::GetPeers,
            MessageView::Peers(_) => Kind::Peers,
            MessageView::Transaction(_) => Kind::Transaction,
            MessageView::GetJoin { .. } => Kind::GetJoin,
            MessageView::JoinPart { .. } => Kind::JoinPart,
            MessageView::GetHeaders { .. } => Kind::GetHeaders,
            MessageView::Headers { .. } => Kind::Headers,
            MessageView::GetProofs(_) => Kind::GetProofs,
            MessageView::Proofs(_) => Kind::Proofs,
        }
    }

    /// Whether this is the message a node introduces itself with.
    pub open spec fn is_introduction(self) -> bool {
        self.kind() == Kind::Hello || self.kind() == Kind::Welcome
    }
}

impl Message {
    pub fn kind(&self) -> (kind: Kind)
        ensures
            kind == self@.kind(),
    {
        match self {
            Message::Hello(_) => Kind::Hello,
            Message::Welcome(_) => Kind::Welcome,
            Message::Ping(_) => Kind::Ping,
            Message::Pong(_) => Kind::Pong,
            Message::GetChain { .. } => Kind::GetChain,
            Message::Chain { .. } => Kind::Chain,
            Message::GetBlocks(_) => Kind::GetBlocks,
            Message::Block(_) => Kind::Block,
            Message::Announce(_) => Kind::Announce,
            Message::GetPeers => Kind::GetPeers,
            Message::Peers(_) => Kind::Peers,
            Message::Transaction(_) => Kind::Transaction,
            Message::GetJoin { .. } => Kind::GetJoin,
            Message::JoinPart { .. } => Kind::JoinPart,
            Message::GetHeaders { .. } => Kind::GetHeaders,
            Message::Headers { .. } => Kind::Headers,
            Message::GetProofs(_) => Kind::GetProofs,
            Message::Proofs(_) => Kind::Proofs,
        }
    }
}

/// Whether this message is taken before the allowance has been asked about.
///
/// What is taken here is work a stranger gets for nothing, so the whole of the
/// set is in one place: a piece of an answer to a question this node put to
/// one named peer, and nothing else. Anybody else's copy of a piece is dropped
/// on a comparison. A run of paths is work, and is charged for.
pub fn taken_before_the_allowance(message: &Message) -> (taken: bool)
    ensures
        taken == (message@.kind() == Kind::JoinPart),
{
    match message {
        Message::JoinPart { .. } => true,
        Message::Hello(_)
        | Message::Welcome(_)
        | Message::Ping(_)
        | Message::Pong(_)
        | Message::GetChain { .. }
        | Message::Chain { .. }
        | Message::GetBlocks(_)
        | Message::Block(_)
        | Message::Announce(_)
        | Message::GetPeers
        | Message::Peers(_)
        | Message::Transaction(_)
        | Message::GetJoin { .. }
        | Message::GetHeaders { .. }
        | Message::Headers { .. }
        | Message::GetProofs(_)
        | Message::Proofs(_) => false,
    }
}

/// Only a piece of a join is taken before an allowance is asked for.
pub proof fn only_a_piece_of_a_join_is_taken_unpaid(message: &Message, taken: bool)
    requires
        call_ensures(taken_before_the_allowance, (message,), taken),
    ensures
        taken <==> message@ is JoinPart,
{
}

/// A message is of the kind it was written as.
pub proof fn a_message_is_of_its_own_kind(message: &Message, kind: Kind)
    requires
        call_ensures(Message::kind, (message,), kind),
    ensures
        *message is Hello <==> kind == Kind::Hello,
        *message is Welcome <==> kind == Kind::Welcome,
        *message is Ping <==> kind == Kind::Ping,
        *message is Pong <==> kind == Kind::Pong,
        *message is GetChain <==> kind == Kind::GetChain,
        *message is Chain <==> kind == Kind::Chain,
        *message is GetBlocks <==> kind == Kind::GetBlocks,
        *message is Block <==> kind == Kind::Block,
        *message is Announce <==> kind == Kind::Announce,
        *message is GetPeers <==> kind == Kind::GetPeers,
        *message is Peers <==> kind == Kind::Peers,
        *message is Transaction <==> kind == Kind::Transaction,
        *message is GetJoin <==> kind == Kind::GetJoin,
        *message is JoinPart <==> kind == Kind::JoinPart,
        *message is GetHeaders <==> kind == Kind::GetHeaders,
        *message is Headers <==> kind == Kind::Headers,
        *message is GetProofs <==> kind == Kind::GetProofs,
        *message is Proofs <==> kind == Kind::Proofs,
{
}

} // verus!
