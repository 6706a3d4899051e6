//! The block log, the header log and the forest over it, kept to the branch
//! the chain is on.

use cairn_net::disk::{Extent, Reading, Refusing, Writing};
use cairn_net::logs::{
    write_branch, Accepted, Appended, BlockStep, BlockWriting, CatchUpStep, CatchingUp, CaughtUp,
    Copied, ForestGrowing, ForestStep, HeaderStep, HeaderWriting,
};
use cairn_net::network::Hash32;

/// A log of one record a height, from `first` up.
#[derive(Clone)]
struct Log {
    first: u64,
    held: Vec<Hash32>,
}

impl Log {
    fn of(branch: &[Hash32], first: u64, reaches: u64) -> Log {
        Log { first, held: branch[first as usize..reaches as usize].to_vec() }
    }

    fn empty() -> Log {
        Log { first: 0, held: Vec::new() }
    }

    fn reaches(&self) -> u64 {
        self.first + self.held.len() as u64
    }

    fn extent(&self) -> Extent {
        Extent { first: self.first, reaches: self.reaches() }
    }

    fn at(&self, height: u64) -> Option<Hash32> {
        if height < self.first {
            return None;
        }
        self.held.get((height - self.first) as usize).copied()
    }

    /// Takes the record of `height`, which has to be the one that comes next.
    fn append(&mut self, height: u64, id: Hash32) {
        if self.held.is_empty() {
            self.first = height;
        }
        assert_eq!(height, self.reaches(), "a record landed at another height");
        self.held.push(id);
    }

    fn keep_below(&mut self, height: u64) {
        let keep = height.saturating_sub(self.first) as usize;
        self.held.truncate(keep);
    }
}

fn branch(count: u64, nonce: u128) -> Vec<Hash32> {
    (0..count).map(|height| Hash32 { high: nonce, low: u128::from(height) + 1 }).collect()
}

/// One branch to `fork`, and another of the same length above it.
fn replaced(of: &[Hash32], fork: u64) -> Vec<Hash32> {
    let other = branch(of.len() as u64, 99);
    let mut mixed = of[..fork as usize].to_vec();
    mixed.extend_from_slice(&other[fork as usize..]);
    mixed
}

/// Writes a chain holding the identifiers from `held_from` up into a header
/// log.
fn write_headers(log: &mut Log, chain: &[Hash32], held_from: u64) -> Option<Refusing> {
    let now = |height: u64| {
        if height < held_from {
            None
        } else {
            chain.get(height as usize).copied()
        }
    };
    let mut pass =
        HeaderWriting::write_headers(log.extent(), Some(chain.len() as u64 - 1), held_from);
    loop {
        match pass.step {
            HeaderStep::Look(at) => pass.looked(Ok(log.at(at)), now(at)),
            HeaderStep::Cut(at) => {
                log.keep_below(at);
                pass.cut(None);
            }
            HeaderStep::Append(at) => match now(at) {
                Some(id) => {
                    log.append(at, id);
                    pass.appended(Appended::Written);
                }
                None => pass.appended(Appended::Gone),
            },
            HeaderStep::Done => return pass.refusing,
        }
    }
}

fn grow_forest(forest: &mut Vec<Hash32>, headers: &Log) -> Option<Refusing> {
    let mut pass = ForestGrowing::grow_forest(forest.len() as u64, headers.extent());
    loop {
        match pass.step {
            ForestStep::Look(at) => {
                pass.looked(Ok((forest.get(at as usize).copied(), headers.at(at))));
            }
            ForestStep::Cut(at) => {
                forest.truncate(at as usize);
                pass.cut(None);
            }
            ForestStep::Append(at) => match headers.at(at) {
                Some(id) => {
                    assert_eq!(at, forest.len() as u64);
                    forest.push(id);
                    pass.appended(Appended::Written);
                }
                None => pass.appended(Appended::Gone),
            },
            ForestStep::Done => return pass.refusing,
        }
    }
}

fn write_blocks(log: &mut Log, accepted: Accepted, chain: &[Hash32]) -> Option<Refusing> {
    let mut pass =
        BlockWriting::write_blocks(log.extent(), accepted, Some(chain.len() as u64 - 1));
    loop {
        match pass.step {
            BlockStep::Cut(at) => {
                log.keep_below(at);
                pass.cut(None);
            }
            BlockStep::Ask(at) => pass.asked((at as usize) < chain.len()),
            BlockStep::Append(at) => match chain.get(at as usize) {
                Some(id) => {
                    log.append(at, *id);
                    pass.appended(Appended::Written);
                }
                None => pass.appended(Appended::Gone),
            },
            BlockStep::Done => return pass.refusing,
        }
    }
}

fn catch_up_headers(headers: &mut Log, blocks: &Log, window: u64) -> CaughtUp {
    let mut pass = CatchingUp::catch_up_headers(headers.extent(), blocks.extent(), window);
    loop {
        match pass.step {
            CatchUpStep::Empty => {
                *headers = Log::empty();
                pass.emptied(None);
            }
            CatchUpStep::Look(at) => pass.off_the_branch(headers.at(at), blocks.at(at)),
            CatchUpStep::Cut(at) => {
                headers.keep_below(at);
                pass.cut(None);
            }
            CatchUpStep::Copy(at) => match blocks.at(at) {
                Some(id) => {
                    headers.append(at, id);
                    pass.catch_up_from(Copied::Written);
                }
                None => pass.catch_up_from(Copied::Missing),
            },
            CatchUpStep::Done => return pass.done,
        }
    }
}

#[test]
fn headers_that_end_where_the_blocks_begin_are_carried_on() {
    let blocks = branch(6, 1);
    let log = Log::of(&blocks, 3, 6);
    let mut headers = Log::of(&blocks, 0, 3);
    let caught = catch_up_headers(&mut headers, &log, 1_024);
    assert_eq!(caught.dropped, 0);
    assert!(caught.unread.is_none());
    assert_eq!((headers.first, headers.reaches()), (0, 6));
    assert_eq!(headers.held, blocks);
}

#[test]
fn headers_short_of_the_blocks_are_dropped_and_begun_again() {
    let blocks = branch(6, 1);
    let log = Log::of(&blocks, 4, 6);
    let mut headers = Log::of(&blocks, 0, 3);
    let caught = catch_up_headers(&mut headers, &log, 1_024);
    assert_eq!((caught.dropped, caught.replaced), (3, 0));
    assert_eq!((headers.first, headers.reaches()), (4, 6));
}

#[test]
fn headers_off_another_branch_are_replaced_from_the_blocks() {
    let blocks = branch(8, 1);
    let log = Log::of(&blocks, 0, 8);
    let mut headers = Log { first: 0, held: replaced(&blocks, 5) };
    let caught = catch_up_headers(&mut headers, &log, 1_024);
    assert_eq!((caught.dropped, caught.replaced), (0, 3));
    assert_eq!(headers.held, blocks);
}

#[test]
fn a_block_that_cannot_be_read_ends_the_catching_up_and_says_so() {
    let headers = Extent { first: 0, reaches: 2 };
    let blocks = Extent { first: 0, reaches: 5 };
    let mut pass = CatchingUp::catch_up_headers(headers, blocks, 1_024);
    assert_eq!(pass.step, CatchUpStep::Look(1));
    pass.off_the_branch(Some(branch(2, 1)[1]), Some(branch(2, 1)[1]));
    assert_eq!(pass.step, CatchUpStep::Copy(2));
    pass.catch_up_from(Copied::Unread("input/output error".to_owned()));
    assert_eq!(pass.step, CatchUpStep::Done);
    let unread = pass.done.unread.unwrap();
    assert_eq!((unread.what, unread.height), (Reading::Blocks, 2));
    assert_eq!(unread.because, "input/output error");
}

#[test]
fn headers_off_a_branch_replaced_at_the_same_length_are_written_again() {
    let blocks = branch(5, 1);
    let mut headers = Log { first: 0, held: replaced(&blocks, 3) };
    let refusing = write_headers(&mut headers, &blocks, 0);
    assert!(refusing.is_none());
    assert_eq!(headers.reaches(), 5);
    for (height, id) in blocks.iter().enumerate() {
        assert_eq!(headers.at(height as u64), Some(*id));
    }
}

#[test]
fn headers_below_what_the_chain_can_compare_against_stand() {
    let blocks = branch(11, 1);
    let mut headers = Log::of(&blocks, 0, 4);
    let refusing = write_headers(&mut headers, &blocks, 6);
    assert_eq!((headers.first, headers.reaches()), (0, 4));
    assert!(refusing.is_some());
}

#[test]
fn a_branch_replaced_at_the_same_length_is_replaced_in_the_forest() {
    let first = branch(5, 1);
    let mut headers = Log { first: 0, held: first.clone() };
    let mut forest = Vec::new();
    assert!(grow_forest(&mut forest, &headers).is_none());
    assert_eq!(forest.len(), 5);

    let second = replaced(&first, 3);
    headers.keep_below(3);
    for (height, id) in second.iter().enumerate().skip(3) {
        headers.append(height as u64, *id);
    }
    assert_eq!(headers.reaches(), 5);

    assert!(grow_forest(&mut forest, &headers).is_none());
    assert_eq!(forest.len(), 5);
    assert_eq!(forest, second);
}

#[test]
fn a_log_that_never_took_the_first_block_starts_at_the_first_block_held() {
    let blocks = branch(6, 1);
    let mut log = Log::empty();
    let refusing = write_blocks(&mut log, Accepted::Extended, &blocks);
    assert!(refusing.is_none());
    assert_eq!((log.first, log.held.len()), (0, 6));
}

#[test]
fn a_log_that_fell_behind_is_caught_up_rather_than_written_past() {
    let blocks = branch(6, 1);
    let mut log = Log::of(&blocks, 0, 2);
    let mut headers = Log::empty();
    let mut forest = Vec::new();

    let of_headers = write_headers(&mut headers, &blocks, 0);
    let of_forest = grow_forest(&mut forest, &headers);
    let of_blocks = write_blocks(&mut log, Accepted::Extended, &blocks);
    let wrote = write_branch(of_headers, of_forest, of_blocks, log.reaches());
    assert!(wrote.refusing.is_none());
    assert_eq!(wrote.reaches, 6);

    assert_eq!(log.held.len(), 6);
    assert_eq!(headers.reaches(), 6);
    assert_eq!(forest.len(), 6);
    for (height, want) in blocks.iter().enumerate() {
        assert_eq!(log.at(height as u64), Some(*want));
        assert_eq!(headers.at(height as u64), Some(*want));
    }
}

#[test]
fn a_reorganisation_cuts_the_log_where_the_branches_part() {
    let old = branch(6, 1);
    let mut new = replaced(&old, 4);
    new.push(Hash32 { high: 99, low: 77 });
    let mut log = Log { first: 0, held: old };
    let refusing = write_blocks(&mut log, Accepted::Reorganised { added: 3 }, &new);
    assert!(refusing.is_none());
    assert_eq!(log.held, new);
}

#[test]
fn a_block_off_the_branch_writes_nothing() {
    let blocks = branch(6, 1);
    let mut log = Log::of(&blocks, 0, 3);
    assert!(write_blocks(&mut log, Accepted::SideBranch, &blocks).is_none());
    assert!(write_blocks(&mut log, Accepted::Duplicate, &blocks).is_none());
    assert_eq!(log.held.len(), 3);
}

#[test]
fn the_refusal_a_pass_says_is_the_one_that_costs_most() {
    let refusing = |what, words: &str| Some(Refusing::at(what, words));
    let all = write_branch(
        refusing(Writing::Headers, "a"),
        refusing(Writing::Headers, "b"),
        refusing(Writing::Blocks, "c"),
        4,
    );
    assert_eq!(all.refusing.unwrap().because, "c");
    let two = write_branch(refusing(Writing::Headers, "a"), refusing(Writing::Headers, "b"), None, 4);
    assert_eq!(two.refusing.unwrap().because, "a");
    let one = write_branch(None, refusing(Writing::Headers, "b"), None, 4);
    assert_eq!(one.refusing.unwrap().because, "b");
}

#[test]
fn a_disk_that_refuses_a_block_ends_the_pass_there() {
    let mut pass =
        BlockWriting::write_blocks(Extent { first: 0, reaches: 2 }, Accepted::Extended, Some(4));
    assert_eq!(pass.step, BlockStep::Append(2));
    pass.appended(Appended::Refused("no space left on device".to_owned()));
    assert_eq!(pass.step, BlockStep::Done);
    let refusing = pass.refusing.unwrap();
    assert_eq!((refusing.what, refusing.because.as_str()), (Writing::Blocks, "no space left on device"));
}
