//! Answering a peer off the chain and the disk, a few reads at a time.

use cairn_net::address::Host;
use cairn_net::filling::MAX_HEADERS;
use cairn_net::message::{Joining, Message};
use cairn_net::network::{Hash32, Located};
use cairn_net::outbound::Outbound;
use cairn_net::serving::{
    answer_deferred, block_follows, blocks_at, blocks_under_one_hold, chain_after, first_deferred,
    gathered_a_few_at_a_time, header_follows, headers_from, headers_under_one_hold, serve_block,
    Answered, Deferred, Link, BLOCKS_PER_HOLD, READS_PER_HOLD,
};
use cairn_net::sync::{PeerState, Reaction, ALLOWANCE, BYTES_PER_UNIT};

/// The identifier of the header at a height on one branch.
fn id(branch: u128, height: u64) -> Hash32 {
    Hash32 { high: branch, low: u128::from(height) + 1 }
}

fn link(branch: u128, height: u64) -> Link {
    let previous = if height == 0 { Hash32::zero() } else { id(branch, height - 1) };
    Link { height, id: id(branch, height), previous }
}

fn linked(count: u64, branch: u128) -> Vec<Link> {
    (0..count).map(|height| link(branch, height)).collect()
}

fn follows(before: &Link, after: &Link) -> bool {
    header_follows(before.id, after.previous)
}

#[test]
fn one_take_of_the_disk_answers_for_a_bounded_run_of_headers() {
    let run = MAX_HEADERS;
    let log = linked(run + 8, 1);
    let read = |height: u64| Ok(log.get(height as usize).copied());

    let (under_one, more, refused) = headers_under_one_hold(0, run, Some(run + 8), read);
    assert_eq!(under_one.len() as u64, READS_PER_HOLD);
    assert!(more);
    assert!(refused.is_none());

    let (holds, whole) = headers_from(
        0,
        run,
        0_u64,
        |holds, from, count| {
            let (headers, more, _) = headers_under_one_hold(from, count, Some(run + 8), read);
            (holds + 1, (headers, more))
        },
        follows,
    );
    assert_eq!(holds, MAX_HEADERS / READS_PER_HOLD);
    assert_eq!(whole.len() as u64, MAX_HEADERS);
    for (at, header) in whole.iter().enumerate() {
        assert_eq!(header.height, at as u64);
    }
}

#[test]
fn one_take_of_the_disk_answers_for_a_bounded_run_of_blocks() {
    let blocks = linked(BLOCKS_PER_HOLD as u64 * 3, 1);
    let heights: Vec<u64> = (0..blocks.len() as u64).collect();
    let memory = |height: u64| blocks.get(height as usize).copied();
    let disk = |_: u64| -> Result<Option<Link>, String> { Ok(None) };

    let (under_one, _) = blocks_under_one_hold(&heights, memory, disk);
    assert_eq!(under_one.len(), BLOCKS_PER_HOLD);

    let (asked, whole) = blocks_at(
        &heights,
        Vec::new(),
        |mut asked: Vec<usize>, part| {
            asked.push(part.len());
            (asked, blocks_under_one_hold(part, memory, disk).0)
        },
        |before, after| block_follows(*before, *after),
    );
    assert_eq!(asked, vec![BLOCKS_PER_HOLD; 3]);
    assert_eq!(whole.len(), blocks.len());
    for (at, block) in whole.iter().enumerate() {
        assert_eq!(block.height, at as u64);
    }
}

#[test]
fn a_run_assembled_across_a_log_that_moved_is_refused_rather_than_torn() {
    let one = linked(4, 1);
    let other = linked(4, 2);

    let (takes, torn) = gathered_a_few_at_a_time(
        4,
        2,
        0_usize,
        |takes, at, _| {
            let from = if at == 0 { &one } else { &other };
            (takes + 1, (from.get(at..at + 2).unwrap().to_vec(), true))
        },
        follows,
    );
    assert_eq!(takes, 2);
    assert!(torn.is_empty());

    let (takes, whole) = gathered_a_few_at_a_time(
        4,
        2,
        0_usize,
        |takes, at, _| (takes + 1, (one.get(at..at + 2).unwrap().to_vec(), true)),
        follows,
    );
    assert_eq!(takes, 2);
    assert_eq!(whole.len(), 4);
}

#[test]
fn a_run_is_taken_in_order_and_no_further_than_there_is_a_point() {
    let asked = |total: usize, per_take: usize, until: usize| {
        gathered_a_few_at_a_time(
            total,
            per_take,
            Vec::new(),
            |mut asked: Vec<(usize, usize)>, at, run| {
                asked.push((at, run));
                (asked, ((at..at + run).collect(), at + run < until))
            },
            |before: &usize, after: &usize| *after == *before + 1,
        )
    };
    assert_eq!(asked(5, 2, 99), (vec![(0, 2), (2, 2), (4, 1)], vec![0, 1, 2, 3, 4]));
    assert_eq!(asked(5, 2, 4), (vec![(0, 2), (2, 2)], vec![0, 1, 2, 3]));
    assert_eq!(asked(2, 0, 99), (vec![(0, 1), (1, 1)], vec![0, 1]));
    assert_eq!(asked(0, 2, 99), (Vec::new(), Vec::new()));
    assert_eq!(asked(5, 2, 0), (vec![(0, 2)], vec![0, 1]));
}

#[test]
fn a_position_the_disk_holds_another_block_at_is_not_agreed_with() {
    let elsewhere = Located::new(3, Hash32 { high: u128::MAX / 3, low: u128::MAX / 5 });
    let answer = chain_after(
        &vec![elsewhere],
        Some(5),
        0,
        100,
        |_| false,
        |height| if height < 6 { Some(id(1, height)) } else { None },
    );
    assert_eq!(answer, (0, 6));
}

#[test]
fn a_position_the_disk_holds_is_where_the_chain_carries_on() {
    let off_disk = |height: u64| if height < 6 { Some(id(1, height)) } else { None };
    let locator = vec![Located::new(5, id(2, 5)), Located::new(2, id(1, 2))];
    assert_eq!(chain_after(&locator, Some(9), 0, 100, |_| false, off_disk), (3, 7));
    assert_eq!(chain_after(&locator, Some(9), 0, 4, |_| false, off_disk), (3, 4));
    assert_eq!(chain_after(&locator, Some(9), 0, 100, |at| at.height == 5, off_disk), (6, 4));
    assert_eq!(chain_after(&locator, None, 0, 100, |_| false, off_disk), (3, 0));
}

#[test]
fn a_read_the_disk_refused_is_told_apart_from_a_log_that_ran_out() {
    let log = linked(40, 1);
    let (ran_out, more, refused) =
        headers_under_one_hold(38, 10, Some(40), |at| Ok(log.get(at as usize).copied()));
    assert_eq!((ran_out.len(), more, refused), (2, false, None));

    let (cut, more, refused) = headers_under_one_hold(0, 10, Some(40), |at| {
        if at == 3 {
            Err("input/output error".to_owned())
        } else {
            Ok(log.get(at as usize).copied())
        }
    });
    assert_eq!((cut.len(), more), (3, false));
    assert_eq!(refused, Some((3, "input/output error".to_owned())));

    let (none, more, _) = headers_under_one_hold(0, 10, None, |at| Ok(log.get(at as usize).copied()));
    assert_eq!((none.len(), more), (0, false));
}

#[test]
fn a_block_memory_has_let_go_of_is_read_off_the_disk() {
    let (blocks, refused) = blocks_under_one_hold(
        &vec![1, 2, 3, 4],
        |height| if height >= 3 { Some(height * 10) } else { None },
        |height| if height == 2 { Ok(Some(2_000)) } else { Err("gone".to_owned()) },
    );
    assert_eq!(blocks, vec![2_000, 30, 40]);
    assert_eq!(refused, vec![(1, "gone".to_owned())]);
}

#[test]
fn only_neighbours_have_to_follow_on() {
    assert!(block_follows(link(1, 4), link(1, 5)));
    assert!(!block_follows(link(1, 4), link(2, 5)));
    assert!(block_follows(link(1, 4), link(2, 9)));
}

#[test]
fn what_was_set_aside_is_answered_in_order() {
    let mut reaction = Reaction::idle();
    reaction.fetch = vec![4];
    reaction.join = Some((Joining::Weight, 0));
    reaction.share_addresses = true;
    assert_eq!(first_deferred(&reaction), Deferred::Fetch);
    let next = answer_deferred(&reaction, Deferred::Fetch, Answered::NoRoom);
    assert_eq!(next, Deferred::Join);
    assert_eq!(answer_deferred(&reaction, next, Answered::NoRoom), Deferred::Failed);
    assert_eq!(answer_deferred(&reaction, next, Answered::Nothing), Deferred::Share);
    assert_eq!(answer_deferred(&reaction, Deferred::Share, Answered::Queued), Deferred::Done);
    assert_eq!(answer_deferred(&reaction, Deferred::Failed, Answered::Queued), Deferred::Failed);
    assert_eq!(first_deferred(&Reaction::idle()), Deferred::Done);
}

#[test]
fn a_block_a_peer_cannot_afford_is_not_sent() {
    let mut peer = PeerState::new(Some(Host::V4(203, 0, 113, 1)));
    let mut outbound = Outbound::new();
    assert!(serve_block(&mut peer, &mut outbound, Message::Ping(1), 1_000, 5));
    assert_eq!(outbound.queued(), 1_000);
    let far_too_much = ALLOWANCE as usize * BYTES_PER_UNIT * 2;
    assert!(!serve_block(&mut peer, &mut outbound, Message::Ping(2), far_too_much, 5));
    assert_eq!(outbound.queued(), 1_000);
}
