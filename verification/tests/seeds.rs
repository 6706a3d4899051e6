use cairn_net::address::{Address, Host};
use cairn_net::network::NetworkName;
use cairn_net::seeds::{
    gather, names_for, resolve, resolve_one, start_from, what_a_name_is_worth, written_in, Answer,
    DEFAULT_PORT, MOST_PER_NAME,
};

fn many(count: u32) -> Vec<Address> {
    (0..count)
        .map(|index| {
            let [a, b, c, d] = (0x0B00_0000u32 + index * 257).to_be_bytes();
            Address::new(Host::V4(a, b, c, d), DEFAULT_PORT)
        })
        .collect()
}

fn here() -> Address {
    Address::new(Host::V4(127, 0, 0, 1), 9944)
}

/// Resolves the one literal these tests use, as a machine would.
fn literal(name: &String) -> Answer {
    if name == "127.0.0.1:9944" {
        resolve(name, Ok(vec![here()]))
    } else {
        resolve(name, Err("invalid socket address".to_owned()))
    }
}

#[test]
fn one_names_answer_cannot_fill_the_book() {
    let taken = what_a_name_is_worth(many(4_096 + 1_000));
    assert_eq!(taken.len(), MOST_PER_NAME);
    assert_eq!(taken, many(64), "the first of them, in order");
}

#[test]
fn resolve_takes_a_names_answer_through_the_ceiling() {
    let found = resolve("many.invalid:9944", Ok(many(5_096))).expect("a name that answers");
    assert_eq!(found.len(), MOST_PER_NAME);
    assert_eq!(found, many(64));
    let few = resolve("few.invalid:9944", Ok(many(3))).expect("a name that answers");
    assert_eq!(few, many(3));
}

#[test]
fn every_written_in_seed_is_named_with_the_default_port() {
    let suffix = format!(":{}", DEFAULT_PORT);
    let mut seen = 0usize;
    for network in [NetworkName::Testnet6] {
        for name in written_in(network) {
            assert!(
                name.ends_with(&suffix),
                "`{name}` is not named with the default port {suffix}"
            );
            seen += 1;
        }
    }
    assert!(seen > 0, "or this walked an empty list and held nothing");
}

#[test]
fn a_devnet_node_is_left_to_itself() {
    assert!(written_in(NetworkName::Devnet).is_empty());
    assert!(start_from(&Vec::new(), NetworkName::Devnet, literal)
        .expect("nothing to resolve")
        .is_empty());
}

#[test]
fn every_written_in_seed_names_a_port() {
    for name in written_in(NetworkName::Testnet6) {
        let (host, port) = name.rsplit_once(':').expect("a seed names a port");
        assert!(!host.is_empty(), "`{name}` names no host");
        assert!(
            port.parse::<u16>().is_ok(),
            "`{name}` does not end in a port number"
        );
    }
}

#[test]
fn what_was_asked_for_wins_and_is_not_repeated() {
    let asked = vec!["127.0.0.1:9944".to_owned(), "127.0.0.1:9944".to_owned()];
    let found =
        start_from(&asked, NetworkName::Testnet6, literal).expect("a literal address resolves");
    assert_eq!(found.len(), 1, "the same address twice is one address");
    assert_eq!(found.first(), Some(&here()));
}

#[test]
fn a_seed_that_was_asked_for_and_cannot_be_reached_stops_the_node() {
    let asked = vec!["127.0.0.1".to_owned()];
    assert!(
        start_from(&asked, NetworkName::Testnet6, literal).is_err(),
        "no port"
    );
}

#[test]
fn a_written_in_name_that_will_not_resolve_is_passed_over() {
    let reached = here();
    let names = vec!["down.invalid:9944".to_owned(), "up.invalid:9944".to_owned()];
    let answer = |name: &String| -> Answer {
        if name.starts_with("up.") {
            Ok(vec![reached])
        } else {
            Err(format!("`{name}` resolved to nothing"))
        }
    };
    assert_eq!(gather(&names, false, answer), Ok(vec![reached]));
    assert!(gather(&names, true, answer).is_err());
}

#[test]
fn one_address_is_taken_for_a_setting_that_can_only_be_one() {
    let all = Address::new(Host::V4(0, 0, 0, 0), 9944);
    let listen = resolve_one("0.0.0.0:9944", Ok(vec![all])).expect("a literal address resolves");
    assert_eq!(listen.port, DEFAULT_PORT);
    let first = resolve_one("two.invalid:9944", Ok(vec![here(), all])).expect("an answer");
    assert_eq!(first, here());
}

#[test]
fn a_name_that_answers_with_nothing_says_so() {
    let said = resolve("empty.invalid:9944", Ok(Vec::new())).unwrap_err();
    assert_eq!(said, "`empty.invalid:9944` resolved to nothing");
    assert_eq!(
        resolve_one("empty.invalid:9944", Ok(Vec::new())).unwrap_err(),
        said
    );
}

#[test]
fn what_was_asked_for_stands_in_place_of_what_is_written_in() {
    assert_eq!(
        names_for(&Vec::new(), NetworkName::Testnet6),
        vec!["seed.cairnchain.org:9944".to_owned()]
    );
    assert_eq!(
        names_for(&vec!["a.invalid:1".to_owned()], NetworkName::Testnet6),
        vec!["a.invalid:1".to_owned()]
    );
    assert!(names_for(&Vec::new(), NetworkName::Unnamed).is_empty());
}
