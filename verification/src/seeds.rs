//! Where a node that has never spoken to anyone starts.
//!
//! A node with an empty address book has to be told about one machine before
//! it can be told about the rest. So a starting point is written into the
//! program, in the open, exactly as the first block is.
//!
//! A seed hands over addresses of other nodes, and blocks. Both are checked,
//! so a seed that lies is a seed that gets dropped. And it is needed once: a
//! node that has met anybody at all keeps its own book of addresses.
//!
//! Names, and no addresses behind them: redundancy belongs in the zone file,
//! where a name can carry several machines and gain another without anybody
//! downloading anything again. Looking a name up is the caller's to do; what
//! the name server said is handed in.

use vstd::prelude::*;
use vstd::string::*;

use crate::address::Address;
use crate::network::NetworkName;

verus! {

/// The default port a node listens on, and so the one a seed is named with.
pub const DEFAULT_PORT: u16 = 9944;

/// The most addresses one name may put in front of a node.
///
/// What a name answers is the zone's, or whoever answers in its place, and
/// every address of it becomes a seed. Sixty four keeps what a name is for and
/// leaves a single answer a small part of the book.
pub const MOST_PER_NAME: usize = 64;

/// What one lookup came to: the addresses behind a name, or why there are
/// none.
pub type Answer = Result<Vec<Address>, String>;

/// The starting points written into the program for a network, as text.
pub open spec fn written_names(network: NetworkName) -> Seq<Seq<char>> {
    match network {
        NetworkName::Testnet6 => seq!["seed.cairnchain.org:9944"@],
        _ => Seq::empty(),
    }
}

/// The starting points written into the program for `network`.
///
/// The throwaway network has none on purpose: it is one machine talking to
/// itself.
pub fn written_in(network: NetworkName) -> (names: Vec<&'static str>)
    ensures
        names@.len() == written_names(network).len(),
        forall|i: int| 0 <= i < names@.len() ==> (#[trigger] names@[i])@ == written_names(network)[i],
{
    let mut names: Vec<&'static str> = Vec::new();
    match network {
        NetworkName::Testnet6 => {
            names.push("seed.cairnchain.org:9944");
        },
        _ => {},
    }
    names
}

/// What an operator reads when a name is not an address at all.
pub open spec fn not_an_address(text: Seq<char>, error: Seq<char>) -> Seq<char> {
    "`"@ + text + "` is not an address: "@ + error
}

/// What an operator reads when a name stands for nothing.
pub open spec fn resolved_to_nothing(text: Seq<char>) -> Seq<char> {
    "`"@ + text + "` resolved to nothing"@
}

fn say_resolved_to_nothing(text: &str) -> (said: String)
    ensures
        said@ == resolved_to_nothing(text@),
{
    let mut said = String::from_str("`");
    said.append(text);
    said.append("` resolved to nothing");
    said
}

/// Every address `text` names, up to [`MOST_PER_NAME`], given what the name
/// server answered.
///
/// All of them rather than the first, because one name answers with every
/// machine behind it and a node tries them all. Not without bound, because
/// what a name answers with is not the operator's to vouch for.
pub fn resolve(text: &str, answer: Answer) -> (outcome: Answer)
    ensures
        match (answer, outcome) {
            (Ok(found), Ok(taken)) => found@.len() > 0 && taken@ == worth(found@),
            (Ok(found), Err(said)) => found@.len() == 0 && said@ == resolved_to_nothing(text@),
            (Err(error), Err(said)) => said@ == not_an_address(text@, error@),
            (Err(_), Ok(_)) => false,
        },
{
    match answer {
        Err(error) => {
            let mut said = String::from_str("`");
            said.append(text);
            said.append("` is not an address: ");
            said.append(error.as_str());
            Err(said)
        },
        Ok(found) => {
            if found.len() == 0 {
                return Err(say_resolved_to_nothing(text));
            }
            Ok(what_a_name_is_worth(found))
        },
    }
}

/// The part of a name's answer a node takes: at most [`MOST_PER_NAME`], in the
/// order it came.
pub open spec fn worth(found: Seq<Address>) -> Seq<Address> {
    if found.len() <= MOST_PER_NAME {
        found
    } else {
        found.take(MOST_PER_NAME as int)
    }
}

/// The part of a name's answer a node takes.
pub fn what_a_name_is_worth(found: Vec<Address>) -> (taken: Vec<Address>)
    ensures
        taken@ == worth(found@),
        taken@.len() <= MOST_PER_NAME,
{
    let mut taken = found;
    taken.truncate(MOST_PER_NAME);
    assert(taken@ =~= worth(found@));
    taken
}

/// One address, for a setting that can only name one: what to listen on.
pub fn resolve_one(text: &str, answer: Answer) -> (outcome: Result<Address, String>)
    ensures
        match (answer, outcome) {
            (Ok(found), Ok(address)) => found@.len() > 0 && address == found@[0],
            (Ok(found), Err(said)) => found@.len() == 0 && said@ == resolved_to_nothing(text@),
            (Err(error), Err(said)) => said@ == not_an_address(text@, error@),
            (Err(_), Ok(_)) => false,
        },
{
    match resolve(text, answer) {
        Err(said) => Err(said),
        Ok(taken) => {
            if taken.len() == 0 {
                return Err(say_resolved_to_nothing(text));
            }
            Ok(taken[0])
        },
    }
}

/// The texts of a list of names.
pub open spec fn texts(names: Seq<String>) -> Seq<Seq<char>> {
    names.map_values(|name: String| name@)
}

/// The names to start from, given what the operator asked for.
///
/// Kept apart from resolving them because a node holds on to these: a name
/// that would not resolve at the moment it started is asked again later.
pub fn names_for(asked: &Vec<String>, network: NetworkName) -> (names: Vec<String>)
    ensures
        texts(names@) == if asked@.len() == 0 {
            written_names(network)
        } else {
            texts(asked@)
        },
{
    let mut names: Vec<String> = Vec::new();
    if asked.len() == 0 {
        let written = written_in(network);
        let mut at: usize = 0;
        while at < written.len()
            invariant
                at <= written@.len(),
                written@.len() == written_names(network).len(),
                forall|i: int| 0 <= i < written@.len() ==> (#[trigger] written@[i])@ == written_names(network)[i],
                texts(names@) == written_names(network).take(at as int),
            decreases written.len() - at,
        {
            let ghost before = names@;
            names.push(written[at].to_owned());
            at = at + 1;
            assert(texts(names@) =~= texts(before).push(written_names(network)[at - 1]));
            assert(texts(names@) =~= written_names(network).take(at as int));
        }
        assert(texts(names@) =~= written_names(network));
    } else {
        let mut at: usize = 0;
        while at < asked.len()
            invariant
                at <= asked@.len(),
                texts(names@) == texts(asked@).take(at as int),
            decreases asked.len() - at,
        {
            let ghost before = names@;
            names.push(asked[at].clone());
            at = at + 1;
            assert(texts(names@) =~= texts(before).push(asked@[at - 1]@));
            assert(texts(names@) =~= texts(asked@).take(at as int));
        }
        assert(texts(names@) =~= texts(asked@));
    }
    names
}

/// Each address of a run, once, where it first stands.
pub open spec fn first_of_each(run: Seq<Address>) -> Seq<Address>
    decreases run.len(),
{
    if run.len() == 0 {
        Seq::empty()
    } else {
        let before = first_of_each(run.drop_last());
        if before.contains(run.last()) {
            before
        } else {
            before.push(run.last())
        }
    }
}

/// Everything a run of lookups answered with, one after another, passing over
/// those that failed.
pub open spec fn answered(answers: Seq<Answer>) -> Seq<Address>
    decreases answers.len(),
{
    if answers.len() == 0 {
        Seq::empty()
    } else {
        match answers.last() {
            Ok(addresses) => answered(answers.drop_last()) + addresses@,
            Err(_) => answered(answers.drop_last()),
        }
    }
}

/// Whether `answers` are what looking up `names` in order came to.
pub open spec fn answers_for<F: Fn(&String) -> Answer>(
    resolve: F,
    names: Seq<String>,
    answers: Seq<Answer>,
) -> bool {
    &&& answers.len() <= names.len()
    &&& forall|i: int|
        0 <= i < answers.len() ==> call_ensures(resolve, (&names[i],), #[trigger] answers[i])
}

/// Whether looking up `names` has got as far as `answers` with another name to
/// look up: one that failed is the end of it where `strict`.
pub open spec fn goes_on<F: Fn(&String) -> Answer>(
    resolve: F,
    names: Seq<String>,
    strict: bool,
    answers: Seq<Answer>,
) -> bool {
    &&& answers_for(resolve, names, answers)
    &&& answers.len() < names.len()
    &&& strict ==> forall|i: int| 0 <= i < answers.len() ==> (#[trigger] answers[i]) is Ok
}

/// Every address `names` resolve to by `resolve`, in order and without
/// repeats, stopping at the first failure only when `strict`.
pub fn gather<F: Fn(&String) -> Answer>(names: &Vec<String>, strict: bool, resolve: F) -> (outcome:
    Answer)
    requires
        forall|answers: Seq<Answer>| #[trigger]
            goes_on(resolve, names@, strict, answers) ==> call_requires(
                resolve,
                (&names@[answers.len() as int],),
            ),
    ensures
        match outcome {
            Ok(found) => exists|answers: Seq<Answer>| #[trigger]
                answers_for(resolve, names@, answers) && answers.len() == names@.len() && (strict
                    ==> forall|i: int| 0 <= i < answers.len() ==> (#[trigger] answers[i]) is Ok)
                    && found@ == first_of_each(answered(answers)),
            Err(said) => strict && exists|answers: Seq<Answer>| #[trigger]
                answers_for(resolve, names@, answers) && answers.len() > 0 && answers.last() == Err::<
                    Vec<Address>,
                    String,
                >(said) && forall|i: int|
                    0 <= i < answers.len() - 1 ==> (#[trigger] answers[i]) is Ok,
        },
{
    let mut found: Vec<Address> = Vec::new();
    let ghost mut answers: Seq<Answer> = Seq::empty();
    let mut at: usize = 0;
    while at < names.len()
        invariant
            at <= names@.len(),
            forall|answers: Seq<Answer>| #[trigger]
                goes_on(resolve, names@, strict, answers) ==> call_requires(
                    resolve,
                    (&names@[answers.len() as int],),
                ),
            answers_for(resolve, names@, answers),
            answers.len() == at,
            strict ==> forall|i: int| 0 <= i < answers.len() ==> (#[trigger] answers[i]) is Ok,
            found@ == first_of_each(answered(answers)),
        decreases names.len() - at,
    {
        assert(goes_on(resolve, names@, strict, answers));
        let answer = resolve(&names[at]);
        let ghost before = answers;
        proof {
            answers = answers.push(answer);
            assert(answers.drop_last() =~= before);
        }
        at = at + 1;
        match answer {
            Ok(addresses) => {
                let ghost run = answered(before);
                let mut next: usize = 0;
                assert(run + addresses@.take(0) =~= run);
                while next < addresses.len()
                    invariant
                        next <= addresses@.len(),
                        found@ == first_of_each(run + addresses@.take(next as int)),
                    decreases addresses.len() - next,
                {
                    let address = addresses[next];
                    let ghost longer = run + addresses@.take(next + 1);
                    assert(longer.drop_last() =~= run + addresses@.take(next as int));
                    assert(longer.last() == address);
                    if !holds(&found, address) {
                        found.push(address);
                    }
                    next = next + 1;
                }
                assert(run + addresses@.take(next as int) =~= answered(answers));
            },
            Err(said) => {
                if strict {
                    proof {
                        assert forall|i: int| 0 <= i < answers.len() - 1 implies (#[trigger] answers[i]) is Ok by {
                            assert(before[i] is Ok);
                        }
                        assert(answers_for(resolve, names@, answers));
                    }
                    return Err(said);
                }
            },
        }
    }
    Ok(found)
}

fn holds(found: &Vec<Address>, address: Address) -> (answer: bool)
    ensures
        answer == found@.contains(address),
{
    let mut at: usize = 0;
    while at < found.len()
        invariant
            at <= found@.len(),
            forall|i: int| 0 <= i < at ==> found@[i] != address,
        decreases found.len() - at,
    {
        if found[at] == address {
            return true;
        }
        at = at + 1;
    }
    false
}

/// Every address to start from, given what the operator asked for.
///
/// What they asked for wins outright when they asked for anything, and there a
/// name that will not resolve stops the node. With nothing asked for, the list
/// written in is used, and there a name that will not resolve is passed over.
pub fn start_from<F: Fn(&String) -> Answer>(
    asked: &Vec<String>,
    network: NetworkName,
    resolve: F,
) -> (outcome: Answer)
    requires
        forall|names: Seq<String>, answers: Seq<Answer>|
            #![trigger answers_for(resolve, names, answers)]
            goes_on(resolve, names, asked@.len() > 0, answers) && texts(names) == (if asked@.len()
                == 0 {
                written_names(network)
            } else {
                texts(asked@)
            }) ==> call_requires(resolve, (&names[answers.len() as int],)),
    ensures
        exists|names: Seq<String>, answers: Seq<Answer>| #[trigger]
            answers_for(resolve, names, answers) && texts(names) == (if asked@.len() == 0 {
                written_names(network)
            } else {
                texts(asked@)
            }) && match outcome {
                Ok(found) => answers.len() == names.len() && (asked@.len() > 0 ==> forall|i: int|
                    0 <= i < answers.len() ==> (#[trigger] answers[i]) is Ok) && found@
                    == first_of_each(answered(answers)),
                Err(said) => asked@.len() > 0 && answers.len() > 0 && answers.last() == Err::<
                    Vec<Address>,
                    String,
                >(said) && forall|i: int|
                    0 <= i < answers.len() - 1 ==> (#[trigger] answers[i]) is Ok,
            },
{
    let names = names_for(asked, network);
    gather(&names, asked.len() > 0, resolve)
}

/// Whatever was answered, and however often, no address is started from twice
/// and none that was answered is left out.
pub proof fn gathered_once_each(run: Seq<Address>)
    ensures
        first_of_each(run).no_duplicates(),
        forall|address: Address| #[trigger] first_of_each(run).contains(address) <==> run.contains(address),
    decreases run.len(),
{
    if run.len() > 0 {
        let rest = run.drop_last();
        let before = first_of_each(rest);
        gathered_once_each(rest);
        let after = first_of_each(run);
        assert forall|address: Address| #[trigger] after.contains(address) <==> run.contains(address) by {
            assert(run =~= rest.push(run.last()));
            if run.contains(address) && address != run.last() {
                let i = choose|i: int| 0 <= i < run.len() && run[i] == address;
                assert(rest[i] == address);
                assert(before.contains(address));
            }
            if before.contains(address) {
                let i = choose|i: int| 0 <= i < before.len() && before[i] == address;
                assert(after[i] == address);
                let j = choose|j: int| 0 <= j < rest.len() && rest[j] == address;
                assert(run[j] == address);
            }
            if address == run.last() {
                assert(run[run.len() - 1] == address);
                if !before.contains(address) {
                    assert(after[after.len() - 1] == address);
                }
            }
            if after.contains(address) && !before.contains(address) {
                let i = choose|i: int| 0 <= i < after.len() && after[i] == address;
                assert(i == before.len());
            }
        }
        if !before.contains(run.last()) {
            assert forall|i: int, j: int| 0 <= i < j < after.len() implies after[i] != after[j] by {
                if j == before.len() {
                    assert(before.contains(before[i]));
                }
            }
        }
    }
}

/// A name is worth the first sixty-four addresses it resolves to.
pub proof fn a_name_is_worth_its_first_addresses(found: Vec<Address>, taken: Vec<Address>)
    requires
        call_ensures(what_a_name_is_worth, (found,), taken),
    ensures
        found@.len() <= 64 ==> taken@ == found@,
        found@.len() > 64 ==> taken@.len() == 64,
        forall|i: int| 0 <= i < taken@.len() ==> #[trigger] taken@[i] == found@[i],
{
}

/// A name that resolves gives addresses, a name that resolves to nothing is an
/// error, and so is one that does not resolve. Where one address is wanted it
/// is the first.
pub proof fn a_name_resolves_to_addresses_or_an_error(
    text: &str,
    answer: Answer,
    outcome: Answer,
    one: Result<Address, String>,
)
    requires
        call_ensures(resolve, (text, answer), outcome),
        call_ensures(resolve_one, (text, answer), one),
    ensures
        outcome is Ok <==> (answer matches Ok(found) && found@.len() > 0),
        one is Ok <==> outcome is Ok,
        outcome matches Ok(taken) ==> (one matches Ok(address) && taken@.len() > 0 && taken@[0]
            == address && taken@.len() <= 64),
        answer matches Ok(found) ==> (one matches Ok(address) ==> address == found@[0]),
{
}

/// Whoever names seeds starts from those names, in the order given, and
/// everybody else from the ones written in, which only the sixth testnet has.
pub proof fn names_asked_for_stand_over_those_written_in(
    asked: &Vec<String>,
    network: NetworkName,
    names: Vec<String>,
    written: Vec<&'static str>,
)
    requires
        call_ensures(names_for, (asked, network), names),
        call_ensures(written_in, (network,), written),
    ensures
        asked@.len() > 0 ==> names@.len() == asked@.len() && forall|i: int|
            0 <= i < names@.len() ==> (#[trigger] names@[i])@ == asked@[i]@,
        asked@.len() == 0 ==> names@.len() == written@.len() && forall|i: int|
            0 <= i < names@.len() ==> (#[trigger] names@[i])@ == written@[i]@,
        written@.len() == 1 <==> network is Testnet6,
        !(network is Testnet6) ==> written@.len() == 0,
        network is Testnet6 ==> written@[0]@ == "seed.cairnchain.org:9944"@,
{
    let said = texts(names@);
    assert(said.len() == names@.len());
    assert forall|i: int| 0 <= i < names@.len() implies (#[trigger] names@[i])@ == said[i] by {}
    if asked@.len() > 0 {
        assert(texts(asked@).len() == asked@.len());
        assert forall|i: int| 0 <= i < names@.len() implies (#[trigger] names@[i])@ == asked@[i]@ by {
            assert(said[i] == texts(asked@)[i]);
        }
    } else {
        assert forall|i: int| 0 <= i < names@.len() implies (#[trigger] names@[i])@ == written@[i]@ by {
            assert(written@[i]@ == written_names(network)[i]);
        }
    }
}

proof fn each_answer_is_gathered(answers: Seq<Answer>)
    ensures
        forall|address: Address| #[trigger]
            answered(answers).contains(address) <==> exists|i: int|
                0 <= i < answers.len() && ((#[trigger] answers[i]) matches Ok(found)
                    && found@.contains(address)),
    decreases answers.len(),
{
    if answers.len() > 0 {
        let fewer = answers.drop_last();
        each_answer_is_gathered(fewer);
        let before = answered(fewer);
        let after = answered(answers);
        assert forall|address: Address| #[trigger] after.contains(address) <==> exists|i: int|
            0 <= i < answers.len() && ((#[trigger] answers[i]) matches Ok(found) && found@.contains(
                address,
            )) by {
            if after.contains(address) {
                let k = choose|k: int| 0 <= k < after.len() && after[k] == address;
                if k < before.len() {
                    assert(before[k] == address);
                    assert(before.contains(address));
                    let i = choose|i: int|
                        0 <= i < fewer.len() && ((#[trigger] fewer[i]) matches Ok(found)
                            && found@.contains(address));
                    assert(answers[i] == fewer[i]);
                } else {
                    let i = answers.len() - 1;
                    match answers[i] {
                        Ok(found) => {
                            assert(found@[k - before.len()] == address);
                        },
                        Err(_) => {},
                    }
                }
            }
            if exists|i: int|
                0 <= i < answers.len() && ((#[trigger] answers[i]) matches Ok(found)
                    && found@.contains(address)) {
                let i = choose|i: int|
                    0 <= i < answers.len() && ((#[trigger] answers[i]) matches Ok(found)
                        && found@.contains(address));
                if i < fewer.len() {
                    assert(fewer[i] == answers[i]);
                    assert(before.contains(address));
                    let k = choose|k: int| 0 <= k < before.len() && before[k] == address;
                    assert(after[k] == address);
                } else {
                    match answers[i] {
                        Ok(found) => {
                            let k = choose|k: int| 0 <= k < found@.len() && found@[k] == address;
                            assert(after[before.len() + k] == address);
                        },
                        Err(_) => {},
                    }
                }
            }
        }
    }
}

/// Gathering names brings every address any of them resolves to, each once. A
/// name that does not resolve is passed over, unless the names were asked for:
/// then it is an error, and the first such is the one said.
pub proof fn every_address_of_every_name_is_gathered_once<F: Fn(&String) -> Answer>(
    names: &Vec<String>,
    strict: bool,
    resolve: F,
    outcome: Answer,
    known: spec_fn(String) -> Answer,
)
    requires
        call_ensures(gather::<F>, (names, strict, resolve), outcome),
        forall|name: String, answer: Answer| #[trigger]
            call_ensures(resolve, (&name,), answer) ==> answer == known(name),
    ensures
        outcome is Err <==> strict && exists|i: int|
            0 <= i < names@.len() && known(#[trigger] names@[i]) is Err,
        outcome matches Ok(found) ==> {
            &&& found@.no_duplicates()
            &&& forall|address: Address| #[trigger]
                found@.contains(address) <==> exists|i: int|
                    0 <= i < names@.len() && (known(#[trigger] names@[i]) matches Ok(addresses)
                        && addresses@.contains(address))
        },
        outcome matches Err(said) ==> exists|i: int|
            0 <= i < names@.len() && known(#[trigger] names@[i]) == Err::<Vec<Address>, String>(said)
                && forall|j: int| 0 <= j < i ==> known(#[trigger] names@[j]) is Ok,
{
    match outcome {
        Ok(found) => {
            let answers = choose|answers: Seq<Answer>| #[trigger]
                answers_for(resolve, names@, answers) && answers.len() == names@.len() && (strict
                    ==> forall|i: int| 0 <= i < answers.len() ==> (#[trigger] answers[i]) is Ok)
                    && found@ == first_of_each(answered(answers));
            assert forall|i: int| 0 <= i < names@.len() implies known(#[trigger] names@[i])
                == answers[i] by {
                assert(call_ensures(resolve, (&names@[i],), answers[i]));
            }
            gathered_once_each(answered(answers));
            each_answer_is_gathered(answers);
            assert forall|address: Address| #[trigger] found@.contains(address) <==> exists|i: int|
                0 <= i < names@.len() && (known(#[trigger] names@[i]) matches Ok(addresses)
                    && addresses@.contains(address)) by {
                if found@.contains(address) {
                    assert(answered(answers).contains(address));
                    let i = choose|i: int|
                        0 <= i < answers.len() && ((#[trigger] answers[i]) matches Ok(one)
                            && one@.contains(address));
                    assert(known(names@[i]) == answers[i]);
                }
                if exists|i: int|
                    0 <= i < names@.len() && (known(#[trigger] names@[i]) matches Ok(addresses)
                        && addresses@.contains(address)) {
                    let i = choose|i: int|
                        0 <= i < names@.len() && (known(#[trigger] names@[i]) matches Ok(addresses)
                            && addresses@.contains(address));
                    assert(answers[i] == known(names@[i]));
                    assert(answered(answers).contains(address));
                }
            }
            if strict {
                assert forall|i: int| 0 <= i < names@.len() implies known(#[trigger] names@[i]) is Ok by {
                    assert(answers[i] is Ok);
                }
            }
        },
        Err(said) => {
            let answers = choose|answers: Seq<Answer>| #[trigger]
                answers_for(resolve, names@, answers) && answers.len() > 0 && answers.last() == Err::<
                    Vec<Address>,
                    String,
                >(said) && forall|i: int|
                    0 <= i < answers.len() - 1 ==> (#[trigger] answers[i]) is Ok;
            let last = answers.len() - 1;
            assert forall|i: int| 0 <= i < answers.len() implies known(#[trigger] names@[i])
                == answers[i] by {
                assert(call_ensures(resolve, (&names@[i],), answers[i]));
            }
            assert(known(names@[last]) == Err::<Vec<Address>, String>(said));
            assert forall|j: int| 0 <= j < last implies known(#[trigger] names@[j]) is Ok by {
                assert(answers[j] is Ok);
            }
        },
    }
}

/// A node that was given names fails with them, and one that was not starts
/// with whatever the written ones give, however little.
pub proof fn only_names_asked_for_can_fail<F: Fn(&String) -> Answer>(
    asked: &Vec<String>,
    network: NetworkName,
    resolve: F,
    outcome: Answer,
)
    requires
        call_ensures(start_from::<F>, (asked, network, resolve), outcome),
    ensures
        asked@.len() == 0 ==> outcome is Ok,
        asked@.len() == 0 && !(network is Testnet6) ==> (outcome matches Ok(found) && found@.len()
            == 0),
        outcome matches Ok(found) ==> found@.no_duplicates(),
{
    match outcome {
        Ok(found) => {
            let (names, answers) = choose|names: Seq<String>, answers: Seq<Answer>| #[trigger]
                answers_for(resolve, names, answers) && texts(names) == (if asked@.len() == 0 {
                    written_names(network)
                } else {
                    texts(asked@)
                }) && answers.len() == names.len() && (asked@.len() > 0 ==> forall|i: int|
                    0 <= i < answers.len() ==> (#[trigger] answers[i]) is Ok) && found@
                    == first_of_each(answered(answers));
            gathered_once_each(answered(answers));
            if asked@.len() == 0 && !(network is Testnet6) {
                assert(texts(names).len() == names.len());
                assert(answers.len() == 0);
                assert(answered(answers).len() == 0);
            }
        },
        Err(_) => {},
    }
}

} // verus!
