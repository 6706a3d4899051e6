//! What a run of calls comes to, made one after another.
//!
//! Something that is written to, counted or sent through is handed to each
//! call in turn, and each hands it on to the next. There is one of it and it
//! cannot be copied, so what comes back at the end is what those calls and no
//! others have made of it.

use vstd::prelude::*;

verus! {

/// What a run of calls that began with `hand` has handed on.
pub open spec fn handed_on<S, A>(hand: S, made: Seq<(S, A)>) -> S {
    if made.len() == 0 {
        hand
    } else {
        made.last().0
    }
}

} // verus!
