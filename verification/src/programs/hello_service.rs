//! The hello service, in both roles: a server that doubles what it is sent, and
//! a client that sends it the same number over and over.
//!
//! Each side makes as many round trips as the benchmark needs, and a few more:
//! a round trip can get lost.

use crate::bench_laws::{bench_after, law_counts_up_to_the_target, replies, Trap};
use crate::launch::CPtr;
use crate::loader::{ARG0_SERVER, ENDPOINT_CPTR};
use vstd::prelude::*;

verus! {

/// How many round trips each side makes beyond those that are needed.
pub const BENCH_SAFETY_MARGIN: u32 = 8;

/// How many round trips each side makes: one to warm up, those to be timed,
/// and the margin.
pub const ROUND_TRIPS: u32 = 2009;

/// What the client sends.
pub const REQUEST: u64 = 21;

/// Which side this is, and what it is waiting for. `finished` counts the round
/// trips that are over.
#[derive(Clone, Copy, PartialEq, Eq, Structural, Debug)]
pub enum HelloService {
    Receiving { finished: u32 },
    Replying { finished: u32 },
    Calling { finished: u32 },
    Idle,
}

/// What the program asks of the kernel.
#[derive(Clone, Copy, PartialEq, Eq, Structural, Debug)]
pub enum Action {
    Recv { endpoint: CPtr },
    Reply { word0: u64, word1: u64, word2: u64 },
    Call { endpoint: CPtr, word0: u64, word1: u64, word2: u64 },
    /// Nothing, ever again.
    Idle,
}

/// What the kernel answered.
#[derive(Clone, Copy, PartialEq, Eq, Structural, Debug)]
pub enum Event {
    /// A request came in, with this first word, or receiving failed.
    Received { word: Option<u64> },
    Replied,
    Called,
}

/// Twice the request, in one machine word; a request that did not come in
/// counts as zero.
pub open spec fn answer_of(word: Option<u64>) -> u64 {
    match word {
        Some(w) => ((2 * w) % 0x1_0000_0000_0000_0000) as u64,
        None => 0,
    }
}

/// The server after `finished` round trips.
pub open spec fn server_at(finished: int) -> HelloService {
    if finished < ROUND_TRIPS {
        HelloService::Receiving { finished: finished as u32 }
    } else {
        HelloService::Idle
    }
}

/// The client after `finished` round trips.
pub open spec fn client_at(finished: int) -> HelloService {
    if finished < ROUND_TRIPS {
        HelloService::Calling { finished: finished as u32 }
    } else {
        HelloService::Idle
    }
}

/// The event is one that the program can be told of now.
pub open spec fn expects(state: HelloService, event: Event) -> bool {
    match state {
        HelloService::Receiving { finished } => finished < ROUND_TRIPS && event is Received,
        HelloService::Replying { finished } => finished < ROUND_TRIPS && event is Replied,
        HelloService::Calling { finished } => finished < ROUND_TRIPS && event is Called,
        HelloService::Idle => false,
    }
}

/// What the program waits for after an event.
pub open spec fn next_of(state: HelloService, event: Event) -> HelloService {
    match state {
        HelloService::Receiving { finished } => HelloService::Replying { finished },
        HelloService::Replying { finished } => server_at(finished + 1),
        HelloService::Calling { finished } => client_at(finished + 1),
        HelloService::Idle => HelloService::Idle,
    }
}

/// Replies with this word, and zeros behind it.
pub open spec fn reply_action(word: u64) -> Action {
    Action::Reply { word0: word, word1: 0, word2: 0 }
}

/// Calls with the request, and zeros behind it.
pub open spec fn call_action() -> Action {
    Action::Call { endpoint: ENDPOINT_CPTR, word0: REQUEST, word1: 0, word2: 0 }
}

/// What the program asks for when it begins to wait in this state, after this
/// event.
pub open spec fn action_of(state: HelloService, event: Option<Event>) -> Action {
    match state {
        HelloService::Receiving { finished } => Action::Recv { endpoint: ENDPOINT_CPTR },
        HelloService::Replying { finished } => reply_action(
            match event {
                Some(Event::Received { word }) => answer_of(word),
                _ => 0,
            },
        ),
        HelloService::Calling { finished } => call_action(),
        HelloService::Idle => Action::Idle,
    }
}

/// What the server replies to a request.
pub fn answer(word: Option<u64>) -> (reply: u64)
    ensures
        reply == answer_of(word),
{
    match word {
        Some(w) => w.wrapping_mul(2),
        None => 0,
    }
}

fn reply(word: u64) -> (action: Action)
    ensures
        action == reply_action(word),
{
    Action::Reply { word0: word, word1: 0, word2: 0 }
}

fn call() -> (action: Action)
    ensures
        action == call_action(),
{
    Action::Call { endpoint: ENDPOINT_CPTR, word0: REQUEST, word1: 0, word2: 0 }
}

/// Starts the program as the side that `arg0` says: the server for
/// [`ARG0_SERVER`], and the client for anything else.
pub fn start(arg0: u64) -> (result: (HelloService, Action))
    ensures
        result.0 == (if arg0 == ARG0_SERVER {
            server_at(0)
        } else {
            client_at(0)
        }),
        result.1 == action_of(result.0, None),
{
    if arg0 == ARG0_SERVER {
        (HelloService::Receiving { finished: 0 }, Action::Recv { endpoint: ENDPOINT_CPTR })
    } else {
        (HelloService::Calling { finished: 0 }, call())
    }
}

/// Goes on after what the kernel answered.
pub fn step(state: HelloService, event: Event) -> (result: (HelloService, Action))
    requires
        expects(state, event),
    ensures
        result.0 == next_of(state, event),
        result.1 == action_of(result.0, Some(event)),
{
    match state {
        HelloService::Receiving { finished } => {
            let word: Option<u64> = match event {
                Event::Received { word } => word,
                _ => None,
            };
            (HelloService::Replying { finished }, reply(answer(word)))
        },
        HelloService::Replying { finished } => {
            if finished + 1 < ROUND_TRIPS {
                (
                    HelloService::Receiving { finished: finished + 1 },
                    Action::Recv { endpoint: ENDPOINT_CPTR },
                )
            } else {
                (HelloService::Idle, Action::Idle)
            }
        },
        HelloService::Calling { finished } => {
            if finished + 1 < ROUND_TRIPS {
                (HelloService::Calling { finished: finished + 1 }, call())
            } else {
                (HelloService::Idle, Action::Idle)
            }
        },
        HelloService::Idle => (HelloService::Idle, Action::Idle),
    }
}

/// The server after serving `n` requests.
pub open spec fn served(requests: Seq<Option<u64>>, n: int) -> HelloService
    decreases n,
{
    if n <= 0 {
        server_at(0)
    } else {
        next_of(
            next_of(served(requests, n - 1), Event::Received { word: requests[n - 1] }),
            Event::Replied,
        )
    }
}

/// The server serves every request of a full run, whatever the requests are:
/// it answers each with its double, goes on receiving until it has served all
/// round trips, and then idles.
pub proof fn law_server_answers_every_request(requests: Seq<Option<u64>>, n: int)
    requires
        requests.len() == ROUND_TRIPS,
        0 <= n < ROUND_TRIPS,
    ensures
        served(requests, n) == server_at(n),
        expects(served(requests, n), Event::Received { word: requests[n] }),
        action_of(
            next_of(served(requests, n), Event::Received { word: requests[n] }),
            Some(Event::Received { word: requests[n] }),
        ) == reply_action(answer_of(requests[n])),
        served(requests, ROUND_TRIPS as int) == HelloService::Idle,
{
    lemma_served(requests, n);
    lemma_served(requests, ROUND_TRIPS as int);
}

proof fn lemma_served(requests: Seq<Option<u64>>, n: int)
    requires
        requests.len() == ROUND_TRIPS,
        0 <= n <= ROUND_TRIPS,
    ensures
        served(requests, n) == server_at(n),
    decreases n,
{
    if n > 0 {
        lemma_served(requests, n - 1);
    }
}

/// The client after `n` calls.
pub open spec fn called(n: int) -> HelloService
    decreases n,
{
    if n <= 0 {
        client_at(0)
    } else {
        next_of(called(n - 1), Event::Called)
    }
}

/// The client calls once per round trip, then idles.
pub proof fn law_client_calls_once_per_round_trip(n: int)
    requires
        0 <= n,
    ensures
        called(n) == client_at(n),
        action_of(called(n), None) == (if n < ROUND_TRIPS {
            call_action()
        } else {
            Action::Idle
        }),
    decreases n,
{
    if n > 0 {
        law_client_calls_once_per_round_trip(n - 1);
    }
}

/// The benchmark finishes even if as many round trips get lost as the margin
/// allows for: whatever traps a run is made of, if all other round trips end in
/// a `Reply`, the summary has been reported.
pub proof fn law_benchmark_finishes_despite_losses(traps: Seq<Trap>, lost: int)
    requires
        0 <= lost <= BENCH_SAFETY_MARGIN,
        replies(traps, traps.len() as int) == ROUND_TRIPS - lost,
    ensures
        bench_after(traps, traps.len() as int).done,
{
    law_counts_up_to_the_target(traps);
}

/// A request below 2^63 is answered with its double exactly.
pub proof fn law_answer_is_the_double(word: u64)
    requires
        word < 0x8000_0000_0000_0000,
    ensures
        answer_of(Some(word)) == 2 * word,
{
}

} // verus!
