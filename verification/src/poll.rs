//! The poll operations: what to do on each event of the host platform.

use crate::clock::Clock;
use crate::error::PollError;
use crate::options::{is_options_of, parse_options};
use crate::record::PollRecord;
use crate::store::{swept, PollStore};
use crate::tally::{render, tally_of, Tally};
use crate::text::{labels, same_text};
use vstd::prelude::*;

verus! {

/// The name of the command that starts a poll.
pub const COMMAND: &'static str = "poll";

/// What the host platform reports, as far as routing reads it.
pub enum Event<'a> {
    /// A command was invoked.
    CommandInvoked { command_name: &'a str },
    /// A button was pressed on a message; `origin_command` names the command
    /// that the message answered, if it answered one.
    ComponentActivated { origin_command: Option<&'a str> },
    /// Anything else.
    Other,
}

/// The operation that an event calls for.
#[derive(Clone, Copy, Debug, PartialEq, Eq, Structural)]
pub enum Route {
    /// Start a poll from the command's option input.
    StartPoll,
    /// Record the vote that the pressed button stands for.
    RecordVote,
    /// Do nothing.
    Ignore,
}

/// Invocations of the poll command start a poll, buttons on a poll's message
/// record a vote, and everything else is left alone.
pub open spec fn route_of(event: Event<'_>) -> Route {
    match event {
        Event::CommandInvoked { command_name } => if command_name@ == COMMAND@ {
            Route::StartPoll
        } else {
            Route::Ignore
        },
        Event::ComponentActivated { origin_command: Some(name) } => if name@ == COMMAND@ {
            Route::RecordVote
        } else {
            Route::Ignore
        },
        _ => Route::Ignore,
    }
}

/// Decides which operation an event calls for.
pub fn route(event: &Event<'_>) -> (r: Route)
    ensures
        r == route_of(*event),
{
    match event {
        Event::CommandInvoked { command_name } => {
            if same_text(command_name, COMMAND) {
                Route::StartPoll
            } else {
                Route::Ignore
            }
        },
        Event::ComponentActivated { origin_command: Some(name) } => {
            if same_text(name, COMMAND) {
                Route::RecordVote
            } else {
                Route::Ignore
            }
        },
        _ => Route::Ignore,
    }
}

/// Starts a poll at clock reading `now` from raw option input: the poll
/// offers the labels of the input, each once, in dictionary order, and has
/// no votes yet. Input that names no label is refused with `NoOptions`.
pub fn start_at(raw_options: &str, now: u128) -> (r: Result<PollRecord, PollError>)
    ensures
        match r {
            Ok(record) => {
                &&& labels(raw_options@).len() > 0
                &&& is_options_of(record@.options, raw_options@)
                &&& record@.start_time == now
                &&& record@.votes == Map::<u64, Seq<char>>::empty()
                &&& record@.valid()
            },
            Err(e) => e == PollError::NoOptions && labels(raw_options@).len() == 0,
        },
{
    match parse_options(raw_options) {
        Ok(options) => Ok(PollRecord::new(options, now)),
        Err(e) => Err(e),
    }
}

/// Starts a poll from raw option input, as `start_at` does, at the reading
/// that `clock` gives once the input is found good. Input that names no
/// label is refused before the clock is read.
pub fn start(raw_options: &str, clock: &mut Clock) -> (r: Result<PollRecord, PollError>)
    ensures
        final(clock)@ >= old(clock)@,
        match r {
            Ok(record) => {
                &&& labels(raw_options@).len() > 0
                &&& is_options_of(record@.options, raw_options@)
                &&& record@.start_time == final(clock)@
                &&& record@.votes == Map::<u64, Seq<char>>::empty()
                &&& record@.valid()
            },
            Err(e) => {
                &&& e == PollError::NoOptions
                &&& labels(raw_options@).len() == 0
                &&& final(clock)@ == old(clock)@
            },
        },
{
    match parse_options(raw_options) {
        Ok(options) => {
            let now: u128 = clock.now();
            Ok(PollRecord::new(options, now))
        },
        Err(e) => Err(e),
    }
}

/// One round of the cleaner: reads `clock` and sweeps the registry at that
/// reading, which closes every poll that is older than `poll_duration` and
/// leaves the others as they are. The caller repeats it at its interval;
/// since the clock's readings never go back, a poll that one round closes
/// for its age would be closed by every later round as well.
pub fn cleaner(store: &mut PollStore, clock: &mut Clock, poll_duration: u128)
    requires
        old(store).valid(),
    ensures
        final(store).valid(),
        final(clock)@ >= old(clock)@,
        final(store)@ == swept(old(store)@, final(clock)@, poll_duration),
{
    let now: u128 = clock.now();
    store.evict_older_than(now, poll_duration);
}

/// Opens a freshly started poll under `id`, once the host platform has
/// shown it. A poll whose display failed is not opened: the registry stays
/// as it was and the result is `UpstreamDisplayFailure`.
pub fn register(store: &mut PollStore, id: u64, record: PollRecord, displayed: bool) -> (r: Result<
    (),
    PollError,
>)
    requires
        old(store).valid(),
        record@.valid(),
    ensures
        final(store).valid(),
        match r {
            Ok(()) => displayed && final(store)@ == old(store)@.insert(id, record@),
            Err(e) => {
                &&& !displayed
                &&& e == PollError::UpstreamDisplayFailure
                &&& final(store)@ == old(store)@
            },
        },
{
    if displayed {
        store.insert(id, record);
        Ok(())
    } else {
        Err(PollError::UpstreamDisplayFailure)
    }
}

/// Records that `voter` chose `option` in the poll that is open under
/// `poll_id`, and renders the poll as it then stands. Looking the poll up,
/// changing its ledger and rendering it are one step on the registry.
///
/// A `poll_id` under which no poll is open gives `UnknownPoll`; an `option`
/// that the poll does not offer gives `UnknownOption`. Either way the
/// registry stays as it was. No vote opens or closes a poll.
pub fn vote(store: &mut PollStore, poll_id: u64, voter: u64, option: &str) -> (r: Result<
    Tally,
    PollError,
>)
    requires
        old(store).valid(),
    ensures
        final(store).valid(),
        final(store)@.dom() == old(store)@.dom(),
        match r {
            Ok(tally) => {
                &&& old(store)@.contains_key(poll_id)
                &&& old(store)@[poll_id].options.contains(option@)
                &&& final(store)@ == old(store)@.insert(
                    poll_id,
                    old(store)@[poll_id].with_vote(voter, option@),
                )
                &&& tally@ == tally_of(final(store)@[poll_id])
            },
            Err(e) => {
                &&& final(store)@ == old(store)@
                &&& e == if old(store)@.contains_key(poll_id) {
                    PollError::UnknownOption
                } else {
                    PollError::UnknownPoll
                }
                &&& old(store)@.contains_key(poll_id) ==> !old(store)@[poll_id].options.contains(
                    option@,
                )
            },
        },
{
    let cast = |record: &mut PollRecord| -> (shown: Result<Tally, PollError>)
        requires
            (*old(record))@.valid(),
        ensures
            match shown {
                Ok(tally) => {
                    &&& (*old(record))@.options.contains(option@)
                    &&& (*final(record))@ == (*old(record))@.with_vote(voter, option@)
                    &&& tally@ == tally_of((*final(record))@)
                },
                Err(e) => {
                    &&& e == PollError::UnknownOption
                    &&& !(*old(record))@.options.contains(option@)
                    &&& (*final(record))@ == (*old(record))@
                },
            },
            (*final(record))@.valid(),
        {
            match record.record_vote(voter, option) {
                Ok(()) => Ok(render(record)),
                Err(e) => Err(e),
            }
        };
    match store.with_record_mut(poll_id, cast) {
        Ok(shown) => {
            proof {
                assert(store@.dom() =~= old(store)@.dom());
                if shown is Err {
                    assert(store@ =~= old(store)@);
                }
            }
            shown
        },
        Err(e) => Err(e),
    }
}

} // verus!
