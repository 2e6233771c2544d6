//! The freshness engine: decide whether the newest observation is fresh,
//! request a refresh by keyword SMS when it is not, and wait for a newer
//! qualifying reply until a timeout.
//!
//! The engine is pure decision logic. The caller performs the outside work —
//! listing the inbox, sending the SMS, sleeping — and hands the results in:
//! `evaluate` decides between the fast path and the refresh branch, and
//! `poll_step` decides, at each poll instant, whether a reply qualifies,
//! whether the wait has timed out, or whether to keep polling. Staleness
//! during polling is judged against the instant captured at entry, so a valid
//! reply is not rejected merely because the wait itself took long.
//! `get_data_status_fresh` runs the whole state machine over a given sequence
//! of inbox readings, one per poll.
use vstd::prelude::*;

use crate::parse::{parse_data_status_from_sms, sms_observation};
use crate::timeconv::MAX_RENDERED_SECS;
use crate::types::{DataStatus, GetDataStatusEvent, Sms};

verus! {

/// The shortcode a balance query goes to.
pub fn balance_shortcode() -> (r: &'static str)
    ensures
        r@ == "4155"@,
{
    "4155"
}

/// The keyword whose SMS makes the carrier reply with the balance.
pub fn balance_keyword() -> (r: &'static str)
    ensures
        r@ == "Dati"@,
{
    "Dati"
}

/// The newest observation the inbox yields: among the messages that decode
/// to an observation, the one with the greatest reconstructed instant; of
/// two equally old, the later entry.
pub open spec fn most_recent_spec(smss: Seq<Sms>) -> Option<DataStatus>
    decreases smss.len(),
{
    if smss.len() == 0 {
        None
    } else {
        let rest = most_recent_spec(smss.drop_last());
        match sms_observation(smss.last()) {
            Some(ds) => match rest {
                Some(prev) => if prev.date_time > ds.date_time {
                    Some(prev)
                } else {
                    Some(ds)
                },
                None => Some(ds),
            },
            None => rest,
        }
    }
}

/// What `most_recent_spec` picks: nothing only when nothing decodes, else a
/// decoded observation no older than any other.
pub proof fn lemma_most_recent_props(smss: Seq<Sms>)
    ensures
        match most_recent_spec(smss) {
            None => forall|i: int| 0 <= i < smss.len() ==> sms_observation(smss[i]) is None,
            Some(ds) => (exists|i: int|
                0 <= i < smss.len() && sms_observation(smss[i]) == Some(ds)) && (forall|i: int|
                0 <= i < smss.len() && sms_observation(smss[i]) is Some ==> sms_observation(
                    smss[i],
                )->0.date_time <= ds.date_time),
        },
    decreases smss.len(),
{
    if smss.len() > 0 {
        let rest = smss.drop_last();
        lemma_most_recent_props(rest);
        assert(forall|i: int| 0 <= i < rest.len() ==> rest[i] == smss[i]);
        match most_recent_spec(smss) {
            None => {},
            Some(ds) => {
                if sms_observation(smss.last()) is Some {
                    match most_recent_spec(rest) {
                        Some(prev) => {
                            if prev.date_time > sms_observation(smss.last())->0.date_time {
                                let w = choose|i: int|
                                    0 <= i < rest.len() && sms_observation(rest[i]) == Some(prev);
                                assert(sms_observation(smss[w]) == Some(prev));
                            } else {
                                assert(sms_observation(smss[smss.len() - 1]) == Some(ds));
                            }
                        },
                        None => {
                            assert(sms_observation(smss[smss.len() - 1]) == Some(ds));
                        },
                    }
                } else {
                    let w = choose|i: int|
                        0 <= i < rest.len() && sms_observation(rest[i]) == Some(ds);
                    assert(sms_observation(smss[w]) == Some(ds));
                }
            },
        }
    }
}

/// Decodes every inbox message and returns the newest observation: the
/// greatest reconstructed instant wins, a later entry winning a tie.
pub fn most_recent_data_status(smss: &Vec<Sms>) -> (r: Option<DataStatus>)
    ensures
        r == most_recent_spec(smss@),
{
    let n = smss.len();
    proof {
        assert(smss@.take(0).len() == 0);
    }
    let mut best: Option<DataStatus> = None;
    let mut i: usize = 0;
    while i < n
        invariant
            n == smss@.len(),
            0 <= i <= n,
            best == most_recent_spec(smss@.take(i as int)),
        decreases n - i,
    {
        let obs = parse_data_status_from_sms(&smss[i]);
        proof {
            assert(smss@.take(i + 1).last() == smss@[i as int]);
            assert(smss@.take(i + 1).drop_last() =~= smss@.take(i as int));
        }
        match obs {
            Some(ds) => {
                match &best {
                    Some(b) => {
                        if ds.date_time >= b.date_time {
                            best = Some(ds);
                        }
                    },
                    None => {
                        best = Some(ds);
                    },
                }
            },
            None => {},
        }
        i += 1;
    }
    proof {
        assert(smss@.take(n as int) =~= smss@);
    }
    best
}

/// Stale: there is no observation, or the newest is older than `max_age`.
pub open spec fn is_stale(current: Option<DataStatus>, now: i64, max_age: i64) -> bool {
    match current {
        None => true,
        Some(ds) => now - ds.date_time > max_age,
    }
}

/// Does an observation qualify as fresh, judged against the instant captured
/// at entry to the engine?
pub open spec fn poll_qualifies(current: Option<DataStatus>, entry_now: i64, max_age: i64) -> bool {
    match current {
        None => false,
        Some(ds) => entry_now - ds.date_time <= max_age,
    }
}

/// Every instant the engine computes with stays in this range; keeps the
/// second arithmetic away from the integer bounds.
pub open spec fn instant_ok(t: i64) -> bool {
    -MAX_RENDERED_SECS <= t <= MAX_RENDERED_SECS
}

pub open spec fn current_ok(current: Option<DataStatus>) -> bool {
    match current {
        None => true,
        Some(ds) => instant_ok(ds.date_time),
    }
}

/// What the engine decides on entry.
#[derive(Clone, Copy, Debug, PartialEq, Eq, Structural)]
pub enum EvalDecision {
    /// The newest observation is fresh: return it, send nothing.
    ReturnFresh(DataStatus),
    /// No observation and no reason to wait: report loading. (Unreachable
    /// with this evaluation rule — an absent observation is stale — but part
    /// of the engine's outcome surface.)
    ReturnLoading,
    /// Request a refresh and poll for the reply.
    Refresh,
}

pub open spec fn evaluate_spec(
    force: bool,
    now: i64,
    max_age: i64,
    current: Option<DataStatus>,
) -> EvalDecision {
    if force || is_stale(current, now, max_age) {
        EvalDecision::Refresh
    } else {
        EvalDecision::ReturnFresh(current->0)
    }
}

/// Entry of the engine: take the refresh branch when forced or stale, else
/// return the current observation as fresh.
pub fn evaluate(force: bool, now: i64, max_age: i64, current: &Option<DataStatus>) -> (r:
    EvalDecision)
    requires
        instant_ok(now),
        0 <= max_age <= MAX_RENDERED_SECS,
        current_ok(*current),
    ensures
        r == evaluate_spec(force, now, max_age, *current),
{
    let stale = match current {
        None => true,
        Some(ds) => now - ds.date_time > max_age,
    };
    if force || stale {
        EvalDecision::Refresh
    } else {
        match current {
            Some(ds) => EvalDecision::ReturnFresh(*ds),
            None => EvalDecision::ReturnLoading,
        }
    }
}

/// What one poll decides.
#[derive(Clone, Copy, Debug, PartialEq, Eq, Structural)]
pub enum PollDecision {
    /// A qualifying observation appeared.
    Fresh(DataStatus),
    /// The wait has exceeded the timeout without a qualifying observation.
    TimedOut,
    /// Keep polling.
    Continue,
}

pub open spec fn poll_step_spec(
    entry_now: i64,
    start: i64,
    poll_now: i64,
    max_age: i64,
    timeout: i64,
    current: Option<DataStatus>,
) -> PollDecision {
    if poll_qualifies(current, entry_now, max_age) {
        PollDecision::Fresh(current->0)
    } else if poll_now - start > timeout {
        PollDecision::TimedOut
    } else {
        PollDecision::Continue
    }
}

/// One poll of the wait loop: a qualifying observation wins even at the
/// deadline; past the deadline without one, the wait times out.
pub fn poll_step(
    entry_now: i64,
    start: i64,
    poll_now: i64,
    max_age: i64,
    timeout: i64,
    current: &Option<DataStatus>,
) -> (r: PollDecision)
    requires
        instant_ok(entry_now),
        instant_ok(start),
        -4 * MAX_RENDERED_SECS <= poll_now <= 4 * MAX_RENDERED_SECS,
        0 <= max_age <= MAX_RENDERED_SECS,
        0 <= timeout <= MAX_RENDERED_SECS,
        current_ok(*current),
    ensures
        r == poll_step_spec(entry_now, start, poll_now, max_age, timeout, *current),
{
    let qualifies = match current {
        None => false,
        Some(ds) => entry_now - ds.date_time <= max_age,
    };
    if qualifies {
        match current {
            Some(ds) => PollDecision::Fresh(*ds),
            None => PollDecision::TimedOut,  // unreachable: nothing qualifies here
        }
    } else if poll_now - start > timeout {
        PollDecision::TimedOut
    } else {
        PollDecision::Continue
    }
}

// ---------------------------------------------------------------------------
// The engine's laws.
// ---------------------------------------------------------------------------

/// Freshness fast path: with `force` off and the newest observation within
/// `max_age` of now, the engine returns that observation as fresh and never
/// takes the refresh branch — so no SMS is requested.
pub proof fn lemma_fresh_fast_path(now: i64, max_age: i64, current: Option<DataStatus>)
    requires
        current is Some,
        now - current->0.date_time <= max_age,
    ensures
        evaluate_spec(false, now, max_age, current) == EvalDecision::ReturnFresh(current->0),
{
}

/// Refresh path: an observation that qualifies during polling is strictly
/// newer than any stale observation seen at entry.
pub proof fn lemma_refresh_newer(
    entry_now: i64,
    max_age: i64,
    entry: Option<DataStatus>,
    obs: DataStatus,
)
    requires
        is_stale(entry, entry_now, max_age),
        poll_qualifies(Some(obs), entry_now, max_age),
    ensures
        match entry {
            Some(e) => obs.date_time > e.date_time,
            None => true,
        },
{
}

/// Timeout honoured: no poll later than `timeout` past the start continues
/// the wait, and polling every `poll` seconds reaches such an instant no
/// later than `timeout + poll` past the start.
pub proof fn lemma_timeout_honoured(
    entry_now: i64,
    start: i64,
    max_age: i64,
    timeout: i64,
    poll: i64,
    current: Option<DataStatus>,
)
    requires
        poll >= 1,
        timeout >= 0,
    ensures
        forall|t: i64|
            t - start > timeout ==> poll_step_spec(entry_now, start, t, max_age, timeout, current)
                != PollDecision::Continue,
        exists|k: int|
            0 <= k && #[trigger] ((k + 1) * poll) > timeout && (k + 1) * poll <= timeout + poll,
{
    let k0 = timeout as int / poll as int;
    assert(k0 * poll <= timeout && timeout < (k0 + 1) * poll && (k0 + 1) * poll <= timeout + poll)
        by (nonlinear_arith)
        requires
            poll >= 1,
            timeout >= 0,
            k0 == timeout as int / poll as int,
    ;
    assert(0 <= k0 && (k0 + 1) * poll > timeout && (k0 + 1) * poll <= timeout + poll);
}

// ---------------------------------------------------------------------------
// The whole engine over a script of inbox readings.
// ---------------------------------------------------------------------------

/// One reading of the inbox during the wait: the newest observation the
/// listing yielded (or none), or the listing's own failure.
#[derive(Clone, Debug)]
pub enum InboxReading {
    Listed(Option<DataStatus>),
    Failed(String),
}

/// The observation a reading carries; a failed listing carries none.
pub open spec fn reading_obs(r: InboxReading) -> Option<DataStatus> {
    match r {
        InboxReading::Listed(o) => o,
        InboxReading::Failed(_) => None,
    }
}

pub open spec fn reading_failed(r: InboxReading) -> bool {
    r is Failed
}

/// A failed reading's message.
pub open spec fn reading_error(r: InboxReading) -> Seq<char> {
    match r {
        InboxReading::Failed(e) => e@,
        InboxReading::Listed(_) => Seq::empty(),
    }
}

/// The reading the `k`-th poll finds; past the script's end, an empty inbox.
pub open spec fn script_at(polls: Seq<InboxReading>, k: int) -> InboxReading {
    if 0 <= k < polls.len() {
        polls[k]
    } else {
        InboxReading::Listed(None)
    }
}

pub open spec fn polls_ok(polls: Seq<InboxReading>) -> bool {
    forall|k: int| 0 <= k < polls.len() ==> current_ok(reading_obs(#[trigger] polls[k]))
}

/// Runs the freshness state machine over a given sequence of inbox readings,
/// one per poll: evaluate the entry observation; when fresh, return it
/// without requesting anything; else request a refresh (`send_ok` and
/// `send_error` stand for that attempt's outcome) and poll every `poll`
/// seconds until a reading qualifies against the entry instant, a listing
/// fails, or the wait exceeds `timeout`. A failed listing, like a failed
/// send, becomes the `Error` outcome.
pub fn get_data_status_fresh(
    force: bool,
    max_age: i64,
    timeout: i64,
    poll: i64,
    now: i64,
    entry: Option<DataStatus>,
    send_ok: bool,
    send_error: String,
    polls: &Vec<InboxReading>,
) -> (r: GetDataStatusEvent)
    requires
        0 <= now <= MAX_RENDERED_SECS,
        0 <= max_age <= MAX_RENDERED_SECS,
        0 <= timeout <= MAX_RENDERED_SECS,
        1 <= poll <= MAX_RENDERED_SECS,
        current_ok(entry),
        polls_ok(polls@),
    ensures
        // fast path: the entry observation is fresh and nothing was requested
        evaluate_spec(force, now, max_age, entry) is ReturnFresh ==> r == (
        GetDataStatusEvent::Fresh { data_status: entry->0 }),
        // the refresh request failed: its error is the outcome
        evaluate_spec(force, now, max_age, entry) is Refresh && !send_ok ==> match r {
            GetDataStatusEvent::Error { error, data_status, is_stale } => error@ == send_error@
                && data_status == entry && is_stale,
            _ => false,
        },
        // the refresh request went out: the first qualifying reading wins;
        // a failed listing before one is the outcome; with neither in reach
        // of the timeout, the wait times out
        evaluate_spec(force, now, max_age, entry) is Refresh && send_ok ==> match r {
            GetDataStatusEvent::Fresh { data_status } => exists|k: int|
                {
                    &&& 0 <= k
                    &&& #[trigger] (k * poll) <= timeout
                    &&& reading_obs(script_at(polls@, k)) == Some(data_status)
                    &&& poll_qualifies(Some(data_status), now, max_age)
                    &&& forall|j: int|
                        0 <= j < k ==> !reading_failed(script_at(polls@, j)) && !poll_qualifies(
                            reading_obs(script_at(polls@, j)),
                            now,
                            max_age,
                        )
                },
            GetDataStatusEvent::Loading { .. } => false,
            GetDataStatusEvent::Error { error, data_status: _, is_stale } => is_stale && ((
            exists|k: int|
                {
                    &&& 0 <= k
                    &&& #[trigger] (k * poll) <= timeout
                    &&& reading_failed(script_at(polls@, k))
                    &&& error@ == reading_error(script_at(polls@, k))
                    &&& forall|j: int|
                        0 <= j < k ==> !reading_failed(script_at(polls@, j)) && !poll_qualifies(
                            reading_obs(script_at(polls@, j)),
                            now,
                            max_age,
                        )
                }) || (error@ == "Timeout waiting for new SMS"@ && forall|k: int|
                0 <= k && #[trigger] (k * poll) <= timeout ==> !reading_failed(
                    script_at(polls@, k),
                ) && !poll_qualifies(reading_obs(script_at(polls@, k)), now, max_age))),
        },
{
    match evaluate(force, now, max_age, &entry) {
        EvalDecision::ReturnFresh(ds) => {
            return GetDataStatusEvent::Fresh { data_status: ds };
        },
        EvalDecision::ReturnLoading => {
            return GetDataStatusEvent::Loading { data_status: None, is_stale: true };
        },
        EvalDecision::Refresh => {},
    }
    if !send_ok {
        return GetDataStatusEvent::Error {
            error: send_error,
            data_status: entry,
            is_stale: true,
        };
    }
    let start = now;
    let empty_inbox = InboxReading::Listed(None);
    let mut k: u64 = 0;
    let mut t: i64 = now;
    loop
        invariant
            0 <= now <= MAX_RENDERED_SECS,
            0 <= max_age <= MAX_RENDERED_SECS,
            0 <= timeout <= MAX_RENDERED_SECS,
            1 <= poll <= MAX_RENDERED_SECS,
            polls_ok(polls@),
            start == now,
            t == now + (k as int) * poll,
            (k as int) * poll <= timeout,
            empty_inbox == InboxReading::Listed(None::<DataStatus>),
            forall|j: int|
                0 <= j < k ==> !reading_failed(script_at(polls@, j)) && !poll_qualifies(
                    reading_obs(script_at(polls@, j)),
                    now,
                    max_age,
                ),
            evaluate_spec(force, now, max_age, entry) is Refresh,
            send_ok,
        decreases timeout - (k as int) * poll,
    {
        proof {
            assert(((k as int) + 1) * poll == (k as int) * poll + poll) by (nonlinear_arith);
            assert((k as int) <= (k as int) * poll) by (nonlinear_arith)
                requires
                    poll >= 1,
                    k as int >= 0,
            ;
        }
        t = t + poll;
        let current: &InboxReading = if k < polls.len() as u64 {
            &polls[k as usize]
        } else {
            &empty_inbox
        };
        match current {
            InboxReading::Failed(e) => {
                return GetDataStatusEvent::Error {
                    error: e.clone(),
                    data_status: None,
                    is_stale: true,
                };
            },
            InboxReading::Listed(obs) => {
                match poll_step(now, start, t, max_age, timeout, obs) {
                    PollDecision::Fresh(ds) => {
                        return GetDataStatusEvent::Fresh { data_status: ds };
                    },
                    PollDecision::TimedOut => {
                        proof {
                            assert forall|k2: int|
                                0 <= k2 && #[trigger] (k2 * poll) <= timeout implies !reading_failed(
                                script_at(polls@, k2),
                            ) && !poll_qualifies(
                                reading_obs(script_at(polls@, k2)),
                                now,
                                max_age,
                            ) by {
                                if k2 > k {
                                    assert(k2 * poll >= ((k as int) + 1) * poll)
                                        by (nonlinear_arith)
                                        requires
                                            k2 >= (k as int) + 1,
                                            poll >= 1,
                                    ;
                                }
                            }
                        }
                        return GetDataStatusEvent::Error {
                            error: String::from_str("Timeout waiting for new SMS"),
                            data_status: *obs,
                            is_stale: true,
                        };
                    },
                    PollDecision::Continue => {},
                }
            },
        }
        k += 1;
    }
}

} // verus!
