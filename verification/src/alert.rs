//! Webhook alerts: when one is due, and the cooldown that limits them to one
//! per period for the same message.
//!
//! Times are nanoseconds on a monotonic clock, counted from a fixed origin
//! that the caller chooses (the agent's start).
use vstd::prelude::*;

use crate::config::AlertConfig;
use crate::json::{json_escape, json_unescape};
use crate::output::{
    alert_body, alert_content, format_alert_body, lemma_alert_body_reads_back,
    lemma_alert_content_shows_count,
};
use crate::text::decimal_value;

verus! {

/// Nanoseconds in a second.
pub open spec fn nanos_per_second() -> int {
    1_000_000_000
}

/// The time gone from `since` to `now`; none where `now` is earlier.
pub open spec fn elapsed(since: u64, now: u64) -> int {
    if now >= since {
        now - since
    } else {
        0
    }
}

/// An alert for `message` went out less than the cooldown before `now`.
pub open spec fn in_cooldown(
    alert: AlertConfig,
    sent_at: Map<Seq<char>, u64>,
    message: Seq<char>,
    now: u64,
) -> bool {
    &&& alert.cooldown_minutes is Some
    &&& sent_at.contains_key(message)
    &&& elapsed(sent_at[message], now) < alert.cooldown_minutes->0 * 60 * nanos_per_second()
}

/// A group of `count` repetitions calls for an alert.
pub open spec fn alert_due(alert: Option<AlertConfig>, count: u32) -> bool {
    alert is Some && count >= alert->0.threshold
}

/// Checking the cooldown of `message` would compute the cooldown in seconds
/// beyond `u64`.
pub open spec fn cooldown_overflows(
    alert: Option<AlertConfig>,
    sent_at: Map<Seq<char>, u64>,
    message: Seq<char>,
    count: u32,
) -> bool {
    &&& alert_due(alert, count)
    &&& alert->0.cooldown_minutes is Some
    &&& sent_at.contains_key(message)
    &&& alert->0.cooldown_minutes->0 * 60 > u64::MAX
}

/// What becomes of the alert for a closed group.
pub enum AlertDecision {
    /// No alert: none is configured, the group is below the alert threshold,
    /// or alerts are off (dry run).
    NoAlert,
    /// Due, but an alert for the same message went out within the cooldown.
    Suppressed { cooldown_minutes: u64 },
    /// Post `body` to the webhook.
    Send { body: String },
}

/// `d` is the decision for `message` repeated `count` times at `now`.
pub open spec fn decision_is(
    d: AlertDecision,
    alert: Option<AlertConfig>,
    sent_at: Map<Seq<char>, u64>,
    message: Seq<char>,
    count: u32,
    now: u64,
) -> bool {
    if !alert_due(alert, count) {
        d is NoAlert
    } else if in_cooldown(alert->0, sent_at, message, now) {
        d == AlertDecision::Suppressed { cooldown_minutes: alert->0.cooldown_minutes->0 }
    } else {
        d matches AlertDecision::Send { body } && body@ == alert_body(count, message)
    }
}

/// An alert goes out for `message` repeated `count` times at `now`.
pub open spec fn alert_sent(
    alert: Option<AlertConfig>,
    sent_at: Map<Seq<char>, u64>,
    message: Seq<char>,
    count: u32,
    now: u64,
) -> bool {
    alert_due(alert, count) && !in_cooldown(alert->0, sent_at, message, now)
}

/// The send times remembered after the decision: an alert sent under a
/// cooldown records `now` for its message.
pub open spec fn sent_at_after(
    alert: Option<AlertConfig>,
    sent_at: Map<Seq<char>, u64>,
    message: Seq<char>,
    count: u32,
    now: u64,
) -> Map<Seq<char>, u64> {
    if alert_sent(alert, sent_at, message, count, now) && alert->0.cooldown_minutes is Some {
        sent_at.insert(message, now)
    } else {
        sent_at
    }
}

/// The time of the last alert sent for each message, where a cooldown is set.
pub struct AlertTracker {
    entries: Vec<(String, u64)>,
    sent_at: Ghost<Map<Seq<char>, u64>>,
}

impl AlertTracker {
    /// The time of the last alert sent for each message.
    pub closed spec fn times(&self) -> Map<Seq<char>, u64> {
        self.sent_at@
    }

    /// The entries hold each message once, and exactly the map.
    #[verifier::type_invariant]
    closed spec fn entries_match(&self) -> bool {
        &&& forall|i: int, j: int|
            0 <= i < j < self.entries.len() ==> #[trigger] self.entries[i].0@
                != #[trigger] self.entries[j].0@
        &&& forall|i: int|
            0 <= i < self.entries.len() ==> self.sent_at@.contains_key(#[trigger] self.entries[i].0@)
                && self.sent_at@[self.entries[i].0@] == self.entries[i].1
        &&& forall|k: Seq<char>|
            #[trigger] self.sent_at@.contains_key(k) ==> exists|i: int|
                0 <= i < self.entries.len() && #[trigger] self.entries[i].0@ == k
    }

    /// No alert sent yet.
    pub fn new() -> (res: AlertTracker)
        ensures
            res.times() == Map::<Seq<char>, u64>::empty(),
    {
        AlertTracker { entries: Vec::new(), sent_at: Ghost(Map::empty()) }
    }

    /// Where the entry for `message` stands.
    fn position(&self, message: &String) -> (res: Option<usize>)
        ensures
            match res {
                Some(i) => i < self.entries.len() && self.entries[i as int].0@ == message@,
                None => !self.times().contains_key(message@),
            },
    {
        proof {
            use_type_invariant(self);
        }
        let n = self.entries.len();
        for i in 0..n
            invariant
                n == self.entries.len(),
                forall|j: int| 0 <= j < i ==> self.entries[j].0@ != message@,
        {
            if self.entries[i].0 == *message {
                return Some(i);
            }
        }
        None
    }

    /// When the last alert for `message` went out, where one did.
    pub fn last_sent(&self, message: &String) -> (res: Option<u64>)
        ensures
            match res {
                Some(t) => self.times().contains_key(message@) && self.times()[message@] == t,
                None => !self.times().contains_key(message@),
            },
    {
        proof {
            use_type_invariant(self);
        }
        match self.position(message) {
            Some(i) => Some(self.entries[i].1),
            None => None,
        }
    }

    /// Records that an alert for `message` went out at `now`.
    pub fn record(&mut self, message: &String, now: u64)
        ensures
            final(self).times() == old(self).times().insert(message@, now),
    {
        let mut current = AlertTracker::new();
        std::mem::swap(&mut current, self);
        proof {
            use_type_invariant(&current);
        }
        let pos = current.position(message);
        let ghost old_map = current.sent_at@;
        let AlertTracker { mut entries, sent_at: _ } = current;
        let ghost old_entries = entries@;
        match pos {
            Some(i) => {
                let key = entries[i].0.clone();
                entries.set(i, (key, now));
            },
            None => {
                entries.push((message.clone(), now));
            },
        }
        let ghost new_map = old_map.insert(message@, now);
        let ghost updated = AlertTracker { entries, sent_at: Ghost(new_map) };
        assert forall|k: Seq<char>| #[trigger] updated.sent_at@.contains_key(k) implies exists|i: int|
            0 <= i < updated.entries.len() && #[trigger] updated.entries[i].0@ == k by {
            let w: int = if k == message@ {
                match pos {
                    Some(i) => i as int,
                    None => old_entries.len() as int,
                }
            } else {
                choose|j: int| 0 <= j < old_entries.len() && #[trigger] old_entries[j].0@ == k
            };
            assert(0 <= w < updated.entries.len() && updated.entries[w].0@ == k);
        }
        assert forall|i: int, j: int|
            0 <= i < j < updated.entries.len() implies #[trigger] updated.entries[i].0@
            != #[trigger] updated.entries[j].0@ by {
            if i < old_entries.len() && j < old_entries.len() {
                assert(old_entries[i].0@ != old_entries[j].0@);
            } else if i < old_entries.len() {
                assert(old_map.contains_key(old_entries[i].0@));
            }
        }
        assert forall|i: int| 0 <= i < updated.entries.len() implies updated.sent_at@.contains_key(
            #[trigger] updated.entries[i].0@,
        ) && updated.sent_at@[updated.entries[i].0@] == updated.entries[i].1 by {
            if i < old_entries.len() && updated.entries[i].0@ != message@ {
                assert(old_map.contains_key(old_entries[i].0@));
            }
        }
        assert(updated.entries_match());
        *self = AlertTracker { entries, sent_at: Ghost(new_map) };
    }

    /// Decides the alert for `message` repeated `count` times at `now`, and
    /// remembers the time of an alert sent under a cooldown.
    pub fn decide(
        &mut self,
        alert: &Option<AlertConfig>,
        message: &String,
        count: u32,
        now: u64,
    ) -> (res: AlertDecision)
        requires
            !cooldown_overflows(*alert, old(self).times(), message@, count),
        ensures
            decision_is(res, *alert, old(self).times(), message@, count, now),
            final(self).times() == sent_at_after(*alert, old(self).times(), message@, count, now),
    {
        let a = match alert {
            Some(a) => a,
            None => {
                return AlertDecision::NoAlert;
            },
        };
        if count < a.threshold {
            return AlertDecision::NoAlert;
        }
        if let Some(minutes) = a.cooldown_minutes {
            if let Some(last) = self.last_sent(message) {
                let gone: u64 = if now >= last {
                    now - last
                } else {
                    0
                };
                let cooldown_seconds: u64 = minutes * 60;
                if (gone as u128) < (cooldown_seconds as u128) * 1_000_000_000u128 {
                    return AlertDecision::Suppressed { cooldown_minutes: minutes };
                }
            }
        }
        let body = format_alert_body(count, message.as_str());
        if a.cooldown_minutes.is_some() {
            self.record(message, now);
        }
        AlertDecision::Send { body }
    }
}

/// Law of the cooldown: once an alert for a message went out under a
/// cooldown of `m` minutes, an alert for the same message less than `m`
/// minutes later is suppressed, however often it repeats.
pub proof fn lemma_one_alert_per_cooldown(
    alert: AlertConfig,
    sent_at: Map<Seq<char>, u64>,
    message: Seq<char>,
    first_count: u32,
    first_time: u64,
    later_count: u32,
    later_time: u64,
)
    requires
        alert.cooldown_minutes is Some,
        alert_sent(Some(alert), sent_at, message, first_count, first_time),
        first_time <= later_time,
        later_time - first_time < alert.cooldown_minutes->0 * 60 * nanos_per_second(),
    ensures
        !alert_sent(
            Some(alert),
            sent_at_after(Some(alert), sent_at, message, first_count, first_time),
            message,
            later_count,
            later_time,
        ),
{
}

/// Law of the cooldown: the cooldown does not outlast its period. Once `m`
/// minutes have passed since the last alert for a message, the next alert
/// due for it goes out.
pub proof fn lemma_alert_after_cooldown(
    alert: AlertConfig,
    sent_at: Map<Seq<char>, u64>,
    message: Seq<char>,
    count: u32,
    now: u64,
)
    requires
        alert.cooldown_minutes is Some,
        count >= alert.threshold,
        sent_at.contains_key(message),
        elapsed(sent_at[message], now) >= alert.cooldown_minutes->0 * 60 * nanos_per_second(),
    ensures
        alert_sent(Some(alert), sent_at, message, count, now),
{
}

/// Law of the alert payload: the alert sent for a group of `count`
/// repetitions of `message` posts a JSON object whose `content` decodes to a
/// text giving `count` (whatever the alert threshold) and the message.
pub proof fn lemma_alert_reports_count(
    d: AlertDecision,
    alert: Option<AlertConfig>,
    sent_at: Map<Seq<char>, u64>,
    message: Seq<char>,
    count: u32,
    now: u64,
)
    requires
        decision_is(d, alert, sent_at, message, count, now),
        d is Send,
    ensures
        exists|content: Seq<char>, digits: Seq<char>|
            #![trigger json_escape(content), decimal_value(digits)]
            d->body@ == "{\"content\":\""@ + json_escape(content) + "\"}"@ && json_unescape(
                json_escape(content),
            ) == Some(content) && decimal_value(digits) == count && content
                == "**ALERTE CRITIQUE**\nMessage repete **"@ + digits + " fois**\n`"@ + message
                + "`"@,
{
    lemma_alert_body_reads_back(count, message);
    lemma_alert_content_shows_count(count, message);
    let content = alert_content(count, message);
    let digits = choose|digits: Seq<char>|
        #![trigger decimal_value(digits)]
        decimal_value(digits) == count && content == "**ALERTE CRITIQUE**\nMessage repete **"@
            + digits + " fois**\n`"@ + message + "`"@;
    assert(json_escape(content) == json_escape(content));
    assert(decimal_value(digits) == count);
}

} // verus!
