//! The log processor: it classifies each line, groups consecutive repeats of
//! a message, decides which groups are kept and which call for an alert, and
//! keeps the statistics.
//!
//! The caller reads the lines and writes what the processor decides; the
//! processor decides from the lines alone (and, for alerts, the time).
use vstd::prelude::*;

use crate::alert::{
    cooldown_overflows, decision_is, sent_at_after, AlertDecision, AlertTracker,
};
use crate::config::{AlertConfig, Config};
use crate::dedup::{
    closed_runs, kept_count, lemma_closed_runs_step, lemma_reported_len,
    lemma_runs_len, reported, runs,
};
use crate::message::{
    extract_message, filtered_out, masked, message_of, IpMasker, PatternSet,
};
use crate::text::{chars_of, first_index, trim, trim_chars};

verus! {

broadcast use vstd::string::group_string_axioms;

/// What a line comes to.
pub enum LineClass {
    /// The line holds nothing but whitespace; it is not counted.
    Blank,
    /// The line is filtered out by the patterns; its message.
    Excluded(String),
    /// The message of the line, to be grouped.
    Message(String),
}

/// The counts reported at the end.
#[derive(Clone, Copy)]
pub struct Stats {
    /// Lines that are not blank.
    pub total: u64,
    /// Groups kept.
    pub sent: u64,
    /// Groups dropped for repeating fewer times than the threshold.
    pub skipped: u64,
    /// Lines dropped by the exclusion or inclusion patterns.
    pub excluded: u64,
}

/// A group of consecutive repeats that has ended.
pub struct ClosedGroup {
    /// How many times the message repeated.
    pub count: u32,
    /// The message.
    pub message: String,
    /// It repeated at least as often as the threshold.
    pub kept: bool,
    /// It is written to the output: it is kept, and this is no dry run.
    pub written: bool,
    /// The alert it calls for.
    pub alert: AlertDecision,
}

/// What remains when the input ends.
pub struct Finished {
    /// The group that was still open, where its message is not empty.
    pub last_group: Option<ClosedGroup>,
    /// The final counts.
    pub stats: Stats,
}

/// The line holds nothing but whitespace.
pub open spec fn is_blank(line: Seq<char>) -> bool {
    trim(line).len() == 0
}

/// The message of `line`, its IP addresses masked where `mask_ips` is set.
pub open spec fn processed(line: Seq<char>, mask_ips: bool) -> Seq<char> {
    if mask_ips {
        masked(message_of(line))
    } else {
        message_of(line)
    }
}

/// The statistics after a group closed, kept or not.
pub open spec fn stats_after_close(s: Stats, kept: bool) -> Stats {
    if kept {
        Stats { sent: (s.sent + 1) as u64, ..s }
    } else {
        Stats { skipped: (s.skipped + 1) as u64, ..s }
    }
}

/// The state of the grouping: the open group, the counts, and (as ghost
/// state) the messages grouped and the groups closed so far.
struct RunState {
    last: String,
    count: u32,
    stats: Stats,
    seen: Ghost<Seq<Seq<char>>>,
    groups: Ghost<Seq<(nat, Seq<char>)>>,
}

impl RunState {
    /// The open group is the last run of the messages seen, the closed
    /// groups are the runs before it (but those of the empty message), and
    /// the counts agree with them.
    closed spec fn consistent(&self, threshold: u32) -> bool {
        &&& self.seen@.len() == 0 ==> self.last@.len() == 0 && self.count == 0
        &&& self.seen@.len() > 0 ==> runs(self.seen@).last() == (self.count as nat, self.last@)
        &&& self.groups@ == reported(closed_runs(self.seen@))
        &&& self.stats.total == self.seen@.len() + self.stats.excluded
        &&& self.stats.sent + self.stats.skipped == self.groups@.len()
        &&& self.stats.sent == kept_count(self.groups@, threshold as nat)
    }

    /// Nothing grouped yet.
    fn start() -> (res: RunState)
        ensures
            forall|threshold: u32| #[trigger] res.consistent(threshold),
            res.last@.len() == 0,
            res.count == 0,
            res.stats == (Stats { total: 0, sent: 0, skipped: 0, excluded: 0 }),
            res.seen@ == Seq::<Seq<char>>::empty(),
            res.groups@ == Seq::<(nat, Seq<char>)>::empty(),
    {
        let res = RunState {
            last: String::new(),
            count: 0,
            stats: Stats { total: 0, sent: 0, skipped: 0, excluded: 0 },
            seen: Ghost(Seq::empty()),
            groups: Ghost(Seq::empty()),
        };
        assert(closed_runs(Seq::<Seq<char>>::empty()) =~= Seq::<(nat, Seq<char>)>::empty());
        res
    }
}

/// The deduplicating processor.
pub struct Processor {
    threshold: u32,
    mask_ips: bool,
    dry_run: bool,
    alert: Option<AlertConfig>,
    exclusion: PatternSet,
    inclusion: PatternSet,
    masker: IpMasker,
    run: RunState,
    tracker: AlertTracker,
}

impl Processor {
    #[verifier::type_invariant]
    closed spec fn grouping_consistent(&self) -> bool {
        self.run.consistent(self.threshold)
    }

    /// Groups repeating at least this often are kept.
    pub closed spec fn threshold(&self) -> u32 {
        self.threshold
    }

    /// IP addresses are masked.
    pub closed spec fn mask_ips(&self) -> bool {
        self.mask_ips
    }

    /// Nothing is written and no alerts go out.
    pub closed spec fn dry_run(&self) -> bool {
        self.dry_run
    }

    /// The alert settings.
    pub closed spec fn alert(&self) -> Option<AlertConfig> {
        self.alert
    }

    /// The exclusion patterns.
    pub closed spec fn exclude_patterns(&self) -> Seq<Seq<char>> {
        self.exclusion.patterns()
    }

    /// The inclusion patterns.
    pub closed spec fn include_patterns(&self) -> Seq<Seq<char>> {
        self.inclusion.patterns()
    }

    /// The message of the open group (empty before the first message).
    pub closed spec fn last(&self) -> Seq<char> {
        self.run.last@
    }

    /// How often the message of the open group repeated so far.
    pub closed spec fn count(&self) -> u32 {
        self.run.count
    }

    /// The counts so far.
    pub closed spec fn stats(&self) -> Stats {
        self.run.stats
    }

    /// When the last alert for each message went out.
    pub closed spec fn alert_times(&self) -> Map<Seq<char>, u64> {
        self.tracker.times()
    }

    /// The messages grouped so far, in order.
    pub closed spec fn seen(&self) -> Seq<Seq<char>> {
        self.run.seen@
    }

    /// The groups closed so far, in order: count and message.
    pub closed spec fn groups(&self) -> Seq<(nat, Seq<char>)> {
        self.run.groups@
    }

    /// A processor for `config`, masking with `masker`; in a dry run
    /// nothing is written and no alerts go out.
    pub fn new(config: Config, masker: IpMasker, dry_run: bool) -> (res: Processor)
        ensures
            res.threshold() == config.threshold,
            res.mask_ips() == config.mask_ips,
            res.dry_run() == dry_run,
            res.alert() == config.alert,
            res.exclude_patterns() == config.exclude_patterns@.map_values(|p: String| p@),
            res.include_patterns() == config.include_patterns@.map_values(|p: String| p@),
            res.last().len() == 0,
            res.count() == 0,
            res.stats() == (Stats { total: 0, sent: 0, skipped: 0, excluded: 0 }),
            res.alert_times() == Map::<Seq<char>, u64>::empty(),
            res.seen() == Seq::<Seq<char>>::empty(),
            res.groups() == Seq::<(nat, Seq<char>)>::empty(),
    {
        let exclusion = PatternSet::new(&config.exclude_patterns);
        let inclusion = PatternSet::new(&config.include_patterns);
        let run = RunState::start();
        assert(run.consistent(config.threshold));
        Processor {
            threshold: config.threshold,
            mask_ips: config.mask_ips,
            dry_run,
            alert: config.alert,
            exclusion,
            inclusion,
            masker,
            run,
            tracker: AlertTracker::new(),
        }
    }

    /// The counts so far.
    pub fn current_stats(&self) -> (res: Stats)
        ensures
            res == self.stats(),
    {
        self.run.stats
    }

    /// What `line` comes to: blank, filtered out by the patterns, or a
    /// message to group. The patterns apply to the line as read.
    pub fn classify(&self, line: &str) -> (res: LineClass)
        ensures
            match res {
                LineClass::Blank => is_blank(line@),
                LineClass::Excluded(m) => !is_blank(line@) && m@ == processed(line@, self.mask_ips())
                    && filtered_out(self.exclude_patterns(), self.include_patterns(), line@),
                LineClass::Message(m) => !is_blank(line@) && m@ == processed(line@, self.mask_ips())
                    && !filtered_out(self.exclude_patterns(), self.include_patterns(), line@),
            },
    {
        let chars = chars_of(line);
        if trim_chars(&chars).len() == 0 {
            return LineClass::Blank;
        }
        let extracted = extract_message(line);
        let message = if self.mask_ips {
            self.masker.mask(&extracted)
        } else {
            extracted
        };
        if self.exclusion.matches(line) || (!self.inclusion.is_empty() && !self.inclusion.matches(
            line,
        )) {
            LineClass::Excluded(message)
        } else {
            LineClass::Message(message)
        }
    }

    /// Accepting `class` would overflow a counter, or the cooldown check
    /// would: the cases that the processor leaves to its caller.
    pub open spec fn accept_overflows(&self, class: LineClass) -> bool {
        match class {
            LineClass::Blank => false,
            LineClass::Excluded(_) => self.stats().total == u64::MAX,
            LineClass::Message(m) => {
                ||| self.stats().total == u64::MAX
                ||| m@ == self.last() && self.count() == u32::MAX
                ||| m@ != self.last() && self.closing_overflows()
            },
        }
    }

    /// Closing the open group would overflow the cooldown check.
    pub open spec fn closing_overflows(&self) -> bool {
        &&& self.last().len() > 0
        &&& !self.dry_run()
        &&& cooldown_overflows(self.alert(), self.alert_times(), self.last(), self.count())
    }

    /// Whether accepting `class` would overflow (see `accept_overflows`).
    pub fn check_overflow(&self, class: &LineClass) -> (res: bool)
        ensures
            res == self.accept_overflows(*class),
    {
        match class {
            LineClass::Blank => false,
            LineClass::Excluded(_) => self.run.stats.total == u64::MAX,
            LineClass::Message(m) => {
                if self.run.stats.total == u64::MAX {
                    true
                } else if *m == self.run.last {
                    self.run.count == u32::MAX
                } else {
                    self.check_closing_overflow()
                }
            },
        }
    }

    /// Whether closing the open group would overflow the cooldown check.
    pub fn check_closing_overflow(&self) -> (res: bool)
        ensures
            res == self.closing_overflows(),
    {
        if self.run.last.as_str().is_empty() || self.dry_run {
            return false;
        }
        match &self.alert {
            Some(a) => {
                if self.run.count < a.threshold {
                    return false;
                }
                match a.cooldown_minutes {
                    Some(minutes) => {
                        if self.tracker.last_sent(&self.run.last).is_none() {
                            return false;
                        }
                        minutes > u64::MAX / 60
                    },
                    None => false,
                }
            },
            None => false,
        }
    }

    /// Takes in the next line, as `classify` gave it, at time `now`. A
    /// message equal to the open group's adds to it; another message closes
    /// the open group (where its message is not empty) and opens its own.
    pub fn accept(&mut self, class: LineClass, now: u64) -> (res: Option<ClosedGroup>)
        requires
            !old(self).accept_overflows(class),
        ensures
            accept_post(*old(self), class, now, *final(self), res),
    {
        proof {
            use_type_invariant(&*self);
        }
        let ghost before = *self;
        let mut run = RunState::start();
        std::mem::swap(&mut run, &mut self.run);
        match class {
            LineClass::Blank => {
                self.run = run;
                None
            },
            LineClass::Excluded(_) => {
                run.stats.total = run.stats.total + 1;
                run.stats.excluded = run.stats.excluded + 1;
                self.run = run;
                None
            },
            LineClass::Message(m) => {
                proof {
                    lemma_closed_runs_step(run.seen@, m@);
                    lemma_runs_len(run.seen@);
                    lemma_reported_len(closed_runs(run.seen@));
                }
                run.stats.total = run.stats.total + 1;
                run.seen = Ghost(run.seen@.push(m@));
                if m == run.last {
                    run.count = run.count + 1;
                    self.run = run;
                    None
                } else if run.last.as_str().is_empty() {
                    proof {
                        if before.run.seen@.len() > 0 {
                            assert(reported(runs(before.run.seen@)) == reported(
                                runs(before.run.seen@).drop_last(),
                            ));
                        }
                    }
                    run.last = m;
                    run.count = 1;
                    self.run = run;
                    None
                } else {
                    let mut previous = m;
                    std::mem::swap(&mut previous, &mut run.last);
                    let previous_count = run.count;
                    run.count = 1;
                    let mut tracker = AlertTracker::new();
                    std::mem::swap(&mut tracker, &mut self.tracker);
                    let group = close_group(
                        &mut run.stats,
                        &mut tracker,
                        &self.alert,
                        self.threshold,
                        self.dry_run,
                        previous,
                        previous_count,
                        now,
                    );
                    self.tracker = tracker;
                    run.groups = Ghost(
                        before.run.groups@.push((before.run.count as nat, before.run.last@)),
                    );
                    proof {
                        let r = runs(before.run.seen@);
                        assert(r.drop_last().push(r.last()) =~= r);
                        lemma_kept_count_step(
                            before.run.groups@,
                            (before.run.count as nat, before.run.last@),
                            before.threshold as nat,
                        );
                    }
                    self.run = run;
                    Some(group)
                }
            },
        }
    }

    /// Ends the input at time `now`: the open group closes, where its
    /// message is not empty. Over the whole input, the groups closed are
    /// exactly the runs of repeated messages, but those of the empty message.
    pub fn finish(self, now: u64) -> (res: Finished)
        requires
            !self.closing_overflows(),
        ensures
            finish_post(self, now, res),
    {
        proof {
            use_type_invariant(&self);
        }
        let ghost before = self;
        let mut this = self;
        let mut run = RunState::start();
        std::mem::swap(&mut run, &mut this.run);
        proof {
            lemma_runs_len(before.run.seen@);
            lemma_reported_len(closed_runs(before.run.seen@));
            lemma_reported_len(runs(before.run.seen@));
            if before.run.seen@.len() > 0 {
                let r = runs(before.run.seen@);
                assert(r.drop_last().push(r.last()) =~= r);
            }
        }
        if run.last.as_str().is_empty() {
            return Finished { last_group: None, stats: run.stats };
        }
        let mut message = String::new();
        std::mem::swap(&mut message, &mut run.last);
        let count = run.count;
        let mut tracker = AlertTracker::new();
        std::mem::swap(&mut tracker, &mut this.tracker);
        let group = close_group(
            &mut run.stats,
            &mut tracker,
            &this.alert,
            this.threshold,
            this.dry_run,
            message,
            count,
            now,
        );
        proof {
            lemma_kept_count_step(
                before.run.groups@,
                (before.run.count as nat, before.run.last@),
                before.threshold as nat,
            );
        }
        Finished { last_group: Some(group), stats: run.stats }
    }
}

/// Closes a group of `message` (not empty) repeated `count` times at `now`:
/// decides its alert (none in a dry run) and counts it as kept or skipped.
fn close_group(
    stats: &mut Stats,
    tracker: &mut AlertTracker,
    alert: &Option<AlertConfig>,
    threshold: u32,
    dry_run: bool,
    message: String,
    count: u32,
    now: u64,
) -> (res: ClosedGroup)
    requires
        !dry_run ==> !cooldown_overflows(*alert, old(tracker).times(), message@, count),
        old(stats).sent + old(stats).skipped < u64::MAX,
    ensures
        res.count == count,
        res.message@ == message@,
        res.kept == (count >= threshold),
        res.written == (res.kept && !dry_run),
        dry_run ==> res.alert is NoAlert && final(tracker).times() == old(tracker).times(),
        !dry_run ==> decision_is(res.alert, *alert, old(tracker).times(), message@, count, now)
            && final(tracker).times() == sent_at_after(
            *alert,
            old(tracker).times(),
            message@,
            count,
            now,
        ),
        *final(stats) == stats_after_close(*old(stats), res.kept),
{
    let alert = if dry_run {
        AlertDecision::NoAlert
    } else {
        tracker.decide(alert, &message, count, now)
    };
    let kept = count >= threshold;
    if kept {
        stats.sent = stats.sent + 1;
    } else {
        stats.skipped = stats.skipped + 1;
    }
    ClosedGroup { count, message, kept, written: kept && !dry_run, alert }
}

/// `after` and `res` are what `accept` gives for `class` at `now`, from `before`.
pub open spec fn accept_post(
    before: Processor,
    class: LineClass,
    now: u64,
    after: Processor,
    res: Option<ClosedGroup>,
) -> bool {
    &&& after.threshold() == before.threshold()
    &&& after.mask_ips() == before.mask_ips()
    &&& after.dry_run() == before.dry_run()
    &&& after.alert() == before.alert()
    &&& after.exclude_patterns() == before.exclude_patterns()
    &&& after.include_patterns() == before.include_patterns()
    &&& match class {
        LineClass::Blank => {
            &&& res is None
            &&& after.stats() == before.stats()
            &&& after.seen() == before.seen()
            &&& after.groups() == before.groups()
            &&& after.last() == before.last()
            &&& after.count() == before.count()
            &&& after.alert_times() == before.alert_times()
        },
        LineClass::Excluded(_) => {
            &&& res is None
            &&& after.stats() == (Stats {
                total: (before.stats().total + 1) as u64,
                excluded: (before.stats().excluded + 1) as u64,
                ..before.stats()
            })
            &&& after.seen() == before.seen()
            &&& after.groups() == before.groups()
            &&& after.last() == before.last()
            &&& after.count() == before.count()
            &&& after.alert_times() == before.alert_times()
        },
        LineClass::Message(m) => {
            &&& after.seen() == before.seen().push(m@)
            &&& after.last() == m@
            &&& after.stats().total == before.stats().total + 1
            &&& after.stats().excluded == before.stats().excluded
            &&& if m@ == before.last() {
                &&& res is None
                &&& after.count() == before.count() + 1
                &&& after.groups() == before.groups()
                &&& after.stats().sent == before.stats().sent
                &&& after.stats().skipped == before.stats().skipped
                &&& after.alert_times() == before.alert_times()
            } else if before.last().len() == 0 {
                &&& res is None
                &&& after.count() == 1
                &&& after.groups() == before.groups()
                &&& after.stats().sent == before.stats().sent
                &&& after.stats().skipped == before.stats().skipped
                &&& after.alert_times() == before.alert_times()
            } else {
                &&& after.count() == 1
                &&& res matches Some(g) && closed_as(g, before, now)
                &&& after.alert_times() == times_after_close(before, now)
                &&& after.stats() == stats_after_close(
                    Stats { total: (before.stats().total + 1) as u64, ..before.stats() },
                    before.count() >= before.threshold(),
                )
                &&& after.groups() == before.groups().push((before.count() as nat, before.last()))
            }
        },
    }
}

/// `res` is what `finish` gives at `now` for `before`. Over the whole input,
/// the groups closed are the runs of the messages but those of the empty
/// message, and the counts agree with them.
pub open spec fn finish_post(before: Processor, now: u64, res: Finished) -> bool {
    &&& match res.last_group {
        Some(g) => before.last().len() > 0 && closed_as(g, before, now),
        None => before.last().len() == 0,
    }
    &&& reported(runs(before.seen())) == match res.last_group {
        Some(g) => before.groups().push((g.count as nat, g.message@)),
        None => before.groups(),
    }
    &&& res.stats == match res.last_group {
        Some(g) => stats_after_close(before.stats(), g.kept),
        None => before.stats(),
    }
    &&& res.stats.total == before.seen().len() + res.stats.excluded
    &&& res.stats.sent + res.stats.skipped == reported(runs(before.seen())).len()
    &&& res.stats.sent == kept_count(reported(runs(before.seen())), before.threshold() as nat)
    &&& res.stats.sent + res.stats.skipped + res.stats.excluded <= res.stats.total
}

/// `g` is the group closed from the open group of `before` at `now`.
pub open spec fn closed_as(g: ClosedGroup, before: Processor, now: u64) -> bool {
    &&& g.count == before.count()
    &&& g.message@ == before.last()
    &&& g.kept == (before.count() >= before.threshold())
    &&& g.written == (g.kept && !before.dry_run())
    &&& if before.dry_run() {
        g.alert is NoAlert
    } else {
        decision_is(g.alert, before.alert(), before.alert_times(), before.last(), before.count(), now)
    }
}

/// The alert times after the open group of `before` closed at `now`.
pub open spec fn times_after_close(before: Processor, now: u64) -> Map<Seq<char>, u64> {
    if before.dry_run() {
        before.alert_times()
    } else {
        sent_at_after(before.alert(), before.alert_times(), before.last(), before.count(), now)
    }
}

/// The two processors agree on everything that counts: settings (but the
/// dry-run flag), the open group, the counts, the messages and the groups.
pub open spec fn same_counting(a: Processor, b: Processor) -> bool {
    &&& a.threshold() == b.threshold()
    &&& a.mask_ips() == b.mask_ips()
    &&& a.alert() == b.alert()
    &&& a.exclude_patterns() == b.exclude_patterns()
    &&& a.include_patterns() == b.include_patterns()
    &&& a.last() == b.last()
    &&& a.count() == b.count()
    &&& a.stats() == b.stats()
    &&& a.seen() == b.seen()
    &&& a.groups() == b.groups()
}

/// The group closed in a dry run is the one closed in a normal run, but
/// with no output and no alert.
pub open spec fn same_group_silent(normal: Option<ClosedGroup>, dry: Option<ClosedGroup>) -> bool {
    match (normal, dry) {
        (Some(a), Some(b)) => {
            &&& a.count == b.count
            &&& a.message@ == b.message@
            &&& a.kept == b.kept
            &&& !b.written
            &&& b.alert is NoAlert
        },
        (None, None) => true,
        _ => false,
    }
}

/// Law of the dry run, line by line: a dry run takes in each line as a
/// normal run does (same groups, same counts) but writes nothing, sends no
/// alert and leaves the alert times as they were.
pub proof fn lemma_dry_run_accept(
    normal: Processor,
    dry: Processor,
    class: LineClass,
    now: u64,
    normal_after: Processor,
    dry_after: Processor,
    normal_res: Option<ClosedGroup>,
    dry_res: Option<ClosedGroup>,
)
    requires
        !normal.dry_run(),
        dry.dry_run(),
        same_counting(normal, dry),
        accept_post(normal, class, now, normal_after, normal_res),
        accept_post(dry, class, now, dry_after, dry_res),
    ensures
        same_counting(normal_after, dry_after),
        !normal_after.dry_run(),
        dry_after.dry_run(),
        dry_after.alert_times() == dry.alert_times(),
        same_group_silent(normal_res, dry_res),
{
}

/// Law of the dry run at the end of the input: a dry run ends with the
/// counts of a normal run, its last group unwritten and without alert.
pub proof fn lemma_dry_run_finish(
    normal: Processor,
    dry: Processor,
    now: u64,
    normal_res: Finished,
    dry_res: Finished,
)
    requires
        !normal.dry_run(),
        dry.dry_run(),
        same_counting(normal, dry),
        finish_post(normal, now, normal_res),
        finish_post(dry, now, dry_res),
    ensures
        normal_res.stats == dry_res.stats,
        same_group_silent(normal_res.last_group, dry_res.last_group),
{
}

/// `states` are the processors along a run of `accept` over `lines` (each a
/// class and a time), from `states[0]` on, and `results` what each call gave.
pub open spec fn accept_trace(
    states: Seq<Processor>,
    lines: Seq<(LineClass, u64)>,
    results: Seq<Option<ClosedGroup>>,
) -> bool {
    &&& states.len() == lines.len() + 1
    &&& results.len() == lines.len()
    &&& forall|i: int|
        0 <= i < lines.len() ==> #[trigger] accept_post(
            states[i],
            lines[i].0,
            lines[i].1,
            states[i + 1],
            results[i],
        )
}

proof fn lemma_dry_run_trace_prefix(
    normal: Seq<Processor>,
    dry: Seq<Processor>,
    lines: Seq<(LineClass, u64)>,
    normal_results: Seq<Option<ClosedGroup>>,
    dry_results: Seq<Option<ClosedGroup>>,
    k: int,
)
    requires
        0 <= k <= lines.len(),
        !normal[0].dry_run(),
        dry[0].dry_run(),
        same_counting(normal[0], dry[0]),
        accept_trace(normal, lines, normal_results),
        accept_trace(dry, lines, dry_results),
    ensures
        forall|i: int|
            0 <= i <= k ==> {
                &&& same_counting(#[trigger] normal[i], dry[i])
                &&& !normal[i].dry_run()
                &&& dry[i].dry_run()
                &&& dry[i].alert_times() == dry[0].alert_times()
            },
        forall|i: int| 0 <= i < k ==> same_group_silent(#[trigger] normal_results[i], dry_results[i]),
    decreases k,
{
    if k > 0 {
        lemma_dry_run_trace_prefix(normal, dry, lines, normal_results, dry_results, k - 1);
        let j = k - 1;
        assert(accept_post(normal[j], lines[j].0, lines[j].1, normal[j + 1], normal_results[j]));
        assert(accept_post(dry[j], lines[j].0, lines[j].1, dry[j + 1], dry_results[j]));
        lemma_dry_run_accept(
            normal[j],
            dry[j],
            lines[j].0,
            lines[j].1,
            normal[j + 1],
            dry[j + 1],
            normal_results[j],
            dry_results[j],
        );
    }
}

/// Law of the dry run over a whole input: fed the same lines at the same
/// times, a dry run closes the same groups as a normal run and ends with the
/// same counts, but writes none of its groups, sends no alert and leaves the
/// alert times as they were.
pub proof fn lemma_dry_run_whole_input(
    normal: Seq<Processor>,
    dry: Seq<Processor>,
    lines: Seq<(LineClass, u64)>,
    normal_results: Seq<Option<ClosedGroup>>,
    dry_results: Seq<Option<ClosedGroup>>,
    end: u64,
    normal_end: Finished,
    dry_end: Finished,
)
    requires
        !normal[0].dry_run(),
        dry[0].dry_run(),
        same_counting(normal[0], dry[0]),
        accept_trace(normal, lines, normal_results),
        accept_trace(dry, lines, dry_results),
        finish_post(normal.last(), end, normal_end),
        finish_post(dry.last(), end, dry_end),
    ensures
        forall|i: int|
            0 <= i < lines.len() ==> same_group_silent(#[trigger] normal_results[i], dry_results[i]),
        forall|i: int|
            0 <= i < dry.len() ==> #[trigger] dry[i].alert_times() == dry[0].alert_times(),
        normal_end.stats == dry_end.stats,
        same_group_silent(normal_end.last_group, dry_end.last_group),
{
    let n = lines.len() as int;
    lemma_dry_run_trace_prefix(normal, dry, lines, normal_results, dry_results, n);
    assert(same_counting(normal[n], dry[n]));
    lemma_dry_run_finish(normal[n], dry[n], end, normal_end, dry_end);
    assert forall|i: int| 0 <= i < dry.len() implies #[trigger] dry[i].alert_times()
        == dry[0].alert_times() by {
        assert(same_counting(normal[i], dry[i]));
    }
}

/// Law of masking: with masking on, the addresses are masked in the message
/// extracted from the line, not in the line before extraction; the message
/// is the masked extracted message.
pub proof fn lemma_mask_after_extraction(line: Seq<char>)
    ensures
        processed(line, true) == masked(message_of(line)),
        processed(line, false) == message_of(line),
{
}

/// Law of masking: a line that is neither a JSON record nor holds any `]`
/// keeps its whole trimmed text, only its addresses masked.
pub proof fn lemma_mask_keeps_plain_text(line: Seq<char>)
    requires
        trim(line).len() == 0 || trim(line)[0] != '{',
        forall|i: int| 0 <= i < trim(line).len() ==> trim(line)[i] != ']',
    ensures
        processed(line, true) == masked(trim(line)),
        processed(line, false) == trim(line),
{
    assert(first_index(trim(line), ']') is None);
}

/// Adding one group to the groups adds one to the kept count when it is kept.
proof fn lemma_kept_count_step(g: Seq<(nat, Seq<char>)>, x: (nat, Seq<char>), threshold: nat)
    ensures
        kept_count(g.push(x), threshold) == kept_count(g, threshold) + if x.0 >= threshold {
            1nat
        } else {
            0nat
        },
{
    assert(g.push(x).drop_last() =~= g);
}

} // verus!
