//! The device's command state machine and its scheduler.
//!
//! Commands are applied one at a time by `DeviceState::process_command`. A
//! `Schedule` command is admitted only while a reference time is set; its
//! entry joins a queue kept in order of target time, after the entries due at
//! the same time, and is never removed but by firing. The device has no clock
//! of its own: the reference time stays as the last `SetDateTime` left it, and
//! each scheduler tick (`DeviceState::run_due`) fires, in order, the entries at
//! the head of the queue that it has reached. `Reset` keeps the queue.
use crate::date_time::{at_or_before, is_at_or_before, lemma_total_order, SDateTime};
use crate::message::{Command, Funct, Payload, RejectReason, Response};
use vstd::prelude::*;

verus! {

/// A function waiting for the reference time to reach its target time.
pub type Entry = (SDateTime, Funct);

/// The device's state, as the contracts see it.
pub struct DeviceModel {
    /// The counter; only `Reset` lowers it.
    pub counter: u64,
    /// The blink period in milliseconds; 0 when blinking is off.
    pub blink_interval_ms: u64,
    /// Whether the RGB led is on.
    pub rgb_enabled: bool,
    /// The externally supplied current time, if any.
    pub reference_time: Option<SDateTime>,
    /// Scheduled functions, in order of target time.
    pub schedule: Seq<Entry>,
}

/// The entries are in non-decreasing order of target time.
pub open spec fn sorted(q: Seq<Entry>) -> bool {
    forall|i: int, j: int| 0 <= i < j < q.len() ==> at_or_before(q[i].0, q[j].0)
}

/// Number of entries at the head of `q` whose target time is at or before
/// `t`.
pub open spec fn count_due(q: Seq<Entry>, t: SDateTime) -> nat
    decreases q.len(),
{
    if q.len() > 0 && at_or_before(q[0].0, t) {
        1 + count_due(q.subrange(1, q.len() as int), t)
    } else {
        0
    }
}

/// The effect of carrying out a function.
pub open spec fn apply_funct(m: DeviceModel, f: Funct) -> DeviceModel {
    match f {
        Funct::Increment => DeviceModel {
            counter: if m.counter < u64::MAX {
                (m.counter + 1) as u64
            } else {
                m.counter
            },
            ..m
        },
        Funct::EnableBlink { period_ms } => DeviceModel { blink_interval_ms: period_ms, ..m },
        Funct::DisableBlink => DeviceModel { blink_interval_ms: 0, ..m },
        Funct::EnableRgb => DeviceModel { rgb_enabled: true, ..m },
        Funct::DisableRgb => DeviceModel { rgb_enabled: false, ..m },
    }
}

/// The effect of carrying out the functions of `fs` in order.
pub open spec fn apply_functs(m: DeviceModel, fs: Seq<Funct>) -> DeviceModel
    decreases fs.len(),
{
    if fs.len() == 0 {
        m
    } else {
        apply_funct(apply_functs(m, fs.drop_last()), fs.last())
    }
}

/// The state after a command, and the response to it.
pub open spec fn step(m: DeviceModel, c: Command) -> (DeviceModel, Response) {
    match c {
        Command::Reset => (
            DeviceModel {
                counter: 0,
                blink_interval_ms: 0,
                rgb_enabled: false,
                reference_time: None,
                ..m
            },
            Response::Accepted(None),
        ),
        Command::Counter => (m, Response::Accepted(Some(Payload::Counter(m.counter)))),
        Command::SetDateTime(t) => (DeviceModel { reference_time: t, ..m }, Response::Accepted(None)),
        Command::Immediate(f) => (apply_funct(m, f), Response::Accepted(None)),
        Command::Schedule(f, t) => {
            if m.reference_time is None {
                (m, Response::Rejected(RejectReason::IllegalCommand))
            } else {
                (
                    DeviceModel { schedule: m.schedule.insert(count_due(m.schedule, t) as int, (t, f)), ..m },
                    Response::Accepted(None),
                )
            }
        },
    }
}

/// The state after the commands of `cmds` in order, and the responses to
/// them.
pub open spec fn run(m: DeviceModel, cmds: Seq<Command>) -> (DeviceModel, Seq<Response>)
    decreases cmds.len(),
{
    if cmds.len() == 0 {
        (m, Seq::empty())
    } else {
        let (m1, rs) = run(m, cmds.drop_last());
        let (m2, r) = step(m1, cmds.last());
        (m2, rs.push(r))
    }
}

/// The state after a scheduler tick: the entries at the head of the queue
/// that are due at the reference time are carried out in order and retired.
pub open spec fn tick(m: DeviceModel) -> DeviceModel {
    match m.reference_time {
        None => m,
        Some(now) => {
            let k = count_due(m.schedule, now) as int;
            DeviceModel {
                schedule: m.schedule.subrange(k, m.schedule.len() as int),
                ..apply_functs(m, m.schedule.subrange(0, k).map_values(|e: Entry| e.1))
            }
        },
    }
}

/// `count_due` counts the due entries at the head of `q`: if the first `i`
/// entries are due, it is `i` plus the count of the rest.
proof fn lemma_count_due_split(q: Seq<Entry>, t: SDateTime, i: int)
    requires
        0 <= i <= q.len(),
        forall|j: int| 0 <= j < i ==> at_or_before(#[trigger] q[j].0, t),
    ensures
        count_due(q, t) == i + count_due(q.subrange(i, q.len() as int), t),
    decreases i,
{
    if i == 0 {
        assert(q.subrange(0, q.len() as int) =~= q);
    } else {
        let r = q.subrange(1, q.len() as int);
        assert forall|j: int| 0 <= j < i - 1 implies at_or_before(#[trigger] r[j].0, t) by {
            assert(r[j] == q[j + 1]);
        }
        lemma_count_due_split(r, t, i - 1);
        assert(r.subrange(i - 1, r.len() as int) =~= q.subrange(i, q.len() as int));
    }
}

/// In a sorted queue the due entries are exactly the first `count_due`.
proof fn lemma_count_due_sorted(q: Seq<Entry>, t: SDateTime)
    requires
        sorted(q),
    ensures
        count_due(q, t) <= q.len(),
        forall|j: int| 0 <= j < count_due(q, t) ==> at_or_before(#[trigger] q[j].0, t),
        forall|j: int| count_due(q, t) <= j < q.len() ==> !at_or_before(#[trigger] q[j].0, t),
    decreases q.len(),
{
    if q.len() > 0 {
        let r = q.subrange(1, q.len() as int);
        assert(sorted(r)) by {
            assert forall|i: int, j: int| 0 <= i < j < r.len() implies at_or_before(r[i].0, r[j].0) by {
                assert(r[i] == q[i + 1] && r[j] == q[j + 1]);
            }
        }
        lemma_count_due_sorted(r, t);
        if at_or_before(q[0].0, t) {
            assert forall|j: int| 0 <= j < count_due(q, t) implies at_or_before(#[trigger] q[j].0, t) by {
                if j > 0 {
                    assert(q[j] == r[j - 1]);
                }
            }
            assert forall|j: int| count_due(q, t) <= j < q.len() implies !at_or_before(#[trigger] q[j].0, t) by {
                assert(q[j] == r[j - 1]);
            }
        } else {
            assert forall|j: int| 0 <= j < q.len() implies !at_or_before(#[trigger] q[j].0, t) by {
                lemma_total_order(q[0].0, q[j].0, t);
                lemma_total_order(q[0].0, t, q[j].0);
                lemma_total_order(q[j].0, t, q[0].0);
                if j > 0 {
                    assert(at_or_before(q[0].0, q[j].0));
                }
            }
        }
    }
}

/// Inserting an entry after the entries due at its target time keeps a queue
/// sorted.
proof fn lemma_insert_sorted(q: Seq<Entry>, e: Entry)
    requires
        sorted(q),
    ensures
        sorted(q.insert(count_due(q, e.0) as int, e)),
{
    lemma_count_due_sorted(q, e.0);
    let k = count_due(q, e.0) as int;
    let n = q.insert(k, e);
    assert forall|i: int, j: int| 0 <= i < j < n.len() implies at_or_before(n[i].0, n[j].0) by {
        lemma_total_order(n[i].0, e.0, n[j].0);
        lemma_total_order(e.0, n[j].0, n[i].0);
        lemma_total_order(n[i].0, n[j].0, e.0);
        if i < k && j > k {
            assert(at_or_before(n[i].0, e.0));
            assert(!at_or_before(n[j].0, e.0));
        }
    }
}

/// Carrying out functions changes neither the reference time nor the queue.
proof fn lemma_apply_functs_frame(m: DeviceModel, fs: Seq<Funct>)
    ensures
        apply_functs(m, fs).reference_time == m.reference_time,
        apply_functs(m, fs).schedule == m.schedule,
    decreases fs.len(),
{
    if fs.len() > 0 {
        lemma_apply_functs_frame(m, fs.drop_last());
    }
}

/// Without a reference time (as after start-up, `Reset` or
/// `SetDateTime(None)`), `Schedule` is rejected as illegal and changes
/// nothing. Once `SetDateTime(Some(_))` has set one, the same command is
/// accepted and adds its entry to the queue, after every entry due at its
/// target time, keeping the queue in order; nothing else changes.
pub proof fn lemma_schedule_gate(m: DeviceModel, f: Funct, t: SDateTime, now: SDateTime)
    ensures
        initial_model().reference_time is None,
        step(m, Command::Reset).0.reference_time is None,
        step(m, Command::SetDateTime(None)).0.reference_time is None,
        m.reference_time is None ==> step(m, Command::Schedule(f, t)) == (
            m,
            Response::Rejected(RejectReason::IllegalCommand),
        ),
        ({
            let m1 = step(m, Command::SetDateTime(Some(now))).0;
            let q = m.schedule.insert(count_due(m.schedule, t) as int, (t, f));
            &&& step(m1, Command::Schedule(f, t)) == (
                DeviceModel { schedule: q, ..m1 },
                Response::Accepted(None),
            )
            &&& q.len() == m.schedule.len() + 1
            &&& q.to_multiset() == m.schedule.to_multiset().insert((t, f))
            &&& sorted(m.schedule) ==> sorted(q)
        }),
{
    if sorted(m.schedule) {
        lemma_insert_sorted(m.schedule, (t, f));
    }
    lemma_count_due_le(m.schedule, t);
    let k = count_due(m.schedule, t) as int;
    let a = m.schedule.subrange(0, k);
    let b = m.schedule.subrange(k, m.schedule.len() as int);
    assert(m.schedule =~= a + b);
    assert(m.schedule.insert(k, (t, f)) =~= a.push((t, f)) + b);
    vstd::seq_lib::lemma_multiset_commutative(a, b);
    vstd::seq_lib::lemma_multiset_commutative(a.push((t, f)), b);
    a.to_multiset_ensures();
}

/// `count_due` never exceeds the length of the queue.
proof fn lemma_count_due_le(q: Seq<Entry>, t: SDateTime)
    ensures
        count_due(q, t) <= q.len(),
    decreases q.len(),
{
    if q.len() > 0 {
        lemma_count_due_le(q.subrange(1, q.len() as int), t);
    }
}

/// `n` copies of `Immediate(Increment)`.
pub open spec fn increments(n: nat) -> Seq<Command> {
    Seq::new(n, |i: int| Command::Immediate(Funct::Increment))
}

/// Each of `n` increments, where the counter does not reach its limit, raises
/// the counter by exactly one and is accepted, as a `Counter` query then
/// reports; nothing else changes. `Reset` brings the counter back to 0.
pub proof fn lemma_counter_increments(m: DeviceModel, n: nat)
    requires
        m.counter + n <= u64::MAX,
    ensures
        run(m, increments(n)).0 == (DeviceModel { counter: (m.counter + n) as u64, ..m }),
        forall|i: int| 0 <= i < n ==> #[trigger] run(m, increments(n)).1[i] == Response::Accepted(None),
        run(m, increments(n)).1.len() == n,
        step(run(m, increments(n)).0, Command::Counter).1 == Response::Accepted(
            Some(Payload::Counter((m.counter + n) as u64)),
        ),
        step(m, Command::Reset).0.counter == 0,
    decreases n,
{
    if n > 0 {
        lemma_counter_increments(m, (n - 1) as nat);
        assert(increments(n).drop_last() =~= increments((n - 1) as nat));
    }
}

/// Disabling blinking, or the RGB led, twice in a row gives the same state
/// and response as doing it once.
pub proof fn lemma_disable_idempotent(m: DeviceModel)
    ensures
        step(step(m, Command::Immediate(Funct::DisableBlink)).0, Command::Immediate(Funct::DisableBlink))
            == step(m, Command::Immediate(Funct::DisableBlink)),
        step(step(m, Command::Immediate(Funct::DisableRgb)).0, Command::Immediate(Funct::DisableRgb))
            == step(m, Command::Immediate(Funct::DisableRgb)),
{
}

/// The state of the device: a counter, the blink period, the RGB led, the
/// reference time and the queue of scheduled functions.
#[derive(Clone, Debug, PartialEq, Eq)]
pub struct DeviceState {
    counter: u64,
    blink_interval_ms: u64,
    rgb_enabled: bool,
    reference_time: Option<SDateTime>,
    schedule: Vec<Entry>,
}

impl View for DeviceState {
    type V = DeviceModel;

    closed spec fn view(&self) -> DeviceModel {
        DeviceModel {
            counter: self.counter,
            blink_interval_ms: self.blink_interval_ms,
            rgb_enabled: self.rgb_enabled,
            reference_time: self.reference_time,
            schedule: self.schedule@,
        }
    }
}

/// The state of a device that has just started.
pub open spec fn initial_model() -> DeviceModel {
    DeviceModel {
        counter: 0,
        blink_interval_ms: 0,
        rgb_enabled: false,
        reference_time: None,
        schedule: Seq::empty(),
    }
}

impl DeviceState {
    /// The queue is kept in order of target time.
    pub open spec fn wf(&self) -> bool {
        sorted(self@.schedule)
    }

    /// A device that has just started: counter zero, blinking and the RGB led
    /// off, no reference time and nothing scheduled.
    pub fn new() -> (r: DeviceState)
        ensures
            r.wf(),
            r@ == initial_model(),
    {
        DeviceState {
            counter: 0,
            blink_interval_ms: 0,
            rgb_enabled: false,
            reference_time: None,
            schedule: Vec::new(),
        }
    }

    /// Adds one to the counter; it stays at `u64::MAX` once there.
    fn increment_counter(&mut self)
        ensures
            final(self)@ == apply_funct(old(self)@, Funct::Increment),
    {
        if self.counter < u64::MAX {
            self.counter = self.counter + 1;
        }
    }

    /// Sets the blink period; 0 stops blinking.
    fn set_led_interval(&mut self, ms: u64)
        ensures
            final(self)@ == (DeviceModel { blink_interval_ms: ms, ..old(self)@ }),
    {
        self.blink_interval_ms = ms;
    }

    /// Clears the counter, the blink period, the RGB led and the reference
    /// time. The queue is kept.
    fn reset(&mut self)
        ensures
            final(self)@ == step(old(self)@, Command::Reset).0,
    {
        self.counter = 0;
        self.blink_interval_ms = 0;
        self.rgb_enabled = false;
        self.reference_time = None;
    }

    /// Carries out a function now.
    pub fn process_funct(&mut self, f: Funct) -> (r: Response)
        requires
            old(self).wf(),
        ensures
            final(self).wf(),
            final(self)@ == apply_funct(old(self)@, f),
            r == Response::Accepted(None),
    {
        match f {
            Funct::Increment => self.increment_counter(),
            Funct::EnableBlink { period_ms } => self.set_led_interval(period_ms),
            Funct::DisableBlink => self.set_led_interval(0),
            Funct::EnableRgb => self.rgb_enabled = true,
            Funct::DisableRgb => self.rgb_enabled = false,
        }
        Response::Accepted(None)
    }

    /// Number of entries at the head of the queue that are due at `t`.
    fn due_count(&self, t: &SDateTime) -> (k: usize)
        ensures
            k == count_due(self@.schedule, *t),
    {
        let mut i: usize = 0;
        while i < self.schedule.len() && is_at_or_before(&self.schedule[i].0, t)
            invariant
                i <= self.schedule@.len(),
                forall|j: int| 0 <= j < i ==> at_or_before(#[trigger] self.schedule@[j].0, *t),
            decreases self.schedule@.len() - i,
        {
            i = i + 1;
        }
        proof {
            lemma_count_due_split(self.schedule@, *t, i as int);
        }
        i
    }

    /// Applies one command and returns the response to it.
    pub fn process_command(&mut self, cmd: Command) -> (r: Response)
        requires
            old(self).wf(),
        ensures
            final(self).wf(),
            (final(self)@, r) == step(old(self)@, cmd),
    {
        match cmd {
            Command::Reset => {
                self.reset();
                Response::Accepted(None)
            },
            Command::Counter => Response::Accepted(Some(Payload::Counter(self.counter))),
            Command::SetDateTime(t) => {
                self.reference_time = t;
                Response::Accepted(None)
            },
            Command::Immediate(f) => self.process_funct(f),
            Command::Schedule(f, t) => {
                if self.reference_time.is_none() {
                    return Response::Rejected(RejectReason::IllegalCommand);
                }
                let k = self.due_count(&t);
                proof {
                    lemma_count_due_sorted(self.schedule@, t);
                    lemma_insert_sorted(self.schedule@, (t, f));
                }
                self.schedule.insert(k, (t, f));
                Response::Accepted(None)
            },
        }
    }

    /// One tick of the scheduler: carries out, in order, the entries at the
    /// head of the queue whose target time the reference time has reached,
    /// retires them, and returns their functions.
    pub fn run_due(&mut self) -> (fired: Vec<Funct>)
        requires
            old(self).wf(),
        ensures
            final(self).wf(),
            final(self)@ == tick(old(self)@),
            fired@ == (match old(self)@.reference_time {
                None => Seq::empty(),
                Some(now) => old(self)@.schedule.subrange(
                    0,
                    count_due(old(self)@.schedule, now) as int,
                ).map_values(|e: Entry| e.1),
            }),
    {
        let ghost m0 = self@;
        let now = match self.reference_time {
            None => return Vec::new(),
            Some(t) => t,
        };
        let k = self.due_count(&now);
        proof {
            lemma_count_due_sorted(self.schedule@, now);
        }
        let mut due = self.schedule.split_off(k);
        core::mem::swap(&mut self.schedule, &mut due);
        let ghost rest = self.schedule@;
        let ghost fs = m0.schedule.subrange(0, k as int).map_values(|e: Entry| e.1);
        assert(due@ =~= m0.schedule.subrange(0, k as int));
        assert(sorted(rest)) by {
            assert forall|i: int, j: int| 0 <= i < j < rest.len() implies at_or_before(rest[i].0, rest[j].0) by {
                assert(rest[i] == m0.schedule[i + k] && rest[j] == m0.schedule[j + k]);
            }
        }
        let mut fired: Vec<Funct> = Vec::new();
        let mut i: usize = 0;
        while i < due.len()
            invariant
                i <= due@.len(),
                due@.len() == k,
                due@ == m0.schedule.subrange(0, k as int),
                fs == due@.map_values(|e: Entry| e.1),
                self.schedule@ == rest,
                sorted(rest),
                self@ == (DeviceModel { schedule: rest, ..apply_functs(m0, fs.take(i as int)) }),
                fired@ == fs.take(i as int),
            decreases due@.len() - i,
        {
            let f = due[i].1;
            assert(fs.take(i + 1).drop_last() =~= fs.take(i as int));
            self.process_funct(f);
            fired.push(f);
            i = i + 1;
            assert(fired@ =~= fs.take(i as int));
        }
        proof {
            assert(fs.take(k as int) =~= fs);
            lemma_apply_functs_frame(m0, fs);
        }
        fired
    }

    /// The counter.
    pub fn counter(&self) -> (r: u64)
        ensures
            r == self@.counter,
    {
        self.counter
    }

    /// The blink period in milliseconds; 0 when blinking is off.
    pub fn blink_interval_ms(&self) -> (r: u64)
        ensures
            r == self@.blink_interval_ms,
    {
        self.blink_interval_ms
    }

    /// Whether the RGB led is on.
    pub fn rgb_enabled(&self) -> (r: bool)
        ensures
            r == self@.rgb_enabled,
    {
        self.rgb_enabled
    }

    /// The reference time, if set.
    pub fn reference_time(&self) -> (r: Option<SDateTime>)
        ensures
            r == self@.reference_time,
    {
        self.reference_time
    }

    /// The scheduled entries, in order of target time.
    pub fn schedule(&self) -> (r: &[Entry])
        ensures
            r@ == self@.schedule,
    {
        self.schedule.as_slice()
    }
}

/// How long the blink loop waits between turns while blinking is off.
pub const BLINK_IDLE_POLL_MS: u64 = 200;

/// One turn of the blink loop, given the blink period and whether the led is
/// on: the led's next level and how many milliseconds to wait. With blinking
/// off the led is turned off; otherwise it is toggled once per period.
pub fn blink_step(interval_ms: u64, led_on: bool) -> (r: (bool, u64))
    ensures
        interval_ms == 0 ==> r == (false, BLINK_IDLE_POLL_MS),
        interval_ms != 0 ==> r == (!led_on, interval_ms),
{
    if interval_ms == 0 {
        (false, BLINK_IDLE_POLL_MS)
    } else {
        (!led_on, interval_ms)
    }
}

} // verus!
