//! The script worker: what it asks of the interpreter for each event of the
//! host, and what it publishes once the interpreter has answered.
//!
//! The interpreter itself is not part of this crate. The thread that hosts
//! it runs a loop: wait for a host event, let the worker turn it into an
//! order, carry the order out, and let the worker settle the report. The
//! worker decides; the loop only carries.
use vstd::prelude::*;
use crate::channel::{grew, Fate, Offer, Outbox};
use crate::events::{
    CaptureFrame, EngineEvent, FrameView, HostEvent, HostEventView, ScriptEvent, ScriptEventView,
};

verus! {

/// Where the worker stands in its life.
#[derive(Clone, Copy, Debug, PartialEq, Eq, Structural)]
pub enum Phase {
    /// The interpreter is not up yet.
    Starting,
    /// The interpreter is up and no script is installed.
    Idle,
    /// A script is installed.
    Running,
    /// The worker ended because it was told to.
    Terminated,
    /// The interpreter is beyond repair.
    Panicked,
}

/// Whether the worker has ended for good.
pub open spec fn terminal(phase: Phase) -> bool {
    phase is Terminated || phase is Panicked
}

/// What the worker asks of the interpreter.
#[derive(Clone, Debug, PartialEq, Eq)]
pub enum Order {
    /// There is nothing to do.
    Nothing,
    /// Discard the installed script, then compile and run `source`.
    Install { name: String, source: String },
    /// Discard the installed script.
    Uninstall,
    /// Hand `frame` to the callback that the script `script` installed.
    Call { script: String, frame: CaptureFrame },
    /// Shut the interpreter down.
    Finish,
}

pub enum OrderView {
    Nothing,
    Install { name: Seq<char>, source: Seq<char> },
    Uninstall,
    Call { script: Seq<char>, frame: FrameView },
    Finish,
}

impl View for Order {
    type V = OrderView;

    open spec fn view(&self) -> OrderView {
        match self {
            Order::Nothing => OrderView::Nothing,
            Order::Install { name, source } => OrderView::Install { name: name@, source: source@ },
            Order::Uninstall => OrderView::Uninstall,
            Order::Call { script, frame } => OrderView::Call { script: script@, frame: frame@ },
            Order::Finish => OrderView::Finish,
        }
    }
}

/// How the interpreter fared with an order.
#[derive(Clone, Debug, PartialEq, Eq)]
pub enum Outcome {
    /// The order was carried out.
    Done,
    /// User code failed and says why; the interpreter goes on.
    Failed(String),
    /// User code ran beyond its time and was interrupted.
    TimedOut,
    /// The interpreter cannot go on and says why.
    Crashed(String),
}

pub enum OutcomeView {
    Done,
    Failed(Seq<char>),
    TimedOut,
    Crashed(Seq<char>),
}

impl View for Outcome {
    type V = OutcomeView;

    open spec fn view(&self) -> OutcomeView {
        match self {
            Outcome::Done => OutcomeView::Done,
            Outcome::Failed(text) => OutcomeView::Failed(text@),
            Outcome::TimedOut => OutcomeView::TimedOut,
            Outcome::Crashed(text) => OutcomeView::Crashed(text@),
        }
    }
}

/// What the interpreter reports of an order: the events that user code
/// emitted through the host calls, oldest first, and how it ended.
pub struct Report {
    pub emitted: Vec<ScriptEvent>,
    pub outcome: Outcome,
}

pub struct ReportView {
    pub emitted: Seq<ScriptEventView>,
    pub outcome: OutcomeView,
}

impl View for Report {
    type V = ReportView;

    open spec fn view(&self) -> ReportView {
        ReportView { emitted: crate::channel::views(self.emitted@), outcome: self.outcome@ }
    }
}

/// The order whose report the worker waits for.
pub enum Pending {
    Nothing,
    Install(Seq<char>),
    Uninstall,
    Call,
    Finish,
}

/// What the contracts see of the worker.
pub struct WorkerView {
    pub phase: Phase,
    /// Name of the installed script.
    pub script: Option<Seq<char>>,
    pub pending: Pending,
    /// Every script event that the worker offered to the application's
    /// queue, oldest first. An event that was offered again is on record
    /// once for each attempt.
    pub published: Seq<ScriptEventView>,
    /// Every report that the worker made on its own life, oldest first.
    pub reported: Seq<EngineEvent>,
}

/// The alert that tells the user that a script ran beyond its time.
pub open spec fn timeout_text() -> Seq<char> {
    "the script ran too long and was interrupted"@
}

/// The worker after the interpreter came up, or failed to.
pub open spec fn booted(w: WorkerView, ready: bool) -> WorkerView {
    if !(w.phase is Starting) {
        w
    } else if ready {
        WorkerView { phase: Phase::Idle, ..w }
    } else {
        WorkerView { phase: Phase::Panicked, reported: w.reported.push(EngineEvent::Panicked), ..w }
    }
}

/// The order that `event` calls for.
pub open spec fn ordered(w: WorkerView, event: HostEventView) -> OrderView {
    if terminal(w.phase) {
        OrderView::Nothing
    } else {
        match event {
            HostEventView::Terminate => OrderView::Finish,
            HostEventView::LoadScript { name, source } => if w.phase is Starting {
                OrderView::Nothing
            } else {
                OrderView::Install { name, source }
            },
            HostEventView::Stop => if w.phase is Starting {
                OrderView::Nothing
            } else {
                OrderView::Uninstall
            },
            HostEventView::Midi(frame) | HostEventView::Audio(frame) => match w.script {
                Some(script) => if w.phase is Running {
                    OrderView::Call { script, frame }
                } else {
                    OrderView::Nothing
                },
                None => OrderView::Nothing,
            },
            _ => OrderView::Nothing,
        }
    }
}

/// The worker after it turned `event` into an order. An order to install a
/// script supersedes the script that was installed.
pub open spec fn dispatched(w: WorkerView, event: HostEventView) -> WorkerView {
    match ordered(w, event) {
        OrderView::Nothing => WorkerView { pending: Pending::Nothing, ..w },
        OrderView::Install { name, .. } => WorkerView {
            pending: Pending::Install(name),
            script: None,
            phase: Phase::Idle,
            ..w
        },
        OrderView::Uninstall => WorkerView {
            pending: Pending::Uninstall,
            script: None,
            phase: Phase::Idle,
            ..w
        },
        OrderView::Call { .. } => WorkerView { pending: Pending::Call, ..w },
        OrderView::Finish => WorkerView { pending: Pending::Finish, ..w },
    }
}

/// The worker after the interpreter crashed and said `text`.
pub open spec fn crashed(w: WorkerView, text: Seq<char>) -> WorkerView {
    WorkerView {
        phase: Phase::Panicked,
        script: None,
        pending: Pending::Nothing,
        published: w.published.push(ScriptEventView::Alert(text)),
        reported: w.reported.push(EngineEvent::Panicked),
    }
}

/// The worker after it told the user `text`.
pub open spec fn alerted(w: WorkerView, text: Seq<char>) -> WorkerView {
    WorkerView {
        pending: Pending::Nothing,
        published: w.published.push(ScriptEventView::Alert(text)),
        ..w
    }
}

/// `count` times `Loaded`.
pub open spec fn confirmations(count: nat) -> Seq<ScriptEventView> {
    Seq::new(count, |i: int| ScriptEventView::Loaded)
}

/// The worker after the interpreter reported on the pending order.
/// `attempts` is how often `Loaded` was offered, where the report calls for
/// it: the queue decides how often it has to be.
pub open spec fn settled(w: WorkerView, report: ReportView, attempts: nat) -> WorkerView {
    match w.pending {
        Pending::Nothing => w,
        Pending::Finish => WorkerView {
            phase: Phase::Terminated,
            script: None,
            pending: Pending::Nothing,
            reported: w.reported.push(EngineEvent::Terminated),
            ..w
        },
        Pending::Install(name) => match report.outcome {
            OutcomeView::Done => WorkerView {
                phase: Phase::Running,
                script: Some(name),
                pending: Pending::Nothing,
                published: w.published + report.emitted + confirmations(attempts),
                ..w
            },
            OutcomeView::Failed(text) => alerted(w, text),
            OutcomeView::TimedOut => alerted(w, timeout_text()),
            OutcomeView::Crashed(text) => crashed(w, text),
        },
        Pending::Uninstall => match report.outcome {
            OutcomeView::Crashed(text) => crashed(w, text),
            _ => WorkerView { pending: Pending::Nothing, ..w },
        },
        Pending::Call => match report.outcome {
            OutcomeView::Done => WorkerView {
                pending: Pending::Nothing,
                published: w.published + report.emitted,
                ..w
            },
            OutcomeView::Failed(text) => alerted(w, text),
            OutcomeView::TimedOut => alerted(w, timeout_text()),
            OutcomeView::Crashed(text) => crashed(w, text),
        },
    }
}

/// The worker after one turn of its loop: `event` became an order and the
/// interpreter answered `report`.
pub open spec fn stepped(w: WorkerView, event: HostEventView, report: ReportView, attempts: nat)
    -> WorkerView {
    settled(dispatched(w, event), report, attempts)
}

/// One turn of the worker's loop, as the contracts see it.
pub struct Turn {
    pub event: HostEventView,
    pub report: ReportView,
    /// How often `Loaded` was offered, where the turn loaded a script.
    pub attempts: nat,
}

/// The worker after a run of turns, oldest first.
pub open spec fn ran(w: WorkerView, turns: Seq<Turn>) -> WorkerView
    decreases turns.len(),
{
    if turns.len() == 0 {
        w
    } else {
        let before = ran(w, turns.drop_last());
        stepped(before, turns.last().event, turns.last().report, turns.last().attempts)
    }
}

/// Whether the interpreter survived every turn.
pub open spec fn crash_free(turns: Seq<Turn>) -> bool {
    forall|i: int| 0 <= i < turns.len() ==> !(#[trigger] turns[i].report.outcome is Crashed)
}

/// Whether the host asked the worker to end in one of the turns.
pub open spec fn has_terminate(turns: Seq<Turn>) -> bool {
    exists|i: int| 0 <= i < turns.len() && #[trigger] turns[i].event is Terminate
}

/// Whether `event` leaves the installed script in place.
pub open spec fn keeps_script(event: HostEventView) -> bool {
    !(event is LoadScript) && !(event is Stop) && !(event is Terminate)
}

/// As long as the interpreter survives, the worker ends exactly when the
/// host asks it to, and reports its end once: before the first `Terminate`
/// it has reported nothing, after it exactly `Terminated`.
pub proof fn lemma_run_ends_once(w: WorkerView, turns: Seq<Turn>)
    requires
        !terminal(w.phase),
        crash_free(turns),
    ensures
        has_terminate(turns) ==> ran(w, turns).phase is Terminated && ran(w, turns).reported
            == w.reported.push(EngineEvent::Terminated),
        !has_terminate(turns) ==> !terminal(ran(w, turns).phase) && ran(w, turns).reported
            == w.reported,
    decreases turns.len(),
{
    if turns.len() > 0 {
        let front = turns.drop_last();
        assert forall|i: int| 0 <= i < front.len() implies !(
        #[trigger] front[i].report.outcome is Crashed) by {
            assert(front[i] == turns[i]);
        }
        lemma_run_ends_once(w, front);
        assert(!(turns[turns.len() - 1].report.outcome is Crashed));
        if has_terminate(front) {
            let i = choose|i: int| 0 <= i < front.len() && #[trigger] front[i].event is Terminate;
            assert(turns[i].event is Terminate);
        } else if turns.last().event is Terminate {
            assert(turns[turns.len() - 1].event is Terminate);
        } else {
            assert forall|i: int| 0 <= i < turns.len() implies !(
            #[trigger] turns[i].event is Terminate) by {
                if i < front.len() {
                    assert(front[i] == turns[i]);
                }
            }
        }
    }
}

/// Every run of host events that ends in `Terminate` ends the worker, and
/// the worker reports `Terminated` exactly once, provided that the
/// interpreter survives the run.
pub proof fn lemma_terminate_ends_the_worker(w: WorkerView, turns: Seq<Turn>)
    requires
        !terminal(w.phase),
        crash_free(turns),
        turns.len() > 0,
        turns.last().event is Terminate,
    ensures
        ran(w, turns).phase is Terminated,
        ran(w, turns).reported == w.reported.push(EngineEvent::Terminated),
{
    assert(turns[turns.len() - 1].event is Terminate);
    lemma_run_ends_once(w, turns);
}

/// A worker that has ended stays as it is, whatever the host sends.
pub proof fn lemma_terminal_is_final(w: WorkerView, turns: Seq<Turn>)
    requires
        terminal(w.phase),
        w.pending is Nothing,
    ensures
        ran(w, turns) == w,
    decreases turns.len(),
{
    if turns.len() > 0 {
        lemma_terminal_is_final(w, turns.drop_last());
    }
}

/// While no event replaces or stops the installed script and the
/// interpreter survives, the script stays installed.
pub proof fn lemma_script_stays(w: WorkerView, script: Seq<char>, turns: Seq<Turn>)
    requires
        w.phase is Running,
        w.script == Some(script),
        crash_free(turns),
        forall|i: int| 0 <= i < turns.len() ==> keeps_script(#[trigger] turns[i].event),
    ensures
        ran(w, turns).phase is Running,
        ran(w, turns).script == Some(script),
    decreases turns.len(),
{
    if turns.len() > 0 {
        let front = turns.drop_last();
        assert forall|i: int| 0 <= i < front.len() implies !(
        #[trigger] front[i].report.outcome is Crashed) && keeps_script(front[i].event) by {
            assert(front[i] == turns[i]);
        }
        lemma_script_stays(w, script, front);
        assert(keeps_script(turns[turns.len() - 1].event));
        assert(!(turns[turns.len() - 1].report.outcome is Crashed));
    }
}

/// Once the worker has confirmed the script `name`, every frame that the
/// host sends is handed to the callbacks of `name`, and of no script that
/// was installed before, until the host loads or stops a script.
pub proof fn lemma_calls_reach_the_loaded_script(
    w: WorkerView,
    name: Seq<char>,
    source: Seq<char>,
    loading: ReportView,
    attempts: nat,
    later: Seq<Turn>,
    frame: FrameView,
)
    requires
        !terminal(w.phase),
        !(w.phase is Starting),
        loading.outcome is Done,
        attempts >= 1,
        crash_free(later),
        forall|i: int| 0 <= i < later.len() ==> keeps_script(#[trigger] later[i].event),
    ensures
        ({
            let loaded = stepped(w, HostEventView::LoadScript { name, source }, loading, attempts);
            let now = ran(loaded, later);
            &&& loaded.published.last() == ScriptEventView::Loaded
            &&& ordered(now, HostEventView::Midi(frame)) == (OrderView::Call { script: name, frame })
            &&& ordered(now, HostEventView::Audio(frame)) == (OrderView::Call {
                script: name,
                frame,
            })
        }),
{
    let loaded = stepped(w, HostEventView::LoadScript { name, source }, loading, attempts);
    lemma_script_stays(loaded, name, later);
}

/// A script that failed to load, or that the host stopped, gets no frame:
/// the bindings of the script before it are gone too.
pub proof fn lemma_no_script_no_call(
    w: WorkerView,
    event: HostEventView,
    report: ReportView,
    attempts: nat,
    frame: FrameView,
)
    requires
        !terminal(w.phase),
        !(w.phase is Starting),
        event is Stop || (event is LoadScript && !(report.outcome is Done)),
    ensures
        ordered(stepped(w, event, report, attempts), HostEventView::Midi(frame))
            == OrderView::Nothing,
        ordered(stepped(w, event, report, attempts), HostEventView::Audio(frame))
            == OrderView::Nothing,
{
}

/// Whether the last `attempts` of `fates` are those of a confirmation that
/// was retried as it has to be: every attempt but the last found the queue
/// full, and the worker gave up before its last attempt only because the
/// queue did not refuse the event as full. So the queue took `Loaded` at
/// most once.
pub open spec fn confirmed(fates: Seq<Fate>, attempts: nat) -> bool {
    &&& 1 <= attempts <= fates.len()
    &&& forall|i: int| fates.len() - attempts <= i < fates.len() - 1 ==> fates[i] is Full
    &&& attempts < LOADED_ATTEMPTS ==> !(fates.last() is Full)
}

/// Whether the report of the interpreter calls for a confirmation.
pub open spec fn confirms(w: WorkerView, report: ReportView) -> bool {
    w.pending is Install && report.outcome is Done
}

/// Nanoseconds that a callback may run before the interpreter interrupts
/// it and reports that it ran too long.
pub const CALLBACK_LIMIT_NANOS: u64 = 50_000_000;

/// Attempts that the worker makes to hand `Loaded` to the application.
pub const LOADED_ATTEMPTS: usize = 1000;

/// The script worker.
pub struct Worker {
    phase: Phase,
    script: Option<String>,
    installing: Option<String>,
    waits_for: Waiting,
    scripts: Outbox<ScriptEvent>,
    engine: Outbox<EngineEvent>,
}

/// Kind of the order whose report the worker waits for.
#[derive(Clone, Copy, Debug, PartialEq, Eq, Structural)]
enum Waiting {
    Nothing,
    Install,
    Uninstall,
    Call,
    Finish,
}

impl View for Worker {
    type V = WorkerView;

    closed spec fn view(&self) -> WorkerView {
        WorkerView {
            phase: self.phase,
            script: crate::events::name_view(self.script),
            pending: match self.waits_for {
                Waiting::Nothing => Pending::Nothing,
                Waiting::Install => match self.installing {
                    Some(name) => Pending::Install(name@),
                    None => Pending::Nothing,
                },
                Waiting::Uninstall => Pending::Uninstall,
                Waiting::Call => Pending::Call,
                Waiting::Finish => Pending::Finish,
            },
            published: self.scripts.offered(),
            reported: self.engine.offered(),
        }
    }
}

impl Worker {
    /// What became of each script event that the worker offered to the
    /// application's queue, in the order of the offers.
    pub closed spec fn fates(&self) -> Seq<Fate> {
        self.scripts.fates()
    }

    /// A worker whose interpreter is not up yet, on its ends of the queues
    /// to the application.
    pub fn new(scripts: Outbox<ScriptEvent>, engine: Outbox<EngineEvent>) -> (worker: Self)
        ensures
            worker.fates() == scripts.fates(),
            worker@ == (WorkerView {
                phase: Phase::Starting,
                script: None,
                pending: Pending::Nothing,
                published: scripts.offered(),
                reported: engine.offered(),
            }),
    {
        Worker {
            phase: Phase::Starting,
            script: None,
            installing: None,
            waits_for: Waiting::Nothing,
            scripts,
            engine,
        }
    }

    pub fn phase(&self) -> (phase: Phase)
        ensures
            phase == self@.phase,
    {
        self.phase
    }

    /// Whether the loop goes on: the worker has not ended.
    pub fn alive(&self) -> (alive: bool)
        ensures
            alive == !terminal(self@.phase),
    {
        match self.phase {
            Phase::Terminated | Phase::Panicked => false,
            _ => true,
        }
    }

    /// Name of the installed script.
    pub fn script(&self) -> (name: Option<&str>)
        ensures
            match name {
                Some(n) => self@.script == Some(n@),
                None => self@.script is None,
            },
    {
        match &self.script {
            Some(name) => Some(name.as_str()),
            None => None,
        }
    }

    /// Takes note that the interpreter came up, or failed to.
    pub fn boot(&mut self, ready: bool)
        ensures
            final(self)@ == booted(old(self)@, ready),
    {
        match self.phase {
            Phase::Starting => {
                if ready {
                    self.phase = Phase::Idle;
                } else {
                    self.phase = Phase::Panicked;
                    self.engine.offer(EngineEvent::Panicked);
                }
            },
            _ => {},
        }
    }

    /// Turns `event` into the order to carry out.
    pub fn dispatch(&mut self, event: HostEvent) -> (order: Order)
        ensures
            order@ == ordered(old(self)@, event@),
            final(self)@ == dispatched(old(self)@, event@),
    {
        self.waits_for = Waiting::Nothing;
        self.installing = None;
        if !self.alive() {
            return Order::Nothing;
        }
        let starting = match self.phase {
            Phase::Starting => true,
            _ => false,
        };
        match event {
            HostEvent::Terminate => {
                self.waits_for = Waiting::Finish;
                Order::Finish
            },
            HostEvent::LoadScript { name, source } => {
                if starting {
                    Order::Nothing
                } else {
                    self.installing = Some(name.clone());
                    self.waits_for = Waiting::Install;
                    self.script = None;
                    self.phase = Phase::Idle;
                    Order::Install { name, source }
                }
            },
            HostEvent::Stop => {
                if starting {
                    Order::Nothing
                } else {
                    self.waits_for = Waiting::Uninstall;
                    self.script = None;
                    self.phase = Phase::Idle;
                    Order::Uninstall
                }
            },
            HostEvent::Midi(frame) => self.call(frame),
            HostEvent::Audio(frame) => self.call(frame),
            _ => Order::Nothing,
        }
    }

    /// The order that hands `frame` to the installed script, if there is one.
    fn call(&mut self, frame: CaptureFrame) -> (order: Order)
        requires
            old(self).waits_for == Waiting::Nothing,
            !terminal(old(self).phase),
        ensures
            order@ == ordered(old(self)@, HostEventView::Midi(frame@)),
            order@ == ordered(old(self)@, HostEventView::Audio(frame@)),
            final(self)@ == dispatched(old(self)@, HostEventView::Midi(frame@)),
    {
        let running = match self.phase {
            Phase::Running => true,
            _ => false,
        };
        match &self.script {
            Some(script) => {
                if running {
                    let script = script.clone();
                    self.waits_for = Waiting::Call;
                    Order::Call { script, frame }
                } else {
                    Order::Nothing
                }
            },
            None => Order::Nothing,
        }
    }

    /// Offers each of `events` to the application once, oldest first. An
    /// event that finds the queue full is lost.
    fn publish(&mut self, events: Vec<ScriptEvent>)
        ensures
            grew(old(self).fates(), final(self).fates()),
            final(self).fates().len() == old(self).fates().len() + events.len(),
            final(self)@ == (WorkerView {
                published: old(self)@.published + crate::channel::views(events@),
                ..old(self)@
            }),
    {
        let mut events = events;
        let ghost all = crate::channel::views(events@);
        let ghost start = self@;
        assert(start.published =~= start.published + all.take(0));
        assert(self.fates().take(self.fates().len() as int) =~= self.fates());
        while events.len() > 0
            invariant
                start == old(self)@,
                all.len() >= events.len(),
                grew(old(self).fates(), self.fates()),
                self.fates().len() == old(self).fates().len() + all.len() - events.len(),
                crate::channel::views(events@) == all.skip(all.len() - events.len()),
                self@ == (WorkerView {
                    published: start.published + all.take(all.len() - events.len()),
                    ..start
                }),
            decreases events.len(),
        {
            let ghost rest = crate::channel::views(events@);
            let event = events.remove(0);
            let ghost view = event@;
            self.scripts.offer(event);
            proof {
                assert(view == rest[0]);
                assert(crate::channel::views(events@) =~= rest.skip(1));
                assert(crate::channel::views(events@) =~= all.skip(all.len() - events.len()));
                assert(self.scripts.offered() =~= start.published + all.take(
                    all.len() - events.len(),
                ));
                assert(self.fates().take(old(self).fates().len() as int) =~= old(self).fates());
            }
        }
        assert(all.take(all.len() as int) =~= all);
    }

    /// Tells the application that the script is loaded. This one event is
    /// offered again while the queue is full, a bounded number of times.
    /// Returns how often it was offered.
    fn confirm(&mut self) -> (attempts: usize)
        ensures
            1 <= attempts <= LOADED_ATTEMPTS,
            grew(old(self).fates(), final(self).fates()),
            final(self).fates().len() == old(self).fates().len() + attempts,
            confirmed(final(self).fates(), attempts as nat),
            final(self)@ == (WorkerView {
                published: old(self)@.published + confirmations(attempts as nat),
                ..old(self)@
            }),
    {
        let mut attempts: usize = 0;
        let mut taken = false;
        assert(self@.published =~= old(self)@.published + confirmations(0));
        assert(self.fates().take(self.fates().len() as int) =~= self.fates());
        while attempts < LOADED_ATTEMPTS && !taken
            invariant
                attempts <= LOADED_ATTEMPTS,
                taken ==> attempts >= 1,
                grew(old(self).fates(), self.fates()),
                self.fates().len() == old(self).fates().len() + attempts,
                forall|i: int|
                    old(self).fates().len() <= i < self.fates().len() - 1 ==> self.fates()[i]
                        is Full,
                !taken && attempts > 0 ==> self.fates().last() is Full,
                taken ==> !(self.fates().last() is Full),
                self@ == (WorkerView {
                    published: old(self)@.published + confirmations(attempts as nat),
                    ..old(self)@
                }),
            decreases LOADED_ATTEMPTS - attempts,
        {
            attempts = attempts + 1;
            match self.scripts.offer(ScriptEvent::Loaded) {
                Offer::Full(_) => {},
                _ => {
                    taken = true;
                },
            }
            assert(self@.published =~= old(self)@.published + confirmations(attempts as nat));
            assert(self.fates().take(old(self).fates().len() as int) =~= old(self).fates());
        }
        attempts
    }

    /// Tells the user `text`.
    fn alert(&mut self, text: String)
        ensures
            grew(old(self).fates(), final(self).fates()),
            final(self).fates().len() == old(self).fates().len() + 1,
            final(self)@ == (WorkerView {
                published: old(self)@.published.push(ScriptEventView::Alert(text@)),
                ..old(self)@
            }),
    {
        self.scripts.offer(ScriptEvent::Alert(text));
        assert(self.fates().take(old(self).fates().len() as int) =~= old(self).fates());
    }

    /// Ends the worker after a crash of the interpreter.
    fn crash(&mut self, text: String)
        ensures
            grew(old(self).fates(), final(self).fates()),
            final(self).fates().len() == old(self).fates().len() + 1,
            final(self)@ == crashed(old(self)@, text@),
    {
        self.alert(text);
        self.engine.offer(EngineEvent::Panicked);
        self.phase = Phase::Panicked;
        self.script = None;
        self.waits_for = Waiting::Nothing;
    }

    /// Settles the report of the interpreter on the pending order: publishes
    /// what user code emitted and what the outcome calls for, and moves to
    /// the phase that follows. Returns whether the loop goes on.
    pub fn settle(&mut self, report: Report) -> (alive: bool)
        ensures
            exists|attempts: nat|
                1 <= attempts <= LOADED_ATTEMPTS && final(self)@ == #[trigger] settled(
                    old(self)@,
                    report@,
                    attempts,
                ) && (confirms(old(self)@, report@) ==> confirmed(final(self).fates(), attempts)),
            grew(old(self).fates(), final(self).fates()),
            final(self).fates().len() - old(self).fates().len() == final(self)@.published.len()
                - old(self)@.published.len(),
            alive == !terminal(final(self)@.phase),
    {
        let ghost mut offered: nat = 1;
        let Report { emitted, outcome } = report;
        assert(self.fates().take(self.fates().len() as int) =~= self.fates());
        let waits_for = self.waits_for;
        let installing = self.installing.take();
        match waits_for {
            Waiting::Nothing => {},
            Waiting::Finish => {
                self.engine.offer(EngineEvent::Terminated);
                self.phase = Phase::Terminated;
                self.script = None;
                self.waits_for = Waiting::Nothing;
            },
            Waiting::Install => {
                match installing {
                    None => {},
                    Some(name) => {
                        self.waits_for = Waiting::Nothing;
                        match outcome {
                            Outcome::Done => {
                                self.publish(emitted);
                                let ghost published = self.fates();
                                let attempts = self.confirm();
                                proof {
                                    offered = attempts as nat;
                                    crate::channel::lemma_grew_twice(
                                        old(self).fates(),
                                        published,
                                        self.fates(),
                                    );
                                }
                                self.phase = Phase::Running;
                                self.script = Some(name);
                            },
                            Outcome::Failed(text) => {
                                self.alert(text);
                            },
                            Outcome::TimedOut => {
                                self.alert("the script ran too long and was interrupted".to_owned());
                            },
                            Outcome::Crashed(text) => {
                                self.crash(text);
                            },
                        }
                    },
                }
            },
            Waiting::Uninstall => {
                self.waits_for = Waiting::Nothing;
                match outcome {
                    Outcome::Crashed(text) => {
                        self.crash(text);
                    },
                    _ => {},
                }
            },
            Waiting::Call => {
                self.waits_for = Waiting::Nothing;
                match outcome {
                    Outcome::Done => {
                        self.publish(emitted);
                    },
                    Outcome::Failed(text) => {
                        self.alert(text);
                    },
                    Outcome::TimedOut => {
                        self.alert("the script ran too long and was interrupted".to_owned());
                    },
                    Outcome::Crashed(text) => {
                        self.crash(text);
                    },
                }
            },
        }
        assert(self@ == settled(old(self)@, report@, offered));
        assert(confirms(old(self)@, report@) ==> confirmed(self.fates(), offered));
        self.alive()
    }
}

} // verus!
