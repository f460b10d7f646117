//! The application core of the MIDI monitor.
//!
//! The core owns the capture source and the application's ends of the
//! queues. Each pump drains one queue without blocking and folds what it
//! found into the state that the renderer shows. What a pump does to the
//! state is a function of the state and of what the queue held, and that
//! function is what the contracts state.
use vstd::prelude::*;
use crate::channel::{
    added, capture_channel, drained, engine_channels, grew, lemma_grew_by, lemma_grew_not,
    lemma_grew_twice,
    lemma_messages_of_concat, lemma_messages_of_drained, messages_of, ran_dry, CaptureProducer, HostLink, Inbox,
    WorkerEnds, CAPTURE_SLOTS, ENGINE_SLOTS, SCRIPT_SLOTS,
};
use crate::events::{
    error_text, find_name, listing_outcome, listing_view, messages_view, name_view, names_view,
    open_outcome, position, AppError, AppEvent,
    CaptureFrame, ControlRequest, DeviceHandle, EngineEvent, FrameView, HostEvent, HostEventView,
    Message, MessageView, ScriptEvent, ScriptEventView, SourceError, StreamConfig, StreamState,
    StreamView,
};
use crate::clock::{before_deadline, nanos, past_deadline, Stopwatch};
use crate::files::{
    script_name, spec_due, spec_note_all, spec_script_name, Debounce, FileChange, FsWatcher,
};
use std::time::Duration;
use crate::ring::{newest, AlertSlot, MessageRing};
use crate::source::{CaptureSource, Heard, Request};

verus! {

/// Messages of recent history that an application keeps unless told
/// otherwise.
pub const HISTORY: usize = 1024;

/// What the renderer and the contracts see of the application.
pub struct AppView {
    /// Names of the input devices, as last enumerated.
    pub ports: Seq<Seq<char>>,
    /// The open stream, if any.
    pub stream: StreamView,
    /// Name of the current script.
    pub script_name: Option<Seq<char>>,
    /// Path of the current script.
    pub script_path: Option<Seq<char>>,
    /// The alert that waits to be shown.
    pub alert: Option<Seq<char>>,
    /// Recent history, oldest first.
    pub messages: Seq<MessageView>,
    /// Most messages that the history keeps.
    pub capacity: nat,
    /// Lines that scripts logged and nobody has collected yet.
    pub journal: Seq<Seq<char>>,
    /// Whether captured data flows.
    pub running: bool,
    /// Whether the link to the worker is closed.
    pub closed: bool,
    /// Every event offered to the worker, oldest first.
    pub offered: Seq<HostEventView>,
    /// Start of the window in which changes of the script are gathered.
    pub window: Option<u128>,
    /// Everything asked of the capture source, oldest first; asking for
    /// pending errors is not recorded.
    pub asked: Seq<Request>,
    /// Whether a watcher on the current script is installed.
    pub watching: bool,
}

/// The state after `event` was handed to the link: a closed link offers
/// nothing.
pub open spec fn offer(v: AppView, event: HostEventView) -> AppView {
    if v.closed {
        v
    } else {
        AppView { offered: v.offered.push(event), ..v }
    }
}

/// The state after the source was asked for `request`.
pub open spec fn asking(v: AppView, request: Request) -> AppView {
    AppView { asked: v.asked.push(request), ..v }
}

/// The state after the capture source answered a request to open the device
/// at `index`. Where it opened the device, the stream is on it, the worker
/// is told, and the history starts afresh; where it refused, no stream is
/// open. An answer for a device that is not listed changes nothing.
pub open spec fn settled_open(v: AppView, index: int, answer: Result<StreamConfig, SourceError>)
    -> AppView {
    if 0 <= index < v.ports.len() {
        match answer {
            Ok(config) => offer(
                AppView {
                    stream: StreamView::Active {
                        index: index as usize,
                        name: v.ports[index],
                        config,
                    },
                    messages: Seq::empty(),
                    ..v
                },
                HostEventView::Connect(v.ports[index]),
            ),
            Err(_) => AppView { stream: StreamView::Idle, ..v },
        }
    } else {
        v
    }
}

/// The state after the source was asked to open the device at `index` and
/// gave `answer`.
pub open spec fn asked_to_open(v: AppView, index: int, answer: Result<StreamConfig, SourceError>)
    -> AppView {
    settled_open(asking(v, Request::Open(v.ports[index])), index, answer)
}

/// The state after the capture source answered a request for its devices:
/// the list is what it named; if it could not name them the old list stays.
pub open spec fn relisted(v: AppView, listing: Result<Seq<Seq<char>>, SourceError>) -> AppView {
    match listing {
        Ok(names) => AppView { ports: names, ..v },
        Err(_) => v,
    }
}

/// The state of an application that was just made, given what the capture
/// source answered when it was asked for its devices: the list is what it
/// named; if it could not name them, the list is empty and an alert says
/// why.
pub open spec fn initial(
    listing: Result<Seq<Seq<char>>, SourceError>,
    capacity: nat,
    asked: Seq<Request>,
) -> AppView {
    AppView {
        ports: match listing {
            Ok(names) => names,
            Err(_) => Seq::empty(),
        },
        stream: StreamView::Idle,
        script_name: None,
        script_path: None,
        alert: match listing {
            Ok(_) => None,
            Err(e) => Some(error_text(e)),
        },
        messages: Seq::empty(),
        capacity,
        journal: Seq::empty(),
        running: true,
        closed: false,
        offered: Seq::empty(),
        window: None,
        asked,
        watching: false,
    }
}

/// The state after the source was asked to open the device at `index` and
/// opened it with `config`: the stream is on it, the worker is told, and the
/// history starts afresh.
pub open spec fn connected(v: AppView, index: int, config: StreamConfig) -> AppView {
    offer(
        AppView {
            stream: StreamView::Active { index: index as usize, name: v.ports[index], config },
            messages: Seq::empty(),
            ..asking(v, Request::Open(v.ports[index]))
        },
        HostEventView::Connect(v.ports[index]),
    )
}

/// The state after the source was asked to open the device at `index` and
/// refused: no stream is open.
pub open spec fn refused(v: AppView, index: int) -> AppView {
    AppView { stream: StreamView::Idle, ..asking(v, Request::Open(v.ports[index])) }
}

/// The state after the open stream was torn down: the source was asked to
/// close it and the worker is told.
pub open spec fn disconnected(v: AppView) -> AppView {
    offer(
        AppView { stream: StreamView::Idle, ..asking(v, Request::Close) },
        HostEventView::Disconnect,
    )
}

/// The state after the flow was let go or held back, and the source told.
pub open spec fn flowing(v: AppView, running: bool) -> AppView {
    AppView {
        running,
        ..asking(
            v,
            if running {
                Request::Resume
            } else {
                Request::Pause
            },
        )
    }
}

/// The state after the device reported `error`: no stream is open and the
/// user is told.
pub open spec fn faulted(v: AppView, error: SourceError) -> AppView {
    AppView { stream: StreamView::Idle, alert: Some(error_text(error)), ..v }
}

/// The name of the device on which a stream is open.
pub open spec fn selected(v: AppView) -> Option<Seq<char>> {
    match v.stream {
        StreamView::Active { name, .. } => Some(name),
        StreamView::Idle => None,
    }
}

/// The state after one script event. `step.opened` is what the capture
/// source answered where the event asked for a device that is listed.
pub open spec fn apply_step(v: AppView, step: ScriptStep) -> AppView {
    match step.event {
        ScriptEventView::Loaded => v,
        ScriptEventView::Log(text) => AppView { journal: v.journal.push(text), ..v },
        ScriptEventView::Alert(text) => AppView { alert: Some(text), ..v },
        ScriptEventView::MidiOut(bytes) => AppView {
            messages: newest(v.messages.push(MessageView::Emitted(bytes)), v.capacity),
            ..v
        },
        ScriptEventView::Connect(name) => match (position(v.ports, name), step.opened) {
            (Some(i), Some(Ok(config))) => connected(v, i, config),
            (Some(i), Some(Err(e))) => faulted(refused(v, i), e),
            _ => v,
        },
        ScriptEventView::Control(ControlRequest::Pause) => flowing(v, false),
        ScriptEventView::Control(ControlRequest::Resume) => flowing(v, true),
        ScriptEventView::Control(ControlRequest::Stop) => v,
    }
}

/// The state after a run of script events, oldest first.
pub open spec fn apply_steps(v: AppView, steps: Seq<ScriptStep>) -> AppView
    decreases steps.len(),
{
    if steps.len() == 0 {
        v
    } else {
        apply_step(apply_steps(v, steps.drop_last()), steps.last())
    }
}

/// Whether a pump of script events ends with this event: with the news that
/// a script is loaded, or with the script's request to stop the application.
pub open spec fn halts(event: ScriptEventView) -> bool {
    event is Loaded || event == ScriptEventView::Control(ControlRequest::Stop)
}

/// What one script event tells the loop that drives the application.
pub open spec fn signal(event: ScriptEventView) -> AppEvent {
    match event {
        ScriptEventView::Loaded => AppEvent::ScriptLoaded,
        ScriptEventView::Control(ControlRequest::Stop) => AppEvent::Stopping,
        _ => AppEvent::Continue,
    }
}

/// What a pump that took `steps` tells the loop that drives the application.
pub open spec fn verdict(steps: Seq<ScriptStep>) -> AppEvent {
    if steps.len() == 0 {
        AppEvent::Continue
    } else {
        signal(steps.last().event)
    }
}

/// No step but the last ends a pump.
pub open spec fn halts_at_end_only(steps: Seq<ScriptStep>) -> bool {
    forall|i: int| 0 <= i < steps.len() - 1 ==> !halts(#[trigger] steps[i].event)
}

/// The event that carries a captured frame to the worker.
pub open spec fn carried(frame: FrameView) -> HostEventView {
    match frame {
        FrameView::Audio { .. } => HostEventView::Audio(frame),
        FrameView::Midi { .. } => HostEventView::Midi(frame),
    }
}

/// The state after one captured frame: it joins the history and is offered
/// to the worker.
pub open spec fn absorb(v: AppView, frame: FrameView) -> AppView {
    offer(
        AppView {
            messages: newest(v.messages.push(MessageView::Captured(frame)), v.capacity),
            ..v
        },
        carried(frame),
    )
}

/// The state after a run of captured frames, oldest first.
pub open spec fn absorb_all(v: AppView, frames: Seq<FrameView>) -> AppView
    decreases frames.len(),
{
    if frames.len() == 0 {
        v
    } else {
        absorb(absorb_all(v, frames.drop_last()), frames.last())
    }
}

/// The state after a run of device errors, oldest first.
pub open spec fn faulted_all(v: AppView, errors: Seq<SourceError>) -> AppView
    decreases errors.len(),
{
    if errors.len() == 0 {
        v
    } else {
        faulted(faulted_all(v, errors.drop_last()), errors.last())
    }
}

/// The state after the worker reported on its life: it is gone, whether it
/// ended or crashed, and the link to it is closed.
pub open spec fn worker_gone(v: AppView) -> AppView {
    AppView { closed: true, ..v }
}

/// The views of a history that took one more message.
pub proof fn lemma_history_push(history: Seq<Message>, message: Message, capacity: nat)
    ensures
        messages_view(newest(history.push(message), capacity)) == newest(
            messages_view(history).push(message@),
            capacity,
        ),
{
    assert(messages_view(newest(history.push(message), capacity)) =~= newest(
        messages_view(history).push(message@),
        capacity,
    ));
}

/// Script events taken in two pumps leave the state that they would leave
/// if one pump had taken them all.
pub proof fn lemma_apply_steps_concat(v: AppView, a: Seq<ScriptStep>, b: Seq<ScriptStep>)
    ensures
        apply_steps(v, a + b) == apply_steps(apply_steps(v, a), b),
    decreases b.len(),
{
    if b.len() == 0 {
        assert(a + b =~= a);
    } else {
        lemma_apply_steps_concat(v, a, b.drop_last());
        assert((a + b).drop_last() =~= a + b.drop_last());
        assert((a + b).last() == b.last());
    }
}

/// The state in which `path` names the current script.
pub open spec fn named(v: AppView, path: Seq<char>) -> AppView {
    AppView { script_path: Some(path), script_name: Some(spec_script_name(path)), ..v }
}

/// The state after the script at `path`, which reads `source`, was handed to
/// the worker: `Stop`, then `LoadScript`, then `Discover` with the devices,
/// then `Connect` if a stream is open. The watcher that came with the script
/// takes the place of the old one, and its window starts afresh.
pub open spec fn loaded(v: AppView, path: Seq<char>, source: Seq<char>, watching: bool) -> AppView {
    let told = offer(
        offer(
            offer(named(v, path), HostEventView::Stop),
            HostEventView::LoadScript { name: spec_script_name(path), source },
        ),
        HostEventView::Discover(v.ports),
    );
    let told = AppView { window: None, watching, ..told };
    match selected(v) {
        Some(port) => offer(told, HostEventView::Connect(port)),
        None => told,
    }
}

/// The window of the file watcher after `changes` were seen at time `now`
/// and the reload, if due, was reported.
pub open spec fn settled_window(window: Option<u128>, changes: Seq<FileChange>, now: u128)
    -> Option<u128> {
    let noted = spec_note_all(window, changes, now);
    if spec_due(noted, now) {
        None
    } else {
        noted
    }
}

/// The script to load again after `changes` were seen at time `now`.
pub open spec fn reload_path(v: AppView, changes: Seq<FileChange>, now: u128) -> Option<Seq<char>> {
    if spec_due(spec_note_all(v.window, changes, now), now) {
        v.script_path
    } else {
        None
    }
}

/// `count` times `Terminate`.
pub open spec fn farewells(count: nat) -> Seq<HostEventView> {
    Seq::new(count, |i: int| HostEventView::Terminate)
}

/// What the application found on disk where a script was asked for. Reading
/// the disk is not the application's part: its caller looks, and hands over
/// what it saw.
pub struct ScriptFile {
    /// The path that was asked for.
    pub path: String,
    /// Whether the path names an existing regular file.
    pub is_file: bool,
    /// The text of the file, if it could be read.
    pub source: Option<String>,
    /// A watcher on the file, if one could be started.
    pub watcher: Option<FsWatcher>,
}

/// What one pump of everything tells the loop that drives the application.
pub struct Tick {
    /// News of the script and of the worker.
    pub outcome: AppEvent,
    /// Path of the script, where it changed on disk and is to be loaded again.
    pub reload: Option<String>,
}

/// Changes that one pump takes from the file watcher at most.
pub const WATCH_BUDGET: usize = 100;

/// Attempts that a shutdown makes to hand `Terminate` to the worker.
pub const TERMINATE_ATTEMPTS: usize = 1000;

/// The state and the messages handed out when the history is taken.
pub open spec fn taken(v: AppView) -> (AppView, Seq<MessageView>) {
    (AppView { messages: Seq::empty(), ..v }, v.messages)
}

/// The history is handed out once: a second take, with no pump in between,
/// finds nothing and changes nothing.
pub proof fn lemma_take_messages_once(v: AppView)
    ensures
        taken(v).1 == v.messages,
        taken(taken(v).0).1 == Seq::<MessageView>::empty(),
        taken(taken(v).0).0 == taken(v).0,
{
}

/// After the device reported errors no stream is open, the alert tells of
/// the last of them, and the list of devices is what it was: a device that
/// was listed is listed still.
pub proof fn lemma_device_errors_leave_idle(v: AppView, errors: Seq<SourceError>)
    requires
        errors.len() > 0,
    ensures
        faulted_all(v, errors) == faulted(v, errors.last()),
        faulted_all(v, errors).stream is Idle,
        faulted_all(v, errors).alert == Some(error_text(errors.last())),
        faulted_all(v, errors).ports == v.ports,
    decreases errors.len(),
{
    reveal_with_fuel(faulted_all, 2);
    if errors.len() > 1 {
        lemma_device_errors_leave_idle(v, errors.drop_last());
    }
}

/// A script reaches the worker as `Stop`, `LoadScript`, `Discover`, in this
/// order, followed by `Connect` exactly when a stream is open.
pub proof fn lemma_load_order(v: AppView, path: Seq<char>, source: Seq<char>, watching: bool)
    requires
        !v.closed,
    ensures
        added(v.offered, loaded(v, path, source, watching).offered) == seq![
            HostEventView::Stop,
            HostEventView::LoadScript { name: spec_script_name(path), source },
            HostEventView::Discover(v.ports),
        ] + match selected(v) {
            Some(port) => seq![HostEventView::Connect(port)],
            None => Seq::empty(),
        },
        grew(v.offered, loaded(v, path, source, watching).offered),
{
    let after = loaded(v, path, source, watching).offered;
    let told = seq![
        HostEventView::Stop,
        HostEventView::LoadScript { name: spec_script_name(path), source },
        HostEventView::Discover(v.ports),
    ];
    match selected(v) {
        Some(port) => {
            assert(after =~= v.offered + (told + seq![HostEventView::Connect(port)]));
            assert(added(v.offered, after) =~= told + seq![HostEventView::Connect(port)]);
        },
        None => {
            assert(after =~= v.offered + told);
            assert(added(v.offered, after) =~= told + Seq::<HostEventView>::empty());
        },
    }
    assert(after.take(v.offered.len() as int) =~= v.offered);
}

/// Once the link to the worker is closed, because the worker took
/// `Terminate` or is gone, nothing that the application takes from its
/// queues makes it offer another event, and the link stays closed.
pub proof fn lemma_closed_stays_silent(
    v: AppView,
    frames: Seq<FrameView>,
    errors: Seq<SourceError>,
    steps: Seq<ScriptStep>,
)
    requires
        v.closed,
    ensures
        absorb_all(v, frames).closed && absorb_all(v, frames).offered == v.offered,
        faulted_all(v, errors).closed && faulted_all(v, errors).offered == v.offered,
        apply_steps(v, steps).closed && apply_steps(v, steps).offered == v.offered,
    decreases frames.len() + errors.len() + steps.len(),
{
    if frames.len() > 0 {
        lemma_closed_stays_silent(v, frames.drop_last(), Seq::empty(), Seq::empty());
    }
    if errors.len() > 0 {
        lemma_closed_stays_silent(v, Seq::empty(), errors.drop_last(), Seq::empty());
    }
    if steps.len() > 0 {
        lemma_closed_stays_silent(v, Seq::empty(), Seq::empty(), steps.drop_last());
    }
}

/// Errors that one pump takes from the device at most.
pub const FAULT_BUDGET: usize = 16;

/// What the application has taken from its queues so far.
pub struct Logs {
    /// Script events, each with the outcome of the open that it caused.
    pub steps: Seq<ScriptStep>,
    /// Captured frames.
    pub frames: Seq<FrameView>,
    /// Events of the worker's life.
    pub engine: Seq<EngineEvent>,
    /// Errors that the device reported.
    pub faults: Seq<SourceError>,
    /// Changes that the file watcher reported.
    pub changes: Seq<FileChange>,
}

/// What the queues and the device answered each time the application asked
/// them: something, or nothing where they had nothing to give. A pump asks
/// until it is answered nothing, or has taken its fill, or meets an answer
/// that ends it.
pub struct Answers {
    /// Answers of the queue from the worker.
    pub scripts: Seq<Option<ScriptEventView>>,
    /// Answers of the capture queue.
    pub frames: Seq<Option<FrameView>>,
    /// Answers of the queue on which the worker reports its life.
    pub engine: Seq<Option<EngineEvent>>,
    /// Answers of the device to the question for its next error.
    pub faults: Seq<Option<SourceError>>,
    /// Answers of the watcher that is installed.
    pub changes: Seq<Option<FileChange>>,
}

/// A script event together with what the capture source answered, where the
/// event made the application open a device.
pub struct ScriptStep {
    pub event: ScriptEventView,
    pub opened: Option<Result<StreamConfig, SourceError>>,
}

/// The script events of a run of steps.
pub open spec fn events_of(steps: Seq<ScriptStep>) -> Seq<ScriptEventView> {
    Seq::new(steps.len(), |i: int| steps[i].event)
}

/// The application core: capture source, queues and view-model.
pub struct App<S: CaptureSource> {
    host: HostLink,
    scripts: Inbox<ScriptEvent>,
    engine: Inbox<EngineEvent>,
    capture: Inbox<CaptureFrame>,
    sink: CaptureProducer,
    source: Heard<S>,
    port_names: Vec<String>,
    stream: StreamState,
    selected_script_name: Option<String>,
    script_path: Option<String>,
    alert: AlertSlot,
    messages: MessageRing<Message>,
    journal: Vec<String>,
    is_running: bool,
    watcher: Option<FsWatcher>,
    debounce: Debounce,
    clock: Stopwatch,
    steps: Ghost<Seq<ScriptStep>>,
    changes: Ghost<Seq<FileChange>>,
}

impl<S: CaptureSource> View for App<S> {
    type V = AppView;

    closed spec fn view(&self) -> AppView {
        AppView {
            ports: names_view(self.port_names@),
            stream: self.stream@,
            script_name: name_view(self.selected_script_name),
            script_path: name_view(self.script_path),
            alert: self.alert@,
            messages: messages_view(self.messages@),
            capacity: self.messages.spec_capacity(),
            journal: names_view(self.journal@),
            running: self.is_running,
            closed: self.host.is_closed(),
            offered: self.host.offered(),
            window: self.debounce@,
            asked: self.source.asked(),
            watching: self.watcher is Some,
        }
    }
}

impl<S: CaptureSource> App<S> {
    /// The queues and the history are in order, and the record of script
    /// events is the record of the queue.
    pub closed spec fn wf(&self) -> bool {
        &&& self.sound()
        &&& events_of(self.steps@) == self.scripts.received()
    }

    /// The link and the history are in order.
    spec fn sound(&self) -> bool {
        &&& self.host.wf()
        &&& self.messages.wf()
    }

    /// What was taken from the queues so far.
    pub closed spec fn logs(&self) -> Logs {
        Logs {
            steps: self.steps@,
            frames: self.capture.received(),
            engine: self.engine.received(),
            faults: messages_of(self.source.fault_answers()),
            changes: self.changes@,
        }
    }

    /// What the queues and the device answered so far.
    pub closed spec fn answers(&self) -> Answers {
        Answers {
            scripts: self.scripts.answers(),
            frames: self.capture.answers(),
            engine: self.engine.answers(),
            faults: self.source.fault_answers(),
            changes: match self.watcher {
                Some(watcher) => watcher.answers(),
                None => Seq::empty(),
            },
        }
    }

    /// What was taken from the queues is what they answered, less the times
    /// they answered nothing.
    pub proof fn lemma_logs_of_answers(&self)
        requires
            self.wf(),
        ensures
            events_of(self.logs().steps) == messages_of(self.answers().scripts),
            self.logs().frames == messages_of(self.answers().frames),
            self.logs().engine == messages_of(self.answers().engine),
            self.logs().faults == messages_of(self.answers().faults),
    {
        self.scripts.lemma_received();
        self.capture.lemma_received();
        self.engine.lemma_received();
    }

    /// What the queue to the worker took of the events offered.
    pub closed spec fn accepted(&self) -> Seq<HostEventView> {
        self.host.accepted()
    }

    /// In a well-formed application the history is within its capacity, and
    /// `Terminate` is the last event that the worker's queue took.
    pub proof fn lemma_wf(&self)
        requires
            self.wf(),
        ensures
            self@.messages.len() <= self@.capacity,
            forall|i: int|
                0 <= i < self.accepted().len() && #[trigger] self.accepted()[i] is Terminate ==> i
                    == self.accepted().len() - 1 && self@.closed,
    {
        crate::ring::lemma_ring_bounded(self.messages);
    }

    /// An application on `source` that keeps [`HISTORY`] messages, and the
    /// worker's ends of its queues. The source is asked for its devices
    /// once; what follows from its answer is [`App::from_listing`].
    pub fn new(source: S) -> (made: (Self, WorkerEnds))
        ensures
            made.0.wf(),
            exists|listing: Result<Seq<Seq<char>>, SourceError>|
                made.0@ == #[trigger] initial(
                    listing,
                    HISTORY as nat,
                    Seq::empty().push(Request::Enumerate),
                ),
            made.0.logs() == Self::no_logs(),
            made.0.answers() == Self::no_answers(),
            made.0.accepted() == Seq::<HostEventView>::empty(),
    {
        Self::with_capacity(source, HISTORY)
    }

    pub open spec fn no_answers() -> Answers {
        Answers {
            scripts: Seq::empty(),
            frames: Seq::empty(),
            engine: Seq::empty(),
            faults: Seq::empty(),
            changes: Seq::empty(),
        }
    }

    pub open spec fn no_logs() -> Logs {
        Logs {
            steps: Seq::empty(),
            frames: Seq::empty(),
            engine: Seq::empty(),
            faults: Seq::empty(),
            changes: Seq::empty(),
        }
    }

    /// An application on `source` that keeps `capacity` messages of history,
    /// and the worker's ends of its queues. The source is asked for its
    /// devices once; what follows from its answer is [`App::from_listing`].
    pub fn with_capacity(source: S, capacity: usize) -> (made: (Self, WorkerEnds))
        ensures
            made.0.wf(),
            exists|listing: Result<Seq<Seq<char>>, SourceError>|
                made.0@ == #[trigger] initial(
                    listing,
                    capacity as nat,
                    Seq::empty().push(Request::Enumerate),
                ),
            made.0.logs() == Self::no_logs(),
            made.0.answers() == Self::no_answers(),
            made.0.accepted() == Seq::<HostEventView>::empty(),
    {
        let mut source = Heard::new(source);
        let listing = source.enumerate();
        let ghost answer = listing_view(listing);
        let made = Self::from_listing(source, listing, capacity);
        assert(made.0@ == initial(
            answer,
            capacity as nat,
            Seq::empty().push(Request::Enumerate),
        ));
        made
    }

    /// An application on `source`, given what the source answered when it
    /// was asked for its devices: the list is what it named. If it could not
    /// name them the list is empty and an alert says why.
    pub fn from_listing(
        source: Heard<S>,
        listing: Result<Vec<String>, SourceError>,
        capacity: usize,
    ) -> (made: (Self, WorkerEnds))
        ensures
            made.0.wf(),
            made.0@ == initial(listing_view(listing), capacity as nat, source.asked()),
            made.0.logs() == (Logs {
                faults: messages_of(source.fault_answers()),
                ..Self::no_logs()
            }),
            made.0.answers() == (Answers {
                faults: source.fault_answers(),
                ..Self::no_answers()
            }),
            made.0.accepted() == Seq::<HostEventView>::empty(),
    {
        let (ours, theirs) = engine_channels();
        let (sink, capture) = capture_channel();
        let mut alert = AlertSlot::new();
        let port_names = match listing {
            Ok(names) => names,
            Err(e) => {
                alert.post(e.message());
                Vec::new()
            },
        };
        let app = App {
            host: ours.host,
            scripts: ours.scripts,
            engine: ours.engine,
            capture,
            sink,
            source,
            port_names,
            stream: StreamState::Idle,
            selected_script_name: None,
            script_path: None,
            alert,
            messages: MessageRing::new(capacity),
            journal: Vec::new(),
            is_running: true,
            watcher: None,
            debounce: Debounce::new(),
            clock: Stopwatch::start(),
            steps: Ghost(Seq::empty()),
            changes: Ghost(Seq::empty()),
        };
        assert(events_of(app.steps@) =~= app.scripts.received());
        assert(app@.messages =~= Seq::<MessageView>::empty());
        assert(app@.journal =~= Seq::<Seq<char>>::empty());
        assert(listing is Err ==> app@.ports =~= Seq::<Seq<char>>::empty());
        (app, theirs)
    }

    /// Whether captured data flows.
    pub fn running(&self) -> (running: bool)
        ensures
            running == self@.running,
    {
        self.is_running
    }

    /// Lets captured data flow or holds it back, and tells the source.
    pub fn set_running(&mut self, should_run: bool)
        requires
            old(self).wf(),
        ensures
            final(self).wf(),
            final(self)@ == flowing(old(self)@, should_run),
            final(self).logs() == old(self).logs(),
            final(self).answers() == old(self).answers(),
            final(self).accepted() == old(self).accepted(),
    {
        if should_run {
            self.source.resume();
        } else {
            self.source.pause();
        }
        self.is_running = should_run;
    }

    /// Names of the input devices, as last enumerated.
    pub fn ports(&self) -> (names: &Vec<String>)
        ensures
            names_view(names@) == self@.ports,
    {
        &self.port_names
    }

    /// Takes the alert that waits to be shown, if any.
    pub fn take_alert(&mut self) -> (text: Option<String>)
        requires
            old(self).wf(),
        ensures
            final(self).wf(),
            name_view(text) == old(self)@.alert,
            final(self)@ == (AppView { alert: None, ..old(self)@ }),
            final(self).logs() == old(self).logs(),
            final(self).answers() == old(self).answers(),
            final(self).accepted() == old(self).accepted(),
    {
        self.alert.take()
    }

    /// Name of the device on which a stream is open.
    pub fn selected_port(&self) -> (name: Option<&str>)
        ensures
            match name {
                Some(n) => selected(self@) == Some(n@),
                None => selected(self@) is None,
            },
    {
        match &self.stream {
            StreamState::Active { device, .. } => Some(device.name.as_str()),
            StreamState::Idle => None,
        }
    }

    /// Name of the current script.
    pub fn selected_script(&self) -> (name: Option<&str>)
        ensures
            match name {
                Some(n) => self@.script_name == Some(n@),
                None => self@.script_name is None,
            },
    {
        match &self.selected_script_name {
            Some(name) => Some(name.as_str()),
            None => None,
        }
    }

    /// Path of the current script.
    pub fn loaded_script_path(&self) -> (path: Option<&String>)
        ensures
            match path {
                Some(p) => self@.script_path == Some(p@),
                None => self@.script_path is None,
            },
    {
        self.script_path.as_ref()
    }

    /// Moves the recent history out, oldest first, and leaves it empty.
    pub fn take_messages(&mut self) -> (messages: Vec<Message>)
        requires
            old(self).wf(),
        ensures
            final(self).wf(),
            (final(self)@, messages_view(messages@)) == taken(old(self)@),
            final(self).logs() == old(self).logs(),
            final(self).answers() == old(self).answers(),
            final(self).accepted() == old(self).accepted(),
    {
        let messages = self.messages.take();
        assert(messages_view(self.messages@) =~= Seq::<MessageView>::empty());
        messages
    }

    /// Forgets the recent history.
    pub fn clear_messages(&mut self)
        requires
            old(self).wf(),
        ensures
            final(self).wf(),
            final(self)@ == (AppView { messages: Seq::empty(), ..old(self)@ }),
            final(self).logs() == old(self).logs(),
            final(self).answers() == old(self).answers(),
            final(self).accepted() == old(self).accepted(),
    {
        self.messages.clear();
        assert(messages_view(self.messages@) =~= Seq::<MessageView>::empty());
    }

    /// Moves the lines that scripts logged out, oldest first.
    pub fn take_journal(&mut self) -> (lines: Vec<String>)
        requires
            old(self).wf(),
        ensures
            final(self).wf(),
            names_view(lines@) == old(self)@.journal,
            final(self)@ == (AppView { journal: Seq::empty(), ..old(self)@ }),
            final(self).logs() == old(self).logs(),
            final(self).answers() == old(self).answers(),
            final(self).accepted() == old(self).accepted(),
    {
        let mut lines: Vec<String> = Vec::new();
        core::mem::swap(&mut lines, &mut self.journal);
        assert(names_view(self.journal@) =~= Seq::<Seq<char>>::empty());
        lines
    }

    /// Folds the answer of the capture source to a request to open the
    /// device at `index` into the state.
    fn settle(&mut self, index: usize, answer: Result<StreamConfig, SourceError>)
        requires
            old(self).sound(),
        ensures
            final(self).sound(),
            final(self).scripts == old(self).scripts,
            final(self).steps == old(self).steps,
            final(self)@ == settled_open(old(self)@, index as int, answer),
            final(self).logs() == old(self).logs(),
            final(self).answers() == old(self).answers(),
            answer is Err ==> final(self).accepted() == old(self).accepted(),
    {
        if index >= self.port_names.len() {
            return ;
        }
        match answer {
            Ok(config) => {
                let name = self.port_names[index].clone();
                self.stream = StreamState::Active {
                    device: DeviceHandle { index, name: name.clone() },
                    config,
                };
                self.host.offer(HostEvent::Connect(name));
                self.messages.clear();
                assert(messages_view(self.messages@) =~= Seq::<MessageView>::empty());
            },
            Err(_) => {
                self.stream = StreamState::Idle;
            },
        }
    }

    /// Takes the answer of the capture source to a request to open the
    /// device at `index` of the list. Where the source opened the device the
    /// stream is on it, the worker is told with `Connect`, and the history
    /// starts afresh; where it refused, no stream is open and its error is
    /// handed on.
    pub fn settle_open(&mut self, index: usize, answer: Result<StreamConfig, SourceError>) -> (done:
        Result<(), AppError>)
        requires
            old(self).wf(),
        ensures
            final(self).wf(),
            done == open_outcome(answer),
            final(self)@ == settled_open(old(self)@, index as int, answer),
            final(self).logs() == old(self).logs(),
            final(self).answers() == old(self).answers(),
            answer is Err ==> final(self).accepted() == old(self).accepted(),
    {
        self.settle(index, answer);
        match answer {
            Ok(_) => Ok(()),
            Err(e) => Err(AppError::Source(e)),
        }
    }

    /// Asks the source to open the device at `index`, which the caller knows
    /// to be listed, and folds its answer into the state.
    fn open_at(&mut self, index: usize) -> (opened: Result<StreamConfig, SourceError>)
        requires
            old(self).sound(),
            index < old(self)@.ports.len(),
        ensures
            final(self).sound(),
            final(self).scripts == old(self).scripts,
            final(self).steps == old(self).steps,
            final(self)@ == asked_to_open(old(self)@, index as int, opened),
            final(self)@ == match opened {
                Ok(config) => connected(old(self)@, index as int, config),
                Err(_) => refused(old(self)@, index as int),
            },
            final(self).logs() == old(self).logs(),
            final(self).answers() == old(self).answers(),
    {
        let sink = self.sink.handle();
        let answer = self.source.open(self.port_names[index].as_str(), sink);
        self.settle(index, answer);
        answer
    }

    /// Opens a stream on the device at `port_index` of the list, in place of
    /// the stream that was open. An index outside the list is ignored. The
    /// source is asked to open the device; what follows from its answer is
    /// [`App::settle_open`].
    pub fn connect_to_midi_input_by_index(&mut self, port_index: usize) -> (done: Result<
        (),
        AppError,
    >)
        requires
            old(self).wf(),
        ensures
            final(self).wf(),
            final(self).logs() == old(self).logs(),
            final(self).answers() == old(self).answers(),
            port_index >= old(self)@.ports.len() ==> done is Ok && final(self)@ == old(self)@,
            port_index < old(self)@.ports.len() ==> exists|
                answer: Result<StreamConfig, SourceError>,
            |
                final(self)@ == #[trigger] asked_to_open(old(self)@, port_index as int, answer)
                    && done == open_outcome(answer),
    {
        if port_index >= self.port_names.len() {
            return Ok(());
        }
        let answer = self.open_at(port_index);
        assert(self@ == asked_to_open(old(self)@, port_index as int, answer));
        match answer {
            Ok(_) => Ok(()),
            Err(e) => Err(AppError::Source(e)),
        }
    }

    /// Opens a stream on the first device of the list called `port_name`. A
    /// name that is not listed is ignored.
    pub fn connect_to_midi_input(&mut self, port_name: &str) -> (done: Result<(), AppError>)
        requires
            old(self).wf(),
        ensures
            final(self).wf(),
            final(self).logs() == old(self).logs(),
            final(self).answers() == old(self).answers(),
            match position(old(self)@.ports, port_name@) {
                None => done is Ok && final(self)@ == old(self)@,
                Some(i) => exists|answer: Result<StreamConfig, SourceError>|
                    final(self)@ == #[trigger] asked_to_open(old(self)@, i, answer) && done
                        == open_outcome(answer),
            },
    {
        match find_name(&self.port_names, port_name) {
            Some(index) => {
                proof {
                    crate::events::lemma_position(old(self)@.ports, port_name@);
                }
                self.connect_to_midi_input_by_index(index)
            },
            None => Ok(()),
        }
    }

    /// Folds one script event into the state. The record of steps is left to
    /// the caller.
    fn react(&mut self, event: ScriptEvent) -> (done: (Ghost<ScriptStep>, AppEvent))
        requires
            old(self).sound(),
        ensures
            final(self).sound(),
            final(self).scripts == old(self).scripts,
            final(self).steps == old(self).steps,
            done.0@.event == event@,
            done.1 == signal(event@),
            final(self)@ == apply_step(old(self)@, done.0@),
            final(self).logs() == old(self).logs(),
            final(self).answers() == old(self).answers(),
    {
        let ghost view = event@;
        match event {
            ScriptEvent::Loaded => (
                Ghost(ScriptStep { event: view, opened: None }),
                AppEvent::ScriptLoaded,
            ),
            ScriptEvent::Log(text) => {
                self.journal.push(text);
                assert(names_view(self.journal@) =~= names_view(old(self).journal@).push(text@));
                (Ghost(ScriptStep { event: view, opened: None }), AppEvent::Continue)
            },
            ScriptEvent::Alert(text) => {
                self.alert.post(text);
                (Ghost(ScriptStep { event: view, opened: None }), AppEvent::Continue)
            },
            ScriptEvent::MidiOut(bytes) => {
                let message = Message::Emitted(bytes);
                proof {
                    lemma_history_push(self.messages@, message, self.messages.spec_capacity());
                }
                self.messages.push(message);
                (Ghost(ScriptStep { event: view, opened: None }), AppEvent::Continue)
            },
            ScriptEvent::Connect(name) => {
                match find_name(&self.port_names, name.as_str()) {
                    Some(index) => {
                        proof {
                            crate::events::lemma_position(old(self)@.ports, name@);
                        }
                        let opened = self.open_at(index);
                        if let Err(e) = opened {
                            self.alert.post(e.message());
                        }
                        (Ghost(ScriptStep { event: view, opened: Some(opened) }), AppEvent::Continue)
                    },
                    None => (Ghost(ScriptStep { event: view, opened: None }), AppEvent::Continue),
                }
            },
            ScriptEvent::Control(request) => {
                match request {
                    ControlRequest::Pause => {
                        self.source.pause();
                                    self.is_running = false;
                        (Ghost(ScriptStep { event: view, opened: None }), AppEvent::Continue)
                    },
                    ControlRequest::Resume => {
                        self.source.resume();
                                    self.is_running = true;
                        (Ghost(ScriptStep { event: view, opened: None }), AppEvent::Continue)
                    },
                    ControlRequest::Stop => (
                        Ghost(ScriptStep { event: view, opened: None }),
                        AppEvent::Stopping,
                    ),
                }
            },
        }
    }

    /// Takes the script events that wait, oldest first and without blocking,
    /// and folds each into the state. The queue is asked until it answers
    /// nothing, or the pump has taken as many events as the queue has slots,
    /// or an event ends the pump: the news that a script is loaded, and a
    /// script's request to stop. What waits behind such an event stays for
    /// the next pump.
    pub fn process_script_events(&mut self) -> (outcome: AppEvent)
        requires
            old(self).wf(),
        ensures
            final(self).wf(),
            grew(old(self).logs().steps, final(self).logs().steps),
            final(self).logs() == (Logs { steps: final(self).logs().steps, ..old(self).logs() }),
            ({
                let batch = added(old(self).logs().steps, final(self).logs().steps);
                &&& batch.len() <= SCRIPT_SLOTS
                &&& final(self)@ == apply_steps(old(self)@, batch)
                &&& halts_at_end_only(batch)
                &&& outcome == verdict(batch)
                &&& final(self).answers() == (Answers {
                    scripts: old(self).answers().scripts + drained(
                        events_of(batch),
                        ran_dry(batch.len(), SCRIPT_SLOTS as nat, outcome != AppEvent::Continue),
                    ),
                    ..old(self).answers()
                })
            }),
    {
        let ghost start = self@;
        let ghost before = self.steps@;
        let ghost asked = self.scripts.answers();
        let ghost mut batch: Seq<ScriptStep> = Seq::empty();
        let mut budget: usize = SCRIPT_SLOTS;
        proof {
            assert(before + batch =~= before);
            assert(asked + drained(events_of(batch), false) =~= asked);
        }
        while budget > 0
            invariant
                start == old(self)@,
                before == old(self).logs().steps,
                asked == old(self).answers().scripts,
                self.wf(),
                self.steps@ == before + batch,
                self.logs() == (Logs { steps: self.steps@, ..old(self).logs() }),
                self.answers() == (Answers {
                    scripts: asked + drained(events_of(batch), false),
                    ..old(self).answers()
                }),
                batch.len() + budget == SCRIPT_SLOTS,
                self@ == apply_steps(start, batch),
                forall|i: int| 0 <= i < batch.len() ==> !halts(#[trigger] batch[i].event),
            decreases budget,
        {
            budget = budget - 1;
            match self.scripts.poll() {
                None => {
                    proof {
                        lemma_grew_by(before, batch);
                        assert(self.scripts.answers() =~= asked + drained(events_of(batch), true));
                    }
                    return AppEvent::Continue;
                },
                Some(event) => {
                    let ghost so_far = batch;
                    let (step, outcome) = self.react(event);
                    self.steps = Ghost(self.steps@.push(step@));
                    proof {
                        batch = so_far.push(step@);
                        assert(self.steps@ =~= before + batch);
                        assert(batch.drop_last() =~= so_far);
                        assert(events_of(batch) =~= events_of(so_far).push(step@.event));
                        assert(self.scripts.answers() =~= asked + drained(events_of(batch), false));
                        assert(events_of(self.steps@) =~= self.scripts.received());
                        lemma_grew_by(before, batch);
                    }
                    if outcome != AppEvent::Continue {
                        return outcome;
                    }
                },
            }
        }
        proof {
            lemma_grew_by(before, batch);
        }
        AppEvent::Continue
    }

    /// Takes the captured frames that wait, oldest first and without
    /// blocking. Each joins the history and is offered to the worker. The
    /// queue is asked until it answers nothing or the pump has taken as many
    /// frames as the queue has slots. While the flow is held back the queue
    /// is not asked.
    #[verifier::rlimit(50)]
    pub fn process_midi_messages(&mut self)
        requires
            old(self).wf(),
        ensures
            final(self).wf(),
            grew(old(self).logs().frames, final(self).logs().frames),
            final(self).logs() == (Logs { frames: final(self).logs().frames, ..old(self).logs() }),
            ({
                let batch = added(old(self).logs().frames, final(self).logs().frames);
                &&& batch.len() <= CAPTURE_SLOTS
                &&& !old(self)@.running ==> batch.len() == 0
                &&& final(self)@ == absorb_all(old(self)@, batch)
                &&& final(self).answers() == (Answers {
                    frames: old(self).answers().frames + Self::frames_asked(old(self)@, batch),
                    ..old(self).answers()
                })
            }),
    {
        let ghost start = self@;
        let ghost before = self.capture.received();
        let ghost asked = self.capture.answers();
        let ghost mut batch: Seq<FrameView> = Seq::empty();
        proof {
            lemma_grew_by(before, batch);
            assert(before + batch =~= before);
            assert(asked + drained(batch, false) =~= asked);
            assert(asked + Seq::<Option<FrameView>>::empty() =~= asked);
        }
        if !self.is_running {
            return ;
        }
        let mut budget: usize = CAPTURE_SLOTS;
        while budget > 0
            invariant
                start == old(self)@,
                before == old(self).logs().frames,
                asked == old(self).answers().frames,
                old(self)@.running,
                self.wf(),
                self.capture.received() == before + batch,
                self.logs() == (Logs { frames: self.capture.received(), ..old(self).logs() }),
                self.answers() == (Answers {
                    frames: asked + drained(batch, false),
                    ..old(self).answers()
                }),
                batch.len() + budget == CAPTURE_SLOTS,
                self@ == absorb_all(start, batch),
            decreases budget,
        {
            budget = budget - 1;
            match self.capture.poll() {
                None => {
                    proof {
                        lemma_grew_by(before, batch);
                        assert(self.capture.answers() =~= asked + drained(batch, true));
                    }
                    return ;
                },
                Some(frame) => {
                    let ghost so_far = batch;
                    let copy = frame.duplicate();
                    let event = match &copy {
                        CaptureFrame::Audio { .. } => HostEvent::Audio(copy),
                        CaptureFrame::Midi { .. } => HostEvent::Midi(copy),
                    };
                    let message = Message::Captured(frame);
                    proof {
                        lemma_history_push(self.messages@, message, self.messages.spec_capacity());
                    }
                    self.messages.push(message);
                    self.host.offer(event);
                    proof {
                        batch = so_far.push(frame@);
                        assert(self.capture.received() =~= before + batch);
                        assert(batch.drop_last() =~= so_far);
                        assert(self.capture.answers() =~= asked + drained(batch, false));
                        lemma_grew_by(before, batch);
                    }
                },
            }
        }
        proof {
            lemma_grew_by(before, batch);
        }
    }

    /// What the capture queue answered to a pump that took `batch`: nothing
    /// was asked while the flow was held back.
    pub open spec fn frames_asked(v: AppView, batch: Seq<FrameView>) -> Seq<Option<FrameView>> {
        if v.running {
            drained(batch, ran_dry(batch.len(), CAPTURE_SLOTS as nat, false))
        } else {
            Seq::empty()
        }
    }

    /// Takes what the worker reported on its own life, without blocking. Any
    /// report means that the worker is gone, so the link to it is closed. The
    /// queue is asked until it answers nothing, or the pump has taken as many
    /// reports as the queue has slots, or it meets the news of a crash.
    pub fn process_engine_events(&mut self) -> (outcome: AppEvent)
        requires
            old(self).wf(),
        ensures
            final(self).wf(),
            grew(old(self).logs().engine, final(self).logs().engine),
            final(self).logs() == (Logs { engine: final(self).logs().engine, ..old(self).logs() }),
            ({
                let batch = added(old(self).logs().engine, final(self).logs().engine);
                &&& batch.len() <= ENGINE_SLOTS
                &&& final(self)@ == if batch.len() == 0 {
                    old(self)@
                } else {
                    worker_gone(old(self)@)
                }
                &&& forall|i: int| 0 <= i < batch.len() - 1 ==> batch[i] == EngineEvent::Terminated
                &&& outcome == if batch.len() > 0 && batch.last() == EngineEvent::Panicked {
                    AppEvent::ScriptCrash
                } else {
                    AppEvent::Continue
                }
                &&& final(self).answers() == (Answers {
                    engine: old(self).answers().engine + drained(
                        batch,
                        ran_dry(batch.len(), ENGINE_SLOTS as nat, outcome != AppEvent::Continue),
                    ),
                    ..old(self).answers()
                })
            }),
    {
        let ghost start = self@;
        let ghost before = self.engine.received();
        let ghost asked = self.engine.answers();
        let ghost mut batch: Seq<EngineEvent> = Seq::empty();
        let mut budget: usize = ENGINE_SLOTS;
        proof {
            assert(before + batch =~= before);
            assert(asked + drained(batch, false) =~= asked);
        }
        while budget > 0
            invariant
                start == old(self)@,
                before == old(self).logs().engine,
                asked == old(self).answers().engine,
                self.wf(),
                self.engine.received() == before + batch,
                self.logs() == (Logs { engine: self.engine.received(), ..old(self).logs() }),
                self.answers() == (Answers {
                    engine: asked + drained(batch, false),
                    ..old(self).answers()
                }),
                batch.len() + budget == ENGINE_SLOTS,
                self@ == if batch.len() == 0 {
                    start
                } else {
                    worker_gone(start)
                },
                forall|i: int| 0 <= i < batch.len() ==> batch[i] == EngineEvent::Terminated,
            decreases budget,
        {
            budget = budget - 1;
            match self.engine.poll() {
                None => {
                    proof {
                        lemma_grew_by(before, batch);
                        assert(self.engine.answers() =~= asked + drained(batch, true));
                    }
                    return AppEvent::Continue;
                },
                Some(event) => {
                    let ghost so_far = batch;
                    self.host.close();
                    proof {
                        batch = so_far.push(event);
                        assert(self.engine.received() =~= before + batch);
                        assert(self.engine.answers() =~= asked + drained(batch, false));
                        lemma_grew_by(before, batch);
                    }
                    match event {
                        EngineEvent::Panicked => {
                            return AppEvent::ScriptCrash;
                        },
                        EngineEvent::Terminated => {},
                    }
                },
            }
        }
        proof {
            lemma_grew_by(before, batch);
        }
        AppEvent::Continue
    }

    /// Takes an error that the device reported: it leaves the application
    /// without a stream and with an alert that says what happened. It does
    /// not end the application, and the list of devices stays.
    pub fn settle_fault(&mut self, error: SourceError)
        requires
            old(self).wf(),
        ensures
            final(self).wf(),
            final(self)@ == faulted(old(self)@, error),
            final(self).logs() == old(self).logs(),
            final(self).answers() == old(self).answers(),
            final(self).accepted() == old(self).accepted(),
    {
        self.stream = StreamState::Idle;
        self.alert.post(error.message());
    }

    /// Takes the errors that the device reported since the last pump, and
    /// settles each as [`App::settle_fault`] says. The device is asked until
    /// it answers nothing or [`FAULT_BUDGET`] errors are taken.
    pub fn process_device_errors(&mut self)
        requires
            old(self).wf(),
        ensures
            final(self).wf(),
            grew(old(self).logs().faults, final(self).logs().faults),
            final(self).logs() == (Logs { faults: final(self).logs().faults, ..old(self).logs() }),
            ({
                let batch = added(old(self).logs().faults, final(self).logs().faults);
                &&& batch.len() <= FAULT_BUDGET
                &&& final(self)@ == faulted_all(old(self)@, batch)
                &&& final(self).answers() == (Answers {
                    faults: old(self).answers().faults + drained(
                        batch,
                        ran_dry(batch.len(), FAULT_BUDGET as nat, false),
                    ),
                    ..old(self).answers()
                })
            }),
    {
        let ghost start = self@;
        let ghost asked = self.source.fault_answers();
        let ghost before = messages_of(asked);
        let ghost mut batch: Seq<SourceError> = Seq::empty();
        let mut budget: usize = FAULT_BUDGET;
        proof {
            assert(asked + drained(batch, false) =~= asked);
        }
        while budget > 0
            invariant
                start == old(self)@,
                before == old(self).logs().faults,
                asked == old(self).answers().faults,
                self.wf(),
                self.source.fault_answers() == asked + drained(batch, false),
                self.logs() == (Logs { faults: self.logs().faults, ..old(self).logs() }),
                self.answers() == (Answers {
                    faults: self.source.fault_answers(),
                    ..old(self).answers()
                }),
                batch.len() + budget == FAULT_BUDGET,
                self@ == faulted_all(start, batch),
            decreases budget,
        {
            budget = budget - 1;
            match self.source.poll_error() {
                None => {
                    proof {
                        assert(self.source.fault_answers() =~= asked + drained(batch, true));
                        lemma_messages_of_drained(asked, batch, true);
                        lemma_grew_by(before, batch);
                    }
                    return ;
                },
                Some(error) => {
                    let ghost so_far = batch;
                    self.settle_fault(error);
                    proof {
                        batch = so_far.push(error);
                        assert(batch.drop_last() =~= so_far);
                        assert(self.source.fault_answers() =~= asked + drained(batch, false));
                    }
                },
            }
        }
        proof {
            lemma_messages_of_drained(asked, batch, false);
            lemma_grew_by(before, batch);
        }
    }

    /// Takes the changes that the file watcher reported, without blocking,
    /// and says whether the script is to be loaded again, given that the
    /// clock reads `now`. The watcher is asked until it answers nothing or
    /// [`WATCH_BUDGET`] changes are taken. Changes are gathered for a short
    /// window, so that a save that touches the file several times causes one
    /// reload. An error that the watcher reports is a change like another:
    /// the watcher stays installed.
    pub fn process_file_events_at(&mut self, now: u128) -> (reload: Option<String>)
        requires
            old(self).wf(),
        ensures
            final(self).wf(),
            Self::file_events_settled(*old(self), *final(self), reload, now),
    {
        let ghost before = self.changes@;
        let ghost window = self.debounce@;
        let ghost asked = self.answers().changes;
        let ghost mut batch: Seq<FileChange> = Seq::empty();
        let ghost mut dry = false;
        proof {
            lemma_grew_by(before, batch);
            assert(before + batch =~= before);
            assert(asked + drained(batch, false) =~= asked);
            assert(asked + Seq::<Option<FileChange>>::empty() =~= asked);
        }
        let mut watcher = self.watcher.take();
        let mut budget: usize = WATCH_BUDGET;
        match watcher {
            Some(mut w) => {
                while budget > 0
                    invariant
                        before == old(self).logs().changes,
                        window == old(self)@.window,
                        asked == old(self).answers().changes,
                        old(self)@.watching,
                        self.wf(),
                        self.changes@ == before + batch,
                        self.logs() == (Logs { changes: self.changes@, ..old(self).logs() }),
                        self.answers() == (Answers {
                            changes: Seq::empty(),
                            ..old(self).answers()
                        }),
                        w.answers() == asked + drained(batch, dry),
                        self.accepted() == old(self).accepted(),
                        dry ==> budget == 0 && batch.len() < WATCH_BUDGET,
                        !dry ==> batch.len() + budget == WATCH_BUDGET,
                        self@ == (AppView {
                            window: self@.window,
                            watching: false,
                            ..old(self)@
                        }),
                        self@.window == spec_note_all(window, batch, now),
                    decreases budget,
                {
                    budget = budget - 1;
                    match w.poll() {
                        None => {
                            proof {
                                dry = true;
                                assert(w.answers() =~= asked + drained(batch, true));
                            }
                            budget = 0;
                        },
                        Some(change) => {
                            let ghost so_far = batch;
                            self.debounce.note(change, now);
                            self.changes = Ghost(self.changes@.push(change));
                            proof {
                                batch = so_far.push(change);
                                assert(self.changes@ =~= before + batch);
                                assert(batch.drop_last() =~= so_far);
                                assert(w.answers() =~= asked + drained(batch, false));
                            }
                        },
                    }
                }
                self.watcher = Some(w);
            },
            None => {},
        }
        proof {
            lemma_grew_by(before, batch);
        }
        if self.debounce.due(now) {
            match &self.script_path {
                Some(path) => Some(path.clone()),
                None => None,
            }
        } else {
            None
        }
    }

    /// What a pump of the file watcher at time `now` leaves.
    pub open spec fn file_events_settled(
        before: Self,
        after: Self,
        reload: Option<String>,
        now: u128,
    ) -> bool {
        let batch = added(before.logs().changes, after.logs().changes);
        &&& grew(before.logs().changes, after.logs().changes)
        &&& after.logs() == (Logs { changes: after.logs().changes, ..before.logs() })
        &&& after.accepted() == before.accepted()
        &&& batch.len() <= WATCH_BUDGET
        &&& after@ == (AppView { window: settled_window(before@.window, batch, now), ..before@ })
        &&& name_view(reload) == reload_path(before@, batch, now)
        &&& after.answers() == (Answers {
            changes: before.answers().changes + Self::watcher_asked(before@, batch),
            ..before.answers()
        })
    }

    /// What the watcher answered to a pump that took `batch`: without a
    /// watcher nothing is asked.
    pub open spec fn watcher_asked(v: AppView, batch: Seq<FileChange>) -> Seq<Option<FileChange>> {
        if v.watching {
            drained(batch, ran_dry(batch.len(), WATCH_BUDGET as nat, false))
        } else {
            Seq::empty()
        }
    }

    /// Takes the changes that the file watcher reported, without blocking,
    /// and says whether the script is to be loaded again. The clock is read
    /// once; the rest is [`App::process_file_events_at`].
    pub fn process_file_events(&mut self) -> (reload: Option<String>)
        requires
            old(self).wf(),
        ensures
            final(self).wf(),
            exists|now: u128| Self::file_events_settled(*old(self), *final(self), reload, now),
    {
        let now = self.clock.read();
        self.process_file_events_at(now)
    }

    /// Makes `script` the current script and hands it to the worker. Does
    /// not block.
    ///
    /// The file is looked at before anything is changed or sent: a path that
    /// names no regular file, and a file that could not be read, are refused,
    /// and the script that was current stays so, with its watcher.
    pub fn load_script(&mut self, script: ScriptFile) -> (done: Result<AppEvent, AppError>)
        requires
            old(self).wf(),
        ensures
            final(self).wf(),
            final(self).logs() == old(self).logs(),
            final(self).answers() == Self::answers_after_load(old(self).answers(), script),
            done == Self::load_outcome(script),
            final(self)@ == Self::after_load(old(self)@, script),
            done is Err ==> final(self).accepted() == old(self).accepted(),
    {
        let ScriptFile { path, is_file, source, watcher } = script;
        if !is_file {
            return Err(AppError::InvalidScript);
        }
        let source = match source {
            Some(source) => source,
            None => {
                return Err(AppError::UnreadableScript);
            },
        };
        let name = script_name(path.as_str());
        self.selected_script_name = Some(name.clone());
        self.script_path = Some(path);
        self.host.offer(HostEvent::Stop);
        self.watcher = watcher;
        self.debounce = Debounce::new();
        self.host.offer(HostEvent::LoadScript { name, source });
        let names = crate::events::copy_names(&self.port_names);
        self.host.offer(HostEvent::Discover(names));
        match &self.stream {
            StreamState::Active { device, .. } => {
                let port = device.name.clone();
                self.host.offer(HostEvent::Connect(port));
            },
            StreamState::Idle => {},
        }
        Ok(AppEvent::Continue)
    }

    /// What loading `script` answers.
    pub open spec fn load_outcome(script: ScriptFile) -> Result<AppEvent, AppError> {
        if !script.is_file {
            Err(AppError::InvalidScript)
        } else if script.source is None {
            Err(AppError::UnreadableScript)
        } else {
            Ok(AppEvent::Continue)
        }
    }

    /// The answers on record after `script` was loaded: the watcher that
    /// came with the script brings its own, and a load that is refused
    /// changes nothing.
    pub open spec fn answers_after_load(answers: Answers, script: ScriptFile) -> Answers {
        if Self::load_outcome(script) is Ok {
            Answers {
                changes: match script.watcher {
                    Some(watcher) => watcher.answers(),
                    None => Seq::empty(),
                },
                ..answers
            }
        } else {
            answers
        }
    }

    /// The state that loading `script` leaves: a load that is refused
    /// changes nothing.
    pub open spec fn after_load(v: AppView, script: ScriptFile) -> AppView {
        match script.source {
            Some(source) => if script.is_file {
                loaded(v, script.path@, source@, script.watcher is Some)
            } else {
                v
            },
            None => v,
        }
    }

    /// One round of the wait for a script: pumps script events once and says
    /// how the wait stands, given that it has lasted `waited` nanoseconds of
    /// the `limit` it may last. The wait has succeeded if the pump met the
    /// news that the script is loaded; it has failed if it has gone beyond
    /// its limit; else it goes on, which `None` says.
    pub fn load_round(&mut self, waited: u128, limit: u128) -> (done: Option<Result<(), AppError>>)
        requires
            old(self).wf(),
        ensures
            final(self).wf(),
            grew(old(self).logs().steps, final(self).logs().steps),
            final(self).logs() == (Logs { steps: final(self).logs().steps, ..old(self).logs() }),
            grew(old(self).answers().scripts, final(self).answers().scripts),
            final(self).answers() == (Answers {
                scripts: final(self).answers().scripts,
                ..old(self).answers()
            }),
            ({
                let batch = added(old(self).logs().steps, final(self).logs().steps);
                let asked = added(old(self).answers().scripts, final(self).answers().scripts);
                &&& final(self)@ == apply_steps(old(self)@, batch)
                &&& halts_at_end_only(batch)
                &&& asked == drained(
                    events_of(batch),
                    ran_dry(
                        batch.len(),
                        SCRIPT_SLOTS as nat,
                        verdict(batch) != AppEvent::Continue,
                    ),
                )
                &&& asked.len() > 0
                &&& messages_of(asked) == events_of(batch)
                &&& done == Self::load_verdict(batch, waited, limit)
            }),
    {
        let ghost asked = self.scripts.answers();
        let outcome = self.process_script_events();
        proof {
            let batch = added(old(self).logs().steps, self.logs().steps);
            let dry = ran_dry(batch.len(), SCRIPT_SLOTS as nat, outcome != AppEvent::Continue);
            lemma_grew_by(asked, drained(events_of(batch), dry));
            lemma_messages_of_drained(Seq::empty(), events_of(batch), dry);
            assert(Seq::<Option<ScriptEventView>>::empty() + drained(events_of(batch), dry)
                =~= drained(events_of(batch), dry));
            assert(messages_of(Seq::<Option<ScriptEventView>>::empty()) + events_of(batch)
                =~= events_of(batch));
        }
        if outcome == AppEvent::ScriptLoaded {
            Some(Ok(()))
        } else if past_deadline(waited, limit) {
            Some(Err(AppError::DeadlineExceeded))
        } else {
            None
        }
    }

    /// How the wait for a script stands after a pump that took `batch`.
    pub open spec fn load_verdict(batch: Seq<ScriptStep>, waited: u128, limit: u128) -> Option<
        Result<(), AppError>,
    > {
        if verdict(batch) == AppEvent::ScriptLoaded {
            Some(Ok(()))
        } else if waited > limit {
            Some(Err(AppError::DeadlineExceeded))
        } else {
            None
        }
    }

    /// Loads `script` and waits until the worker confirms it or the wait
    /// goes beyond `timeout`. The wait is a run of rounds, each at the
    /// reading of the clock, as [`App::load_round`] says. After a load that
    /// was not refused the queue from the worker is asked at least once.
    #[verifier::rlimit(40)]
    pub fn load_script_sync(&mut self, script: ScriptFile, timeout: Duration) -> (done: Result<
        (),
        AppError,
    >)
        requires
            old(self).wf(),
        ensures
            final(self).wf(),
            grew(old(self).logs().steps, final(self).logs().steps),
            final(self).logs() == (Logs { steps: final(self).logs().steps, ..old(self).logs() }),
            grew(old(self).answers().scripts, final(self).answers().scripts),
            final(self).answers() == (Answers {
                scripts: final(self).answers().scripts,
                ..Self::answers_after_load(old(self).answers(), script)
            }),
            ({
                let batch = added(old(self).logs().steps, final(self).logs().steps);
                let asked = added(old(self).answers().scripts, final(self).answers().scripts);
                &&& final(self)@ == apply_steps(Self::after_load(old(self)@, script), batch)
                &&& forall|i: int| 0 <= i < batch.len() - 1 ==> !(#[trigger] batch[i].event is Loaded)
                &&& messages_of(asked) == events_of(batch)
                &&& match done {
                    Ok(()) => Self::load_outcome(script) is Ok && batch.len() > 0
                        && batch.last().event is Loaded && asked.len() > 0 && asked.last() == Some(
                        ScriptEventView::Loaded,
                    ),
                    Err(AppError::DeadlineExceeded) => Self::load_outcome(script) is Ok && (
                    batch.len() > 0 ==> !(batch.last().event is Loaded)) && asked.len() > 0,
                    Err(e) => Self::load_outcome(script) == Err::<AppEvent, AppError>(e)
                        && batch.len() == 0 && asked.len() == 0,
                }
            }),
    {
        let ghost before = self.steps@;
        let ghost asked = self.scripts.answers();
        let ghost mut tail: Seq<Option<ScriptEventView>> = Seq::empty();
        proof {
            lemma_grew_not(before);
            lemma_grew_by(asked, tail);
            assert(asked + tail =~= asked);
        }
        match self.load_script(script) {
            Err(e) => {
                return Err(e);
            },
            Ok(_) => {},
        }
        let ghost start = self@;
        let watch = Stopwatch::start();
        let limit = nanos(&timeout);
        let mut rounds: u64 = 0;
        while rounds < u64::MAX
            invariant
                before == old(self).logs().steps,
                asked == old(self).answers().scripts,
                start == Self::after_load(old(self)@, script),
                Self::load_outcome(script) is Ok,
                self.wf(),
                grew(before, self.steps@),
                self.logs() == (Logs { steps: self.steps@, ..old(self).logs() }),
                self.answers() == (Answers {
                    scripts: asked + tail,
                    ..Self::answers_after_load(old(self).answers(), script)
                }),
                messages_of(tail) == events_of(added(before, self.steps@)),
                rounds > 0 ==> tail.len() > 0,
                self@ == apply_steps(start, added(before, self.steps@)),
                forall|i: int|
                    0 <= i < added(before, self.steps@).len() ==> !(#[trigger] added(
                        before,
                        self.steps@,
                    )[i].event is Loaded),
            decreases u64::MAX - rounds,
        {
            rounds = rounds + 1;
            let ghost mid = self.steps@;
            let ghost so_far = tail;
            let done = self.load_round(watch.read(), limit);
            proof {
                let round = added(mid, self.steps@);
                let heard = added(asked + so_far, self.scripts.answers());
                lemma_grew_twice(before, mid, self.steps@);
                lemma_apply_steps_concat(start, added(before, mid), round);
                assert forall|i: int| 0 <= i < round.len() - 1 implies !(
                #[trigger] round[i].event is Loaded) by {
                    assert(!halts(round[i].event));
                }
                tail = so_far + heard;
                assert(self.scripts.answers() =~= (asked + so_far) + heard);
                assert(self.answers().scripts =~= asked + tail);
                lemma_messages_of_concat(so_far, heard);
                assert(events_of(added(before, self.steps@)) =~= events_of(added(before, mid))
                    + events_of(round));
                lemma_grew_by(asked, tail);
                if done == Some(Ok::<(), AppError>(())) {
                    assert(heard.last() == Some(ScriptEventView::Loaded));
                    assert(tail.last() == Some(ScriptEventView::Loaded));
                }
            }
            match done {
                Some(done) => {
                    return done;
                },
                None => {},
            }
        }
        proof {
            lemma_grew_by(asked, tail);
        }
        Err(AppError::DeadlineExceeded)
    }

    /// One round of the wait for an alert, given that the wait has lasted
    /// `waited` nanoseconds of the `limit` it may last. While the wait is
    /// short of its limit, script events are pumped once; if an alert waits
    /// then, it is taken and the wait is over, else the wait goes on, which
    /// `None` says. Once the wait has reached its limit nothing is pumped:
    /// the wait is over, and what waits in the slot is taken.
    pub fn wait_round(&mut self, waited: u128, limit: u128) -> (done: Option<Option<String>>)
        requires
            old(self).wf(),
        ensures
            final(self).wf(),
            grew(old(self).logs().steps, final(self).logs().steps),
            final(self).logs() == (Logs { steps: final(self).logs().steps, ..old(self).logs() }),
            grew(old(self).answers().scripts, final(self).answers().scripts),
            final(self).answers() == (Answers {
                scripts: final(self).answers().scripts,
                ..old(self).answers()
            }),
            ({
                let batch = added(old(self).logs().steps, final(self).logs().steps);
                let asked = added(old(self).answers().scripts, final(self).answers().scripts);
                let pumped = apply_steps(old(self)@, batch);
                &&& (waited < limit) == (asked.len() > 0)
                &&& messages_of(asked) == events_of(batch)
                &&& match done {
                    Some(text) => name_view(text) == pumped.alert && final(self)@ == (AppView {
                        alert: None,
                        ..pumped
                    }) && (waited < limit ==> pumped.alert is Some),
                    None => waited < limit && pumped.alert is None && final(self)@ == pumped,
                }
            }),
    {
        let ghost asked = self.scripts.answers();
        proof {
            lemma_grew_not(self.steps@);
            lemma_grew_not(asked);
            assert(messages_of(Seq::<Option<ScriptEventView>>::empty()) =~= events_of(
                Seq::<ScriptStep>::empty(),
            ));
        }
        if !before_deadline(waited, limit) {
            return Some(self.take_alert());
        }
        let outcome = self.process_script_events();
        proof {
            let batch = added(old(self).logs().steps, self.logs().steps);
            let dry = ran_dry(batch.len(), SCRIPT_SLOTS as nat, outcome != AppEvent::Continue);
            lemma_grew_by(asked, drained(events_of(batch), dry));
            lemma_messages_of_drained(Seq::empty(), events_of(batch), dry);
            assert(Seq::<Option<ScriptEventView>>::empty() + drained(events_of(batch), dry)
                =~= drained(events_of(batch), dry));
            assert(messages_of(Seq::<Option<ScriptEventView>>::empty()) + events_of(batch)
                =~= events_of(batch));
        }
        if self.alert.is_some() {
            Some(self.take_alert())
        } else {
            None
        }
    }

    /// Waits until an alert waits or the wait has reached `timeout`, and
    /// takes the alert. The wait is a run of rounds, each at the reading of
    /// the clock, as [`App::wait_round`] says.
    pub fn wait_for_alert(&mut self, timeout: Duration) -> (text: Option<String>)
        requires
            old(self).wf(),
        ensures
            final(self).wf(),
            grew(old(self).logs().steps, final(self).logs().steps),
            final(self).logs() == (Logs { steps: final(self).logs().steps, ..old(self).logs() }),
            grew(old(self).answers().scripts, final(self).answers().scripts),
            final(self).answers() == (Answers {
                scripts: final(self).answers().scripts,
                ..old(self).answers()
            }),
            ({
                let batch = added(old(self).logs().steps, final(self).logs().steps);
                let asked = added(old(self).answers().scripts, final(self).answers().scripts);
                let pumped = apply_steps(old(self)@, batch);
                &&& name_view(text) == pumped.alert
                &&& final(self)@ == (AppView { alert: None, ..pumped })
                &&& messages_of(asked) == events_of(batch)
            }),
    {
        let ghost before = self.steps@;
        let ghost start = self@;
        let ghost asked = self.scripts.answers();
        let ghost mut tail: Seq<Option<ScriptEventView>> = Seq::empty();
        proof {
            lemma_grew_not(before);
            lemma_grew_by(asked, tail);
            assert(asked + tail =~= asked);
            assert(events_of(added(before, before)) =~= messages_of(tail));
        }
        let watch = Stopwatch::start();
        let limit = nanos(&timeout);
        let mut rounds: u64 = 0;
        while rounds < u64::MAX
            invariant
                before == old(self).logs().steps,
                asked == old(self).answers().scripts,
                start == old(self)@,
                self.wf(),
                grew(before, self.steps@),
                self.logs() == (Logs { steps: self.steps@, ..old(self).logs() }),
                self.answers() == (Answers { scripts: asked + tail, ..old(self).answers() }),
                messages_of(tail) == events_of(added(before, self.steps@)),
                self@ == apply_steps(start, added(before, self.steps@)),
            decreases u64::MAX - rounds,
        {
            rounds = rounds + 1;
            let ghost mid = self.steps@;
            let ghost so_far = tail;
            let done = self.wait_round(watch.read(), limit);
            proof {
                let round = added(mid, self.steps@);
                let heard = added(asked + so_far, self.scripts.answers());
                lemma_grew_twice(before, mid, self.steps@);
                lemma_apply_steps_concat(start, added(before, mid), round);
                tail = so_far + heard;
                assert(self.scripts.answers() =~= (asked + so_far) + heard);
                assert(self.answers().scripts =~= asked + tail);
                lemma_messages_of_concat(so_far, heard);
                assert(events_of(added(before, self.steps@)) =~= events_of(added(before, mid))
                    + events_of(round));
                lemma_grew_by(asked, tail);
            }
            match done {
                Some(text) => {
                    return text;
                },
                None => {},
            }
        }
        proof {
            lemma_grew_by(asked, tail);
        }
        self.take_alert()
    }

    /// Takes the answer of the capture source to a request for its devices:
    /// the list is what it named. If it could not name them the old list
    /// stays and its error is handed on.
    pub fn settle_listing(&mut self, listing: Result<Vec<String>, SourceError>) -> (done: Result<
        (),
        AppError,
    >)
        requires
            old(self).wf(),
        ensures
            final(self).wf(),
            done == listing_outcome(listing_view(listing)),
            final(self)@ == relisted(old(self)@, listing_view(listing)),
            final(self).logs() == old(self).logs(),
            final(self).answers() == old(self).answers(),
            final(self).accepted() == old(self).accepted(),
    {
        match listing {
            Ok(names) => {
                self.port_names = names;
                Ok(())
            },
            Err(e) => Err(AppError::Source(e)),
        }
    }

    /// Lists the input devices anew. The source is asked for its devices;
    /// what follows from its answer is [`App::settle_listing`].
    pub fn rescan(&mut self) -> (done: Result<(), AppError>)
        requires
            old(self).wf(),
        ensures
            final(self).wf(),
            final(self).logs() == old(self).logs(),
            final(self).answers() == old(self).answers(),
            final(self).accepted() == old(self).accepted(),
            exists|listing: Result<Seq<Seq<char>>, SourceError>|
                final(self)@ == #[trigger] relisted(asking(old(self)@, Request::Enumerate), listing)
                    && done == listing_outcome(listing),
    {
        let listing = self.source.enumerate();
        let ghost answer = listing_view(listing);
        let done = self.settle_listing(listing);
        assert(self@ == relisted(asking(old(self)@, Request::Enumerate), answer));
        done
    }

    /// Tears the open stream down and tells the worker. Without an open
    /// stream nothing happens.
    pub fn disconnect(&mut self)
        requires
            old(self).wf(),
        ensures
            final(self).wf(),
            final(self).logs() == old(self).logs(),
            final(self).answers() == old(self).answers(),
            final(self)@ == if old(self)@.stream is Idle {
                old(self)@
            } else {
                disconnected(old(self)@)
            },
    {
        match &self.stream {
            StreamState::Idle => {},
            StreamState::Active { .. } => {
                self.source.close();
                self.stream = StreamState::Idle;
                self.host.offer(HostEvent::Disconnect);
            },
        }
    }

    /// Hands `Terminate` to the worker, with a bounded number of attempts
    /// while the queue is full, and says whether the worker got it: only
    /// then is there a worker to wait for. On a link that is closed already
    /// nothing is sent.
    pub fn shutdown(&mut self) -> (told: bool)
        requires
            old(self).wf(),
        ensures
            final(self).wf(),
            final(self).logs() == old(self).logs(),
            final(self).answers() == old(self).answers(),
            old(self)@.closed ==> !told && final(self)@ == old(self)@ && final(self).accepted()
                == old(self).accepted(),
            !old(self)@.closed ==> exists|attempts: nat|
                1 <= attempts <= TERMINATE_ATTEMPTS && #[trigger] Self::shut(
                    *old(self),
                    *final(self),
                    told,
                    attempts,
                ),
    {
        if self.host.closed() {
            return false;
        }
        let mut attempts: usize = 0;
        assert(self@.offered =~= old(self)@.offered + farewells(0));
        while attempts < TERMINATE_ATTEMPTS
            invariant
                attempts <= TERMINATE_ATTEMPTS,
                self.wf(),
                !self@.closed,
                !old(self)@.closed,
                self.logs() == old(self).logs(),
                self.answers() == old(self).answers(),
                self.accepted() == old(self).accepted(),
                self@ == (AppView {
                    offered: old(self)@.offered + farewells(attempts as nat),
                    ..old(self)@
                }),
            decreases TERMINATE_ATTEMPTS - attempts,
        {
            attempts = attempts + 1;
            let delivery = self.host.offer(HostEvent::Terminate);
            assert(self@.offered =~= old(self)@.offered + farewells(attempts as nat));
            if delivery == crate::channel::Delivery::Sent {
                assert(Self::shut(*old(self), *self, true, attempts as nat));
                return true;
            }
        }
        assert(Self::shut(*old(self), *self, false, attempts as nat));
        false
    }

    /// What a shutdown that made `attempts` attempts leaves.
    pub open spec fn shut(before: Self, after: Self, told: bool, attempts: nat) -> bool {
        &&& after@ == (AppView {
            offered: before@.offered + farewells(attempts),
            closed: told,
            ..before@
        })
        &&& after.accepted() == if told {
            before.accepted().push(HostEventView::Terminate)
        } else {
            before.accepted()
        }
        &&& !told ==> attempts == TERMINATE_ATTEMPTS
    }
    /// One pump of everything, given that the clock reads `now`: captured
    /// frames first, then the errors of the device, then script events, then
    /// the file watcher, then the worker's reports on its own life. Nothing
    /// in it blocks.
    pub fn tick_at(&mut self, now: u128) -> (tick: Tick)
        requires
            old(self).wf(),
        ensures
            final(self).wf(),
            Self::ticked(*old(self), *final(self), tick, now),
    {
        let ghost l0 = self.logs();
        proof {
            lemma_grew_not(l0.steps);
            lemma_grew_not(l0.frames);
            lemma_grew_not(l0.engine);
            lemma_grew_not(l0.faults);
            lemma_grew_not(l0.changes);
        }
        self.process_midi_messages();
        self.process_device_errors();
        let script = self.process_script_events();
        let reload = self.process_file_events_at(now);
        let engine = self.process_engine_events();
        let outcome = match engine {
            AppEvent::ScriptCrash => AppEvent::ScriptCrash,
            _ => script,
        };
        Tick { outcome, reload }
    }

    /// What one pump of everything at time `now` leaves.
    pub open spec fn ticked(before: Self, after: Self, tick: Tick, now: u128) -> bool {
        let frames = added(before.logs().frames, after.logs().frames);
        let faults = added(before.logs().faults, after.logs().faults);
        let steps = added(before.logs().steps, after.logs().steps);
        let changes = added(before.logs().changes, after.logs().changes);
        let engine = added(before.logs().engine, after.logs().engine);
        let captured = absorb_all(before@, frames);
        let checked = faulted_all(captured, faults);
        let scripted = apply_steps(checked, steps);
        let watched = AppView {
            window: settled_window(scripted.window, changes, now),
            ..scripted
        };
        &&& grew(before.logs().frames, after.logs().frames)
        &&& grew(before.logs().faults, after.logs().faults)
        &&& grew(before.logs().steps, after.logs().steps)
        &&& grew(before.logs().changes, after.logs().changes)
        &&& grew(before.logs().engine, after.logs().engine)
        &&& !before@.running ==> frames.len() == 0
        &&& halts_at_end_only(steps)
        &&& forall|i: int| 0 <= i < engine.len() - 1 ==> engine[i] == EngineEvent::Terminated
        &&& after@ == if engine.len() == 0 {
            watched
        } else {
            worker_gone(watched)
        }
        &&& name_view(tick.reload) == reload_path(scripted, changes, now)
        &&& tick.outcome == if engine.len() > 0 && engine.last() == EngineEvent::Panicked {
            AppEvent::ScriptCrash
        } else {
            verdict(steps)
        }
        &&& after.answers() == (Answers {
            frames: before.answers().frames + Self::frames_asked(before@, frames),
            faults: before.answers().faults + drained(
                faults,
                ran_dry(faults.len(), FAULT_BUDGET as nat, false),
            ),
            scripts: before.answers().scripts + drained(
                events_of(steps),
                ran_dry(steps.len(), SCRIPT_SLOTS as nat, verdict(steps) != AppEvent::Continue),
            ),
            changes: before.answers().changes + Self::watcher_asked(scripted, changes),
            engine: before.answers().engine + drained(
                engine,
                ran_dry(
                    engine.len(),
                    ENGINE_SLOTS as nat,
                    engine.len() > 0 && engine.last() == EngineEvent::Panicked,
                ),
            ),
        })
    }

    /// One pump of everything. The clock is read once; the rest is
    /// [`App::tick_at`].
    pub fn tick(&mut self) -> (tick: Tick)
        requires
            old(self).wf(),
        ensures
            final(self).wf(),
            exists|now: u128| Self::ticked(*old(self), *final(self), tick, now),
    {
        let now = self.clock.read();
        self.tick_at(now)
    }
}

} // verus!
