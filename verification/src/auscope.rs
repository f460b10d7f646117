//! The application core of the audio scope.
//!
//! The scope shows, for each channel of the open stream, the samples that
//! arrived most recently. Its state changes with the keys that the user
//! presses and with the frames that the device delivers.
use vstd::prelude::*;
use crate::channel::{
    added, capture_channel, drained, grew, lemma_grew_by, lemma_messages_of_drained, messages_of,
    ran_dry, CaptureProducer, Inbox, CAPTURE_SLOTS,
};
use crate::events::{
    channels_view, error_text, listing_outcome, listing_view, name_view, names_view, open_outcome,
    AppError, CaptureFrame, DeviceHandle,
    FrameView, Sample, SourceError, StreamConfig, StreamState, StreamView,
};
use crate::ring::{lemma_newest_append, newest, AlertSlot};
use crate::source::{CaptureSource, Heard, Request};

verus! {

/// Samples of each channel that a scope keeps unless told otherwise.
pub const HISTORY: usize = 65536;

/// Errors that one update takes from the device at most.
pub const FAULT_BUDGET: usize = 16;

/// What the loop that drives the application does next.
#[derive(Clone, Copy, Debug, PartialEq, Eq, Structural)]
pub enum Flow {
    /// Draw and go on.
    Continue,
    /// Go on without drawing.
    Loop,
    /// Leave.
    Exit,
}

/// A key, as far as the scope tells keys apart.
#[derive(Clone, Copy, Debug, PartialEq, Eq, Structural)]
pub enum Key {
    Char(char),
    Esc,
    Enter,
    Up,
    Down,
    Other,
}

/// The cursor after it moved one row down a list of `len` rows. It starts at
/// the top and wraps from the last row to the first.
pub open spec fn row_below(cursor: Option<usize>, len: nat) -> Option<usize> {
    if len == 0 {
        None
    } else {
        match cursor {
            Some(i) => if i + 1 < len {
                Some((i + 1) as usize)
            } else {
                Some(0)
            },
            None => Some(0),
        }
    }
}

/// The cursor after it moved one row up a list of `len` rows. It starts at
/// the top and wraps from the first row to the last.
pub open spec fn row_above(cursor: Option<usize>, len: nat) -> Option<usize> {
    if len == 0 {
        None
    } else {
        match cursor {
            Some(i) => if i == 0 || i >= len {
                Some((len - 1) as usize)
            } else {
                Some((i - 1) as usize)
            },
            None => Some(0),
        }
    }
}

/// A list of device names with a cursor. Moving the cursor selects a row;
/// only confirming the row makes it the choice.
pub struct DeviceList {
    items: Vec<String>,
    cursor: Option<usize>,
    confirmed: Option<usize>,
}

pub struct ListView {
    pub items: Seq<Seq<char>>,
    pub cursor: Option<usize>,
    pub confirmed: Option<usize>,
}

impl View for DeviceList {
    type V = ListView;

    closed spec fn view(&self) -> ListView {
        ListView {
            items: names_view(self.items@),
            cursor: self.cursor,
            confirmed: self.confirmed,
        }
    }
}

/// The cursor and the confirmed row, where there is one, are rows of the
/// list.
pub open spec fn list_wf(list: ListView) -> bool {
    &&& list.cursor matches Some(i) ==> i < list.items.len()
    &&& list.confirmed matches Some(i) ==> i < list.items.len()
}

impl DeviceList {
    /// The list of `items`, with the cursor on no row.
    pub fn with_items(items: Vec<String>) -> (list: Self)
        ensures
            list_wf(list@),
            list@ == (ListView { items: names_view(items@), cursor: None, confirmed: None }),
    {
        DeviceList { items, cursor: None, confirmed: None }
    }

    pub fn items(&self) -> (items: &Vec<String>)
        ensures
            names_view(items@) == self@.items,
    {
        &self.items
    }

    /// The row under the cursor.
    pub fn selected(&self) -> (row: Option<usize>)
        ensures
            row == self@.cursor,
    {
        self.cursor
    }

    /// The row that was confirmed last.
    pub fn confirmed(&self) -> (row: Option<usize>)
        ensures
            row == self@.confirmed,
    {
        self.confirmed
    }

    /// Moves the cursor one row down.
    pub fn next(&mut self)
        requires
            list_wf(old(self)@),
        ensures
            list_wf(final(self)@),
            final(self)@ == (ListView {
                cursor: row_below(old(self)@.cursor, old(self)@.items.len()),
                ..old(self)@
            }),
    {
        if self.items.len() == 0 {
            self.cursor = None;
        } else {
            self.cursor = match self.cursor {
                Some(i) => if i + 1 < self.items.len() {
                    Some(i + 1)
                } else {
                    Some(0)
                },
                None => Some(0),
            };
        }
    }

    /// Moves the cursor one row up.
    pub fn previous(&mut self)
        requires
            list_wf(old(self)@),
        ensures
            list_wf(final(self)@),
            final(self)@ == (ListView {
                cursor: row_above(old(self)@.cursor, old(self)@.items.len()),
                ..old(self)@
            }),
    {
        if self.items.len() == 0 {
            self.cursor = None;
        } else {
            self.cursor = match self.cursor {
                Some(i) => if i == 0 || i >= self.items.len() {
                    Some(self.items.len() - 1)
                } else {
                    Some(i - 1)
                },
                None => Some(0),
            };
        }
    }

    /// Puts the cursor on `row`, if the list has such a row.
    pub fn select(&mut self, row: usize)
        requires
            list_wf(old(self)@),
        ensures
            list_wf(final(self)@),
            final(self)@ == if row < old(self)@.items.len() {
                ListView { cursor: Some(row), ..old(self)@ }
            } else {
                old(self)@
            },
    {
        if row < self.items.len() {
            self.cursor = Some(row);
        }
    }

    /// Makes the row under the cursor the choice.
    pub fn confirm_selection(&mut self)
        requires
            list_wf(old(self)@),
        ensures
            list_wf(final(self)@),
            final(self)@ == (ListView { confirmed: old(self)@.cursor, ..old(self)@ }),
    {
        self.confirmed = self.cursor;
    }
}

/// The buffers after room was made for a frame of `incoming` channels. A
/// frame with fewer channels than the scope holds makes the scope give up as
/// many of its last channels as the frame has; a frame with more channels
/// than are left adds empty ones.
pub open spec fn resized(buffers: Seq<Seq<Sample>>, incoming: nat) -> Seq<Seq<Sample>> {
    let kept = if incoming < buffers.len() {
        buffers.take(buffers.len() - incoming)
    } else {
        buffers
    };
    if incoming > kept.len() {
        kept + Seq::new((incoming - kept.len()) as nat, |i: int| Seq::<Sample>::empty())
    } else {
        kept
    }
}

/// The buffers after a frame with the channels `data` arrived: each channel
/// of the frame is appended to the buffer of its place, and each buffer
/// keeps its newest `limit` samples.
pub open spec fn merged(buffers: Seq<Seq<Sample>>, data: Seq<Seq<Sample>>, limit: nat) -> Seq<
    Seq<Sample>,
> {
    let room = resized(buffers, data.len());
    Seq::new(
        room.len(),
        |i: int|
            if i < data.len() {
                newest(room[i] + data[i], limit)
            } else {
                room[i]
            },
    )
}

/// The buffers after `frame` arrived. The scope shows audio; a frame of
/// another kind leaves it as it is.
pub open spec fn merged_frame(buffers: Seq<Seq<Sample>>, frame: FrameView, limit: nat) -> Seq<
    Seq<Sample>,
> {
    match frame {
        FrameView::Audio { channels } => merged(buffers, channels, limit),
        FrameView::Midi { .. } => buffers,
    }
}

/// The buffers after a run of frames arrived, oldest first.
pub open spec fn merged_all(buffers: Seq<Seq<Sample>>, frames: Seq<FrameView>, limit: nat) -> Seq<
    Seq<Sample>,
>
    decreases frames.len(),
{
    if frames.len() == 0 {
        buffers
    } else {
        merged_frame(merged_all(buffers, frames.drop_last(), limit), frames.last(), limit)
    }
}

/// Appends `samples` to the buffer at `place` and trims the buffer to its
/// newest `limit` samples.
fn feed(buffers: &mut Vec<Vec<Sample>>, place: usize, samples: &Vec<Sample>, limit: usize)
    requires
        place < old(buffers).len(),
    ensures
        final(buffers).len() == old(buffers).len(),
        final(buffers)[place as int]@ == newest(old(buffers)[place as int]@ + samples@, limit as nat),
        forall|j: int|
            0 <= j < old(buffers).len() && j != place ==> final(buffers)[j] == old(buffers)[j],
{
    buffers.push(Vec::new());
    let mut channel = buffers.swap_remove(place);
    let mut k: usize = 0;
    while k < samples.len()
        invariant
            k <= samples.len(),
            channel@ == old(buffers)[place as int]@ + samples@.take(k as int),
        decreases samples.len() - k,
    {
        channel.push(samples[k]);
        k += 1;
        assert(channel@ =~= old(buffers)[place as int]@ + samples@.take(k as int));
    }
    assert(samples@.take(samples.len() as int) =~= samples@);
    if channel.len() > limit {
        let excess = channel.len() - limit;
        channel = channel.split_off(excess);
    }
    assert(channel@ =~= newest(old(buffers)[place as int]@ + samples@, limit as nat));
    buffers.push(channel);
    buffers.swap_remove(place);
}

/// Folds the channels `data` of one frame into `buffers`.
pub fn merge(buffers: &mut Vec<Vec<Sample>>, data: &Vec<Vec<Sample>>, limit: usize)
    ensures
        channels_view(final(buffers)@) == merged(
            channels_view(old(buffers)@),
            channels_view(data@),
            limit as nat,
        ),
{
    let ghost before = channels_view(buffers@);
    let ghost incoming = channels_view(data@);
    if data.len() < buffers.len() {
        let keep = buffers.len() - data.len();
        buffers.truncate(keep);
    }
    let ghost kept = channels_view(buffers@);
    assert(kept =~= if incoming.len() < before.len() {
        before.take(before.len() - incoming.len())
    } else {
        before
    });
    assert(kept =~= kept + Seq::new(0, |i: int| Seq::<Sample>::empty()));
    while buffers.len() < data.len()
        invariant
            incoming == channels_view(data@),
            kept.len() <= buffers.len(),
            buffers.len() <= kept.len() || buffers.len() <= incoming.len(),
            channels_view(buffers@) == kept + Seq::new(
                (buffers.len() - kept.len()) as nat,
                |i: int| Seq::<Sample>::empty(),
            ),
        decreases data.len() - buffers.len(),
    {
        let ghost padded = channels_view(buffers@);
        let fresh: Vec<Sample> = Vec::new();
        buffers.push(fresh);
        assert(channels_view(buffers@) =~= padded.push(Seq::<Sample>::empty()));
        assert(channels_view(buffers@) =~= kept + Seq::new(
            (buffers.len() - kept.len()) as nat,
            |i: int| Seq::<Sample>::empty(),
        ));
    }
    let ghost room = resized(before, incoming.len());
    assert(channels_view(buffers@) =~= room);
    let shared = if data.len() < buffers.len() {
        data.len()
    } else {
        buffers.len()
    };
    let mut i: usize = 0;
    while i < shared
        invariant
            i <= shared,
            shared <= data.len(),
            shared <= buffers.len(),
            shared == data.len() || shared == buffers.len(),
            incoming == channels_view(data@),
            buffers.len() == room.len(),
            forall|j: int| 0 <= j < i ==> buffers[j]@ == newest(room[j] + incoming[j], limit as nat),
            forall|j: int| i <= j < buffers.len() ==> buffers[j]@ == room[j],
        decreases shared - i,
    {
        feed(buffers, i, &data[i], limit);
        i += 1;
    }
    assert(channels_view(buffers@) =~= merged(before, incoming, limit as nat));
}

/// What the renderer and the contracts see of the scope.
pub struct ScopeView {
    /// The list of devices with its cursor.
    pub list: ListView,
    /// The open stream, if any.
    pub stream: StreamView,
    /// Whether captured data flows.
    pub running: bool,
    /// Whether the help is shown.
    pub usage: bool,
    /// The newest samples of each channel.
    pub channels: Seq<Seq<Sample>>,
    /// Most samples that a channel keeps.
    pub limit: nat,
    /// The alert that waits to be shown.
    pub alert: Option<Seq<char>>,
    /// Everything asked of the capture source, oldest first; asking for
    /// pending errors is not recorded.
    pub asked: Seq<Request>,
}

/// The name of the device on which a stream is open.
pub open spec fn selection(v: ScopeView) -> Option<Seq<char>> {
    match v.stream {
        StreamView::Active { name, .. } => Some(name),
        StreamView::Idle => None,
    }
}

/// The state after the capture source answered a request to open the device
/// at `row`: the stream is on that device, or no stream is open where the
/// source refused. An answer for a row that the list does not have changes
/// nothing.
pub open spec fn settled_open(v: ScopeView, row: int, answer: Result<StreamConfig, SourceError>)
    -> ScopeView {
    if 0 <= row < v.list.items.len() {
        match answer {
            Ok(config) => ScopeView {
                stream: StreamView::Active { index: row as usize, name: v.list.items[row], config },
                ..v
            },
            Err(_) => ScopeView { stream: StreamView::Idle, ..v },
        }
    } else {
        v
    }
}

/// The state after the capture source was asked to open the device at `row`
/// and gave `answer`.
pub open spec fn opened(v: ScopeView, row: usize, answer: Result<StreamConfig, SourceError>)
    -> ScopeView {
    settled_open(
        ScopeView { asked: v.asked.push(Request::Open(v.list.items[row as int])), ..v },
        row as int,
        answer,
    )
}

/// The state after the capture source answered a request for its devices:
/// the list is what it named, with the cursor on no row; if it could not
/// name them the old list stays.
pub open spec fn relisted(v: ScopeView, listing: Result<Seq<Seq<char>>, SourceError>) -> ScopeView {
    match listing {
        Ok(names) => ScopeView {
            list: ListView { items: names, cursor: None, confirmed: None },
            ..v
        },
        Err(_) => v,
    }
}

/// The state after the capture source was asked for its devices.
pub open spec fn asked_to_list(v: ScopeView, listing: Result<Seq<Seq<char>>, SourceError>)
    -> ScopeView {
    relisted(ScopeView { asked: v.asked.push(Request::Enumerate), ..v }, listing)
}

/// The state with the cursor on `row`.
pub open spec fn pointed(v: ScopeView, row: usize) -> ScopeView {
    ScopeView { list: ListView { cursor: Some(row), ..v.list }, ..v }
}

/// The buffers with every sample forgotten and every channel kept.
pub open spec fn silenced(channels: Seq<Seq<Sample>>) -> Seq<Seq<Sample>> {
    Seq::new(channels.len(), |i: int| Seq::<Sample>::empty())
}

/// The state after `key` was pressed. `answer` is what the capture source
/// said, where the key made the scope open a device.
pub open spec fn pressed(v: ScopeView, key: Key, answer: Result<StreamConfig, SourceError>)
    -> ScopeView {
    match key {
        Key::Char('?') => ScopeView { usage: !v.usage, ..v },
        Key::Char('q') | Key::Esc => ScopeView { usage: false, ..v },
        Key::Char(' ') => ScopeView { running: !v.running, ..v },
        Key::Down | Key::Char('j') => ScopeView {
            list: ListView { cursor: row_below(v.list.cursor, v.list.items.len()), ..v.list },
            ..v
        },
        Key::Up | Key::Char('k') => ScopeView {
            list: ListView { cursor: row_above(v.list.cursor, v.list.items.len()), ..v.list },
            ..v
        },
        Key::Enter => match v.list.cursor {
            Some(row) => opened(
                ScopeView {
                    list: ListView { confirmed: Some(row), ..v.list },
                    running: true,
                    channels: silenced(v.channels),
                    ..v
                },
                row,
                answer,
            ),
            None => v,
        },
        _ => v,
    }
}

/// What the press of `key` tells the loop that drives the application.
pub open spec fn press_outcome(v: ScopeView, key: Key, answer: Result<StreamConfig, SourceError>)
    -> Result<Flow, AppError> {
    match key {
        Key::Char('q') | Key::Esc => if v.usage {
            Ok(Flow::Continue)
        } else {
            Ok(Flow::Exit)
        },
        Key::Enter => match (v.list.cursor, answer) {
            (Some(_), Err(e)) => Err(AppError::Source(e)),
            _ => Ok(Flow::Continue),
        },
        _ => Ok(Flow::Continue),
    }
}

/// Whether the press of `key` makes the scope open a device.
pub open spec fn opens(v: ScopeView, key: Key) -> bool {
    key is Enter && v.list.cursor is Some
}

/// The state after the device reported `error`.
pub open spec fn faulted(v: ScopeView, error: SourceError) -> ScopeView {
    ScopeView { stream: StreamView::Idle, alert: Some(error_text(error)), ..v }
}

/// The state after a run of device errors, oldest first.
pub open spec fn faulted_all(v: ScopeView, errors: Seq<SourceError>) -> ScopeView
    decreases errors.len(),
{
    if errors.len() == 0 {
        v
    } else {
        faulted(faulted_all(v, errors.drop_last()), errors.last())
    }
}

/// The application core of the audio scope.
pub struct App<S: CaptureSource> {
    device_names: DeviceList,
    stream: StreamState,
    is_running: bool,
    show_usage: bool,
    audio_buffer: Vec<Vec<Sample>>,
    limit: usize,
    alert: AlertSlot,
    capture: Inbox<CaptureFrame>,
    sink: CaptureProducer,
    source: Heard<S>,
}

impl<S: CaptureSource> View for App<S> {
    type V = ScopeView;

    closed spec fn view(&self) -> ScopeView {
        ScopeView {
            list: self.device_names@,
            stream: self.stream@,
            running: self.is_running,
            usage: self.show_usage,
            channels: channels_view(self.audio_buffer@),
            limit: self.limit as nat,
            alert: self.alert@,
            asked: self.source.asked(),
        }
    }
}

impl<S: CaptureSource> App<S> {
    /// The cursor of the device list is on a row of the list.
    pub closed spec fn wf(&self) -> bool {
        list_wf(self.device_names@)
    }

    /// In a well-formed scope the cursor of the device list, and the row
    /// that was confirmed, are rows of the list.
    pub proof fn lemma_wf(&self)
        requires
            self.wf(),
        ensures
            list_wf(self@.list),
    {
    }

    /// Frames taken from the capture queue so far.
    pub closed spec fn frames(&self) -> Seq<FrameView> {
        self.capture.received()
    }

    /// Errors that the device reported so far.
    pub closed spec fn faults(&self) -> Seq<SourceError> {
        messages_of(self.source.fault_answers())
    }

    /// What the capture queue answered each time it was asked.
    pub closed spec fn frame_answers(&self) -> Seq<Option<FrameView>> {
        self.capture.answers()
    }

    /// What the device answered each time it was asked for its next error.
    pub closed spec fn fault_answers(&self) -> Seq<Option<SourceError>> {
        self.source.fault_answers()
    }

    /// What was taken is what was answered, less the times the answer was
    /// nothing.
    pub proof fn lemma_taken_of_answers(&self)
        ensures
            self.frames() == messages_of(self.frame_answers()),
            self.faults() == messages_of(self.fault_answers()),
    {
        self.capture.lemma_received();
    }

    /// A scope on `source` that keeps [`HISTORY`] samples of each channel.
    pub fn new(source: S) -> (app: Self)
        ensures
            app.wf(),
            Self::fresh(app@, HISTORY as nat),
            app.frames() == Seq::<FrameView>::empty(),
            app.faults() == Seq::<SourceError>::empty(),
            app.frame_answers() == Seq::<Option<FrameView>>::empty(),
            app.fault_answers() == Seq::<Option<SourceError>>::empty(),
    {
        Self::with_capacity(source, HISTORY)
    }

    /// The view of a scope that has just been made: running, with no device
    /// listed, no stream open and nothing to show.
    pub open spec fn fresh(v: ScopeView, limit: nat) -> bool {
        &&& v.list == (ListView { items: Seq::empty(), cursor: None, confirmed: None })
        &&& v.stream is Idle
        &&& v.running
        &&& !v.usage
        &&& v.channels == Seq::<Seq<Sample>>::empty()
        &&& v.limit == limit
        &&& v.alert is None
        &&& v.asked == Seq::<Request>::empty()
    }

    /// A scope on `source` that keeps `limit` samples of each channel.
    pub fn with_capacity(source: S, limit: usize) -> (app: Self)
        ensures
            app.wf(),
            Self::fresh(app@, limit as nat),
            app.frames() == Seq::<FrameView>::empty(),
            app.faults() == Seq::<SourceError>::empty(),
            app.frame_answers() == Seq::<Option<FrameView>>::empty(),
            app.fault_answers() == Seq::<Option<SourceError>>::empty(),
    {
        let (sink, capture) = capture_channel();
        let app = App {
            device_names: DeviceList::with_items(Vec::new()),
            stream: StreamState::Idle,
            is_running: true,
            show_usage: false,
            audio_buffer: Vec::new(),
            limit,
            alert: AlertSlot::new(),
            capture,
            sink,
            source: Heard::new(source),
        };
        assert(app@.channels =~= Seq::<Seq<Sample>>::empty());
        assert(app@.list.items =~= Seq::<Seq<char>>::empty());
        app
    }

    /// Names of the input devices, as last enumerated.
    pub fn devices(&self) -> (names: &Vec<String>)
        ensures
            names_view(names@) == self@.list.items,
    {
        self.device_names.items()
    }

    /// The row of the device list under the cursor.
    pub fn cursor(&self) -> (row: Option<usize>)
        ensures
            row == self@.list.cursor,
    {
        self.device_names.selected()
    }

    /// Name of the device on which a stream is open.
    pub fn selection(&self) -> (name: Option<&str>)
        ensures
            match name {
                Some(n) => selection(self@) == Some(n@),
                None => selection(self@) is None,
            },
    {
        match &self.stream {
            StreamState::Active { device, .. } => Some(device.name.as_str()),
            StreamState::Idle => None,
        }
    }

    pub fn running(&self) -> (running: bool)
        ensures
            running == self@.running,
    {
        self.is_running
    }

    pub fn usage_shown(&self) -> (shown: bool)
        ensures
            shown == self@.usage,
    {
        self.show_usage
    }

    /// The newest samples of each channel.
    pub fn channels(&self) -> (channels: &Vec<Vec<Sample>>)
        ensures
            channels_view(channels@) == self@.channels,
    {
        &self.audio_buffer
    }

    /// Takes the alert that waits to be shown, if any.
    pub fn take_alert(&mut self) -> (text: Option<String>)
        ensures
            final(self).wf() == old(self).wf(),
            name_view(text) == old(self)@.alert,
            final(self)@ == (ScopeView { alert: None, ..old(self)@ }),
            final(self).frames() == old(self).frames(),
            final(self).faults() == old(self).faults(),
            final(self).frame_answers() == old(self).frame_answers(),
            final(self).fault_answers() == old(self).fault_answers(),
    {
        self.alert.take()
    }

    /// Moves the samples out, channel by channel, and leaves the scope with
    /// nothing to show.
    pub fn take_messages(&mut self) -> (channels: Vec<Vec<Sample>>)
        ensures
            final(self).wf() == old(self).wf(),
            channels_view(channels@) == old(self)@.channels,
            final(self)@ == (ScopeView { channels: Seq::empty(), ..old(self)@ }),
            final(self).frames() == old(self).frames(),
            final(self).faults() == old(self).faults(),
            final(self).frame_answers() == old(self).frame_answers(),
            final(self).fault_answers() == old(self).fault_answers(),
    {
        let mut channels: Vec<Vec<Sample>> = Vec::new();
        core::mem::swap(&mut channels, &mut self.audio_buffer);
        assert(channels_view(self.audio_buffer@) =~= Seq::<Seq<Sample>>::empty());
        channels
    }

    /// Takes the answer of the capture source to a request for its devices:
    /// the list is what it named, with the cursor on no row. If it could not
    /// name them the old list stays and its error is handed on.
    pub fn settle_listing(&mut self, listing: Result<Vec<String>, SourceError>) -> (done: Result<
        (),
        AppError,
    >)
        ensures
            done is Ok ==> final(self).wf(),
            done is Err ==> final(self).wf() == old(self).wf(),
            done == listing_outcome(listing_view(listing)),
            final(self)@ == relisted(old(self)@, listing_view(listing)),
            final(self).frames() == old(self).frames(),
            final(self).faults() == old(self).faults(),
            final(self).frame_answers() == old(self).frame_answers(),
            final(self).fault_answers() == old(self).fault_answers(),
    {
        match listing {
            Ok(names) => {
                self.device_names = DeviceList::with_items(names);
                Ok(())
            },
            Err(e) => Err(AppError::Source(e)),
        }
    }

    /// Lists the input devices anew. The source is asked for its devices;
    /// what follows from its answer is [`App::settle_listing`].
    pub fn update_device_list(&mut self) -> (done: Result<(), AppError>)
        ensures
            done is Ok ==> final(self).wf(),
            done is Err ==> final(self).wf() == old(self).wf(),
            final(self).frames() == old(self).frames(),
            final(self).faults() == old(self).faults(),
            final(self).frame_answers() == old(self).frame_answers(),
            final(self).fault_answers() == old(self).fault_answers(),
            exists|listing: Result<Seq<Seq<char>>, SourceError>|
                final(self)@ == #[trigger] asked_to_list(old(self)@, listing) && done
                    == listing_outcome(listing),
    {
        let listing = self.source.enumerate();
        let ghost answer = listing_view(listing);
        let done = self.settle_listing(listing);
        assert(self@ == asked_to_list(old(self)@, answer));
        done
    }

    /// Takes the answer of the capture source to a request to open the
    /// device at `row` of the list: the stream is on that device, or no
    /// stream is open and the error of the source is handed on.
    pub fn settle_open(&mut self, row: usize, answer: Result<StreamConfig, SourceError>) -> (done:
        Result<(), AppError>)
        ensures
            final(self).wf() == old(self).wf(),
            done == open_outcome(answer),
            final(self)@ == settled_open(old(self)@, row as int, answer),
            final(self).frames() == old(self).frames(),
            final(self).faults() == old(self).faults(),
            final(self).frame_answers() == old(self).frame_answers(),
            final(self).fault_answers() == old(self).fault_answers(),
    {
        if row < self.device_names.items().len() {
            match answer {
                Ok(config) => {
                    let name = self.device_names.items()[row].clone();
                    self.stream = StreamState::Active {
                        device: DeviceHandle { index: row, name },
                        config,
                    };
                },
                Err(_) => {
                    self.stream = StreamState::Idle;
                },
            }
        }
        match answer {
            Ok(_) => Ok(()),
            Err(e) => Err(AppError::Source(e)),
        }
    }

    /// Asks the source to open the device at `row`, which the caller knows
    /// to be listed, and folds its answer into the state.
    fn open_at(&mut self, row: usize) -> (answer: Result<StreamConfig, SourceError>)
        requires
            old(self).wf(),
            row < old(self)@.list.items.len(),
        ensures
            final(self).wf(),
            final(self)@ == opened(old(self)@, row, answer),
            final(self).frames() == old(self).frames(),
            final(self).faults() == old(self).faults(),
            final(self).frame_answers() == old(self).frame_answers(),
            final(self).fault_answers() == old(self).fault_answers(),
    {
        let sink = self.sink.handle();
        let answer = self.source.open(self.device_names.items()[row].as_str(), sink);
        let _ = self.settle_open(row, answer);
        answer
    }

    /// Opens a stream on the device under the cursor, in place of the stream
    /// that was open.
    pub fn connect(&mut self) -> (done: Result<(), AppError>)
        requires
            old(self).wf(),
        ensures
            final(self).wf(),
            final(self).frames() == old(self).frames(),
            final(self).faults() == old(self).faults(),
            final(self).frame_answers() == old(self).frame_answers(),
            final(self).fault_answers() == old(self).fault_answers(),
            match old(self)@.list.cursor {
                None => done == Err::<(), AppError>(AppError::NoSelection) && final(self)@ == old(
                    self,
                )@,
                Some(row) => exists|answer: Result<StreamConfig, SourceError>|
                    final(self)@ == #[trigger] opened(old(self)@, row, answer) && done
                        == open_outcome(answer),
            },
    {
        match self.device_names.selected() {
            None => Err(AppError::NoSelection),
            Some(row) => {
                let answer = self.open_at(row);
                assert(self@ == opened(old(self)@, row, answer));
                match answer {
                    Ok(_) => Ok(()),
                    Err(e) => Err(AppError::Source(e)),
                }
            },
        }
    }

    /// Confirms the row under the cursor, lets the flow go, forgets the
    /// samples and opens a stream on the device of that row.
    fn enter(&mut self, row: usize) -> (answer: Result<StreamConfig, SourceError>)
        requires
            old(self).wf(),
            old(self)@.list.cursor == Some(row),
        ensures
            final(self).wf(),
            final(self).frames() == old(self).frames(),
            final(self).faults() == old(self).faults(),
            final(self).frame_answers() == old(self).frame_answers(),
            final(self).fault_answers() == old(self).fault_answers(),
            final(self)@ == pressed(old(self)@, Key::Enter, answer),
    {
        self.device_names.confirm_selection();
        self.is_running = true;
        let mut i: usize = 0;
        while i < self.audio_buffer.len()
            invariant
                i <= self.audio_buffer.len(),
                self.audio_buffer.len() == old(self).audio_buffer.len(),
                forall|j: int| 0 <= j < i ==> self.audio_buffer[j]@ == Seq::<Sample>::empty(),
                self.wf(),
                row < self@.list.items.len(),
                self@ == (ScopeView {
                    list: ListView { confirmed: Some(row), ..old(self)@.list },
                    running: true,
                    channels: self@.channels,
                    ..old(self)@
                }),
                self.frames() == old(self).frames(),
                self.faults() == old(self).faults(),
                self.frame_answers() == old(self).frame_answers(),
                self.fault_answers() == old(self).fault_answers(),
            decreases self.audio_buffer.len() - i,
        {
            self.audio_buffer.push(Vec::new());
            self.audio_buffer.swap_remove(i);
            i += 1;
        }
        assert(self@.channels =~= silenced(old(self)@.channels));
        self.open_at(row)
    }

    /// Puts the cursor on `row` and does what Enter does there: the row is
    /// confirmed, the flow is let go, the samples are forgotten and a stream
    /// is opened on the device of that row. A row outside the list is
    /// ignored.
    pub fn connect_by_index(&mut self, row: usize) -> (done: Result<(), AppError>)
        requires
            old(self).wf(),
        ensures
            final(self).wf(),
            final(self).frames() == old(self).frames(),
            final(self).faults() == old(self).faults(),
            final(self).frame_answers() == old(self).frame_answers(),
            final(self).fault_answers() == old(self).fault_answers(),
            row >= old(self)@.list.items.len() ==> done is Ok && final(self)@ == old(self)@,
            row < old(self)@.list.items.len() ==> exists|answer: Result<StreamConfig, SourceError>|
                final(self)@ == #[trigger] pressed(pointed(old(self)@, row), Key::Enter, answer)
                    && done == open_outcome(answer),
    {
        if row >= self.device_names.items().len() {
            return Ok(());
        }
        self.device_names.select(row);
        let answer = self.enter(row);
        assert(self@ == pressed(pointed(old(self)@, row), Key::Enter, answer));
        match answer {
            Ok(_) => Ok(()),
            Err(e) => Err(AppError::Source(e)),
        }
    }

    /// Reacts to a key.
    ///
    /// `?` shows or hides the help. `q` and escape hide the help if it is
    /// shown and leave the application otherwise. Space holds the flow back
    /// or lets it go. `j` and `k`, like the arrows, move the cursor down and
    /// up. Enter on a row confirms it, lets the flow go, forgets the samples
    /// and opens a stream on the device of that row.
    pub fn on_keypress(&mut self, key: Key) -> (done: Result<Flow, AppError>)
        requires
            old(self).wf(),
        ensures
            final(self).wf(),
            final(self).frames() == old(self).frames(),
            final(self).faults() == old(self).faults(),
            final(self).frame_answers() == old(self).frame_answers(),
            final(self).fault_answers() == old(self).fault_answers(),
            exists|answer: Result<StreamConfig, SourceError>|
                final(self)@ == #[trigger] pressed(old(self)@, key, answer) && done
                    == press_outcome(old(self)@, key, answer),
    {
        let ghost idle: Result<StreamConfig, SourceError> = Err(SourceError::OpenFailed);
        match key {
            Key::Char('?') => {
                self.show_usage = !self.show_usage;
            },
            Key::Char('q') | Key::Esc => {
                if self.show_usage {
                    self.show_usage = false;
                } else {
                    assert(self@ == pressed(old(self)@, key, idle));
                    return Ok(Flow::Exit);
                }
            },
            Key::Char(' ') => {
                self.is_running = !self.is_running;
            },
            Key::Down | Key::Char('j') => {
                self.device_names.next();
            },
            Key::Up | Key::Char('k') => {
                self.device_names.previous();
            },
            Key::Enter => {
                match self.device_names.selected() {
                    Some(row) => {
                        let answer = self.enter(row);
                        return match answer {
                            Ok(_) => Ok(Flow::Continue),
                            Err(e) => Err(AppError::Source(e)),
                        };
                    },
                    None => {},
                }
            },
            _ => {},
        }
        assert(self@ == pressed(old(self)@, key, idle));
        Ok(Flow::Continue)
    }

    /// Takes an error that the device reported: it leaves the scope without
    /// a stream and with an alert that says what happened.
    pub fn settle_fault(&mut self, error: SourceError)
        ensures
            final(self).wf() == old(self).wf(),
            final(self)@ == faulted(old(self)@, error),
            final(self).frames() == old(self).frames(),
            final(self).faults() == old(self).faults(),
            final(self).frame_answers() == old(self).frame_answers(),
            final(self).fault_answers() == old(self).fault_answers(),
    {
        self.stream = StreamState::Idle;
        self.alert.post(error.message());
    }

    /// One pump of the scope. The device is asked for its errors until it
    /// answers nothing or [`FAULT_BUDGET`] errors are taken: each leaves the
    /// scope without a stream and with an alert. Then, unless the flow is
    /// held back, the capture queue is asked until it answers nothing or as
    /// many frames are taken as the queue has slots, and each frame is folded
    /// into the buffers, oldest first.
    pub fn update(&mut self) -> (flow: Flow)
        ensures
            final(self).wf() == old(self).wf(),
            grew(old(self).faults(), final(self).faults()),
            grew(old(self).frames(), final(self).frames()),
            ({
                let errors = added(old(self).faults(), final(self).faults());
                let frames = added(old(self).frames(), final(self).frames());
                let checked = faulted_all(old(self)@, errors);
                &&& errors.len() <= FAULT_BUDGET
                &&& frames.len() <= CAPTURE_SLOTS
                &&& !old(self)@.running ==> frames.len() == 0
                &&& final(self)@ == (ScopeView {
                    channels: merged_all(checked.channels, frames, checked.limit),
                    ..checked
                })
                &&& flow == if old(self)@.running {
                    Flow::Continue
                } else {
                    Flow::Loop
                }
                &&& final(self).fault_answers() == old(self).fault_answers() + drained(
                    errors,
                    ran_dry(errors.len(), FAULT_BUDGET as nat, false),
                )
                &&& final(self).frame_answers() == old(self).frame_answers() + if old(
                    self,
                )@.running {
                    drained(frames, ran_dry(frames.len(), CAPTURE_SLOTS as nat, false))
                } else {
                    Seq::empty()
                }
            }),
    {
        let ghost start = self@;
        let ghost faults_asked = self.source.fault_answers();
        let ghost faults_before = messages_of(faults_asked);
        let ghost frames_asked = self.capture.answers();
        let ghost frames_before = self.capture.received();
        let ghost mut errors: Seq<SourceError> = Seq::empty();
        let ghost mut dry = false;
        proof {
            assert(faults_asked + drained(errors, false) =~= faults_asked);
            lemma_grew_by(frames_before, Seq::<FrameView>::empty());
            assert(frames_before + Seq::<FrameView>::empty() =~= frames_before);
            assert(frames_asked + Seq::<Option<FrameView>>::empty() =~= frames_asked);
        }
        let mut budget: usize = FAULT_BUDGET;
        while budget > 0
            invariant
                start == old(self)@,
                faults_asked == old(self).fault_answers(),
                self.wf() == old(self).wf(),
                self.frames() == old(self).frames(),
                self.frame_answers() == old(self).frame_answers(),
                self@.running == start.running,
                self@.limit == start.limit,
                self.source.fault_answers() == faults_asked + drained(errors, dry),
                dry ==> budget == 0 && errors.len() < FAULT_BUDGET,
                !dry ==> errors.len() + budget == FAULT_BUDGET,
                self@ == faulted_all(start, errors),
            decreases budget,
        {
            budget = budget - 1;
            match self.source.poll_error() {
                None => {
                    proof {
                        dry = true;
                        assert(self.source.fault_answers() =~= faults_asked + drained(
                            errors,
                            true,
                        ));
                    }
                    budget = 0;
                },
                Some(error) => {
                    let ghost so_far = errors;
                    self.settle_fault(error);
                    proof {
                        errors = so_far.push(error);
                        assert(errors.drop_last() =~= so_far);
                        assert(self.source.fault_answers() =~= faults_asked + drained(
                            errors,
                            false,
                        ));
                    }
                },
            }
        }
        proof {
            lemma_messages_of_drained(faults_asked, errors, dry);
            lemma_grew_by(faults_before, errors);
        }
        if !self.is_running {
            return Flow::Loop;
        }
        let ghost checked = self@;
        let ghost mut frames: Seq<FrameView> = Seq::empty();
        let ghost mut empty = false;
        proof {
            assert(frames_asked + drained(frames, false) =~= frames_asked);
        }
        let mut budget: usize = CAPTURE_SLOTS;
        while budget > 0
            invariant
                frames_before == old(self).frames(),
                frames_asked == old(self).frame_answers(),
                checked == faulted_all(old(self)@, errors),
                checked.running,
                old(self)@.running,
                self.wf() == old(self).wf(),
                self.faults() == faults_before + errors,
                self.fault_answers() == faults_asked + drained(
                    errors,
                    ran_dry(errors.len(), FAULT_BUDGET as nat, false),
                ),
                self.capture.received() == frames_before + frames,
                self.capture.answers() == frames_asked + drained(frames, empty),
                empty ==> budget == 0 && frames.len() < CAPTURE_SLOTS,
                !empty ==> frames.len() + budget == CAPTURE_SLOTS,
                self@ == (ScopeView {
                    channels: merged_all(checked.channels, frames, checked.limit),
                    ..checked
                }),
            decreases budget,
        {
            budget = budget - 1;
            match self.capture.poll() {
                None => {
                    proof {
                        empty = true;
                        assert(self.capture.answers() =~= frames_asked + drained(frames, true));
                    }
                    budget = 0;
                },
                Some(frame) => {
                    let ghost so_far = frames;
                    match &frame {
                        CaptureFrame::Audio { channels } => {
                            merge(&mut self.audio_buffer, channels, self.limit);
                        },
                        CaptureFrame::Midi { .. } => {},
                    }
                    proof {
                        frames = so_far.push(frame@);
                        assert(frames.drop_last() =~= so_far);
                        assert(self.capture.received() =~= frames_before + frames);
                        assert(self.capture.answers() =~= frames_asked + drained(frames, false));
                    }
                },
            }
        }
        proof {
            lemma_grew_by(frames_before, frames);
        }
        Flow::Continue
    }
}

/// Whether every frame of `frames` is an audio frame of `count` channels.
pub open spec fn uniform(frames: Seq<FrameView>, count: nat) -> bool {
    forall|i: int|
        0 <= i < frames.len() ==> (#[trigger] frames[i] matches FrameView::Audio { channels }
            && channels.len() == count)
}

/// The samples of channel `channel` in a run of audio frames, frame after
/// frame.
pub open spec fn strand(frames: Seq<FrameView>, channel: int) -> Seq<Sample>
    decreases frames.len(),
{
    if frames.len() == 0 {
        Seq::empty()
    } else {
        strand(frames.drop_last(), channel) + match frames.last() {
            FrameView::Audio { channels } => channels[channel],
            FrameView::Midi { .. } => Seq::empty(),
        }
    }
}

/// A scope with nothing to show that takes a run of audio frames, all of
/// the same number of channels, shows for each channel the samples of that
/// channel in the order in which the frames came, and of these the newest
/// that it has room for. So where the capture queue overflowed and kept the
/// frames that came first, the scope shows those frames, channel by channel
/// and in order, and no sample of a frame that was dropped.
pub proof fn lemma_scope_shows_each_channel_in_order(frames: Seq<FrameView>, count: nat, limit: nat)
    requires
        frames.len() > 0,
        uniform(frames, count),
    ensures
        merged_all(Seq::empty(), frames, limit).len() == count,
        forall|c: int|
            0 <= c < count ==> #[trigger] merged_all(Seq::empty(), frames, limit)[c] == newest(
                strand(frames, c),
                limit,
            ),
    decreases frames.len(),
{
    let front = frames.drop_last();
    let data = frames.last()->Audio_channels;
    assert(frames[frames.len() - 1] is Audio);
    let before = merged_all(Seq::<Seq<Sample>>::empty(), front, limit);
    let after = merged_all(Seq::<Seq<Sample>>::empty(), frames, limit);
    assert(after == merged(before, data, limit));
    if front.len() == 0 {
        let room = resized(before, data.len());
        assert forall|c: int| 0 <= c < count implies #[trigger] after[c] == newest(
            strand(frames, c),
            limit,
        ) by {
            assert(room[c] =~= Seq::<Sample>::empty());
            assert(room[c] + data[c] =~= data[c]);
            assert(strand(front, c) + data[c] =~= data[c]);
        }
    } else {
        assert forall|i: int| 0 <= i < front.len() implies (
        #[trigger] front[i] matches FrameView::Audio { channels } && channels.len() == count) by {
            assert(front[i] == frames[i]);
        }
        lemma_scope_shows_each_channel_in_order(front, count, limit);
        assert(resized(before, data.len()) =~= before);
        assert forall|c: int| 0 <= c < count implies #[trigger] after[c] == newest(
            strand(frames, c),
            limit,
        ) by {
            lemma_newest_append(strand(front, c), data[c], limit);
        }
    }
}

/// A frame that arrives at an empty scope is shown as it came, if none of
/// its channels is longer than the scope keeps.
pub proof fn lemma_first_frame(data: Seq<Seq<Sample>>, limit: nat)
    requires
        forall|i: int| 0 <= i < data.len() ==> #[trigger] data[i].len() <= limit,
    ensures
        merged(Seq::<Seq<Sample>>::empty(), data, limit) == data,
{
    let room = resized(Seq::<Seq<Sample>>::empty(), data.len());
    assert forall|i: int| 0 <= i < data.len() implies newest(room[i] + data[i], limit)
        == data[i] by {
        assert(room[i] + data[i] =~= data[i]);
    }
    assert(merged(Seq::<Seq<Sample>>::empty(), data, limit) =~= data);
}

} // verus!
