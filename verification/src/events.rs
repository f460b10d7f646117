//! The data that moves between the device, the application and the script
//! worker, each with the mathematical view that the contracts speak of.
use vstd::prelude::*;

verus! {

/// One audio sample, held as the bit pattern of its 32-bit float.
///
/// The engine moves samples and never computes with them, so the bits are all
/// it needs; the edges of the program convert to and from floats.
#[derive(Clone, Copy, Debug, PartialEq, Eq, Structural)]
pub struct Sample {
    pub bits: u32,
}

/// One unit of data produced by the device thread.
#[derive(Clone, Debug, PartialEq, Eq)]
pub enum CaptureFrame {
    /// One block of audio: a run of samples for each channel.
    Audio { channels: Vec<Vec<Sample>> },
    /// One MIDI message with its monotonic timestamp in nanoseconds.
    Midi { bytes: Vec<u8>, timestamp: u64 },
}

pub enum FrameView {
    Audio { channels: Seq<Seq<Sample>> },
    Midi { bytes: Seq<u8>, timestamp: u64 },
}

/// The sample runs of a list of channels.
pub open spec fn channels_view(channels: Seq<Vec<Sample>>) -> Seq<Seq<Sample>> {
    Seq::new(channels.len(), |i: int| channels[i]@)
}

/// The texts of a list of names.
pub open spec fn names_view(names: Seq<String>) -> Seq<Seq<char>> {
    Seq::new(names.len(), |i: int| names[i]@)
}

/// The text of an optional name.
pub open spec fn name_view(name: Option<String>) -> Option<Seq<char>> {
    match name {
        Some(n) => Some(n@),
        None => None,
    }
}

impl View for CaptureFrame {
    type V = FrameView;

    open spec fn view(&self) -> FrameView {
        match self {
            CaptureFrame::Audio { channels } => FrameView::Audio {
                channels: channels_view(channels@),
            },
            CaptureFrame::Midi { bytes, timestamp } => FrameView::Midi {
                bytes: bytes@,
                timestamp: *timestamp,
            },
        }
    }
}

/// What a script may ask of the flow of captured data.
#[derive(Clone, Copy, Debug, PartialEq, Eq, Structural)]
pub enum ControlRequest {
    Pause,
    Resume,
    Stop,
}

/// Host to script.
#[derive(Clone, Debug, PartialEq, Eq)]
pub enum HostEvent {
    Connect(String),
    Disconnect,
    Discover(Vec<String>),
    LoadScript { name: String, source: String },
    Stop,
    Terminate,
    Audio(CaptureFrame),
    Midi(CaptureFrame),
}

pub enum HostEventView {
    Connect(Seq<char>),
    Disconnect,
    Discover(Seq<Seq<char>>),
    LoadScript { name: Seq<char>, source: Seq<char> },
    Stop,
    Terminate,
    Audio(FrameView),
    Midi(FrameView),
}

impl View for HostEvent {
    type V = HostEventView;

    open spec fn view(&self) -> HostEventView {
        match self {
            HostEvent::Connect(name) => HostEventView::Connect(name@),
            HostEvent::Disconnect => HostEventView::Disconnect,
            HostEvent::Discover(names) => HostEventView::Discover(names_view(names@)),
            HostEvent::LoadScript { name, source } => HostEventView::LoadScript {
                name: name@,
                source: source@,
            },
            HostEvent::Stop => HostEventView::Stop,
            HostEvent::Terminate => HostEventView::Terminate,
            HostEvent::Audio(frame) => HostEventView::Audio(frame@),
            HostEvent::Midi(frame) => HostEventView::Midi(frame@),
        }
    }
}

/// Script to host.
#[derive(Clone, Debug, PartialEq, Eq)]
pub enum ScriptEvent {
    Loaded,
    Log(String),
    Alert(String),
    MidiOut(Vec<u8>),
    Connect(String),
    Control(ControlRequest),
}

pub enum ScriptEventView {
    Loaded,
    Log(Seq<char>),
    Alert(Seq<char>),
    MidiOut(Seq<u8>),
    Connect(Seq<char>),
    Control(ControlRequest),
}

impl View for ScriptEvent {
    type V = ScriptEventView;

    open spec fn view(&self) -> ScriptEventView {
        match self {
            ScriptEvent::Loaded => ScriptEventView::Loaded,
            ScriptEvent::Log(text) => ScriptEventView::Log(text@),
            ScriptEvent::Alert(text) => ScriptEventView::Alert(text@),
            ScriptEvent::MidiOut(bytes) => ScriptEventView::MidiOut(bytes@),
            ScriptEvent::Connect(name) => ScriptEventView::Connect(name@),
            ScriptEvent::Control(request) => ScriptEventView::Control(*request),
        }
    }
}

/// Life of the script worker, as the application sees it.
#[derive(Clone, Copy, Debug, PartialEq, Eq, Structural)]
pub enum EngineEvent {
    Panicked,
    Terminated,
}

impl View for EngineEvent {
    type V = EngineEvent;

    open spec fn view(&self) -> EngineEvent {
        *self
    }
}

/// What a pump of the application tells the loop that drives it.
#[derive(Clone, Copy, Debug, PartialEq, Eq, Structural)]
pub enum AppEvent {
    Continue,
    Stopping,
    ScriptCrash,
    ScriptLoaded,
}

/// What went wrong at a capture source.
#[derive(Clone, Copy, Debug, PartialEq, Eq, Structural)]
pub enum SourceError {
    Enumerate,
    OpenFailed,
    FormatUnsupported,
    DeviceLost,
}

/// Shape of an open stream.
#[derive(Clone, Copy, Debug, PartialEq, Eq, Structural)]
pub struct StreamConfig {
    pub channels: u16,
    pub sample_rate: u32,
}

/// An input device of one enumeration: its place in the snapshot and its
/// name, which is unique within the snapshot.
#[derive(Clone, Debug, PartialEq, Eq)]
pub struct DeviceHandle {
    pub index: usize,
    pub name: String,
}

/// Whether a stream is open, and on what.
#[derive(Clone, Debug, PartialEq, Eq)]
pub enum StreamState {
    Idle,
    Active { device: DeviceHandle, config: StreamConfig },
}

pub enum StreamView {
    Idle,
    Active { index: usize, name: Seq<char>, config: StreamConfig },
}

impl View for StreamState {
    type V = StreamView;

    open spec fn view(&self) -> StreamView {
        match self {
            StreamState::Idle => StreamView::Idle,
            StreamState::Active { device, config } => StreamView::Active {
                index: device.index,
                name: device.name@,
                config: *config,
            },
        }
    }
}

/// An entry of the recent history that the renderer shows.
#[derive(Clone, Debug, PartialEq, Eq)]
pub enum Message {
    /// A frame that came from the device.
    Captured(CaptureFrame),
    /// MIDI bytes that the script sent out.
    Emitted(Vec<u8>),
}

pub enum MessageView {
    Captured(FrameView),
    Emitted(Seq<u8>),
}

impl View for Message {
    type V = MessageView;

    open spec fn view(&self) -> MessageView {
        match self {
            Message::Captured(frame) => MessageView::Captured(frame@),
            Message::Emitted(bytes) => MessageView::Emitted(bytes@),
        }
    }
}

/// The views of a run of messages.
pub open spec fn messages_view(messages: Seq<Message>) -> Seq<MessageView> {
    Seq::new(messages.len(), |i: int| messages[i]@)
}

/// An error that keeps the application from doing what its caller asked.
#[derive(Clone, Copy, Debug, PartialEq, Eq, Structural)]
pub enum AppError {
    /// The script path does not name a regular file.
    InvalidScript,
    /// The script file could not be read.
    UnreadableScript,
    /// The worker did not confirm the script before the deadline.
    DeadlineExceeded,
    /// No row of the device list is under the cursor.
    NoSelection,
    /// The capture source refused.
    Source(SourceError),
}

/// The message that tells the user of `error`.
pub open spec fn error_text(error: SourceError) -> Seq<char> {
    match error {
        SourceError::Enumerate => "the input devices could not be listed"@,
        SourceError::OpenFailed => "the input device could not be opened"@,
        SourceError::FormatUnsupported => "the input device offers no format that can be read"@,
        SourceError::DeviceLost => "the input device was lost"@,
    }
}

impl SourceError {
    /// The message that tells the user of this error.
    pub fn message(&self) -> (text: String)
        ensures
            text@ == error_text(*self),
    {
        match self {
            SourceError::Enumerate => "the input devices could not be listed".to_owned(),
            SourceError::OpenFailed => "the input device could not be opened".to_owned(),
            SourceError::FormatUnsupported => "the input device offers no format that can be read".to_owned(),
            SourceError::DeviceLost => "the input device was lost".to_owned(),
        }
    }
}

/// The message that tells the caller of `error`.
pub open spec fn app_error_text(error: AppError) -> Seq<char> {
    match error {
        AppError::InvalidScript => "Invalid script path or type"@,
        AppError::UnreadableScript => "The script could not be read"@,
        AppError::DeadlineExceeded => "Failed to load script in time"@,
        AppError::NoSelection => "No input device is selected"@,
        AppError::Source(e) => error_text(e),
    }
}

impl AppError {
    /// The message that tells the caller of this error.
    pub fn message(&self) -> (text: String)
        ensures
            text@ == app_error_text(*self),
    {
        match self {
            AppError::InvalidScript => "Invalid script path or type".to_owned(),
            AppError::UnreadableScript => "The script could not be read".to_owned(),
            AppError::DeadlineExceeded => "Failed to load script in time".to_owned(),
            AppError::NoSelection => "No input device is selected".to_owned(),
            AppError::Source(e) => e.message(),
        }
    }
}

/// What a request to open a device answers to its caller, given what the
/// capture source answered.
pub open spec fn open_outcome(answer: Result<StreamConfig, SourceError>) -> Result<(), AppError> {
    match answer {
        Ok(_) => Ok(()),
        Err(e) => Err(AppError::Source(e)),
    }
}

/// What a capture source answered when it was asked for its devices, with
/// the names as texts.
pub open spec fn listing_view(listing: Result<Vec<String>, SourceError>) -> Result<
    Seq<Seq<char>>,
    SourceError,
> {
    match listing {
        Ok(names) => Ok(names_view(names@)),
        Err(e) => Err(e),
    }
}

/// What a request to list the devices anew answers to its caller, given
/// what the capture source answered.
pub open spec fn listing_outcome(listing: Result<Seq<Seq<char>>, SourceError>) -> Result<
    (),
    AppError,
> {
    match listing {
        Ok(_) => Ok(()),
        Err(e) => Err(AppError::Source(e)),
    }
}

/// The first place at which `name` stands in `names`.
pub open spec fn position(names: Seq<Seq<char>>, name: Seq<char>) -> Option<int>
    decreases names.len(),
{
    if names.len() == 0 {
        None
    } else {
        match position(names.drop_last(), name) {
            Some(i) => Some(i),
            None => if names.last() == name {
                Some(names.len() - 1)
            } else {
                None
            },
        }
    }
}

/// `position` finds the first occurrence, and finds one if there is any.
pub proof fn lemma_position(names: Seq<Seq<char>>, name: Seq<char>)
    ensures
        match position(names, name) {
            Some(i) => 0 <= i < names.len() && names[i] == name && forall|j: int|
                0 <= j < i ==> names[j] != name,
            None => forall|j: int| 0 <= j < names.len() ==> names[j] != name,
        },
    decreases names.len(),
{
    if names.len() > 0 {
        let front = names.drop_last();
        lemma_position(front, name);
        assert forall|j: int| 0 <= j < front.len() implies front[j] == names[j] by {}
    }
}

/// The first place at which a name with the text of `name` stands in `names`.
pub fn find_name(names: &Vec<String>, name: &str) -> (found: Option<usize>)
    ensures
        match found {
            Some(i) => position(names_view(names@), name@) == Some(i as int),
            None => position(names_view(names@), name@) is None,
        },
{
    let wanted = name.to_owned();
    let mut i: usize = 0;
    while i < names.len()
        invariant
            i <= names.len(),
            wanted@ == name@,
            forall|j: int| 0 <= j < i ==> names[j]@ != name@,
        decreases names.len() - i,
    {
        if names[i] == wanted {
            proof {
                let texts = names_view(names@);
                lemma_position(texts, name@);
                assert(texts[i as int] == name@);
                assert forall|j: int| 0 <= j < i implies texts[j] != name@ by {
                    assert(texts[j] == names[j]@);
                }
            }
            return Some(i);
        }
        i += 1;
    }
    proof {
        let texts = names_view(names@);
        lemma_position(texts, name@);
        assert forall|j: int| 0 <= j < texts.len() implies texts[j] != name@ by {
            assert(texts[j] == names[j]@);
        }
    }
    None
}

/// A copy of `bytes`.
pub fn copy_bytes(bytes: &Vec<u8>) -> (copy: Vec<u8>)
    ensures
        copy@ == bytes@,
{
    let mut copy: Vec<u8> = Vec::new();
    let mut i: usize = 0;
    while i < bytes.len()
        invariant
            i <= bytes.len(),
            copy@ == bytes@.subrange(0, i as int),
        decreases bytes.len() - i,
    {
        copy.push(bytes[i]);
        i += 1;
    }
    assert(bytes@.subrange(0, bytes.len() as int) == bytes@);
    copy
}

/// A copy of `samples`.
pub fn copy_samples(samples: &Vec<Sample>) -> (copy: Vec<Sample>)
    ensures
        copy@ == samples@,
{
    let mut copy: Vec<Sample> = Vec::new();
    let mut i: usize = 0;
    while i < samples.len()
        invariant
            i <= samples.len(),
            copy@ == samples@.subrange(0, i as int),
        decreases samples.len() - i,
    {
        copy.push(samples[i]);
        i += 1;
    }
    assert(samples@.subrange(0, samples.len() as int) == samples@);
    copy
}

/// A copy of `names`, text for text.
pub fn copy_names(names: &Vec<String>) -> (copy: Vec<String>)
    ensures
        names_view(copy@) == names_view(names@),
{
    let mut copy: Vec<String> = Vec::new();
    let mut i: usize = 0;
    while i < names.len()
        invariant
            i <= names.len(),
            copy.len() == i,
            forall|k: int| 0 <= k < i ==> copy[k]@ == names[k]@,
        decreases names.len() - i,
    {
        copy.push(names[i].clone());
        i += 1;
    }
    assert(names_view(copy@) =~= names_view(names@));
    copy
}

/// The first `count` samples of channel `channel` among `samples`, which
/// hold one sample of each of `channels` channels in turn.
pub open spec fn lane(samples: Seq<Sample>, channels: int, channel: int, count: int) -> Seq<Sample> {
    Seq::new(count as nat, |k: int| samples[k * channels + channel])
}

/// How many samples of each channel are taken from `len` interleaved samples
/// of `channels` channels when each channel has room for `room`: the whole
/// rounds that the samples hold, but no more than there is room for.
pub open spec fn rounds(len: int, channels: int, room: int) -> int {
    if channels <= 0 {
        0
    } else if len / channels < room {
        len / channels
    } else {
        room
    }
}

/// Splits interleaved `samples` into one run for each channel. There are as
/// many channels as `lanes` has runs; each run is filled anew with the
/// samples of its channel, up to `room` of them. Samples behind the last
/// whole round are left out. Without channels nothing is done.
pub fn deinterleave_into(samples: &Vec<Sample>, lanes: &mut Vec<Vec<Sample>>, room: usize)
    ensures
        final(lanes).len() == old(lanes).len(),
        forall|c: int|
            0 <= c < old(lanes).len() ==> (#[trigger] final(lanes)[c])@ == lane(
                samples@,
                old(lanes).len() as int,
                c,
                rounds(samples@.len() as int, old(lanes).len() as int, room as int),
            ),
{
    let channels = lanes.len();
    if channels == 0 {
        return ;
    }
    let whole = samples.len() / channels;
    let count = if whole < room {
        whole
    } else {
        room
    };
    assert(count * channels <= samples.len()) by (nonlinear_arith)
        requires
            count <= whole,
            whole == samples.len() / channels,
            channels > 0,
    ;
    let mut c: usize = 0;
    while c < channels
        invariant
            c <= channels,
            channels == old(lanes).len(),
            lanes.len() == channels,
            count == rounds(samples@.len() as int, channels as int, room as int),
            count * channels <= samples.len(),
            forall|j: int| 0 <= j < c ==> (#[trigger] lanes[j])@ == lane(
                samples@,
                channels as int,
                j,
                count as int,
            ),
        decreases channels - c,
    {
        let mut run: Vec<Sample> = Vec::new();
        core::mem::swap(&mut run, &mut lanes[c]);
        run.clear();
        let mut k: usize = 0;
        while k < count
            invariant
                k <= count,
                c < channels,
                count * channels <= samples.len(),
                run@ == lane(samples@, channels as int, c as int, k as int),
            decreases count - k,
        {
            assert(k * channels + c < samples.len()) by (nonlinear_arith)
                requires
                    k < count,
                    c < channels,
                    count * channels <= samples.len(),
            ;
            run.push(samples[k * channels + c]);
            k += 1;
            assert(run@ =~= lane(samples@, channels as int, c as int, k as int));
        }
        let ghost before = lanes@;
        core::mem::swap(&mut run, &mut lanes[c]);
        assert forall|j: int| 0 <= j < c + 1 implies (#[trigger] lanes[j])@ == lane(
            samples@,
            channels as int,
            j,
            count as int,
        ) by {
            if j < c {
                assert(lanes[j] == before[j]);
            }
        }
        c += 1;
    }
}

impl CaptureFrame {
    /// A copy of this frame with the same view.
    pub fn duplicate(&self) -> (copy: CaptureFrame)
        ensures
            copy@ == self@,
    {
        match self {
            CaptureFrame::Audio { channels } => {
                let mut out: Vec<Vec<Sample>> = Vec::new();
                let mut i: usize = 0;
                while i < channels.len()
                    invariant
                        i <= channels.len(),
                        out.len() == i,
                        forall|k: int| 0 <= k < i ==> out[k]@ == channels[k]@,
                    decreases channels.len() - i,
                {
                    out.push(copy_samples(&channels[i]));
                    i += 1;
                }
                assert(channels_view(out@) =~= channels_view(channels@));
                CaptureFrame::Audio { channels: out }
            },
            CaptureFrame::Midi { bytes, timestamp } => CaptureFrame::Midi {
                bytes: copy_bytes(bytes),
                timestamp: *timestamp,
            },
        }
    }
}

} // verus!
