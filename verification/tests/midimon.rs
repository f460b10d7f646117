use std::sync::{Arc, Mutex};
use std::time::Duration;

use aud::channel::{CaptureProducer, Offer, WorkerEnds, HOST_SLOTS};
use aud::events::{
    AppError, AppEvent, CaptureFrame, ControlRequest, EngineEvent, HostEvent, Message,
    ScriptEvent, SourceError, StreamConfig,
};
use aud::files::FsWatcher;
use aud::midimon::{App, ScriptFile, HISTORY, TERMINATE_ATTEMPTS};
use aud::source::{CaptureSource, Heard};

#[derive(Default)]
struct Device {
    names: Vec<String>,
    refuse_list: bool,
    refuse_open: Option<SourceError>,
    sink: Option<CaptureProducer>,
    faults: Vec<SourceError>,
    opened: Vec<String>,
    paused: bool,
    closed: u32,
}

struct FakeSource(Arc<Mutex<Device>>);

impl CaptureSource for FakeSource {
    fn enumerate(&mut self) -> Result<Vec<String>, SourceError> {
        let device = self.0.lock().unwrap();
        if device.refuse_list {
            Err(SourceError::Enumerate)
        } else {
            Ok(device.names.clone())
        }
    }

    fn open(&mut self, name: &str, sink: CaptureProducer) -> Result<StreamConfig, SourceError> {
        let mut device = self.0.lock().unwrap();
        if let Some(e) = device.refuse_open {
            device.sink = None;
            return Err(e);
        }
        device.opened.push(name.to_owned());
        device.sink = Some(sink);
        Ok(StreamConfig { channels: 1, sample_rate: 31_250 })
    }

    fn pause(&mut self) {
        self.0.lock().unwrap().paused = true;
    }

    fn resume(&mut self) {
        self.0.lock().unwrap().paused = false;
    }

    fn close(&mut self) {
        let mut device = self.0.lock().unwrap();
        device.closed += 1;
        device.sink = None;
    }

    fn poll_error(&mut self) -> Option<SourceError> {
        let mut device = self.0.lock().unwrap();
        if device.faults.is_empty() {
            None
        } else {
            Some(device.faults.remove(0))
        }
    }
}

fn device(names: &[&str]) -> Arc<Mutex<Device>> {
    Arc::new(Mutex::new(Device {
        names: names.iter().map(|n| n.to_string()).collect(),
        ..Device::default()
    }))
}

fn app_on(device: &Arc<Mutex<Device>>) -> (App<FakeSource>, WorkerEnds) {
    App::new(FakeSource(device.clone()))
}

fn midi(bytes: &[u8], timestamp: u64) -> CaptureFrame {
    CaptureFrame::Midi { bytes: bytes.to_vec(), timestamp }
}

fn capture(device: &Arc<Mutex<Device>>, frame: CaptureFrame) -> bool {
    device.lock().unwrap().sink.as_mut().expect("no stream is open").push(frame)
}

fn say(worker: &mut WorkerEnds, event: ScriptEvent) {
    assert!(matches!(worker.scripts.offer(event), Offer::Sent));
}

fn heard(worker: &mut WorkerEnds) -> Vec<HostEvent> {
    worker.host.drain(HOST_SLOTS)
}

fn script(path: &str, source: &str) -> ScriptFile {
    ScriptFile {
        path: path.to_owned(),
        is_file: true,
        source: Some(source.to_owned()),
        watcher: None,
    }
}

#[test]
fn a_new_application_lists_the_devices_and_has_no_stream() {
    let dev = device(&["A", "B"]);
    let (mut app, mut worker) = app_on(&dev);
    assert_eq!(app.ports(), &vec!["A".to_string(), "B".to_string()]);
    assert_eq!(app.selected_port(), None);
    assert_eq!(app.selected_script(), None);
    assert_eq!(app.loaded_script_path(), None);
    assert!(app.running());
    assert_eq!(app.take_alert(), None);
    assert!(app.take_messages().is_empty());
    assert!(heard(&mut worker).is_empty());
}

#[test]
fn a_failed_enumeration_leaves_an_empty_list_and_an_alert() {
    let dev = device(&["A"]);
    dev.lock().unwrap().refuse_list = true;
    let (mut app, _worker) = app_on(&dev);
    assert!(app.ports().is_empty());
    assert_eq!(app.take_alert(), Some(SourceError::Enumerate.message()));
    assert_eq!(app.take_alert(), None);
}

#[test]
fn connect_by_index_opens_the_device_and_tells_the_worker() {
    let dev = device(&["A", "B"]);
    let (mut app, mut worker) = app_on(&dev);
    assert_eq!(app.connect_to_midi_input_by_index(1), Ok(()));
    assert_eq!(app.selected_port(), Some("B"));
    assert_eq!(dev.lock().unwrap().opened, vec!["B".to_string()]);
    assert_eq!(heard(&mut worker), vec![HostEvent::Connect("B".to_string())]);
}

#[test]
fn connect_by_index_outside_the_list_changes_nothing() {
    let dev = device(&["A", "B"]);
    let (mut app, mut worker) = app_on(&dev);
    assert_eq!(app.connect_to_midi_input_by_index(2), Ok(()));
    assert_eq!(app.selected_port(), None);
    assert!(dev.lock().unwrap().opened.is_empty());
    assert!(heard(&mut worker).is_empty());
}

#[test]
fn connecting_again_replaces_the_stream_and_clears_the_history() {
    let dev = device(&["A", "B"]);
    let (mut app, mut worker) = app_on(&dev);
    app.connect_to_midi_input_by_index(0).unwrap();
    assert!(capture(&dev, midi(&[0x90, 60, 100], 1)));
    app.process_midi_messages();
    app.connect_to_midi_input_by_index(0).unwrap();
    assert_eq!(app.selected_port(), Some("A"));
    assert!(app.take_messages().is_empty());
    assert_eq!(dev.lock().unwrap().opened, vec!["A".to_string(), "A".to_string()]);
    let events = heard(&mut worker);
    assert_eq!(events.len(), 3);
    assert_eq!(events[0], HostEvent::Connect("A".to_string()));
    assert_eq!(events[2], HostEvent::Connect("A".to_string()));
}

#[test]
fn connect_by_name_takes_the_first_device_of_that_name() {
    let dev = device(&["A", "B", "B"]);
    let (mut app, mut worker) = app_on(&dev);
    assert_eq!(app.connect_to_midi_input("B"), Ok(()));
    assert_eq!(app.selected_port(), Some("B"));
    assert_eq!(heard(&mut worker), vec![HostEvent::Connect("B".to_string())]);
    assert_eq!(app.connect_to_midi_input("C"), Ok(()));
    assert_eq!(app.selected_port(), Some("B"));
    assert!(heard(&mut worker).is_empty());
}

#[test]
fn a_refused_connect_is_returned_and_leaves_no_stream() {
    let dev = device(&["A", "B"]);
    let (mut app, mut worker) = app_on(&dev);
    app.connect_to_midi_input_by_index(0).unwrap();
    heard(&mut worker);
    dev.lock().unwrap().refuse_open = Some(SourceError::FormatUnsupported);
    assert_eq!(
        app.connect_to_midi_input_by_index(1),
        Err(AppError::Source(SourceError::FormatUnsupported))
    );
    assert_eq!(app.selected_port(), None);
    assert_eq!(app.take_alert(), None);
    assert!(heard(&mut worker).is_empty());
}

#[test]
fn captured_frames_join_the_history_and_go_to_the_worker() {
    let dev = device(&["A", "B"]);
    let (mut app, mut worker) = app_on(&dev);
    app.connect_to_midi_input_by_index(1).unwrap();
    heard(&mut worker);
    assert!(capture(&dev, midi(&[0x90, 60, 100], 10)));
    assert!(capture(&dev, midi(&[0x80, 60, 0], 20)));
    app.process_midi_messages();
    assert_eq!(
        heard(&mut worker),
        vec![
            HostEvent::Midi(midi(&[0x90, 60, 100], 10)),
            HostEvent::Midi(midi(&[0x80, 60, 0], 20)),
        ]
    );
    assert_eq!(
        app.take_messages(),
        vec![
            Message::Captured(midi(&[0x90, 60, 100], 10)),
            Message::Captured(midi(&[0x80, 60, 0], 20)),
        ]
    );
}

#[test]
fn the_history_is_handed_out_once() {
    let dev = device(&["A"]);
    let (mut app, _worker) = app_on(&dev);
    app.connect_to_midi_input_by_index(0).unwrap();
    capture(&dev, midi(&[0xf8], 1));
    app.tick();
    assert_eq!(app.take_messages(), vec![Message::Captured(midi(&[0xf8], 1))]);
    assert_eq!(app.take_messages(), Vec::<Message>::new());
    assert_eq!(app.take_messages(), Vec::<Message>::new());
}

#[test]
fn an_audio_frame_is_carried_as_audio() {
    let dev = device(&["A"]);
    let (mut app, mut worker) = app_on(&dev);
    app.connect_to_midi_input_by_index(0).unwrap();
    heard(&mut worker);
    let frame = CaptureFrame::Audio {
        channels: vec![vec![aud::events::Sample { bits: 0.5f32.to_bits() }]],
    };
    capture(&dev, frame.clone());
    app.process_midi_messages();
    assert_eq!(heard(&mut worker), vec![HostEvent::Audio(frame.clone())]);
    assert_eq!(app.take_messages(), vec![Message::Captured(frame)]);
}

#[test]
fn a_paused_application_takes_no_frames() {
    let dev = device(&["A"]);
    let (mut app, mut worker) = app_on(&dev);
    app.connect_to_midi_input_by_index(0).unwrap();
    heard(&mut worker);
    app.set_running(false);
    assert!(!app.running());
    assert!(dev.lock().unwrap().paused);
    capture(&dev, midi(&[0xf8], 1));
    app.process_midi_messages();
    assert!(app.take_messages().is_empty());
    assert!(heard(&mut worker).is_empty());
    app.set_running(true);
    assert!(!dev.lock().unwrap().paused);
    app.process_midi_messages();
    assert_eq!(app.take_messages(), vec![Message::Captured(midi(&[0xf8], 1))]);
}

#[test]
fn the_history_keeps_the_newest_messages() {
    let dev = device(&["A"]);
    let (mut app, _worker) = App::with_capacity(FakeSource(dev.clone()), 2);
    app.connect_to_midi_input_by_index(0).unwrap();
    for t in 1..=5u64 {
        capture(&dev, midi(&[t as u8], t));
    }
    app.process_midi_messages();
    assert_eq!(
        app.take_messages(),
        vec![Message::Captured(midi(&[4], 4)), Message::Captured(midi(&[5], 5))]
    );
}

#[test]
fn the_default_history_holds_its_capacity_and_no_more() {
    let dev = device(&["A"]);
    let (mut app, _worker) = app_on(&dev);
    app.connect_to_midi_input_by_index(0).unwrap();
    let mut sent = 0u64;
    while sent < HISTORY as u64 + 50 {
        for _ in 0..50 {
            sent += 1;
            assert!(capture(&dev, midi(&[1], sent)));
        }
        app.process_midi_messages();
    }
    let messages = app.take_messages();
    assert_eq!(messages.len(), HISTORY);
    assert_eq!(messages[0], Message::Captured(midi(&[1], sent - HISTORY as u64 + 1)));
    assert_eq!(messages[HISTORY - 1], Message::Captured(midi(&[1], sent)));
}

#[test]
fn script_events_are_folded_into_the_state() {
    let dev = device(&["A", "B"]);
    let (mut app, mut worker) = app_on(&dev);
    say(&mut worker, ScriptEvent::Log("hello".to_string()));
    say(&mut worker, ScriptEvent::Alert("first".to_string()));
    say(&mut worker, ScriptEvent::Alert("second".to_string()));
    say(&mut worker, ScriptEvent::MidiOut(vec![0x90, 61, 1]));
    say(&mut worker, ScriptEvent::Control(ControlRequest::Pause));
    assert_eq!(app.process_script_events(), AppEvent::Continue);
    assert_eq!(app.take_journal(), vec!["hello".to_string()]);
    assert_eq!(app.take_alert(), Some("second".to_string()));
    assert_eq!(app.take_messages(), vec![Message::Emitted(vec![0x90, 61, 1])]);
    assert!(!app.running());
    assert!(dev.lock().unwrap().paused);
    say(&mut worker, ScriptEvent::Control(ControlRequest::Resume));
    assert_eq!(app.process_script_events(), AppEvent::Continue);
    assert!(app.running());
    assert!(!dev.lock().unwrap().paused);
}

#[test]
fn a_pump_ends_with_loaded_and_with_stop() {
    let dev = device(&["A"]);
    let (mut app, mut worker) = app_on(&dev);
    say(&mut worker, ScriptEvent::Alert("before".to_string()));
    say(&mut worker, ScriptEvent::Loaded);
    say(&mut worker, ScriptEvent::Alert("between".to_string()));
    say(&mut worker, ScriptEvent::Control(ControlRequest::Stop));
    say(&mut worker, ScriptEvent::Alert("after".to_string()));
    assert_eq!(app.process_script_events(), AppEvent::ScriptLoaded);
    assert_eq!(app.take_alert(), Some("before".to_string()));
    assert_eq!(app.process_script_events(), AppEvent::Stopping);
    assert_eq!(app.take_alert(), Some("between".to_string()));
    assert_eq!(app.process_script_events(), AppEvent::Continue);
    assert_eq!(app.take_alert(), Some("after".to_string()));
    assert_eq!(app.process_script_events(), AppEvent::Continue);
}

#[test]
fn a_script_connects_to_a_listed_device_only() {
    let dev = device(&["A", "B"]);
    let (mut app, mut worker) = app_on(&dev);
    say(&mut worker, ScriptEvent::Connect("nowhere".to_string()));
    assert_eq!(app.process_script_events(), AppEvent::Continue);
    assert_eq!(app.selected_port(), None);
    assert!(heard(&mut worker).is_empty());
    say(&mut worker, ScriptEvent::Connect("B".to_string()));
    assert_eq!(app.process_script_events(), AppEvent::Continue);
    assert_eq!(app.selected_port(), Some("B"));
    assert_eq!(heard(&mut worker), vec![HostEvent::Connect("B".to_string())]);
}

#[test]
fn a_connect_that_a_script_asked_for_and_the_source_refused_becomes_an_alert() {
    let dev = device(&["A"]);
    let (mut app, mut worker) = app_on(&dev);
    app.connect_to_midi_input_by_index(0).unwrap();
    dev.lock().unwrap().refuse_open = Some(SourceError::OpenFailed);
    say(&mut worker, ScriptEvent::Connect("A".to_string()));
    say(&mut worker, ScriptEvent::Log("still here".to_string()));
    assert_eq!(app.process_script_events(), AppEvent::Continue);
    assert_eq!(app.selected_port(), None);
    assert_eq!(app.take_alert(), Some(SourceError::OpenFailed.message()));
    assert_eq!(app.take_journal(), vec!["still here".to_string()]);
}

#[test]
fn a_script_reaches_the_worker_as_stop_load_discover() {
    let dev = device(&["A", "B"]);
    let (mut app, mut worker) = app_on(&dev);
    assert_eq!(app.load_script(script("/scripts/ok.lua", "print(1)")), Ok(AppEvent::Continue));
    assert_eq!(app.selected_script(), Some("ok.lua"));
    assert_eq!(app.loaded_script_path(), Some(&"/scripts/ok.lua".to_string()));
    assert_eq!(
        heard(&mut worker),
        vec![
            HostEvent::Stop,
            HostEvent::LoadScript { name: "ok.lua".to_string(), source: "print(1)".to_string() },
            HostEvent::Discover(vec!["A".to_string(), "B".to_string()]),
        ]
    );
}

#[test]
fn a_script_loaded_with_an_open_stream_is_followed_by_connect() {
    let dev = device(&["A", "B"]);
    let (mut app, mut worker) = app_on(&dev);
    app.connect_to_midi_input_by_index(1).unwrap();
    capture(&dev, midi(&[1], 1));
    app.process_midi_messages();
    heard(&mut worker);
    assert_eq!(app.load_script(script("ok.lua", "x")), Ok(AppEvent::Continue));
    assert_eq!(
        heard(&mut worker),
        vec![
            HostEvent::Stop,
            HostEvent::LoadScript { name: "ok.lua".to_string(), source: "x".to_string() },
            HostEvent::Discover(vec!["A".to_string(), "B".to_string()]),
            HostEvent::Connect("B".to_string()),
        ]
    );
    assert_eq!(app.selected_port(), Some("B"));
    assert_eq!(dev.lock().unwrap().opened, vec!["B".to_string()]);
    assert_eq!(app.take_messages().len(), 1);
}

#[test]
fn a_path_that_names_no_file_is_refused() {
    let dev = device(&["A"]);
    let (mut app, mut worker) = app_on(&dev);
    let missing =
        ScriptFile { path: "/nowhere".to_string(), is_file: false, source: None, watcher: None };
    assert_eq!(app.load_script(missing), Err(AppError::InvalidScript));
    assert_eq!(AppError::InvalidScript.message(), "Invalid script path or type");
    assert_eq!(app.selected_script(), None);
    assert_eq!(app.loaded_script_path(), None);
    assert!(heard(&mut worker).is_empty());
}

#[test]
fn a_file_that_cannot_be_read_is_refused_and_changes_nothing() {
    let dev = device(&["A"]);
    let (mut app, mut worker) = app_on(&dev);
    let (tx, rx) = crossbeam::channel::bounded(100);
    let mut first = script("/scripts/one.lua", "x");
    first.watcher = Some(FsWatcher::new(rx));
    app.load_script(first).unwrap();
    heard(&mut worker);
    let locked =
        ScriptFile { path: "dir/locked.lua".to_string(), is_file: true, source: None, watcher: None };
    assert_eq!(app.load_script(locked), Err(AppError::UnreadableScript));
    assert_eq!(AppError::UnreadableScript.message(), "The script could not be read");
    assert_eq!(app.selected_script(), Some("one.lua"));
    assert_eq!(app.loaded_script_path(), Some(&"/scripts/one.lua".to_string()));
    assert!(heard(&mut worker).is_empty());
    tx.send(modified()).unwrap();
    assert_eq!(app.process_file_events_at(0), None);
    assert_eq!(app.process_file_events_at(100_000_000), Some("/scripts/one.lua".to_string()));
}

#[test]
fn an_unreadable_first_script_leaves_the_application_without_script() {
    let dev = device(&["A"]);
    let (mut app, mut worker) = app_on(&dev);
    let locked =
        ScriptFile { path: "dir/locked.lua".to_string(), is_file: true, source: None, watcher: None };
    assert_eq!(app.load_script(locked), Err(AppError::UnreadableScript));
    assert_eq!(app.selected_script(), None);
    assert_eq!(app.loaded_script_path(), None);
    assert!(heard(&mut worker).is_empty());
}

#[test]
fn an_application_made_from_a_listing_has_the_devices_listed() {
    let dev = device(&[]);
    let listing = Ok(vec!["A".to_string(), "B".to_string()]);
    let (mut app, mut worker) =
        App::from_listing(Heard::new(FakeSource(dev.clone())), listing, 8);
    assert_eq!(app.ports(), &vec!["A".to_string(), "B".to_string()]);
    assert_eq!(app.selected_port(), None);
    assert_eq!(app.selected_script(), None);
    assert_eq!(app.loaded_script_path(), None);
    assert_eq!(app.take_alert(), None);
    assert!(app.take_messages().is_empty());
    assert!(app.running());
    assert!(heard(&mut worker).is_empty());
}

#[test]
fn an_application_made_from_a_failed_listing_has_no_device_and_an_alert() {
    let dev = device(&["A"]);
    let (mut app, _worker) = App::from_listing(
        Heard::new(FakeSource(dev.clone())),
        Err(SourceError::Enumerate),
        HISTORY,
    );
    assert!(app.ports().is_empty());
    assert_eq!(app.take_alert(), Some(SourceError::Enumerate.message()));
}

#[test]
fn the_answer_to_an_open_decides_the_stream() {
    let dev = device(&["A", "B"]);
    let (mut app, mut worker) = app_on(&dev);
    say(&mut worker, ScriptEvent::MidiOut(vec![1]));
    app.process_script_events();
    let config = StreamConfig { channels: 2, sample_rate: 44_100 };
    assert_eq!(app.settle_open(1, Ok(config)), Ok(()));
    assert_eq!(app.selected_port(), Some("B"));
    assert!(app.take_messages().is_empty());
    assert_eq!(heard(&mut worker), vec![HostEvent::Connect("B".to_string())]);
    assert_eq!(
        app.settle_open(0, Err(SourceError::DeviceLost)),
        Err(AppError::Source(SourceError::DeviceLost))
    );
    assert_eq!(app.selected_port(), None);
    assert_eq!(app.take_alert(), None);
    assert!(heard(&mut worker).is_empty());
    assert_eq!(app.settle_open(7, Ok(config)), Ok(()));
    assert_eq!(app.selected_port(), None);
    assert!(dev.lock().unwrap().opened.is_empty());
}

#[test]
fn the_answer_to_a_listing_decides_the_list() {
    let dev = device(&["A"]);
    let (mut app, _worker) = app_on(&dev);
    assert_eq!(app.settle_listing(Ok(vec!["X".to_string(), "Y".to_string()])), Ok(()));
    assert_eq!(app.ports(), &vec!["X".to_string(), "Y".to_string()]);
    assert_eq!(
        app.settle_listing(Err(SourceError::Enumerate)),
        Err(AppError::Source(SourceError::Enumerate))
    );
    assert_eq!(app.ports(), &vec!["X".to_string(), "Y".to_string()]);
    assert_eq!(app.settle_listing(Ok(vec![])), Ok(()));
    assert!(app.ports().is_empty());
}

#[test]
fn load_script_sync_returns_when_the_worker_confirms() {
    let dev = device(&["A"]);
    let (mut app, mut worker) = app_on(&dev);
    say(&mut worker, ScriptEvent::Alert("compiling".to_string()));
    say(&mut worker, ScriptEvent::Loaded);
    say(&mut worker, ScriptEvent::Alert("later".to_string()));
    assert_eq!(app.load_script_sync(script("ok.lua", "x"), Duration::from_secs(1)), Ok(()));
    assert_eq!(app.take_alert(), Some("compiling".to_string()));
    assert_eq!(app.process_script_events(), AppEvent::Continue);
    assert_eq!(app.take_alert(), Some("later".to_string()));
}

#[test]
fn load_script_sync_gives_up_at_the_deadline() {
    let dev = device(&["A"]);
    let (mut app, mut worker) = app_on(&dev);
    say(&mut worker, ScriptEvent::Control(ControlRequest::Stop));
    assert_eq!(
        app.load_script_sync(script("slow.lua", "x"), Duration::from_millis(20)),
        Err(AppError::DeadlineExceeded)
    );
    assert_eq!(AppError::DeadlineExceeded.message(), "Failed to load script in time");
    assert_eq!(heard(&mut worker).len(), 3);
}

#[test]
fn load_script_sync_refuses_an_unreadable_file_at_once() {
    let dev = device(&["A"]);
    let (mut app, mut worker) = app_on(&dev);
    say(&mut worker, ScriptEvent::Loaded);
    let locked =
        ScriptFile { path: "locked.lua".to_string(), is_file: true, source: None, watcher: None };
    assert_eq!(
        app.load_script_sync(locked, Duration::from_secs(1)),
        Err(AppError::UnreadableScript)
    );
    assert!(heard(&mut worker).is_empty());
    assert_eq!(app.process_script_events(), AppEvent::ScriptLoaded);
}

#[test]
fn load_script_sync_refuses_what_load_script_refuses() {
    let dev = device(&["A"]);
    let (mut app, mut worker) = app_on(&dev);
    say(&mut worker, ScriptEvent::Loaded);
    let missing =
        ScriptFile { path: "/nowhere".to_string(), is_file: false, source: None, watcher: None };
    assert_eq!(
        app.load_script_sync(missing, Duration::from_secs(1)),
        Err(AppError::InvalidScript)
    );
    assert_eq!(app.process_script_events(), AppEvent::ScriptLoaded);
}

#[test]
fn wait_for_alert_takes_the_alert_that_arrives() {
    let dev = device(&["A"]);
    let (mut app, mut worker) = app_on(&dev);
    say(&mut worker, ScriptEvent::Log("x".to_string()));
    say(&mut worker, ScriptEvent::Alert("3".to_string()));
    assert_eq!(app.wait_for_alert(Duration::from_secs(1)), Some("3".to_string()));
    assert_eq!(app.take_alert(), None);
}

#[test]
fn wait_for_alert_returns_nothing_at_the_deadline() {
    let dev = device(&["A"]);
    let (mut app, _worker) = app_on(&dev);
    assert_eq!(app.wait_for_alert(Duration::from_millis(20)), None);
    assert_eq!(app.wait_for_alert(Duration::ZERO), None);
}

#[test]
fn wait_for_alert_without_time_does_not_pump() {
    let dev = device(&["A"]);
    let (mut app, mut worker) = app_on(&dev);
    say(&mut worker, ScriptEvent::Alert("unseen".to_string()));
    assert_eq!(app.wait_for_alert(Duration::ZERO), None);
    assert_eq!(app.wait_for_alert(Duration::from_secs(1)), Some("unseen".to_string()));
}

#[test]
fn a_crash_of_the_worker_closes_the_link() {
    let dev = device(&["A"]);
    let (mut app, mut worker) = app_on(&dev);
    assert!(matches!(worker.engine.offer(EngineEvent::Panicked), Offer::Sent));
    assert_eq!(app.process_engine_events(), AppEvent::ScriptCrash);
    assert_eq!(app.connect_to_midi_input_by_index(0), Ok(()));
    assert_eq!(app.selected_port(), Some("A"));
    assert!(heard(&mut worker).is_empty());
    assert!(!app.shutdown());
    assert!(heard(&mut worker).is_empty());
    assert_eq!(app.process_engine_events(), AppEvent::Continue);
}

#[test]
fn the_end_of_the_worker_is_no_crash() {
    let dev = device(&["A"]);
    let (mut app, mut worker) = app_on(&dev);
    assert!(matches!(worker.engine.offer(EngineEvent::Terminated), Offer::Sent));
    assert_eq!(app.process_engine_events(), AppEvent::Continue);
    app.connect_to_midi_input_by_index(0).unwrap();
    assert!(heard(&mut worker).is_empty());
}

#[test]
fn a_lost_device_leaves_no_stream_an_alert_and_the_list() {
    let dev = device(&["A", "B"]);
    let (mut app, _worker) = app_on(&dev);
    app.connect_to_midi_input_by_index(1).unwrap();
    dev.lock().unwrap().faults.push(SourceError::DeviceLost);
    let tick = app.tick();
    assert_eq!(tick.outcome, AppEvent::Continue);
    assert_eq!(app.selected_port(), None);
    assert_eq!(app.take_alert(), Some("the input device was lost".to_string()));
    assert_eq!(app.ports(), &vec!["A".to_string(), "B".to_string()]);
    assert_eq!(app.connect_to_midi_input_by_index(0), Ok(()));
    assert_eq!(app.selected_port(), Some("A"));
}

#[test]
fn the_last_of_several_device_errors_is_the_alert() {
    let dev = device(&["A"]);
    let (mut app, _worker) = app_on(&dev);
    app.connect_to_midi_input_by_index(0).unwrap();
    dev.lock().unwrap().faults.push(SourceError::DeviceLost);
    dev.lock().unwrap().faults.push(SourceError::FormatUnsupported);
    app.process_device_errors();
    assert_eq!(app.selected_port(), None);
    assert_eq!(app.take_alert(), Some(SourceError::FormatUnsupported.message()));
}

#[test]
fn shutdown_hands_terminate_to_the_worker_and_closes_the_link() {
    let dev = device(&["A"]);
    let (mut app, mut worker) = app_on(&dev);
    assert!(app.shutdown());
    assert_eq!(heard(&mut worker), vec![HostEvent::Terminate]);
    assert!(!app.shutdown());
    app.connect_to_midi_input_by_index(0).unwrap();
    assert_eq!(app.load_script(script("ok.lua", "x")), Ok(AppEvent::Continue));
    capture(&dev, midi(&[1], 1));
    app.tick();
    assert!(heard(&mut worker).is_empty());
    assert_eq!(app.take_messages(), vec![Message::Captured(midi(&[1], 1))]);
}

#[test]
fn shutdown_gives_up_when_the_queue_stays_full() {
    let dev = device(&["A"]);
    let (mut app, mut worker) = app_on(&dev);
    for _ in 0..HOST_SLOTS {
        app.connect_to_midi_input_by_index(0).unwrap();
    }
    assert!(TERMINATE_ATTEMPTS > 0);
    assert!(!app.shutdown());
    let events = heard(&mut worker);
    assert_eq!(events.len(), HOST_SLOTS);
    assert!(events.iter().all(|e| *e == HostEvent::Connect("A".to_string())));
    assert!(app.shutdown());
    assert_eq!(heard(&mut worker), vec![HostEvent::Terminate]);
}

#[test]
fn events_that_find_the_queue_full_are_dropped() {
    let dev = device(&["A"]);
    let (mut app, mut worker) = app_on(&dev);
    for _ in 0..HOST_SLOTS + 7 {
        app.connect_to_midi_input_by_index(0).unwrap();
    }
    assert_eq!(heard(&mut worker).len(), HOST_SLOTS);
    assert!(heard(&mut worker).is_empty());
}

#[test]
fn a_tick_takes_captured_frames_before_script_events() {
    let dev = device(&["A"]);
    let (mut app, mut worker) = App::with_capacity(FakeSource(dev.clone()), 2);
    app.connect_to_midi_input_by_index(0).unwrap();
    say(&mut worker, ScriptEvent::MidiOut(vec![9]));
    capture(&dev, midi(&[1], 1));
    capture(&dev, midi(&[2], 2));
    let tick = app.tick();
    assert_eq!(tick.outcome, AppEvent::Continue);
    assert_eq!(tick.reload, None);
    assert_eq!(
        app.take_messages(),
        vec![Message::Captured(midi(&[2], 2)), Message::Emitted(vec![9])]
    );
}

#[test]
fn a_tick_reports_the_script_and_the_crash() {
    let dev = device(&["A"]);
    let (mut app, mut worker) = app_on(&dev);
    say(&mut worker, ScriptEvent::Loaded);
    assert_eq!(app.tick().outcome, AppEvent::ScriptLoaded);
    say(&mut worker, ScriptEvent::Control(ControlRequest::Stop));
    assert_eq!(app.tick().outcome, AppEvent::Stopping);
    say(&mut worker, ScriptEvent::Loaded);
    assert!(matches!(worker.engine.offer(EngineEvent::Panicked), Offer::Sent));
    assert_eq!(app.tick().outcome, AppEvent::ScriptCrash);
}

#[test]
fn rescan_replaces_the_list_or_keeps_it() {
    let dev = device(&["A"]);
    let (mut app, _worker) = app_on(&dev);
    dev.lock().unwrap().names = vec!["X".to_string(), "Y".to_string()];
    assert_eq!(app.rescan(), Ok(()));
    assert_eq!(app.ports(), &vec!["X".to_string(), "Y".to_string()]);
    dev.lock().unwrap().refuse_list = true;
    assert_eq!(app.rescan(), Err(AppError::Source(SourceError::Enumerate)));
    assert_eq!(app.ports(), &vec!["X".to_string(), "Y".to_string()]);
    assert_eq!(app.take_alert(), None);
}

#[test]
fn disconnect_closes_the_stream_and_tells_the_worker() {
    let dev = device(&["A"]);
    let (mut app, mut worker) = app_on(&dev);
    app.disconnect();
    assert_eq!(dev.lock().unwrap().closed, 0);
    assert!(heard(&mut worker).is_empty());
    app.connect_to_midi_input_by_index(0).unwrap();
    heard(&mut worker);
    app.disconnect();
    assert_eq!(app.selected_port(), None);
    assert_eq!(dev.lock().unwrap().closed, 1);
    assert_eq!(heard(&mut worker), vec![HostEvent::Disconnect]);
}

#[test]
fn clear_messages_forgets_the_history() {
    let dev = device(&["A"]);
    let (mut app, mut worker) = app_on(&dev);
    say(&mut worker, ScriptEvent::MidiOut(vec![1]));
    app.process_script_events();
    app.clear_messages();
    assert!(app.take_messages().is_empty());
}

fn modified() -> Result<notify::Event, notify::Error> {
    Ok(notify::Event::new(notify::EventKind::Modify(notify::event::ModifyKind::Any)))
}

fn created() -> Result<notify::Event, notify::Error> {
    Ok(notify::Event::new(notify::EventKind::Create(notify::event::CreateKind::File)))
}

fn removed() -> Result<notify::Event, notify::Error> {
    Ok(notify::Event::new(notify::EventKind::Remove(notify::event::RemoveKind::File)))
}

#[test]
fn a_burst_of_changes_causes_one_reload_after_the_window() {
    let dev = device(&["A"]);
    let (mut app, _worker) = app_on(&dev);
    let (tx, rx) = crossbeam::channel::bounded(100);
    let mut file = script("/scripts/ok.lua", "x");
    file.watcher = Some(FsWatcher::new(rx));
    app.load_script(file).unwrap();
    let ms = 1_000_000u128;
    assert_eq!(app.process_file_events_at(0), None);
    tx.send(modified()).unwrap();
    tx.send(modified()).unwrap();
    assert_eq!(app.process_file_events_at(1_000 * ms), None);
    tx.send(modified()).unwrap();
    assert_eq!(app.process_file_events_at(1_050 * ms), None);
    assert_eq!(app.process_file_events_at(1_099 * ms), None);
    assert_eq!(app.process_file_events_at(1_100 * ms), Some("/scripts/ok.lua".to_string()));
    assert_eq!(app.process_file_events_at(1_300 * ms), None);
    tx.send(modified()).unwrap();
    assert_eq!(app.process_file_events_at(2_000 * ms), None);
    assert_eq!(app.process_file_events_at(2_100 * ms), Some("/scripts/ok.lua".to_string()));
}

#[test]
fn creation_removal_and_watcher_errors_cause_no_reload() {
    let dev = device(&["A"]);
    let (mut app, _worker) = app_on(&dev);
    let (tx, rx) = crossbeam::channel::bounded(100);
    let mut file = script("ok.lua", "x");
    file.watcher = Some(FsWatcher::new(rx));
    app.load_script(file).unwrap();
    tx.send(created()).unwrap();
    tx.send(removed()).unwrap();
    tx.send(Err(notify::Error::generic("watch failed"))).unwrap();
    assert_eq!(app.process_file_events_at(0), None);
    assert_eq!(app.process_file_events_at(1_000_000_000), None);
    tx.send(modified()).unwrap();
    assert_eq!(app.process_file_events_at(2_000_000_000), None);
    assert_eq!(app.process_file_events_at(2_100_000_000), Some("ok.lua".to_string()));
}

#[test]
fn without_a_watcher_nothing_is_reloaded() {
    let dev = device(&["A"]);
    let (mut app, _worker) = app_on(&dev);
    app.load_script(script("ok.lua", "x")).unwrap();
    assert_eq!(app.process_file_events_at(0), None);
    assert_eq!(app.process_file_events(), None);
    assert_eq!(app.tick().reload, None);
}

#[test]
fn loading_a_script_starts_the_window_afresh() {
    let dev = device(&["A"]);
    let (mut app, _worker) = app_on(&dev);
    let (tx, rx) = crossbeam::channel::bounded(100);
    let mut file = script("one.lua", "x");
    file.watcher = Some(FsWatcher::new(rx));
    app.load_script(file).unwrap();
    tx.send(modified()).unwrap();
    assert_eq!(app.process_file_events_at(0), None);
    let (_tx2, rx2) = crossbeam::channel::bounded(100);
    let mut file = script("two.lua", "y");
    file.watcher = Some(FsWatcher::new(rx2));
    app.load_script(file).unwrap();
    assert_eq!(app.process_file_events_at(1_000_000_000), None);
}

#[test]
fn a_round_of_waiting_pumps_while_the_wait_is_short_of_its_limit() {
    let dev = device(&["A"]);
    let (mut app, mut worker) = app_on(&dev);
    assert_eq!(app.wait_round(0, 10), None);
    say(&mut worker, ScriptEvent::MidiOut(vec![1]));
    assert_eq!(app.wait_round(9, 10), None);
    assert_eq!(app.take_messages(), vec![Message::Emitted(vec![1])]);
    say(&mut worker, ScriptEvent::Alert("now".to_string()));
    assert_eq!(app.wait_round(9, 10), Some(Some("now".to_string())));
    assert_eq!(app.take_alert(), None);
}

#[test]
fn a_round_of_waiting_at_the_limit_takes_what_waits_and_pumps_nothing() {
    let dev = device(&["A"]);
    let (mut app, mut worker) = app_on(&dev);
    say(&mut worker, ScriptEvent::Alert("unseen".to_string()));
    assert_eq!(app.wait_round(10, 10), Some(None));
    assert_eq!(app.wait_round(11, 10), Some(None));
    assert_eq!(app.wait_round(0, 0), Some(None));
    assert_eq!(app.wait_round(9, 10), Some(Some("unseen".to_string())));
    say(&mut worker, ScriptEvent::Alert("first".to_string()));
    app.process_script_events();
    say(&mut worker, ScriptEvent::Alert("second".to_string()));
    assert_eq!(app.wait_round(10, 10), Some(Some("first".to_string())));
    assert_eq!(app.wait_round(10, 10), Some(None));
}

#[test]
fn a_round_of_loading_ends_with_loaded_or_beyond_the_limit() {
    let dev = device(&["A"]);
    let (mut app, mut worker) = app_on(&dev);
    assert_eq!(app.load_round(0, 10), None);
    assert_eq!(app.load_round(10, 10), None);
    say(&mut worker, ScriptEvent::Alert("compiling".to_string()));
    assert_eq!(app.load_round(11, 10), Some(Err(AppError::DeadlineExceeded)));
    assert_eq!(app.take_alert(), Some("compiling".to_string()));
    say(&mut worker, ScriptEvent::Loaded);
    assert_eq!(app.load_round(11, 10), Some(Ok(())));
    say(&mut worker, ScriptEvent::Control(ControlRequest::Stop));
    say(&mut worker, ScriptEvent::Loaded);
    assert_eq!(app.load_round(0, 10), None);
    assert_eq!(app.load_round(0, 10), Some(Ok(())));
}

#[test]
fn an_error_of_the_device_is_settled_as_an_alert_and_no_stream() {
    let dev = device(&["A", "B"]);
    let (mut app, mut worker) = app_on(&dev);
    app.connect_to_midi_input_by_index(0).unwrap();
    heard(&mut worker);
    app.settle_fault(SourceError::DeviceLost);
    assert_eq!(app.selected_port(), None);
    assert_eq!(app.take_alert(), Some(SourceError::DeviceLost.message()));
    assert_eq!(app.ports(), &vec!["A".to_string(), "B".to_string()]);
    assert!(heard(&mut worker).is_empty());
    app.settle_fault(SourceError::OpenFailed);
    app.settle_fault(SourceError::FormatUnsupported);
    assert_eq!(app.take_alert(), Some(SourceError::FormatUnsupported.message()));
}

#[test]
fn a_heard_source_passes_every_call_on() {
    let dev = device(&["A"]);
    let mut source = Heard::new(FakeSource(dev.clone()));
    assert_eq!(source.enumerate(), Ok(vec!["A".to_string()]));
    let (sink, _rx) = aud::channel::capture_channel();
    assert_eq!(source.open("A", sink), Ok(StreamConfig { channels: 1, sample_rate: 31_250 }));
    assert_eq!(dev.lock().unwrap().opened, vec!["A".to_string()]);
    source.pause();
    assert!(dev.lock().unwrap().paused);
    source.resume();
    assert!(!dev.lock().unwrap().paused);
    assert_eq!(source.poll_error(), None);
    dev.lock().unwrap().faults.push(SourceError::DeviceLost);
    assert_eq!(source.poll_error(), Some(SourceError::DeviceLost));
    source.close();
    assert_eq!(dev.lock().unwrap().closed, 1);
}
