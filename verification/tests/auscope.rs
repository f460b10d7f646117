use std::sync::{Arc, Mutex};

use aud::auscope::{merge, App, DeviceList, Flow, Key};
use aud::channel::{CaptureProducer, CAPTURE_SLOTS};
use aud::events::{AppError, CaptureFrame, Sample, SourceError, StreamConfig};
use aud::source::CaptureSource;

#[derive(Default)]
struct Card {
    names: Vec<String>,
    refuse_list: bool,
    refuse_open: Option<SourceError>,
    sink: Option<CaptureProducer>,
    faults: Vec<SourceError>,
    opened: Vec<String>,
}

struct FakeCard(Arc<Mutex<Card>>);

impl CaptureSource for FakeCard {
    fn enumerate(&mut self) -> Result<Vec<String>, SourceError> {
        let card = self.0.lock().unwrap();
        if card.refuse_list {
            Err(SourceError::Enumerate)
        } else {
            Ok(card.names.clone())
        }
    }

    fn open(&mut self, name: &str, sink: CaptureProducer) -> Result<StreamConfig, SourceError> {
        let mut card = self.0.lock().unwrap();
        if let Some(e) = card.refuse_open {
            card.sink = None;
            return Err(e);
        }
        card.opened.push(name.to_owned());
        card.sink = Some(sink);
        Ok(StreamConfig { channels: 2, sample_rate: 48_000 })
    }

    fn pause(&mut self) {}

    fn resume(&mut self) {}

    fn close(&mut self) {
        self.0.lock().unwrap().sink = None;
    }

    fn poll_error(&mut self) -> Option<SourceError> {
        let mut card = self.0.lock().unwrap();
        if card.faults.is_empty() {
            None
        } else {
            Some(card.faults.remove(0))
        }
    }
}

fn card(names: &[&str]) -> Arc<Mutex<Card>> {
    Arc::new(Mutex::new(Card {
        names: names.iter().map(|n| n.to_string()).collect(),
        ..Card::default()
    }))
}

fn scope_on(card: &Arc<Mutex<Card>>) -> App<FakeCard> {
    let mut app = App::new(FakeCard(card.clone()));
    app.update_device_list().unwrap();
    app
}

fn samples(values: &[f32]) -> Vec<Sample> {
    values.iter().map(|v| Sample { bits: v.to_bits() }).collect()
}

fn floats(channels: &[Vec<Sample>]) -> Vec<Vec<f32>> {
    channels.iter().map(|c| c.iter().map(|s| f32::from_bits(s.bits)).collect()).collect()
}

fn audio(channels: &[&[f32]]) -> CaptureFrame {
    CaptureFrame::Audio { channels: channels.iter().map(|c| samples(c)).collect() }
}

fn capture(card: &Arc<Mutex<Card>>, frame: CaptureFrame) -> bool {
    card.lock().unwrap().sink.as_mut().expect("no stream is open").push(frame)
}

#[test]
fn a_frame_that_arrives_at_a_connected_scope_is_shown_and_taken_once() {
    let dev = card(&["A", "B"]);
    let mut app = App::new(FakeCard(dev.clone()));
    assert!(app.devices().is_empty());
    assert_eq!(app.update_device_list(), Ok(()));
    assert_eq!(app.devices(), &vec!["A".to_string(), "B".to_string()]);
    assert_eq!(app.connect_by_index(1), Ok(()));
    assert_eq!(app.selection(), Some("B"));
    assert_eq!(app.cursor(), Some(1));
    assert!(capture(&dev, audio(&[&[0.0, 0.5], &[-0.5, 0.0]])));
    assert_eq!(app.update(), Flow::Continue);
    assert_eq!(floats(app.channels()), vec![vec![0.0, 0.5], vec![-0.5, 0.0]]);
    assert_eq!(floats(&app.take_messages()), vec![vec![0.0, 0.5], vec![-0.5, 0.0]]);
    assert_eq!(app.take_messages(), Vec::<Vec<Sample>>::new());
    assert!(app.channels().is_empty());
}

#[test]
fn frames_are_appended_channel_by_channel() {
    let dev = card(&["A"]);
    let mut app = scope_on(&dev);
    app.connect_by_index(0).unwrap();
    capture(&dev, audio(&[&[0.1], &[0.2]]));
    capture(&dev, audio(&[&[0.3, 0.4], &[0.5, 0.6]]));
    assert_eq!(app.update(), Flow::Continue);
    assert_eq!(floats(app.channels()), vec![vec![0.1, 0.3, 0.4], vec![0.2, 0.5, 0.6]]);
}

#[test]
fn each_channel_keeps_its_newest_samples() {
    let dev = card(&["A"]);
    let mut app = App::with_capacity(FakeCard(dev.clone()), 3);
    app.update_device_list().unwrap();
    app.connect_by_index(0).unwrap();
    capture(&dev, audio(&[&[1.0, 2.0], &[9.0]]));
    capture(&dev, audio(&[&[3.0, 4.0], &[8.0]]));
    app.update();
    assert_eq!(floats(app.channels()), vec![vec![2.0, 3.0, 4.0], vec![9.0, 8.0]]);
    capture(&dev, audio(&[&[5.0, 6.0, 7.0, 8.0], &[]]));
    app.update();
    assert_eq!(floats(app.channels()), vec![vec![6.0, 7.0, 8.0], vec![9.0, 8.0]]);
}

#[test]
fn a_midi_frame_leaves_the_scope_as_it_is() {
    let dev = card(&["A"]);
    let mut app = scope_on(&dev);
    app.connect_by_index(0).unwrap();
    capture(&dev, audio(&[&[0.25]]));
    capture(&dev, CaptureFrame::Midi { bytes: vec![0x90, 60, 100], timestamp: 1 });
    app.update();
    assert_eq!(floats(app.channels()), vec![vec![0.25]]);
}

#[test]
fn a_held_scope_takes_no_frames() {
    let dev = card(&["A"]);
    let mut app = scope_on(&dev);
    app.connect_by_index(0).unwrap();
    assert_eq!(app.on_keypress(Key::Char(' ')), Ok(Flow::Continue));
    assert!(!app.running());
    capture(&dev, audio(&[&[0.5]]));
    assert_eq!(app.update(), Flow::Loop);
    assert!(app.channels().is_empty());
    assert_eq!(app.on_keypress(Key::Char(' ')), Ok(Flow::Continue));
    assert!(app.running());
    assert_eq!(app.update(), Flow::Continue);
    assert_eq!(floats(app.channels()), vec![vec![0.5]]);
}

#[test]
fn one_update_takes_at_most_a_queue_of_frames() {
    let dev = card(&["A"]);
    let mut app = scope_on(&dev);
    app.connect_by_index(0).unwrap();
    let mut kept = 0;
    for n in 0..10_000 {
        if capture(&dev, audio(&[&[n as f32]])) {
            kept += 1;
        }
    }
    assert_eq!(kept, CAPTURE_SLOTS);
    app.update();
    let shown = floats(app.channels());
    assert_eq!(shown.len(), 1);
    assert_eq!(shown[0], (0..CAPTURE_SLOTS).map(|n| n as f32).collect::<Vec<f32>>());
}

#[test]
fn merge_makes_room_for_the_channels_of_the_frame() {
    let mut buffers = vec![samples(&[1.0]), samples(&[2.0])];
    merge(&mut buffers, &vec![samples(&[3.0])], 10);
    assert_eq!(floats(&buffers), vec![vec![1.0, 3.0]]);

    let mut buffers = vec![samples(&[1.0])];
    merge(&mut buffers, &vec![samples(&[3.0]), samples(&[4.0]), samples(&[5.0])], 10);
    assert_eq!(floats(&buffers), vec![vec![1.0, 3.0], vec![4.0], vec![5.0]]);

    let mut buffers = vec![samples(&[1.0]), samples(&[2.0]), samples(&[3.0]), samples(&[4.0])];
    merge(&mut buffers, &vec![samples(&[9.0])], 10);
    assert_eq!(floats(&buffers), vec![vec![1.0, 9.0], vec![2.0], vec![3.0]]);

    let mut buffers = vec![samples(&[1.0]), samples(&[2.0]), samples(&[3.0])];
    merge(&mut buffers, &vec![samples(&[8.0]), samples(&[9.0])], 10);
    assert_eq!(floats(&buffers), vec![vec![1.0, 8.0], vec![9.0]]);

    let mut buffers = vec![samples(&[1.0]), samples(&[2.0])];
    merge(&mut buffers, &vec![], 10);
    assert_eq!(floats(&buffers), vec![vec![1.0], vec![2.0]]);
}

#[test]
fn merge_trims_each_channel_to_the_limit() {
    let mut buffers = vec![samples(&[1.0, 2.0, 3.0])];
    merge(&mut buffers, &vec![samples(&[4.0, 5.0])], 4);
    assert_eq!(floats(&buffers), vec![vec![2.0, 3.0, 4.0, 5.0]]);
    merge(&mut buffers, &vec![samples(&[6.0])], 0);
    assert_eq!(floats(&buffers), vec![Vec::<f32>::new()]);
}

#[test]
fn the_help_is_shown_and_hidden() {
    let dev = card(&["A"]);
    let mut app = scope_on(&dev);
    assert!(!app.usage_shown());
    assert_eq!(app.on_keypress(Key::Char('?')), Ok(Flow::Continue));
    assert!(app.usage_shown());
    assert_eq!(app.on_keypress(Key::Char('q')), Ok(Flow::Continue));
    assert!(!app.usage_shown());
    assert_eq!(app.on_keypress(Key::Char('?')), Ok(Flow::Continue));
    assert_eq!(app.on_keypress(Key::Esc), Ok(Flow::Continue));
    assert!(!app.usage_shown());
    assert_eq!(app.on_keypress(Key::Char('?')), Ok(Flow::Continue));
    assert_eq!(app.on_keypress(Key::Char('?')), Ok(Flow::Continue));
    assert!(!app.usage_shown());
}

#[test]
fn q_and_escape_leave_when_no_help_is_shown() {
    let dev = card(&["A"]);
    let mut app = scope_on(&dev);
    assert_eq!(app.on_keypress(Key::Char('q')), Ok(Flow::Exit));
    assert_eq!(app.on_keypress(Key::Esc), Ok(Flow::Exit));
}

#[test]
fn the_cursor_moves_and_wraps() {
    let dev = card(&["A", "B", "C"]);
    let mut app = scope_on(&dev);
    assert_eq!(app.cursor(), None);
    app.on_keypress(Key::Down).unwrap();
    assert_eq!(app.cursor(), Some(0));
    app.on_keypress(Key::Char('j')).unwrap();
    assert_eq!(app.cursor(), Some(1));
    app.on_keypress(Key::Down).unwrap();
    assert_eq!(app.cursor(), Some(2));
    app.on_keypress(Key::Down).unwrap();
    assert_eq!(app.cursor(), Some(0));
    app.on_keypress(Key::Up).unwrap();
    assert_eq!(app.cursor(), Some(2));
    app.on_keypress(Key::Char('k')).unwrap();
    assert_eq!(app.cursor(), Some(1));
    assert_eq!(app.selection(), None);
    assert!(dev.lock().unwrap().opened.is_empty());
}

#[test]
fn the_cursor_of_an_empty_list_stays_off() {
    let dev = card(&[]);
    let mut app = scope_on(&dev);
    app.on_keypress(Key::Down).unwrap();
    assert_eq!(app.cursor(), None);
    app.on_keypress(Key::Up).unwrap();
    assert_eq!(app.cursor(), None);
    assert_eq!(app.on_keypress(Key::Enter), Ok(Flow::Continue));
    assert_eq!(app.connect(), Err(AppError::NoSelection));
}

#[test]
fn enter_on_a_row_connects_and_forgets_the_samples() {
    let dev = card(&["A", "B"]);
    let mut app = scope_on(&dev);
    app.connect_by_index(0).unwrap();
    capture(&dev, audio(&[&[0.1, 0.2], &[0.3]]));
    app.update();
    app.on_keypress(Key::Char(' ')).unwrap();
    app.on_keypress(Key::Down).unwrap();
    assert_eq!(app.selection(), Some("A"));
    assert_eq!(app.on_keypress(Key::Enter), Ok(Flow::Continue));
    assert_eq!(app.selection(), Some("B"));
    assert!(app.running());
    assert_eq!(floats(app.channels()), vec![Vec::<f32>::new(), Vec::<f32>::new()]);
    assert_eq!(dev.lock().unwrap().opened, vec!["A".to_string(), "B".to_string()]);
}

#[test]
fn enter_without_a_row_does_nothing() {
    let dev = card(&["A"]);
    let mut app = scope_on(&dev);
    assert_eq!(app.on_keypress(Key::Enter), Ok(Flow::Continue));
    assert_eq!(app.selection(), None);
    assert!(dev.lock().unwrap().opened.is_empty());
}

#[test]
fn a_refused_open_is_returned_to_the_key_handler() {
    let dev = card(&["A"]);
    let mut app = scope_on(&dev);
    app.connect_by_index(0).unwrap();
    dev.lock().unwrap().refuse_open = Some(SourceError::OpenFailed);
    assert_eq!(app.on_keypress(Key::Enter), Err(AppError::Source(SourceError::OpenFailed)));
    assert_eq!(app.selection(), None);
    assert_eq!(app.connect(), Err(AppError::Source(SourceError::OpenFailed)));
    assert_eq!(app.connect_by_index(0), Err(AppError::Source(SourceError::OpenFailed)));
}

#[test]
fn other_keys_change_nothing() {
    let dev = card(&["A"]);
    let mut app = scope_on(&dev);
    assert_eq!(app.on_keypress(Key::Other), Ok(Flow::Continue));
    assert_eq!(app.on_keypress(Key::Char('x')), Ok(Flow::Continue));
    assert_eq!(app.cursor(), None);
    assert!(app.running());
    assert!(!app.usage_shown());
}

#[test]
fn connect_opens_the_device_under_the_cursor() {
    let dev = card(&["A", "B"]);
    let mut app = scope_on(&dev);
    assert_eq!(app.connect(), Err(AppError::NoSelection));
    assert_eq!(AppError::NoSelection.message(), "No input device is selected");
    app.on_keypress(Key::Down).unwrap();
    app.on_keypress(Key::Down).unwrap();
    assert_eq!(app.connect(), Ok(()));
    assert_eq!(app.selection(), Some("B"));
}

#[test]
fn connecting_by_index_forgets_the_samples_and_lets_the_flow_go() {
    let dev = card(&["A", "B"]);
    let mut app = scope_on(&dev);
    app.connect_by_index(0).unwrap();
    capture(&dev, audio(&[&[0.1], &[0.2]]));
    app.update();
    app.on_keypress(Key::Char(' ')).unwrap();
    assert_eq!(app.connect_by_index(1), Ok(()));
    assert!(app.running());
    assert_eq!(app.cursor(), Some(1));
    assert_eq!(floats(app.channels()), vec![Vec::<f32>::new(), Vec::<f32>::new()]);
}

#[test]
fn the_answer_to_an_open_decides_the_stream_of_the_scope() {
    let dev = card(&["A", "B"]);
    let mut app = scope_on(&dev);
    let config = StreamConfig { channels: 2, sample_rate: 48_000 };
    assert_eq!(app.settle_open(1, Ok(config)), Ok(()));
    assert_eq!(app.selection(), Some("B"));
    assert_eq!(
        app.settle_open(0, Err(SourceError::FormatUnsupported)),
        Err(AppError::Source(SourceError::FormatUnsupported))
    );
    assert_eq!(app.selection(), None);
    assert_eq!(app.settle_open(5, Ok(config)), Ok(()));
    assert_eq!(app.selection(), None);
    assert!(dev.lock().unwrap().opened.is_empty());
}

#[test]
fn the_answer_to_a_listing_decides_the_list_of_the_scope() {
    let dev = card(&["A"]);
    let mut app = scope_on(&dev);
    app.on_keypress(Key::Down).unwrap();
    assert_eq!(app.settle_listing(Ok(vec!["X".to_string(), "Y".to_string()])), Ok(()));
    assert_eq!(app.devices(), &vec!["X".to_string(), "Y".to_string()]);
    assert_eq!(app.cursor(), None);
    app.on_keypress(Key::Down).unwrap();
    assert_eq!(
        app.settle_listing(Err(SourceError::Enumerate)),
        Err(AppError::Source(SourceError::Enumerate))
    );
    assert_eq!(app.devices(), &vec!["X".to_string(), "Y".to_string()]);
    assert_eq!(app.cursor(), Some(0));
}

#[test]
fn connect_by_index_outside_the_list_is_ignored() {
    let dev = card(&["A"]);
    let mut app = scope_on(&dev);
    assert_eq!(app.connect_by_index(1), Ok(()));
    assert_eq!(app.selection(), None);
    assert_eq!(app.cursor(), None);
}

#[test]
fn a_list_that_cannot_be_read_leaves_the_old_one() {
    let dev = card(&["A"]);
    let mut app = scope_on(&dev);
    app.on_keypress(Key::Down).unwrap();
    dev.lock().unwrap().refuse_list = true;
    assert_eq!(app.update_device_list(), Err(AppError::Source(SourceError::Enumerate)));
    assert_eq!(app.devices(), &vec!["A".to_string()]);
    assert_eq!(app.cursor(), Some(0));
    dev.lock().unwrap().refuse_list = false;
    dev.lock().unwrap().names = vec!["X".to_string(), "Y".to_string()];
    assert_eq!(app.update_device_list(), Ok(()));
    assert_eq!(app.devices(), &vec!["X".to_string(), "Y".to_string()]);
    assert_eq!(app.cursor(), None);
}

#[test]
fn a_lost_audio_device_leaves_the_scope_idle_with_its_list() {
    let dev = card(&["A", "B"]);
    let mut app = scope_on(&dev);
    app.connect_by_index(0).unwrap();
    dev.lock().unwrap().faults.push(SourceError::DeviceLost);
    assert_eq!(app.update(), Flow::Continue);
    assert_eq!(app.selection(), None);
    assert_eq!(app.take_alert(), Some(SourceError::DeviceLost.message()));
    assert_eq!(app.take_alert(), None);
    assert_eq!(app.devices(), &vec!["A".to_string(), "B".to_string()]);
}

#[test]
fn a_device_list_moves_its_cursor_only_over_its_rows() {
    let mut list = DeviceList::with_items(vec!["A".to_string(), "B".to_string()]);
    assert_eq!(list.selected(), None);
    assert_eq!(list.confirmed(), None);
    list.previous();
    assert_eq!(list.selected(), Some(0));
    list.previous();
    assert_eq!(list.selected(), Some(1));
    list.next();
    assert_eq!(list.selected(), Some(0));
    list.select(5);
    assert_eq!(list.selected(), Some(0));
    list.select(1);
    assert_eq!(list.selected(), Some(1));
    assert_eq!(list.confirmed(), None);
    list.confirm_selection();
    assert_eq!(list.confirmed(), Some(1));
    list.next();
    assert_eq!(list.confirmed(), Some(1));
    assert_eq!(list.items(), &vec!["A".to_string(), "B".to_string()]);
}

#[test]
fn an_error_of_the_audio_device_is_settled_as_an_alert_and_no_stream() {
    let dev = card(&["A"]);
    let mut app = scope_on(&dev);
    app.connect_by_index(0).unwrap();
    app.settle_fault(SourceError::FormatUnsupported);
    assert_eq!(app.selection(), None);
    assert_eq!(app.take_alert(), Some(SourceError::FormatUnsupported.message()));
    assert_eq!(app.devices(), &vec!["A".to_string()]);
}
