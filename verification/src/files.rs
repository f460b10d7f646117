//! The script on disk: its name, the watcher on it, and the window in which
//! its changes are gathered. Also the locations that the tools agree on.
use vstd::prelude::*;
use crossbeam::channel::Receiver;

pub mod locations;

verus! {

/// `notify::Event`, carried as it is.
#[verifier::external_type_specification]
#[verifier::external_body]
pub struct ExNotifyEvent(notify::Event);

/// `notify::Error`, carried as it is.
#[verifier::external_type_specification]
#[verifier::external_body]
pub struct ExNotifyError(notify::Error);

/// What the watcher saw happen to the watched path.
#[derive(Clone, Copy, Debug, PartialEq, Eq, Structural)]
pub enum FileChange {
    /// Something happened, and the watcher cannot say what.
    Any,
    /// The file was opened, read or closed.
    Access,
    /// The file came into being.
    Create,
    /// Content, name or metadata changed.
    Modify,
    /// The file went away.
    Remove,
    /// Something that fits none of the others.
    Other,
    /// The watcher reported an error in place of an event.
    Failed,
}

/// Tells the variants of `notify::EventKind` apart, and an error from an
/// event. The details that the variants carry are left behind.
#[verifier::external_body]
fn classify(event: &Result<notify::Event, notify::Error>) -> FileChange {
    match event {
        Ok(e) => match e.kind {
            notify::EventKind::Any => FileChange::Any,
            notify::EventKind::Access(_) => FileChange::Access,
            notify::EventKind::Create(_) => FileChange::Create,
            notify::EventKind::Modify(_) => FileChange::Modify,
            notify::EventKind::Remove(_) => FileChange::Remove,
            notify::EventKind::Other => FileChange::Other,
        },
        Err(_) => FileChange::Failed,
    }
}

/// Calls `Receiver::clone`: one more handle on the receiving side.
#[verifier::external_body]
fn another_receiver(events: &Receiver<Result<notify::Event, notify::Error>>) -> Receiver<
    Result<notify::Event, notify::Error>,
> {
    events.clone()
}

/// Whether a change of this kind calls for reloading the script. Only a
/// modification does: a script that is created or deleted leaves the loaded
/// one in place, and an error of the watcher changes nothing.
pub open spec fn spec_has_file_changed(change: FileChange) -> bool {
    change is Modify
}

pub fn has_file_changed(change: FileChange) -> (changed: bool)
    ensures
        changed == spec_has_file_changed(change),
{
    match change {
        FileChange::Modify => true,
        _ => false,
    }
}

/// The queue on which a file system watcher reports what happens to the
/// loaded script.
pub struct FsWatcher {
    events: Receiver<Result<notify::Event, notify::Error>>,
    answers: Ghost<Seq<Option<FileChange>>>,
}

impl FsWatcher {
    /// Every answer that the queue gave, oldest first: a change, or nothing
    /// where it had none to report.
    pub closed spec fn answers(&self) -> Seq<Option<FileChange>> {
        self.answers@
    }

    /// Every change that was taken from the queue, oldest first.
    pub closed spec fn seen(&self) -> Seq<FileChange> {
        crate::channel::messages_of(self.answers@)
    }

    /// The changes taken are the changes among the answers.
    pub proof fn lemma_seen(&self)
        ensures
            self.seen() == crate::channel::messages_of(self.answers()),
    {
    }

    /// Wraps the queue that a running watcher fills.
    pub fn new(events: Receiver<Result<notify::Event, notify::Error>>) -> (watcher: Self)
        ensures
            watcher.answers() == Seq::<Option<FileChange>>::empty(),
            watcher.seen() == Seq::<FileChange>::empty(),
    {
        FsWatcher { events, answers: Ghost(Seq::empty()) }
    }

    /// Another handle on the queue of raw events.
    pub fn events(&self) -> Receiver<Result<notify::Event, notify::Error>> {
        another_receiver(&self.events)
    }

    /// Asks the queue once, without blocking, and hands out its answer: the
    /// kind of the next event if one is waiting.
    pub fn poll(&mut self) -> (change: Option<FileChange>)
        ensures
            final(self).answers() == old(self).answers().push(change),
            final(self).seen() == match change {
                Some(c) => old(self).seen().push(c),
                None => old(self).seen(),
            },
    {
        let change = match crate::channel::try_recv(&self.events) {
            Some(event) => Some(classify(&event)),
            None => None,
        };
        proof {
            crate::channel::lemma_messages_of_push(self.answers@, change);
        }
        self.answers = Ghost(self.answers@.push(change));
        change
    }
}

/// Nanoseconds for which changes of the script are gathered before the
/// script is loaded again.
pub const DEBOUNCE_NANOS: u128 = 100_000_000;

/// Gathers the changes of a burst into one reload.
///
/// The first change that calls for a reload starts a window; changes inside
/// the window are absorbed; when the window has passed, the reload is due,
/// once.
pub struct Debounce {
    pending: Option<u128>,
}

impl View for Debounce {
    type V = Option<u128>;

    closed spec fn view(&self) -> Option<u128> {
        self.pending
    }
}

/// The window after `change` was seen at time `now`.
pub open spec fn spec_note(pending: Option<u128>, change: FileChange, now: u128) -> Option<u128> {
    if spec_has_file_changed(change) && pending is None {
        Some(now)
    } else {
        pending
    }
}

/// The window after each of `changes` was seen at time `now`.
pub open spec fn spec_note_all(pending: Option<u128>, changes: Seq<FileChange>, now: u128)
    -> Option<u128>
    decreases changes.len(),
{
    if changes.len() == 0 {
        pending
    } else {
        spec_note(spec_note_all(pending, changes.drop_last(), now), changes.last(), now)
    }
}

/// Whether a reload is due at time `now`.
pub open spec fn spec_due(pending: Option<u128>, now: u128) -> bool {
    match pending {
        Some(since) => now >= since && now - since >= DEBOUNCE_NANOS,
        None => false,
    }
}

impl Debounce {
    pub fn new() -> (debounce: Self)
        ensures
            debounce@ == None::<u128>,
    {
        Debounce { pending: None }
    }

    /// Records that `change` was seen at time `now`.
    pub fn note(&mut self, change: FileChange, now: u128)
        ensures
            final(self)@ == spec_note(old(self)@, change, now),
    {
        if has_file_changed(change) && self.pending.is_none() {
            self.pending = Some(now);
        }
    }

    /// Whether a reload is due at time `now`. A reload that is due is
    /// reported once: the window closes with the answer.
    pub fn due(&mut self, now: u128) -> (due: bool)
        ensures
            due == spec_due(old(self)@, now),
            final(self)@ == if due {
                None
            } else {
                old(self)@
            },
    {
        match self.pending {
            Some(since) => {
                if now >= since && now - since >= DEBOUNCE_NANOS {
                    self.pending = None;
                    true
                } else {
                    false
                }
            },
            None => false,
        }
    }
}

/// A burst of changes in one pump leaves the window as the first change that
/// counts would alone: the rest is absorbed.
pub proof fn lemma_burst_is_one_change(pending: Option<u128>, changes: Seq<FileChange>, now: u128)
    ensures
        spec_note_all(pending, changes, now) == if pending is None && exists|i: int|
            0 <= i < changes.len() && spec_has_file_changed(#[trigger] changes[i]) {
            Some(now)
        } else {
            pending
        },
    decreases changes.len(),
{
    if changes.len() > 0 {
        let front = changes.drop_last();
        lemma_burst_is_one_change(pending, front, now);
        if pending is None {
            if exists|i: int| 0 <= i < front.len() && spec_has_file_changed(#[trigger] front[i]) {
                let i = choose|i: int|
                    0 <= i < front.len() && spec_has_file_changed(#[trigger] front[i]);
                assert(spec_has_file_changed(changes[i]));
            } else if spec_has_file_changed(changes.last()) {
                assert(spec_has_file_changed(changes[changes.len() - 1]));
            } else {
                assert forall|i: int| 0 <= i < changes.len() implies !spec_has_file_changed(
                    #[trigger] changes[i],
                ) by {
                    if i < front.len() {
                        assert(front[i] == changes[i]);
                    }
                }
            }
        }
    }
}

/// The last component of `path`, as `std::path::Path::file_name` gives it.
pub uninterp spec fn path_file_name(path: Seq<char>) -> Option<Seq<char>>;

/// Calls `std::path::Path::file_name`. The path is UTF-8, so its last
/// component is too and is handed back as text; the contract only names it.
#[verifier::external_body]
fn file_name(path: &str) -> (name: Option<String>)
    ensures
        crate::events::name_view(name) == path_file_name(path@),
{
    match std::path::Path::new(path).file_name() {
        Some(name) => Some(name.to_string_lossy().into_owned()),
        None => None,
    }
}

/// The name under which the script at `path` is shown and sent to the
/// worker: the last component of the path, or nothing where the path has
/// none.
pub open spec fn spec_script_name(path: Seq<char>) -> Seq<char> {
    match path_file_name(path) {
        Some(name) => name,
        None => Seq::empty(),
    }
}

pub fn script_name(path: &str) -> (name: String)
    ensures
        name@ == spec_script_name(path@),
{
    match file_name(path) {
        Some(name) => name,
        None => String::new(),
    }
}

/// Name of the shared log file inside the log directory.
pub open spec fn spec_log_file_name() -> Seq<char> {
    "aud.log"@
}

/// The log file that belongs to the tree rooted at `home`.
pub open spec fn spec_log_file(home: Seq<char>) -> Seq<char> {
    locations::path_join(locations::spec_log(home), spec_log_file_name())
}

/// The shared log file under `home`: `<home>/.aud/log/aud.log`.
pub fn log_in(home: &str) -> (path: String)
    ensures
        path@ == spec_log_file(home@),
{
    let dir = locations::log_in(home);
    locations::join(dir.as_str(), "aud.log")
}

/// The shared log file for a user whose home directory is `home`; none for
/// a user without one.
pub fn log_under(home: Option<&str>) -> (path: Option<String>)
    ensures
        crate::events::name_view(path) == locations::under(
            locations::text_of(home),
            |h: Seq<char>| spec_log_file(h),
        ),
{
    match home {
        Some(home) => Some(log_in(home)),
        None => None,
    }
}

/// The shared log file of the current user, or `None` when the user has no
/// home directory.
pub fn log() -> (path: Option<String>)
    ensures
        path matches Some(p) ==> exists|home: Seq<char>| p@ == spec_log_file(home),
{
    let home = locations::home_dir();
    log_under(
        match &home {
            Some(h) => Some(h.as_str()),
            None => None,
        },
    )
}

} // verus!
