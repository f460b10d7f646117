//! The capability that a capture device offers to the application.
use vstd::prelude::*;
use crate::channel::CaptureProducer;
use crate::events::{SourceError, StreamConfig};

verus! {

/// What an application asked of its capture source.
pub enum Request {
    Enumerate,
    Open(Seq<char>),
    Pause,
    Resume,
    Close,
}

/// A source of captured frames: the audio or MIDI subsystem of this machine,
/// or a remote host behind a network transport. The application treats all
/// of them alike.
///
/// An implementation runs an OS-driven callback. All that the callback may do
/// is copy the data it was given and call [`CaptureProducer::push`] once.
/// Nothing is assumed of what an implementation answers.
pub trait CaptureSource {
    /// Names of the input devices that are present now.
    fn enumerate(&mut self) -> Result<Vec<String>, SourceError>;

    /// Opens a stream on the device called `name`, in place of the stream
    /// that was open, and delivers its frames to `sink`.
    fn open(&mut self, name: &str, sink: CaptureProducer) -> Result<StreamConfig, SourceError>;

    /// Holds the open stream back.
    fn pause(&mut self);

    /// Lets the open stream flow again.
    fn resume(&mut self);

    /// Tears the open stream down.
    fn close(&mut self);

    /// The next error that the device reported since the last call, if any.
    fn poll_error(&mut self) -> Option<SourceError>;
}

/// A capture source together with the record of what was asked of it and of
/// what it answered when it was asked for its next error. The source is
/// reached through this record only, so that the record misses no call.
pub struct Heard<S: CaptureSource> {
    source: S,
    asked: Ghost<Seq<Request>>,
    faults: Ghost<Seq<Option<SourceError>>>,
}

impl<S: CaptureSource> Heard<S> {
    /// Everything asked of the source, oldest first; asking for the next
    /// error is on a record of its own.
    pub closed spec fn asked(&self) -> Seq<Request> {
        self.asked@
    }

    /// What the source answered each time it was asked for its next error:
    /// an error, or nothing.
    pub closed spec fn fault_answers(&self) -> Seq<Option<SourceError>> {
        self.faults@
    }

    /// A source of which nothing was asked yet.
    pub fn new(source: S) -> (heard: Self)
        ensures
            heard.asked() == Seq::<Request>::empty(),
            heard.fault_answers() == Seq::<Option<SourceError>>::empty(),
    {
        Heard { source, asked: Ghost(Seq::empty()), faults: Ghost(Seq::empty()) }
    }

    /// Asks the source for the names of its devices.
    pub fn enumerate(&mut self) -> (listing: Result<Vec<String>, SourceError>)
        ensures
            final(self).asked() == old(self).asked().push(Request::Enumerate),
            final(self).fault_answers() == old(self).fault_answers(),
    {
        self.asked = Ghost(self.asked@.push(Request::Enumerate));
        self.source.enumerate()
    }

    /// Asks the source to open the device called `name` and to deliver its
    /// frames to `sink`.
    pub fn open(&mut self, name: &str, sink: CaptureProducer) -> (answer: Result<
        StreamConfig,
        SourceError,
    >)
        ensures
            final(self).asked() == old(self).asked().push(Request::Open(name@)),
            final(self).fault_answers() == old(self).fault_answers(),
    {
        self.asked = Ghost(self.asked@.push(Request::Open(name@)));
        self.source.open(name, sink)
    }

    /// Asks the source to hold the open stream back.
    pub fn pause(&mut self)
        ensures
            final(self).asked() == old(self).asked().push(Request::Pause),
            final(self).fault_answers() == old(self).fault_answers(),
    {
        self.asked = Ghost(self.asked@.push(Request::Pause));
        self.source.pause();
    }

    /// Asks the source to let the open stream flow again.
    pub fn resume(&mut self)
        ensures
            final(self).asked() == old(self).asked().push(Request::Resume),
            final(self).fault_answers() == old(self).fault_answers(),
    {
        self.asked = Ghost(self.asked@.push(Request::Resume));
        self.source.resume();
    }

    /// Asks the source to tear the open stream down.
    pub fn close(&mut self)
        ensures
            final(self).asked() == old(self).asked().push(Request::Close),
            final(self).fault_answers() == old(self).fault_answers(),
    {
        self.asked = Ghost(self.asked@.push(Request::Close));
        self.source.close();
    }

    /// Asks the source once for the next error that the device reported,
    /// and hands out its answer.
    pub fn poll_error(&mut self) -> (error: Option<SourceError>)
        ensures
            final(self).fault_answers() == old(self).fault_answers().push(error),
            final(self).asked() == old(self).asked(),
    {
        let error = self.source.poll_error();
        self.faults = Ghost(self.faults@.push(error));
        error
    }
}

} // verus!
