//! Decisions of the NYPA DB link: when the set of publisher streams has
//! changed, and what a stream's reader does with each read.

use vstd::prelude::*;

verus! {

/// Whether `x` occurs in `v`.
fn contains_id(v: &Vec<usize>, x: usize) -> (r: bool)
    ensures
        r == v@.contains(x),
{
    let mut k: usize = 0;
    while k < v.len()
        invariant
            k <= v.len(),
            forall|j: int| 0 <= j < k ==> v@[j] != x,
        decreases v.len() - k,
    {
        if v[k] == x {
            assert(v@[k as int] == x);
            return true;
        }
        k = k + 1;
    }
    false
}

/// Whether some element of `a` is missing from `b`.
fn has_missing(a: &Vec<usize>, b: &Vec<usize>) -> (r: bool)
    ensures
        r == exists|j: int| 0 <= j < a.len() && !b@.contains(#[trigger] a@[j]),
{
    let mut k: usize = 0;
    while k < a.len()
        invariant
            k <= a.len(),
            forall|j: int| 0 <= j < k ==> b@.contains(#[trigger] a@[j]),
        decreases a.len() - k,
    {
        if !contains_id(b, a[k]) {
            return true;
        }
        k = k + 1;
    }
    false
}

/// Whether the publisher streams found now differ, as sets of stream ids,
/// from the streams the link reads: the link then restarts.
pub fn stream_sets_differ(discovered: &Vec<usize>, current: &Vec<usize>) -> (r: bool)
    ensures
        r == (discovered@.to_set() != current@.to_set()),
{
    let missing_now = has_missing(current, discovered);
    let new_now = has_missing(discovered, current);
    proof {
        if !missing_now && !new_now {
            assert forall|x: usize| discovered@.to_set().contains(x) <==> current@.to_set().contains(
                x,
            ) by {
                if discovered@.contains(x) {
                    let j = choose|j: int| 0 <= j < discovered.len() && discovered@[j] == x;
                    assert(current@.contains(discovered@[j]));
                }
                if current@.contains(x) {
                    let j = choose|j: int| 0 <= j < current.len() && current@[j] == x;
                    assert(discovered@.contains(current@[j]));
                }
            }
            assert(discovered@.to_set() =~= current@.to_set());
        } else if missing_now {
            let j = choose|j: int| 0 <= j < current.len() && !discovered@.contains(#[trigger] current@[j]);
            assert(current@.to_set().contains(current@[j]));
            assert(!discovered@.to_set().contains(current@[j]));
        } else {
            let j = choose|j: int| 0 <= j < discovered.len() && !current@.contains(#[trigger] discovered@[j]);
            assert(discovered@.to_set().contains(discovered@[j]));
            assert(!current@.to_set().contains(discovered@[j]));
        }
    }
    missing_now || new_now
}

/// How a read of a frame from a publisher socket ended.
#[derive(Clone, Copy, Debug, PartialEq, Eq, Structural)]
pub enum FrameReadOutcome {
    /// A whole frame was read.
    Frame,
    /// No data within the read timeout.
    WouldBlock,
    /// The read timed out.
    TimedOut,
    /// The read was interrupted by a signal.
    Interrupted,
    /// Any other error: the publisher is gone.
    Failed,
}

/// What a stream's reader does after a read.
#[derive(Clone, Copy, Debug, PartialEq, Eq, Structural)]
pub enum ReaderAction {
    /// Publish the frame and read the next one.
    PublishFrame,
    /// Read again.
    Retry,
    /// Publish that the stream disconnected, and stop.
    Disconnect,
}

/// The reader's decision after a read: a frame is published; a timeout, a
/// would-block or an interruption is tried again; any other error ends the
/// stream.
pub fn reader_action(outcome: FrameReadOutcome) -> (r: ReaderAction)
    ensures
        r == match outcome {
            FrameReadOutcome::Frame => ReaderAction::PublishFrame,
            FrameReadOutcome::Failed => ReaderAction::Disconnect,
            _ => ReaderAction::Retry,
        },
{
    match outcome {
        FrameReadOutcome::Frame => ReaderAction::PublishFrame,
        FrameReadOutcome::WouldBlock | FrameReadOutcome::TimedOut | FrameReadOutcome::Interrupted => {
            ReaderAction::Retry
        },
        FrameReadOutcome::Failed => ReaderAction::Disconnect,
    }
}

/// What a stream's reader has published since it was last drained.
#[derive(Clone, Copy, Debug, PartialEq, Eq, Structural)]
pub enum StreamEvent {
    /// Nothing new (or the stream has no reader).
    Nothing,
    /// A new frame.
    Frame,
    /// The reader stopped: the publisher disconnected.
    Disconnected,
}

/// What draining does with one stream.
#[derive(Clone, Copy, Debug, PartialEq, Eq, Structural)]
pub enum StreamDisposition {
    /// Keep the stream as it is.
    Keep,
    /// Copy the new frame into the stream, raise a frame change, keep it.
    UpdateAndNotify,
    /// Drop the stream.
    Drop,
}

/// Draining a stream: a new frame is taken and announced, a disconnected
/// stream is dropped, and a stream with nothing new stays.
pub fn stream_disposition(event: StreamEvent) -> (r: StreamDisposition)
    ensures
        r == match event {
            StreamEvent::Nothing => StreamDisposition::Keep,
            StreamEvent::Frame => StreamDisposition::UpdateAndNotify,
            StreamEvent::Disconnected => StreamDisposition::Drop,
        },
{
    match event {
        StreamEvent::Nothing => StreamDisposition::Keep,
        StreamEvent::Frame => StreamDisposition::UpdateAndNotify,
        StreamEvent::Disconnected => StreamDisposition::Drop,
    }
}

} // verus!
