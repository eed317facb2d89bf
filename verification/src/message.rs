//! The message protocol of the dispatch channel and the worker-loop decision.

use vstd::prelude::*;

verus! {

/// One message on the dispatch channel: either a unit of work, owned by
/// whichever worker dequeues it, or the terminate sentinel, which carries
/// no payload.  Exactly one worker consumes each message.
pub enum Message<T> {
    Work(T),
    Terminate,
}

/// What a worker does with one dequeued message: run the job and keep
/// looping, or end its loop and let its thread return.
pub enum Step<T> {
    Run(T),
    Exit,
}

/// The body of the worker loop, as a decision from message to step: a
/// `Work` message is handed on to be invoked exactly once, the `Terminate`
/// sentinel stops the loop.  Workers never exit for any other reason.
pub fn on_message<T>(m: Message<T>) -> (s: Step<T>)
    ensures
        m matches Message::Work(job) ==> s == Step::Run(job),
        m is Terminate ==> s == Step::<T>::Exit,
{
    match m {
        Message::Work(job) => Step::Run(job),
        Message::Terminate => Step::Exit,
    }
}

} // verus!
