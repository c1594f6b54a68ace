use vstd::prelude::*;

verus! {

/// Outcome of one bounded-time send on a channel.
#[derive(Clone, Copy, Debug, PartialEq, Eq, Structural)]
pub enum SendOutcome {
    Sent,
    TimedOut,
    Disconnected,
}

/// What a producer does next: move to its next item, retry the same item,
/// or exit because the receiving side is gone.
#[derive(Clone, Copy, Debug, PartialEq, Eq, Structural)]
pub enum SendStep {
    Proceed,
    RetrySame,
    Stop,
}

/// Outcome of one bounded-time receive on a channel.
#[derive(Clone, Copy, Debug, PartialEq, Eq, Structural)]
pub enum RecvOutcome {
    Received,
    TimedOut,
    Disconnected,
}

/// What a consumer does next: work on the received item, wait again, or
/// exit because every sender is gone.
#[derive(Clone, Copy, Debug, PartialEq, Eq, Structural)]
pub enum RecvStep {
    Work,
    WaitAgain,
    Exit,
}

/// The discipline both the block reader and the decoder workers follow when
/// sending: a timeout retries the same item, and a disconnected receiver
/// ends the sender's loop.
pub fn send_step(o: &SendOutcome) -> (r: SendStep)
    ensures
        r == (match *o {
            SendOutcome::Sent => SendStep::Proceed,
            SendOutcome::TimedOut => SendStep::RetrySame,
            SendOutcome::Disconnected => SendStep::Stop,
        }),
{
    match o {
        SendOutcome::Sent => SendStep::Proceed,
        SendOutcome::TimedOut => SendStep::RetrySame,
        SendOutcome::Disconnected => SendStep::Stop,
    }
}

/// The discipline a decoder worker follows when receiving blocks: a timeout
/// polls again, and a disconnected sender side ends the worker's loop.
pub fn recv_step(o: &RecvOutcome) -> (r: RecvStep)
    ensures
        r == (match *o {
            RecvOutcome::Received => RecvStep::Work,
            RecvOutcome::TimedOut => RecvStep::WaitAgain,
            RecvOutcome::Disconnected => RecvStep::Exit,
        }),
{
    match o {
        RecvOutcome::Received => RecvStep::Work,
        RecvOutcome::TimedOut => RecvStep::WaitAgain,
        RecvOutcome::Disconnected => RecvStep::Exit,
    }
}

} // verus!
