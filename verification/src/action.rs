//! What a program that is driven by the library is asked to do.

use vstd::prelude::*;

verus! {

/// One thing to do. A list of them is carried out in order.
#[derive(Debug, Clone)]
pub enum Action {
    /// Print a line.
    Say(String),
    /// Print a line as an error.
    Warn(String),
    /// Send a datagram on the socket of this exchange.
    Send { pbx: usize, datagram: Vec<u8> },
    /// Send a datagram to the only exchange and print a line about it, or, if it
    /// cannot be sent, an error that names it by its label.
    Report { label: String, line: String, datagram: Vec<u8> },
    /// Play samples at 8 kHz.
    Play(Vec<i16>),
    /// Drop what is recorded and what is still to be played.
    FlushAudio,
    /// Count a deviation of an arrival, in milliseconds, in the estimate of the
    /// jitter, and set the depth of the buffer by it.
    Estimate(u64),
    /// End the program with this status.
    Exit(i32),
}

/// One thing to do.
#[verifier::ext_equal]
pub ghost enum ActionModel {
    Say(Seq<char>),
    Warn(Seq<char>),
    Send { pbx: usize, datagram: Seq<u8> },
    Report { label: Seq<char>, line: Seq<char>, datagram: Seq<u8> },
    Play(Seq<i16>),
    FlushAudio,
    Estimate(u64),
    Exit(i32),
}

impl View for Action {
    type V = ActionModel;

    open spec fn view(&self) -> ActionModel {
        match *self {
            Action::Say(s) => ActionModel::Say(s@),
            Action::Warn(s) => ActionModel::Warn(s@),
            Action::Send { pbx, datagram } => ActionModel::Send { pbx, datagram: datagram@ },
            Action::Report { label, line, datagram } => ActionModel::Report {
                label: label@,
                line: line@,
                datagram: datagram@,
            },
            Action::Play(pcm) => ActionModel::Play(pcm@),
            Action::FlushAudio => ActionModel::FlushAudio,
            Action::Estimate(ms) => ActionModel::Estimate(ms),
            Action::Exit(status) => ActionModel::Exit(status),
        }
    }
}

/// What a list of actions asks for.
pub open spec fn actions_view(v: Seq<Action>) -> Seq<ActionModel> {
    v.map_values(|a: Action| a@)
}

} // verus!
