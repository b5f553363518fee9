//! What holds of each step of the background worker.

use crate::model::REPAINT_INTERVAL_MS;
use crate::serial_worker;
use crate::serial_worker::{
    Action, Command, Event, Phase, Reply, READ_BUFFER_SIZE, READ_TIMEOUT_MS,
};
use vstd::prelude::*;

verus! {

/// A read waits a tenth of a second for up to 4096 bytes, and the window looks twice as often for what
/// came in.
pub proof fn law_window_keeps_up_with_the_worker()
    ensures
        READ_TIMEOUT_MS == 100,
        READ_BUFFER_SIZE == 4096,
        2 * REPAINT_INTERVAL_MS == READ_TIMEOUT_MS,
{
}

/// The worker looks for a command first. Without one it reads; where it is told to close, or nobody
/// can tell it anything any more, it says that the port is closed, and stops.
pub proof fn law_worker_obeys_or_reads()
    ensures
        serial_worker::action_of(Phase::Polling) is Poll,
        serial_worker::action_of(Phase::Reading) is Read,
        serial_worker::answers(Phase::Polling, Reply::NoCommand),
        serial_worker::step(Phase::Polling, Reply::NoCommand) == (Phase::Reading, None::<Event>),
        serial_worker::answers(Phase::Polling, Reply::Disconnected),
        serial_worker::step(Phase::Polling, Reply::Disconnected) == (
            Phase::Stopped,
            Some(Event::Closed("串口已关闭"@)),
        ),
        serial_worker::step(Phase::Polling, Reply::Command(Command::Close)) == serial_worker::step(
            Phase::Polling,
            Reply::Disconnected,
        ),
{
}

/// Any command can come, and none but the one to close is answered with a word.
pub proof fn law_commands_are_taken_in_silence(command: Command)
    ensures
        serial_worker::answers(Phase::Polling, Reply::Command(command)),
        !(command is Close) ==> serial_worker::step(
            Phase::Polling,
            Reply::Command(command),
        ).1 is None,
{
}

/// A command to set a line has the worker set that line to that level, and then read.
pub proof fn law_lines_are_set_as_commanded(level: bool)
    ensures
        ({
            let next = serial_worker::step(
                Phase::Polling,
                Reply::Command(Command::SetDtr(level)),
            ).0;
            &&& serial_worker::action_of(next) == Action::SetDtr(level)
            &&& serial_worker::answers(next, Reply::Done)
            &&& serial_worker::step(next, Reply::Done) == (Phase::Reading, None::<Event>)
        }),
        ({
            let next = serial_worker::step(
                Phase::Polling,
                Reply::Command(Command::SetRts(level)),
            ).0;
            &&& serial_worker::action_of(next) == Action::SetRts(level)
            &&& serial_worker::answers(next, Reply::Done)
            &&& serial_worker::step(next, Reply::Done) == (Phase::Reading, None::<Event>)
        }),
{
}

/// A line that cannot be set stops the worker, which tells which line it was and why.
pub proof fn law_lines_that_cannot_be_set_stop_the_worker(level: bool, reason: Seq<char>)
    ensures
        ({
            let next = serial_worker::step(
                Phase::Polling,
                Reply::Command(Command::SetDtr(level)),
            ).0;
            &&& serial_worker::answers(next, Reply::Failed(reason))
            &&& serial_worker::step(next, Reply::Failed(reason)) == (
                Phase::Stopped,
                Some(Event::Error("设置 DTR 失败："@ + reason)),
            )
        }),
        ({
            let next = serial_worker::step(
                Phase::Polling,
                Reply::Command(Command::SetRts(level)),
            ).0;
            &&& serial_worker::answers(next, Reply::Failed(reason))
            &&& serial_worker::step(next, Reply::Failed(reason)) == (
                Phase::Stopped,
                Some(Event::Error("设置 RTS 失败："@ + reason)),
            )
        }),
{
}

/// The worker writes the first of what is left, and after it the next; after the last it reads.
pub proof fn law_payloads_are_written_one_by_one(payloads: Seq<Seq<u8>>, reason: Seq<char>)
    requires
        payloads.len() > 0,
    ensures
        ({
            let phase = Phase::Sending(payloads);
            let next = serial_worker::step(phase, Reply::Done);
            &&& serial_worker::step(
                Phase::Polling,
                Reply::Command(Command::SendBatch(payloads)),
            ).0 == phase
            &&& serial_worker::action_of(phase) == Action::Write(payloads[0])
            &&& serial_worker::answers(phase, Reply::Done)
            &&& serial_worker::answers(phase, Reply::Failed(reason))
            &&& next.1 is None
            &&& payloads.len() > 1 ==> serial_worker::action_of(next.0) == Action::Write(
                payloads[1],
            )
            &&& payloads.len() == 1 ==> serial_worker::action_of(next.0) is Read
        }),
{
}

/// Data that was read is passed on as it is, silence is not; after a read that came to nothing in time
/// the worker goes on, and any other failure stops it with the reason.
pub proof fn law_reads_are_passed_on(bytes: Seq<u8>, message: Seq<char>)
    ensures
        serial_worker::answers(Phase::Reading, Reply::Data(bytes)),
        serial_worker::step(Phase::Reading, Reply::Data(bytes)) == (
            Phase::Polling,
            if bytes.len() > 0 {
                Some(Event::Received(bytes))
            } else {
                None
            },
        ),
        serial_worker::answers(Phase::Reading, Reply::ReadFailed { timed_out: true, message }),
        serial_worker::step(Phase::Reading, Reply::ReadFailed { timed_out: true, message }) == (
            Phase::Polling,
            None::<Event>,
        ),
        serial_worker::answers(Phase::Reading, Reply::ReadFailed { timed_out: false, message }),
        serial_worker::step(Phase::Reading, Reply::ReadFailed { timed_out: false, message }) == (
            Phase::Stopped,
            Some(Event::Error("接收失败："@ + message)),
        ),
{
}

} // verus!
