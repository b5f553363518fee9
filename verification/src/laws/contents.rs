//! What contracts speak of is what the values hold: nothing is left out or changed.

use crate::app;
use crate::app::SerialToolApp;
use crate::config::AppConfig;
use crate::names;
use crate::platform;
use crate::send_input;
use crate::send_input::SendInput;
use crate::serial_worker;
use crate::serial_worker::{
    Action, Command, Event, Phase, Reply, SerialWorker, WorkerAction, WorkerCommand, WorkerEvent,
    WorkerReply,
};
use crate::text;
use vstd::prelude::*;

verus! {

/// The state holds its fields one by one.
pub proof fn law_state_holds_its_fields(app: SerialToolApp)
    ensures
        app@.ports.len() == app.ports@.len(),
        forall|i: int| 0 <= i < app.ports@.len() ==> app@.ports[i] == (#[trigger] app.ports@[i])@,
        app.selected_port matches Some(name) ==> app@.selected_port == Some(name@),
        app.selected_port is None ==> app@.selected_port is None,
        app@.baud_rates == app.baud_rates@,
        app@.selected_baud == app.selected_baud,
        app@.connected == app.connected,
        app@.receive_as_hex == app.receive_as_hex,
        app@.interval_options == app.interval_options@,
        app@.selected_interval_ms == app.selected_interval_ms,
        app@.continuous_enabled == app.continuous_enabled,
        app@.continuous_active == app.continuous_active,
        app.next_continuous_send_at matches Some(at) ==> app@.next_continuous_send_at == Some(
            at as nat,
        ),
        app.next_continuous_send_at is None ==> app@.next_continuous_send_at is None,
        app.status matches Some(banner) ==> (app@.status matches Some(status) && status.text
            == banner.text@ && status.is_error == banner.is_error),
        app.status is None ==> app@.status is None,
{
}

/// The state holds its logs entry by entry and its inputs line by line.
pub proof fn law_state_holds_its_logs_and_inputs(app: SerialToolApp)
    ensures
        app@.receive_log.len() == app.receive_log@.len(),
        forall|i: int|
            0 <= i < app.receive_log@.len() ==> app@.receive_log[i] == (
                (#[trigger] app.receive_log@[i]).0@,
                app.receive_log@[i].1@,
            ),
        app@.send_log.len() == app.send_log@.len(),
        forall|i: int|
            0 <= i < app.send_log@.len() ==> app@.send_log[i] == (
                (#[trigger] app.send_log@[i]).0@,
                app.send_log@[i].1@,
            ),
        app@.send_inputs.len() == app.send_inputs@.len(),
        forall|i: int|
            0 <= i < app.send_inputs@.len() ==> app@.send_inputs[i]
                == (#[trigger] app.send_inputs@[i])@,
{
}

/// An input and settings hold their fields one by one.
pub proof fn law_input_and_settings_hold_their_fields(input: SendInput, config: AppConfig)
    ensures
        input@.text == input.text@,
        input@.is_hex == input.is_hex,
        input.hex_error matches Some(message) ==> input@.hex_error == Some(message@),
        input.hex_error is None ==> input@.hex_error is None,
        config.selected_port matches Some(name) ==> config@.selected_port == Some(name@),
        config.selected_port is None ==> config@.selected_port is None,
        config@.selected_baud == config.selected_baud,
{
}

/// Lists hold as many things as they are long, each in its place.
pub proof fn law_lists_hold_each_thing_in_its_place(
    payloads: Seq<Vec<u8>>,
    strings: Seq<String>,
    parts: Seq<&[char]>,
    literals: Seq<&'static str>,
    events: Seq<WorkerEvent>,
)
    ensures
        serial_worker::contents(payloads).len() == payloads.len(),
        forall|i: int|
            0 <= i < payloads.len() ==> serial_worker::contents(payloads)[i]
                == (#[trigger] payloads[i])@,
        names::names_of(strings).len() == strings.len(),
        forall|i: int|
            0 <= i < strings.len() ==> names::names_of(strings)[i] == (#[trigger] strings[i])@,
        text::runs(parts).len() == parts.len(),
        forall|i: int| 0 <= i < parts.len() ==> text::runs(parts)[i] == (#[trigger] parts[i])@,
        platform::words_of(literals).len() == literals.len(),
        forall|i: int|
            0 <= i < literals.len() ==> platform::words_of(literals)[i]
                == (#[trigger] literals[i])@,
        app::events_of(events).len() == events.len(),
        forall|i: int|
            0 <= i < events.len() ==> app::events_of(events)[i] == (#[trigger] events[i])@,
{
}

/// Outcomes tell success from failure, and hold what came of it.
pub proof fn law_outcomes_hold_what_came_of_it(
    outcome: Result<(), String>,
    found: Result<Vec<String>, String>,
    collected: Result<Vec<Vec<u8>>, String>,
    payloads: Option<Vec<Vec<u8>>>,
    event: Option<WorkerEvent>,
)
    ensures
        outcome is Ok <==> app::outcome_of(outcome) is Ok,
        outcome matches Err(reason) ==> app::outcome_of(outcome) == Err::<(), Seq<char>>(reason@),
        found matches Ok(list) ==> app::found_of(found) == Ok::<Seq<Seq<char>>, Seq<char>>(
            names::names_of(list@),
        ),
        found matches Err(reason) ==> app::found_of(found) == Err::<Seq<Seq<char>>, Seq<char>>(
            reason@,
        ),
        collected matches Ok(list) ==> app::collected_of(collected) == Ok::<
            Seq<Seq<u8>>,
            Seq<char>,
        >(serial_worker::contents(list@)),
        collected matches Err(reason) ==> app::collected_of(collected) == Err::<
            Seq<Seq<u8>>,
            Seq<char>,
        >(reason@),
        payloads matches Some(list) ==> app::payloads_of(payloads) == Some(
            serial_worker::contents(list@),
        ),
        payloads is None ==> app::payloads_of(payloads) is None,
        event matches Some(e) ==> serial_worker::event_of(event) == Some(e@),
        event is None ==> serial_worker::event_of(event) is None,
{
}

/// A conversion reports bytes exactly where bytes are expected, and those; otherwise the message.
pub proof fn law_conversions_report_what_is_expected(
    result: Result<Vec<u8>, String>,
    expected: Result<Seq<u8>, Seq<char>>,
)
    requires
        send_input::reports(result, expected),
    ensures
        result is Ok <==> expected is Ok,
        result matches Ok(bytes) ==> bytes@ == expected->Ok_0,
        result matches Err(message) ==> message@ == expected->Err_0,
{
}

/// What the worker says, is told and asks for holds the same bytes, levels and words.
pub proof fn law_words_of_the_worker_hold_what_they_say(
    bytes: Vec<u8>,
    batch: Vec<Vec<u8>>,
    message: String,
    level: bool,
    command: WorkerCommand,
)
    ensures
        WorkerEvent::Received(bytes)@ == Event::Received(bytes@),
        WorkerEvent::Closed(message)@ == Event::Closed(message@),
        WorkerEvent::Error(message)@ == Event::Error(message@),
        WorkerCommand::SendBatch(batch)@ == Command::SendBatch(serial_worker::contents(batch@)),
        WorkerCommand::SetDtr(level)@ == Command::SetDtr(level),
        WorkerCommand::SetRts(level)@ == Command::SetRts(level),
        WorkerCommand::Close@ == Command::Close,
        WorkerAction::Poll@ == Action::Poll,
        WorkerAction::Write(&bytes)@ == Action::Write(bytes@),
        WorkerAction::SetDtr(level)@ == Action::SetDtr(level),
        WorkerAction::SetRts(level)@ == Action::SetRts(level),
        WorkerAction::Read@ == Action::Read,
        WorkerAction::Stop@ == Action::Stop,
        WorkerReply::Command(command)@ == Reply::Command(command@),
        WorkerReply::NoCommand@ == Reply::NoCommand,
        WorkerReply::Disconnected@ == Reply::Disconnected,
        WorkerReply::Done@ == Reply::Done,
        WorkerReply::Failed(message)@ == Reply::Failed(message@),
        WorkerReply::Data(bytes)@ == Reply::Data(bytes@),
        (WorkerReply::ReadFailed { timed_out: level, message })@ == (Reply::ReadFailed {
            timed_out: level,
            message: message@,
        }),
{
}

/// What the worker is about is what it says it is about, with everything that is left to write.
pub proof fn law_worker_holds_what_is_left_to_write(
    payload: Vec<u8>,
    rest: Vec<Vec<u8>>,
    level: bool,
)
    ensures
        SerialWorker::Polling@ == Phase::Polling,
        (SerialWorker::Sending { payload, rest })@ == Phase::Sending(
            seq![payload@] + serial_worker::contents(rest@),
        ),
        SerialWorker::SettingDtr(level)@ == Phase::SettingDtr(level),
        SerialWorker::SettingRts(level)@ == Phase::SettingRts(level),
        SerialWorker::Reading@ == Phase::Reading,
        SerialWorker::Stopped@ == Phase::Stopped,
{
}

} // verus!
