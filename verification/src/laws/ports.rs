//! What holds of the ports: finding, selecting, opening and closing them, and hearing from them.

use crate::config::Config;
use crate::model;
use crate::model::{App, FrameAction, FrameRequests};
use crate::names;
use crate::send_input;
use crate::serial_worker::Event;
use crate::text;
use vstd::prelude::*;

verus! {

/// The status line shows the text that it is given, as an error or not, and nothing else changes.
pub proof fn law_status_line_shows_what_it_is_given(app: App, text: Seq<char>, is_error: bool)
    ensures
        ({
            let after = model::with_status(app, text, is_error);
            &&& after.status matches Some(status) && status.text == text && status.is_error
                == is_error
            &&& after == (App { status: after.status, ..app })
        }),
{
}

/// What is opened is the port that is selected, at the baud rate that is selected, and to ask changes
/// nothing; without a selected port nothing is opened, and only the status line changes.
pub proof fn law_selected_port_is_opened_at_the_selected_rate(app: App)
    ensures
        app.selected_port matches Some(name) ==> model::open_asked(app) == (
            app,
            Some((name, app.selected_baud)),
        ),
        app.selected_port is None ==> model::open_asked(app) == (
            App {
                status: Some(model::Status { text: "请先选择串口设备"@, is_error: true }),
                ..app
            },
            None::<(Seq<char>, u32)>,
        ),
{
}

/// A port that was opened is connected, with continuous sending not going on, and is reported with its
/// name and the selected baud rate; nothing else changes.
pub proof fn law_opened_port_is_connected(app: App, port: Seq<char>)
    ensures
        model::open_tried(app, port, Ok(())) == (App {
            connected: true,
            continuous_active: false,
            next_continuous_send_at: None,
            status: Some(
                model::Status {
                    text: "已打开串口："@ + port + " @ "@ + text::decimal(
                        app.selected_baud as nat,
                    ) + " baud"@,
                    is_error: false,
                },
            ),
            ..app
        }),
{
}

/// A port that could not be opened changes nothing but the status line, which shows the reason as it
/// is.
pub proof fn law_failed_opening_shows_the_reason(app: App, port: Seq<char>, reason: Seq<char>)
    ensures
        model::open_tried(app, port, Err(reason)) == (App {
            status: Some(model::Status { text: reason, is_error: true }),
            ..app
        }),
{
}

/// Closing gives up the connection, ends continuous sending, and is reported; nothing else changes,
/// so the logs and the inputs stay.
pub proof fn law_closing_gives_up_the_connection(app: App)
    ensures
        model::closed(app) == (App {
            connected: false,
            continuous_active: false,
            next_continuous_send_at: None,
            status: Some(model::Status { text: "串口已关闭"@, is_error: false }),
            ..app
        }),
{
}

/// Opening a port and closing it again leaves everything as it was, but for the status line, where
/// there was no connection and no continuous sending.
pub proof fn law_closing_undoes_opening(app: App, port: Seq<char>)
    requires
        !app.connected,
        !app.continuous_active,
        app.next_continuous_send_at is None,
    ensures
        ({
            let after = model::closed(model::open_tried(app, port, Ok(())));
            after == (App { status: after.status, ..app })
        }),
{
}

/// A look for ports changes only the list of ports, the selected port and the status line, which
/// counts the ports that were found.
pub proof fn law_refresh_counts_the_ports(app: App, list: Seq<Seq<char>>)
    requires
        list.len() > 0,
    ensures
        ({
            let after = model::refreshed(app, Ok(list));
            &&& after == (App {
                ports: after.ports,
                selected_port: after.selected_port,
                status: after.status,
                ..app
            })
            &&& after.status == Some(
                model::Status {
                    text: "已发现 "@ + text::decimal(list.len()) + " 个设备"@,
                    is_error: false,
                },
            )
        }),
{
    names::law_sorting_keeps_the_names(list);
}

/// Where the selected port is gone, or none was selected, the first of the ports that were found is
/// selected: no other stands before it.
pub proof fn law_refresh_falls_back_to_the_first_port(
    app: App,
    list: Seq<Seq<char>>,
    other: Seq<char>,
)
    requires
        list.len() > 0,
        !(app.selected_port matches Some(name) && list.contains(name)),
        list.contains(other),
    ensures
        model::refreshed(app, Ok(list)).selected_port matches Some(name) && list.contains(name)
            && names::not_after(name, other),
{
    names::law_sorting_keeps_the_names(list);
    names::law_name_order_is_total();
    broadcast use vstd::seq_lib::group_to_multiset_ensures;

    let ports = names::sorted(list);
    assert forall|name: Seq<char>| ports.contains(name) == #[trigger] list.contains(name) by {
        assert(ports.contains(name) <==> ports.to_multiset().count(name) > 0);
        assert(list.contains(name) <==> list.to_multiset().count(name) > 0);
    }
    assert(ports.contains(ports[0]));
    assert(list.contains(ports[0]));
    assert(ports.contains(other));
    let i = choose|i: int| 0 <= i < ports.len() && ports[i] == other;
    let order = names::name_order();
    if i > 0 {
        assert(order(ports[0], ports[i]));
    } else {
        assert(order(ports[0], ports[0]));
    }
}

/// Where no port is found, none is listed or selected, and the status line says so without an error.
pub proof fn law_refresh_without_ports_selects_none(app: App)
    ensures
        model::refreshed(app, Ok(Seq::empty())) == (App {
            ports: Seq::empty(),
            selected_port: None,
            status: Some(model::Status { text: "未发现可用串口设备"@, is_error: false }),
            ..app
        }),
{
    let none = Seq::<Seq<char>>::empty();
    names::law_sorting_keeps_the_names(none);
    assert(names::sorted(none) == none);
}

/// A look for ports that fails changes only the status line, which shows the reason as an error.
pub proof fn law_refresh_that_fails_shows_the_reason(app: App, reason: Seq<char>)
    ensures
        model::refreshed(app, Err(reason)) == (App {
            status: Some(model::Status { text: "刷新设备失败："@ + reason, is_error: true }),
            ..app
        }),
{
}

/// What is saved is the selected port and the selected baud rate, and the program starts with what
/// was saved: the port as it is, the baud rate as it is, or 115200 where none was.
pub proof fn law_selection_is_saved_and_taken_up(app: App, saved: Config)
    ensures
        model::selection(app).selected_port == app.selected_port,
        model::selection(app).selected_baud == Some(app.selected_baud),
        model::initial(saved).selected_port == saved.selected_port,
        saved.selected_baud matches Some(rate) ==> model::initial(saved).selected_baud == rate,
        saved.selected_baud is None ==> model::initial(saved).selected_baud == 115200,
{
}

/// At the start there is no connection, nothing is logged or sent, one empty line of text can be
/// typed into, data is shown as text, and the status line is empty. The baud rates and the intervals
/// to choose from stand in increasing order, and the first choices are among them.
pub proof fn law_start_is_idle(saved: Config)
    ensures
        ({
            let app = model::initial(saved);
            &&& app.ports.len() == 0
            &&& !app.connected
            &&& app.receive_log.len() == 0
            &&& app.send_log.len() == 0
            &&& !app.receive_as_hex
            &&& app.send_inputs.len() == 1
            &&& app.send_inputs[0].text.len() == 0
            &&& !app.send_inputs[0].is_hex
            &&& app.send_inputs[0].hex_error is None
            &&& !app.continuous_enabled
            &&& !app.continuous_active
            &&& app.next_continuous_send_at is None
            &&& app.status is None
            &&& app.selected_interval_ms == 1000
            &&& app.interval_options.contains(app.selected_interval_ms)
            &&& app.baud_rates.contains(115200)
            &&& forall|i: int, j: int|
                0 <= i < j < app.baud_rates.len() ==> app.baud_rates[i] < app.baud_rates[j]
            &&& forall|i: int, j: int|
                0 <= i < j < app.interval_options.len() ==> app.interval_options[i]
                    < app.interval_options[j]
        }),
{
    let app = model::initial(saved);
    assert(app.interval_options[3] == 1000);
    assert(app.baud_rates[4] == 115200);
}

/// Data that comes in is logged with its time and changes nothing else.
pub proof fn law_data_is_only_logged(app: App, stamp: Seq<char>, bytes: Seq<u8>)
    ensures
        ({
            let after = model::notified(app, stamp, Event::Received(bytes));
            &&& after == (App { receive_log: after.receive_log, ..app })
            &&& after.receive_log.last() == (stamp, bytes)
            &&& app.receive_log.len() < 1000 ==> after.receive_log == app.receive_log.push(
                (stamp, bytes),
            )
            &&& app.receive_log.len() == 1000 ==> after.receive_log
                == app.receive_log.drop_first().push((stamp, bytes))
        }),
{
    if app.receive_log.len() == 1000 {
        let after = model::notified(app, stamp, Event::Received(bytes));
        assert(after.receive_log == app.receive_log.drop_first().push((stamp, bytes)));
    }
}

/// The message of a worker that ends.
pub open spec fn farewell(event: Event) -> Option<model::Status> {
    match event {
        Event::Received(_) => None,
        Event::Closed(text) => Some(model::Status { text, is_error: false }),
        Event::Error(text) => Some(model::Status { text, is_error: true }),
    }
}

/// A worker that ends stops continuous sending, and its message is shown as it is, as an error where
/// it is one; nothing else changes at once.
pub proof fn law_end_of_the_worker_is_shown(app: App, stamp: Seq<char>, event: Event)
    requires
        farewell(event) is Some,
    ensures
        model::notified(app, stamp, event) == (App {
            continuous_active: false,
            next_continuous_send_at: None,
            status: farewell(event),
            ..app
        }),
        model::ends(event),
{
}

/// After everything that the worker said, the status line shows the last message of an end, or is as
/// it was where there was none; the logs of received data and the connection aside, nothing else
/// changes, and the connection is kept exactly where it was there, nothing ended, and the worker can
/// still be heard.
pub proof fn law_last_farewell_is_shown(
    app: App,
    stamps: Seq<Seq<char>>,
    events: Seq<Event>,
    disconnected: bool,
    i: int,
)
    requires
        stamps.len() == events.len(),
        -1 <= i < events.len(),
        i >= 0 ==> farewell(events[i]) is Some,
        forall|j: int| i < j < events.len() ==> farewell(#[trigger] events[j]) is None,
    ensures
        ({
            let after = model::drained(app, stamps, events, disconnected);
            &&& i >= 0 ==> after == (App {
                receive_log: after.receive_log,
                connected: false,
                continuous_active: false,
                next_continuous_send_at: None,
                status: farewell(events[i]),
                ..app
            })
            &&& i < 0 ==> after == (App {
                receive_log: after.receive_log,
                connected: app.connected && !disconnected,
                ..app
            })
        }),
{
    lemma_last_farewell(app, stamps, events, i);
    if i >= 0 {
        assert(model::ends(events[i]));
    } else {
        assert forall|j: int| 0 <= j < events.len() implies !model::ends(#[trigger] events[j]) by {
            assert(farewell(events[j]) is None);
        }
    }
}

proof fn lemma_last_farewell(app: App, stamps: Seq<Seq<char>>, events: Seq<Event>, i: int)
    requires
        stamps.len() == events.len(),
        -1 <= i < events.len(),
        i >= 0 ==> farewell(events[i]) is Some,
        forall|j: int| i < j < events.len() ==> farewell(#[trigger] events[j]) is None,
    ensures
        ({
            let after = model::notified_all(app, stamps, events);
            &&& i >= 0 ==> after == (App {
                receive_log: after.receive_log,
                continuous_active: false,
                next_continuous_send_at: None,
                status: farewell(events[i]),
                ..app
            })
            &&& i < 0 ==> after == (App { receive_log: after.receive_log, ..app })
        }),
    decreases events.len(),
{
    if events.len() > 0 {
        let front = events.drop_last();
        let last = events.len() - 1;
        assert(events.last() == events[last]);
        if i < last {
            assert(farewell(events[last]) is None);
            assert forall|j: int| i < j < front.len() implies farewell(#[trigger] front[j]) is None by {
                assert(front[j] == events[j]);
            }
            if i >= 0 {
                assert(front[i] == events[i]);
            }
            lemma_last_farewell(app, stamps.drop_last(), front, i);
        } else {
            lemma_only_these_change(app, stamps.drop_last(), front);
        }
    }
}

proof fn lemma_only_these_change(app: App, stamps: Seq<Seq<char>>, events: Seq<Event>)
    requires
        stamps.len() == events.len(),
    ensures
        ({
            let after = model::notified_all(app, stamps, events);
            after == (App {
                receive_log: after.receive_log,
                continuous_active: after.continuous_active,
                next_continuous_send_at: after.next_continuous_send_at,
                status: after.status,
                ..app
            })
        }),
    decreases events.len(),
{
    if events.len() > 0 {
        lemma_only_these_change(app, stamps.drop_last(), events.drop_last());
    }
}

/// Of the inputs, a frame removes the one that was asked to go, and only that; a line that was asked
/// for is added behind all others, empty and for text. Nothing else changes, but that continuous
/// sending ends where it was just switched off.
pub proof fn law_frame_edits_the_inputs(app: App, was_enabled: bool, requests: FrameRequests)
    requires
        requests.remove_input matches Some(index) ==> index < app.send_inputs.len(),
    ensures
        ({
            let after = model::frame_ended(app, was_enabled, requests);
            let gone: int = if requests.remove_input is Some {
                1
            } else {
                0
            };
            let come: int = if requests.add_input {
                1
            } else {
                0
            };
            let kept = app.send_inputs.len() - gone;
            &&& after.send_inputs.len() == kept + come
            &&& forall|i: int|
                #![trigger after.send_inputs[i]]
                0 <= i < kept ==> after.send_inputs[i] == app.send_inputs[if (
                requests.remove_input matches Some(index) && index <= i) {
                    i + 1
                } else {
                    i
                }]
            &&& requests.add_input ==> after.send_inputs.last() == (send_input::Input {
                text: Seq::empty(),
                is_hex: false,
                hex_error: None,
            })
            &&& if was_enabled && !app.continuous_enabled {
                after == (App {
                    send_inputs: after.send_inputs,
                    continuous_active: false,
                    next_continuous_send_at: None,
                    ..app
                })
            } else {
                after == (App { send_inputs: after.send_inputs, ..app })
            }
        }),
{
}

/// When an action has its turn: the selection is saved before ports are looked for, that comes before
/// a port is opened or closed, and sending comes last.
pub open spec fn turn(action: FrameAction) -> int {
    match action {
        FrameAction::SaveSelection => 0,
        FrameAction::RefreshPorts => 1,
        FrameAction::OpenPort => 2,
        FrameAction::ClosePort => 2,
        FrameAction::Send => 3,
    }
}

/// What is left to do after a frame is done turn by turn.
pub proof fn law_actions_wait_for_their_turn(
    connected: bool,
    requests: FrameRequests,
    i: int,
    j: int,
)
    requires
        0 <= i < j < model::frame_actions(connected, requests).len(),
    ensures
        turn(model::frame_actions(connected, requests)[i]) < turn(
            model::frame_actions(connected, requests)[j],
        ),
{
}

} // verus!
