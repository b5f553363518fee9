//! What holds of the tool as a whole.

pub mod bytes;
pub mod contents;
pub mod ports;
pub mod sending;
pub mod settings;
pub mod words;
pub mod worker;

use crate::config;
use crate::model;
use crate::model::{App, Entry, FrameAction, FrameRequests, SendPurpose, MAX_LOG_ENTRIES};
use crate::names;
use crate::send_input;
use crate::send_input::Input;
use crate::serial_worker::Event;
use crate::text;
use vstd::prelude::*;

verus! {

/// Entries made of stamps and payloads, pair by pair.
pub open spec fn paired(stamps: Seq<Seq<char>>, payloads: Seq<Seq<u8>>) -> Seq<Entry> {
    Seq::new(payloads.len(), |i: int| (stamps[i], payloads[i]))
}

/// A log keeps the latest entries, in order: after any number of them it holds the last thousand of
/// all that there were.
pub proof fn law_log_keeps_the_latest(
    log: Seq<Entry>,
    stamps: Seq<Seq<char>>,
    payloads: Seq<Seq<u8>>,
)
    requires
        log.len() <= MAX_LOG_ENTRIES,
        stamps.len() == payloads.len(),
    ensures
        model::logged_all(log, stamps, payloads) == model::last_entries(
            log + paired(stamps, payloads),
            MAX_LOG_ENTRIES as nat,
        ),
        model::logged_all(log, stamps, payloads).len() <= MAX_LOG_ENTRIES,
    decreases payloads.len(),
{
    if payloads.len() == 0 {
        assert(log + paired(stamps, payloads) == log);
    } else {
        let fewer_stamps = stamps.drop_last();
        let fewer = payloads.drop_last();
        law_log_keeps_the_latest(log, fewer_stamps, fewer);
        let entry = (stamps.last(), payloads.last());
        let shorter = log + paired(fewer_stamps, fewer);
        let longer = log + paired(stamps, payloads);
        assert(longer == shorter.push(entry));
        let n = MAX_LOG_ENTRIES as nat;
        let kept = model::last_entries(shorter, n);
        assert(model::last_entries(kept.push(entry), n) == model::last_entries(longer, n));
    }
}

/// Not blank.
pub open spec fn filled() -> spec_fn(Input) -> bool {
    |input: Input| !text::blank(input.text)
}

/// The payload of an input that can be sent.
pub open spec fn payload_of() -> spec_fn(Input) -> Seq<u8> {
    |input: Input| send_input::payload(input)->Ok_0
}

/// What is sent is the payload of each input that is not blank, one message per input, in the order
/// of the inputs.
pub proof fn law_filled_inputs_are_sent_in_order(inputs: Seq<Input>)
    requires
        model::collected(inputs) is Ok,
    ensures
        model::collected(inputs)->Ok_0 == inputs.filter(filled()).map_values(payload_of()),
        model::collected(inputs)->Ok_0.len() > 0,
{
    lemma_gathered(inputs);
}

proof fn lemma_gathered(inputs: Seq<Input>)
    requires
        model::gathered(inputs) is Ok,
    ensures
        model::gathered(inputs)->Ok_0 == inputs.filter(filled()).map_values(payload_of()),
    decreases inputs.len(),
{
    if inputs.len() == 0 {
        reveal(Seq::filter);
        assert(inputs.filter(filled()).map_values(payload_of()) == Seq::<Seq<u8>>::empty());
    } else {
        let front = inputs.drop_last();
        let input = inputs.last();
        lemma_gathered(front);
        assert(front.push(input) == inputs);
        text::lemma_filter_push(front, input, filled());
        if filled()(input) {
            assert(front.filter(filled()).push(input).map_values(payload_of()) == front.filter(
                filled(),
            ).map_values(payload_of()).push(payload_of()(input)));
        }
    }
}

/// Input number `i` is not blank and has an error.
pub open spec fn faulty(inputs: Seq<Input>, i: int) -> bool {
    filled()(inputs[i]) && send_input::input_error(inputs[i]) is Some
}

/// Inputs that show the errors they have can be sent exactly where one is not blank and none that is
/// not blank has an error.
pub proof fn law_inputs_without_errors_can_be_sent(inputs: Seq<Input>)
    requires
        forall|i: int| 0 <= i < inputs.len() ==> send_input::validated(#[trigger] inputs[i]),
    ensures
        model::collected(inputs) is Ok <==> (exists|i: int|
            0 <= i < inputs.len() && filled()(#[trigger] inputs[i])) && (forall|i: int|
            0 <= i < inputs.len() ==> !#[trigger] faulty(inputs, i)),
{
    lemma_gathered_faults(inputs);
    if model::gathered(inputs) is Ok {
        lemma_gathered(inputs);
        let sent = inputs.filter(filled());
        broadcast use vstd::seq_lib::group_filter_ensures;

        if sent.len() > 0 {
            assert(sent.contains(sent[0]));
            let input = sent[0];
            assert(filled()(input));
            assert(inputs.contains(input)) by {
                inputs.lemma_filter_contains_rev(filled(), input);
            }
            let i = choose|i: int| 0 <= i < inputs.len() && inputs[i] == input;
            assert(filled()(inputs[i]));
        }
        if exists|i: int| 0 <= i < inputs.len() && filled()(#[trigger] inputs[i]) {
            let i = choose|i: int| 0 <= i < inputs.len() && filled()(#[trigger] inputs[i]);
            assert(sent.contains(inputs[i]));
            assert(sent.len() > 0);
        }
    }
}

/// Where an input that is not blank has an error, the message names the first such input by its
/// number, and nothing is sent.
pub proof fn law_send_error_names_the_first_faulty_input(inputs: Seq<Input>, i: int)
    requires
        forall|j: int| 0 <= j < inputs.len() ==> send_input::validated(#[trigger] inputs[j]),
        0 <= i < inputs.len(),
        faulty(inputs, i),
        forall|j: int| 0 <= j < i ==> !#[trigger] faulty(inputs, j),
    ensures
        model::collected(inputs) == Err::<Seq<Seq<u8>>, Seq<char>>(
            "数据 "@ + text::decimal((i + 1) as nat)
                + " 包含无效的 HEX 格式，请修正后再发送"@,
        ),
    decreases inputs.len(),
{
    let front = inputs.drop_last();
    assert forall|j: int| 0 <= j < front.len() implies faulty(front, j) == #[trigger] faulty(
        inputs,
        j,
    ) by {
        assert(front[j] == inputs[j]);
    }
    if i == inputs.len() - 1 {
        lemma_gathered_faults(front);
        assert(model::gathered(front) is Ok) by {
            assert forall|j: int| 0 <= j < front.len() implies !#[trigger] faulty(front, j) by {
                assert(faulty(front, j) == faulty(inputs, j));
            }
        }
    } else {
        assert(faulty(front, i) == faulty(inputs, i));
        assert forall|j: int| 0 <= j < i implies !#[trigger] faulty(front, j) by {
            assert(faulty(front, j) == faulty(inputs, j));
        }
        law_send_error_names_the_first_faulty_input(front, i);
        assert(model::gathered(front) is Err) by {
            lemma_gathered_faults(front);
        }
    }
}

/// Inputs that show the errors they have are gathered exactly where none that is not blank has one.
proof fn lemma_gathered_faults(inputs: Seq<Input>)
    requires
        forall|i: int| 0 <= i < inputs.len() ==> send_input::validated(#[trigger] inputs[i]),
    ensures
        model::gathered(inputs) is Ok <==> (forall|i: int|
            0 <= i < inputs.len() ==> !#[trigger] faulty(inputs, i)),
    decreases inputs.len(),
{
    if inputs.len() > 0 {
        let front = inputs.drop_last();
        let last = inputs.len() - 1;
        let input = inputs.last();
        assert forall|i: int| 0 <= i < front.len() implies send_input::validated(
            #[trigger] front[i],
        ) by {
            assert(front[i] == inputs[i]);
        }
        lemma_gathered_faults(front);
        assert forall|i: int| 0 <= i < front.len() implies #[trigger] faulty(front, i) == faulty(
            inputs,
            i,
        ) by {
            assert(front[i] == inputs[i]);
        }
        assert(send_input::validated(inputs[last]));
        assert(inputs[last] == input);
        if !faulty(inputs, last) && filled()(input) && input.is_hex {
            send_input::law_validated_hex_always_converts(input);
        }
        if model::gathered(inputs) is Ok {
            assert(!faulty(inputs, last));
            assert forall|i: int| 0 <= i < inputs.len() implies !#[trigger] faulty(inputs, i) by {
                if i < last {
                    assert(faulty(front, i) == faulty(inputs, i));
                }
            }
        } else {
            if forall|i: int| 0 <= i < inputs.len() ==> !#[trigger] faulty(inputs, i) {
                assert forall|i: int| 0 <= i < front.len() implies !#[trigger] faulty(front, i) by {
                    assert(!faulty(inputs, i));
                }
                assert(!faulty(inputs, last));
            }
        }
    }
}

/// Without a connection nothing is handed over and the status line is an error, whatever is typed.
pub proof fn law_nothing_is_sent_without_a_connection(app: App, stamps: Seq<Seq<char>>)
    requires
        !app.connected,
    ensures
        model::send_begun(app, stamps).1 is None,
        model::send_begun(app, stamps).0.status matches Some(status) && status.is_error,
{
}

/// A send that is refused for what is typed changes nothing but the status line, which tells why.
pub proof fn law_refused_inputs_change_only_the_status(
    app: App,
    stamps: Seq<Seq<char>>,
    reason: Seq<char>,
)
    requires
        model::collected(app.send_inputs) == Err::<Seq<Seq<u8>>, Seq<char>>(reason),
    ensures
        model::send_begun(app, stamps) == (
            model::with_status(app, reason, true),
            None::<Seq<Seq<u8>>>,
        ),
{
}

/// Before the next moment to send has come, the passing of time neither sends nor changes anything.
pub proof fn law_nothing_happens_before_it_is_due(app: App, now_ns: u64, stamps: Seq<Seq<char>>)
    requires
        model::well_formed(app),
        !model::due(app, now_ns),
    ensures
        model::ticked(app, now_ns, stamps) == (app, None::<Seq<Seq<u8>>>),
{
}

/// After a continuous send at `sent_ns` the next one is due from one interval later on, and not
/// before.
pub proof fn law_continuous_sends_keep_the_interval(
    app: App,
    purpose: SendPurpose,
    sent_ns: u64,
    now_ns: u64,
)
    requires
        app.continuous_enabled,
        purpose == SendPurpose::StartContinuous || (purpose == SendPurpose::Repeat
            && app.continuous_active),
    ensures
        model::due(model::send_ended(app, purpose, Ok(()), sent_ns), now_ns) <==> now_ns >= sent_ns
            + app.selected_interval_ms * 1_000_000,
{
}

/// The send button stops what it started: pressed again it sends nothing, and continuous sending is
/// as it was before, switched on but not going on.
pub proof fn law_button_stops_what_it_started(app: App, sent_ns: u64, stamps: Seq<Seq<char>>)
    requires
        app.continuous_enabled,
    ensures
        ({
            let started = model::send_ended(app, SendPurpose::StartContinuous, Ok(()), sent_ns);
            &&& started.continuous_active
            &&& model::send_pressed(started, stamps) == (
                model::with_status(model::stopped(app), "已停止持续发送"@, false),
                None::<(SendPurpose, Seq<Seq<u8>>)>,
            )
        }),
{
}

/// A send that fails stops continuous sending.
pub proof fn law_failed_send_stops_continuous_sending(
    app: App,
    purpose: SendPurpose,
    reason: Seq<char>,
    now_ns: u64,
)
    ensures
        ({
            let after = model::send_ended(app, purpose, Err(reason), now_ns);
            &&& !after.continuous_active
            &&& after.next_continuous_send_at is None
            &&& after.status matches Some(status) && status.is_error
        }),
{
}

/// After ports were found, they are listed in order with none added or lost, one of them is selected,
/// and it is the one that had been selected wherever that is still there.
pub proof fn law_refresh_selects_a_port_that_is_there(app: App, list: Seq<Seq<char>>)
    requires
        list.len() > 0,
    ensures
        ({
            let after = model::refreshed(app, Ok(list));
            &&& after.ports.to_multiset() == list.to_multiset()
            &&& vstd::relations::sorted_by(after.ports, names::name_order())
            &&& after.selected_port matches Some(name) && list.contains(name)
            &&& (app.selected_port matches Some(name) && list.contains(name))
                ==> after.selected_port == app.selected_port
        }),
{
    names::law_sorting_keeps_the_names(list);
    broadcast use vstd::seq_lib::group_to_multiset_ensures;

    let ports = names::sorted(list);
    assert forall|name: Seq<char>| ports.contains(name) == #[trigger] list.contains(name) by {
        assert(ports.contains(name) <==> ports.to_multiset().count(name) > 0);
        assert(list.contains(name) <==> list.to_multiset().count(name) > 0);
    }
    assert(ports.contains(ports[0]));
    assert(list.contains(ports[0]));
}

/// Looking for ports twice with the same result is the same as looking once.
pub proof fn law_refresh_twice_is_refresh_once(app: App, found: model::Found)
    ensures
        model::refreshed(model::refreshed(app, found), found) == model::refreshed(app, found),
{
    match found {
        Ok(list) => {
            let ports = names::sorted(list);
            if ports.len() > 0 {
                assert(ports.contains(ports[0]));
            }
        },
        Err(_) => {},
    }
}

/// A look for ports that fails changes nothing but the status line.
pub proof fn law_failed_refresh_changes_only_the_status(app: App, reason: Seq<char>)
    ensures
        model::refreshed(app, Err(reason)) == model::with_status(
            app,
            "刷新设备失败："@ + reason,
            true,
        ),
{
}

/// The selected port and baud rate survive a restart: the program that reads what was saved begins
/// with them. It keeps the baud rate whatever the first look for ports finds, and the port where it is
/// found again or the look fails.
pub proof fn law_selection_survives_a_restart(app: App, found: model::Found)
    ensures
        ({
            let saved = config::settings(config::toml(model::selection(app)));
            let again = model::refreshed(model::initial(saved), found);
            &&& again.selected_baud == app.selected_baud
            &&& match found {
                Ok(list) => (app.selected_port matches Some(name) && list.contains(name))
                    ==> again.selected_port == app.selected_port,
                Err(_) => again.selected_port == app.selected_port,
            }
        }),
{
    config::law_settings_survive_saving(model::selection(app));
    let saved = config::settings(config::toml(model::selection(app)));
    if let Ok(list) = found {
        if list.len() > 0 {
            law_refresh_selects_a_port_that_is_there(model::initial(saved), list);
        }
    }
}

/// Once the worker has said that it ends, continuous sending does not go on.
proof fn lemma_end_stops_continuous_sending(
    app: App,
    stamps: Seq<Seq<char>>,
    events: Seq<Event>,
)
    requires
        model::some_ends(events),
        stamps.len() == events.len(),
    ensures
        ({
            let after = model::notified_all(app, stamps, events);
            !after.continuous_active && after.next_continuous_send_at is None
        }),
    decreases events.len(),
{
    let i = choose|i: int| 0 <= i < events.len() && model::ends(#[trigger] events[i]);
    if i < events.len() - 1 {
        let front = events.drop_last();
        assert(front[i] == events[i]);
        lemma_end_stops_continuous_sending(app, stamps.drop_last(), front);
    }
}

/// A worker that ends, or can no longer be heard, costs the connection; one that says that it ends
/// also stops continuous sending, whatever else it says.
pub proof fn law_end_of_the_worker_costs_the_connection(
    app: App,
    stamps: Seq<Seq<char>>,
    events: Seq<Event>,
    disconnected: bool,
)
    requires
        disconnected || model::some_ends(events),
        stamps.len() == events.len(),
    ensures
        ({
            let after = model::drained(app, stamps, events, disconnected);
            &&& !after.connected
            &&& model::some_ends(events) ==> !after.continuous_active
        }),
{
    if model::some_ends(events) {
        lemma_end_stops_continuous_sending(app, stamps, events);
    }
}

/// While continuous sending goes on there is a connection.
pub open spec fn live(app: App) -> bool {
    app.continuous_active ==> app.connected
}

/// Everything that the worker can say keeps continuous sending tied to a connection, except that it
/// falls silent without a word.
pub proof fn law_worker_keeps_continuous_sending_live(
    app: App,
    stamps: Seq<Seq<char>>,
    events: Seq<Event>,
    disconnected: bool,
)
    requires
        live(app),
        stamps.len() == events.len(),
        disconnected ==> model::some_ends(events),
    ensures
        live(model::drained(app, stamps, events, disconnected)),
{
    if model::some_ends(events) {
        lemma_end_stops_continuous_sending(app, stamps, events);
    } else {
        lemma_words_keep_the_connection(app, stamps, events);
    }
}

proof fn lemma_words_keep_the_connection(app: App, stamps: Seq<Seq<char>>, events: Seq<Event>)
    requires
        live(app),
        stamps.len() == events.len(),
    ensures
        live(model::notified_all(app, stamps, events)),
        model::notified_all(app, stamps, events).connected == app.connected,
    decreases events.len(),
{
    if events.len() > 0 {
        lemma_words_keep_the_connection(app, stamps.drop_last(), events.drop_last());
    }
}

/// Everything that the user and time do keeps continuous sending tied to a connection: it begins only
/// with one, and ends when it is closed.
pub proof fn law_user_keeps_continuous_sending_live(
    app: App,
    found: model::Found,
    port: Seq<char>,
    outcome: Result<(), Seq<char>>,
    stamps: Seq<Seq<char>>,
    purpose: SendPurpose,
    now_ns: u64,
    was_enabled: bool,
    requests: FrameRequests,
)
    requires
        live(app),
    ensures
        live(model::refreshed(app, found)),
        live(model::open_asked(app).0),
        live(model::open_tried(app, port, outcome)),
        live(model::closed(app)),
        live(model::send_pressed(app, stamps).0),
        live(model::ticked(app, now_ns, stamps).0),
        model::send_pressed(app, stamps).1 is Some ==> live(
            model::send_ended(model::send_pressed(app, stamps).0, purpose, outcome, now_ns),
        ),
        model::ticked(app, now_ns, stamps).1 is Some ==> live(
            model::send_ended(model::ticked(app, now_ns, stamps).0, purpose, outcome, now_ns),
        ),
        live(model::frame_ended(app, was_enabled, requests)),
{
}

/// What is left to do after a frame is each thing that was asked for, once, and never both to open
/// and to close the port.
pub proof fn law_frame_does_what_was_asked(connected: bool, requests: FrameRequests)
    ensures
        ({
            let actions = model::frame_actions(connected, requests);
            &&& actions.no_duplicates()
            &&& actions.contains(FrameAction::SaveSelection) <==> requests.selection_changed
            &&& actions.contains(FrameAction::RefreshPorts) <==> requests.refresh
            &&& actions.contains(FrameAction::OpenPort) <==> requests.open_or_close && !connected
            &&& actions.contains(FrameAction::ClosePort) <==> requests.open_or_close && connected
            &&& actions.contains(FrameAction::Send) <==> requests.send
        }),
{
    let actions = model::frame_actions(connected, requests);
    lemma_frame_actions_hold(connected, requests);
    assert forall|i: int, j: int| 0 <= i < actions.len() && 0 <= j < actions.len() && i != j implies
        actions[i] != actions[j] by {
        if i < j {
            ports::law_actions_wait_for_their_turn(connected, requests, i, j);
        } else {
            ports::law_actions_wait_for_their_turn(connected, requests, j, i);
        }
    }
}

/// What there is to do after a frame.
proof fn lemma_frame_actions_hold(connected: bool, requests: FrameRequests)
    ensures
        forall|x: FrameAction| #[trigger]
            model::frame_actions(connected, requests).contains(x) <==> (match x {
                FrameAction::SaveSelection => requests.selection_changed,
                FrameAction::RefreshPorts => requests.refresh,
                FrameAction::OpenPort => requests.open_or_close && !connected,
                FrameAction::ClosePort => requests.open_or_close && connected,
                FrameAction::Send => requests.send,
            }),
{
    let a = model::optional(requests.selection_changed, FrameAction::SaveSelection);
    let b = model::optional(requests.refresh, FrameAction::RefreshPorts);
    let c = model::optional(requests.open_or_close && !connected, FrameAction::OpenPort);
    let d = model::optional(requests.open_or_close && connected, FrameAction::ClosePort);
    let e = model::optional(requests.send, FrameAction::Send);
    lemma_optional(requests.selection_changed, FrameAction::SaveSelection);
    lemma_optional(requests.refresh, FrameAction::RefreshPorts);
    lemma_optional(requests.open_or_close && !connected, FrameAction::OpenPort);
    lemma_optional(requests.open_or_close && connected, FrameAction::ClosePort);
    lemma_optional(requests.send, FrameAction::Send);
    lemma_appended(a, b);
    lemma_appended(a + b, c);
    lemma_appended(a + b + c, d);
    lemma_appended(a + b + c + d, e);
}

/// A list of one action, or of none, holds that action or none.
proof fn lemma_optional(wanted: bool, action: FrameAction)
    ensures
        forall|x: FrameAction| #[trigger]
            model::optional(wanted, action).contains(x) <==> wanted && x == action,
{
    if wanted {
        assert(model::optional(wanted, action)[0] == action);
    }
}

/// What two lists in a row hold.
proof fn lemma_appended(a: Seq<FrameAction>, b: Seq<FrameAction>)
    ensures
        forall|x: FrameAction| #[trigger] (a + b).contains(x) <==> a.contains(x) || b.contains(x),
{
    assert forall|x: FrameAction| #[trigger]
        (a + b).contains(x) <==> a.contains(x) || b.contains(x) by {
        let ab = a + b;
        if ab.contains(x) {
            let i = choose|i: int| 0 <= i < ab.len() && ab[i] == x;
            if i < a.len() {
                assert(a[i] == x);
            } else {
                assert(b[i - a.len()] == x);
            }
        }
        if a.contains(x) {
            let i = choose|i: int| 0 <= i < a.len() && a[i] == x;
            assert(ab[i] == x);
        }
        if b.contains(x) {
            let i = choose|i: int| 0 <= i < b.len() && b[i] == x;
            assert(ab[a.len() + i] == x);
        }
    }
}

/// The entries for the data among the worker's words, each with the time it came.
pub open spec fn received_entries(stamps: Seq<Seq<char>>, events: Seq<Event>) -> Seq<Entry>
    decreases events.len(),
{
    if events.len() == 0 {
        Seq::empty()
    } else {
        let before = received_entries(stamps.drop_last(), events.drop_last());
        match events.last() {
            Event::Received(bytes) => before.push((stamps.last(), bytes)),
            _ => before,
        }
    }
}

/// All data that the worker passes on ends in the log, in order and unchanged; the log then holds the
/// latest thousand entries.
pub proof fn law_received_data_is_logged_in_order(
    app: App,
    stamps: Seq<Seq<char>>,
    events: Seq<Event>,
    disconnected: bool,
)
    requires
        app.receive_log.len() <= MAX_LOG_ENTRIES,
        stamps.len() == events.len(),
    ensures
        model::drained(app, stamps, events, disconnected).receive_log == model::last_entries(
            app.receive_log + received_entries(stamps, events),
            MAX_LOG_ENTRIES as nat,
        ),
        model::drained(app, stamps, events, disconnected).send_log == app.send_log,
    decreases events.len(),
{
    let n = MAX_LOG_ENTRIES as nat;
    if events.len() == 0 {
        assert(app.receive_log + received_entries(stamps, events) == app.receive_log);
    } else {
        let fewer_stamps = stamps.drop_last();
        let fewer = events.drop_last();
        law_received_data_is_logged_in_order(app, fewer_stamps, fewer, disconnected);
        let shorter = app.receive_log + received_entries(fewer_stamps, fewer);
        let longer = app.receive_log + received_entries(stamps, events);
        match events.last() {
            Event::Received(bytes) => {
                let entry = (stamps.last(), bytes);
                assert(longer == shorter.push(entry));
                let kept = model::last_entries(shorter, n);
                assert(model::last_entries(kept.push(entry), n) == model::last_entries(longer, n));
            },
            _ => {},
        }
    }
}

} // verus!
