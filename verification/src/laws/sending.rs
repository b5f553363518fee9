//! What holds of sending: which inputs go out, when, and what is noted of it.

use crate::laws;
use crate::laws::words;
use crate::model;
use crate::model::{App, Entry, SendPurpose};
use crate::send_input;
use crate::send_input::Input;
use crate::text;
use vstd::prelude::*;

verus! {

/// The last thousand of `all`.
pub open spec fn latest(all: Seq<Entry>) -> Seq<Entry> {
    if all.len() > 1000 {
        all.skip(all.len() - 1000)
    } else {
        all
    }
}

/// The input holds something other than white space.
pub open spec fn has_text() -> spec_fn(Input) -> bool {
    |input: Input| !words::all_white(input.text)
}

/// The payloads of the inputs that hold text, one for each, in order.
pub open spec fn messages(inputs: Seq<Input>) -> Seq<Seq<u8>> {
    inputs.filter(has_text()).map_values(|input: Input| send_input::payload(input)->Ok_0)
}

/// Nothing speaks against sending the input: it shows no error and stands for bytes.
pub open spec fn sendable(input: Input) -> bool {
    !(input.is_hex && input.hex_error is Some) && send_input::payload(input) is Ok
}

/// Some input holds text, and every input that does can be sent.
pub open spec fn all_sendable(inputs: Seq<Input>) -> bool {
    &&& exists|i: int| 0 <= i < inputs.len() && has_text()(#[trigger] inputs[i])
    &&& forall|i: int|
        0 <= i < inputs.len() && has_text()(#[trigger] inputs[i]) ==> sendable(inputs[i])
}

proof fn lemma_gathered_ok(inputs: Seq<Input>)
    requires
        forall|i: int|
            0 <= i < inputs.len() && has_text()(#[trigger] inputs[i]) ==> sendable(inputs[i]),
    ensures
        model::gathered(inputs) == Ok::<Seq<Seq<u8>>, Seq<char>>(messages(inputs)),
    decreases inputs.len(),
{
    let read = |input: Input| send_input::payload(input)->Ok_0;
    if inputs.len() == 0 {
        reveal(Seq::filter);
        assert(messages(inputs) == Seq::<Seq<u8>>::empty());
    } else {
        let front = inputs.drop_last();
        let input = inputs.last();
        assert(input == inputs[inputs.len() - 1]);
        assert forall|i: int| 0 <= i < front.len() && has_text()(#[trigger] front[i]) implies sendable(
            front[i],
        ) by {
            assert(front[i] == inputs[i]);
        }
        lemma_gathered_ok(front);
        assert(front.push(input) == inputs);
        text::lemma_filter_push(front, input, has_text());
        if has_text()(input) {
            assert(front.filter(has_text()).push(input).map_values(read) == front.filter(
                has_text(),
            ).map_values(read).push(read(input)));
        }
        assert(has_text()(input) == !text::blank(input.text));
    }
}

proof fn lemma_some_message(inputs: Seq<Input>)
    ensures
        messages(inputs).len() > 0 <==> exists|i: int|
            0 <= i < inputs.len() && has_text()(#[trigger] inputs[i]),
    decreases inputs.len(),
{
    if inputs.len() == 0 {
        reveal(Seq::filter);
    } else {
        let front = inputs.drop_last();
        let input = inputs.last();
        lemma_some_message(front);
        assert(front.push(input) == inputs);
        text::lemma_filter_push(front, input, has_text());
        if has_text()(input) {
            assert(has_text()(inputs[inputs.len() - 1]));
        }
        if exists|i: int| 0 <= i < front.len() && has_text()(#[trigger] front[i]) {
            let i = choose|i: int| 0 <= i < front.len() && has_text()(#[trigger] front[i]);
            assert(has_text()(inputs[i]));
        }
        if exists|i: int| 0 <= i < inputs.len() && has_text()(#[trigger] inputs[i]) {
            let i = choose|i: int| 0 <= i < inputs.len() && has_text()(#[trigger] inputs[i]);
            if i < front.len() {
                assert(has_text()(front[i]));
            }
        }
    }
}

/// Where inputs hold text and all of those can be sent, what is to be sent is the payload of each of
/// them, in order, and of no other.
pub proof fn law_every_filled_input_is_a_message(inputs: Seq<Input>)
    requires
        all_sendable(inputs),
    ensures
        model::collected(inputs) == Ok::<Seq<Seq<u8>>, Seq<char>>(messages(inputs)),
        messages(inputs).len() > 0,
{
    lemma_gathered_ok(inputs);
    lemma_some_message(inputs);
}

/// Where no input holds text, nothing is to be sent, and the message asks for something.
pub proof fn law_blank_inputs_are_no_message(inputs: Seq<Input>)
    requires
        forall|i: int| 0 <= i < inputs.len() ==> words::all_white((#[trigger] inputs[i]).text),
    ensures
        model::collected(inputs) == Err::<Seq<Seq<u8>>, Seq<char>>("请至少填写一条发送数据"@),
{
    assert forall|i: int| 0 <= i < inputs.len() implies !has_text()(#[trigger] inputs[i]) by {
        assert(words::all_white(inputs[i].text));
    }
    lemma_gathered_ok(inputs);
    lemma_some_message(inputs);
}

/// Where an input that holds text cannot be sent, nothing is; the message is about the first such
/// input, by its number counted from one where it shows an error, and otherwise in the words of the
/// input.
pub proof fn law_first_input_that_cannot_be_sent_is_reported(inputs: Seq<Input>, i: int)
    requires
        0 <= i < inputs.len(),
        has_text()(inputs[i]),
        !sendable(inputs[i]),
        forall|j: int| 0 <= j < i && has_text()(#[trigger] inputs[j]) ==> sendable(inputs[j]),
    ensures
        inputs[i].is_hex && inputs[i].hex_error is Some ==> model::collected(inputs) == Err::<
            Seq<Seq<u8>>,
            Seq<char>,
        >(
            "数据 "@ + text::decimal((i + 1) as nat)
                + " 包含无效的 HEX 格式，请修正后再发送"@,
        ),
        !(inputs[i].is_hex && inputs[i].hex_error is Some) ==> model::collected(inputs) == Err::<
            Seq<Seq<u8>>,
            Seq<char>,
        >(send_input::payload(inputs[i])->Err_0),
    decreases inputs.len(),
{
    let front = inputs.drop_last();
    let input = inputs.last();
    assert forall|j: int| 0 <= j < i && j < front.len() && has_text()(#[trigger] front[j]) implies
        sendable(front[j]) by {
        assert(front[j] == inputs[j]);
    }
    if i == inputs.len() - 1 {
        assert(input == inputs[i]);
        lemma_gathered_ok(front);
        assert(!text::blank(input.text));
    } else {
        assert(front[i] == inputs[i]);
        law_first_input_that_cannot_be_sent_is_reported(front, i);
        lemma_gathered_fails(front, i);
    }
}

proof fn lemma_gathered_fails(inputs: Seq<Input>, i: int)
    requires
        0 <= i < inputs.len(),
        has_text()(inputs[i]),
        !sendable(inputs[i]),
    ensures
        model::gathered(inputs) is Err,
    decreases inputs.len(),
{
    if i == inputs.len() - 1 {
        assert(!text::blank(inputs.last().text));
    } else {
        let front = inputs.drop_last();
        assert(front[i] == inputs[i]);
        lemma_gathered_fails(front, i);
    }
}

/// An entry that is logged stands last; before it stand the entries that were there, in order, the
/// oldest left out where there would be more than a thousand.
pub proof fn law_logged_entry_stands_last(log: Seq<Entry>, entry: Entry)
    ensures
        model::logged(log, entry) == latest(log.push(entry)),
        model::logged(log, entry).last() == entry,
{
}

/// Entries that are logged one after the other stand last, in order, and the log holds the last
/// thousand of all.
pub proof fn law_logged_entries_stand_last(
    log: Seq<Entry>,
    stamps: Seq<Seq<char>>,
    payloads: Seq<Seq<u8>>,
)
    requires
        payloads.len() > 0,
        stamps.len() == payloads.len(),
    ensures
        model::logged_all(log, stamps, payloads) == latest(log + laws::paired(stamps, payloads)),
    decreases payloads.len(),
{
    let fewer_stamps = stamps.drop_last();
    let fewer = payloads.drop_last();
    let entry = (stamps.last(), payloads.last());
    let shorter = log + laws::paired(fewer_stamps, fewer);
    let longer = log + laws::paired(stamps, payloads);
    assert(longer == shorter.push(entry));
    let before = model::logged_all(log, fewer_stamps, fewer);
    if fewer.len() == 0 {
        assert(shorter == log);
        assert(before == log);
    } else {
        law_logged_entries_stand_last(log, fewer_stamps, fewer);
        assert(latest(before.push(entry)) == latest(longer));
    }
    law_logged_entry_stands_last(before, entry);
}

/// Beginning a send with a connection hands over every message, and logs exactly what it hands over,
/// each with its time; nothing else changes.
pub proof fn law_what_is_handed_over_is_every_message(app: App, stamps: Seq<Seq<char>>)
    requires
        app.connected,
        all_sendable(app.send_inputs),
        stamps.len() == messages(app.send_inputs).len(),
    ensures
        model::send_begun(app, stamps).1 == Some(messages(app.send_inputs)),
        model::send_begun(app, stamps).0 == (App {
            send_log: latest(app.send_log + laws::paired(stamps, messages(app.send_inputs))),
            ..app
        }),
{
    law_every_filled_input_is_a_message(app.send_inputs);
    law_logged_entries_stand_last(app.send_log, stamps, messages(app.send_inputs));
}

/// Without a connection what would be sent is logged but not handed over, and the status line asks
/// for a port; nothing else changes.
pub proof fn law_without_a_connection_messages_are_only_logged(app: App, stamps: Seq<Seq<char>>)
    requires
        !app.connected,
        all_sendable(app.send_inputs),
        stamps.len() == messages(app.send_inputs).len(),
    ensures
        model::send_begun(app, stamps).1 is None,
        model::send_begun(app, stamps).0 == (App {
            send_log: latest(app.send_log + laws::paired(stamps, messages(app.send_inputs))),
            status: Some(model::Status { text: "请先打开串口"@, is_error: true }),
            ..app
        }),
{
    law_every_filled_input_is_a_message(app.send_inputs);
    law_logged_entries_stand_last(app.send_log, stamps, messages(app.send_inputs));
}

/// Where the inputs cannot be sent, nothing is handed over or logged: only the status line changes,
/// and shows the reason as an error.
pub proof fn law_inputs_that_cannot_be_sent_leave_no_trace(app: App, stamps: Seq<Seq<char>>)
    requires
        model::collected(app.send_inputs) is Err,
    ensures
        model::send_begun(app, stamps).1 is None,
        model::send_begun(app, stamps).0 == (App {
            status: Some(
                model::Status {
                    text: model::collected(app.send_inputs)->Err_0,
                    is_error: true,
                },
            ),
            ..app
        }),
{
}

/// As many time stamps are taken as messages are logged.
pub proof fn law_each_message_has_a_stamp(app: App, now_ns: u64)
    requires
        all_sendable(app.send_inputs),
    ensures
        model::count(model::collected(app.send_inputs)) == messages(app.send_inputs).len(),
        !(app.continuous_enabled && app.continuous_active) ==> model::press_count(app)
            == messages(app.send_inputs).len(),
        app.continuous_enabled && app.continuous_active && (app.next_continuous_send_at matches Some(
            at,
        ) && at <= now_ns) ==> model::tick_count(app, now_ns) == messages(app.send_inputs).len(),
{
    law_every_filled_input_is_a_message(app.send_inputs);
}

/// While continuous sending goes on, every message is handed over and logged again as soon as the
/// moment for it has come, however long ago that was.
pub proof fn law_due_messages_are_sent_again(app: App, now_ns: u64, stamps: Seq<Seq<char>>)
    requires
        app.continuous_enabled,
        app.continuous_active,
        app.next_continuous_send_at matches Some(at) && at <= now_ns,
        app.connected,
        all_sendable(app.send_inputs),
        stamps.len() == messages(app.send_inputs).len(),
    ensures
        model::ticked(app, now_ns, stamps).1 == Some(messages(app.send_inputs)),
        model::ticked(app, now_ns, stamps).0 == (App {
            send_log: latest(app.send_log + laws::paired(stamps, messages(app.send_inputs))),
            ..app
        }),
{
    law_what_is_handed_over_is_every_message(app, stamps);
}

/// What is due is sent as a press of the send button would send it, whatever stands in its way.
pub proof fn law_due_messages_meet_the_same_obstacles(app: App, now_ns: u64, stamps: Seq<Seq<char>>)
    requires
        app.continuous_enabled,
        app.continuous_active,
        app.next_continuous_send_at matches Some(at) && at <= now_ns,
    ensures
        ({
            let idle = App { continuous_enabled: false, ..app };
            let (pressed, handed) = model::send_pressed(idle, stamps);
            let (after, repeated) = model::ticked(app, now_ns, stamps);
            &&& after == (App { continuous_enabled: true, ..pressed })
            &&& repeated is Some <==> handed is Some
            &&& handed matches Some((_, list)) ==> repeated == Some(list)
        }),
{
}

/// The passing of time does nothing while continuous sending is off or does not go on, nor before the
/// moment to send; where no moment is set, it sets one a whole interval away and sends nothing.
pub proof fn law_time_alone_sends_nothing_early(app: App, now_ns: u64, stamps: Seq<Seq<char>>)
    ensures
        !app.continuous_enabled || !app.continuous_active || (
        app.next_continuous_send_at matches Some(at) && now_ns < at) ==> model::ticked(
            app,
            now_ns,
            stamps,
        ) == (app, None::<Seq<Seq<u8>>>),
        app.continuous_enabled && app.continuous_active && app.next_continuous_send_at is None
            ==> model::ticked(app, now_ns, stamps) == (
            App {
                next_continuous_send_at: Some(
                    (now_ns + app.selected_interval_ms * 1_000_000) as nat,
                ),
                ..app
            },
            None::<Seq<Seq<u8>>>,
        ),
{
}

/// Continuous sending goes on from send to send: what was sent at `sent_ns` is sent again by every
/// look at the clock from one interval later on, and by none before.
pub proof fn law_continuous_sending_goes_on(
    app: App,
    now_ns: u64,
    sent_ns: u64,
    later_ns: u64,
    stamps: Seq<Seq<char>>,
    more: Seq<Seq<char>>,
)
    requires
        app.continuous_enabled,
        app.continuous_active,
        app.next_continuous_send_at matches Some(at) && at <= now_ns,
        app.connected,
        all_sendable(app.send_inputs),
    ensures
        ({
            let sent = model::send_ended(
                model::ticked(app, now_ns, stamps).0,
                SendPurpose::Repeat,
                Ok(()),
                sent_ns,
            );
            let again = model::ticked(sent, later_ns, more).1;
            &&& sent.continuous_active
            &&& sent.status == app.status
            &&& if later_ns >= sent_ns + app.selected_interval_ms * 1_000_000 {
                again == Some(messages(app.send_inputs))
            } else {
                again is None
            }
        }),
{
    law_every_filled_input_is_a_message(app.send_inputs);
}

/// A press of the send button sends every message: once where continuous sending is off, and to begin
/// continuous sending where it is on and does not go on yet.
pub proof fn law_button_sends_every_message(app: App, stamps: Seq<Seq<char>>)
    requires
        !(app.continuous_enabled && app.continuous_active),
        app.connected,
        all_sendable(app.send_inputs),
        stamps.len() == messages(app.send_inputs).len(),
    ensures
        model::send_pressed(app, stamps).1 == Some(
            (
                if app.continuous_enabled {
                    SendPurpose::StartContinuous
                } else {
                    SendPurpose::Once
                },
                messages(app.send_inputs),
            ),
        ),
        model::send_pressed(app, stamps).0 == (App {
            send_log: latest(app.send_log + laws::paired(stamps, messages(app.send_inputs))),
            ..app
        }),
{
    law_what_is_handed_over_is_every_message(app, stamps);
}

/// A press of the send button that can send nothing tells why and changes nothing else but the log,
/// just as beginning a send does; a press while continuous sending goes on stops it, sends nothing
/// and logs nothing.
pub proof fn law_button_refuses_or_stops(app: App, stamps: Seq<Seq<char>>)
    ensures
        !(app.continuous_enabled && app.continuous_active) ==> model::send_pressed(app, stamps).0
            == model::send_begun(app, stamps).0 && (model::send_pressed(app, stamps).1 is Some
            <==> model::send_begun(app, stamps).1 is Some),
        app.continuous_enabled && app.continuous_active ==> model::send_pressed(app, stamps) == (
            App {
                continuous_active: false,
                next_continuous_send_at: None,
                status: Some(model::Status { text: "已停止持续发送"@, is_error: false }),
                ..app
            },
            None::<(SendPurpose, Seq<Seq<u8>>)>,
        ),
{
}

/// How a send that the connection took is noted: a single send is reported; the start of continuous
/// sending is reported with its interval and sets the next moment one interval away; a repeat only
/// sets the next moment.
pub proof fn law_sends_that_succeed_are_noted(app: App, now_ns: u64)
    ensures
        ({
            let next = Some((now_ns + app.selected_interval_ms * 1_000_000) as nat);
            &&& model::send_ended(app, SendPurpose::Once, Ok(()), now_ns) == (App {
                status: Some(model::Status { text: "发送完成"@, is_error: false }),
                ..app
            })
            &&& model::send_ended(app, SendPurpose::StartContinuous, Ok(()), now_ns) == (App {
                continuous_active: true,
                next_continuous_send_at: next,
                status: Some(
                    model::Status {
                        text: "已开始持续发送，周期 "@ + text::decimal(
                            app.selected_interval_ms as nat,
                        ) + " ms"@,
                        is_error: false,
                    },
                ),
                ..app
            })
            &&& model::send_ended(app, SendPurpose::Repeat, Ok(()), now_ns) == (App {
                next_continuous_send_at: next,
                ..app
            })
        }),
{
}

/// A send that the connection did not take stops continuous sending and is reported with the reason,
/// whatever it was for; nothing else changes.
pub proof fn law_sends_that_fail_are_reported(
    app: App,
    purpose: SendPurpose,
    reason: Seq<char>,
    now_ns: u64,
)
    ensures
        model::send_ended(app, purpose, Err(reason), now_ns) == (App {
            continuous_active: false,
            next_continuous_send_at: None,
            status: Some(model::Status { text: "发送失败："@ + reason, is_error: true }),
            ..app
        }),
{
}

} // verus!
