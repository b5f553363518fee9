//! The state of the tool and how each happening changes it, as mathematics.
//!
//! Every method of [`crate::app::SerialToolApp`] is specified by a function of this module.

use crate::clock;
use crate::config::Config;
use crate::names;
use crate::send_input;
use crate::send_input::Input;
use crate::serial_worker::Event;
use crate::text;
use vstd::prelude::*;

verus! {

/// How many entries a log keeps.
pub const MAX_LOG_ENTRIES: usize = 1000;

/// The baud rate that is selected where none was saved.
pub const DEFAULT_BAUD_RATE: u32 = 115200;

/// The interval of continuous sending that is selected at the start, in milliseconds.
pub const DEFAULT_INTERVAL_MS: u64 = 1000;

/// How soon the window is drawn again while something may happen by itself, in milliseconds.
pub const REPAINT_INTERVAL_MS: u64 = 50;

/// The line of text that tells how the last thing went.
#[verifier::ext_equal]
pub struct Status {
    pub text: Seq<char>,
    pub is_error: bool,
}

/// An entry of a log: a time stamp and bytes.
pub type Entry = (Seq<char>, Seq<u8>);

/// The state of the tool.
#[verifier::ext_equal]
pub struct App {
    pub ports: Seq<Seq<char>>,
    pub selected_port: Option<Seq<char>>,
    pub baud_rates: Seq<u32>,
    pub selected_baud: u32,
    pub connected: bool,
    pub receive_log: Seq<Entry>,
    pub send_log: Seq<Entry>,
    pub receive_as_hex: bool,
    pub send_inputs: Seq<Input>,
    pub interval_options: Seq<u64>,
    pub selected_interval_ms: u64,
    pub continuous_enabled: bool,
    pub continuous_active: bool,
    pub next_continuous_send_at: Option<nat>,
    pub status: Option<Status>,
}

/// What always holds of the state: the logs are bounded, there is an input line, each input shows the
/// error that it has, and there is a next moment to send exactly while continuous sending goes on.
pub open spec fn well_formed(app: App) -> bool {
    &&& app.receive_log.len() <= MAX_LOG_ENTRIES
    &&& app.send_log.len() <= MAX_LOG_ENTRIES
    &&& app.send_inputs.len() > 0
    &&& forall|i: int|
        0 <= i < app.send_inputs.len() ==> send_input::validated(#[trigger] app.send_inputs[i])
    &&& app.continuous_active <==> app.next_continuous_send_at is Some
}

/// Continuous sending does not go on while it is switched off. This holds whenever a frame has ended.
pub open spec fn settled(app: App) -> bool {
    app.continuous_active ==> app.continuous_enabled
}

/// The state with another status line.
pub open spec fn with_status(app: App, text: Seq<char>, is_error: bool) -> App {
    App { status: Some(Status { text, is_error }), ..app }
}

/// The state with continuous sending stopped.
pub open spec fn stopped(app: App) -> App {
    App { continuous_active: false, next_continuous_send_at: None, ..app }
}

/// The state at the start of the program, before the first look for ports.
pub open spec fn initial(config: Config) -> App {
    App {
        ports: Seq::empty(),
        selected_port: config.selected_port,
        baud_rates: seq![9600, 19200, 38400, 57600, 115200, 230400, 460800, 921600],
        selected_baud: match config.selected_baud {
            Some(rate) => rate,
            None => DEFAULT_BAUD_RATE,
        },
        connected: false,
        receive_log: Seq::empty(),
        send_log: Seq::empty(),
        receive_as_hex: false,
        send_inputs: seq![send_input::empty_input()],
        interval_options: seq![100, 200, 500, 1000, 2000, 5000],
        selected_interval_ms: DEFAULT_INTERVAL_MS,
        continuous_enabled: false,
        continuous_active: false,
        next_continuous_send_at: None,
        status: None,
    }
}

/// What a look for ports found: their names, or why it failed.
pub type Found = Result<Seq<Seq<char>>, Seq<char>>;

/// The port that is selected after `ports` were found: the old one where it is among them, otherwise
/// the first.
pub open spec fn reselected(
    selected: Option<Seq<char>>,
    ports: Seq<Seq<char>>,
) -> Option<Seq<char>> {
    match selected {
        Some(name) => if ports.contains(name) {
            Some(name)
        } else {
            Some(ports[0])
        },
        None => Some(ports[0]),
    }
}

/// The state after a look for ports.
pub open spec fn refreshed(app: App, found: Found) -> App {
    match found {
        Ok(list) => {
            let ports = names::sorted(list);
            if ports.len() == 0 {
                with_status(
                    App { ports, selected_port: None, ..app },
                    "未发现可用串口设备"@,
                    false,
                )
            } else {
                with_status(
                    App { ports, selected_port: reselected(app.selected_port, ports), ..app },
                    "已发现 "@ + text::decimal(ports.len()) + " 个设备"@,
                    false,
                )
            }
        },
        Err(reason) => with_status(app, "刷新设备失败："@ + reason, true),
    }
}

/// The settings worth saving.
pub open spec fn selection(app: App) -> Config {
    Config { selected_port: app.selected_port, selected_baud: Some(app.selected_baud) }
}

/// Asking to open a port: the state afterwards, and the port and the baud rate to open.
pub open spec fn open_asked(app: App) -> (App, Option<(Seq<char>, u32)>) {
    match app.selected_port {
        Some(name) => (app, Some((name, app.selected_baud))),
        None => (with_status(app, "请先选择串口设备"@, true), None),
    }
}

/// The state after an attempt to open a port.
pub open spec fn open_tried(app: App, port: Seq<char>, outcome: Result<(), Seq<char>>) -> App {
    match outcome {
        Ok(_) => with_status(
            App { connected: true, ..stopped(app) },
            "已打开串口："@ + port + " @ "@ + text::decimal(app.selected_baud as nat) + " baud"@,
            false,
        ),
        Err(reason) => with_status(app, reason, true),
    }
}

/// The state after the port was closed.
pub open spec fn closed(app: App) -> App {
    with_status(App { connected: false, ..stopped(app) }, "串口已关闭"@, false)
}

/// The last `n` entries, or all where there are fewer.
pub open spec fn last_entries(log: Seq<Entry>, n: nat) -> Seq<Entry> {
    if log.len() > n {
        log.skip(log.len() - n)
    } else {
        log
    }
}

/// A log with one more entry; the oldest leave where it would grow too long.
pub open spec fn logged(log: Seq<Entry>, entry: Entry) -> Seq<Entry> {
    last_entries(log.push(entry), MAX_LOG_ENTRIES as nat)
}

/// A log with an entry for each of `payloads`, in order, stamped with `stamps`.
pub open spec fn logged_all(
    log: Seq<Entry>,
    stamps: Seq<Seq<char>>,
    payloads: Seq<Seq<u8>>,
) -> Seq<Entry>
    decreases payloads.len(),
{
    if payloads.len() == 0 {
        log
    } else {
        let before = logged_all(log, stamps.drop_last(), payloads.drop_last());
        logged(before, (stamps.last(), payloads.last()))
    }
}

/// The state after one word of the worker, which came at the time `stamp`.
pub open spec fn notified(app: App, stamp: Seq<char>, event: Event) -> App {
    match event {
        Event::Received(bytes) => App {
            receive_log: logged(app.receive_log, (stamp, bytes)),
            ..app
        },
        Event::Closed(message) => with_status(stopped(app), message, false),
        Event::Error(message) => with_status(stopped(app), message, true),
    }
}

/// The state after several words of the worker, in order.
pub open spec fn notified_all(app: App, stamps: Seq<Seq<char>>, events: Seq<Event>) -> App
    decreases events.len(),
{
    if events.len() == 0 {
        app
    } else {
        let before = notified_all(app, stamps.drop_last(), events.drop_last());
        notified(before, stamps.last(), events.last())
    }
}

/// The worker has said that it ends.
pub open spec fn ends(event: Event) -> bool {
    !(event is Received)
}

/// One of these words says that the worker ends.
pub open spec fn some_ends(events: Seq<Event>) -> bool {
    exists|i: int| 0 <= i < events.len() && ends(#[trigger] events[i])
}

/// The state after everything that the worker had to say: the connection is given up where the
/// worker ended or can no longer be heard.
pub open spec fn drained(
    app: App,
    stamps: Seq<Seq<char>>,
    events: Seq<Event>,
    disconnected: bool,
) -> App {
    let heard = notified_all(app, stamps, events);
    if disconnected || some_ends(events) {
        App { connected: false, ..heard }
    } else {
        heard
    }
}

/// What a list of payloads or the reason against it is.
pub type Collected = Result<Seq<Seq<u8>>, Seq<char>>;

/// What keeps input number `index` (counted from zero) from being sent.
pub open spec fn obstacle(input: Input, index: int) -> Option<Seq<char>> {
    if input.is_hex && input.hex_error is Some {
        Some(
            "数据 "@ + text::decimal((index + 1) as nat)
                + " 包含无效的 HEX 格式，请修正后再发送"@,
        )
    } else {
        match send_input::payload(input) {
            Ok(_) => None,
            Err(message) => Some(message),
        }
    }
}

/// The payloads of the inputs that are not blank, in order, or what keeps the first of them that
/// cannot be sent.
pub open spec fn gathered(inputs: Seq<Input>) -> Collected
    decreases inputs.len(),
{
    if inputs.len() == 0 {
        Ok(Seq::empty())
    } else {
        let input = inputs.last();
        match gathered(inputs.drop_last()) {
            Err(message) => Err(message),
            Ok(list) => if text::blank(input.text) {
                Ok(list)
            } else {
                match obstacle(input, inputs.len() - 1) {
                    Some(message) => Err(message),
                    None => Ok(list.push(send_input::payload(input)->Ok_0)),
                }
            },
        }
    }
}

/// What is to be sent; there has to be something.
pub open spec fn collected(inputs: Seq<Input>) -> Collected {
    match gathered(inputs) {
        Err(message) => Err(message),
        Ok(list) => if list.len() == 0 {
            Err("请至少填写一条发送数据"@)
        } else {
            Ok(list)
        },
    }
}

/// How many payloads there are.
pub open spec fn count(payloads: Collected) -> nat {
    match payloads {
        Ok(list) => list.len(),
        Err(_) => 0,
    }
}

/// The first half of sending: the payloads are collected and logged. The second part of the result is
/// what the connection is to be given.
pub open spec fn send_begun(app: App, stamps: Seq<Seq<char>>) -> (App, Option<Seq<Seq<u8>>>) {
    match collected(app.send_inputs) {
        Err(message) => (with_status(app, message, true), None),
        Ok(payloads) => {
            let noted = App { send_log: logged_all(app.send_log, stamps, payloads), ..app };
            if app.connected {
                (noted, Some(payloads))
            } else {
                (with_status(noted, "请先打开串口"@, true), None)
            }
        },
    }
}

/// What a send is for.
#[derive(Debug, Clone, Copy, PartialEq, Eq, Structural)]
pub enum SendPurpose {
    /// To send once.
    Once,
    /// To begin sending continuously.
    StartContinuous,
    /// To send the next time while sending continuously.
    Repeat,
}

/// The second half of sending: the state once the connection has taken the payloads, or has not.
pub open spec fn send_ended(
    app: App,
    purpose: SendPurpose,
    outcome: Result<(), Seq<char>>,
    now_ns: u64,
) -> App {
    let next = Some(clock::deadline(now_ns, app.selected_interval_ms));
    match outcome {
        Ok(_) => match purpose {
            SendPurpose::Once => with_status(app, "发送完成"@, false),
            SendPurpose::StartContinuous => with_status(
                App { continuous_active: true, next_continuous_send_at: next, ..app },
                "已开始持续发送，周期 "@ + text::decimal(app.selected_interval_ms as nat) + " ms"@,
                false,
            ),
            SendPurpose::Repeat => App { next_continuous_send_at: next, ..app },
        },
        Err(reason) => with_status(stopped(app), "发送失败："@ + reason, true),
    }
}

/// The send button is pressed: it stops continuous sending that goes on, and sends otherwise.
pub open spec fn send_pressed(app: App, stamps: Seq<Seq<char>>) -> (
    App,
    Option<(SendPurpose, Seq<Seq<u8>>)>,
) {
    if app.continuous_enabled && app.continuous_active {
        (with_status(stopped(app), "已停止持续发送"@, false), None)
    } else {
        let purpose = if app.continuous_enabled {
            SendPurpose::StartContinuous
        } else {
            SendPurpose::Once
        };
        let (next, payloads) = send_begun(app, stamps);
        match payloads {
            Some(list) => (next, Some((purpose, list))),
            None => (next, None),
        }
    }
}

/// How many payloads pressing the send button logs.
pub open spec fn press_count(app: App) -> nat {
    if app.continuous_enabled && app.continuous_active {
        0
    } else {
        count(collected(app.send_inputs))
    }
}

/// It is time for the next continuous send.
pub open spec fn due(app: App, now_ns: u64) -> bool {
    app.continuous_enabled && app.continuous_active && (app.next_continuous_send_at matches Some(at)
        && at <= now_ns)
}

/// Time passes: what is due is sent, and where no moment is set for that, one is.
pub open spec fn ticked(app: App, now_ns: u64, stamps: Seq<Seq<char>>) -> (
    App,
    Option<Seq<Seq<u8>>>,
) {
    if due(app, now_ns) {
        send_begun(app, stamps)
    } else if app.continuous_enabled && app.continuous_active
        && app.next_continuous_send_at is None {
        (
            App {
                next_continuous_send_at: Some(clock::deadline(now_ns, app.selected_interval_ms)),
                ..app
            },
            None,
        )
    } else {
        (app, None)
    }
}

/// How many payloads are logged as time passes.
pub open spec fn tick_count(app: App, now_ns: u64) -> nat {
    if due(app, now_ns) {
        count(collected(app.send_inputs))
    } else {
        0
    }
}

/// What was clicked while a frame was drawn.
#[derive(Debug, Clone, Copy, PartialEq, Eq)]
pub struct FrameRequests {
    pub refresh: bool,
    pub open_or_close: bool,
    pub send: bool,
    pub add_input: bool,
    pub selection_changed: bool,
    pub remove_input: Option<usize>,
}

/// What is left to do after a frame, each with the outside world.
#[derive(Debug, Clone, Copy, PartialEq, Eq, Structural)]
pub enum FrameAction {
    SaveSelection,
    RefreshPorts,
    OpenPort,
    ClosePort,
    Send,
}

/// The inputs without the one to remove, and with a fresh one where one was asked for.
pub open spec fn edited_inputs(inputs: Seq<Input>, requests: FrameRequests) -> Seq<Input> {
    let kept = match requests.remove_input {
        Some(index) => inputs.remove(index as int),
        None => inputs,
    };
    if requests.add_input {
        kept.push(send_input::empty_input())
    } else {
        kept
    }
}

/// The state once a frame has been drawn, where continuous sending had been `was_enabled` before.
pub open spec fn frame_ended(app: App, was_enabled: bool, requests: FrameRequests) -> App {
    let settled_app = if was_enabled && !app.continuous_enabled {
        stopped(app)
    } else {
        app
    };
    App { send_inputs: edited_inputs(app.send_inputs, requests), ..settled_app }
}

/// One action, where `wanted`.
pub open spec fn optional(wanted: bool, action: FrameAction) -> Seq<FrameAction> {
    if wanted {
        seq![action]
    } else {
        Seq::empty()
    }
}

/// What is left to do after a frame, in this order.
pub open spec fn frame_actions(connected: bool, requests: FrameRequests) -> Seq<FrameAction> {
    optional(requests.selection_changed, FrameAction::SaveSelection)
        + optional(requests.refresh, FrameAction::RefreshPorts)
        + optional(requests.open_or_close && !connected, FrameAction::OpenPort)
        + optional(requests.open_or_close && connected, FrameAction::ClosePort)
        + optional(requests.send, FrameAction::Send)
}

} // verus!
