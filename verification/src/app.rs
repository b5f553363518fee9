//! The state of the tool and everything that changes it.
//!
//! Nothing here touches a port, a file or the screen: a method that needs such work done returns what
//! is to be done, and another takes note of how it went.

use crate::clock;
use crate::config;
use crate::config::AppConfig;
use crate::model;
use crate::model::{
    App, FrameAction, FrameRequests, SendPurpose, DEFAULT_BAUD_RATE, DEFAULT_INTERVAL_MS,
    MAX_LOG_ENTRIES, REPAINT_INTERVAL_MS,
};
use crate::names;
use crate::send_input;
use crate::send_input::SendInput;
use crate::serial_worker;
use crate::serial_worker::WorkerEvent;
use crate::text;
use vstd::prelude::*;

verus! {

/// The line of text that tells how the last thing went.
#[derive(Debug, PartialEq, Eq)]
pub struct StatusBanner {
    pub text: String,
    pub is_error: bool,
}

/// The state of the tool.
pub struct SerialToolApp {
    pub ports: Vec<String>,
    pub selected_port: Option<String>,
    pub baud_rates: Vec<u32>,
    pub selected_baud: u32,
    /// There is a connection to an open port.
    pub connected: bool,
    pub receive_log: Vec<(String, Vec<u8>)>,
    pub send_log: Vec<(String, Vec<u8>)>,
    pub receive_as_hex: bool,
    pub send_inputs: Vec<SendInput>,
    pub interval_options: Vec<u64>,
    pub selected_interval_ms: u64,
    pub continuous_enabled: bool,
    pub continuous_active: bool,
    /// When to send next, in nanoseconds since the start of the program.
    pub next_continuous_send_at: Option<u128>,
    pub status: Option<StatusBanner>,
}

/// The contents of a log.
pub open spec fn entries(log: Seq<(String, Vec<u8>)>) -> Seq<model::Entry> {
    log.map_values(|entry: (String, Vec<u8>)| (entry.0@, entry.1@))
}

/// The contents of the input lines.
pub open spec fn inputs(list: Seq<SendInput>) -> Seq<send_input::Input> {
    list.map_values(|input: SendInput| input@)
}

/// The contents of a list of events.
pub open spec fn events_of(list: Seq<WorkerEvent>) -> Seq<serial_worker::Event> {
    list.map_values(|event: WorkerEvent| event@)
}

/// The contents of the status line.
pub open spec fn status_of(status: Option<StatusBanner>) -> Option<model::Status> {
    match status {
        Some(banner) => Some(model::Status { text: banner.text@, is_error: banner.is_error }),
        None => None,
    }
}

/// What a look for ports found.
pub open spec fn found_of(found: Result<Vec<String>, String>) -> model::Found {
    match found {
        Ok(list) => Ok(names::names_of(list@)),
        Err(reason) => Err(reason@),
    }
}

/// How something went.
pub open spec fn outcome_of(outcome: Result<(), String>) -> Result<(), Seq<char>> {
    match outcome {
        Ok(_) => Ok(()),
        Err(reason) => Err(reason@),
    }
}

/// Payloads, or the reason against them.
pub open spec fn collected_of(payloads: Result<Vec<Vec<u8>>, String>) -> model::Collected {
    match payloads {
        Ok(list) => Ok(serial_worker::contents(list@)),
        Err(reason) => Err(reason@),
    }
}

/// Payloads, where there are any.
pub open spec fn payloads_of(payloads: Option<Vec<Vec<u8>>>) -> Option<Seq<Seq<u8>>> {
    match payloads {
        Some(list) => Some(serial_worker::contents(list@)),
        None => None,
    }
}

impl View for SerialToolApp {
    type V = App;

    open spec fn view(&self) -> App {
        App {
            ports: names::names_of(self.ports@),
            selected_port: config::text_of(self.selected_port),
            baud_rates: self.baud_rates@,
            selected_baud: self.selected_baud,
            connected: self.connected,
            receive_log: entries(self.receive_log@),
            send_log: entries(self.send_log@),
            receive_as_hex: self.receive_as_hex,
            send_inputs: inputs(self.send_inputs@),
            interval_options: self.interval_options@,
            selected_interval_ms: self.selected_interval_ms,
            continuous_enabled: self.continuous_enabled,
            continuous_active: self.continuous_active,
            next_continuous_send_at: match self.next_continuous_send_at {
                Some(at) => Some(at as nat),
                None => None,
            },
            status: status_of(self.status),
        }
    }
}

/// A copy of a string.
fn copy_text(s: &Option<String>) -> (result: Option<String>)
    ensures
        config::text_of(result) == config::text_of(*s),
{
    match s {
        Some(name) => Some(name.clone()),
        None => None,
    }
}

/// Appends an entry to a log; the oldest leave where it would grow too long.
fn push_entry(log: &mut Vec<(String, Vec<u8>)>, timestamp: String, bytes: Vec<u8>)
    ensures
        entries(final(log)@) == model::logged(entries(old(log)@), (timestamp@, bytes@)),
{
    let ghost before = entries(log@);
    log.push((timestamp, bytes));
    let ghost longer = entries(log@);
    assert(longer == before.push((timestamp@, bytes@)));
    assert(longer.skip(0) == longer);
    let ghost mut dropped: int = 0;
    while log.len() > MAX_LOG_ENTRIES
        invariant
            0 <= dropped <= longer.len(),
            entries(log@) == longer.skip(dropped),
            log.len() == longer.len() - dropped,
            dropped > 0 ==> log.len() >= MAX_LOG_ENTRIES,
        decreases log.len(),
    {
        let ghost shorter = entries(log@).drop_first();
        log.remove(0);
        assert(entries(log@) == shorter);
        assert(longer.skip(dropped).drop_first() == longer.skip(dropped + 1));
        proof {
            dropped = dropped + 1;
        }
    }
}

impl SerialToolApp {
    /// The state at the start of the program, with the saved settings and the ports that were found.
    pub fn new(saved: AppConfig, found: Result<Vec<String>, String>) -> (result: Self)
        ensures
            result@ == model::refreshed(model::initial(saved@), found_of(found)),
            model::well_formed(result@),
            model::settled(result@),
    {
        let mut send_inputs: Vec<SendInput> = Vec::new();
        send_inputs.push(SendInput::new());
        let mut app = SerialToolApp {
            ports: Vec::new(),
            selected_port: saved.selected_port,
            baud_rates: vec![9600, 19200, 38400, 57600, 115200, 230400, 460800, 921600],
            selected_baud: match saved.selected_baud {
                Some(rate) => rate,
                None => DEFAULT_BAUD_RATE,
            },
            connected: false,
            receive_log: Vec::new(),
            send_log: Vec::new(),
            receive_as_hex: false,
            send_inputs,
            interval_options: vec![100, 200, 500, 1000, 2000, 5000],
            selected_interval_ms: DEFAULT_INTERVAL_MS,
            continuous_enabled: false,
            continuous_active: false,
            next_continuous_send_at: None,
            status: None,
        };
        assert(app@ == model::initial(saved@));
        app.refresh_ports(found);
        app
    }

    /// Takes note of the ports that a look for them found, and selects one of them.
    pub fn refresh_ports(&mut self, found: Result<Vec<String>, String>)
        ensures
            final(self)@ == model::refreshed(old(self)@, found_of(found)),
            model::well_formed(old(self)@) ==> model::well_formed(final(self)@),
            model::settled(old(self)@) ==> model::settled(final(self)@),
    {
        match found {
            Ok(list) => {
                self.ports = names::sort_names(list);
                if self.ports.len() == 0 {
                    self.selected_port = None;
                    self.set_status("未发现可用串口设备".to_owned(), false);
                    return;
                }
                let keep = match &self.selected_port {
                    Some(name) => names::has_name(&self.ports, name),
                    None => false,
                };
                if !keep {
                    self.selected_port = Some(self.ports[0].clone());
                }
                assert(names::names_of(self.ports@)[0] == self.ports@[0]@);
                let mut message = "已发现 ".to_owned();
                text::push_decimal(&mut message, self.ports.len() as u64);
                message.append(" 个设备");
                self.set_status(message, false);
            },
            Err(reason) => {
                let mut message = "刷新设备失败：".to_owned();
                message.append(reason.as_str());
                self.set_status(message, true);
            },
        }
    }

    /// Shows another status line.
    pub fn set_status(&mut self, text: String, is_error: bool)
        ensures
            final(self)@ == model::with_status(old(self)@, text@, is_error),
            model::well_formed(old(self)@) ==> model::well_formed(final(self)@),
            model::settled(old(self)@) ==> model::settled(final(self)@),
    {
        self.status = Some(StatusBanner { text, is_error });
    }

    /// Stops continuous sending.
    fn stop_continuous(&mut self)
        ensures
            final(self)@ == model::stopped(old(self)@),
    {
        self.continuous_active = false;
        self.next_continuous_send_at = None;
    }

    /// The settings worth saving.
    pub fn selection_config(&self) -> (result: AppConfig)
        ensures
            result@ == model::selection(self@),
    {
        AppConfig {
            selected_port: copy_text(&self.selected_port),
            selected_baud: Some(self.selected_baud),
        }
    }

    /// Asks to open the selected port: gives the port and the baud rate to open.
    pub fn open_port(&mut self) -> (result: Option<(String, u32)>)
        ensures
            final(self)@ == model::open_asked(old(self)@).0,
            match result {
                Some((name, rate)) => model::open_asked(old(self)@).1 == Some((name@, rate)),
                None => model::open_asked(old(self)@).1 is None,
            },
            model::well_formed(old(self)@) ==> model::well_formed(final(self)@),
            model::settled(old(self)@) ==> model::settled(final(self)@),
    {
        match &self.selected_port {
            Some(name) => Some((name.clone(), self.selected_baud)),
            None => {
                self.set_status("请先选择串口设备".to_owned(), true);
                None
            },
        }
    }

    /// Takes note of how the attempt to open `port_name` went.
    pub fn finish_open(&mut self, port_name: &str, outcome: Result<(), String>)
        ensures
            final(self)@ == model::open_tried(old(self)@, port_name@, outcome_of(outcome)),
            model::well_formed(old(self)@) ==> model::well_formed(final(self)@),
            model::settled(old(self)@) ==> model::settled(final(self)@),
    {
        match outcome {
            Ok(_) => {
                self.connected = true;
                self.stop_continuous();
                let mut message = "已打开串口：".to_owned();
                message.append(port_name);
                message.append(" @ ");
                text::push_decimal(&mut message, self.selected_baud as u64);
                message.append(" baud");
                self.set_status(message, false);
            },
            Err(reason) => self.set_status(reason, true),
        }
    }

    /// Closes the port.
    pub fn close_port(&mut self)
        ensures
            final(self)@ == model::closed(old(self)@),
            model::well_formed(old(self)@) ==> model::well_formed(final(self)@),
            model::settled(final(self)@),
    {
        self.stop_continuous();
        self.connected = false;
        self.set_status("串口已关闭".to_owned(), false);
    }

    /// Logs bytes that came in at the time `timestamp`.
    pub fn log_received(&mut self, timestamp: String, bytes: Vec<u8>)
        ensures
            final(self)@ == model::notified(
                old(self)@,
                timestamp@,
                serial_worker::Event::Received(bytes@),
            ),
            model::well_formed(old(self)@) ==> model::well_formed(final(self)@),
            model::settled(old(self)@) ==> model::settled(final(self)@),
    {
        push_entry(&mut self.receive_log, timestamp, bytes);
    }

    /// Logs bytes that come in now.
    pub fn push_receive_log(&mut self, bytes: Vec<u8>)
        ensures
            exists|stamp: Seq<char>| #[trigger]
                clock::clock_time(stamp) && final(self)@ == model::notified(
                    old(self)@,
                    stamp,
                    serial_worker::Event::Received(bytes@),
                ),
            model::well_formed(old(self)@) ==> model::well_formed(final(self)@),
            model::settled(old(self)@) ==> model::settled(final(self)@),
    {
        let timestamp = clock::local_time();
        self.log_received(timestamp, bytes);
    }

    /// Logs bytes that went out at the time `timestamp`.
    pub fn log_sent(&mut self, timestamp: String, bytes: Vec<u8>)
        ensures
            final(self)@ == (App {
                send_log: model::logged(old(self)@.send_log, (timestamp@, bytes@)),
                ..old(self)@
            }),
            model::well_formed(old(self)@) ==> model::well_formed(final(self)@),
            model::settled(old(self)@) ==> model::settled(final(self)@),
    {
        push_entry(&mut self.send_log, timestamp, bytes);
    }

    /// Logs bytes that go out now.
    pub fn push_send_log(&mut self, bytes: Vec<u8>)
        ensures
            exists|stamp: Seq<char>| #[trigger]
                clock::clock_time(stamp) && final(self)@ == (App {
                    send_log: model::logged(old(self)@.send_log, (stamp, bytes@)),
                    ..old(self)@
                }),
            model::well_formed(old(self)@) ==> model::well_formed(final(self)@),
            model::settled(old(self)@) ==> model::settled(final(self)@),
    {
        let timestamp = clock::local_time();
        self.log_sent(timestamp, bytes);
    }
}

impl SerialToolApp {
    /// Takes note of one word of the worker, which came at the time `timestamp`. Tells whether the
    /// worker ends.
    pub fn apply_event(&mut self, timestamp: String, event: WorkerEvent) -> (result: bool)
        ensures
            final(self)@ == model::notified(old(self)@, timestamp@, event@),
            result == model::ends(event@),
            model::well_formed(old(self)@) ==> model::well_formed(final(self)@),
            model::settled(old(self)@) ==> model::settled(final(self)@),
    {
        match event {
            WorkerEvent::Received(bytes) => {
                self.log_received(timestamp, bytes);
                false
            },
            WorkerEvent::Closed(message) => {
                self.stop_continuous();
                self.set_status(message, false);
                true
            },
            WorkerEvent::Error(message) => {
                self.stop_continuous();
                self.set_status(message, true);
                true
            },
        }
    }

    /// Takes note of everything that the worker had to say; `disconnected` tells that it can no
    /// longer be heard.
    pub fn drain_worker_events(&mut self, events: Vec<WorkerEvent>, disconnected: bool)
        ensures
            exists|stamps: Seq<Seq<char>>| #[trigger]
                clock::clock_times(stamps, events@.len()) && final(self)@ == model::drained(
                    old(self)@,
                    stamps,
                    events_of(events@),
                    disconnected,
                ),
            model::well_formed(old(self)@) ==> model::well_formed(final(self)@),
            model::settled(old(self)@) ==> model::settled(final(self)@),
    {
        let ghost all = events_of(events@);
        let ghost mut stamps: Seq<Seq<char>> = Seq::empty();
        let mut should_drop = disconnected;
        let mut rest = events;
        assert(all.take(0) == Seq::<serial_worker::Event>::empty());
        assert(all.skip(0) == all);
        while rest.len() > 0
            invariant
                stamps.len() + rest.len() == all.len(),
                events_of(rest@) == all.skip(stamps.len() as int),
                clock::clock_times(stamps, stamps.len()),
                self@ == model::notified_all(old(self)@, stamps, all.take(stamps.len() as int)),
                should_drop == (disconnected || model::some_ends(all.take(stamps.len() as int))),
                model::well_formed(old(self)@) ==> model::well_formed(self@),
                model::settled(old(self)@) ==> model::settled(self@),
            decreases rest.len(),
        {
            let ghost n = stamps.len() as int;
            let ghost left = events_of(rest@);
            let event = rest.remove(0);
            let timestamp = clock::local_time();
            let ghost stamp = timestamp@;
            assert(left[0] == event@);
            assert(all[n] == event@);
            let ended = self.apply_event(timestamp, event);
            if ended {
                should_drop = true;
            }
            proof {
                let longer = stamps.push(stamp);
                assert(longer.drop_last() == stamps);
                assert(all.take(n + 1).drop_last() == all.take(n));
                assert(all.take(n + 1).last() == all[n]);
                assert(events_of(rest@) == left.drop_first());
                assert(all.skip(n).drop_first() == all.skip(n + 1));
                lemma_some_ends(all, n);
                stamps = longer;
            }
        }
        assert(all.take(stamps.len() as int) == all);
        if should_drop {
            self.connected = false;
        }
    }

    /// What is to be sent: the payloads of the inputs that are not blank.
    pub fn collect_payloads(&self) -> (result: Result<Vec<Vec<u8>>, String>)
        ensures
            collected_of(result) == model::collected(self@.send_inputs),
    {
        let mut payloads: Vec<Vec<u8>> = Vec::new();
        let ghost all = inputs(self.send_inputs@);
        let mut i: usize = 0;
        assert(all.take(0) == Seq::<send_input::Input>::empty());
        assert(serial_worker::contents(payloads@) == Seq::<Seq<u8>>::empty());
        while i < self.send_inputs.len()
            invariant
                i <= self.send_inputs.len(),
                all == inputs(self.send_inputs@),
                model::gathered(all.take(i as int)) == Ok::<Seq<Seq<u8>>, Seq<char>>(
                    serial_worker::contents(payloads@),
                ),
            decreases self.send_inputs.len() - i,
        {
            let input = &self.send_inputs[i];
            proof {
                assert(all[i as int] == input@);
                assert(all.take(i + 1).drop_last() == all.take(i as int));
                assert(all.take(i + 1).last() == input@);
                assert(all.take(i + 1).len() - 1 == i);
            }
            if !input.is_empty() {
                if input.is_hex && input.hex_error.is_some() {
                    let mut message = "数据 ".to_owned();
                    text::push_decimal(&mut message, i as u64 + 1);
                    message.append(" 包含无效的 HEX 格式，请修正后再发送");
                    proof {
                        lemma_gathered_error(all, i + 1);
                    }
                    return Err(message);
                }
                match input.to_bytes() {
                    Ok(bytes) => {
                        let ghost before = serial_worker::contents(payloads@);
                        payloads.push(bytes);
                        assert(serial_worker::contents(payloads@) == before.push(bytes@));
                    },
                    Err(message) => {
                        proof {
                            lemma_gathered_error(all, i + 1);
                        }
                        return Err(message);
                    },
                }
            }
            i += 1;
        }
        assert(all.take(i as int) == all);
        if payloads.len() == 0 {
            return Err("请至少填写一条发送数据".to_owned());
        }
        Ok(payloads)
    }

    /// The first half of sending: collects the payloads and logs them. Gives what the connection is
    /// to be given.
    pub fn begin_send(&mut self) -> (result: Option<Vec<Vec<u8>>>)
        ensures
            exists|stamps: Seq<Seq<char>>| #[trigger]
                clock::clock_times(stamps, model::count(model::collected(old(self)@.send_inputs)))
                    && (final(self)@, payloads_of(result)) == model::send_begun(
                    old(self)@,
                    stamps,
                ),
            model::well_formed(old(self)@) ==> model::well_formed(final(self)@),
            model::settled(old(self)@) ==> model::settled(final(self)@),
    {
        let payloads = match self.collect_payloads() {
            Ok(payloads) => payloads,
            Err(message) => {
                self.set_status(message, true);
                proof {
                    let stamps = Seq::<Seq<char>>::empty();
                    let n = model::count(model::collected(old(self)@.send_inputs));
                    assert(clock::clock_times(stamps, n));
                    assert((self@, None::<Seq<Seq<u8>>>) == model::send_begun(old(self)@, stamps));
                }
                return None;
            },
        };
        let ghost all = serial_worker::contents(payloads@);
        let ghost mut stamps: Seq<Seq<char>> = Seq::empty();
        let mut i: usize = 0;
        assert(all.take(0) == Seq::<Seq<u8>>::empty());
        while i < payloads.len()
            invariant
                i <= payloads.len(),
                all == serial_worker::contents(payloads@),
                clock::clock_times(stamps, i as nat),
                self@ == (App {
                    send_log: model::logged_all(old(self)@.send_log, stamps, all.take(i as int)),
                    ..old(self)@
                }),
                model::well_formed(old(self)@) ==> model::well_formed(self@),
            decreases payloads.len() - i,
        {
            let timestamp = clock::local_time();
            let ghost stamp = timestamp@;
            let bytes = payloads[i].clone();
            assert(bytes@ == payloads@[i as int]@);
            assert(all[i as int] == payloads@[i as int]@);
            self.log_sent(timestamp, bytes);
            proof {
                let longer = stamps.push(stamp);
                assert(longer.drop_last() == stamps);
                assert(all.take(i + 1).drop_last() == all.take(i as int));
                assert(all.take(i + 1).last() == all[i as int]);
                stamps = longer;
            }
            i += 1;
        }
        assert(all.take(i as int) == all);
        assert(clock::clock_times(
            stamps,
            model::count(model::collected(old(self)@.send_inputs)),
        ));
        if self.connected {
            assert((self@, Some(all)) == model::send_begun(old(self)@, stamps));
            Some(payloads)
        } else {
            self.set_status("请先打开串口".to_owned(), true);
            assert((self@, None::<Seq<Seq<u8>>>) == model::send_begun(old(self)@, stamps));
            None
        }
    }

    /// The second half of sending: takes note of whether the connection took the payloads.
    pub fn finish_send(&mut self, purpose: SendPurpose, outcome: Result<(), String>, now_ns: u64)
        ensures
            final(self)@ == model::send_ended(old(self)@, purpose, outcome_of(outcome), now_ns),
            model::well_formed(old(self)@) && (purpose == SendPurpose::Repeat
                ==> old(self)@.continuous_active) ==> model::well_formed(final(self)@),
            model::settled(old(self)@) && (purpose == SendPurpose::StartContinuous
                ==> old(self)@.continuous_enabled) ==> model::settled(final(self)@),
    {
        let next = clock::deadline_after(now_ns, self.selected_interval_ms);
        match outcome {
            Ok(_) => match purpose {
                SendPurpose::Once => self.set_status("发送完成".to_owned(), false),
                SendPurpose::StartContinuous => {
                    self.continuous_active = true;
                    self.next_continuous_send_at = Some(next);
                    let mut message = "已开始持续发送，周期 ".to_owned();
                    text::push_decimal(&mut message, self.selected_interval_ms);
                    message.append(" ms");
                    self.set_status(message, false);
                },
                SendPurpose::Repeat => {
                    self.next_continuous_send_at = Some(next);
                },
            },
            Err(reason) => {
                self.stop_continuous();
                let mut message = "发送失败：".to_owned();
                message.append(reason.as_str());
                self.set_status(message, true);
            },
        }
    }

    /// The send button is pressed. Gives what the connection is to be given, and for what.
    pub fn handle_send_button(&mut self) -> (result: Option<(SendPurpose, Vec<Vec<u8>>)>)
        ensures
            exists|stamps: Seq<Seq<char>>| #[trigger]
                clock::clock_times(stamps, model::press_count(old(self)@)) && final(self)@
                    == model::send_pressed(old(self)@, stamps).0 && match result {
                    Some((purpose, list)) => model::send_pressed(old(self)@, stamps).1 == Some(
                        (purpose, serial_worker::contents(list@)),
                    ),
                    None => model::send_pressed(old(self)@, stamps).1 is None,
                },
            model::well_formed(old(self)@) ==> model::well_formed(final(self)@),
            model::settled(old(self)@) ==> model::settled(final(self)@),
    {
        if self.continuous_enabled && self.continuous_active {
            self.stop_continuous();
            self.set_status("已停止持续发送".to_owned(), false);
            proof {
                let stamps = Seq::<Seq<char>>::empty();
                assert(clock::clock_times(stamps, model::press_count(old(self)@)));
                assert(self@ == model::send_pressed(old(self)@, stamps).0);
            }
            return None;
        }
        let purpose = if self.continuous_enabled {
            SendPurpose::StartContinuous
        } else {
            SendPurpose::Once
        };
        let begun = self.begin_send();
        proof {
            let stamps = choose|stamps: Seq<Seq<char>>| #[trigger]
                clock::clock_times(stamps, model::count(model::collected(old(self)@.send_inputs)))
                    && (self@, payloads_of(begun)) == model::send_begun(old(self)@, stamps);
            assert(clock::clock_times(stamps, model::press_count(old(self)@)));
        }
        match begun {
            Some(payloads) => Some((purpose, payloads)),
            None => None,
        }
    }

    /// Time has passed: `now_ns` is the time now. Gives what the connection is to be given, where
    /// the next continuous send is due.
    pub fn tick_continuous_send(&mut self, now_ns: u64) -> (result: Option<Vec<Vec<u8>>>)
        ensures
            exists|stamps: Seq<Seq<char>>| #[trigger]
                clock::clock_times(stamps, model::tick_count(old(self)@, now_ns)) && (
                    final(self)@,
                    payloads_of(result),
                ) == model::ticked(old(self)@, now_ns, stamps),
            model::well_formed(old(self)@) ==> model::well_formed(final(self)@),
            model::settled(old(self)@) ==> model::settled(final(self)@),
    {
        proof {
            let stamps = Seq::<Seq<char>>::empty();
            if !model::due(self@, now_ns) {
                assert(clock::clock_times(stamps, model::tick_count(self@, now_ns)));
            }
        }
        if !self.continuous_enabled || !self.continuous_active {
            return None;
        }
        match self.next_continuous_send_at {
            None => {
                self.next_continuous_send_at = Some(
                    clock::deadline_after(now_ns, self.selected_interval_ms),
                );
                None
            },
            Some(at) => {
                if (now_ns as u128) < at {
                    return None;
                }
                let result = self.begin_send();
                proof {
                    let stamps = choose|stamps: Seq<Seq<char>>| #[trigger]
                        clock::clock_times(
                            stamps,
                            model::count(model::collected(old(self)@.send_inputs)),
                        ) && (self@, payloads_of(result)) == model::send_begun(old(self)@, stamps);
                    assert(clock::clock_times(stamps, model::tick_count(old(self)@, now_ns)));
                }
                result
            },
        }
    }

    /// A frame has been drawn and these things were clicked; `was_continuous_enabled` tells whether
    /// continuous sending had been switched on before. Gives what is left to do, in order.
    pub fn end_frame(
        &mut self,
        was_continuous_enabled: bool,
        requests: FrameRequests,
    ) -> (result: Vec<FrameAction>)
        requires
            requests.remove_input matches Some(index) ==> index < old(self).send_inputs@.len(),
        ensures
            final(self)@ == model::frame_ended(old(self)@, was_continuous_enabled, requests),
            result@ == model::frame_actions(old(self)@.connected, requests),
            model::well_formed(old(self)@) && (requests.remove_input is Some
                ==> old(self)@.send_inputs.len() > 1) ==> model::well_formed(final(self)@),
            (old(self)@.continuous_active ==> was_continuous_enabled) ==> model::settled(
                final(self)@,
            ),
    {
        if !self.continuous_enabled && was_continuous_enabled {
            self.stop_continuous();
        }
        if let Some(index) = requests.remove_input {
            let ghost before = inputs(self.send_inputs@);
            self.send_inputs.remove(index);
            assert(inputs(self.send_inputs@) == before.remove(index as int));
        }
        if requests.add_input {
            let ghost before = inputs(self.send_inputs@);
            let fresh = SendInput::new();
            self.send_inputs.push(fresh);
            assert(inputs(self.send_inputs@) == before.push(fresh@));
        }
        assert(self@ == model::frame_ended(old(self)@, was_continuous_enabled, requests));
        let mut actions: Vec<FrameAction> = Vec::new();
        if requests.selection_changed {
            actions.push(FrameAction::SaveSelection);
        }
        if requests.refresh {
            actions.push(FrameAction::RefreshPorts);
        }
        if requests.open_or_close {
            if self.connected {
                actions.push(FrameAction::ClosePort);
            } else {
                actions.push(FrameAction::OpenPort);
            }
        }
        if requests.send {
            actions.push(FrameAction::Send);
        }
        assert(actions@ == model::frame_actions(old(self)@.connected, requests));
        actions
    }

    /// How soon the window has to be drawn again by itself, in milliseconds.
    pub fn repaint_after_ms(&self) -> (result: Option<u64>)
        ensures
            result == if self@.connected || self@.continuous_active {
                Some(REPAINT_INTERVAL_MS)
            } else {
                None
            },
    {
        if self.connected || self.continuous_active {
            Some(REPAINT_INTERVAL_MS)
        } else {
            None
        }
    }
}

/// Among the first `n + 1` events one ends exactly where one of the first `n` does or the next does.
proof fn lemma_some_ends(events: Seq<serial_worker::Event>, n: int)
    requires
        0 <= n < events.len(),
    ensures
        model::some_ends(events.take(n + 1)) == (model::some_ends(events.take(n)) || model::ends(
            events[n],
        )),
{
    let short = events.take(n);
    let long = events.take(n + 1);
    if model::some_ends(short) {
        let i = choose|i: int| 0 <= i < short.len() && model::ends(#[trigger] short[i]);
        assert(long[i] == short[i]);
    }
    if model::ends(events[n]) {
        assert(long[n] == events[n]);
    }
    if model::some_ends(long) {
        let i = choose|i: int| 0 <= i < long.len() && model::ends(#[trigger] long[i]);
        if i < n {
            assert(short[i] == long[i]);
        }
    }
}

/// Where the first `n` inputs cannot be sent, all of them cannot, for the same reason.
proof fn lemma_gathered_error(list: Seq<send_input::Input>, n: int)
    requires
        0 <= n <= list.len(),
        model::gathered(list.take(n)) is Err,
    ensures
        model::gathered(list) == model::gathered(list.take(n)),
    decreases list.len(),
{
    if n == list.len() {
        assert(list.take(n) == list);
    } else {
        assert(list.drop_last().take(n) == list.take(n));
        lemma_gathered_error(list.drop_last(), n);
    }
}

} // verus!
