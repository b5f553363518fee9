use serial_tool::app::SerialToolApp;
use serial_tool::config::{parse_config, AppConfig};
use serial_tool::labels::{
    baud_label, input_hint, input_label, interval_label, status_color,
};
use serial_tool::model::{FrameAction, FrameRequests, SendPurpose};
use serial_tool::send_input::SendInput;
use serial_tool::serial_worker::WorkerEvent;

fn names(list: &[&str]) -> Result<Vec<String>, String> {
    Ok(list.iter().map(|s| s.to_string()).collect())
}

fn fresh(list: &[&str]) -> SerialToolApp {
    SerialToolApp::new(AppConfig::default(), names(list))
}

/// An app with an open port and one text typed.
fn connected(text: &str) -> SerialToolApp {
    let mut app = fresh(&["COM1"]);
    app.finish_open("COM1", Ok(()));
    app.send_inputs[0].set_text(text.to_owned());
    app
}

fn status(app: &SerialToolApp) -> (&str, bool) {
    let banner = app.status.as_ref().unwrap();
    (banner.text.as_str(), banner.is_error)
}

fn no_requests() -> FrameRequests {
    FrameRequests {
        refresh: false,
        open_or_close: false,
        send: false,
        add_input: false,
        selection_changed: false,
        remove_input: None,
    }
}

fn is_clock_time(stamp: &str) -> bool {
    let bytes = stamp.as_bytes();
    bytes.len() == 12
        && bytes.iter().enumerate().all(|(i, b)| match i {
            2 | 5 => *b == b':',
            8 => *b == b'.',
            _ => b.is_ascii_digit(),
        })
        && stamp[0..2].parse::<u32>().unwrap() <= 23
        && stamp[3..5].parse::<u32>().unwrap() <= 59
        && stamp[6..8].parse::<u32>().unwrap() <= 60
}

#[test]
fn the_start_has_default_selections() {
    let app = fresh(&[]);
    assert_eq!(app.baud_rates, vec![9600, 19200, 38400, 57600, 115200, 230400, 460800, 921600]);
    assert_eq!(app.selected_baud, 115200);
    assert_eq!(app.interval_options, vec![100, 200, 500, 1000, 2000, 5000]);
    assert_eq!(app.selected_interval_ms, 1000);
    assert_eq!(app.send_inputs.len(), 1);
    assert!(!app.connected && !app.continuous_enabled && !app.continuous_active);
    assert_eq!(app.selected_port, None);
    assert_eq!(status(&app), ("未发现可用串口设备", false));
}

#[test]
fn the_start_takes_saved_selections() {
    let config = AppConfig {
        selected_port: Some("COM2".to_owned()),
        selected_baud: Some(9600),
    };
    let app = SerialToolApp::new(config, names(&["COM3", "COM2"]));
    assert_eq!(app.selected_port.as_deref(), Some("COM2"));
    assert_eq!(app.selected_baud, 9600);
    assert_eq!(app.ports, vec!["COM2", "COM3"]);
    assert_eq!(status(&app), ("已发现 2 个设备", false));
}

#[test]
fn refreshing_selects_a_port_that_is_there() {
    let mut app = fresh(&["b", "a"]);
    assert_eq!(app.selected_port.as_deref(), Some("a"));
    app.refresh_ports(names(&["c", "b"]));
    assert_eq!(app.selected_port.as_deref(), Some("b"));
    app.refresh_ports(names(&["c", "b", "a"]));
    assert_eq!(app.selected_port.as_deref(), Some("b"));
    app.refresh_ports(names(&[]));
    assert_eq!(app.selected_port, None);
    assert!(app.ports.is_empty());
}

#[test]
fn refreshing_twice_changes_nothing_more() {
    let mut app = fresh(&["b", "a"]);
    app.refresh_ports(names(&["z", "y"]));
    let first = (app.ports.clone(), app.selected_port.clone());
    app.refresh_ports(names(&["z", "y"]));
    assert_eq!((app.ports.clone(), app.selected_port.clone()), first);
}

#[test]
fn a_failed_refresh_keeps_the_ports() {
    let mut app = fresh(&["a"]);
    app.refresh_ports(Err("denied".to_owned()));
    assert_eq!(app.ports, vec!["a"]);
    assert_eq!(app.selected_port.as_deref(), Some("a"));
    assert_eq!(status(&app), ("刷新设备失败：denied", true));
}

#[test]
fn the_selection_survives_a_restart() {
    let mut app = fresh(&["COM1", "COM\"2"]);
    app.selected_port = Some("COM\"2".to_owned());
    app.selected_baud = 921600;
    let saved = app.selection_config().to_toml();
    let again = SerialToolApp::new(parse_config(&saved), names(&["COM1", "COM\"2"]));
    assert_eq!(again.selected_port.as_deref(), Some("COM\"2"));
    assert_eq!(again.selected_baud, 921600);

    let elsewhere = SerialToolApp::new(parse_config(&saved), names(&["COM9"]));
    assert_eq!(elsewhere.selected_port.as_deref(), Some("COM9"));
    assert_eq!(elsewhere.selected_baud, 921600);
    let unknown = SerialToolApp::new(parse_config(&saved), Err("denied".to_owned()));
    assert_eq!(unknown.selected_port.as_deref(), Some("COM\"2"));
    assert_eq!(unknown.selected_baud, 921600);
    app.selected_port = None;
    let saved = app.selection_config().to_toml();
    let unselected = SerialToolApp::new(parse_config(&saved), names(&[]));
    assert_eq!(unselected.selected_port, None);
    assert_eq!(unselected.selected_baud, 921600);
}

#[test]
fn opening_needs_a_selected_port() {
    let mut app = fresh(&[]);
    assert_eq!(app.open_port(), None);
    assert_eq!(status(&app), ("请先选择串口设备", true));
    let mut app = fresh(&["COM1"]);
    assert_eq!(app.open_port(), Some(("COM1".to_owned(), 115200)));
}

#[test]
fn opening_and_closing_are_reported() {
    let mut app = fresh(&["COM1"]);
    app.finish_open("COM1", Err("打开串口失败：busy".to_owned()));
    assert!(!app.connected);
    assert_eq!(status(&app), ("打开串口失败：busy", true));
    app.finish_open("COM1", Ok(()));
    assert!(app.connected);
    assert_eq!(status(&app), ("已打开串口：COM1 @ 115200 baud", false));
    app.close_port();
    assert!(!app.connected);
    assert_eq!(status(&app), ("串口已关闭", false));
}

#[test]
fn received_data_is_logged_with_a_time() {
    let mut app = connected("");
    app.push_receive_log(vec![1, 2]);
    assert_eq!(app.receive_log.len(), 1);
    assert_eq!(app.receive_log[0].1, vec![1, 2]);
    assert!(is_clock_time(&app.receive_log[0].0), "{}", app.receive_log[0].0);
    app.push_send_log(vec![3]);
    assert_eq!(app.send_log[0].1, vec![3]);
    assert!(is_clock_time(&app.send_log[0].0));
    app.log_received("then".to_owned(), vec![4]);
    assert_eq!(app.receive_log[1], ("then".to_owned(), vec![4]));
    app.log_sent("now".to_owned(), vec![5]);
    assert_eq!(app.send_log[1], ("now".to_owned(), vec![5]));
}

#[test]
fn logs_keep_the_last_thousand_entries() {
    let mut app = fresh(&[]);
    for n in 0..1003u32 {
        app.log_received(n.to_string(), n.to_be_bytes().to_vec());
    }
    assert_eq!(app.receive_log.len(), 1000);
    assert_eq!(app.receive_log[0].0, "3");
    assert_eq!(app.receive_log[999].0, "1002");
}

#[test]
fn words_of_the_worker_are_taken_in_order() {
    let mut app = connected("x");
    app.drain_worker_events(
        vec![WorkerEvent::Received(vec![1]), WorkerEvent::Received(vec![2])],
        false,
    );
    assert!(app.connected);
    assert_eq!(app.receive_log[0].1, vec![1]);
    assert_eq!(app.receive_log[1].1, vec![2]);
    assert!(is_clock_time(&app.receive_log[1].0));
}

#[test]
fn the_end_of_the_worker_costs_the_connection() {
    let mut app = connected("x");
    app.continuous_enabled = true;
    app.continuous_active = true;
    app.next_continuous_send_at = Some(1);
    app.drain_worker_events(
        vec![WorkerEvent::Error("发送失败：x".to_owned()), WorkerEvent::Received(vec![9])],
        true,
    );
    assert!(!app.connected && !app.continuous_active);
    assert_eq!(app.next_continuous_send_at, None);
    assert_eq!(status(&app), ("发送失败：x", true));
    assert_eq!(app.receive_log.len(), 1);

    let mut app = connected("x");
    app.drain_worker_events(vec![WorkerEvent::Closed("串口已关闭".to_owned())], false);
    assert!(!app.connected);
    assert_eq!(status(&app), ("串口已关闭", false));
}

#[test]
fn silence_of_the_worker_leaves_continuous_sending() {
    let mut app = connected("x");
    app.continuous_enabled = true;
    app.continuous_active = true;
    app.next_continuous_send_at = Some(1);
    app.drain_worker_events(Vec::new(), true);
    assert!(!app.connected);
    assert!(app.continuous_active);
}

#[test]
fn only_filled_inputs_are_collected() {
    let mut app = connected("one");
    let mut second = SendInput::new();
    second.set_text("  ".to_owned());
    let mut third = SendInput::new();
    third.set_hex(true);
    third.set_text("02 03".to_owned());
    app.send_inputs.push(second);
    app.send_inputs.push(third);
    assert_eq!(app.collect_payloads(), Ok(vec![b"one".to_vec(), vec![2, 3]]));
}

#[test]
fn there_has_to_be_something_to_send() {
    let app = connected(" \t");
    assert_eq!(app.collect_payloads(), Err("请至少填写一条发送数据".to_owned()));
}

#[test]
fn the_first_faulty_input_is_named() {
    let mut app = connected("ok");
    for text in ["01", "xyz", "q"] {
        let mut input = SendInput::new();
        input.set_hex(true);
        input.set_text(text.to_owned());
        app.send_inputs.push(input);
    }
    assert_eq!(
        app.collect_payloads(),
        Err("数据 3 包含无效的 HEX 格式，请修正后再发送".to_owned())
    );
    // An unchecked input is still refused when it cannot be converted.
    app.send_inputs[2].hex_error = None;
    app.send_inputs[3].hex_error = None;
    assert_eq!(app.collect_payloads(), Err("'xyz' 不是有效的十六进制值".to_owned()));
}

#[test]
fn sending_once_logs_and_hands_over() {
    let mut app = connected("hi");
    let (purpose, payloads) = app.handle_send_button().unwrap();
    assert_eq!(purpose, SendPurpose::Once);
    assert_eq!(payloads, vec![b"hi".to_vec()]);
    assert_eq!(app.send_log.len(), 1);
    assert_eq!(app.send_log[0].1, b"hi");
    app.finish_send(purpose, Ok(()), 5);
    assert_eq!(status(&app), ("发送完成", false));
    assert!(!app.continuous_active);
}

#[test]
fn sending_without_a_connection_is_refused_but_logged() {
    let mut app = fresh(&["COM1"]);
    app.send_inputs[0].set_text("hi".to_owned());
    assert_eq!(app.handle_send_button(), None);
    assert_eq!(status(&app), ("请先打开串口", true));
    assert_eq!(app.send_log.len(), 1);
}

#[test]
fn sending_nothing_is_refused_and_not_logged() {
    let mut app = connected("");
    assert_eq!(app.begin_send(), None);
    assert_eq!(status(&app), ("请至少填写一条发送数据", true));
    assert!(app.send_log.is_empty());
}

#[test]
fn continuous_sending_starts_repeats_and_stops() {
    let mut app = connected("hi");
    app.continuous_enabled = true;
    app.selected_interval_ms = 500;
    let (purpose, _) = app.handle_send_button().unwrap();
    assert_eq!(purpose, SendPurpose::StartContinuous);
    app.finish_send(purpose, Ok(()), 1_000_000_000);
    assert!(app.continuous_active);
    assert_eq!(app.next_continuous_send_at, Some(1_500_000_000));
    assert_eq!(status(&app), ("已开始持续发送，周期 500 ms", false));
    assert_eq!(app.send_label(), "Stop");

    assert_eq!(app.tick_continuous_send(1_499_999_999), None);
    assert_eq!(app.send_log.len(), 1);
    assert_eq!(app.tick_continuous_send(1_500_000_000), Some(vec![b"hi".to_vec()]));
    app.finish_send(SendPurpose::Repeat, Ok(()), 1_600_000_000);
    assert_eq!(app.next_continuous_send_at, Some(2_100_000_000));
    assert_eq!(app.send_log.len(), 2);

    assert_eq!(app.handle_send_button(), None);
    assert!(!app.continuous_active);
    assert_eq!(app.next_continuous_send_at, None);
    assert_eq!(status(&app), ("已停止持续发送", false));
    assert_eq!(app.send_log.len(), 2);
    assert_eq!(app.tick_continuous_send(u64::MAX), None);
}

#[test]
fn a_failed_send_stops_continuous_sending() {
    let mut app = connected("hi");
    app.continuous_enabled = true;
    app.continuous_active = true;
    app.next_continuous_send_at = Some(0);
    assert!(app.tick_continuous_send(0).is_some());
    app.finish_send(SendPurpose::Repeat, Err("串口后台线程已退出".to_owned()), 1);
    assert!(!app.continuous_active);
    assert_eq!(app.next_continuous_send_at, None);
    assert_eq!(status(&app), ("发送失败：串口后台线程已退出", true));
}

#[test]
fn a_missing_moment_is_set_first() {
    let mut app = connected("hi");
    app.continuous_enabled = true;
    app.continuous_active = true;
    assert_eq!(app.tick_continuous_send(7), None);
    assert_eq!(app.next_continuous_send_at, Some(1_000_000_007));
}

#[test]
fn deadlines_do_not_overflow() {
    let mut app = connected("hi");
    app.continuous_enabled = true;
    app.selected_interval_ms = u64::MAX;
    app.finish_send(SendPurpose::StartContinuous, Ok(()), u64::MAX);
    assert_eq!(
        app.next_continuous_send_at,
        Some(u64::MAX as u128 + u64::MAX as u128 * 1_000_000)
    );
}

#[test]
fn clicks_are_carried_out_in_order() {
    let mut app = fresh(&["COM1"]);
    let all = FrameRequests {
        refresh: true,
        open_or_close: true,
        send: true,
        add_input: true,
        selection_changed: true,
        remove_input: None,
    };
    assert_eq!(
        app.end_frame(false, all),
        vec![
            FrameAction::SaveSelection,
            FrameAction::RefreshPorts,
            FrameAction::OpenPort,
            FrameAction::Send,
        ]
    );
    assert_eq!(app.send_inputs.len(), 2);
    app.connected = true;
    let close = FrameRequests { open_or_close: true, ..no_requests() };
    assert_eq!(app.end_frame(false, close), vec![FrameAction::ClosePort]);
    assert_eq!(app.end_frame(false, no_requests()), vec![]);
}

#[test]
fn inputs_are_removed_and_added() {
    let mut app = connected("a");
    let mut second = SendInput::new();
    second.set_text("b".to_owned());
    app.send_inputs.push(second);
    assert!(app.offers_remove());
    assert!(app.offers_add(1) && !app.offers_add(0));
    let requests = FrameRequests {
        remove_input: Some(0),
        add_input: true,
        ..no_requests()
    };
    app.end_frame(false, requests);
    assert_eq!(app.send_inputs.len(), 2);
    assert_eq!(app.send_inputs[0].text, "b");
    assert_eq!(app.send_inputs[1].text, "");
    app.end_frame(false, FrameRequests { remove_input: Some(1), ..no_requests() });
    assert!(!app.offers_remove());
}

#[test]
fn switching_continuous_sending_off_stops_it() {
    let mut app = connected("a");
    app.continuous_active = true;
    app.next_continuous_send_at = Some(3);
    app.continuous_enabled = false;
    app.end_frame(true, no_requests());
    assert!(!app.continuous_active);
    assert_eq!(app.next_continuous_send_at, None);
}

#[test]
fn the_window_is_drawn_again_while_something_may_happen() {
    let mut app = fresh(&[]);
    assert_eq!(app.repaint_after_ms(), None);
    app.connected = true;
    assert_eq!(app.repaint_after_ms(), Some(50));
    app.connected = false;
    app.continuous_active = true;
    assert_eq!(app.repaint_after_ms(), Some(50));
}

#[test]
fn captions_follow_the_state() {
    let mut app = fresh(&[]);
    assert_eq!(app.port_label(), "未发现设备");
    assert_eq!(app.open_label(), "打开");
    assert_eq!(app.send_label(), "Send");
    assert!(app.selection_enabled() && !app.send_enabled());
    app.refresh_ports(names(&["COM7"]));
    assert_eq!(app.port_label(), "COM7");
    app.connected = true;
    assert_eq!(app.open_label(), "关闭");
    assert!(!app.selection_enabled() && app.send_enabled());
    assert_eq!(input_label(0), "数据 1");
    assert_eq!(input_hint(true), "例如: 01 02 0A FF");
    assert_eq!(input_hint(false), "输入要发送的文本");
    assert_eq!(interval_label(200), "200 ms");
    assert_eq!(baud_label(9600), "9600");
    assert_eq!(status_color(true), (220, 70, 70));
    assert_eq!(status_color(false), (90, 180, 120));
}

#[test]
fn intervals_are_shown_while_continuous_sending_is_switched_on() {
    let mut app = connected("x");
    assert!(!app.interval_shown());
    app.continuous_enabled = true;
    assert!(app.interval_shown());
    assert_eq!(app.send_label(), "Send");
    app.continuous_active = true;
    assert!(app.interval_shown());
    assert_eq!(app.send_label(), "Stop");
}

#[test]
fn empty_logs_say_so() {
    let mut app = fresh(&[]);
    assert_eq!(app.send_log_hint(), Some("暂无发送数据"));
    assert_eq!(app.receive_log_hint(), Some("暂无接收数据"));
    app.log_sent("t".to_owned(), vec![1]);
    assert_eq!(app.send_log_hint(), None);
    assert_eq!(app.receive_log_hint(), Some("暂无接收数据"));
    app.log_received("t".to_owned(), vec![1]);
    assert_eq!(app.receive_log_hint(), None);
}

#[test]
fn log_lines_follow_the_chosen_form() {
    let mut app = fresh(&[]);
    assert_eq!(app.format_entry("t", b"A\n\xff"), "[t] A\\n\u{fffd}");
    app.receive_as_hex = true;
    assert_eq!(app.format_entry("t", b"A\n"), "[t] 41 0A");
}

#[test]
fn events_are_applied_one_by_one() {
    let mut app = connected("x");
    assert!(!app.apply_event("t".to_owned(), WorkerEvent::Received(vec![7])));
    assert_eq!(app.receive_log[0], ("t".to_owned(), vec![7]));
    assert!(app.apply_event("t".to_owned(), WorkerEvent::Closed("bye".to_owned())));
    assert_eq!(status(&app), ("bye", false));
    assert!(app.connected);
    assert!(app.apply_event("t".to_owned(), WorkerEvent::Error("no".to_owned())));
    assert_eq!(status(&app), ("no", true));
}

#[test]
fn received_data_is_logged_between_other_words() {
    let mut app = connected("x");
    app.drain_worker_events(
        vec![
            WorkerEvent::Received(vec![1]),
            WorkerEvent::Closed("bye".to_owned()),
            WorkerEvent::Received(vec![2]),
        ],
        false,
    );
    let logged: Vec<&[u8]> = app.receive_log.iter().map(|entry| entry.1.as_slice()).collect();
    assert_eq!(logged, vec![&[1u8][..], &[2u8][..]]);
    assert!(app.send_log.is_empty());
}

#[test]
fn closing_the_port_stops_continuous_sending() {
    let mut app = connected("x");
    app.continuous_enabled = true;
    let (purpose, _) = app.handle_send_button().unwrap();
    app.finish_send(purpose, Ok(()), 0);
    assert!(app.continuous_active);
    app.close_port();
    assert!(!app.continuous_active && !app.connected);
    assert_eq!(app.next_continuous_send_at, None);
}
