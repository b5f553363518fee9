//! What the window shows: captions, hints, log lines, and which controls can be used.

use crate::app::SerialToolApp;
use crate::display;
use crate::text;
use vstd::prelude::*;

verus! {

/// The caption of input line number `index`, counted from zero.
pub fn input_label(index: usize) -> (result: String)
    requires
        index < usize::MAX,
    ensures
        result@ == "数据 "@ + text::decimal((index + 1) as nat),
{
    let mut label = "数据 ".to_owned();
    text::push_decimal(&mut label, index as u64 + 1);
    label
}

/// What an empty input line says.
pub fn input_hint(is_hex: bool) -> (result: &'static str)
    ensures
        result@ == if is_hex {
            "例如: 01 02 0A FF"@
        } else {
            "输入要发送的文本"@
        },
{
    if is_hex {
        "例如: 01 02 0A FF"
    } else {
        "输入要发送的文本"
    }
}

/// The caption of a sending interval.
pub fn interval_label(interval_ms: u64) -> (result: String)
    ensures
        result@ == text::decimal(interval_ms as nat) + " ms"@,
{
    let mut label = String::new();
    text::push_decimal(&mut label, interval_ms);
    label.append(" ms");
    assert(label@ == text::decimal(interval_ms as nat) + " ms"@);
    label
}

/// The caption of a baud rate.
pub fn baud_label(rate: u32) -> (result: String)
    ensures
        result@ == text::decimal(rate as nat),
{
    let mut label = String::new();
    text::push_decimal(&mut label, rate as u64);
    assert(label@ == text::decimal(rate as nat));
    label
}

/// The colour of the status line, as red, green and blue.
pub fn status_color(is_error: bool) -> (result: (u8, u8, u8))
    ensures
        result == if is_error {
            (220u8, 70u8, 70u8)
        } else {
            (90u8, 180u8, 120u8)
        },
{
    if is_error {
        (220, 70, 70)
    } else {
        (90, 180, 120)
    }
}

impl SerialToolApp {
    /// Whether the port and the baud rate can be selected: not while a port is open.
    pub fn selection_enabled(&self) -> (result: bool)
        ensures
            result == !self@.connected,
    {
        !self.connected
    }

    /// Whether the send button can be used: only while a port is open.
    pub fn send_enabled(&self) -> (result: bool)
        ensures
            result == self@.connected,
    {
        self.connected
    }

    /// The caption of the selected port.
    pub fn port_label(&self) -> (result: String)
        ensures
            result@ == match self@.selected_port {
                Some(name) => name,
                None => "未发现设备"@,
            },
    {
        match &self.selected_port {
            Some(name) => name.clone(),
            None => "未发现设备".to_owned(),
        }
    }

    /// The caption of the button that opens and closes the port.
    pub fn open_label(&self) -> (result: &'static str)
        ensures
            result@ == if self@.connected {
                "关闭"@
            } else {
                "打开"@
            },
    {
        if self.connected {
            "关闭"
        } else {
            "打开"
        }
    }

    /// The caption of the send button.
    pub fn send_label(&self) -> (result: &'static str)
        ensures
            result@ == if self@.continuous_active {
                "Stop"@
            } else {
                "Send"@
            },
    {
        if self.continuous_active {
            "Stop"
        } else {
            "Send"
        }
    }

    /// Whether the list of sending intervals is shown: exactly while continuous sending is switched on.
    pub fn interval_shown(&self) -> (result: bool)
        ensures
            result == self@.continuous_enabled,
    {
        self.continuous_enabled
    }

    /// What stands in place of the log of sent data while it is empty.
    pub fn send_log_hint(&self) -> (result: Option<&'static str>)
        ensures
            result is Some <==> self@.send_log.len() == 0,
            result matches Some(hint) ==> hint@ == "暂无发送数据"@,
    {
        if self.send_log.len() == 0 {
            Some("暂无发送数据")
        } else {
            None
        }
    }

    /// What stands in place of the log of received data while it is empty.
    pub fn receive_log_hint(&self) -> (result: Option<&'static str>)
        ensures
            result is Some <==> self@.receive_log.len() == 0,
            result matches Some(hint) ==> hint@ == "暂无接收数据"@,
    {
        if self.receive_log.len() == 0 {
            Some("暂无接收数据")
        } else {
            None
        }
    }

    /// Whether input line `index` has a button to add another: the last one has.
    pub fn offers_add(&self, index: usize) -> (result: bool)
        requires
            index < self.send_inputs@.len(),
        ensures
            result == (index == self@.send_inputs.len() - 1),
    {
        index == self.send_inputs.len() - 1
    }

    /// Whether the input lines have a button to remove them: not where there is only one.
    pub fn offers_remove(&self) -> (result: bool)
        ensures
            result == (self@.send_inputs.len() > 1),
    {
        self.send_inputs.len() > 1
    }

    /// The line that shows an entry of a log.
    pub fn format_entry(&self, timestamp: &str, bytes: &[u8]) -> (result: String)
        ensures
            result@ == display::log_line(
                timestamp@,
                if self@.receive_as_hex {
                    display::hex_dump(bytes@)
                } else {
                    display::visible(display::lossy_text(bytes@))
                },
            ),
            !self@.receive_as_hex && vstd::utf8::valid_utf8(bytes@) ==> result@
                == display::log_line(
                timestamp@,
                display::visible(vstd::utf8::decode_utf8(bytes@)),
            ),
    {
        if self.receive_as_hex {
            display::format_receive_hex(timestamp, bytes)
        } else {
            display::format_receive_text(timestamp, bytes)
        }
    }
}

} // verus!
