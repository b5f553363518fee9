use serial_tool::serial_worker::{
    delivery_result, open_error, start_error, thread_name, SerialWorker, WorkerAction,
    WorkerCommand, WorkerEvent, WorkerReply,
};

fn batch(list: &[&[u8]]) -> WorkerReply {
    WorkerReply::Command(WorkerCommand::SendBatch(
        list.iter().map(|b| b.to_vec()).collect(),
    ))
}

#[test]
fn a_batch_is_written_in_order() {
    let worker = SerialWorker::new();
    assert_eq!(worker.action(), WorkerAction::Poll);
    let (worker, event) = worker.advance(batch(&[b"one", b"two", b""]));
    assert_eq!(event, None);
    assert_eq!(worker.action(), WorkerAction::Write(&b"one".to_vec()));
    let (worker, _) = worker.advance(WorkerReply::Done);
    assert_eq!(worker.action(), WorkerAction::Write(&b"two".to_vec()));
    let (worker, _) = worker.advance(WorkerReply::Done);
    assert_eq!(worker.action(), WorkerAction::Write(&Vec::new()));
    let (worker, event) = worker.advance(WorkerReply::Done);
    assert_eq!(event, None);
    assert_eq!(worker.action(), WorkerAction::Read);
}

#[test]
fn an_empty_batch_writes_nothing() {
    let (worker, event) = SerialWorker::new().advance(batch(&[]));
    assert_eq!(event, None);
    assert_eq!(worker.action(), WorkerAction::Read);
}

#[test]
fn a_failed_write_ends_the_batch_and_the_worker() {
    let (worker, _) = SerialWorker::new().advance(batch(&[b"one", b"two"]));
    let (worker, event) = worker.advance(WorkerReply::Failed("gone".to_owned()));
    assert_eq!(event, Some(WorkerEvent::Error("发送失败：gone".to_owned())));
    assert_eq!(worker.action(), WorkerAction::Stop);
}

#[test]
fn control_lines_are_set() {
    let (worker, _) =
        SerialWorker::new().advance(WorkerReply::Command(WorkerCommand::SetDtr(true)));
    assert_eq!(worker.action(), WorkerAction::SetDtr(true));
    let (worker, event) = worker.advance(WorkerReply::Done);
    assert_eq!((worker.action(), event), (WorkerAction::Read, None));

    let (worker, _) =
        SerialWorker::new().advance(WorkerReply::Command(WorkerCommand::SetRts(false)));
    assert_eq!(worker.action(), WorkerAction::SetRts(false));
}

#[test]
fn control_lines_that_cannot_be_set_end_the_worker() {
    let (worker, event) =
        SerialWorker::SettingDtr(true).advance(WorkerReply::Failed("x".to_owned()));
    assert_eq!(worker, SerialWorker::Stopped);
    assert_eq!(event, Some(WorkerEvent::Error("设置 DTR 失败：x".to_owned())));
    let (worker, event) =
        SerialWorker::SettingRts(true).advance(WorkerReply::Failed("y".to_owned()));
    assert_eq!(worker, SerialWorker::Stopped);
    assert_eq!(event, Some(WorkerEvent::Error("设置 RTS 失败：y".to_owned())));
}

#[test]
fn closing_and_disconnecting_end_the_worker() {
    for reply in [WorkerReply::Command(WorkerCommand::Close), WorkerReply::Disconnected] {
        let (worker, event) = SerialWorker::new().advance(reply);
        assert_eq!(event, Some(WorkerEvent::Closed("串口已关闭".to_owned())));
        assert_eq!(worker.action(), WorkerAction::Stop);
    }
}

#[test]
fn data_is_passed_on_and_silence_is_not() {
    let (worker, event) = SerialWorker::new().advance(WorkerReply::NoCommand);
    assert_eq!(event, None);
    assert_eq!(worker.action(), WorkerAction::Read);
    let (worker, event) = worker.advance(WorkerReply::Data(vec![1, 2]));
    assert_eq!(event, Some(WorkerEvent::Received(vec![1, 2])));
    assert_eq!(worker.action(), WorkerAction::Poll);
    let (worker, event) = SerialWorker::Reading.advance(WorkerReply::Data(vec![]));
    assert_eq!((worker, event), (SerialWorker::Polling, None));
}

#[test]
fn only_real_read_failures_end_the_worker() {
    let (worker, event) = SerialWorker::Reading.advance(WorkerReply::ReadFailed {
        timed_out: true,
        message: "late".to_owned(),
    });
    assert_eq!((worker, event), (SerialWorker::Polling, None));
    let (worker, event) = SerialWorker::Reading.advance(WorkerReply::ReadFailed {
        timed_out: false,
        message: "broken".to_owned(),
    });
    assert_eq!(worker, SerialWorker::Stopped);
    assert_eq!(event, Some(WorkerEvent::Error("接收失败：broken".to_owned())));
}

#[test]
fn several_batches_are_written_in_the_order_of_the_commands() {
    let mut worker = SerialWorker::new();
    let mut commands = vec![
        batch(&[b"a", b"b"]),
        WorkerReply::NoCommand,
        batch(&[b"c"]),
        WorkerReply::Command(WorkerCommand::Close),
    ]
    .into_iter();
    let mut written: Vec<u8> = Vec::new();
    let mut told = Vec::new();
    loop {
        let reply = match worker.action() {
            WorkerAction::Poll => commands.next().unwrap(),
            WorkerAction::Write(payload) => {
                written.extend_from_slice(payload);
                WorkerReply::Done
            }
            WorkerAction::Read => WorkerReply::Data(Vec::new()),
            WorkerAction::Stop => break,
            _ => WorkerReply::Done,
        };
        let (next, event) = worker.advance(reply);
        worker = next;
        told.extend(event);
    }
    assert_eq!(written, b"abc");
    assert_eq!(told, vec![WorkerEvent::Closed("串口已关闭".to_owned())]);
}

#[test]
fn messages_carry_the_reason() {
    assert_eq!(open_error("busy"), "打开串口失败：busy");
    assert_eq!(start_error("no"), "启动串口后台线程失败：no");
    assert_eq!(thread_name("COM3"), "serial-worker-COM3");
    assert_eq!(delivery_result(true), Ok(()));
    assert_eq!(delivery_result(false), Err("串口后台线程已退出".to_owned()));
}

#[test]
fn a_later_write_that_fails_leaves_the_rest_unwritten() {
    let (worker, _) = SerialWorker::new().advance(batch(&[b"one", b"two", b"three"]));
    let (worker, event) = worker.advance(WorkerReply::Done);
    assert_eq!(event, None);
    assert_eq!(worker.action(), WorkerAction::Write(&b"two".to_vec()));
    let (worker, event) = worker.advance(WorkerReply::Failed("gone".to_owned()));
    assert_eq!(event, Some(WorkerEvent::Error("发送失败：gone".to_owned())));
    assert_eq!(worker.action(), WorkerAction::Stop);
}

#[test]
fn data_is_passed_on_in_order() {
    let mut worker = SerialWorker::new();
    let mut told = Vec::new();
    for bytes in [vec![1], vec![], vec![2, 3]] {
        for reply in [WorkerReply::NoCommand, WorkerReply::Data(bytes)] {
            let (next, event) = worker.advance(reply);
            worker = next;
            told.extend(event);
        }
    }
    assert_eq!(
        told,
        vec![WorkerEvent::Received(vec![1]), WorkerEvent::Received(vec![2, 3])]
    );
}
