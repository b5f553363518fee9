//! The background worker of an open port: what it does next, and what it tells the window.
//!
//! The worker alternates between the commands it is given and the data that arrives. [`SerialWorker`]
//! decides; the thread around it performs each [`WorkerAction`] and hands back a [`WorkerReply`].

use vstd::prelude::*;

verus! {

/// How long a read waits for data, in milliseconds.
pub const READ_TIMEOUT_MS: u64 = 100;

/// How many bytes a read takes at most.
pub const READ_BUFFER_SIZE: usize = 4096;

/// What the worker tells the window.
#[derive(Debug, PartialEq, Eq)]
pub enum WorkerEvent {
    Received(Vec<u8>),
    Closed(String),
    Error(String),
}

/// What the window tells the worker.
#[derive(Debug, PartialEq, Eq)]
pub enum WorkerCommand {
    SendBatch(Vec<Vec<u8>>),
    SetDtr(bool),
    SetRts(bool),
    Close,
}

/// What the worker wants done at the port or at its command queue.
#[derive(Debug, PartialEq, Eq)]
pub enum WorkerAction<'a> {
    /// Look for a command.
    Poll,
    /// Write these bytes and flush.
    Write(&'a Vec<u8>),
    SetDtr(bool),
    SetRts(bool),
    /// Read what has arrived.
    Read,
    /// End the thread.
    Stop,
}

/// How an action ended.
#[derive(Debug, PartialEq, Eq)]
pub enum WorkerReply {
    /// Poll: there was a command.
    Command(WorkerCommand),
    /// Poll: the queue is empty.
    NoCommand,
    /// Poll: nobody can send a command any more.
    Disconnected,
    /// Write, SetDtr or SetRts: done.
    Done,
    /// Write, SetDtr or SetRts: failed for this reason.
    Failed(String),
    /// Read: these bytes arrived, possibly none.
    Data(Vec<u8>),
    /// Read: failed for this reason.
    ReadFailed { timed_out: bool, message: String },
}

/// What the worker is about.
#[derive(Debug, PartialEq, Eq)]
pub enum SerialWorker {
    Polling,
    /// Writing `payload`, and then each of `rest`.
    Sending { payload: Vec<u8>, rest: Vec<Vec<u8>> },
    SettingDtr(bool),
    SettingRts(bool),
    Reading,
    Stopped,
}

/// The contents of a list of byte strings.
pub open spec fn contents(list: Seq<Vec<u8>>) -> Seq<Seq<u8>> {
    list.map_values(|bytes: Vec<u8>| bytes@)
}

/// What a [`WorkerEvent`] holds.
pub enum Event {
    Received(Seq<u8>),
    Closed(Seq<char>),
    Error(Seq<char>),
}

impl View for WorkerEvent {
    type V = Event;

    open spec fn view(&self) -> Event {
        match self {
            WorkerEvent::Received(bytes) => Event::Received(bytes@),
            WorkerEvent::Closed(message) => Event::Closed(message@),
            WorkerEvent::Error(message) => Event::Error(message@),
        }
    }
}

/// What a [`WorkerCommand`] holds.
pub enum Command {
    SendBatch(Seq<Seq<u8>>),
    SetDtr(bool),
    SetRts(bool),
    Close,
}

impl View for WorkerCommand {
    type V = Command;

    open spec fn view(&self) -> Command {
        match self {
            WorkerCommand::SendBatch(batch) => Command::SendBatch(contents(batch@)),
            WorkerCommand::SetDtr(level) => Command::SetDtr(*level),
            WorkerCommand::SetRts(level) => Command::SetRts(*level),
            WorkerCommand::Close => Command::Close,
        }
    }
}

/// What a [`WorkerAction`] holds.
pub enum Action {
    Poll,
    Write(Seq<u8>),
    SetDtr(bool),
    SetRts(bool),
    Read,
    Stop,
}

impl<'a> View for WorkerAction<'a> {
    type V = Action;

    open spec fn view(&self) -> Action {
        match self {
            WorkerAction::Poll => Action::Poll,
            WorkerAction::Write(payload) => Action::Write(payload@),
            WorkerAction::SetDtr(level) => Action::SetDtr(*level),
            WorkerAction::SetRts(level) => Action::SetRts(*level),
            WorkerAction::Read => Action::Read,
            WorkerAction::Stop => Action::Stop,
        }
    }
}

/// What a [`WorkerReply`] holds.
pub enum Reply {
    Command(Command),
    NoCommand,
    Disconnected,
    Done,
    Failed(Seq<char>),
    Data(Seq<u8>),
    ReadFailed { timed_out: bool, message: Seq<char> },
}

impl View for WorkerReply {
    type V = Reply;

    open spec fn view(&self) -> Reply {
        match self {
            WorkerReply::Command(command) => Reply::Command(command@),
            WorkerReply::NoCommand => Reply::NoCommand,
            WorkerReply::Disconnected => Reply::Disconnected,
            WorkerReply::Done => Reply::Done,
            WorkerReply::Failed(message) => Reply::Failed(message@),
            WorkerReply::Data(bytes) => Reply::Data(bytes@),
            WorkerReply::ReadFailed { timed_out, message } => Reply::ReadFailed {
                timed_out: *timed_out,
                message: message@,
            },
        }
    }
}

/// What a [`SerialWorker`] is about; `Sending` lists what is still to be written.
pub enum Phase {
    Polling,
    Sending(Seq<Seq<u8>>),
    SettingDtr(bool),
    SettingRts(bool),
    Reading,
    Stopped,
}

impl View for SerialWorker {
    type V = Phase;

    open spec fn view(&self) -> Phase {
        match self {
            SerialWorker::Polling => Phase::Polling,
            SerialWorker::Sending { payload, rest } => Phase::Sending(
                seq![payload@] + contents(rest@),
            ),
            SerialWorker::SettingDtr(level) => Phase::SettingDtr(*level),
            SerialWorker::SettingRts(level) => Phase::SettingRts(*level),
            SerialWorker::Reading => Phase::Reading,
            SerialWorker::Stopped => Phase::Stopped,
        }
    }
}

/// The action that a phase asks for.
pub open spec fn action_of(phase: Phase) -> Action {
    match phase {
        Phase::Polling => Action::Poll,
        Phase::Sending(payloads) => Action::Write(payloads[0]),
        Phase::SettingDtr(level) => Action::SetDtr(level),
        Phase::SettingRts(level) => Action::SetRts(level),
        Phase::Reading => Action::Read,
        Phase::Stopped => Action::Stop,
    }
}

/// `reply` is one that the action of `phase` can end with.
pub open spec fn answers(phase: Phase, reply: Reply) -> bool {
    match phase {
        Phase::Polling => reply is Command || reply is NoCommand || reply is Disconnected,
        Phase::Sending(_) | Phase::SettingDtr(_) | Phase::SettingRts(_) => reply is Done
            || reply is Failed,
        Phase::Reading => reply is Data || reply is ReadFailed,
        Phase::Stopped => false,
    }
}

/// Writing the payloads that are left, or, where none is, reading.
pub open spec fn sending(payloads: Seq<Seq<u8>>) -> Phase {
    if payloads.len() == 0 {
        Phase::Reading
    } else {
        Phase::Sending(payloads)
    }
}

/// The worker stops and says why.
pub open spec fn stop_with(event: Event) -> (Phase, Option<Event>) {
    (Phase::Stopped, Some(event))
}

/// What follows a poll.
pub open spec fn after_poll(reply: Reply) -> (Phase, Option<Event>) {
    match reply {
        Reply::Command(Command::SendBatch(batch)) => (sending(batch), None),
        Reply::Command(Command::SetDtr(level)) => (Phase::SettingDtr(level), None),
        Reply::Command(Command::SetRts(level)) => (Phase::SettingRts(level), None),
        Reply::NoCommand => (Phase::Reading, None),
        _ => stop_with(Event::Closed("串口已关闭"@)),
    }
}

/// What follows a write or a change of a line: on success `next`, otherwise the worker stops with
/// `what` and the reason.
pub open spec fn after_attempt(reply: Reply, next: Phase, what: Seq<char>) -> (
    Phase,
    Option<Event>,
) {
    match reply {
        Reply::Failed(message) => stop_with(Event::Error(what + message)),
        _ => (next, None),
    }
}

/// What follows a read: data is passed on, silence is not, and a failure other than a time-out stops
/// the worker.
pub open spec fn after_read(reply: Reply) -> (Phase, Option<Event>) {
    match reply {
        Reply::Data(bytes) => if bytes.len() > 0 {
            (Phase::Polling, Some(Event::Received(bytes)))
        } else {
            (Phase::Polling, None)
        },
        Reply::ReadFailed { timed_out: false, message } => stop_with(
            Event::Error("接收失败："@ + message),
        ),
        _ => (Phase::Polling, None),
    }
}

/// One step of the worker: the next phase and what the window is told.
pub open spec fn step(phase: Phase, reply: Reply) -> (Phase, Option<Event>) {
    match phase {
        Phase::Polling => after_poll(reply),
        Phase::Sending(payloads) => after_attempt(
            reply,
            sending(payloads.drop_first()),
            "发送失败："@,
        ),
        Phase::SettingDtr(_) => after_attempt(reply, Phase::Reading, "设置 DTR 失败："@),
        Phase::SettingRts(_) => after_attempt(reply, Phase::Reading, "设置 RTS 失败："@),
        Phase::Reading => after_read(reply),
        Phase::Stopped => (Phase::Stopped, None),
    }
}

/// What an optional event holds.
pub open spec fn event_of(event: Option<WorkerEvent>) -> Option<Event> {
    match event {
        Some(e) => Some(e@),
        None => None,
    }
}

/// `what` with `detail` behind it.
fn message(what: &str, detail: &str) -> (result: String)
    ensures
        result@ == what@ + detail@,
{
    let mut result = what.to_owned();
    result.append(detail);
    result
}

/// The worker that has `batch` to write.
fn start_sending(batch: Vec<Vec<u8>>) -> (result: SerialWorker)
    ensures
        result@ == sending(contents(batch@)),
{
    let mut rest = batch;
    if rest.len() == 0 {
        SerialWorker::Reading
    } else {
        let payload = rest.remove(0);
        assert(seq![payload@] + contents(rest@) == contents(batch@));
        SerialWorker::Sending { payload, rest }
    }
}

impl SerialWorker {
    /// A worker that has just been started.
    pub fn new() -> (result: Self)
        ensures
            result@ == Phase::Polling,
    {
        SerialWorker::Polling
    }

    /// What is to be done next.
    pub fn action(&self) -> (result: WorkerAction<'_>)
        ensures
            result@ == action_of(self@),
    {
        match self {
            SerialWorker::Polling => WorkerAction::Poll,
            SerialWorker::Sending { payload, .. } => WorkerAction::Write(payload),
            SerialWorker::SettingDtr(level) => WorkerAction::SetDtr(*level),
            SerialWorker::SettingRts(level) => WorkerAction::SetRts(*level),
            SerialWorker::Reading => WorkerAction::Read,
            SerialWorker::Stopped => WorkerAction::Stop,
        }
    }

    /// Takes note of how the action ended. Gives the worker as it goes on and what the window is
    /// told.
    pub fn advance(self, reply: WorkerReply) -> (result: (SerialWorker, Option<WorkerEvent>))
        requires
            answers(self@, reply@),
        ensures
            (result.0@, event_of(result.1)) == step(self@, reply@),
    {
        match self {
            SerialWorker::Polling => match reply {
                WorkerReply::Command(WorkerCommand::SendBatch(batch)) => (
                    start_sending(batch),
                    None,
                ),
                WorkerReply::Command(WorkerCommand::SetDtr(level)) => (
                    SerialWorker::SettingDtr(level),
                    None,
                ),
                WorkerReply::Command(WorkerCommand::SetRts(level)) => (
                    SerialWorker::SettingRts(level),
                    None,
                ),
                WorkerReply::NoCommand => (SerialWorker::Reading, None),
                _ => (
                    SerialWorker::Stopped,
                    Some(WorkerEvent::Closed("串口已关闭".to_owned())),
                ),
            },
            SerialWorker::Sending { payload, rest } => match reply {
                WorkerReply::Failed(reason) => (
                    SerialWorker::Stopped,
                    Some(WorkerEvent::Error(message("发送失败：", reason.as_str()))),
                ),
                _ => {
                    assert((seq![payload@] + contents(rest@)).drop_first() == contents(rest@));
                    (start_sending(rest), None)
                },
            },
            SerialWorker::SettingDtr(_) => match reply {
                WorkerReply::Failed(reason) => (
                    SerialWorker::Stopped,
                    Some(WorkerEvent::Error(message("设置 DTR 失败：", reason.as_str()))),
                ),
                _ => (SerialWorker::Reading, None),
            },
            SerialWorker::SettingRts(_) => match reply {
                WorkerReply::Failed(reason) => (
                    SerialWorker::Stopped,
                    Some(WorkerEvent::Error(message("设置 RTS 失败：", reason.as_str()))),
                ),
                _ => (SerialWorker::Reading, None),
            },
            SerialWorker::Reading => match reply {
                WorkerReply::Data(bytes) => if bytes.len() > 0 {
                    (SerialWorker::Polling, Some(WorkerEvent::Received(bytes)))
                } else {
                    (SerialWorker::Polling, None)
                },
                WorkerReply::ReadFailed { timed_out: false, message: reason } => (
                    SerialWorker::Stopped,
                    Some(WorkerEvent::Error(message("接收失败：", reason.as_str()))),
                ),
                _ => (SerialWorker::Polling, None),
            },
            SerialWorker::Stopped => (SerialWorker::Stopped, None),
        }
    }
}

/// The message about a port that could not be opened.
pub fn open_error(detail: &str) -> (result: String)
    ensures
        result@ == "打开串口失败："@ + detail@,
{
    message("打开串口失败：", detail)
}

/// The message about a worker thread that could not be started.
pub fn start_error(detail: &str) -> (result: String)
    ensures
        result@ == "启动串口后台线程失败："@ + detail@,
{
    message("启动串口后台线程失败：", detail)
}

/// The name of the worker thread of a port.
pub fn thread_name(port_name: &str) -> (result: String)
    ensures
        result@ == "serial-worker-"@ + port_name@,
{
    message("serial-worker-", port_name)
}

/// What sending a command reports: a command that finds no worker has failed.
pub fn delivery_result(delivered: bool) -> (result: Result<(), String>)
    ensures
        result is Ok <==> delivered,
        result matches Err(text) ==> text@ == "串口后台线程已退出"@,
{
    if delivered {
        Ok(())
    } else {
        Err("串口后台线程已退出".to_owned())
    }
}

/// Where a worker is after these replies.
pub open spec fn after(phase: Phase, replies: Seq<Reply>) -> Phase
    decreases replies.len(),
{
    if replies.len() == 0 {
        phase
    } else {
        after(step(phase, replies[0]).0, replies.drop_first())
    }
}

/// What the window is told during these replies.
pub open spec fn told(phase: Phase, replies: Seq<Reply>) -> Seq<Event>
    decreases replies.len(),
{
    if replies.len() == 0 {
        Seq::empty()
    } else {
        let (next, event) = step(phase, replies[0]);
        let first = match event {
            Some(e) => seq![e],
            None => Seq::empty(),
        };
        first + told(next, replies.drop_first())
    }
}

/// What has been written to the port, write by write, during these replies.
pub open spec fn written(phase: Phase, replies: Seq<Reply>) -> Seq<Seq<u8>>
    decreases replies.len(),
{
    if replies.len() == 0 {
        Seq::empty()
    } else {
        let first = match (action_of(phase), replies[0]) {
            (Action::Write(payload), Reply::Done) => seq![payload],
            _ => Seq::empty(),
        };
        first + written(step(phase, replies[0]).0, replies.drop_first())
    }
}

/// `n` actions that all succeed.
pub open spec fn successes(n: nat) -> Seq<Reply> {
    Seq::new(n, |i: int| Reply::Done)
}

/// `n` of the payloads are written in order; then `rest` happens to what is left.
proof fn lemma_sending(payloads: Seq<Seq<u8>>, n: nat, rest: Seq<Reply>)
    requires
        n <= payloads.len(),
    ensures
        ({
            let left = sending(payloads.skip(n as int));
            let replies = successes(n) + rest;
            &&& after(sending(payloads), replies) == after(left, rest)
            &&& told(sending(payloads), replies) == told(left, rest)
            &&& written(sending(payloads), replies) == payloads.take(n as int) + written(left, rest)
        }),
    decreases n,
{
    let replies = successes(n) + rest;
    if n == 0 {
        assert(replies == rest);
        assert(payloads.skip(0) == payloads);
        assert(payloads.take(0) + written(sending(payloads), rest) == written(
            sending(payloads),
            rest,
        ));
    } else {
        let short = payloads.drop_first();
        let m = (n - 1) as nat;
        lemma_sending(short, m, rest);
        assert(replies.drop_first() == successes(m) + rest);
        assert(replies[0] == Reply::Done);
        assert(short.skip(m as int) == payloads.skip(n as int));
        let left = sending(payloads.skip(n as int));
        assert(Seq::<Event>::empty() + told(left, rest) == told(left, rest));
        assert(seq![payloads[0]] + (short.take(m as int) + written(left, rest)) == payloads.take(
            n as int,
        ) + written(left, rest));
    }
}

/// A batch is written payload by payload, in order and completely, and the worker then reads again
/// without a word to the window.
pub proof fn law_batch_is_written_in_order(batch: Seq<Seq<u8>>)
    ensures
        ({
            let replies = seq![Reply::Command(Command::SendBatch(batch))] + successes(batch.len());
            &&& written(Phase::Polling, replies) == batch
            &&& told(Phase::Polling, replies) == Seq::<Event>::empty()
            &&& after(Phase::Polling, replies) == Phase::Reading
        }),
{
    let command = Reply::Command(Command::SendBatch(batch));
    let none = Seq::<Reply>::empty();
    let replies = seq![command] + successes(batch.len());
    lemma_sending(batch, batch.len(), none);
    assert(replies.drop_first() == successes(batch.len()) + none);
    assert(replies[0] == command);
    assert(batch.skip(batch.len() as int) == Seq::<Seq<u8>>::empty());
    assert(batch.take(batch.len() as int) + Seq::<Seq<u8>>::empty() == batch);
    assert(Seq::<Seq<u8>>::empty() + batch == batch);
}

/// A write that fails ends the batch: what stands before it has been written, nothing behind it is,
/// the window is told once, and the worker has stopped.
pub proof fn law_failed_write_ends_the_batch(batch: Seq<Seq<u8>>, n: nat, reason: Seq<char>)
    requires
        n < batch.len(),
    ensures
        ({
            let replies = seq![Reply::Command(Command::SendBatch(batch))] + successes(n)
                + seq![Reply::Failed(reason)];
            &&& written(Phase::Polling, replies) == batch.take(n as int)
            &&& told(Phase::Polling, replies) == seq![Event::Error("发送失败："@ + reason)]
            &&& after(Phase::Polling, replies) == Phase::Stopped
        }),
{
    let command = Reply::Command(Command::SendBatch(batch));
    let failure = Reply::Failed(reason);
    let replies = seq![command] + successes(n) + seq![failure];
    lemma_sending(batch, n, seq![failure]);
    assert(replies.drop_first() == successes(n) + seq![failure]);
    assert(replies[0] == command);
    let left = sending(batch.skip(n as int));
    let none = seq![failure].drop_first();
    assert(none == Seq::<Reply>::empty());
    assert(seq![failure][0] == failure);
    assert(step(left, failure) == stop_with(Event::Error("发送失败："@ + reason)));
    assert(written(Phase::Stopped, none) == Seq::<Seq<u8>>::empty());
    assert(told(Phase::Stopped, none) == Seq::<Event>::empty());
    assert(after(Phase::Stopped, none) == Phase::Stopped);
    assert(written(left, seq![failure]) == Seq::<Seq<u8>>::empty());
    assert(told(left, seq![failure]) == seq![Event::Error("发送失败："@ + reason)]);
    assert(batch.take(n as int) + Seq::<Seq<u8>>::empty() == batch.take(n as int));
}

/// The worker stops exactly when it tells the window that the port is closed or has failed.
pub proof fn law_stop_is_announced(phase: Phase, reply: Reply)
    requires
        answers(phase, reply),
    ensures
        step(phase, reply).0 is Stopped <==> (step(phase, reply).1 matches Some(event)
            && !(event is Received)),
{
}

/// A worker that has stopped asks for nothing more than the end of its thread, and no reply fits it.
pub proof fn law_stop_is_final(phase: Phase, reply: Reply)
    ensures
        phase is Stopped <==> action_of(phase) is Stop,
        phase is Stopped ==> !answers(phase, reply),
{
}

/// After each command that does not stop it, the worker reads before it looks for the next command.
pub proof fn law_reads_between_commands(phase: Phase, reply: Reply)
    requires
        answers(phase, reply),
        step(phase, reply).0 is Polling,
    ensures
        phase is Reading,
{
}

/// What a phase still has to write.
pub open spec fn pending(phase: Phase) -> Seq<Seq<u8>> {
    match phase {
        Phase::Sending(payloads) => payloads,
        _ => Seq::empty(),
    }
}

/// Everything that the commands among these replies ask to write, in order.
pub open spec fn commanded(replies: Seq<Reply>) -> Seq<Seq<u8>>
    decreases replies.len(),
{
    if replies.len() == 0 {
        Seq::empty()
    } else {
        let first = match replies[0] {
            Reply::Command(Command::SendBatch(batch)) => batch,
            _ => Seq::empty(),
        };
        first + commanded(replies.drop_first())
    }
}

/// Each reply is one that the worker's action can end with.
pub open spec fn possible(phase: Phase, replies: Seq<Reply>) -> bool
    decreases replies.len(),
{
    replies.len() == 0 || (answers(phase, replies[0]) && possible(
        step(phase, replies[0]).0,
        replies.drop_first(),
    ))
}

/// Over any run, what has been written is what was commanded, in that order, up to some point: to
/// the end, but for what is still pending, as long as the worker has not stopped.
pub proof fn law_writes_follow_the_commands(phase: Phase, replies: Seq<Reply>)
    requires
        possible(phase, replies),
        phase is Sending ==> pending(phase).len() > 0,
    ensures
        written(phase, replies).is_prefix_of(pending(phase) + commanded(replies)),
        !(after(phase, replies) is Stopped) ==> written(phase, replies) + pending(
            after(phase, replies),
        ) == pending(phase) + commanded(replies),
    decreases replies.len(),
{
    let none = Seq::<Seq<u8>>::empty();
    if replies.len() == 0 {
        assert(pending(phase) + commanded(replies) == pending(phase));
        assert(written(phase, replies) + pending(phase) == pending(phase));
    } else {
        let next = step(phase, replies[0]).0;
        let rest = replies.drop_first();
        law_writes_follow_the_commands(next, rest);
        let more = written(next, rest);
        let all = pending(next) + commanded(rest);
        let total = pending(phase) + commanded(replies);
        if next is Stopped {
            lemma_stopped_writes_nothing(rest);
            assert(rest.len() == 0);
            assert(written(phase, replies) == none);
        } else if phase is Sending {
            let head = seq![pending(phase)[0]];
            assert(pending(next) == pending(phase).drop_first());
            assert(commanded(replies) == commanded(rest));
            assert(total == head + all);
            assert(written(phase, replies) == head + more);
            assert(head + more + pending(after(next, rest)) == head + (more + pending(
                after(next, rest),
            )));
        } else {
            assert(total == all);
            assert(written(phase, replies) == more);
        }
    }
}

proof fn lemma_stopped_writes_nothing(replies: Seq<Reply>)
    requires
        possible(Phase::Stopped, replies),
    ensures
        replies.len() == 0,
{
}

/// A word about data that came in.
pub open spec fn about_data() -> spec_fn(Event) -> bool {
    |event: Event| event is Received
}

/// The data that came in during these replies, read by read, silence left out.
pub open spec fn arrived(replies: Seq<Reply>) -> Seq<Event>
    decreases replies.len(),
{
    if replies.len() == 0 {
        Seq::empty()
    } else {
        let first = match replies[0] {
            Reply::Data(bytes) => if bytes.len() > 0 {
                seq![Event::Received(bytes)]
            } else {
                Seq::empty()
            },
            _ => Seq::empty(),
        };
        first + arrived(replies.drop_first())
    }
}

/// Over any run, the window is told of all data that came in, unchanged and in order, and of no other
/// data.
pub proof fn law_data_is_passed_on_in_order(phase: Phase, replies: Seq<Reply>)
    requires
        possible(phase, replies),
    ensures
        told(phase, replies).filter(about_data()) == arrived(replies),
    decreases replies.len(),
{
    let none = Seq::<Event>::empty();
    reveal(Seq::filter);
    if replies.len() > 0 {
        let (next, event) = step(phase, replies[0]);
        let rest = replies.drop_first();
        law_data_is_passed_on_in_order(next, rest);
        let first = match event {
            Some(e) => seq![e],
            None => none,
        };
        Seq::filter_distributes_over_add(first, told(next, rest), about_data());
        assert(none.filter(about_data()) == none);
        match event {
            Some(e) => {
                assert(seq![e].drop_last() == none);
                assert(seq![e].filter(about_data()) == if e is Received {
                    seq![e]
                } else {
                    none
                });
            },
            None => {},
        }
    }
}

} // verus!
