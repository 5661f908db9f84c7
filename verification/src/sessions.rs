//! Streams of messages between a client and an item: the first message selects the item, all
//! others are for it.

use vstd::prelude::*;

use crate::keyboard::KeyboardEvent;
use crate::server::{
    keyboard_event, mouse_input, mouse_refusal, KeyboardEventType, MouseInput,
};
use crate::status::{is_status, Code, Status};
use crate::text::{append_decimal, decimal};

verus! {

/// What the first message of a stream leads to.
#[derive(Debug)]
pub enum FirstStep<T> {
    /// The stream is over before it began, which is fine.
    Finish,
    /// Look the item up and open it.
    Select(T),
    /// The stream is refused.
    Refuse(Status),
}

/// A message to a console.
#[derive(Debug)]
pub enum ConsoleInput {
    /// Selects the console.
    Console(u64),
    /// Data for the console.
    Data(Vec<u8>),
    /// An empty message.
    Empty,
}

/// What the first message to a console leads to. Without any message there is nothing to do.
pub fn console_first(message: Option<ConsoleInput>) -> (r: FirstStep<u64>)
    ensures
        match message {
            None => r is Finish,
            Some(ConsoleInput::Console(id)) => r == FirstStep::<u64>::Select(id),
            Some(_) => r is Refuse && is_status(
                r->Refuse_0,
                Code::InvalidArgument,
                "Target should be set first"@,
            ),
        },
{
    match message {
        None => FirstStep::Finish,
        Some(ConsoleInput::Console(id)) => FirstStep::Select(id),
        Some(_) => FirstStep::Refuse(
            Status::new(Code::InvalidArgument, "Target should be set first"),
        ),
    }
}

/// What a later message to a console leads to: data to pass on.
pub fn console_next(message: ConsoleInput) -> (r: Result<Vec<u8>, Status>)
    ensures
        match message {
            ConsoleInput::Data(data) => r == Ok::<Vec<u8>, Status>(data),
            _ => r is Err && is_status(
                r->Err_0,
                Code::InvalidArgument,
                "Target cannot be changed"@,
            ),
        },
{
    match message {
        ConsoleInput::Data(data) => Ok(data),
        _ => Err(Status::new(Code::InvalidArgument, "Target cannot be changed")),
    }
}

/// What kinds of item a stream can be for.
#[derive(Copy, Clone, Debug, PartialEq, Eq, Structural)]
pub enum StreamKind {
    /// A console.
    Console,
    /// A volume.
    Volume,
    /// A medium.
    Media,
    /// A keyboard.
    Keyboard,
    /// A mouse.
    Mouse,
}

/// What a stream that selects an item that is not there is answered with.
pub open spec fn missing_text(kind: StreamKind) -> Seq<char> {
    match kind {
        StreamKind::Console => "No console by that name"@,
        StreamKind::Volume => "No volume by that name"@,
        StreamKind::Media => "Media not found"@,
        StreamKind::Keyboard => "Keyboard not found"@,
        StreamKind::Mouse => "Mouse not found"@,
    }
}

/// What a stream that selects an item that is not there is answered with.
pub fn missing_item(kind: StreamKind) -> (r: Status)
    ensures
        is_status(r, Code::NotFound, missing_text(kind)),
{
    match kind {
        StreamKind::Console => Status::new(Code::NotFound, "No console by that name"),
        StreamKind::Volume => Status::new(Code::NotFound, "No volume by that name"),
        StreamKind::Media => Status::new(Code::NotFound, "Media not found"),
        StreamKind::Keyboard => Status::new(Code::NotFound, "Keyboard not found"),
        StreamKind::Mouse => Status::new(Code::NotFound, "Mouse not found"),
    }
}

/// Requests for one item.
#[derive(Copy, Clone, Debug, PartialEq, Eq, Structural)]
pub enum ItemRequest {
    /// Set a console up.
    ConsoleConfigure,
    /// Follow the output of a console.
    ConsoleOutput,
    /// Follow the state of a device.
    DeviceInfo,
    /// Change the mode of a device.
    DeviceMode,
    /// Change the mode of an actuator.
    ActuatorMode,
    /// Finish all writes to a volume.
    VolumeCommit,
    /// Erase a target of a volume.
    VolumeErase,
    /// List the targets of a volume.
    VolumeInfo,
}

/// What a request for an item that is not there is answered with.
pub fn missing_for(request: ItemRequest) -> (r: Status)
    ensures
        match request {
            ItemRequest::ConsoleConfigure => is_status(
                r,
                Code::InvalidArgument,
                "Can't find console"@,
            ),
            ItemRequest::ConsoleOutput => is_status(
                r,
                Code::InvalidArgument,
                "Can't find output console"@,
            ),
            ItemRequest::DeviceInfo => is_status(r, Code::NotFound, "No such device"@),
            ItemRequest::DeviceMode => is_status(r, Code::NotFound, "No device by that id"@),
            ItemRequest::ActuatorMode => is_status(
                r,
                Code::InvalidArgument,
                "Can't find actuator"@,
            ),
            _ => is_status(r, Code::NotFound, "Volume not found"@),
        },
{
    match request {
        ItemRequest::ConsoleConfigure => Status::new(Code::InvalidArgument, "Can't find console"),
        ItemRequest::ConsoleOutput => Status::new(
            Code::InvalidArgument,
            "Can't find output console",
        ),
        ItemRequest::DeviceInfo => Status::new(Code::NotFound, "No such device"),
        ItemRequest::DeviceMode => Status::new(Code::NotFound, "No device by that id"),
        ItemRequest::ActuatorMode => Status::new(Code::InvalidArgument, "Can't find actuator"),
        _ => Status::new(Code::NotFound, "Volume not found"),
    }
}

/// Which target of which volume to open, and how much is going to be written.
#[derive(Debug)]
pub struct VolumeSelection {
    /// The volume.
    pub volume: u64,
    /// Its target.
    pub target: String,
    /// How much is going to be written.
    pub length: Option<u64>,
}

/// A message to a volume.
#[derive(Debug)]
pub enum VolumeMessage {
    /// Selects the target.
    Target(VolumeSelection),
    /// Read at most so many bytes at an offset.
    Read(u64, u64),
    /// Write data at an offset.
    Write(Vec<u8>, u64),
    /// Write all buffers back.
    Flush,
    /// Finish.
    Shutdown,
    /// An empty message.
    Empty,
}

/// What the first message to a volume leads to.
pub fn volume_first(message: Option<VolumeMessage>) -> (r: FirstStep<VolumeSelection>)
    ensures
        match message {
            None => r is Refuse && is_status(
                r->Refuse_0,
                Code::InvalidArgument,
                "No uploader/target selection"@,
            ),
            Some(VolumeMessage::Target(selection)) => r == FirstStep::<VolumeSelection>::Select(
                selection,
            ),
            Some(_) => r is Refuse && is_status(
                r->Refuse_0,
                Code::InvalidArgument,
                "Target should be set first"@,
            ),
        },
{
    match message {
        None => FirstStep::Refuse(
            Status::new(Code::InvalidArgument, "No uploader/target selection"),
        ),
        Some(VolumeMessage::Target(selection)) => FirstStep::Select(selection),
        Some(_) => FirstStep::Refuse(
            Status::new(Code::InvalidArgument, "Target should be set first"),
        ),
    }
}

/// An operation on an open target.
#[derive(Debug)]
pub enum VolumeOperation {
    /// Read at most so many bytes at an offset.
    Read(u64, u64),
    /// Write data at an offset.
    Write(Vec<u8>, u64),
    /// Write all buffers back.
    Flush,
    /// Finish.
    Shutdown,
}

/// What a later message to a volume leads to.
#[derive(Debug)]
pub enum VolumeStep {
    /// Queue the reply and do the operation.
    Perform(VolumeOperation),
    /// Queue the error and take no more messages.
    Fatal(Status),
    /// Take no more messages.
    Stop,
}

/// What a later message to a volume leads to.
pub fn volume_next(message: Result<VolumeMessage, Status>) -> (r: VolumeStep)
    ensures
        match message {
            Ok(VolumeMessage::Read(length, offset)) => r == VolumeStep::Perform(
                VolumeOperation::Read(length, offset),
            ),
            Ok(VolumeMessage::Write(data, offset)) => r == VolumeStep::Perform(
                VolumeOperation::Write(data, offset),
            ),
            Ok(VolumeMessage::Flush) => r == VolumeStep::Perform(VolumeOperation::Flush),
            Ok(VolumeMessage::Shutdown) => r == VolumeStep::Perform(VolumeOperation::Shutdown),
            Ok(VolumeMessage::Target(_)) => r is Fatal && is_status(
                r->Fatal_0,
                Code::InvalidArgument,
                "Target request sent out of order"@,
            ),
            Ok(VolumeMessage::Empty) => r is Stop,
            Err(_) => r is Stop,
        },
{
    match message {
        Ok(VolumeMessage::Read(length, offset)) => VolumeStep::Perform(
            VolumeOperation::Read(length, offset),
        ),
        Ok(VolumeMessage::Write(data, offset)) => VolumeStep::Perform(
            VolumeOperation::Write(data, offset),
        ),
        Ok(VolumeMessage::Flush) => VolumeStep::Perform(VolumeOperation::Flush),
        Ok(VolumeMessage::Shutdown) => VolumeStep::Perform(VolumeOperation::Shutdown),
        Ok(VolumeMessage::Target(_)) => VolumeStep::Fatal(
            Status::new(Code::InvalidArgument, "Target request sent out of order"),
        ),
        Ok(VolumeMessage::Empty) => VolumeStep::Stop,
        Err(_) => VolumeStep::Stop,
    }
}

/// What becomes of an operation that a target has nothing of its own for: it can be neither read
/// nor written, and has nothing to write back.
pub fn default_outcome(operation: &VolumeOperation) -> (r: Result<(), Status>)
    ensures
        match *operation {
            VolumeOperation::Read(_, _) => r is Err && is_status(
                r->Err_0,
                Code::Unimplemented,
                "Target is not readable"@,
            ),
            VolumeOperation::Write(_, _) => r is Err && is_status(
                r->Err_0,
                Code::Unimplemented,
                "Target is not writable"@,
            ),
            _ => r is Ok,
        },
{
    match operation {
        VolumeOperation::Read(_, _) => Err(
            Status::new(Code::Unimplemented, "Target is not readable"),
        ),
        VolumeOperation::Write(_, _) => Err(
            Status::new(Code::Unimplemented, "Target is not writable"),
        ),
        _ => Ok(()),
    }
}

/// What has become of a request.
#[derive(Debug)]
pub enum Pending<R> {
    /// The operation is not complete.
    Waiting,
    /// This is the reply.
    Done(R),
    /// The operation was given up: there will be no reply.
    Dropped,
}

/// What to send next.
#[derive(Debug)]
pub enum NextReply<R> {
    /// This reply.
    Send(R),
    /// Nothing yet.
    Wait,
    /// Nothing any more.
    End,
}

/// Replies that are sent in the order of their requests, whatever the order in which the
/// operations complete.
#[derive(Debug)]
pub struct VolumeIoReplies<R> {
    queue: Vec<Pending<R>>,
    sent: u64,
}

impl<R> VolumeIoReplies<R> {
    /// What has become of the requests without a reply sent, oldest first.
    pub closed spec fn pending(self) -> Seq<Pending<R>> {
        self.queue@
    }

    /// How many replies were sent.
    pub closed spec fn sent_count(self) -> nat {
        self.sent as nat
    }

    /// Whether this is the number of a request that has no reply sent.
    pub open spec fn has(self, number: u64) -> bool {
        self.sent_count() <= number < self.sent_count() + self.pending().len()
    }

    /// No request was made.
    pub fn new() -> (r: Self)
        ensures
            r.pending() == Seq::<Pending<R>>::empty(),
            r.sent_count() == 0,
    {
        VolumeIoReplies { queue: Vec::new(), sent: 0 }
    }

    /// A request was made. Returned is its number.
    pub fn enqueue(&mut self) -> (r: u64)
        requires
            old(self).sent_count() + old(self).pending().len() < u64::MAX,
        ensures
            final(self).pending() == old(self).pending().push(Pending::Waiting),
            final(self).sent_count() == old(self).sent_count(),
            r == old(self).sent_count() + old(self).pending().len(),
    {
        let r: u64 = self.sent + self.queue.len() as u64;
        self.queue.push(Pending::Waiting);
        r
    }

    /// Something is to be told that is known already: about the target, or a fatal error.
    pub fn enqueue_reply(&mut self, reply: R)
        ensures
            final(self).pending() == old(self).pending().push(Pending::Done(reply)),
            final(self).sent_count() == old(self).sent_count(),
    {
        self.queue.push(Pending::Done(reply));
    }

    /// The operation of a request is complete.
    pub fn complete(&mut self, number: u64, reply: R)
        requires
            old(self).has(number),
        ensures
            final(self).pending() == old(self).pending().update(
                number - old(self).sent_count(),
                Pending::Done(reply),
            ),
            final(self).sent_count() == old(self).sent_count(),
    {
        let n: usize = self.queue.len();
        let at: usize = (number - self.sent) as usize;
        assert(at < n);
        self.queue.set(at, Pending::Done(reply));
    }

    /// The operation of a request was given up.
    pub fn give_up(&mut self, number: u64)
        requires
            old(self).has(number),
        ensures
            final(self).pending() == old(self).pending().update(
                number - old(self).sent_count(),
                Pending::Dropped,
            ),
            final(self).sent_count() == old(self).sent_count(),
    {
        let n: usize = self.queue.len();
        let at: usize = (number - self.sent) as usize;
        assert(at < n);
        self.queue.set(at, Pending::Dropped);
    }

    /// What to send next: the reply to the oldest request. Where there will be none, nothing is
    /// sent any more.
    pub fn next_reply(&mut self) -> (r: NextReply<R>)
        requires
            old(self).sent_count() < u64::MAX,
        ensures
            match next_pending(old(self).pending()) {
                Pending::Done(reply) => {
                    &&& r == NextReply::Send(reply)
                    &&& final(self).pending() == old(self).pending().skip(1)
                    &&& final(self).sent_count() == old(self).sent_count() + 1
                },
                Pending::Waiting => r is Wait && *final(self) == *old(self),
                Pending::Dropped => r is End && *final(self) == *old(self),
            },
    {
        if self.queue.len() == 0 {
            return NextReply::Wait;
        }
        match &self.queue[0] {
            Pending::Waiting => NextReply::Wait,
            Pending::Dropped => NextReply::End,
            Pending::Done(_) => {
                let first = self.queue.remove(0);
                assert(self.queue@ =~= old(self).queue@.skip(1));
                self.sent = self.sent + 1;
                match first {
                    Pending::Done(reply) => NextReply::Send(reply),
                    Pending::Waiting => NextReply::Wait,
                    Pending::Dropped => NextReply::End,
                }
            },
        }
    }
}

/// What has become of the request that a reply is sent for next.
pub open spec fn next_pending<R>(pending: Seq<Pending<R>>) -> Pending<R> {
    if pending.len() == 0 {
        Pending::Waiting
    } else {
        pending[0]
    }
}

/// A reply that comes early waits for those before it: completing another request than the
/// oldest does not change what is sent next, and once the replies before it are sent, this one
/// is.
pub proof fn law_replies_in_order<R>(pending: Seq<Pending<R>>, at: int, reply: R)
    requires
        0 <= at < pending.len(),
    ensures
        at > 0 ==> next_pending(pending.update(at, Pending::Done(reply))) == next_pending(pending),
        next_pending(pending.update(at, Pending::Done(reply)).skip(at)) == Pending::Done(reply),
{
}

/// What two ends of a stream of pictures tell one another.
#[derive(Debug)]
pub enum MediaSignalMsg {
    /// An offer.
    Offer(String),
    /// The answer to an offer.
    Answer(String),
    /// A way to reach the other end.
    Ice(String, u32),
}

/// A message to a medium.
#[derive(Debug)]
pub enum MediaMessage {
    /// Selects the medium.
    Item(u64),
    /// For the medium; may be empty.
    Signal(Option<MediaSignalMsg>),
    /// An empty message.
    Empty,
}

/// What the first message to a medium leads to.
pub fn media_first(message: Option<MediaMessage>) -> (r: FirstStep<u64>)
    ensures
        match message {
            None => r is Refuse && is_status(
                r->Refuse_0,
                Code::InvalidArgument,
                "No media id selection"@,
            ),
            Some(MediaMessage::Item(id)) => r == FirstStep::<u64>::Select(id),
            Some(_) => r is Refuse && is_status(
                r->Refuse_0,
                Code::InvalidArgument,
                "First message should be an item"@,
            ),
        },
{
    match message {
        None => FirstStep::Refuse(Status::new(Code::InvalidArgument, "No media id selection")),
        Some(MediaMessage::Item(id)) => FirstStep::Select(id),
        Some(_) => FirstStep::Refuse(
            Status::new(Code::InvalidArgument, "First message should be an item"),
        ),
    }
}

/// What a later message to a medium passes on; other messages are ignored.
pub fn media_next(message: MediaMessage) -> (r: Option<MediaSignalMsg>)
    ensures
        r == match message {
            MediaMessage::Signal(signal) => signal,
            _ => None,
        },
{
    match message {
        MediaMessage::Signal(signal) => signal,
        _ => None,
    }
}

/// What a server that pictures come from takes of a client's signal: offers are its own to
/// make, so those of a client are ignored.
pub fn offerer_takes(signal: MediaSignalMsg) -> (r: Option<MediaSignalMsg>)
    ensures
        r == match signal {
            MediaSignalMsg::Offer(_) => None,
            _ => Some(signal),
        },
{
    match signal {
        MediaSignalMsg::Offer(_) => None,
        _ => Some(signal),
    }
}

/// What a client does on a signal of the server.
#[derive(Debug)]
pub enum ViewerStep {
    /// Take the offer and make an answer.
    MakeAnswer(String),
    /// Take the way to reach the server.
    AddCandidate(String, u32),
    /// Nothing.
    Ignore,
}

/// What a client does on a signal of the server.
pub fn viewer_takes(signal: MediaSignalMsg) -> (r: ViewerStep)
    ensures
        r == match signal {
            MediaSignalMsg::Offer(sdp) => ViewerStep::MakeAnswer(sdp),
            MediaSignalMsg::Ice(candidate, index) => ViewerStep::AddCandidate(candidate, index),
            MediaSignalMsg::Answer(_) => ViewerStep::Ignore,
        },
{
    match signal {
        MediaSignalMsg::Offer(sdp) => ViewerStep::MakeAnswer(sdp),
        MediaSignalMsg::Ice(candidate, index) => ViewerStep::AddCandidate(candidate, index),
        MediaSignalMsg::Answer(_) => ViewerStep::Ignore,
    }
}

/// A message to a keyboard.
#[derive(Copy, Clone, Debug, PartialEq, Eq, Structural)]
pub enum KeyboardMessage {
    /// Selects the keyboard.
    Item(u64),
    /// A key was pressed or released.
    Event(KeyboardEventType, u32),
    /// An empty message.
    Empty,
}

/// What the first message to a keyboard leads to.
pub fn keyboard_first(message: Option<KeyboardMessage>) -> (r: FirstStep<u64>)
    ensures
        match message {
            None => r is Refuse && is_status(
                r->Refuse_0,
                Code::InvalidArgument,
                "No keyboard id selection"@,
            ),
            Some(KeyboardMessage::Item(id)) => r == FirstStep::<u64>::Select(id),
            Some(_) => r is Refuse && is_status(
                r->Refuse_0,
                Code::InvalidArgument,
                "First message should be a keyboard item id"@,
            ),
        },
{
    match message {
        None => FirstStep::Refuse(Status::new(Code::InvalidArgument, "No keyboard id selection")),
        Some(KeyboardMessage::Item(id)) => FirstStep::Select(id),
        Some(_) => FirstStep::Refuse(
            Status::new(Code::InvalidArgument, "First message should be a keyboard item id"),
        ),
    }
}

/// The event that a later message to a keyboard passes on; other messages are ignored.
pub fn keyboard_next(message: KeyboardMessage) -> (r: Option<KeyboardEvent>)
    ensures
        r == match message {
            KeyboardMessage::Event(type_, key) => if key <= 255 {
                Some(
                    match type_ {
                        KeyboardEventType::KeyDown => KeyboardEvent::Down(key as u8),
                        KeyboardEventType::KeyUp => KeyboardEvent::Up(key as u8),
                    },
                )
            } else {
                None
            },
            _ => None,
        },
{
    match message {
        KeyboardMessage::Event(type_, key) => match keyboard_event(type_, key) {
            Ok(event) => Some(event),
            Err(_) => None,
        },
        _ => None,
    }
}

/// A message to a mouse.
#[derive(Copy, Clone, Debug, PartialEq, Eq, Structural)]
pub enum MouseMessage {
    /// Selects the mouse.
    Item(u64),
    /// Buttons, position across and down, turns of the wheel down and across.
    Input(u32, u32, u32, i32, i32),
    /// An empty message.
    Empty,
}

/// What the first message to a mouse leads to.
pub fn mouse_first(message: Option<MouseMessage>) -> (r: FirstStep<u64>)
    ensures
        match message {
            None => r is Refuse && is_status(
                r->Refuse_0,
                Code::InvalidArgument,
                "No mouse id selection"@,
            ),
            Some(MouseMessage::Item(id)) => r == FirstStep::<u64>::Select(id),
            Some(_) => r is Refuse && is_status(
                r->Refuse_0,
                Code::InvalidArgument,
                "First message should be a mouse item id"@,
            ),
        },
{
    match message {
        None => FirstStep::Refuse(Status::new(Code::InvalidArgument, "No mouse id selection")),
        Some(MouseMessage::Item(id)) => FirstStep::Select(id),
        Some(_) => FirstStep::Refuse(
            Status::new(Code::InvalidArgument, "First message should be a mouse item id"),
        ),
    }
}

/// The report that a later message to a mouse passes on; other messages are ignored.
pub fn mouse_next(message: MouseMessage) -> (r: Option<MouseInput>)
    ensures
        match message {
            MouseMessage::Input(buttons, x, y, wheel, hwheel) => {
                if mouse_refusal(buttons, x, y, wheel, hwheel) is Some {
                    r is None
                } else {
                    &&& r is Some
                    &&& r->0.buttons == buttons
                    &&& r->0.x == x
                    &&& r->0.y == y
                    &&& r->0.wheel == wheel
                    &&& r->0.hwheel == hwheel
                }
            },
            _ => r is None,
        },
{
    match message {
        MouseMessage::Input(buttons, x, y, wheel, hwheel) => match mouse_input(
            buttons,
            x,
            y,
            wheel,
            hwheel,
        ) {
            Ok(input) => Some(input),
            Err(_) => None,
        },
        _ => None,
    }
}

/// A frame of a websocket, with the message to a console that a binary one holds.
#[derive(Debug)]
pub enum WsFrame {
    /// A message to a console.
    Binary(ConsoleInput),
    /// A binary frame that holds no such message.
    Undecodable,
    /// Text.
    Text,
    /// A sign of life, or the answer to one.
    PingPong,
    /// The end of the connection.
    Close,
}

/// What a frame leads to.
#[derive(Debug)]
pub enum WsStep {
    /// The connection is over, which is fine.
    Finish,
    /// Open the console.
    Open(u64),
    /// Pass the data on to the console.
    Send(Vec<u8>),
    /// Nothing.
    Ignore,
    /// The connection fails with this text.
    Fail(&'static str),
}

/// What the first frame leads to.
pub fn ws_first(frame: Option<WsFrame>) -> (r: WsStep)
    ensures
        match frame {
            None => r is Finish,
            Some(WsFrame::Close) => r is Finish,
            Some(WsFrame::Binary(ConsoleInput::Console(id))) => r == WsStep::Open(id),
            Some(WsFrame::Binary(_)) => r is Fail && r->Fail_0@
                == "first websocket frame must select a console target"@,
            Some(WsFrame::Undecodable) => r is Fail && r->Fail_0@
                == "failed to decode initial ConsoleInputRequest"@,
            Some(_) => r is Fail && r->Fail_0@
                == "first websocket frame must be a binary ConsoleInputRequest"@,
        },
{
    match frame {
        None => WsStep::Finish,
        Some(WsFrame::Close) => WsStep::Finish,
        Some(WsFrame::Binary(ConsoleInput::Console(id))) => WsStep::Open(id),
        Some(WsFrame::Binary(_)) => WsStep::Fail(
            "first websocket frame must select a console target",
        ),
        Some(WsFrame::Undecodable) => WsStep::Fail(
            "failed to decode initial ConsoleInputRequest",
        ),
        Some(_) => WsStep::Fail("first websocket frame must be a binary ConsoleInputRequest"),
    }
}

/// What a later frame leads to.
pub fn ws_next(frame: WsFrame) -> (r: WsStep)
    ensures
        match frame {
            WsFrame::Binary(ConsoleInput::Data(data)) => r == WsStep::Send(data),
            WsFrame::Binary(ConsoleInput::Console(_)) => r is Fail && r->Fail_0@
                == "target cannot be changed after session start"@,
            WsFrame::Binary(ConsoleInput::Empty) => r is Fail && r->Fail_0@
                == "console input frame was empty"@,
            WsFrame::Undecodable => r is Fail && r->Fail_0@
                == "failed to decode ConsoleInputRequest"@,
            WsFrame::Text => r is Fail && r->Fail_0@
                == "console websocket expects binary protobuf frames"@,
            WsFrame::PingPong => r is Ignore,
            WsFrame::Close => r is Finish,
        },
{
    match frame {
        WsFrame::Binary(ConsoleInput::Data(data)) => WsStep::Send(data),
        WsFrame::Binary(ConsoleInput::Console(_)) => WsStep::Fail(
            "target cannot be changed after session start",
        ),
        WsFrame::Binary(ConsoleInput::Empty) => WsStep::Fail("console input frame was empty"),
        WsFrame::Undecodable => WsStep::Fail("failed to decode ConsoleInputRequest"),
        WsFrame::Text => WsStep::Fail("console websocket expects binary protobuf frames"),
        WsFrame::PingPong => WsStep::Ignore,
        WsFrame::Close => WsStep::Finish,
    }
}

/// What is told when a websocket selects a console that is not there.
pub fn ws_missing_console(id: u64) -> (r: String)
    ensures
        r@ == "can't find console "@ + decimal(id as nat),
{
    let mut r = "can't find console ".to_owned();
    append_decimal(&mut r, id);
    r
}

/// What is sent next is the reply to the oldest request that has none sent: nothing while its
/// operation is under way, and nothing any more where that was given up.
pub proof fn law_oldest_request_decides<R>(first: Pending<R>, others: Seq<Pending<R>>)
    ensures
        next_pending(seq![first] + others) == first,
        next_pending(Seq::<Pending<R>>::empty()) is Waiting,
{
    assert((seq![first] + others)[0] == first);
}

} // verus!
