//! The client's end of reading and writing a volume: requests that are answered in order,
//! and a reader, writer and seeker on top of them.

use vstd::prelude::*;

use crate::status::{is_status, Code, Status};

verus! {

/// A target of a volume, as its server describes it.
#[derive(Debug)]
pub struct VolumeTarget {
    /// Name of the target.
    pub name: String,
    /// Whether it can be read.
    pub readable: bool,
    /// Whether it can be written.
    pub writable: bool,
    /// Whether one can move about in it.
    pub seekable: bool,
    /// Its size in bytes, where that is known.
    pub size: Option<u64>,
    /// The size of the blocks that it is best written in.
    pub blocksize: Option<u32>,
}

/// The kinds of request that wait for a reply.
#[derive(Copy, Clone, Debug, PartialEq, Eq, Structural)]
pub enum Outstanding {
    /// A write.
    Write,
    /// A read.
    Read,
    /// A flush.
    Flush,
    /// A shutdown.
    Shutdown,
}

/// A reply of the server.
#[derive(Debug)]
pub enum VolumeIoReply {
    /// The target was opened.
    Target(Option<VolumeTarget>),
    /// Data that was read.
    Read(Vec<u8>),
    /// How much was written.
    Write(u64),
    /// The flush is done.
    Flush,
    /// The shutdown is done.
    Shutdown,
}

/// A request to the server.
#[derive(Debug)]
pub enum VolumeIoRequest {
    /// Write data at an offset.
    Write(Vec<u8>, u64),
    /// Read at most so many bytes at an offset.
    Read(u64, u64),
    /// Write all buffers back.
    Flush,
    /// Finish.
    Shutdown,
}

/// What the next message of the server was.
#[derive(Debug)]
pub enum ServerMessage {
    /// A message, with the reply that it holds.
    Message(Option<VolumeIoReply>),
    /// The stream of replies is over.
    End,
    /// The call failed.
    Failed(Status),
}

/// No more requests can be sent.
#[derive(Copy, Clone, Debug, PartialEq, Eq, Structural)]
pub struct VolumeIoNoMoreRequests;

impl VolumeIoNoMoreRequests {
    /// The error's text.
    pub fn message(&self) -> (r: &'static str)
        ensures
            r@ == "No more requests can be send"@,
    {
        "No more requests can be send"
    }
}

/// Whether the reply is one to the request.
pub open spec fn answers(request: Outstanding, reply: VolumeIoReply) -> bool {
    match request {
        Outstanding::Write => reply is Write,
        Outstanding::Read => reply is Read,
        Outstanding::Flush => reply is Flush,
        Outstanding::Shutdown => reply is Shutdown,
    }
}

/// What becomes of the oldest request that waits.
#[derive(Debug)]
pub struct Answer {
    /// The reply, or why there is none.
    pub reply: Result<VolumeIoReply, Status>,
    /// Whether replies to later requests are still expected.
    pub go_on: bool,
}

/// What is said of a request whose reply never came, because nobody is left to give it.
pub open spec fn lost_text(request: Outstanding) -> Seq<char> {
    match request {
        Outstanding::Shutdown => "Shutdown request not received: RecvError(())"@,
        _ => "Request not received"@,
    }
}

/// What becomes of a request whose reply never came, because nobody is left to give it.
pub fn lost_request(request: Outstanding) -> (r: Status)
    ensures
        is_status(r, Code::Aborted, lost_text(request)),
{
    match request {
        Outstanding::Shutdown => Status::new(
            Code::Aborted,
            "Shutdown request not received: RecvError(())",
        ),
        _ => Status::new(Code::Aborted, "Request not received"),
    }
}

/// Matches the oldest request that waits with the server's next message. Replies come in the
/// order of the requests; one of another kind ends it all.
pub fn match_reply(request: Outstanding, message: ServerMessage) -> (r: Answer)
    ensures
        match message {
            ServerMessage::Message(Some(reply)) => if answers(request, reply) {
                r.reply == Ok::<VolumeIoReply, Status>(reply) && r.go_on
            } else {
                r.reply is Err && !r.go_on && is_status(
                    r.reply->Err_0,
                    Code::FailedPrecondition,
                    "Unmatched client request and server reply"@,
                )
            },
            ServerMessage::Message(None) => r.go_on && r.reply is Err && is_status(
                r.reply->Err_0,
                Code::Internal,
                "Reply didn't have reply data"@,
            ),
            ServerMessage::End => !r.go_on && r.reply is Err && is_status(
                r.reply->Err_0,
                Code::FailedPrecondition,
                "Unmatched client request and server reply"@,
            ),
            ServerMessage::Failed(status) => r.go_on && r.reply == Err::<VolumeIoReply, Status>(
                status,
            ),
        },
{
    match message {
        ServerMessage::Message(Some(reply)) => {
            let matched = match (&request, &reply) {
                (Outstanding::Read, VolumeIoReply::Read(_)) => true,
                (Outstanding::Write, VolumeIoReply::Write(_)) => true,
                (Outstanding::Flush, VolumeIoReply::Flush) => true,
                (Outstanding::Shutdown, VolumeIoReply::Shutdown) => true,
                _ => false,
            };
            if matched {
                Answer { reply: Ok(reply), go_on: true }
            } else {
                Answer {
                    reply: Err(
                        Status::new(
                            Code::FailedPrecondition,
                            "Unmatched client request and server reply",
                        ),
                    ),
                    go_on: false,
                }
            }
        },
        ServerMessage::Message(None) => Answer {
            reply: Err(Status::new(Code::Internal, "Reply didn't have reply data")),
            go_on: true,
        },
        ServerMessage::End => Answer {
            reply: Err(
                Status::new(Code::FailedPrecondition, "Unmatched client request and server reply"),
            ),
            go_on: false,
        },
        ServerMessage::Failed(status) => Answer { reply: Err(status), go_on: true },
    }
}

/// The target that the first reply of the server names.
pub fn opened_target(message: ServerMessage) -> (r: Result<VolumeTarget, Status>)
    ensures
        match message {
            ServerMessage::Message(Some(VolumeIoReply::Target(Some(target)))) => r == Ok::<
                VolumeTarget,
                Status,
            >(target),
            ServerMessage::Message(Some(VolumeIoReply::Target(None))) => r is Err && is_status(
                r->Err_0,
                Code::FailedPrecondition,
                "Empty target reply"@,
            ),
            ServerMessage::Failed(status) => r == Err::<VolumeTarget, Status>(status),
            _ => r is Err && is_status(
                r->Err_0,
                Code::FailedPrecondition,
                "Didn't get Target reply as expected"@,
            ),
        },
{
    match message {
        ServerMessage::Message(Some(VolumeIoReply::Target(Some(target)))) => Ok(target),
        ServerMessage::Message(Some(VolumeIoReply::Target(None))) => Err(
            Status::new(Code::FailedPrecondition, "Empty target reply"),
        ),
        ServerMessage::Failed(status) => Err(status),
        _ => Err(Status::new(Code::FailedPrecondition, "Didn't get Target reply as expected")),
    }
}

/// Why reading, writing or seeking failed.
#[derive(Debug)]
pub enum IoError {
    /// The target cannot do that.
    Unsupported(String),
    /// That makes no sense now.
    InvalidInput(String),
    /// Another operation is under way.
    Busy(String),
    /// The connection is gone.
    NotConnected,
    /// The server failed a request.
    Remote(Status),
}

/// A failure with its text as characters.
pub enum IoErrorView {
    /// The target cannot do that.
    Unsupported(Seq<char>),
    /// That makes no sense now.
    InvalidInput(Seq<char>),
    /// Another operation is under way.
    Busy(Seq<char>),
    /// The connection is gone.
    NotConnected,
    /// The server failed a request.
    Remote(Code, Seq<char>),
}

impl View for IoError {
    type V = IoErrorView;

    open spec fn view(&self) -> IoErrorView {
        match *self {
            IoError::Unsupported(m) => IoErrorView::Unsupported(m@),
            IoError::InvalidInput(m) => IoErrorView::InvalidInput(m@),
            IoError::Busy(m) => IoErrorView::Busy(m@),
            IoError::NotConnected => IoErrorView::NotConnected,
            IoError::Remote(s) => IoErrorView::Remote(s.code, s.message@),
        }
    }
}

/// Where to move to.
#[derive(Copy, Clone, Debug, PartialEq, Eq, Structural)]
pub enum SeekFrom {
    /// So many bytes from the start.
    Start(u64),
    /// So many bytes behind the end.
    End(i64),
    /// So many bytes on from here.
    Current(i64),
}

/// What the reader and writer is in the middle of.
#[derive(Copy, Clone, Debug, PartialEq, Eq, Structural)]
pub enum IoState {
    /// Nothing.
    Idle,
    /// Waiting for room to send a request.
    ReserveRequest,
    /// Flushing.
    Flush,
    /// Shutting down.
    Shutdown,
    /// Waiting for data.
    Read,
}

/// What is asked of the reader and writer.
#[derive(Copy, Clone, Debug, PartialEq, Eq, Structural)]
pub enum IoCall {
    /// Write from a buffer.
    Write,
    /// Flush what was written.
    Flush,
    /// Finish.
    Shutdown,
    /// Read into a buffer with so much room.
    Read(usize),
}

/// Whether there is room to send a request.
#[derive(Copy, Clone, Debug, PartialEq, Eq, Structural)]
pub enum Permit {
    /// Not yet.
    Pending,
    /// Yes.
    Granted,
    /// There never will be: the connection is gone.
    Closed,
}

/// What came of the last action.
#[derive(Debug)]
pub enum IoEvent {
    /// Nothing yet: the call begins.
    Begin,
    /// The reply to the oldest request that waits, if it is there.
    Front(Option<Result<(), Status>>),
    /// Whether a request can be sent.
    Permit(Permit),
    /// The request was sent.
    Sent,
    /// The data that was asked for, if it is there.
    Data(Option<Result<Vec<u8>, Status>>),
}

/// What to do next.
#[derive(Debug)]
pub enum IoAction {
    /// Look for the reply to the oldest request that waits.
    PollFront,
    /// Look for room to send a request.
    PollPermit,
    /// Look for the data that was asked for.
    PollData,
    /// Send the request.
    Send(VolumeIoRequest),
    /// The call has to wait.
    Wait,
    /// The call failed.
    Fail(IoError),
    /// So many bytes were taken from the buffer.
    Written(usize),
    /// These bytes were read.
    Data(Vec<u8>),
    /// The flush or shutdown is done.
    Done,
}

/// A request with its data as a sequence.
pub enum RequestView {
    /// Write data at an offset.
    Write(Seq<u8>, u64),
    /// Read at most so many bytes at an offset.
    Read(u64, u64),
    /// Write all buffers back.
    Flush,
    /// Finish.
    Shutdown,
}

impl View for VolumeIoRequest {
    type V = RequestView;

    open spec fn view(&self) -> RequestView {
        match *self {
            VolumeIoRequest::Write(data, offset) => RequestView::Write(data@, offset),
            VolumeIoRequest::Read(length, offset) => RequestView::Read(length, offset),
            VolumeIoRequest::Flush => RequestView::Flush,
            VolumeIoRequest::Shutdown => RequestView::Shutdown,
        }
    }
}

/// What to do next, with data as sequences.
pub enum ActionView {
    /// Look for the reply to the oldest request that waits.
    PollFront,
    /// Look for room to send a request.
    PollPermit,
    /// Look for the data that was asked for.
    PollData,
    /// Send the request.
    Send(RequestView),
    /// The call has to wait.
    Wait,
    /// The call failed.
    Fail(IoErrorView),
    /// So many bytes were taken from the buffer.
    Written(nat),
    /// These bytes were read.
    Data(Seq<u8>),
    /// The flush or shutdown is done.
    Done,
}

impl View for IoAction {
    type V = ActionView;

    open spec fn view(&self) -> ActionView {
        match *self {
            IoAction::PollFront => ActionView::PollFront,
            IoAction::PollPermit => ActionView::PollPermit,
            IoAction::PollData => ActionView::PollData,
            IoAction::Send(request) => ActionView::Send(request@),
            IoAction::Wait => ActionView::Wait,
            IoAction::Fail(e) => ActionView::Fail(e@),
            IoAction::Written(n) => ActionView::Written(n as nat),
            IoAction::Data(data) => ActionView::Data(data@),
            IoAction::Done => ActionView::Done,
        }
    }
}

/// The state of the reader and writer.
#[verifier::ext_equal]
pub struct RwModel {
    /// Position in the volume as the user sees it.
    pub pos: u64,
    /// What it is in the middle of.
    pub state: IoState,
    /// The requests whose replies are outstanding, oldest first.
    pub pending: Seq<Outstanding>,
    /// Where to move to, once that is completed.
    pub seek: Option<SeekFrom>,
    /// Data that was read ahead of the position.
    pub buffered: Seq<u8>,
}

/// The sum, or the largest number where it is beyond that.
pub open spec fn saturating_sum(a: u64, b: int) -> u64 {
    if a + b > u64::MAX {
        u64::MAX
    } else if a + b < 0 {
        0
    } else {
        (a + b) as u64
    }
}

/// The smaller of the two.
pub open spec fn smaller(a: nat, b: nat) -> nat {
    if a < b {
        a
    } else {
        b
    }
}

/// Takes what is buffered, as far as there is room for it.
pub open spec fn taken(m: RwModel, room: nat) -> (RwModel, Seq<u8>) {
    let n = smaller(room, m.buffered.len());
    (
        RwModel {
            pos: saturating_sum(m.pos, n as int),
            buffered: m.buffered.skip(n as int),
            ..m
        },
        m.buffered.take(n as int),
    )
}

/// What to do once the replies that are there have been looked at.
pub open spec fn turn(m: RwModel, call: IoCall) -> (RwModel, ActionView) {
    let reserve = RwModel { state: IoState::ReserveRequest, ..m };
    let idle = RwModel { state: IoState::Idle, ..m };
    match call {
        IoCall::Write => (reserve, ActionView::PollPermit),
        IoCall::Read(_) => if m.state == IoState::Read {
            (m, ActionView::PollData)
        } else {
            (reserve, ActionView::PollPermit)
        },
        _ => if m.state == IoState::ReserveRequest {
            (m, ActionView::PollPermit)
        } else if m.state == IoState::Idle {
            (reserve, if m.pending.len() == 0 {
                ActionView::PollPermit
            } else {
                ActionView::PollFront
            })
        } else if m.state == finishing(call) {
            if m.pending.len() == 0 {
                (idle, ActionView::Done)
            } else {
                (m, ActionView::Wait)
            }
        } else if call == IoCall::Flush && m.state == IoState::Shutdown {
            (m, ActionView::Fail(IoErrorView::InvalidInput("Flush after shutdown"@)))
        } else if m.pending.len() == 0 {
            (reserve, ActionView::PollPermit)
        } else {
            (idle, ActionView::PollFront)
        },
    }
}

/// The state while a flush or shutdown waits for its reply.
pub open spec fn finishing(call: IoCall) -> IoState {
    if call == IoCall::Flush {
        IoState::Flush
    } else {
        IoState::Shutdown
    }
}

/// Looks for replies to requests that wait, and goes on where there are none.
pub open spec fn clean_up(m: RwModel, call: IoCall) -> (RwModel, ActionView) {
    if m.pending.len() > 0 {
        (m, ActionView::PollFront)
    } else {
        turn(m, call)
    }
}

/// The request that a call makes, and the state once it is on its way.
pub open spec fn requested(m: RwModel, call: IoCall, buf: Seq<u8>) -> (RwModel, RequestView) {
    match call {
        IoCall::Write => {
            let n = smaller(buf.len(), VolumeIoRW::MAX_WRITE_SIZE as nat);
            (
                RwModel {
                    pos: saturating_sum(m.pos, n as int),
                    state: IoState::Idle,
                    pending: m.pending.push(Outstanding::Write),
                    ..m
                },
                RequestView::Write(buf.take(n as int), m.pos),
            )
        },
        IoCall::Flush => (
            RwModel { state: IoState::Flush, pending: m.pending.push(Outstanding::Flush), ..m },
            RequestView::Flush,
        ),
        IoCall::Shutdown => (
            RwModel {
                state: IoState::Shutdown,
                pending: m.pending.push(Outstanding::Shutdown),
                ..m
            },
            RequestView::Shutdown,
        ),
        IoCall::Read(room) => (
            RwModel { state: IoState::Read, ..m },
            RequestView::Read(room as u64, m.pos),
        ),
    }
}

/// How a call begins.
pub open spec fn begun(m: RwModel, target: VolumeTarget, call: IoCall) -> (RwModel, ActionView) {
    match call {
        IoCall::Write => if !target.writable {
            (m, ActionView::Fail(IoErrorView::Unsupported("Target doesn't support writing"@)))
        } else {
            clean_up(RwModel { buffered: Seq::empty(), ..m }, call)
        },
        IoCall::Read(room) => if !target.readable {
            (m, ActionView::Fail(IoErrorView::Unsupported("Target doesn't support reading"@)))
        } else if m.buffered.len() > 0 {
            let (after, data) = taken(m, room as nat);
            (after, ActionView::Data(data))
        } else {
            turn(m, call)
        },
        _ => clean_up(m, call),
    }
}

/// The state and the next action after an event of a call.
pub open spec fn next(
    m: RwModel,
    target: VolumeTarget,
    call: IoCall,
    buf: Seq<u8>,
    event: IoEvent,
) -> (RwModel, ActionView) {
    match event {
        IoEvent::Begin => begun(m, target, call),
        IoEvent::Front(None) => turn(m, call),
        IoEvent::Front(Some(reply)) => {
            let popped = RwModel { pending: m.pending.skip(1), ..m };
            match reply {
                Ok(_) => clean_up(popped, call),
                Err(status) => (
                    if call == IoCall::Write {
                        popped
                    } else {
                        RwModel { state: IoState::Idle, ..popped }
                    },
                    ActionView::Fail(IoErrorView::Remote(status.code, status.message@)),
                ),
            }
        },
        IoEvent::Permit(Permit::Pending) => (m, ActionView::Wait),
        IoEvent::Permit(Permit::Closed) => (m, ActionView::Fail(IoErrorView::NotConnected)),
        IoEvent::Permit(Permit::Granted) => {
            let (after, request) = requested(m, call, buf);
            (after, ActionView::Send(request))
        },
        IoEvent::Sent => match call {
            IoCall::Write => (
                m,
                ActionView::Written(smaller(buf.len(), VolumeIoRW::MAX_WRITE_SIZE as nat)),
            ),
            IoCall::Read(_) => turn(m, call),
            _ => clean_up(m, call),
        },
        IoEvent::Data(None) => (m, ActionView::Wait),
        IoEvent::Data(Some(Err(status))) => (
            RwModel { state: IoState::Idle, ..m },
            ActionView::Fail(IoErrorView::Remote(status.code, status.message@)),
        ),
        IoEvent::Data(Some(Ok(data))) => {
            let room = if let IoCall::Read(room) = call {
                room as nat
            } else {
                0
            };
            let (after, data) = taken(
                RwModel { state: IoState::Idle, buffered: data@, ..m },
                room,
            );
            (after, ActionView::Data(data))
        },
    }
}

/// Reads, writes and seeks in a volume's target.
#[derive(Debug)]
pub struct VolumeIoRW {
    info: VolumeTarget,
    pos: u64,
    state: IoState,
    pending_seek: Option<SeekFrom>,
    pending_requests: Vec<Outstanding>,
    buffered_read: Vec<u8>,
}

impl View for VolumeIoRW {
    type V = RwModel;

    closed spec fn view(&self) -> RwModel {
        RwModel {
            pos: self.pos,
            state: self.state,
            pending: self.pending_requests@,
            seek: self.pending_seek,
            buffered: self.buffered_read@,
        }
    }
}

impl VolumeIoRW {
    /// Limit of one write: 3 MB, to stay below the default maximum message size of 4 MB.
    pub const MAX_WRITE_SIZE: usize = 3145728;

    /// What the server says of the target.
    pub closed spec fn target(self) -> VolumeTarget {
        self.info
    }

    /// At the start of the target.
    pub fn new(info: VolumeTarget) -> (r: Self)
        ensures
            r.target() == info,
            r@ == (RwModel {
                pos: 0,
                state: IoState::Idle,
                pending: Seq::empty(),
                seek: None,
                buffered: Seq::empty(),
            }),
    {
        VolumeIoRW {
            info,
            pos: 0,
            state: IoState::Idle,
            pending_seek: None,
            pending_requests: Vec::new(),
            buffered_read: Vec::new(),
        }
    }

    /// Whether the target can be read.
    pub fn readable(&self) -> (r: bool)
        ensures
            r == self.target().readable,
    {
        self.info.readable
    }

    /// Whether the target can be written.
    pub fn writable(&self) -> (r: bool)
        ensures
            r == self.target().writable,
    {
        self.info.writable
    }

    /// Whether one can move about in the target.
    pub fn seekable(&self) -> (r: bool)
        ensures
            r == self.target().seekable,
    {
        self.info.seekable
    }

    /// The size of the blocks that the target is best written in.
    pub fn blocksize(&self) -> (r: Option<u32>)
        ensures
            r == self.target().blocksize,
    {
        self.info.blocksize
    }

    /// The size of the target.
    pub fn size(&self) -> (r: Option<u64>)
        ensures
            r == self.target().size,
    {
        self.info.size
    }

    /// The oldest request whose reply is outstanding.
    pub fn front(&self) -> (r: Option<Outstanding>)
        ensures
            r == if self@.pending.len() > 0 {
                Some(self@.pending[0])
            } else {
                None
            },
    {
        if self.pending_requests.len() > 0 {
            Some(self.pending_requests[0])
        } else {
            None
        }
    }

    /// Hands out what is buffered, as far as there is room for it.
    fn copy_buffered_read(&mut self, room: usize) -> (r: Vec<u8>)
        ensures
            final(self).target() == old(self).target(),
            (final(self)@, r@) == taken(old(self)@, room as nat),
    {
        let available: usize = if room < self.buffered_read.len() {
            room
        } else {
            self.buffered_read.len()
        };
        let ghost before = self.buffered_read@;
        let rest = self.buffered_read.split_off(available);
        let mut data: Vec<u8> = rest;
        std::mem::swap(&mut self.buffered_read, &mut data);
        self.pos = self.pos.saturating_add(available as u64);
        proof {
            assert(data@ =~= before.take(available as int));
            assert(self.buffered_read@ =~= before.skip(available as int));
            assert(self@ =~= taken(old(self)@, room as nat).0);
        }
        data
    }

    fn turn(&mut self, call: IoCall) -> (r: IoAction)
        ensures
            final(self).target() == old(self).target(),
            (final(self)@, r@) == turn(old(self)@, call),
    {
        match call {
            IoCall::Write => {
                self.state = IoState::ReserveRequest;
                IoAction::PollPermit
            },
            IoCall::Read(_) => {
                if self.state == IoState::Read {
                    IoAction::PollData
                } else {
                    self.state = IoState::ReserveRequest;
                    IoAction::PollPermit
                }
            },
            _ => {
                let finishing = if call == IoCall::Flush {
                    IoState::Flush
                } else {
                    IoState::Shutdown
                };
                if self.state == IoState::ReserveRequest {
                    IoAction::PollPermit
                } else if self.state == IoState::Idle {
                    self.state = IoState::ReserveRequest;
                    if self.pending_requests.len() == 0 {
                        IoAction::PollPermit
                    } else {
                        IoAction::PollFront
                    }
                } else if self.state == finishing {
                    // Done once all requests have been pushed through.
                    if self.pending_requests.len() == 0 {
                        self.state = IoState::Idle;
                        IoAction::Done
                    } else {
                        IoAction::Wait
                    }
                } else if call == IoCall::Flush && self.state == IoState::Shutdown {
                    IoAction::Fail(IoError::InvalidInput("Flush after shutdown".to_owned()))
                } else if self.pending_requests.len() == 0 {
                    self.state = IoState::ReserveRequest;
                    IoAction::PollPermit
                } else {
                    // Drop the operation of another kind.
                    self.state = IoState::Idle;
                    IoAction::PollFront
                }
            },
        }
    }

    fn clean_up(&mut self, call: IoCall) -> (r: IoAction)
        ensures
            final(self).target() == old(self).target(),
            (final(self)@, r@) == clean_up(old(self)@, call),
    {
        if self.pending_requests.len() > 0 {
            IoAction::PollFront
        } else {
            self.turn(call)
        }
    }

    fn begin(&mut self, call: IoCall) -> (r: IoAction)
        ensures
            final(self).target() == old(self).target(),
            (final(self)@, r@) == begun(old(self)@, old(self).target(), call),
    {
        match call {
            IoCall::Write => {
                if !self.writable() {
                    return IoAction::Fail(
                        IoError::Unsupported("Target doesn't support writing".to_owned()),
                    );
                }
                self.buffered_read.clear();
                assert(self@ =~= RwModel { buffered: Seq::empty(), ..old(self)@ });
                self.clean_up(call)
            },
            IoCall::Read(room) => {
                if !self.readable() {
                    return IoAction::Fail(
                        IoError::Unsupported("Target doesn't support reading".to_owned()),
                    );
                }
                if self.buffered_read.len() > 0 {
                    return IoAction::Data(self.copy_buffered_read(room));
                }
                self.turn(call)
            },
            _ => self.clean_up(call),
        }
    }

    fn request(&mut self, call: IoCall, buf: &[u8]) -> (r: VolumeIoRequest)
        ensures
            final(self).target() == old(self).target(),
            (final(self)@, r@) == requested(old(self)@, call, buf@),
    {
        match call {
            IoCall::Write => {
                let len: usize = if buf.len() < VolumeIoRW::MAX_WRITE_SIZE {
                    buf.len()
                } else {
                    VolumeIoRW::MAX_WRITE_SIZE
                };
                let data = vstd::slice::slice_to_vec(vstd::slice::slice_subrange(buf, 0, len));
                let r = VolumeIoRequest::Write(data, self.pos);
                self.pending_requests.push(Outstanding::Write);
                self.pos = self.pos.saturating_add(len as u64);
                self.state = IoState::Idle;
                r
            },
            IoCall::Flush => {
                self.pending_requests.push(Outstanding::Flush);
                self.state = IoState::Flush;
                VolumeIoRequest::Flush
            },
            IoCall::Shutdown => {
                self.pending_requests.push(Outstanding::Shutdown);
                self.state = IoState::Shutdown;
                VolumeIoRequest::Shutdown
            },
            IoCall::Read(room) => {
                self.state = IoState::Read;
                VolumeIoRequest::Read(room as u64, self.pos)
            },
        }
    }

    /// Takes one step of a call: from what came of the last action to the next one. A call
    /// begins with [`IoEvent::Begin`] and ends with an action that is a result.
    pub fn step(&mut self, call: IoCall, buf: &[u8], event: IoEvent) -> (r: IoAction)
        requires
            event is Front ==> old(self)@.pending.len() > 0,
        ensures
            final(self).target() == old(self).target(),
            (final(self)@, r@) == next(old(self)@, old(self).target(), call, buf@, event),
    {
        match event {
            IoEvent::Begin => self.begin(call),
            IoEvent::Front(None) => self.turn(call),
            IoEvent::Front(Some(reply)) => {
                self.pending_requests.remove(0);
                assert(self.pending_requests@ =~= old(self).pending_requests@.skip(1));
                match reply {
                    Ok(_) => self.clean_up(call),
                    Err(status) => {
                        match call {
                            IoCall::Write => {},
                            _ => {
                                self.state = IoState::Idle;
                            },
                        }
                        IoAction::Fail(IoError::Remote(status))
                    },
                }
            },
            IoEvent::Permit(Permit::Pending) => IoAction::Wait,
            IoEvent::Permit(Permit::Closed) => IoAction::Fail(IoError::NotConnected),
            IoEvent::Permit(Permit::Granted) => IoAction::Send(self.request(call, buf)),
            IoEvent::Sent => match call {
                // Failures of the write come out with later calls.
                IoCall::Write => {
                    let len: usize = if buf.len() < VolumeIoRW::MAX_WRITE_SIZE {
                        buf.len()
                    } else {
                        VolumeIoRW::MAX_WRITE_SIZE
                    };
                    IoAction::Written(len)
                },
                IoCall::Read(_) => self.turn(call),
                _ => self.clean_up(call),
            },
            IoEvent::Data(None) => IoAction::Wait,
            IoEvent::Data(Some(Err(status))) => {
                self.state = IoState::Idle;
                IoAction::Fail(IoError::Remote(status))
            },
            IoEvent::Data(Some(Ok(data))) => {
                self.state = IoState::Idle;
                self.buffered_read = data;
                let room: usize = match call {
                    IoCall::Read(room) => room,
                    _ => 0,
                };
                IoAction::Data(self.copy_buffered_read(room))
            },
        }
    }

    /// Asks to move to another position.
    pub fn start_seek(&mut self, position: SeekFrom) -> (r: Result<(), IoError>)
        ensures
            final(self).target() == old(self).target(),
            if old(self).target().seekable {
                r is Ok && final(self)@ == (RwModel { seek: Some(position), ..old(self)@ })
            } else {
                &&& r is Err
                &&& r->Err_0@ == IoErrorView::Unsupported("Target doesn't support seek"@)
                &&& final(self)@ == old(self)@
            },
    {
        if self.seekable() {
            self.pending_seek = Some(position);
            Ok(())
        } else {
            Err(IoError::Unsupported("Target doesn't support seek".to_owned()))
        }
    }

    /// Moves to the position that was asked for and tells where that is.
    pub fn poll_complete(&mut self) -> (r: Result<u64, IoError>)
        ensures
            final(self).target() == old(self).target(),
            ({
                let m = old(self)@;
                let target = old(self).target();
                if !target.seekable {
                    &&& r is Err
                    &&& r->Err_0@ == IoErrorView::Unsupported("Target doesn't support seek"@)
                    &&& final(self)@ == m
                } else {
                    match sought(m.pos, target.size, m.seek) {
                        Some(pos) => {
                            &&& r == Ok::<u64, IoError>(pos)
                            &&& final(self)@ == (RwModel { pos, seek: None, ..m })
                        },
                        None => {
                            &&& r is Err
                            &&& r->Err_0@ == IoErrorView::Unsupported(
                                "Target has no known size"@,
                            )
                            &&& final(self)@ == (RwModel { seek: None, ..m })
                        },
                    }
                }
            }),
    {
        if !self.seekable() {
            return Err(IoError::Unsupported("Target doesn't support seek".to_owned()));
        }
        let pending = self.pending_seek;
        self.pending_seek = None;
        if let Some(position) = pending {
            let (base, offset): (u64, i64) = match position {
                SeekFrom::Start(s) => (s, 0),
                SeekFrom::End(e) => match self.info.size {
                    Some(size) => (size, e),
                    None => {
                        return Err(IoError::Unsupported("Target has no known size".to_owned()));
                    },
                },
                SeekFrom::Current(offset) => (self.pos, offset),
            };
            if offset > 0 {
                self.pos = base.saturating_add(offset as u64);
            } else {
                let back: u64 = (0 - offset as i128) as u64;
                self.pos = base.saturating_sub(back);
            }
        }
        Ok(self.pos)
    }
}

/// The position that a seek leads to: at least zero, at most the largest number. A seek from
/// the end of a target of unknown size leads nowhere.
pub open spec fn sought(pos: u64, size: Option<u64>, seek: Option<SeekFrom>) -> Option<u64> {
    match seek {
        None => Some(pos),
        Some(SeekFrom::Start(s)) => Some(s),
        Some(SeekFrom::Current(offset)) => Some(saturating_sum(pos, offset as int)),
        Some(SeekFrom::End(offset)) => match size {
            Some(size) => Some(saturating_sum(size, offset as int)),
            None => None,
        },
    }
}

/// A write sends the head of the buffer to the position, as much as one request may hold, and
/// moves the position behind it. The caller is told that much.
pub proof fn law_writes_are_contiguous(m: RwModel, target: VolumeTarget, buf: Seq<u8>)
    requires
        m.pos + buf.len() <= u64::MAX,
    ensures
        ({
            let (sent, action) = next(
                m,
                target,
                IoCall::Write,
                buf,
                IoEvent::Permit(Permit::Granted),
            );
            let (after, result) = next(sent, target, IoCall::Write, buf, IoEvent::Sent);
            let n = (sent.pos - m.pos) as nat;
            &&& n <= VolumeIoRW::MAX_WRITE_SIZE
            &&& buf.len() > 0 ==> n > 0
            &&& action == ActionView::Send(RequestView::Write(buf.take(n as int), m.pos))
            &&& result == ActionView::Written(n)
            &&& after.pos == m.pos + n
        }),
{
}

/// A flush or shutdown is done only once every request has been answered.
pub proof fn law_done_means_answered(
    m: RwModel,
    target: VolumeTarget,
    call: IoCall,
    buf: Seq<u8>,
    event: IoEvent,
)
    ensures
        next(m, target, call, buf, event).1 == ActionView::Done ==> {
            &&& call == IoCall::Flush || call == IoCall::Shutdown
            &&& next(m, target, call, buf, event).0.pending.len() == 0
        },
{
}

/// Replies are taken in the order of the requests: the requests that wait only ever lose their
/// oldest and gain a youngest.
pub proof fn law_requests_are_a_queue(
    m: RwModel,
    target: VolumeTarget,
    call: IoCall,
    buf: Seq<u8>,
    event: IoEvent,
)
    ensures
        ({
            let after = next(m, target, call, buf, event).0.pending;
            ||| after == m.pending
            ||| after == m.pending.skip(1)
            ||| exists|o: Outstanding| after == #[trigger] m.pending.push(o)
        }),
{
}

/// Neither a flush nor a shutdown moves the position or touches data that was read ahead.
pub proof fn law_flush_keeps_position(
    m: RwModel,
    target: VolumeTarget,
    call: IoCall,
    buf: Seq<u8>,
    event: IoEvent,
)
    requires
        call == IoCall::Flush || call == IoCall::Shutdown,
        !(event is Data),
    ensures
        next(m, target, call, buf, event).0.pos == m.pos,
        next(m, target, call, buf, event).0.buffered == m.buffered,
{
}

/// Reading twice gives what reading once with the room of both gives.
pub proof fn law_reads_are_contiguous(m: RwModel, a: nat, b: nat)
    requires
        m.pos + m.buffered.len() <= u64::MAX,
    ensures
        ({
            let (first, x) = taken(m, a);
            let (second, y) = taken(first, b);
            let (once, z) = taken(m, a + b);
            &&& x + y == z
            &&& second == once
            &&& second.pos == m.pos + z.len()
        }),
{
    let (first, x) = taken(m, a);
    let (second, y) = taken(first, b);
    let (once, z) = taken(m, a + b);
    assert(x + y =~= z);
    assert(second =~= once);
}

/// A write throws away what was read ahead, so the next read asks the server again.
pub proof fn law_write_drops_read_ahead(m: RwModel, target: VolumeTarget, buf: Seq<u8>)
    requires
        target.writable,
    ensures
        next(m, target, IoCall::Write, buf, IoEvent::Begin).0.buffered.len() == 0,
        next(m, target, IoCall::Write, buf, IoEvent::Begin).0.pos == m.pos,
{
}

/// Seeking to a position from the start leads there, and from there back and forth by the
/// same distance leads back.
pub proof fn law_seek_round_trip(pos: u64, size: Option<u64>, there: u64, by: i64)
    requires
        0 <= there + by <= u64::MAX,
        by > i64::MIN,
    ensures
        sought(pos, size, Some(SeekFrom::Start(there))) == Some(there),
        sought(
            sought(there, size, Some(SeekFrom::Current(by)))->0,
            size,
            Some(SeekFrom::Current((-by) as i64)),
        ) == Some(there),
{
}

/// A read asks the server for as many bytes as the caller has room for, at the position, and
/// leaves the position and all that is under way as it is. The data decides how far it moves.
pub proof fn law_read_asks_at_position(
    m: RwModel,
    target: VolumeTarget,
    room: usize,
    buf: Seq<u8>,
)
    ensures
        ({
            let (after, action) = next(
                m,
                target,
                IoCall::Read(room),
                buf,
                IoEvent::Permit(Permit::Granted),
            );
            &&& action == ActionView::Send(RequestView::Read(room as u64, m.pos))
            &&& after.pos == m.pos
            &&& after.pending == m.pending
            &&& after.buffered == m.buffered
            &&& next(after, target, IoCall::Read(room), buf, IoEvent::Sent) == (
                after,
                ActionView::PollData,
            )
        }),
{
}

/// A read hands the bytes that came out in their order, as many as there is room for. The others
/// are kept for the next read, and the position is behind those that were handed out.
pub proof fn law_read_hands_out_in_order(
    m: RwModel,
    target: VolumeTarget,
    room: usize,
    buf: Seq<u8>,
    data: Vec<u8>,
)
    requires
        m.pos + data@.len() <= u64::MAX,
        m.pos + m.buffered.len() <= u64::MAX,
    ensures
        ({
            let (after, action) = next(
                m,
                target,
                IoCall::Read(room),
                buf,
                IoEvent::Data(Some(Ok(data))),
            );
            let out = action->Data_0;
            &&& action is Data
            &&& out + after.buffered == data@
            &&& out.len() == room || (out.len() < room && after.buffered.len() == 0)
            &&& after.pos == m.pos + out.len()
            &&& after.pending == m.pending
        }),
        target.readable && m.buffered.len() > 0 ==> ({
            let (after, action) = next(m, target, IoCall::Read(room), buf, IoEvent::Begin);
            let out = action->Data_0;
            &&& action is Data
            &&& out + after.buffered == m.buffered
            &&& out.len() == room || (out.len() < room && after.buffered.len() == 0)
            &&& after.pos == m.pos + out.len()
            &&& after.pending == m.pending
        }),
{
    let (after, out) = taken(RwModel { state: IoState::Idle, buffered: data@, ..m }, room as nat);
    assert(out + after.buffered =~= data@);
    let (after, out) = taken(m, room as nat);
    assert(out + after.buffered =~= m.buffered);
}

/// Reads go on where the one before stopped: what is asked for next lies right behind all that
/// was handed out.
pub proof fn law_next_read_goes_on(
    m: RwModel,
    target: VolumeTarget,
    room: usize,
    more: usize,
    buf: Seq<u8>,
    data: Vec<u8>,
)
    requires
        m.pos + data@.len() <= u64::MAX,
        data@.len() <= room,
    ensures
        ({
            let after = next(
                m,
                target,
                IoCall::Read(room),
                buf,
                IoEvent::Data(Some(Ok(data))),
            ).0;
            next(
                after,
                target,
                IoCall::Read(more),
                buf,
                IoEvent::Permit(Permit::Granted),
            ).1 == ActionView::Send(
                RequestView::Read(more as u64, (m.pos + data@.len()) as u64),
            )
        }),
{
}

/// A write sends all of its bytes where that is no more than three megabytes, and exactly three
/// megabytes otherwise; a request more is then waited for.
pub proof fn law_write_sends_what_it_can(m: RwModel, target: VolumeTarget, buf: Seq<u8>)
    requires
        m.pos + buf.len() <= u64::MAX,
    ensures
        ({
            let (after, action) = next(
                m,
                target,
                IoCall::Write,
                buf,
                IoEvent::Permit(Permit::Granted),
            );
            let n = if buf.len() <= 3 * 1024 * 1024 {
                buf.len() as int
            } else {
                3 * 1024 * 1024int
            };
            &&& action == ActionView::Send(RequestView::Write(buf.subrange(0, n), m.pos))
            &&& after.pos == m.pos + n
            &&& after.pending.len() == m.pending.len() + 1
            &&& after.pending.last() == Outstanding::Write
            &&& after.buffered == m.buffered
        }),
{
}

/// A target that cannot be written or read is asked for nothing, and nothing changes.
pub proof fn law_unsupported_calls_fail(
    m: RwModel,
    target: VolumeTarget,
    room: usize,
    buf: Seq<u8>,
)
    ensures
        !target.writable ==> next(m, target, IoCall::Write, buf, IoEvent::Begin) == (
            m,
            ActionView::Fail(IoErrorView::Unsupported("Target doesn't support writing"@)),
        ),
        target.writable ==> !(next(m, target, IoCall::Write, buf, IoEvent::Begin).1 is Fail),
        !target.readable ==> next(m, target, IoCall::Read(room), buf, IoEvent::Begin) == (
            m,
            ActionView::Fail(IoErrorView::Unsupported("Target doesn't support reading"@)),
        ),
        target.readable ==> !(next(m, target, IoCall::Read(room), buf, IoEvent::Begin).1 is Fail),
{
}

/// What the server says of a request that failed is told to whoever calls next, and a connection
/// that is gone fails every call. While there is no room to send, a call waits and nothing changes.
pub proof fn law_failures_are_told(
    m: RwModel,
    target: VolumeTarget,
    call: IoCall,
    buf: Seq<u8>,
    status: Status,
)
    ensures
        ({
            let (after, action) = next(m, target, call, buf, IoEvent::Front(Some(Err(status))));
            &&& action == ActionView::Fail(IoErrorView::Remote(status.code, status.message@))
            &&& after.pos == m.pos
            &&& after.pending == m.pending.skip(1)
        }),
        ({
            let (after, action) = next(m, target, call, buf, IoEvent::Data(Some(Err(status))));
            &&& action == ActionView::Fail(IoErrorView::Remote(status.code, status.message@))
            &&& after.pos == m.pos
            &&& after.pending == m.pending
        }),
        next(m, target, call, buf, IoEvent::Permit(Permit::Closed)) == (
            m,
            ActionView::Fail(IoErrorView::NotConnected),
        ),
        next(m, target, call, buf, IoEvent::Permit(Permit::Pending)) == (m, ActionView::Wait),
        next(m, target, call, buf, IoEvent::Data(None)) == (m, ActionView::Wait),
{
}

/// A flush or shutdown of a reader and writer that has nothing under way sends its request once
/// and is done with the reply to that, neither earlier nor later.
pub proof fn law_flush_runs_once(
    m: RwModel,
    target: VolumeTarget,
    call: IoCall,
    buf: Seq<u8>,
)
    requires
        call == IoCall::Flush || call == IoCall::Shutdown,
        m.state == IoState::Idle,
        m.pending.len() == 0,
    ensures
        ({
            let (asked, first) = next(m, target, call, buf, IoEvent::Begin);
            let (sent, second) = next(
                asked,
                target,
                call,
                buf,
                IoEvent::Permit(Permit::Granted),
            );
            let (waiting, third) = next(sent, target, call, buf, IoEvent::Sent);
            let (still, fourth) = next(waiting, target, call, buf, IoEvent::Front(None));
            let (done, last) = next(still, target, call, buf, IoEvent::Front(Some(Ok(()))));
            &&& first == ActionView::PollPermit
            &&& second == ActionView::Send(
                if call == IoCall::Flush {
                    RequestView::Flush
                } else {
                    RequestView::Shutdown
                },
            )
            &&& sent.pending.len() == 1
            &&& sent.pending[0] == if call == IoCall::Flush {
                Outstanding::Flush
            } else {
                Outstanding::Shutdown
            }
            &&& third == ActionView::PollFront
            &&& fourth == ActionView::Wait
            &&& last == ActionView::Done
            &&& done == m
        }),
{
    let asked = next(m, target, call, buf, IoEvent::Begin).0;
    let sent = next(asked, target, call, buf, IoEvent::Permit(Permit::Granted)).0;
    assert(sent.pending.skip(1) =~= m.pending);
    let waiting = next(sent, target, call, buf, IoEvent::Sent).0;
    let still = next(waiting, target, call, buf, IoEvent::Front(None)).0;
    let done = next(still, target, call, buf, IoEvent::Front(Some(Ok(())))).0;
    assert(done =~= m);
}

/// Requests that wait are looked at before a flush or shutdown goes on, and each reply takes the
/// oldest of them away.
pub proof fn law_flush_waits_for_writes(
    m: RwModel,
    target: VolumeTarget,
    call: IoCall,
    buf: Seq<u8>,
)
    requires
        call == IoCall::Flush || call == IoCall::Shutdown,
        m.pending.len() > 1,
    ensures
        next(m, target, call, buf, IoEvent::Begin) == (m, ActionView::PollFront),
        ({
            let (after, action) = next(m, target, call, buf, IoEvent::Front(Some(Ok(()))));
            &&& action == ActionView::PollFront
            &&& after.pending.len() == m.pending.len() - 1
            &&& forall|i: int|
                0 <= i < after.pending.len() ==> (#[trigger] after.pending[i]) == m.pending[i + 1]
        }),
        forall|event: IoEvent|
            event is Front ==> (#[trigger] next(m, target, call, buf, event)).1
                != ActionView::Done,
{
    assert forall|event: IoEvent| event is Front implies (#[trigger] next(
        m,
        target,
        call,
        buf,
        event,
    )).1 != ActionView::Done by {
        law_done_means_answered(m, target, call, buf, event);
        assert(m.pending.skip(1).len() > 0);
    }
}

/// A request joins those that wait exactly when it is sent and is no read, and the oldest leaves
/// them exactly when its reply is there.
pub proof fn law_only_replies_answer(
    m: RwModel,
    target: VolumeTarget,
    call: IoCall,
    buf: Seq<u8>,
    event: IoEvent,
)
    requires
        event is Front ==> m.pending.len() > 0,
    ensures
        ({
            let (after, action) = next(m, target, call, buf, event);
            &&& after.pending.len() - m.pending.len() == if event matches IoEvent::Front(Some(_)) {
                -1int
            } else if action is Send && !(call is Read) {
                1int
            } else {
                0int
            }
            &&& action is Send <==> event == IoEvent::Permit(Permit::Granted)
            &&& after.seek == m.seek
            &&& after.pos != m.pos ==> {
                ||| action matches ActionView::Send(RequestView::Write(_, _))
                ||| action is Data
            }
        }),
{
}

/// A seek leads to the place that is asked for where there is such a place, and otherwise to the
/// nearest that there is. A seek that was not asked for leads nowhere else.
pub proof fn law_seek_lands(pos: u64, size: u64, unknown: Option<u64>, by: i64, there: u64)
    ensures
        sought(pos, unknown, None) == Some(pos),
        sought(pos, unknown, Some(SeekFrom::Start(there))) == Some(there),
        sought(pos, None, Some(SeekFrom::End(by))) is None,
        ({
            let landed = sought(pos, unknown, Some(SeekFrom::Current(by)));
            &&& landed is Some
            &&& 0 <= pos + by <= u64::MAX ==> landed->0 == pos + by
            &&& pos + by < 0 ==> landed->0 == 0
            &&& pos + by > u64::MAX ==> landed->0 == u64::MAX
        }),
        ({
            let landed = sought(pos, Some(size), Some(SeekFrom::End(by)));
            &&& landed is Some
            &&& 0 <= size + by <= u64::MAX ==> landed->0 == size + by
            &&& size + by < 0 ==> landed->0 == 0
            &&& size + by > u64::MAX ==> landed->0 == u64::MAX
        }),
{
}

/// A reply is one to the kind of request that it names, and to no other. That a target was opened
/// answers no request.
pub proof fn law_replies_answer_their_kind(
    request: Outstanding,
    data: Vec<u8>,
    n: u64,
    target: Option<VolumeTarget>,
)
    ensures
        answers(request, VolumeIoReply::Read(data)) <==> request == Outstanding::Read,
        answers(request, VolumeIoReply::Write(n)) <==> request == Outstanding::Write,
        answers(request, VolumeIoReply::Flush) <==> request == Outstanding::Flush,
        answers(request, VolumeIoReply::Shutdown) <==> request == Outstanding::Shutdown,
        !answers(request, VolumeIoReply::Target(target)),
{
}

/// A write looks at the replies that are there and then goes on, without waiting for the others.
pub proof fn law_write_does_not_wait(m: RwModel, target: VolumeTarget, buf: Seq<u8>)
    requires
        target.writable,
    ensures
        next(m, target, IoCall::Write, buf, IoEvent::Begin).1 == if m.pending.len() > 0 {
            ActionView::PollFront
        } else {
            ActionView::PollPermit
        },
        m.pending.len() > 0 ==> {
            &&& next(m, target, IoCall::Write, buf, IoEvent::Front(None)).1
                == ActionView::PollPermit
            &&& next(m, target, IoCall::Write, buf, IoEvent::Front(Some(Ok(())))).1
                == if m.pending.len() > 1 {
                ActionView::PollFront
            } else {
                ActionView::PollPermit
            }
        },
{
}

/// Data that was asked for is waited for and not asked for again, and data that is there is not
/// asked for at all.
pub proof fn law_read_asks_once(m: RwModel, target: VolumeTarget, room: usize, buf: Seq<u8>)
    requires
        target.readable,
    ensures
        next(m, target, IoCall::Read(room), buf, IoEvent::Begin).1 is PollData <==> m.buffered.len()
            == 0 && m.state == IoState::Read,
        next(m, target, IoCall::Read(room), buf, IoEvent::Begin).1 is PollPermit
            <==> m.buffered.len() == 0 && m.state != IoState::Read,
        next(
            next(m, target, IoCall::Read(room), buf, IoEvent::Permit(Permit::Granted)).0,
            target,
            IoCall::Read(room),
            buf,
            IoEvent::Data(None),
        ).1 == ActionView::Wait,
        next(m, target, IoCall::Read(room), buf, IoEvent::Permit(Permit::Granted)).0.state
            == IoState::Read,
{
}

} // verus!
