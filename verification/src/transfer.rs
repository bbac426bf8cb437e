//! The two per-transfer protocol state machines.
//!
//! A machine owns no file and no socket. It is told what happened (the file
//! was opened, a chunk was read, a frame arrived, the wait timed out) and
//! answers with what to do next; whoever drives it performs that and reports
//! back. One block is in flight at a time.

use crate::packet::{bare_error, error_frame, Frame, Packet, DISK_FULL, FILE_NOT_FOUND, SEE_MSG};
use vstd::prelude::*;

verus! {

/// How often a frame is sent again after a silent wait before the transfer
/// is given up.
pub const MAX_RETRIES: u8 = 5;

/// The text sent to a peer whose file could not be created.
pub open spec fn create_failure_text() -> Seq<char> {
    "There was an error creating/accessing the file"@
}

/// Where a read transfer stands.
#[derive(Debug, PartialEq, Eq, Structural, Clone, Copy)]
pub enum ReadPhase {
    /// Nothing has happened yet; the file is about to be opened.
    Idle,
    /// The next chunk of the file is wanted.
    SendingBlock,
    /// A data block is out and its acknowledgment is awaited.
    AwaitingAck,
    /// The last block was acknowledged.
    Done,
    /// The transfer was given up.
    Aborted,
}

/// What a read transfer is told.
#[derive(Debug)]
pub enum ReadEvent {
    /// The file was opened, or could not be.
    Opened { ok: bool },
    /// The next chunk of the file: the first `len` bytes of `data`, fewer
    /// than 512 only at the end of the file.
    Chunk { data: [u8; 512], len: usize },
    /// A frame arrived from the peer.
    Frame(Packet),
    /// Nothing arrived in time.
    Timeout,
    /// Reading the file failed.
    Failure,
}

/// What a read transfer asks for.
#[derive(Debug)]
pub enum ReadAction {
    /// Read the next chunk of up to 512 bytes and report it.
    Read,
    /// Send this frame to the peer.
    Send(Packet),
    /// Do nothing.
    Nothing,
}

/// A read transfer's state as a mathematical value.
pub struct ReadState {
    pub phase: ReadPhase,
    /// The number of the block that is being read or is in flight.
    pub block: u16,
    /// The payload of the block in flight.
    pub payload: Seq<u8>,
    /// How often the block in flight was sent again.
    pub retries: int,
}

/// A read transfer's event as a mathematical value.
pub enum ReadInput {
    Opened { ok: bool },
    Chunk { payload: Seq<u8> },
    Frame(Frame),
    Timeout,
    Failure,
}

/// What a transfer asks for, as a mathematical value.
pub enum Output {
    /// Read the next chunk.
    Read,
    /// Send a frame.
    Send(Frame),
    /// Append a payload to the file, then acknowledge the block.
    Store { block: u16, payload: Seq<u8> },
    /// Do nothing.
    Nothing,
}

impl ReadEvent {
    /// Whether the event is well formed: a chunk or a data frame holds at
    /// most 512 bytes.
    pub open spec fn wf(&self) -> bool {
        match *self {
            ReadEvent::Chunk { len, .. } => len <= 512,
            ReadEvent::Frame(p) => p.wf(),
            _ => true,
        }
    }
}

impl View for ReadEvent {
    type V = ReadInput;

    open spec fn view(&self) -> ReadInput {
        match *self {
            ReadEvent::Opened { ok } => ReadInput::Opened { ok },
            ReadEvent::Chunk { data, len } => ReadInput::Chunk { payload: data@.take(len as int) },
            ReadEvent::Frame(p) => ReadInput::Frame(p@),
            ReadEvent::Timeout => ReadInput::Timeout,
            ReadEvent::Failure => ReadInput::Failure,
        }
    }
}

impl ReadAction {
    /// Whether a frame to send can be encoded.
    pub open spec fn wf(&self) -> bool {
        match *self {
            ReadAction::Send(p) => p.wf(),
            _ => true,
        }
    }
}

impl View for ReadAction {
    type V = Output;

    open spec fn view(&self) -> Output {
        match *self {
            ReadAction::Read => Output::Read,
            ReadAction::Send(p) => Output::Send(p@),
            ReadAction::Nothing => Output::Nothing,
        }
    }
}

/// The state of a read transfer before anything happened.
pub open spec fn read_start() -> ReadState {
    ReadState { phase: ReadPhase::Idle, block: 0, payload: Seq::<u8>::empty(), retries: 0 }
}

/// The same state in phase `Aborted`.
pub open spec fn read_aborted(s: ReadState) -> ReadState {
    ReadState { phase: ReadPhase::Aborted, ..s }
}

/// One step of a read transfer: the next state and what is asked for.
///
/// Once the file is open, block 1 is wanted; where it cannot be opened the
/// peer is told "file not found" and the transfer is over. Each chunk read
/// goes out as the current block. The acknowledgment of that block ends the
/// transfer if the block was short, and else asks for the chunk of the next
/// block; behind block 65535 there is no next one and the transfer is given
/// up. Any other acknowledgment, a data frame and a request are passed over.
/// An error frame from the peer ends the transfer without a reply. After a
/// silent wait the block goes out again, `MAX_RETRIES` times at most. A
/// failure to read the file is reported to the peer and ends the transfer.
/// An event that the phase does not expect changes nothing and asks for
/// nothing.
pub open spec fn read_step(s: ReadState, input: ReadInput) -> (ReadState, Output) {
    match (s.phase, input) {
        (ReadPhase::Idle, ReadInput::Opened { ok }) => if ok {
            (ReadState { phase: ReadPhase::SendingBlock, block: 1, ..s }, Output::Read)
        } else {
            (read_aborted(s), Output::Send(bare_error(FILE_NOT_FOUND)))
        },
        (ReadPhase::SendingBlock, ReadInput::Chunk { payload }) => (
            ReadState { phase: ReadPhase::AwaitingAck, block: s.block, payload, retries: 0 },
            Output::Send(Frame::Data { block: s.block, payload }),
        ),
        (ReadPhase::AwaitingAck, ReadInput::Frame(Frame::Ack { block })) => if block != s.block {
            (s, Output::Nothing)
        } else if s.payload.len() < 512 {
            (ReadState { phase: ReadPhase::Done, ..s }, Output::Nothing)
        } else if s.block == u16::MAX {
            (read_aborted(s), Output::Send(bare_error(SEE_MSG)))
        } else {
            (
                ReadState { phase: ReadPhase::SendingBlock, block: (s.block + 1) as u16, ..s },
                Output::Read,
            )
        },
        (ReadPhase::AwaitingAck, ReadInput::Frame(Frame::Error { .. })) => (
            read_aborted(s),
            Output::Nothing,
        ),
        (ReadPhase::AwaitingAck, ReadInput::Timeout) => if s.retries < MAX_RETRIES {
            (
                ReadState { retries: s.retries + 1, ..s },
                Output::Send(Frame::Data { block: s.block, payload: s.payload }),
            )
        } else {
            (read_aborted(s), Output::Nothing)
        },
        (ReadPhase::SendingBlock, ReadInput::Failure) | (
            ReadPhase::AwaitingAck,
            ReadInput::Failure,
        ) => (read_aborted(s), Output::Send(bare_error(SEE_MSG))),
        _ => (s, Output::Nothing),
    }
}

/// The state machine of one read transfer: the server sends a file to the
/// peer, block by block, each block only after the one before it was
/// acknowledged.
#[derive(Debug)]
pub struct ReadTransfer {
    phase: ReadPhase,
    block: u16,
    data: [u8; 512],
    len: usize,
    retries: u8,
}

impl View for ReadTransfer {
    type V = ReadState;

    closed spec fn view(&self) -> ReadState {
        ReadState {
            phase: self.phase,
            block: self.block,
            payload: self.data@.take(self.len as int),
            retries: self.retries as int,
        }
    }
}

impl ReadTransfer {
    /// Whether the state is consistent: the block in flight has at most 512
    /// bytes, and the retries are within their bound.
    pub closed spec fn wf(&self) -> bool {
        self.len <= 512 && self.retries <= MAX_RETRIES
    }

    /// A transfer on which nothing has happened yet.
    pub fn new() -> (t: Self)
        ensures
            t.wf(),
            t@ == read_start(),
    {
        let t = ReadTransfer {
            phase: ReadPhase::Idle,
            block: 0,
            data: [0u8; 512],
            len: 0,
            retries: 0,
        };
        assert(t.data@.take(0) =~= Seq::<u8>::empty());
        t
    }

    /// The phase the transfer is in.
    pub fn phase(&self) -> (p: ReadPhase)
        ensures
            p == self@.phase,
    {
        self.phase
    }

    /// The number of the block that is being read or is in flight.
    pub fn block(&self) -> (b: u16)
        ensures
            b == self@.block,
    {
        self.block
    }

    /// Whether the transfer has ended, by completion or by abort.
    pub fn is_over(&self) -> (over: bool)
        ensures
            over == (self@.phase == ReadPhase::Done || self@.phase == ReadPhase::Aborted),
    {
        match self.phase {
            ReadPhase::Done => true,
            ReadPhase::Aborted => true,
            _ => false,
        }
    }

    /// Takes one event and says what to do next, as `read_step` lays down.
    pub fn step(&mut self, event: ReadEvent) -> (action: ReadAction)
        requires
            old(self).wf(),
            event.wf(),
        ensures
            final(self).wf(),
            action.wf(),
            (final(self)@, action@) == read_step(old(self)@, event@),
    {
        match (self.phase, event) {
            (ReadPhase::Idle, ReadEvent::Opened { ok }) => {
                if ok {
                    self.phase = ReadPhase::SendingBlock;
                    self.block = 1;
                    ReadAction::Read
                } else {
                    self.phase = ReadPhase::Aborted;
                    ReadAction::Send(error_frame(FILE_NOT_FOUND))
                }
            },
            (ReadPhase::SendingBlock, ReadEvent::Chunk { data, len }) => {
                self.phase = ReadPhase::AwaitingAck;
                self.data = data;
                self.len = len;
                self.retries = 0;
                ReadAction::Send(Packet::new_data(self.block, data, len))
            },
            (ReadPhase::AwaitingAck, ReadEvent::Frame(Packet::Ack { block })) => {
                if block != self.block {
                    ReadAction::Nothing
                } else if self.len < 512 {
                    self.phase = ReadPhase::Done;
                    ReadAction::Nothing
                } else if self.block == u16::MAX {
                    self.phase = ReadPhase::Aborted;
                    ReadAction::Send(error_frame(SEE_MSG))
                } else {
                    self.phase = ReadPhase::SendingBlock;
                    self.block = self.block + 1;
                    ReadAction::Read
                }
            },
            (ReadPhase::AwaitingAck, ReadEvent::Frame(Packet::Error { .. })) => {
                self.phase = ReadPhase::Aborted;
                ReadAction::Nothing
            },
            (ReadPhase::AwaitingAck, ReadEvent::Timeout) => {
                if self.retries < MAX_RETRIES {
                    self.retries = self.retries + 1;
                    ReadAction::Send(Packet::new_data(self.block, self.data, self.len))
                } else {
                    self.phase = ReadPhase::Aborted;
                    ReadAction::Nothing
                }
            },
            (ReadPhase::SendingBlock, ReadEvent::Failure) => {
                self.phase = ReadPhase::Aborted;
                ReadAction::Send(error_frame(SEE_MSG))
            },
            (ReadPhase::AwaitingAck, ReadEvent::Failure) => {
                self.phase = ReadPhase::Aborted;
                ReadAction::Send(error_frame(SEE_MSG))
            },
            _ => ReadAction::Nothing,
        }
    }
}

/// Where a write transfer stands.
#[derive(Debug, PartialEq, Eq, Structural, Clone, Copy)]
pub enum WritePhase {
    /// Nothing has happened yet; the file is about to be created.
    Idle,
    /// Readiness was signalled and the first data block is awaited.
    AwaitingFirstData,
    /// At least one block was stored and the next is awaited.
    Writing,
    /// The last block was stored and acknowledged.
    Done,
    /// The transfer was given up.
    Aborted,
}

/// What a write transfer is told.
#[derive(Debug)]
pub enum WriteEvent {
    /// The file was created, or could not be.
    Created { ok: bool },
    /// A frame arrived from the peer.
    Frame(Packet),
    /// Nothing arrived in time.
    Timeout,
    /// Writing to the file failed.
    Failure,
}

/// What a write transfer asks for.
#[derive(Debug)]
pub enum WriteAction {
    /// Send this frame to the peer.
    Send(Packet),
    /// Append the first `len` bytes of `data` to the file, then send the
    /// acknowledgment of block `block`.
    Store { block: u16, data: [u8; 512], len: usize },
    /// Do nothing.
    Nothing,
}

/// A write transfer's state as a mathematical value.
pub struct WriteState {
    pub phase: WritePhase,
    /// The number of the block that is expected next.
    pub expected: u16,
    /// How often the last acknowledgment was sent again.
    pub retries: int,
}

/// A write transfer's event as a mathematical value.
pub enum WriteInput {
    Created { ok: bool },
    Frame(Frame),
    Timeout,
    Failure,
}

impl WriteEvent {
    /// Whether the event is well formed: a data frame holds at most 512
    /// bytes.
    pub open spec fn wf(&self) -> bool {
        match *self {
            WriteEvent::Frame(p) => p.wf(),
            _ => true,
        }
    }
}

impl View for WriteEvent {
    type V = WriteInput;

    open spec fn view(&self) -> WriteInput {
        match *self {
            WriteEvent::Created { ok } => WriteInput::Created { ok },
            WriteEvent::Frame(p) => WriteInput::Frame(p@),
            WriteEvent::Timeout => WriteInput::Timeout,
            WriteEvent::Failure => WriteInput::Failure,
        }
    }
}

impl WriteAction {
    /// Whether a frame to send can be encoded and a payload to store lies
    /// inside its buffer.
    pub open spec fn wf(&self) -> bool {
        match *self {
            WriteAction::Send(p) => p.wf(),
            WriteAction::Store { len, .. } => len <= 512,
            WriteAction::Nothing => true,
        }
    }
}

impl View for WriteAction {
    type V = Output;

    open spec fn view(&self) -> Output {
        match *self {
            WriteAction::Send(p) => Output::Send(p@),
            WriteAction::Store { block, data, len } => Output::Store {
                block,
                payload: data@.take(len as int),
            },
            WriteAction::Nothing => Output::Nothing,
        }
    }
}

/// The state of a write transfer before anything happened.
pub open spec fn write_start() -> WriteState {
    WriteState { phase: WritePhase::Idle, expected: 0, retries: 0 }
}

/// The same state in phase `Aborted`.
pub open spec fn write_aborted(s: WriteState) -> WriteState {
    WriteState { phase: WritePhase::Aborted, ..s }
}

/// Whether a write transfer waits for a data block.
pub open spec fn write_waiting(s: WriteState) -> bool {
    s.phase == WritePhase::AwaitingFirstData || s.phase == WritePhase::Writing
}

/// One step of a write transfer while it waits for a data block.
///
/// The expected block is stored and acknowledged; a short one ends the
/// transfer, and behind a full block 65535 there is no next one, so the
/// transfer is given up with "disk full". Any other block, an acknowledgment
/// and a request are passed over. An error frame from the peer ends the
/// transfer without a reply. After a silent wait the last acknowledgment
/// goes out again, `MAX_RETRIES` times at most.
pub open spec fn write_step_waiting(s: WriteState, input: WriteInput) -> (WriteState, Output) {
    match input {
        WriteInput::Frame(Frame::Data { block, payload }) => if block != s.expected {
            (s, Output::Nothing)
        } else if payload.len() < 512 {
            (
                WriteState {
                    phase: WritePhase::Done,
                    expected: if s.expected == u16::MAX {
                        s.expected
                    } else {
                        (s.expected + 1) as u16
                    },
                    retries: 0,
                },
                Output::Store { block, payload },
            )
        } else if s.expected == u16::MAX {
            (write_aborted(s), Output::Send(bare_error(DISK_FULL)))
        } else {
            (
                WriteState {
                    phase: WritePhase::Writing,
                    expected: (s.expected + 1) as u16,
                    retries: 0,
                },
                Output::Store { block, payload },
            )
        },
        WriteInput::Frame(Frame::Error { .. }) => (write_aborted(s), Output::Nothing),
        WriteInput::Timeout => if s.retries < MAX_RETRIES {
            (
                WriteState { retries: s.retries + 1, ..s },
                Output::Send(Frame::Ack { block: (s.expected - 1) as u16 }),
            )
        } else {
            (write_aborted(s), Output::Nothing)
        },
        WriteInput::Failure => (write_aborted(s), Output::Send(bare_error(DISK_FULL))),
        _ => (s, Output::Nothing),
    }
}

/// One step of a write transfer: the next state and what is asked for.
///
/// Once the file is there, readiness is signalled by the acknowledgment of
/// block 0 and block 1 is expected; where it cannot be created the peer is
/// told so and the transfer is over. A failure to store a block is reported
/// to the peer as "disk full" and ends the transfer, also where the block was
/// the last. An event that the phase does not expect changes nothing and
/// asks for nothing.
pub open spec fn write_step(s: WriteState, input: WriteInput) -> (WriteState, Output) {
    if s.phase == WritePhase::Idle {
        match input {
            WriteInput::Created { ok } => if ok {
                (
                    WriteState { phase: WritePhase::AwaitingFirstData, expected: 1, retries: 0 },
                    Output::Send(Frame::Ack { block: 0 }),
                )
            } else {
                (
                    write_aborted(s),
                    Output::Send(Frame::Error { code: SEE_MSG, msg: create_failure_text() }),
                )
            },
            _ => (s, Output::Nothing),
        }
    } else if write_waiting(s) {
        write_step_waiting(s, input)
    } else if s.phase == WritePhase::Done && input == WriteInput::Failure {
        (write_aborted(s), Output::Send(bare_error(DISK_FULL)))
    } else {
        (s, Output::Nothing)
    }
}

/// The state machine of one write transfer: the server takes a file from the
/// peer, block by block, and acknowledges each block it stored.
#[derive(Debug)]
pub struct WriteTransfer {
    phase: WritePhase,
    expected: u16,
    retries: u8,
}

impl View for WriteTransfer {
    type V = WriteState;

    closed spec fn view(&self) -> WriteState {
        WriteState { phase: self.phase, expected: self.expected, retries: self.retries as int }
    }
}

impl WriteTransfer {
    /// Whether the state is consistent: while a data block is awaited its
    /// number is at least 1, and the retries are within their bound.
    pub closed spec fn wf(&self) -> bool {
        self.retries <= MAX_RETRIES && (write_waiting(self@) ==> self.expected >= 1)
    }

    /// A transfer on which nothing has happened yet.
    pub fn new() -> (t: Self)
        ensures
            t.wf(),
            t@ == write_start(),
    {
        WriteTransfer { phase: WritePhase::Idle, expected: 0, retries: 0 }
    }

    /// The phase the transfer is in.
    pub fn phase(&self) -> (p: WritePhase)
        ensures
            p == self@.phase,
    {
        self.phase
    }

    /// The number of the block that is expected next.
    pub fn expected(&self) -> (b: u16)
        ensures
            b == self@.expected,
    {
        self.expected
    }

    /// Whether the transfer has ended, by completion or by abort.
    pub fn is_over(&self) -> (over: bool)
        ensures
            over == (self@.phase == WritePhase::Done || self@.phase == WritePhase::Aborted),
    {
        match self.phase {
            WritePhase::Done => true,
            WritePhase::Aborted => true,
            _ => false,
        }
    }

    /// Takes one event and says what to do next, as `write_step` lays down.
    pub fn step(&mut self, event: WriteEvent) -> (action: WriteAction)
        requires
            old(self).wf(),
            event.wf(),
        ensures
            final(self).wf(),
            action.wf(),
            (final(self)@, action@) == write_step(old(self)@, event@),
    {
        match self.phase {
            WritePhase::Idle => match event {
                WriteEvent::Created { ok } => {
                    if ok {
                        self.phase = WritePhase::AwaitingFirstData;
                        self.expected = 1;
                        self.retries = 0;
                        WriteAction::Send(Packet::new_ack(0))
                    } else {
                        self.phase = WritePhase::Aborted;
                        WriteAction::Send(
                            Packet::new_error(
                                SEE_MSG,
                                "There was an error creating/accessing the file",
                            ),
                        )
                    }
                },
                _ => WriteAction::Nothing,
            },
            WritePhase::AwaitingFirstData | WritePhase::Writing => self.step_waiting(event),
            WritePhase::Done => match event {
                WriteEvent::Failure => {
                    self.phase = WritePhase::Aborted;
                    WriteAction::Send(error_frame(DISK_FULL))
                },
                _ => WriteAction::Nothing,
            },
            WritePhase::Aborted => WriteAction::Nothing,
        }
    }

    /// One step while a data block is awaited.
    fn step_waiting(&mut self, event: WriteEvent) -> (action: WriteAction)
        requires
            old(self).wf(),
            event.wf(),
            write_waiting(old(self)@),
        ensures
            final(self).wf(),
            action.wf(),
            (final(self)@, action@) == write_step_waiting(old(self)@, event@),
    {
        match event {
            WriteEvent::Frame(Packet::Data { block, data, len }) => {
                if block != self.expected {
                    WriteAction::Nothing
                } else if len < 512 {
                    self.phase = WritePhase::Done;
                    if self.expected != u16::MAX {
                        self.expected = self.expected + 1;
                    }
                    self.retries = 0;
                    WriteAction::Store { block, data, len }
                } else if self.expected == u16::MAX {
                    self.phase = WritePhase::Aborted;
                    WriteAction::Send(error_frame(DISK_FULL))
                } else {
                    self.phase = WritePhase::Writing;
                    self.expected = self.expected + 1;
                    self.retries = 0;
                    WriteAction::Store { block, data, len }
                }
            },
            WriteEvent::Frame(Packet::Error { .. }) => {
                self.phase = WritePhase::Aborted;
                WriteAction::Nothing
            },
            WriteEvent::Timeout => {
                if self.retries < MAX_RETRIES {
                    self.retries = self.retries + 1;
                    WriteAction::Send(Packet::new_ack(self.expected - 1))
                } else {
                    self.phase = WritePhase::Aborted;
                    WriteAction::Nothing
                }
            },
            WriteEvent::Failure => {
                self.phase = WritePhase::Aborted;
                WriteAction::Send(error_frame(DISK_FULL))
            },
            _ => WriteAction::Nothing,
        }
    }
}

/// The state of a read transfer after the given events, from the start.
pub open spec fn read_run(inputs: Seq<ReadInput>) -> ReadState
    decreases inputs.len(),
{
    if inputs.len() == 0 {
        read_start()
    } else {
        read_step(read_run(inputs.drop_last()), inputs.last()).0
    }
}

/// An acknowledgment of any block but the one in flight has no effect: the
/// state stays as it is and nothing is sent. So the acknowledgment of block
/// `n`, sent again once the transfer is at block `n + 1`, is lost on it.
pub proof fn lemma_stale_ack_has_no_effect(s: ReadState, block: u16)
    requires
        s.phase != ReadPhase::AwaitingAck || block != s.block,
    ensures
        read_step(s, ReadInput::Frame(Frame::Ack { block })) == (s, Output::Nothing),
{
}

/// In one step a read transfer sends no data block but the current one, and
/// its block number moves only from nothing to 1, when the file is opened, or
/// up by one, when the block in flight is acknowledged.
pub proof fn lemma_read_step_order(s: ReadState, input: ReadInput)
    ensures
        ({
            let (t, out) = read_step(s, input);
            &&& (out matches Output::Send(Frame::Data { block, .. }) ==> block == s.block
                && t.block == s.block)
            &&& (t.block != s.block ==> {
                ||| s.phase == ReadPhase::Idle && input == (ReadInput::Opened { ok: true })
                    && t.block == 1
                ||| s.phase == ReadPhase::AwaitingAck && input == ReadInput::Frame(
                    Frame::Ack { block: s.block },
                ) && t.block == s.block + 1
            })
        }),
{
}

/// Every block below the current one was acknowledged: its acknowledgment
/// is among the events that led here.
pub proof fn lemma_read_blocks_acknowledged(inputs: Seq<ReadInput>, n: u16)
    requires
        1 <= n < read_run(inputs).block,
    ensures
        exists|j: int|
            0 <= j < inputs.len() && inputs[j] == ReadInput::Frame(Frame::Ack { block: n }),
    decreases inputs.len(),
{
    if inputs.len() > 0 {
        let earlier = inputs.drop_last();
        let before = read_run(earlier);
        lemma_read_step_order(before, inputs.last());
        if n < before.block {
            lemma_read_blocks_acknowledged(earlier, n);
            let j = choose|j: int|
                0 <= j < earlier.len() && earlier[j] == ReadInput::Frame(Frame::Ack { block: n });
            assert(inputs[j] == earlier[j]);
        } else {
            assert(inputs[inputs.len() - 1] == ReadInput::Frame(Frame::Ack { block: n }));
        }
    }
}

/// A read transfer never sends block `n + 1` before it has received the
/// acknowledgment of block `n`: where a step sends data block `n + 1`, the
/// acknowledgment of block `n` is among the events before it.
pub proof fn lemma_read_never_sends_ahead(
    inputs: Seq<ReadInput>,
    input: ReadInput,
    n: u16,
    payload: Seq<u8>,
)
    requires
        1 <= n < u16::MAX,
        read_step(read_run(inputs), input).1 == Output::Send(
            Frame::Data { block: (n + 1) as u16, payload },
        ),
    ensures
        exists|j: int|
            0 <= j < inputs.len() && inputs[j] == ReadInput::Frame(Frame::Ack { block: n }),
{
    lemma_read_step_order(read_run(inputs), input);
    lemma_read_blocks_acknowledged(inputs, n);
}

/// The chunk of a file that block `k + 1` carries: up to 512 bytes from
/// position `512 * k` on.
pub open spec fn chunk(file: Seq<u8>, k: int) -> Seq<u8> {
    if 512 * k + 512 <= file.len() {
        file.subrange(512 * k, 512 * k + 512)
    } else if 512 * k <= file.len() {
        file.subrange(512 * k, file.len() as int)
    } else {
        Seq::<u8>::empty()
    }
}

/// The events of a read transfer whose file opens and whose peer
/// acknowledges each block, up to the acknowledgment of block `k`.
pub open spec fn served(file: Seq<u8>, k: nat) -> Seq<ReadInput>
    decreases k,
{
    if k == 0 {
        seq![ReadInput::Opened { ok: true }]
    } else {
        served(file, (k - 1) as nat).push(
            ReadInput::Chunk { payload: chunk(file, k - 1) },
        ).push(ReadInput::Frame(Frame::Ack { block: k as u16 }))
    }
}

/// While full blocks of the file are acknowledged the transfer goes on: after
/// the acknowledgment of block `k`, all of them full, the chunk of block
/// `k + 1` is wanted.
pub proof fn lemma_read_goes_on(file: Seq<u8>, k: nat)
    requires
        k <= file.len() / 512 < u16::MAX,
    ensures
        read_run(served(file, k)).phase == ReadPhase::SendingBlock,
        read_run(served(file, k)).block == k + 1,
    decreases k,
{
    let events = served(file, k);
    if k == 0 {
        assert(events.drop_last() =~= Seq::<ReadInput>::empty());
        assert(read_run(events.drop_last()) == read_start());
    } else {
        let earlier = served(file, (k - 1) as nat);
        lemma_read_goes_on(file, (k - 1) as nat);
        let sent = earlier.push(ReadInput::Chunk { payload: chunk(file, k - 1) });
        assert(events.drop_last() =~= sent);
        assert(sent.drop_last() =~= earlier);
        assert(read_run(sent) == read_step(read_run(earlier), sent.last()).0);
        assert(chunk(file, k - 1).len() == 512);
    }
}

/// The last block of a file is a short one: served to a peer that
/// acknowledges each block, a file of `n` full blocks and a rest gives, after
/// those `n`, block `n + 1` with the rest, and the transfer is done with the
/// acknowledgment of that block and not before. Where the file's length is a
/// multiple of 512 the rest is empty: a last block without payload is sent.
pub proof fn lemma_read_ends_with_short_block(file: Seq<u8>)
    requires
        file.len() / 512 < u16::MAX,
    ensures
        ({
            let n = file.len() / 512;
            let before = read_run(served(file, n));
            let (waiting, out) = read_step(before, ReadInput::Chunk { payload: chunk(file, n as int) });
            let last = ReadInput::Frame(Frame::Ack { block: (n + 1) as u16 });
            &&& before.phase == ReadPhase::SendingBlock
            &&& out == Output::Send(
                Frame::Data { block: (n + 1) as u16, payload: chunk(file, n as int) },
            )
            &&& chunk(file, n as int).len() == file.len() % 512
            &&& (file.len() % 512 == 0 ==> chunk(file, n as int) == Seq::<u8>::empty())
            &&& waiting.phase == ReadPhase::AwaitingAck
            &&& read_step(waiting, last).0.phase == ReadPhase::Done
            &&& read_run(served(file, n + 1)).phase == ReadPhase::Done
        }),
{
    let n = file.len() / 512;
    lemma_read_goes_on(file, n);
    let earlier = served(file, n);
    let sent = earlier.push(ReadInput::Chunk { payload: chunk(file, n as int) });
    let events = served(file, n + 1);
    assert(events.drop_last() =~= sent);
    assert(sent.drop_last() =~= earlier);
    assert(read_run(sent) == read_step(read_run(earlier), sent.last()).0);
    assert(chunk(file, n as int).len() == 0 ==> chunk(file, n as int) =~= Seq::<u8>::empty());
}

/// The frames that a read transfer sends in the course of the given events,
/// from the start.
pub open spec fn read_sent(inputs: Seq<ReadInput>) -> Seq<Frame>
    decreases inputs.len(),
{
    if inputs.len() == 0 {
        Seq::<Frame>::empty()
    } else {
        let before = read_sent(inputs.drop_last());
        match read_step(read_run(inputs.drop_last()), inputs.last()).1 {
            Output::Send(frame) => before.push(frame),
            _ => before,
        }
    }
}

/// The first `k` data blocks of a file, numbered from 1.
pub open spec fn blocks(file: Seq<u8>, k: nat) -> Seq<Frame> {
    Seq::new(k, |i: int| Frame::Data { block: (i + 1) as u16, payload: chunk(file, i) })
}

/// What a read transfer sends is the file: served to a peer that
/// acknowledges each block, it has sent, by the acknowledgment of block `k`,
/// the first `k` blocks of the file in order, each once, and nothing else.
pub proof fn lemma_read_sends_file(file: Seq<u8>, k: nat)
    requires
        k <= file.len() / 512 + 1 <= u16::MAX,
    ensures
        read_sent(served(file, k)) == blocks(file, k),
    decreases k,
{
    let events = served(file, k);
    if k == 0 {
        assert(events.drop_last() =~= Seq::<ReadInput>::empty());
        assert(read_run(events.drop_last()) == read_start());
        assert(read_sent(events.drop_last()) =~= Seq::<Frame>::empty());
        assert(read_sent(events) =~= blocks(file, 0));
    } else {
        let earlier = served(file, (k - 1) as nat);
        lemma_read_sends_file(file, (k - 1) as nat);
        lemma_read_goes_on(file, (k - 1) as nat);
        let sent = earlier.push(ReadInput::Chunk { payload: chunk(file, k - 1) });
        assert(events.drop_last() =~= sent);
        assert(sent.drop_last() =~= earlier);
        assert(read_run(sent) == read_step(read_run(earlier), sent.last()).0);
        assert(read_sent(sent) == read_sent(earlier).push(
            Frame::Data { block: k as u16, payload: chunk(file, k - 1) },
        ));
        assert(read_sent(events) == read_sent(sent));
        assert(read_sent(events) =~= blocks(file, k));
    }
}

/// The state of a write transfer after the given events, from the start.
pub open spec fn write_run(inputs: Seq<WriteInput>) -> WriteState
    decreases inputs.len(),
{
    if inputs.len() == 0 {
        write_start()
    } else {
        write_step(write_run(inputs.drop_last()), inputs.last()).0
    }
}

/// The bytes that a write transfer has stored in the course of the given
/// events, from the start.
pub open spec fn write_stored(inputs: Seq<WriteInput>) -> Seq<u8>
    decreases inputs.len(),
{
    if inputs.len() == 0 {
        Seq::<u8>::empty()
    } else {
        let before = write_stored(inputs.drop_last());
        match write_step(write_run(inputs.drop_last()), inputs.last()).1 {
            Output::Store { payload, .. } => before + payload,
            _ => before,
        }
    }
}

/// The events of a write transfer whose file is created and whose peer
/// sends the first `k` blocks of `file` in order.
pub open spec fn uploaded(file: Seq<u8>, k: nat) -> Seq<WriteInput>
    decreases k,
{
    if k == 0 {
        seq![WriteInput::Created { ok: true }]
    } else {
        uploaded(file, (k - 1) as nat).push(
            WriteInput::Frame(Frame::Data { block: k as u16, payload: chunk(file, k - 1) }),
        )
    }
}

/// The part of a file that its first `k` blocks carry.
pub open spec fn carried(file: Seq<u8>, k: nat) -> Seq<u8> {
    if 512 * k <= file.len() {
        file.take(512 * k as int)
    } else {
        file
    }
}

/// What a write transfer stores is what the peer sent: after the first `k`
/// blocks of a file, in order, it has stored the bytes that these blocks
/// carry, it expects block `k + 1` while no short block has come, and it is
/// done once the short block at the file's end has come; the stored bytes
/// are then the file.
pub proof fn lemma_write_stores_file(file: Seq<u8>, k: nat)
    requires
        k <= file.len() / 512 + 1 <= u16::MAX,
    ensures
        write_stored(uploaded(file, k)) == carried(file, k),
        k <= file.len() / 512 ==> write_waiting(write_run(uploaded(file, k))) && write_run(
            uploaded(file, k),
        ).expected == k + 1,
        k == file.len() / 512 + 1 ==> write_run(uploaded(file, k)).phase == WritePhase::Done
            && write_stored(uploaded(file, k)) == file,
    decreases k,
{
    let events = uploaded(file, k);
    if k == 0 {
        assert(events.drop_last() =~= Seq::<WriteInput>::empty());
        assert(write_run(events.drop_last()) == write_start());
        assert(write_stored(events.drop_last()) =~= Seq::<u8>::empty());
        assert(write_stored(events) =~= carried(file, 0));
    } else {
        let earlier = uploaded(file, (k - 1) as nat);
        lemma_write_stores_file(file, (k - 1) as nat);
        assert(events.drop_last() =~= earlier);
        assert(write_stored(events) == carried(file, (k - 1) as nat) + chunk(file, k - 1));
        assert(carried(file, (k - 1) as nat) + chunk(file, k - 1) =~= carried(file, k));
    }
}

/// In one step a write transfer stores no block but the expected one, and
/// the number it expects moves only from nothing to 1, when the file is
/// created, or up by one, when the expected block is stored. A block is
/// stored only while one is awaited, and the transfer is done exactly when
/// the stored block is a short one.
pub proof fn lemma_write_step_order(s: WriteState, input: WriteInput)
    ensures
        ({
            let (t, out) = write_step(s, input);
            &&& (out matches Output::Store { block, payload } ==> write_waiting(s) && block
                == s.expected && input == WriteInput::Frame(Frame::Data { block, payload })
                && (t.phase == WritePhase::Done <==> payload.len() < 512))
            &&& (t.expected != s.expected ==> {
                ||| s.phase == WritePhase::Idle && input == (WriteInput::Created { ok: true })
                    && t.expected == 1 && out == Output::Send(Frame::Ack { block: 0 })
                ||| t.expected == s.expected + 1 && out is Store
            })
        }),
{
}

} // verus!
