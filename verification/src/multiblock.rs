use vstd::prelude::*;
use crate::command::{SdCmd, sd_cmd, cmd_12, cmd_18};
use crate::response::{
    STOP_READ_SIZE,
    start_is_aligned,
    stop_response_in,
    parse_stop_response,
};

verus! {

/// The byte that announces a data block.
pub const DATA_TOKEN: u8 = 0xfe;

/// The byte the card sends while it is not busy.
pub const IDLE_BYTE: u8 = 0xff;

/// Where a multi-block read stands.
#[derive(Clone, Copy, Debug, PartialEq, Eq)]
pub enum ReadPhase {
    /// CMD18 went out with the start address; its R1 is awaited.
    AwaitReadResponse,
    /// Bytes are read one at a time until the data token comes.
    AwaitStartToken { r18: u8 },
    /// Block `next` is being read.
    ReadingBlocks { r18: u8, next: usize },
    /// CMD12 went out; the buffer with its answer is awaited.
    AwaitStopResponse { r18: u8 },
    /// Bytes are read one at a time until the card stops holding MISO low.
    AwaitNotBusy { r18: u8, r12: u8 },
    /// The read is over, with the answers to CMD18 and CMD12.
    Done { r18: u8, r12: u8 },
}

/// A multi-block read of `count` blocks.
#[derive(Clone, Copy, Debug, PartialEq, Eq)]
pub struct MultiblockRead {
    pub count: usize,
    pub phase: ReadPhase,
}

/// What the driver does next on the bus.
#[derive(Clone, Copy, Debug, PartialEq, Eq)]
pub enum ReadAction {
    /// Send the command with the given argument, then read an R1 response.
    SendWithArgForR1(SdCmd, u32),
    /// Clock in one byte.
    ReadByte,
    /// Clock in the data block with this index into the result.
    ReadBlock(usize),
    /// Send the command, then clock in `STOP_READ_SIZE` bytes.
    SendForStopResponse(SdCmd),
    /// The read is over: the answers to CMD18 and CMD12.
    Complete(u8, u8),
}

/// What the bus gave back after an action.
#[derive(Clone, Copy, Debug, PartialEq, Eq)]
pub enum ReadEvent {
    /// An R1 response arrived.
    R1(u8),
    /// One byte arrived.
    Byte(u8),
    /// A data block was clocked in.
    BlockRead,
    /// The bytes after CMD12 arrived.
    StopBuffer([u8; STOP_READ_SIZE]),
}

impl MultiblockRead {
    /// The block index, while blocks are read, lies below the count.
    pub open spec fn wf(self) -> bool {
        self.phase matches ReadPhase::ReadingBlocks { next, .. } ==> next < self.count
    }

    /// The event can be handled: an answer to CMD12 starts on a byte
    /// boundary (a response that straddles two bytes is not decoded).
    pub open spec fn can_take(self, event: ReadEvent) -> bool {
        (self.phase is AwaitStopResponse && event is StopBuffer) ==> start_is_aligned(
            event->StopBuffer_0@,
            8,
            80,
        )
    }
}

/// The read of `count` blocks from address `addr` starts with CMD18.
pub open spec fn multiblock_begin(addr: u32, count: usize) -> (MultiblockRead, ReadAction) {
    (
        MultiblockRead { count, phase: ReadPhase::AwaitReadResponse },
        ReadAction::SendWithArgForR1(sd_cmd(0x52, 0, 0, 0, 0, 0x55), addr),
    )
}

/// What comes once the data token was seen: the first block, or CMD12
/// where no block was asked for.
pub open spec fn after_token(count: usize, r18: u8) -> (MultiblockRead, ReadAction) {
    if count == 0 {
        (
            MultiblockRead { count, phase: ReadPhase::AwaitStopResponse { r18 } },
            ReadAction::SendForStopResponse(sd_cmd(0x4c, 0, 0, 0, 0, 0x55)),
        )
    } else {
        (
            MultiblockRead { count, phase: ReadPhase::ReadingBlocks { r18, next: 0 } },
            ReadAction::ReadBlock(0),
        )
    }
}

/// The read's transitions: from a state and the event that answers it, the
/// next state and action; `None` where the event does not answer what the
/// state waits for, or the read is over.
pub open spec fn multiblock_next(m: MultiblockRead, event: ReadEvent) -> Option<
    (MultiblockRead, ReadAction),
> {
    let count = m.count;
    match (m.phase, event) {
        (ReadPhase::AwaitReadResponse, ReadEvent::R1(r18)) => Some(
            (
                MultiblockRead { count, phase: ReadPhase::AwaitStartToken { r18 } },
                ReadAction::ReadByte,
            ),
        ),
        (ReadPhase::AwaitStartToken { r18 }, ReadEvent::Byte(b)) => if b == DATA_TOKEN {
            Some(after_token(count, r18))
        } else {
            Some((m, ReadAction::ReadByte))
        },
        (ReadPhase::ReadingBlocks { r18, next }, ReadEvent::BlockRead) => if next + 1 < count {
            Some(
                (
                    MultiblockRead {
                        count,
                        phase: ReadPhase::ReadingBlocks { r18, next: (next + 1) as usize },
                    },
                    ReadAction::ReadBlock((next + 1) as usize),
                ),
            )
        } else {
            Some(
                (
                    MultiblockRead { count, phase: ReadPhase::AwaitStopResponse { r18 } },
                    ReadAction::SendForStopResponse(sd_cmd(0x4c, 0, 0, 0, 0, 0x55)),
                ),
            )
        },
        (ReadPhase::AwaitStopResponse { r18 }, ReadEvent::StopBuffer(buf)) => Some(
            (
                MultiblockRead {
                    count,
                    phase: ReadPhase::AwaitNotBusy { r18, r12: stop_response_in(buf@) },
                },
                ReadAction::ReadByte,
            ),
        ),
        (ReadPhase::AwaitNotBusy { r18, r12 }, ReadEvent::Byte(b)) => if b != IDLE_BYTE {
            Some((m, ReadAction::ReadByte))
        } else {
            Some(
                (
                    MultiblockRead { count, phase: ReadPhase::Done { r18, r12 } },
                    ReadAction::Complete(r18, r12),
                ),
            )
        },
        _ => None,
    }
}

/// Starts a read of `count` blocks from address `addr`.
pub fn multiblock_start(addr: u32, count: usize) -> (r: (MultiblockRead, ReadAction))
    ensures
        r == multiblock_begin(addr, count),
        r.0.wf(),
{
    (
        MultiblockRead { count, phase: ReadPhase::AwaitReadResponse },
        ReadAction::SendWithArgForR1(cmd_18(), addr),
    )
}

impl MultiblockRead {
    /// One decision of a multi-block read (see `multiblock_next`): after
    /// CMD18's response, wait for the data token, read the blocks, stop
    /// with CMD12, decode its response, and wait until the card is no
    /// longer busy.
    pub fn step(self, event: ReadEvent) -> (r: Option<(MultiblockRead, ReadAction)>)
        requires
            self.wf(),
            self.can_take(event),
        ensures
            r == multiblock_next(self, event),
            r matches Some((m, _)) ==> m.wf(),
    {
        let count = self.count;
        match (self.phase, event) {
            (ReadPhase::AwaitReadResponse, ReadEvent::R1(r18)) => Some(
                (
                    MultiblockRead { count, phase: ReadPhase::AwaitStartToken { r18 } },
                    ReadAction::ReadByte,
                ),
            ),
            (ReadPhase::AwaitStartToken { r18 }, ReadEvent::Byte(b)) => {
                if b == DATA_TOKEN {
                    if count == 0 {
                        Some(
                            (
                                MultiblockRead { count, phase: ReadPhase::AwaitStopResponse { r18 } },
                                ReadAction::SendForStopResponse(cmd_12()),
                            ),
                        )
                    } else {
                        Some(
                            (
                                MultiblockRead {
                                    count,
                                    phase: ReadPhase::ReadingBlocks { r18, next: 0 },
                                },
                                ReadAction::ReadBlock(0),
                            ),
                        )
                    }
                } else {
                    Some((self, ReadAction::ReadByte))
                }
            },
            (ReadPhase::ReadingBlocks { r18, next }, ReadEvent::BlockRead) => {
                if next + 1 < count {
                    Some(
                        (
                            MultiblockRead {
                                count,
                                phase: ReadPhase::ReadingBlocks { r18, next: next + 1 },
                            },
                            ReadAction::ReadBlock(next + 1),
                        ),
                    )
                } else {
                    Some(
                        (
                            MultiblockRead { count, phase: ReadPhase::AwaitStopResponse { r18 } },
                            ReadAction::SendForStopResponse(cmd_12()),
                        ),
                    )
                }
            },
            (ReadPhase::AwaitStopResponse { r18 }, ReadEvent::StopBuffer(buf)) => {
                let r12 = parse_stop_response(&buf);
                Some(
                    (
                        MultiblockRead { count, phase: ReadPhase::AwaitNotBusy { r18, r12 } },
                        ReadAction::ReadByte,
                    ),
                )
            },
            (ReadPhase::AwaitNotBusy { r18, r12 }, ReadEvent::Byte(b)) => {
                if b != IDLE_BYTE {
                    Some((self, ReadAction::ReadByte))
                } else {
                    Some(
                        (
                            MultiblockRead { count, phase: ReadPhase::Done { r18, r12 } },
                            ReadAction::Complete(r18, r12),
                        ),
                    )
                }
            },
            _ => None,
        }
    }
}


/// The answer to CMD18 that a state holds, once it came.
pub open spec fn r18_of(phase: ReadPhase) -> Option<u8> {
    match phase {
        ReadPhase::AwaitReadResponse => None,
        ReadPhase::AwaitStartToken { r18 } => Some(r18),
        ReadPhase::ReadingBlocks { r18, .. } => Some(r18),
        ReadPhase::AwaitStopResponse { r18 } => Some(r18),
        ReadPhase::AwaitNotBusy { r18, .. } => Some(r18),
        ReadPhase::Done { r18, .. } => Some(r18),
    }
}

/// Blocks are read in order and only as many as asked for: the first block
/// read is block 0, right after the data token, each later one is the next
/// index, and every index is below the count.
pub proof fn law_blocks_in_order(m: MultiblockRead, event: ReadEvent)
    requires
        m.wf(),
    ensures
        multiblock_next(m, event) matches Some((m2, ReadAction::ReadBlock(i))) ==> {
            &&& i < m.count
            &&& m2.count == m.count
            &&& m2.phase matches ReadPhase::ReadingBlocks { next, .. } && next == i
            &&& (m.phase is AwaitStartToken && i == 0) || (m.phase matches ReadPhase::ReadingBlocks {
                next,
                ..
            } && i == next + 1)
        },
{
}

/// CMD12 goes out only once every block was read: right after the last
/// block, or right after the data token where no block was asked for.
pub proof fn law_stop_after_last_block(m: MultiblockRead, event: ReadEvent)
    requires
        m.wf(),
    ensures
        multiblock_next(m, event) matches Some((_, ReadAction::SendForStopResponse(c))) ==> {
            &&& c == sd_cmd(0x4c, 0, 0, 0, 0, 0x55)
            &&& (m.phase is AwaitStartToken && m.count == 0) || (m.phase matches ReadPhase::ReadingBlocks {
                next,
                ..
            } && next + 1 == m.count && event is BlockRead)
        },
{
}

/// The count of a read never changes, and the answer to CMD18, once it
/// came, is carried unchanged to the end of the read.
pub proof fn law_r18_kept(m: MultiblockRead, event: ReadEvent)
    ensures
        multiblock_next(m, event) matches Some((m2, _)) ==> m2.count == m.count,
        !(m.phase is AwaitReadResponse) ==> (multiblock_next(m, event) matches Some((m2, _))
            ==> r18_of(m2.phase) == r18_of(m.phase)),
        m.phase is AwaitReadResponse ==> (event matches ReadEvent::R1(r) ==> (multiblock_next(
            m,
            event,
        ) matches Some((m2, _)) && r18_of(m2.phase) == Some(r))),
{
}

/// A read completes only when the card is no longer busy (it sent `0xff`),
/// with the answers to CMD18 and CMD12 that the state holds; a completed
/// read takes no further event.
pub proof fn law_complete_when_idle(m: MultiblockRead, event: ReadEvent)
    ensures
        multiblock_next(m, event) matches Some((_, ReadAction::Complete(r18, r12))) ==> (m.phase
            == ReadPhase::AwaitNotBusy { r18, r12 } && event == ReadEvent::Byte(IDLE_BYTE)),
        m.phase is Done ==> multiblock_next(m, event) is None,
{
}


/// How many blocks a state has asked for so far.
pub open spec fn blocks_requested(m: MultiblockRead) -> int {
    match m.phase {
        ReadPhase::AwaitReadResponse => 0,
        ReadPhase::AwaitStartToken { .. } => 0,
        ReadPhase::ReadingBlocks { next, .. } => next + 1,
        _ => m.count as int,
    }
}

/// Runs the read from state `m` through `events`: the state it ends in and
/// the actions it asked for, or `None` where an event did not fit.
pub open spec fn run(m: MultiblockRead, events: Seq<ReadEvent>) -> Option<
    (MultiblockRead, Seq<ReadAction>),
>
    decreases events.len(),
{
    if events.len() == 0 {
        Some((m, Seq::empty()))
    } else {
        match multiblock_next(m, events[0]) {
            Some((m2, a)) => match run(m2, events.drop_first()) {
                Some((m3, acts)) => Some((m3, seq![a] + acts)),
                None => None,
            },
            None => None,
        }
    }
}

/// The block indices that a list of actions reads, in order.
pub open spec fn block_reads(acts: Seq<ReadAction>) -> Seq<usize>
    decreases acts.len(),
{
    if acts.len() == 0 {
        Seq::empty()
    } else {
        let rest = block_reads(acts.drop_first());
        match acts[0] {
            ReadAction::ReadBlock(i) => seq![i] + rest,
            _ => rest,
        }
    }
}

proof fn lemma_step_requests(m: MultiblockRead, event: ReadEvent)
    requires
        m.wf(),
    ensures
        multiblock_next(m, event) matches Some((m2, a)) ==> {
            &&& m2.wf()
            &&& m2.count == m.count
            &&& blocks_requested(m2) == blocks_requested(m) + (if a is ReadBlock { 1int } else { 0int })
            &&& a matches ReadAction::ReadBlock(i) ==> i == blocks_requested(m)
        },
{
}

proof fn lemma_run_reads(m: MultiblockRead, events: Seq<ReadEvent>)
    requires
        m.wf(),
    ensures
        run(m, events) matches Some((m2, acts)) ==> {
            &&& m2.wf()
            &&& m2.count == m.count
            &&& blocks_requested(m2) >= blocks_requested(m)
            &&& block_reads(acts) =~= Seq::new(
                (blocks_requested(m2) - blocks_requested(m)) as nat,
                |i: int| (blocks_requested(m) + i) as usize,
            )
        },
    decreases events.len(),
{
    if events.len() > 0 {
        lemma_step_requests(m, events[0]);
        if let Some((m1, a)) = multiblock_next(m, events[0]) {
            lemma_run_reads(m1, events.drop_first());
            if let Some((m2, acts)) = run(m1, events.drop_first()) {
                let all = seq![a] + acts;
                assert(all.drop_first() =~= acts);
                assert(all[0] == a);
                let r0 = blocks_requested(m);
                let r1 = blocks_requested(m1);
                let r2 = blocks_requested(m2);
                if let ReadAction::ReadBlock(i) = a {
                    assert(block_reads(all) == seq![i] + block_reads(acts));
                    assert(block_reads(all) =~= Seq::new((r2 - r0) as nat, |t: int| (r0 + t) as usize));
                } else {
                    assert(block_reads(all) == block_reads(acts));
                }
            }
        }
    }
}

/// Over a whole read from its start, the blocks are read once each and in
/// order: every run of events that brings a read of `count` blocks to its
/// end asked for blocks `0, 1, ..., count - 1`, in that order and no other.
pub proof fn law_whole_read_reads_every_block_once(addr: u32, count: usize, events: Seq<ReadEvent>)
    ensures
        run(multiblock_begin(addr, count).0, events) matches Some((m, acts)) ==> (m.phase is Done
            ==> block_reads(acts) == Seq::new(count as nat, |i: int| i as usize)),
{
    let m0 = multiblock_begin(addr, count).0;
    lemma_run_reads(m0, events);
    if let Some((m, acts)) = run(m0, events) {
        if m.phase is Done {
            assert(block_reads(acts) =~= Seq::new(count as nat, |i: int| i as usize));
        }
    }
}


/// The start and the answer-driven steps of a read, for every count,
/// address and answer: CMD18 goes out with the address as argument; its
/// answer, whatever it is, starts the wait for the data token; while the
/// token has not come, any byte other than 0xfe (idle or an error token)
/// keeps the read waiting and clocks another byte, and 0xfe starts block 0,
/// or CMD12 where no block was asked for.
pub proof fn law_read_start_and_token_wait(addr: u32, count: usize, r18: u8, b: u8)
    ensures
        multiblock_begin(addr, count) == (
            MultiblockRead { count, phase: ReadPhase::AwaitReadResponse },
            ReadAction::SendWithArgForR1(sd_cmd(0x52, 0, 0, 0, 0, 0x55), addr),
        ),
        multiblock_next(
            MultiblockRead { count, phase: ReadPhase::AwaitReadResponse },
            ReadEvent::R1(r18),
        ) == Some(
            (MultiblockRead { count, phase: ReadPhase::AwaitStartToken { r18 } }, ReadAction::ReadByte),
        ),
        b != 0xfe ==> multiblock_next(
            MultiblockRead { count, phase: ReadPhase::AwaitStartToken { r18 } },
            ReadEvent::Byte(b),
        ) == Some(
            (MultiblockRead { count, phase: ReadPhase::AwaitStartToken { r18 } }, ReadAction::ReadByte),
        ),
        (b == 0xfe && count > 0) ==> multiblock_next(
            MultiblockRead { count, phase: ReadPhase::AwaitStartToken { r18 } },
            ReadEvent::Byte(b),
        ) == Some(
            (
                MultiblockRead { count, phase: ReadPhase::ReadingBlocks { r18, next: 0 } },
                ReadAction::ReadBlock(0),
            ),
        ),
        (b == 0xfe && count == 0) ==> multiblock_next(
            MultiblockRead { count, phase: ReadPhase::AwaitStartToken { r18 } },
            ReadEvent::Byte(b),
        ) == Some(
            (
                MultiblockRead { count, phase: ReadPhase::AwaitStopResponse { r18 } },
                ReadAction::SendForStopResponse(sd_cmd(0x4c, 0, 0, 0, 0, 0x55)),
            ),
        ),
{
}

/// After a block, the next block is read while blocks remain, else CMD12
/// goes out; CMD12's answer is decoded from the bytes after it; and the
/// read ends exactly when the card sends 0xff, any other byte keeping it
/// waiting while the card is busy.
pub proof fn law_read_blocks_stop_and_busy(
    count: usize,
    r18: u8,
    r12: u8,
    next: usize,
    b: u8,
    buf: [u8; STOP_READ_SIZE],
)
    ensures
        (next + 1 < count) ==> multiblock_next(
            MultiblockRead { count, phase: ReadPhase::ReadingBlocks { r18, next } },
            ReadEvent::BlockRead,
        ) == Some(
            (
                MultiblockRead {
                    count,
                    phase: ReadPhase::ReadingBlocks { r18, next: (next + 1) as usize },
                },
                ReadAction::ReadBlock((next + 1) as usize),
            ),
        ),
        (next + 1 == count) ==> multiblock_next(
            MultiblockRead { count, phase: ReadPhase::ReadingBlocks { r18, next } },
            ReadEvent::BlockRead,
        ) == Some(
            (
                MultiblockRead { count, phase: ReadPhase::AwaitStopResponse { r18 } },
                ReadAction::SendForStopResponse(sd_cmd(0x4c, 0, 0, 0, 0, 0x55)),
            ),
        ),
        multiblock_next(
            MultiblockRead { count, phase: ReadPhase::AwaitStopResponse { r18 } },
            ReadEvent::StopBuffer(buf),
        ) == Some(
            (
                MultiblockRead {
                    count,
                    phase: ReadPhase::AwaitNotBusy { r18, r12: stop_response_in(buf@) },
                },
                ReadAction::ReadByte,
            ),
        ),
        b != 0xff ==> multiblock_next(
            MultiblockRead { count, phase: ReadPhase::AwaitNotBusy { r18, r12 } },
            ReadEvent::Byte(b),
        ) == Some(
            (MultiblockRead { count, phase: ReadPhase::AwaitNotBusy { r18, r12 } }, ReadAction::ReadByte),
        ),
        b == 0xff ==> multiblock_next(
            MultiblockRead { count, phase: ReadPhase::AwaitNotBusy { r18, r12 } },
            ReadEvent::Byte(b),
        ) == Some(
            (
                MultiblockRead { count, phase: ReadPhase::Done { r18, r12 } },
                ReadAction::Complete(r18, r12),
            ),
        ),
{
}

/// An event moves a read exactly when it answers what the state waits
/// for: an R1 after CMD18, a byte while waiting for the token or while the
/// card is busy, a block while blocks are read, the bytes after CMD12; and
/// nothing once the read is done.
pub proof fn law_read_event_fits(m: MultiblockRead, event: ReadEvent)
    ensures
        multiblock_next(m, event) is Some <==> ({
            ||| m.phase is AwaitReadResponse && event is R1
            ||| (m.phase is AwaitStartToken || m.phase is AwaitNotBusy) && event is Byte
            ||| m.phase is ReadingBlocks && event is BlockRead
            ||| m.phase is AwaitStopResponse && event is StopBuffer
        }),
{
}

} // verus!
