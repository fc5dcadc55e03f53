use vstd::prelude::*;
use crate::command::{SdCmd, sd_cmd, cmd_0, cmd_8, cmd_55, cmd_58, acmd_41_4};

verus! {

/// The SPI clock speed, in Hz, that the card runs at once it is initialized.
pub const FAST_CLOCK_SPEED: u32 = 5_000_000;

/// The echo of the CMD8 check pattern by a card that works at this voltage.
pub const CMD8_ECHO: u32 = 0x1AA;

/// Where the power-up sequence of the card stands.
#[derive(Clone, Copy, Debug, PartialEq, Eq)]
pub enum InitPhase {
    /// The card has not seen any clock yet.
    PowerUp,
    /// CMD0 (reset) was sent; its R1 is awaited.
    AwaitReset,
    /// CMD8 (interface condition) was sent; its R7 is awaited.
    AwaitInterfaceCondition,
    /// CMD55 was sent ahead of ACMD41; its R1 is awaited.
    AwaitAppCmd,
    /// ACMD41 (start initialization) was sent; its R1 is awaited.
    AwaitOpCond,
    /// CMD58 (read OCR) was sent; its R3 is awaited.
    AwaitOcr,
    /// The sequence is over; `success` is what the OCR check reported.
    Finished { success: bool },
}

/// What the driver does next on the bus.
#[derive(Clone, Copy, Debug, PartialEq, Eq)]
pub enum InitAction {
    /// Clock 80 bits with MOSI and chip select high.
    SendIdleClocks,
    /// Send the command with its own argument, then read an R1 response.
    SendForR1(SdCmd),
    /// Send the command with its own argument, then read an R3/R7 response.
    SendForR3R7(SdCmd),
    /// Switch the bus to the given clock speed; the sequence is then over.
    SetClockSpeed(u32),
}

/// What the bus gave back after an action.
#[derive(Clone, Copy, Debug, PartialEq, Eq)]
pub enum InitEvent {
    /// The idle clocks went out.
    IdleClocksSent,
    /// An R1 response arrived.
    R1(u8),
    /// An R3 or R7 response arrived: its R1 byte and its 32-bit word.
    R3R7(u8, u32),
}

/// The phase the power-up sequence starts in and what it does first.
pub open spec fn init_begin() -> (InitPhase, InitAction) {
    (InitPhase::PowerUp, InitAction::SendIdleClocks)
}

/// The sequence's transitions: from a phase and the event that answers it,
/// the next phase and action; `None` where the event does not answer what
/// the phase waits for, or the sequence is over.
pub open spec fn init_next(phase: InitPhase, event: InitEvent) -> Option<(InitPhase, InitAction)> {
    match (phase, event) {
        (InitPhase::PowerUp, InitEvent::IdleClocksSent) => Some(
            (InitPhase::AwaitReset, InitAction::SendForR1(sd_cmd(0x40, 0, 0, 0, 0, 0x95))),
        ),
        (InitPhase::AwaitReset, InitEvent::R1(_)) => Some(
            (
                InitPhase::AwaitInterfaceCondition,
                InitAction::SendForR3R7(sd_cmd(0x48, 0x00, 0x00, 0x01, 0xaa, 0x87)),
            ),
        ),
        (InitPhase::AwaitInterfaceCondition, InitEvent::R3R7(_, echo)) => if echo == CMD8_ECHO {
            Some((InitPhase::AwaitAppCmd, InitAction::SendForR1(sd_cmd(0x77, 0, 0, 0, 0, 0x65))))
        } else {
            Some(
                (
                    InitPhase::Finished { success: false },
                    InitAction::SetClockSpeed(FAST_CLOCK_SPEED),
                ),
            )
        },
        (InitPhase::AwaitAppCmd, InitEvent::R1(_)) => Some(
            (InitPhase::AwaitOpCond, InitAction::SendForR1(sd_cmd(0x69, 0x40, 0x00, 0x00, 0x00, 0x77))),
        ),
        (InitPhase::AwaitOpCond, InitEvent::R1(r1)) => if r1 != 0 {
            Some((InitPhase::AwaitAppCmd, InitAction::SendForR1(sd_cmd(0x77, 0, 0, 0, 0, 0x65))))
        } else {
            Some(
                (
                    InitPhase::AwaitOcr,
                    InitAction::SendForR3R7(sd_cmd(0x7a, 0, 0, 0, 0, 0x55)),
                ),
            )
        },
        (InitPhase::AwaitOcr, InitEvent::R3R7(_, ocr)) => Some(
            (
                InitPhase::Finished { success: ocr & 0x4000_0000 == 1 },
                InitAction::SetClockSpeed(FAST_CLOCK_SPEED),
            ),
        ),
        _ => None,
    }
}

/// Starts the power-up sequence: the card needs 74 or more clocks with
/// MOSI high before its first command.
pub fn init_start() -> (r: (InitPhase, InitAction))
    ensures
        r == init_begin(),
{
    (InitPhase::PowerUp, InitAction::SendIdleClocks)
}

/// One decision of the power-up sequence (see `init_next`): reset with
/// CMD0, check the voltage with CMD8; if the card echoes 0x1aa, repeat
/// CMD55 + ACMD41 until the card leaves the idle state (R1 = 0), then read
/// the OCR with CMD58 and check its CCS bit; finally switch to the fast
/// clock.
pub fn init_step(phase: InitPhase, event: InitEvent) -> (r: Option<(InitPhase, InitAction)>)
    ensures
        r == init_next(phase, event),
{
    match (phase, event) {
        (InitPhase::PowerUp, InitEvent::IdleClocksSent) => Some(
            (InitPhase::AwaitReset, InitAction::SendForR1(cmd_0())),
        ),
        (InitPhase::AwaitReset, InitEvent::R1(_)) => Some(
            (InitPhase::AwaitInterfaceCondition, InitAction::SendForR3R7(cmd_8())),
        ),
        (InitPhase::AwaitInterfaceCondition, InitEvent::R3R7(_, echo)) => {
            if echo == CMD8_ECHO {
                Some((InitPhase::AwaitAppCmd, InitAction::SendForR1(cmd_55())))
            } else {
                Some((InitPhase::Finished { success: false }, InitAction::SetClockSpeed(FAST_CLOCK_SPEED)))
            }
        },
        (InitPhase::AwaitAppCmd, InitEvent::R1(_)) => Some(
            (InitPhase::AwaitOpCond, InitAction::SendForR1(acmd_41_4())),
        ),
        (InitPhase::AwaitOpCond, InitEvent::R1(r1)) => {
            if r1 != 0x00 {
                Some((InitPhase::AwaitAppCmd, InitAction::SendForR1(cmd_55())))
            } else {
                Some((InitPhase::AwaitOcr, InitAction::SendForR3R7(cmd_58())))
            }
        },
        (InitPhase::AwaitOcr, InitEvent::R3R7(_, ocr)) => Some(
            (
                InitPhase::Finished { success: ocr & 0x4000_0000 == 1 },
                InitAction::SetClockSpeed(FAST_CLOCK_SPEED),
            ),
        ),
        _ => None,
    }
}


/// The application command ACMD41.
pub open spec fn is_acmd41(c: SdCmd) -> bool {
    c == sd_cmd(0x69, 0x40, 0x00, 0x00, 0x00, 0x77)
}

/// ACMD41 is an application command: it goes out only right after the card
/// answered CMD55, the card's answer to CMD55 is always followed by it, and
/// the phase that awaits CMD55's answer is entered exactly when CMD55 goes
/// out.
pub proof fn law_acmd41_follows_cmd55(phase: InitPhase, event: InitEvent)
    ensures
        (init_next(phase, event) matches Some((_, InitAction::SendForR1(c))) && is_acmd41(c))
            ==> phase is AwaitAppCmd,
        (phase is AwaitAppCmd && init_next(phase, event) is Some) ==> (init_next(phase, event)
            matches Some((_, InitAction::SendForR1(c))) && is_acmd41(c)),
        init_next(phase, event) matches Some((p, a)) ==> (p is AwaitAppCmd <==> a
            == InitAction::SendForR1(sd_cmd(0x77, 0, 0, 0, 0, 0x65))),
{
}

/// The ACMD41 loop is entered only when the card echoed the CMD8 check
/// pattern, and it is left exactly when the card answers ACMD41 with R1 = 0.
pub proof fn law_op_cond_loop(r1: u8, echo: u32, resp: u8)
    ensures
        init_next(InitPhase::AwaitInterfaceCondition, InitEvent::R3R7(resp, echo)) matches Some(
            (p, _),
        ) && (p is AwaitAppCmd <==> echo == CMD8_ECHO),
        init_next(InitPhase::AwaitOpCond, InitEvent::R1(r1)) matches Some((p, _)) && (p is AwaitOcr
            <==> r1 == 0) && (p is AwaitAppCmd <==> r1 != 0),
{
}

/// The sequence ends exactly when the clock is switched to the fast speed,
/// and once it has ended no event moves it again.
pub proof fn law_clock_switch_ends_sequence(phase: InitPhase, event: InitEvent, success: bool)
    ensures
        init_next(phase, event) matches Some((p, a)) ==> (p is Finished <==> a
            == InitAction::SetClockSpeed(FAST_CLOCK_SPEED)),
        init_next(InitPhase::Finished { success }, event) is None,
{
}

/// The OCR check compares the masked CCS bit (bit 30) with 1, which it can
/// never equal, so the sequence never reports success.
pub proof fn law_ocr_check_never_succeeds(phase: InitPhase, event: InitEvent)
    ensures
        init_next(phase, event) matches Some((InitPhase::Finished { success }, _)) ==> !success,
{
    if let InitEvent::R3R7(_, ocr) = event {
        assert(ocr & 0x4000_0000u32 != 1u32) by (bit_vector);
    }
}


/// The order of the power-up sequence, for every answer the card gives:
/// idle clocks, then CMD0; after CMD0's answer, CMD8 with the check pattern
/// 0x1aa; if the card echoes 0x1aa, CMD55, else the sequence ends at the
/// fast clock; after CMD55's answer, ACMD41 with the high capacity bit;
/// while ACMD41 is answered with a nonzero R1, CMD55 again, and on R1 = 0,
/// CMD58; and whatever CMD58 is answered with, the sequence ends at the
/// 5 MHz clock.
pub proof fn law_init_order(r: u8, word: u32)
    ensures
        init_begin() == (InitPhase::PowerUp, InitAction::SendIdleClocks),
        init_next(InitPhase::PowerUp, InitEvent::IdleClocksSent) == Some(
            (InitPhase::AwaitReset, InitAction::SendForR1(sd_cmd(0x40, 0, 0, 0, 0, 0x95))),
        ),
        init_next(InitPhase::AwaitReset, InitEvent::R1(r)) == Some(
            (
                InitPhase::AwaitInterfaceCondition,
                InitAction::SendForR3R7(sd_cmd(0x48, 0x00, 0x00, 0x01, 0xaa, 0x87)),
            ),
        ),
        word == 0x1aa ==> init_next(InitPhase::AwaitInterfaceCondition, InitEvent::R3R7(r, word))
            == Some((InitPhase::AwaitAppCmd, InitAction::SendForR1(sd_cmd(0x77, 0, 0, 0, 0, 0x65)))),
        word != 0x1aa ==> init_next(InitPhase::AwaitInterfaceCondition, InitEvent::R3R7(r, word))
            == Some((InitPhase::Finished { success: false }, InitAction::SetClockSpeed(5_000_000))),
        init_next(InitPhase::AwaitAppCmd, InitEvent::R1(r)) == Some(
            (InitPhase::AwaitOpCond, InitAction::SendForR1(sd_cmd(0x69, 0x40, 0x00, 0x00, 0x00, 0x77))),
        ),
        r != 0 ==> init_next(InitPhase::AwaitOpCond, InitEvent::R1(r)) == Some(
            (InitPhase::AwaitAppCmd, InitAction::SendForR1(sd_cmd(0x77, 0, 0, 0, 0, 0x65))),
        ),
        r == 0 ==> init_next(InitPhase::AwaitOpCond, InitEvent::R1(r)) == Some(
            (InitPhase::AwaitOcr, InitAction::SendForR3R7(sd_cmd(0x7a, 0, 0, 0, 0, 0x55))),
        ),
        init_next(InitPhase::AwaitOcr, InitEvent::R3R7(r, word)) == Some(
            (InitPhase::Finished { success: false }, InitAction::SetClockSpeed(5_000_000)),
        ),
{
    assert(word & 0x4000_0000u32 != 1u32) by (bit_vector);
}

/// An event moves the sequence exactly when it answers what the phase
/// waits for: the idle clocks at power-up, an R1 after CMD0, CMD55 and
/// ACMD41, an R3/R7 after CMD8 and CMD58; nothing once finished.
pub proof fn law_init_event_fits(phase: InitPhase, event: InitEvent)
    ensures
        init_next(phase, event) is Some <==> ({
            ||| phase is PowerUp && event is IdleClocksSent
            ||| (phase is AwaitReset || phase is AwaitAppCmd || phase is AwaitOpCond) && event is R1
            ||| (phase is AwaitInterfaceCondition || phase is AwaitOcr) && event is R3R7
        }),
{
}

} // verus!
