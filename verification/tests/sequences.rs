use sd_spi::command::{acmd_41_4, cmd_0, cmd_12, cmd_18, cmd_55, cmd_58, cmd_8};
use sd_spi::init::{init_start, init_step, InitAction, InitEvent, InitPhase, FAST_CLOCK_SPEED};
use sd_spi::multiblock::{multiblock_start, MultiblockRead, ReadAction, ReadEvent, ReadPhase};

fn step(phase: InitPhase, event: InitEvent) -> (InitPhase, InitAction) {
    init_step(phase, event).expect("event answers the phase")
}

#[test]
fn init_high_capacity_card() {
    let (p, a) = init_start();
    assert_eq!(p, InitPhase::PowerUp);
    assert_eq!(a, InitAction::SendIdleClocks);
    let (p, a) = step(p, InitEvent::IdleClocksSent);
    assert_eq!(a, InitAction::SendForR1(cmd_0()));
    let (p, a) = step(p, InitEvent::R1(0x01));
    assert_eq!(a, InitAction::SendForR3R7(cmd_8()));
    let (p, a) = step(p, InitEvent::R3R7(0x01, 0x1aa));
    assert_eq!(a, InitAction::SendForR1(cmd_55()));
    let (p, a) = step(p, InitEvent::R1(0x01));
    assert_eq!(a, InitAction::SendForR1(acmd_41_4()));
    // still idle: CMD55 and ACMD41 again
    let (p, a) = step(p, InitEvent::R1(0x01));
    assert_eq!(p, InitPhase::AwaitAppCmd);
    assert_eq!(a, InitAction::SendForR1(cmd_55()));
    let (p, a) = step(p, InitEvent::R1(0x01));
    assert_eq!(a, InitAction::SendForR1(acmd_41_4()));
    let (p, a) = step(p, InitEvent::R1(0x00));
    assert_eq!(a, InitAction::SendForR3R7(cmd_58()));
    let (p, a) = step(p, InitEvent::R3R7(0x00, 0xc0ff_8000));
    assert_eq!(p, InitPhase::Finished { success: false });
    assert_eq!(a, InitAction::SetClockSpeed(FAST_CLOCK_SPEED));
    assert_eq!(FAST_CLOCK_SPEED, 5_000_000);
    assert_eq!(init_step(p, InitEvent::R1(0)), None);
}

#[test]
fn init_card_without_check_pattern_echo() {
    let (p, _) = init_start();
    let (p, _) = step(p, InitEvent::IdleClocksSent);
    let (p, _) = step(p, InitEvent::R1(0x01));
    let (p, a) = step(p, InitEvent::R3R7(0x05, 0xffff_ffff));
    assert_eq!(p, InitPhase::Finished { success: false });
    assert_eq!(a, InitAction::SetClockSpeed(5_000_000));
}

#[test]
fn init_ocr_check_never_succeeds() {
    for ocr in [0u32, 1, 0x4000_0000, 0xffff_ffff, 0x4000_0001] {
        let (p, _) = step(InitPhase::AwaitOcr, InitEvent::R3R7(0, ocr));
        assert_eq!(p, InitPhase::Finished { success: false });
    }
}

#[test]
fn init_events_that_do_not_fit() {
    assert_eq!(init_step(InitPhase::PowerUp, InitEvent::R1(0)), None);
    assert_eq!(init_step(InitPhase::AwaitReset, InitEvent::IdleClocksSent), None);
    assert_eq!(init_step(InitPhase::AwaitInterfaceCondition, InitEvent::R1(1)), None);
    assert_eq!(init_step(InitPhase::AwaitOpCond, InitEvent::R3R7(0, 0)), None);
    assert_eq!(init_step(InitPhase::AwaitOcr, InitEvent::R1(0)), None);
    assert_eq!(init_step(InitPhase::Finished { success: true }, InitEvent::IdleClocksSent), None);
}

fn read_step(m: MultiblockRead, e: ReadEvent) -> (MultiblockRead, ReadAction) {
    m.step(e).expect("event answers the state")
}

#[test]
fn multiblock_read_of_two_blocks() {
    let (m, a) = multiblock_start(0x1234, 2);
    assert_eq!(a, ReadAction::SendWithArgForR1(cmd_18(), 0x1234));
    assert_eq!(m.phase, ReadPhase::AwaitReadResponse);
    let (m, a) = read_step(m, ReadEvent::R1(0x00));
    assert_eq!(a, ReadAction::ReadByte);
    let (m, a) = read_step(m, ReadEvent::Byte(0xff));
    assert_eq!(a, ReadAction::ReadByte);
    let (m, a) = read_step(m, ReadEvent::Byte(0xfe));
    assert_eq!(a, ReadAction::ReadBlock(0));
    let (m, a) = read_step(m, ReadEvent::BlockRead);
    assert_eq!(a, ReadAction::ReadBlock(1));
    let (m, a) = read_step(m, ReadEvent::BlockRead);
    assert_eq!(a, ReadAction::SendForStopResponse(cmd_12()));
    let mut stop = [0xff; 11];
    stop[2] = 0x00;
    let (m, a) = read_step(m, ReadEvent::StopBuffer(stop));
    assert_eq!(a, ReadAction::ReadByte);
    let (m, a) = read_step(m, ReadEvent::Byte(0x00));
    assert_eq!(a, ReadAction::ReadByte);
    let (m, a) = read_step(m, ReadEvent::Byte(0xff));
    assert_eq!(a, ReadAction::Complete(0x00, 0x00));
    assert_eq!(m.phase, ReadPhase::Done { r18: 0x00, r12: 0x00 });
    assert_eq!(m.count, 2);
    assert_eq!(m.step(ReadEvent::Byte(0xff)), None);
}

#[test]
fn multiblock_read_of_no_block() {
    let (m, _) = multiblock_start(0, 0);
    let (m, _) = read_step(m, ReadEvent::R1(0x05));
    let (m, a) = read_step(m, ReadEvent::Byte(0xfe));
    assert_eq!(a, ReadAction::SendForStopResponse(cmd_12()));
    let (m, _) = read_step(m, ReadEvent::StopBuffer([0xff; 11]));
    let (_, a) = read_step(m, ReadEvent::Byte(0xff));
    assert_eq!(a, ReadAction::Complete(0x05, 0xff));
}

#[test]
fn multiblock_events_that_do_not_fit() {
    let (m, _) = multiblock_start(0, 1);
    assert_eq!(m.step(ReadEvent::BlockRead), None);
    assert_eq!(m.step(ReadEvent::Byte(0xfe)), None);
    let (m, _) = read_step(m, ReadEvent::R1(0));
    assert_eq!(m.step(ReadEvent::R1(0)), None);
}
