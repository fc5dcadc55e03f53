use sd_spi::command::{
    acmd_41_0, acmd_41_4, cmd_0, cmd_1, cmd_12, cmd_17, cmd_18, cmd_55, cmd_58, cmd_8, test_cmd, SdCmd,
    SpiCmd,
};

#[test]
fn buff_writes_index_argument_and_crc() {
    let cmd = SdCmd { index: 0x48, arg: [0x00, 0x00, 0x01, 0xaa], crc: 0x87 };
    assert_eq!(cmd.buff(), [0x48, 0x00, 0x00, 0x01, 0xaa, 0x87]);
}

#[test]
fn spi_cmd_buff_writes_index_argument_and_crc() {
    let cmd = SpiCmd { index: 0x69, arg: [0x40, 0x01, 0x02, 0x03], crc: 0x77 };
    assert_eq!(cmd.buff(), [0x69, 0x40, 0x01, 0x02, 0x03, 0x77]);
}

#[test]
fn with_arg_keeps_only_the_low_argument_byte() {
    let cmd = cmd_17();
    assert_eq!(cmd.with_arg(0x1234_5678), [0x51, 0x00, 0x00, 0x00, 0x78, 0x55]);
    assert_eq!(cmd.with_arg(0x800), [0x51, 0x00, 0x00, 0x00, 0x00, 0x55]);
    assert_eq!(cmd.with_arg(0xff), [0x51, 0x00, 0x00, 0x00, 0xff, 0x55]);
    assert_eq!(cmd.with_arg(0), cmd.buff());
}

#[test]
fn with_arg_ignores_the_command_argument() {
    let cmd = acmd_41_4();
    assert_eq!(cmd.with_arg(0x0000_0001), [0x69, 0x00, 0x00, 0x00, 0x01, 0x77]);
}

#[test]
fn command_table_frames() {
    assert_eq!(cmd_0().buff(), [0x40, 0, 0, 0, 0, 0x95]);
    assert_eq!(cmd_1().buff(), [0x41, 0, 0, 0, 0, 0x00]);
    assert_eq!(cmd_8().buff(), [0x48, 0x00, 0x00, 0x01, 0xaa, 0x87]);
    assert_eq!(cmd_55().buff(), [0x77, 0, 0, 0, 0, 0x65]);
    assert_eq!(cmd_58().buff(), [0x7a, 0, 0, 0, 0, 0x55]);
    assert_eq!(acmd_41_0().buff(), [0x69, 0, 0, 0, 0, 0xe5]);
    assert_eq!(acmd_41_4().buff(), [0x69, 0x40, 0, 0, 0, 0x77]);
    assert_eq!(test_cmd().buff(), [0xf1, 0, 0, 0, 0, 0x55]);
    assert_eq!(cmd_17().buff(), [0x51, 0, 0, 0, 0, 0x55]);
    assert_eq!(cmd_18().buff(), [0x52, 0, 0, 0, 0, 0x55]);
    assert_eq!(cmd_12().buff(), [0x4c, 0, 0, 0, 0, 0x55]);
}
