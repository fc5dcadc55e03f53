use vstd::prelude::*;

verus! {

/// A command frame as the card expects it on MOSI: the start/index byte,
/// four argument bytes (most significant first) and the CRC byte.
#[derive(Clone, Copy, Debug, PartialEq, Eq)]
pub struct SdCmd {
    pub index: u8,
    pub arg: [u8; 4],
    pub crc: u8,
}

/// The six bytes of a frame with index `index`, argument bytes `arg` and
/// CRC byte `crc`, in the order they go out on the wire.
pub open spec fn frame(index: u8, arg: Seq<u8>, crc: u8) -> Seq<u8> {
    seq![index, arg[0], arg[1], arg[2], arg[3], crc]
}

impl SdCmd {
    /// The buffer that writes the whole command, CRC included.
    pub fn buff(&self) -> (r: [u8; 6])
        ensures
            r@ == frame(self.index, self.arg@, self.crc),
            r@.len() == 6,
            r@[0] == self.index,
            r@[1] == self.arg@[0],
            r@[2] == self.arg@[1],
            r@[3] == self.arg@[2],
            r@[4] == self.arg@[3],
            r@[5] == self.crc,
    {
        [self.index, self.arg[0], self.arg[1], self.arg[2], self.arg[3], self.crc]
    }
}


/// The argument bytes that `SdCmd::with_arg` puts in a frame.  Each byte is
/// the argument masked to one byte lane and then cut to its low eight bits;
/// only the lowest lane survives that cut, so the first three bytes are 0
/// and the last is the low byte of the argument.
pub open spec fn arg_bytes(arg: u32) -> Seq<u8> {
    seq![0u8, 0u8, 0u8, (arg % 256) as u8]
}

impl SdCmd {
    /// The buffer that writes the command with argument `new_arg` in place
    /// of the command's own argument bytes (see `arg_bytes`).
    pub fn with_arg(&self, new_arg: u32) -> (r: [u8; 6])
        ensures
            r@ == frame(self.index, arg_bytes(new_arg), self.crc),
            r@.len() == 6,
            r@[0] == self.index,
            r@[1] == (new_arg & 0xff000000) as u8,
            r@[2] == (new_arg & 0x00ff0000) as u8,
            r@[3] == (new_arg & 0x0000ff00) as u8,
            r@[4] == (new_arg & 0x000000ff) as u8,
            r@[5] == self.crc,
    {
        proof {
            assert((new_arg & 0xff000000u32) as u8 == 0u8) by (bit_vector);
            assert((new_arg & 0x00ff0000u32) as u8 == 0u8) by (bit_vector);
            assert((new_arg & 0x0000ff00u32) as u8 == 0u8) by (bit_vector);
            assert((new_arg & 0x000000ffu32) as u8 == (new_arg % 256) as u8) by (bit_vector);
        }
        [
            self.index,
            (new_arg & 0xff000000) as u8,
            (new_arg & 0x00ff0000) as u8,
            (new_arg & 0x0000ff00) as u8,
            (new_arg & 0x000000ff) as u8,
            self.crc,
        ]
    }
}

/// A command frame template as used by the SPI transport: index byte, four
/// argument bytes and CRC byte.
#[derive(Clone, Copy, Debug, PartialEq, Eq)]
pub struct SpiCmd {
    pub index: u8,
    pub arg: [u8; 4],
    pub crc: u8,
}

impl SpiCmd {
    /// The buffer that writes the whole command, CRC included.
    pub fn buff(&self) -> (r: [u8; 6])
        ensures
            r@ == frame(self.index, self.arg@, self.crc),
            r@.len() == 6,
            r@[0] == self.index,
            r@[1] == self.arg@[0],
            r@[2] == self.arg@[1],
            r@[3] == self.arg@[2],
            r@[4] == self.arg@[3],
            r@[5] == self.crc,
    {
        [self.index, self.arg[0], self.arg[1], self.arg[2], self.arg[3], self.crc]
    }
}

/// The command with index byte `index`, argument bytes `a0` to `a3` (most
/// significant first) and CRC byte `crc`.
pub open spec fn sd_cmd(index: u8, a0: u8, a1: u8, a2: u8, a3: u8, crc: u8) -> SdCmd {
    SdCmd { index, arg: [a0, a1, a2, a3], crc }
}

/// CMD0, GO_IDLE_STATE: software reset.
pub fn cmd_0() -> (c: SdCmd)
    ensures
        c == sd_cmd(0x40, 0, 0, 0, 0, 0x95),
{
    SdCmd { index: 0x40, arg: [0, 0, 0, 0], crc: 0x95 }
}

/// CMD1, SEND_OP_COND.
pub fn cmd_1() -> (c: SdCmd)
    ensures
        c == sd_cmd(0x41, 0, 0, 0, 0, 0x00),
{
    SdCmd { index: 0x41, arg: [0, 0, 0, 0], crc: 0x00 }
}

/// CMD8, SEND_IF_COND, with the check pattern 0x1aa.
pub fn cmd_8() -> (c: SdCmd)
    ensures
        c == sd_cmd(0x48, 0x00, 0x00, 0x01, 0xaa, 0x87),
{
    SdCmd { index: 0x48, arg: [0x00, 0x00, 0x01, 0xaa], crc: 0x87 }
}

/// CMD55, APP_CMD: the next command is an application command.
pub fn cmd_55() -> (c: SdCmd)
    ensures
        c == sd_cmd(0x77, 0, 0, 0, 0, 0x65),
{
    SdCmd { index: 0x77, arg: [0, 0, 0, 0], crc: 0x65 }
}

/// CMD58, READ_OCR.
pub fn cmd_58() -> (c: SdCmd)
    ensures
        c == sd_cmd(0x7a, 0, 0, 0, 0, 0x55),
{
    SdCmd { index: 0x7a, arg: [0, 0, 0, 0], crc: 0x55 }
}

/// ACMD41, SD_SEND_OP_COND, without the high capacity bit.
pub fn acmd_41_0() -> (c: SdCmd)
    ensures
        c == sd_cmd(0x69, 0, 0, 0, 0, 0xe5),
{
    SdCmd { index: 0x69, arg: [0, 0, 0, 0], crc: 0xe5 }
}

/// ACMD41, SD_SEND_OP_COND, with the high capacity bit (argument 0x40000000).
pub fn acmd_41_4() -> (c: SdCmd)
    ensures
        c == sd_cmd(0x69, 0x40, 0x00, 0x00, 0x00, 0x77),
{
    SdCmd { index: 0x69, arg: [0x40, 0x00, 0x00, 0x00], crc: 0x77 }
}

/// A test frame with an index outside the command range.
pub fn test_cmd() -> (c: SdCmd)
    ensures
        c == sd_cmd(0xf1, 0, 0, 0, 0, 0x55),
{
    SdCmd { index: 0xf1, arg: [0, 0, 0, 0], crc: 0x55 }
}

/// CMD17, READ_SINGLE_BLOCK.
pub fn cmd_17() -> (c: SdCmd)
    ensures
        c == sd_cmd(0x51, 0, 0, 0, 0, 0x55),
{
    SdCmd { index: 0x51, arg: [0x00, 0x00, 0x00, 0x00], crc: 0x55 }
}

/// CMD18, READ_MULTIPLE_BLOCK.
pub fn cmd_18() -> (c: SdCmd)
    ensures
        c == sd_cmd(0x52, 0, 0, 0, 0, 0x55),
{
    SdCmd { index: 0x52, arg: [0x00, 0x00, 0x00, 0x00], crc: 0x55 }
}

/// CMD12, STOP_TRANSMISSION.
pub fn cmd_12() -> (c: SdCmd)
    ensures
        c == sd_cmd(0x4c, 0, 0, 0, 0, 0x55),
{
    SdCmd { index: 0x4c, arg: [0x00, 0x00, 0x00, 0x00], crc: 0x55 }
}


/// Only the low byte of an argument reaches a `with_arg` frame: masking
/// the three high byte lanes and cutting each to a byte leaves 0, and the
/// last argument byte is the argument's low byte, for every argument.
pub proof fn law_with_arg_low_byte(arg: u32)
    ensures
        arg_bytes(arg).len() == 4,
        arg_bytes(arg)[0] == 0,
        arg_bytes(arg)[1] == 0,
        arg_bytes(arg)[2] == 0,
        arg_bytes(arg)[3] == (arg & 0xff) as u8,
        arg_bytes(arg)[3] as int == arg as int % 256,
        frame(0x51, arg_bytes(arg), 0x55)[4] == (arg & 0xff) as u8,
{
    assert((arg & 0xffu32) as u8 == (arg % 256) as u8) by (bit_vector);
}

} // verus!
