# sd_spi

An SD card driver for the Raspberry Pi's SPI bus, with its logic verified
in Verus.

- `src/command.rs`: command frames (`SdCmd`, `SpiCmd`) and the command table.
- `src/response.rs`: decoding of what the card clocks back: R1, R3/R7, the
  answer to CMD12 and single data blocks, from a bit stream in which the
  response may start at any bit.
- `src/init.rs`: the power-up sequence as a step function from phase and
  bus event to next phase and bus action.
- `src/multiblock.rs`: a multi-block read (CMD18 ... CMD12) as a step
  function, with the law that a completed read asks for every block once,
  in order.
- `app/`: the program that drives the SPI, UART and PWM peripherals with
  `rppal` and runs the step functions.
