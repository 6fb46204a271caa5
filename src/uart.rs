//! The PL011 UART of the board, driven through the bus: pin multiplexing,
//! baud divisors, and transmission of text.
use vstd::prelude::*;
use crate::mmio::{Bus, BusOp};

verus! {

/// Base of the peripheral window.
pub const MMIO_BASE: usize = 0x3F00_0000;
/// GPIO block.
pub const GPIO_BASE: usize = MMIO_BASE + 0x0020_0000;
/// PL011 UART block.
pub const UART_BASE: usize = MMIO_BASE + 0x0020_1000;

/// GPIO function select for pins 10 to 19.
pub const GPFSEL1: usize = GPIO_BASE + 0x04;
/// GPIO pull-up/down control.
pub const GPPUD: usize = GPIO_BASE + 0x94;
/// GPIO pull-up/down clock for pins 0 to 31.
pub const GPPUDCLK0: usize = GPIO_BASE + 0x98;

/// Data register.
pub const UART_DR: usize = UART_BASE;
/// Flag register.
pub const UART_FR: usize = UART_BASE + 0x18;
/// Integer baud divisor.
pub const UART_IBRD: usize = UART_BASE + 0x24;
/// Fractional baud divisor.
pub const UART_FBRD: usize = UART_BASE + 0x28;
/// Line control.
pub const UART_LCRH: usize = UART_BASE + 0x2C;
/// Control.
pub const UART_CR: usize = UART_BASE + 0x30;
/// Interrupt clear.
pub const UART_ICR: usize = UART_BASE + 0x44;

/// Reference clock of the UART, in Hz.
pub const UART_CLOCK: u32 = 48_000_000;
/// Line speed set up at boot, in bits per second.
pub const BAUD_RATE: u32 = 921_600;

/// Cycles to hold each step of the pull-up/down sequence.
pub const PULL_DELAY: usize = 2000;
/// Pull clock bits of pins 14 and 15.
pub const PULL_CLOCK_PINS: usize = (1 << 14) | (1 << 15);
/// Clears every UART interrupt.
pub const CLEAR_ALL_INTERRUPTS: usize = 0x7FF;
/// Eight data bits, no parity, one stop bit, FIFOs on.
pub const LINE_8N1_FIFO: usize = (0b11 << 5) | (1 << 4);
/// UART, transmitter and receiver enabled.
pub const ENABLE_UART_TX_RX: usize = (1 << 0) | (1 << 8) | (1 << 9);

/// The function of GPIO pin `pin` (10 to 19) in a GPFSEL1 value.
pub open spec fn pin_function(v: u32, pin: u32) -> u32 {
    (v >> (3 * (pin - 10)) as u32) & 7
}

/// `v` with pins 14 and 15 set to alternate function 0 (UART TXD0 and
/// RXD0) and every other pin's function as it was.
pub fn alt0_uart_pins(v: u32) -> (r: u32)
    ensures
        pin_function(r, 14) == 4,
        pin_function(r, 15) == 4,
        forall|p: u32| 10 <= p < 20 && p != 14 && p != 15 ==> #[trigger] pin_function(r, p) == pin_function(v, p),
        r >> 30 == v >> 30,
{
    let r = (v & !((7u32 << 12u32) | (7u32 << 15u32))) | ((4u32 << 12u32) | (4u32 << 15u32));
    assert(((r >> 12u32) & 7) == 4 && ((r >> 15u32) & 7) == 4 && r >> 30u32 == v >> 30u32) by (bit_vector)
        requires
            r == (v & !((7u32 << 12u32) | (7u32 << 15u32))) | ((4u32 << 12u32) | (4u32 << 15u32)),
    ;
    assert forall|p: u32| 10 <= p < 20 && p != 14 && p != 15 implies #[trigger] pin_function(r, p) == pin_function(v, p) by {
        let sh: u32 = (3 * (p - 10)) as u32;
        assert((r >> sh) & 7 == (v >> sh) & 7) by (bit_vector)
            requires
                r == (v & !((7u32 << 12u32) | (7u32 << 15u32))) | ((4u32 << 12u32) | (4u32 << 15u32)),
                sh == 0 || sh == 3 || sh == 6 || sh == 9 || sh == 18 || sh == 21 || sh == 24 || sh == 27,
        ;
    }
    r
}

/// Integer part of the baud divisor `clock / (16 * baud)`.
pub open spec fn baud_integer(clock: int, baud: int) -> int {
    clock / (16 * baud)
}

/// Fractional part of the baud divisor, in 64ths, rounded to nearest.
pub open spec fn baud_fraction(clock: int, baud: int) -> int {
    ((clock % (16 * baud)) * 64 + (16 * baud) / 2) / (16 * baud)
}

/// The integer and fractional baud divisors for a UART clocked at `clock`
/// Hz running at `baud` bits per second.
pub fn baud_divisors(clock: u32, baud: u32) -> (r: (u32, u32))
    requires
        baud > 0,
    ensures
        r.0 == baud_integer(clock as int, baud as int),
        r.1 == baud_fraction(clock as int, baud as int),
        r.1 <= 64,
{
    let d: u64 = 16 * (baud as u64);
    let c: u64 = clock as u64;
    let rem: u64 = c % d;
    proof {
        assert(rem < d);
        assert(rem * 64 + d / 2 <= 64 * d + d) by (nonlinear_arith)
            requires
                rem < d,
        ;
    }
    let frac: u64 = (rem * 64 + d / 2) / d;
    proof {
        let num = rem * 64 + d / 2;
        assert(num < 65 * d) by (nonlinear_arith)
            requires
                num == rem * 64 + d / 2,
                rem < d,
                d > 0,
        ;
        assert(num / (d as int) <= 64) by (nonlinear_arith)
            requires
                num < 65 * d,
                d > 0,
        ;
        assert(c / d <= c) by (nonlinear_arith)
            requires
                d > 0,
        ;
    }
    ((c / d) as u32, frac as u32)
}

/// The side effects that transmit one character: wait for the UART to be
/// idle, then store the character's low byte in the data register.
pub open spec fn tx_char_ops(c: char) -> Seq<BusOp> {
    seq![BusOp::WaitUartIdle, BusOp::Store { addr: UART_DR, value: ((c as u32) % 256) as usize }]
}

/// The side effects that transmit `s`, one character after the other.
pub open spec fn tx_ops(s: Seq<char>) -> Seq<BusOp>
    decreases s.len(),
{
    if s.len() == 0 {
        Seq::empty()
    } else {
        tx_ops(s.drop_last()) + tx_char_ops(s.last())
    }
}

/// Transmits `string`, each character as its low byte.
pub fn write_str(bus: &mut Bus, string: &str)
    ensures
        final(bus)@ == old(bus)@ + tx_ops(string@),
{
    proof {
        assert(string@.take(string@.len() as int) =~= string@);
    }
    for c in it: string.chars()
        invariant
            it.seq() == string@,
            string@.take(string@.len() as int) == string@,
            bus@ == old(bus)@ + tx_ops(it.seq().take(it.index() as int)),
        ensures
            bus@ == old(bus)@ + tx_ops(string@),
    {
        let ghost k = it.index() as int;
        bus.emit(BusOp::WaitUartIdle);
        bus.emit(BusOp::Store { addr: UART_DR, value: (c as u32 % 256) as usize });
        proof {
            let s = it.seq();
            assert(s.take(k + 1).drop_last() =~= s.take(k));
            assert(s.take(k + 1).last() == c);
        }
    }
}

/// Transmits the byte `c` once the transmit FIFO has room.
pub fn uart_write_char(bus: &mut Bus, c: u8)
    ensures
        final(bus)@ == old(bus)@ + seq![BusOp::WaitUartTxSpace, BusOp::Store { addr: UART_DR, value: c as usize }],
{
    bus.emit(BusOp::WaitUartTxSpace);
    bus.emit(BusOp::Store { addr: UART_DR, value: c as usize });
    assert(bus@ =~= old(bus)@ + seq![BusOp::WaitUartTxSpace, BusOp::Store { addr: UART_DR, value: c as usize }]);
}

/// The side effects that bring up the UART, given the value `gpfsel1` read
/// from the GPIO function select register: pins 14 and 15 to the UART,
/// their pulls off, the UART stopped once idle, its interrupts cleared, its
/// baud divisors, line format and enables written.
pub open spec fn uart_init_ops(gpfsel1: usize, ibrd: usize, fbrd: usize) -> Seq<BusOp> {
    seq![
        BusOp::Store { addr: GPFSEL1, value: gpfsel1 },
        BusOp::Store { addr: GPPUD, value: 0 },
        BusOp::Delay { cycles: PULL_DELAY },
        BusOp::Store { addr: GPPUDCLK0, value: PULL_CLOCK_PINS },
        BusOp::Delay { cycles: PULL_DELAY },
        BusOp::Store { addr: GPPUD, value: 0 },
        BusOp::Store { addr: GPPUDCLK0, value: 0 },
        BusOp::WaitUartIdle,
        BusOp::Store { addr: UART_CR, value: 0 },
        BusOp::Store { addr: UART_ICR, value: CLEAR_ALL_INTERRUPTS },
        BusOp::Store { addr: UART_IBRD, value: ibrd },
        BusOp::Store { addr: UART_FBRD, value: fbrd },
        BusOp::Store { addr: UART_LCRH, value: LINE_8N1_FIFO },
        BusOp::Store { addr: UART_CR, value: ENABLE_UART_TX_RX },
    ]
}

/// Brings up the UART at `BAUD_RATE`; `gpfsel1` is the value the GPIO
/// function select register held before.
pub fn init_uart_pl011_rpi3(bus: &mut Bus, gpfsel1: u32)
    ensures
        exists|pins: u32|
            pin_function(pins, 14) == 4 && pin_function(pins, 15) == 4 && (forall|p: u32|
                10 <= p < 20 && p != 14 && p != 15 ==> #[trigger] pin_function(pins, p) == pin_function(gpfsel1, p))
                && final(bus)@ == old(bus)@ + uart_init_ops(
                pins as usize,
                baud_integer(UART_CLOCK as int, BAUD_RATE as int) as usize,
                baud_fraction(UART_CLOCK as int, BAUD_RATE as int) as usize,
            ),
{
    let pins = alt0_uart_pins(gpfsel1);
    let (ibrd, fbrd) = baud_divisors(UART_CLOCK, BAUD_RATE);
    bus.emit(BusOp::Store { addr: GPFSEL1, value: pins as usize });
    bus.emit(BusOp::Store { addr: GPPUD, value: 0 });
    bus.emit(BusOp::Delay { cycles: PULL_DELAY });
    bus.emit(BusOp::Store { addr: GPPUDCLK0, value: PULL_CLOCK_PINS });
    bus.emit(BusOp::Delay { cycles: PULL_DELAY });
    bus.emit(BusOp::Store { addr: GPPUD, value: 0 });
    bus.emit(BusOp::Store { addr: GPPUDCLK0, value: 0 });
    bus.emit(BusOp::WaitUartIdle);
    bus.emit(BusOp::Store { addr: UART_CR, value: 0 });
    bus.emit(BusOp::Store { addr: UART_ICR, value: CLEAR_ALL_INTERRUPTS });
    bus.emit(BusOp::Store { addr: UART_IBRD, value: ibrd as usize });
    bus.emit(BusOp::Store { addr: UART_FBRD, value: fbrd as usize });
    bus.emit(BusOp::Store { addr: UART_LCRH, value: LINE_8N1_FIFO });
    bus.emit(BusOp::Store { addr: UART_CR, value: ENABLE_UART_TX_RX });
    assert(bus@ =~= old(bus)@ + uart_init_ops(pins as usize, ibrd as usize, fbrd as usize));
}

} // verus!
