use smp_boot::mailbox::BringUp;
use smp_boot::mmio::{Bus, BusOp};
use smp_boot::uart::{
    alt0_uart_pins, baud_divisors, init_uart_pl011_rpi3, uart_write_char, write_str, GPFSEL1, GPPUD, GPPUDCLK0,
    UART_CR, UART_DR, UART_FBRD, UART_IBRD, UART_ICR, UART_LCRH,
};

#[test]
fn write_str_sends_each_character_after_waiting() {
    let mut bus = Bus::new();
    write_str(&mut bus, "Hi!");
    assert_eq!(
        bus.ops(),
        vec![
            BusOp::WaitUartIdle,
            BusOp::Store { addr: UART_DR, value: 0x48 },
            BusOp::WaitUartIdle,
            BusOp::Store { addr: UART_DR, value: 0x69 },
            BusOp::WaitUartIdle,
            BusOp::Store { addr: UART_DR, value: 0x21 },
        ]
    );
}

#[test]
fn write_str_of_empty_text_does_nothing() {
    let mut bus = Bus::new();
    write_str(&mut bus, "");
    assert_eq!(bus.len(), 0);
}

#[test]
fn write_str_sends_the_low_byte_of_wide_characters() {
    let mut bus = Bus::new();
    write_str(&mut bus, "\u{e9}\u{20ac}");
    assert_eq!(bus.len(), 4);
    assert_eq!(bus.op(1), BusOp::Store { addr: UART_DR, value: 0xe9 });
    assert_eq!(bus.op(3), BusOp::Store { addr: UART_DR, value: 0xac });
}

#[test]
fn write_char_waits_for_fifo_room() {
    let mut bus = Bus::new();
    uart_write_char(&mut bus, b'x');
    assert_eq!(bus.ops(), vec![BusOp::WaitUartTxSpace, BusOp::Store { addr: 0x3F20_1000, value: 0x78 }]);
}

#[test]
fn baud_divisors_at_boot_speed() {
    assert_eq!(baud_divisors(48_000_000, 921_600), (3, 16));
}

#[test]
fn baud_divisors_at_115200() {
    assert_eq!(baud_divisors(48_000_000, 115_200), (26, 3));
}

#[test]
fn baud_divisors_extremes() {
    assert_eq!(baud_divisors(0, 1), (0, 0));
    assert_eq!(baud_divisors(u32::MAX, 1), (u32::MAX / 16, 60));
    assert_eq!(baud_divisors(15, u32::MAX), (0, 0));
}

#[test]
fn alt0_pins_keep_other_pins() {
    assert_eq!(alt0_uart_pins(0), 0x24000);
    assert_eq!(alt0_uart_pins(0xFFFF_FFFF), 0xFFFE_4FFF);
    assert_eq!(alt0_uart_pins(0x0003_F000), 0x24000);
    assert_eq!(alt0_uart_pins(0x0000_0249), 0x24249);
}

#[test]
fn uart_init_sequence() {
    let mut bus = Bus::new();
    init_uart_pl011_rpi3(&mut bus, 0x0000_0249);
    assert_eq!(
        bus.ops(),
        vec![
            BusOp::Store { addr: GPFSEL1, value: 0x24249 },
            BusOp::Store { addr: GPPUD, value: 0 },
            BusOp::Delay { cycles: 2000 },
            BusOp::Store { addr: GPPUDCLK0, value: (1 << 14) | (1 << 15) },
            BusOp::Delay { cycles: 2000 },
            BusOp::Store { addr: GPPUD, value: 0 },
            BusOp::Store { addr: GPPUDCLK0, value: 0 },
            BusOp::WaitUartIdle,
            BusOp::Store { addr: UART_CR, value: 0 },
            BusOp::Store { addr: UART_ICR, value: 0x7FF },
            BusOp::Store { addr: UART_IBRD, value: 3 },
            BusOp::Store { addr: UART_FBRD, value: 16 },
            BusOp::Store { addr: UART_LCRH, value: (0b11 << 5) | (1 << 4) },
            BusOp::Store { addr: UART_CR, value: (1 << 0) | (1 << 8) | (1 << 9) },
        ]
    );
}

#[test]
fn controller_reports_through_the_uart() {
    let mut b = BringUp::new(0x1000, 0x1000, 0x80);
    b.write_str("ok");
    assert_eq!(b.bus().len(), 4);
    assert_eq!(b.bus().op(3), BusOp::Store { addr: UART_DR, value: b'k' as usize });
}
