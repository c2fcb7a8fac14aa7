use std::cell::RefCell;
use std::rc::Rc;

use epaper::gdew042z15::GDEW042Z15;
use epaper::hal::{Countdown, DigitalInput, DigitalOutput, DuplexBus};
use epaper::{Hertz, NotReady};

// A bus word as seen on the wire: `true` marks a data byte (data/command
// line high), `false` a command byte.
type Wire = Rc<RefCell<Vec<(bool, u8)>>>;

struct MockBus {
    wire: Wire,
    data_cmd_level: Rc<RefCell<bool>>,
}

impl DuplexBus for MockBus {
    fn exchange(&mut self, byte: u8) -> u8 {
        self.wire.borrow_mut().push((*self.data_cmd_level.borrow(), byte));
        0
    }
}

// A digital output whose level is shared with the bus mock (for the
// data/command line) or simply recorded.
struct MockOutput {
    level: Rc<RefCell<bool>>,
}

impl DigitalOutput for MockOutput {
    fn set_low(&mut self) {
        *self.level.borrow_mut() = false;
    }

    fn set_high(&mut self) {
        *self.level.borrow_mut() = true;
    }
}

// A busy line that plays back a script of `is_low` answers and then stays
// idle.
struct MockBusy {
    script: Rc<RefCell<Vec<bool>>>,
}

impl DigitalInput for MockBusy {
    fn is_low(&mut self) -> bool {
        let mut script = self.script.borrow_mut();
        if script.is_empty() {
            false
        } else {
            script.remove(0)
        }
    }
}

// A timer that always reports "expired" on the first poll.
struct MockTimer;

impl Countdown for MockTimer {
    fn start(&mut self, _rate: Hertz) {
    }

    fn wait(&mut self) -> Result<(), NotReady> {
        Ok(())
    }

    fn wait_blocking(&mut self) {
    }
}

fn make_driver(
    busy_script: Vec<bool>,
) -> (GDEW042Z15<MockBus, MockBusy, MockOutput, MockOutput, MockOutput, MockTimer>, Wire) {
    let wire: Wire = Rc::new(RefCell::new(Vec::new()));
    let data_cmd_level = Rc::new(RefCell::new(true));
    let spi = MockBus { wire: wire.clone(), data_cmd_level: data_cmd_level.clone() };
    let busy = MockBusy { script: Rc::new(RefCell::new(busy_script)) };
    let reset = MockOutput { level: Rc::new(RefCell::new(true)) };
    let data_cmd = MockOutput { level: data_cmd_level };
    let cs = MockOutput { level: Rc::new(RefCell::new(true)) };
    let driver = GDEW042Z15::new(spi, busy, reset, data_cmd, cs, MockTimer);
    (driver, wire)
}

const CMD: bool = false;
const DATA: bool = true;

// With the busy input alternating and the timer always expired on its
// first poll, init reaches the initialized state after its four internal
// transitions, never regresses, and puts exactly the documented words on
// the bus, once.
#[test]
fn test_init_sequence() {
    let (mut driver, wire) = make_driver(vec![true, false, true, false]);
    assert!(driver.init().is_err());
    assert!(wire.borrow().is_empty());
    assert!(driver.init().is_err());
    assert!(driver.init().is_ok());
    let expected = vec![
        (CMD, 0x06),
        (DATA, 0x17),
        (DATA, 0x17),
        (DATA, 0x17),
        (CMD, 0x04),
        (CMD, 0x00),
        (DATA, 0x0f),
    ];
    assert_eq!(*wire.borrow(), expected);
    // Once ready it stays ready and sends nothing more.
    assert!(driver.init().is_ok());
    assert!(driver.init().is_ok());
    assert_eq!(*wire.borrow(), expected);
}

#[test]
fn test_start_frame_busy() {
    let (mut driver, wire) = make_driver(vec![true]);
    assert!(driver.start_frame().is_err());
    assert!(wire.borrow().is_empty());
    assert!(driver.start_frame().is_ok());
    assert_eq!(*wire.borrow(), vec![(CMD, 0x10)]);
}

// end_frame writes exactly 400*300/8 = 15000 bytes for the mandatory
// secondary plane, framed by the plane command and the refresh command.
#[test]
fn test_end_frame_secondary_plane() {
    let (mut driver, wire) = make_driver(vec![]);
    driver.end_frame();
    let words = wire.borrow();
    assert_eq!(words.len(), 15002);
    assert_eq!(words[0], (CMD, 0x13));
    assert_eq!(words[15001], (CMD, 0x12));
    assert!(words[1..15001].iter().all(|w| *w == (DATA, 0xff)));
}

#[test]
fn test_draw_row() {
    let (mut driver, wire) = make_driver(vec![]);
    let mut row = vec![0u8; 60];
    for (i, b) in row.iter_mut().enumerate() {
        *b = i as u8;
    }
    driver.draw_row(&row);
    let words = wire.borrow();
    // Only the first 400/8 = 50 bytes of the row are sent, as data.
    assert_eq!(words.len(), 50);
    for i in 0..50 {
        assert_eq!(words[i], (DATA, i as u8));
    }
}

#[test]
fn test_destroy_returns_parts() {
    let (driver, wire) = make_driver(vec![]);
    let (_spi, _busy, _reset, _data_cmd, _cs, _timer) = driver.destroy();
    assert!(wire.borrow().is_empty());
}
