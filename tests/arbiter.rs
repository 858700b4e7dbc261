use std::cell::RefCell;
use std::rc::Rc;

use pico_display::bus::{
    settle, OutputPin, SharedSpi, SpiBus, SpiDeviceWithCs, SpiDeviceWithCsError, SpiSetFrequency,
};

type Log = Rc<RefCell<Vec<String>>>;

struct MockBus {
    log: Log,
    fail_write: bool,
    fail_flush: bool,
}

impl SpiBus for MockBus {
    type Error = u8;

    fn write(&mut self, words: &[u8]) -> Result<(), u8> {
        self.log.borrow_mut().push(format!("write {:?}", words));
        if self.fail_write {
            Err(1)
        } else {
            Ok(())
        }
    }

    fn read(&mut self, words: &mut [u8]) -> Result<(), u8> {
        self.log.borrow_mut().push(format!("read {}", words.len()));
        Ok(())
    }

    fn flush(&mut self) -> Result<(), u8> {
        self.log.borrow_mut().push("flush".to_string());
        if self.fail_flush {
            Err(2)
        } else {
            Ok(())
        }
    }
}

impl SpiSetFrequency for MockBus {
    fn set_frequency(&mut self, freq: u32) {
        self.log.borrow_mut().push(format!("freq {}", freq));
    }
}

struct MockPin {
    name: &'static str,
    log: Log,
    fail_low: bool,
    fail_high: bool,
}

impl OutputPin for MockPin {
    type Error = char;

    fn set_low(&mut self) -> Result<(), char> {
        self.log.borrow_mut().push(format!("{} low", self.name));
        if self.fail_low {
            Err('l')
        } else {
            Ok(())
        }
    }

    fn set_high(&mut self) -> Result<(), char> {
        self.log.borrow_mut().push(format!("{} high", self.name));
        if self.fail_high {
            Err('h')
        } else {
            Ok(())
        }
    }
}

fn bus(log: &Log) -> MockBus {
    MockBus { log: log.clone(), fail_write: false, fail_flush: false }
}

fn pin(name: &'static str, log: &Log) -> MockPin {
    MockPin { name, log: log.clone(), fail_low: false, fail_high: false }
}

fn entries(log: &Log) -> Vec<String> {
    log.borrow().clone()
}

fn count(log: &Log, what: &str) -> usize {
    log.borrow().iter().filter(|e| e.as_str() == what).count()
}

#[test]
fn transaction_success_runs_in_order() {
    let log: Log = Rc::new(RefCell::new(Vec::new()));
    let mut shared = SharedSpi::new(bus(&log));
    let mut dev = SpiDeviceWithCs::new(pin("cs", &log), 16_000_000);
    let r = dev.transaction(&mut shared, |mut h| {
        let w = h.write(&[1, 2, 3]);
        (h, w.map(|_| 7u32))
    });
    assert_eq!(r, Ok(7));
    assert_eq!(
        entries(&log),
        vec!["freq 16000000", "cs low", "write [1, 2, 3]", "flush", "cs high"]
    );
    assert!(!shared.locked());
}

#[test]
fn caller_failure_still_flushes_and_deselects() {
    let log: Log = Rc::new(RefCell::new(Vec::new()));
    let mut b = bus(&log);
    b.fail_write = true;
    let mut shared = SharedSpi::new(b);
    let mut dev = SpiDeviceWithCs::new(pin("cs", &log), 200_000);
    let r = dev.transaction(&mut shared, |mut h| {
        let w = h.write(&[9]);
        (h, w)
    });
    assert_eq!(r, Err(SpiDeviceWithCsError::Spi(1)));
    assert_eq!(entries(&log), vec!["freq 200000", "cs low", "write [9]", "flush", "cs high"]);
    assert_eq!(count(&log, "cs high"), 1);
}

#[test]
fn flush_failure_still_deselects() {
    let log: Log = Rc::new(RefCell::new(Vec::new()));
    let mut b = bus(&log);
    b.fail_flush = true;
    let mut shared = SharedSpi::new(b);
    let mut dev = SpiDeviceWithCs::new(pin("cs", &log), 200_000);
    let r = dev.transaction(&mut shared, |h| (h, Ok(5u8)));
    assert_eq!(r, Err(SpiDeviceWithCsError::Spi(2)));
    assert_eq!(count(&log, "cs high"), 1);
    assert!(!shared.locked());
}

#[test]
fn deselect_failure_is_reported_after_release_attempt() {
    let log: Log = Rc::new(RefCell::new(Vec::new()));
    let mut shared = SharedSpi::new(bus(&log));
    let mut p = pin("cs", &log);
    p.fail_high = true;
    let mut dev = SpiDeviceWithCs::new(p, 200_000);
    let r = dev.transaction(&mut shared, |h| (h, Ok(5u8)));
    assert_eq!(r, Err(SpiDeviceWithCsError::Cs('h')));
    assert_eq!(count(&log, "cs high"), 1);
    assert_eq!(count(&log, "flush"), 1);
}

#[test]
fn caller_failure_takes_priority_over_cleanup_failures() {
    let log: Log = Rc::new(RefCell::new(Vec::new()));
    let mut b = bus(&log);
    b.fail_write = true;
    b.fail_flush = true;
    let mut shared = SharedSpi::new(b);
    let mut p = pin("cs", &log);
    p.fail_high = true;
    let mut dev = SpiDeviceWithCs::new(p, 1);
    let r = dev.transaction(&mut shared, |mut h| { let w = h.write(&[0]); (h, w) });
    assert_eq!(r, Err(SpiDeviceWithCsError::Spi(1)));
    assert_eq!(count(&log, "flush"), 1);
    assert_eq!(count(&log, "cs high"), 1);
}

#[test]
fn select_failure_aborts_before_bus_use() {
    let log: Log = Rc::new(RefCell::new(Vec::new()));
    let mut shared = SharedSpi::new(bus(&log));
    let mut p = pin("cs", &log);
    p.fail_low = true;
    let mut dev = SpiDeviceWithCs::new(p, 3);
    let r = dev.transaction(&mut shared, |mut h| { let w = h.write(&[4]); (h, w) });
    assert_eq!(r, Err(SpiDeviceWithCsError::Cs('l')));
    assert_eq!(entries(&log), vec!["freq 3", "cs low"]);
    assert!(!shared.locked());
}

#[test]
fn each_device_programs_its_own_frequency() {
    let log: Log = Rc::new(RefCell::new(Vec::new()));
    let mut shared = SharedSpi::new(bus(&log));
    let mut display = SpiDeviceWithCs::new(pin("display", &log), 16_000_000);
    let mut touch = SpiDeviceWithCs::new(pin("touch", &log), 200_000);
    assert_eq!(touch.transaction(&mut shared, |mut h| { let w = h.write(&[0x90]); (h, w) }), Ok(()));
    assert_eq!(display.transaction(&mut shared, |mut h| { let w = h.write(&[0x2c]); (h, w) }), Ok(()));
    assert_eq!(touch.transaction(&mut shared, |mut h| { let w = h.write(&[0xd0]); (h, w) }), Ok(()));
    let e = entries(&log);
    let at = e.iter().position(|x| x == "display low").unwrap();
    assert_eq!(e[at - 1], "freq 16000000");
    let last_touch = e.iter().rposition(|x| x == "touch low").unwrap();
    assert_eq!(e[last_touch - 1], "freq 200000");
    assert_eq!(display.freq(), 16_000_000);
}

#[test]
fn second_transaction_while_one_is_open_is_refused() {
    let log: Log = Rc::new(RefCell::new(Vec::new()));
    let mut shared = SharedSpi::new(bus(&log));
    let mut a = SpiDeviceWithCs::new(pin("a", &log), 10);
    let mut b = SpiDeviceWithCs::new(pin("b", &log), 20);
    let h = match a.begin(&mut shared) {
        Ok(h) => h,
        Err(_) => panic!("begin failed"),
    };
    assert!(shared.locked());
    let before = entries(&log);
    let r = b.transaction(&mut shared, |mut h| { let w = h.write(&[1]); (h, w) });
    assert_eq!(r, Err(SpiDeviceWithCsError::Reentrancy));
    assert_eq!(entries(&log), before);
    assert_eq!(a.end(&mut shared, h, Ok(())), Ok(()));
    assert!(!shared.locked());
    assert_eq!(b.transaction(&mut shared, |mut h| { let w = h.write(&[1]); (h, w) }), Ok(()));
}

#[test]
fn settle_reports_first_failure() {
    assert_eq!(settle::<u8, u8, char>(Ok(1), Ok(()), Ok(())), Ok(1));
    assert_eq!(settle::<u8, u8, char>(Err(3), Err(4), Err('x')), Err(SpiDeviceWithCsError::Spi(3)));
    assert_eq!(settle::<u8, u8, char>(Ok(1), Err(4), Err('x')), Err(SpiDeviceWithCsError::Spi(4)));
    assert_eq!(settle::<u8, u8, char>(Ok(1), Ok(()), Err('x')), Err(SpiDeviceWithCsError::Cs('x')));
}
