use std::cell::RefCell;
use std::rc::Rc;

use pico_display::bus::{OutputPin, SharedSpi, SpiBus, SpiDeviceWithCs, SpiSetFrequency};
use pico_display::encode::{send_u8, words_to_bytes, DataFormat};

type Writes = Rc<RefCell<Vec<Vec<u8>>>>;

struct MockBus {
    writes: Writes,
    fail_at: Option<usize>,
}

impl SpiBus for MockBus {
    type Error = ();

    fn write(&mut self, words: &[u8]) -> Result<(), ()> {
        let n = self.writes.borrow().len();
        self.writes.borrow_mut().push(words.to_vec());
        if self.fail_at == Some(n) {
            Err(())
        } else {
            Ok(())
        }
    }

    fn read(&mut self, _words: &mut [u8]) -> Result<(), ()> {
        Ok(())
    }

    fn flush(&mut self) -> Result<(), ()> {
        Ok(())
    }
}

impl SpiSetFrequency for MockBus {
    fn set_frequency(&mut self, _freq: u32) {}
}

struct Pin;

impl OutputPin for Pin {
    type Error = ();

    fn set_low(&mut self) -> Result<(), ()> {
        Ok(())
    }

    fn set_high(&mut self) -> Result<(), ()> {
        Ok(())
    }
}

fn encode(payload: DataFormat, fail_at: Option<usize>) -> (Result<(), ()>, Vec<Vec<u8>>) {
    let writes: Writes = Rc::new(RefCell::new(Vec::new()));
    let mut shared = SharedSpi::new(MockBus { writes: writes.clone(), fail_at });
    let mut dev = SpiDeviceWithCs::new(Pin, 1_000_000);
    let mut inner: Result<(), ()> = Ok(());
    let r = dev.transaction(&mut shared, |mut h| {
        inner = send_u8(&mut h, payload);
        (h, Ok(()))
    });
    assert!(r.is_ok());
    let w = writes.borrow().clone();
    (inner, w)
}

#[test]
fn byte_stream_of_65_goes_out_as_32_32_1() {
    let data: Vec<u8> = (0..65u8).collect();
    let (r, w) = encode(DataFormat::U8Iter(&data), None);
    assert_eq!(r, Ok(()));
    assert_eq!(w.iter().map(|c| c.len()).collect::<Vec<_>>(), vec![32, 32, 1]);
    assert_eq!(w.concat(), data);
}

#[test]
fn big_endian_word_stream_bytes() {
    let (r, w) = encode(DataFormat::U16BEIter(&[0x1234, 0x5678]), None);
    assert_eq!(r, Ok(()));
    assert_eq!(w, vec![vec![0x12, 0x34, 0x56, 0x78]]);
}

#[test]
fn little_endian_word_stream_bytes() {
    let (r, w) = encode(DataFormat::U16LEIter(&[0x1234, 0x5678]), None);
    assert_eq!(r, Ok(()));
    assert_eq!(w, vec![vec![0x34, 0x12, 0x78, 0x56]]);
}

#[test]
fn big_endian_stream_stages_64_words() {
    let data: Vec<u16> = (0..130u16).collect();
    let (r, w) = encode(DataFormat::U16BEIter(&data), None);
    assert_eq!(r, Ok(()));
    assert_eq!(w.iter().map(|c| c.len()).collect::<Vec<_>>(), vec![128, 128, 4]);
    let expected: Vec<u8> = data.iter().flat_map(|v| v.to_be_bytes()).collect();
    assert_eq!(w.concat(), expected);
}

#[test]
fn little_endian_stream_stages_32_words() {
    let data: Vec<u16> = (1000..1033u16).collect();
    let (r, w) = encode(DataFormat::U16LEIter(&data), None);
    assert_eq!(r, Ok(()));
    assert_eq!(w.iter().map(|c| c.len()).collect::<Vec<_>>(), vec![64, 2]);
    let expected: Vec<u8> = data.iter().flat_map(|v| v.to_le_bytes()).collect();
    assert_eq!(w.concat(), expected);
}

#[test]
fn exact_multiple_has_no_remainder_write() {
    let data = [7u8; 64];
    let (r, w) = encode(DataFormat::U8Iter(&data), None);
    assert_eq!(r, Ok(()));
    assert_eq!(w.len(), 2);
}

#[test]
fn empty_stream_writes_nothing() {
    let (r, w) = encode(DataFormat::U8Iter(&[]), None);
    assert_eq!(r, Ok(()));
    assert!(w.is_empty());
}

#[test]
fn slices_go_out_in_one_write() {
    let (_, w) = encode(DataFormat::U8(&[1, 2, 3]), None);
    assert_eq!(w, vec![vec![1, 2, 3]]);
    let (_, w) = encode(DataFormat::U16BE(&[0xabcd]), None);
    assert_eq!(w, vec![vec![0xab, 0xcd]]);
    let (_, w) = encode(DataFormat::U16LE(&[0xabcd, 0x0102]), None);
    assert_eq!(w, vec![vec![0xcd, 0xab, 0x02, 0x01]]);
}

#[test]
fn native_words_use_machine_order() {
    let (_, w) = encode(DataFormat::U16(&[0xabcd, 0x0102]), None);
    let expected: Vec<u8> = [0xabcdu16, 0x0102].iter().flat_map(|v| v.to_ne_bytes()).collect();
    assert_eq!(w, vec![expected]);
}

#[test]
fn failed_write_stops_the_stream() {
    let data: Vec<u8> = (0..100u8).collect();
    let (r, w) = encode(DataFormat::U8Iter(&data), Some(1));
    assert_eq!(r, Err(()));
    assert_eq!(w.len(), 2);
}

#[test]
fn word_conversion() {
    assert_eq!(words_to_bytes(&[0x1234, 0x00ff], true), vec![0x12, 0x34, 0x00, 0xff]);
    assert_eq!(words_to_bytes(&[0x1234, 0x00ff], false), vec![0x34, 0x12, 0xff, 0x00]);
    assert_eq!(words_to_bytes(&[], true), Vec::<u8>::new());
}
