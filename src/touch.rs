//! Driver for a resistive touch controller of the XPT2046 kind.
//!
//! A sample is four bus operations in one transaction: start the X
//! conversion, read two bytes, start the Y conversion, read two bytes. Each
//! reading is a big-endian 16-bit value whose low three bits are status;
//! the rest is mapped onto the panel's coordinates by a calibration.
use vstd::prelude::*;
use crate::bus::{
    request_result, select_cycle, BusRequest, OutputPin, PinRequest, SharedSpi, SpiBus,
    SpiBusHandle, SpiDeviceWithCs, SpiDeviceWithCsError, SpiSetFrequency,
};

verus! {

/// Control byte that starts an X conversion.
pub const START_X: u8 = 0x90;

/// Control byte that starts a Y conversion.
pub const START_Y: u8 = 0xd0;

/// Two affine maps from raw readings onto `[0, sx]` and `[0, sy]`: a
/// reading of `x1` maps to 0 and one of `x2` to `sx`, likewise for Y. With
/// `mirror_x` the X axis runs the other way.
#[derive(Clone, Copy, Debug, PartialEq, Eq)]
pub struct Calibration {
    pub x1: i32,
    pub x2: i32,
    pub y1: i32,
    pub y2: i32,
    pub sx: i32,
    pub sy: i32,
    pub mirror_x: bool,
}

impl Calibration {
    /// Both ranges are non-empty and both output sizes are non-negative.
    pub open spec fn wf(&self) -> bool {
        &&& self.x1 != self.x2
        &&& self.y1 != self.y2
        &&& self.sx >= 0
        &&& self.sy >= 0
    }

    /// The calibration of a 320 by 240 panel.
    pub fn panel_320x240() -> (r: Self)
        ensures
            r == standard_calibration(),
            r.wf(),
    {
        Calibration { x1: 3880, x2: 340, y1: 262, y2: 3850, sx: 320, sy: 240, mirror_x: false }
    }
}

/// The calibration of a 320 by 240 panel.
pub open spec fn standard_calibration() -> Calibration {
    Calibration { x1: 3880, x2: 340, y1: 262, y2: 3850, sx: 320, sy: 240, mirror_x: false }
}

/// The 13 value bits of a reading: the two bytes big-endian, less the low
/// three status bits.
pub open spec fn raw_reading(b: Seq<u8>) -> int {
    (b[0] * 256 + b[1]) / 8
}

/// `a / b` rounded toward zero.
pub open spec fn div_toward_zero(a: int, b: int) -> int {
    let q = abs(a) / abs(b);
    if (a < 0) == (b < 0) {
        q
    } else {
        -q
    }
}

pub open spec fn abs(a: int) -> int {
    if a < 0 {
        -a
    } else {
        a
    }
}

pub open spec fn clamp(v: int, lo: int, hi: int) -> int {
    if v < lo {
        lo
    } else if v > hi {
        hi
    } else {
        v
    }
}

/// A raw reading mapped onto `[0, s]` by the map that sends `a1` to 0 and
/// `a2` to `s`.
pub open spec fn scale(raw: int, a1: int, a2: int, s: int) -> int {
    clamp(div_toward_zero((raw - a1) * s, a2 - a1), 0, s)
}

/// The panel position of two readings, or `None` where both coordinates
/// are 0, which stands for "no contact". A real touch that maps to the
/// origin reads as no contact too.
pub open spec fn decode_spec(x: Seq<u8>, y: Seq<u8>, cal: Calibration) -> Option<(i32, i32)> {
    let xs = scale(raw_reading(x), cal.x1 as int, cal.x2 as int, cal.sx as int);
    let xs = if cal.mirror_x {
        cal.sx - xs
    } else {
        xs
    };
    let ys = scale(raw_reading(y), cal.y1 as int, cal.y2 as int, cal.sy as int);
    if xs == 0 && ys == 0 {
        None
    } else {
        Some((xs as i32, ys as i32))
    }
}

/// The bus requests of one complete sample that read `x` and `y`, all of
/// them successful.
pub open spec fn sample_requests<E>(x: Seq<u8>, y: Seq<u8>) -> Seq<BusRequest<E>> {
    seq![
        BusRequest::Write(seq![START_X], Ok(())),
        BusRequest::Read(x, Ok(())),
        BusRequest::Write(seq![START_Y], Ok(())),
        BusRequest::Read(y, Ok(())),
    ]
}

proof fn lemma_unit_ok<E>(r: Result<(), E>)
    requires
        r is Ok,
    ensures
        r == Ok::<(), E>(()),
{
    assert(r->Ok_0 == ());
}

/// The value bits of a reading.
fn reading(b: [u8; 2]) -> (r: u16)
    ensures
        r == raw_reading(b@),
{
    let hi = b[0] as u16;
    let lo = b[1] as u16;
    (hi * 256 + lo) / 8
}

/// One axis of a calibration applied to a reading.
fn scale_axis(raw: u16, a1: i32, a2: i32, s: i32) -> (r: i32)
    requires
        a1 != a2,
        s >= 0,
    ensures
        r == scale(raw as int, a1 as int, a2 as int, s as int),
        0 <= r <= s,
{
    let d: i64 = raw as i64 - a1 as i64;
    assert(-0x8000_0000 < d < 0x1_0000_0000);
    assert(-0x8000_0000 * 0x8000_0000 < d * s < 0x1_0000_0000 * 0x8000_0000) by (nonlinear_arith)
        requires
            -0x8000_0000 < d < 0x1_0000_0000,
            0 <= s < 0x8000_0000,
    ;
    let num: i64 = d * s as i64;
    let den: i64 = a2 as i64 - a1 as i64;
    let num_abs: u64 = if num < 0 {
        (-num) as u64
    } else {
        num as u64
    };
    let den_abs: u64 = if den < 0 {
        (-den) as u64
    } else {
        den as u64
    };
    let q: u64 = num_abs / den_abs;
    assert(q <= num_abs) by (nonlinear_arith)
        requires
            q == num_abs / den_abs,
            den_abs > 0,
    ;
    let v: i64 = if (num < 0) == (den < 0) {
        q as i64
    } else {
        -(q as i64)
    };
    if v < 0 {
        0
    } else if v > s as i64 {
        s
    } else {
        v as i32
    }
}

/// The panel position of the X and Y readings `x` and `y` under `cal`.
pub fn decode(x: [u8; 2], y: [u8; 2], cal: &Calibration) -> (r: Option<(i32, i32)>)
    requires
        cal.wf(),
    ensures
        r == decode_spec(x@, y@, *cal),
{
    let xs = scale_axis(reading(x), cal.x1, cal.x2, cal.sx);
    let xs = if cal.mirror_x {
        cal.sx - xs
    } else {
        xs
    };
    let ys = scale_axis(reading(y), cal.y1, cal.y2, cal.sy);
    if xs == 0 && ys == 0 {
        None
    } else {
        Some((xs, ys))
    }
}

/// Runs the four steps of a sample, stopping at the first failure.
fn sample<B: SpiBus>(bus: &mut SpiBusHandle<B>, x: &mut [u8; 2], y: &mut [u8; 2]) -> (r: Result<
    (),
    B::Error,
>)
    ensures
        r is Ok ==> final(bus).requests() == old(bus).requests() + sample_requests(
            final(x)@,
            final(y)@,
        ),
        r is Err ==> final(bus).requests().len() > old(bus).requests().len() && request_result(
            final(bus).requests().last(),
        ) == r,
{
    let ghost before = bus.requests();
    let cmd_x: [u8; 1] = [START_X];
    let cmd_y: [u8; 1] = [START_Y];
    let r1 = bus.write(&cmd_x);
    if r1.is_err() {
        return r1;
    }
    let r2 = bus.read(x);
    if r2.is_err() {
        return r2;
    }
    let r3 = bus.write(&cmd_y);
    if r3.is_err() {
        return r3;
    }
    let r4 = bus.read(y);
    proof {
        if r4 is Ok {
            lemma_unit_ok(r1);
            lemma_unit_ok(r2);
            lemma_unit_ok(r3);
            lemma_unit_ok(r4);
            assert(cmd_x@ =~= seq![START_X]);
            assert(cmd_y@ =~= seq![START_Y]);
            assert(bus.requests() =~= before + sample_requests(x@, y@));
        }
    }
    r4
}

/// A touch controller on a shared bus, with its calibration.
pub struct Touch<CS> {
    spi: SpiDeviceWithCs<CS>,
    cal: Calibration,
}

impl<CS: OutputPin> Touch<CS> {
    pub closed spec fn calibration(&self) -> Calibration {
        self.cal
    }

    pub closed spec fn frequency(&self) -> u32 {
        self.spi.frequency()
    }

    /// The requests made of the select line, oldest first.
    pub closed spec fn select_drives(&self) -> Seq<PinRequest<CS::Error>> {
        self.spi.select_drives()
    }

    pub open spec fn wf(&self) -> bool {
        self.calibration().wf()
    }

    /// A controller of a 320 by 240 panel (see [`Calibration::panel_320x240`]).
    pub fn new(spi: SpiDeviceWithCs<CS>) -> (r: Self)
        ensures
            r.wf(),
            r.calibration() == standard_calibration(),
            r.frequency() == spi.frequency(),
    {
        Touch { spi, cal: Calibration::panel_320x240() }
    }

    pub fn with_calibration(spi: SpiDeviceWithCs<CS>, cal: Calibration) -> (r: Self)
        requires
            cal.wf(),
        ensures
            r.wf(),
            r.calibration() == cal,
            r.frequency() == spi.frequency(),
    {
        Touch { spi, cal }
    }

    /// Takes one sample in one transaction on `bus`: `Ok(None)` where the
    /// panel reports no contact, `Ok(Some((x, y)))` for a touch. A sample is
    /// reported only when every request of the transaction succeeded, and it
    /// is decoded from the bytes read.
    pub fn read<B: SpiSetFrequency>(&mut self, bus: &mut SharedSpi<B>) -> (r: Result<
        Option<(i32, i32)>,
        SpiDeviceWithCsError<B::Error, CS::Error>,
    >)
        requires
            old(self).wf(),
        ensures
            final(self).calibration() == old(self).calibration(),
            final(self).frequency() == old(self).frequency(),
            old(bus).is_locked() ==> (r matches Err(SpiDeviceWithCsError::Reentrancy)
                && *final(bus) == *old(bus)),
            r matches Err(SpiDeviceWithCsError::Reentrancy) ==> old(bus).is_locked(),
            !old(bus).is_locked() ==> !final(bus).is_locked(),
            r is Ok ==> exists|x: Seq<u8>, y: Seq<u8>|
                {
                    &&& x.len() == 2
                    &&& y.len() == 2
                    &&& final(bus).requests() == old(bus).requests().push(
                        BusRequest::SetFrequency(old(self).frequency()),
                    ) + sample_requests(x, y).push(BusRequest::Flush(Ok(())))
                    &&& final(self).select_drives() == old(self).select_drives() + select_cycle(
                        Ok(()),
                    )
                    &&& r->Ok_0 == decode_spec(x, y, old(self).calibration())
                },
    {
        let mut h = match self.spi.begin(bus) {
            Err(e) => {
                return Err(e);
            },
            Ok(h) => h,
        };
        let ghost h0 = h.requests();
        let ghost d0 = self.spi.select_drives();
        let mut x: [u8; 2] = [0, 0];
        let mut y: [u8; 2] = [0, 0];
        let body = sample(&mut h, &mut x, &mut y);
        let ghost h1 = h.requests();
        let r = self.spi.end(bus, h, body);
        proof {
            if r is Ok {
                let fl = bus.requests().last()->Flush_0;
                let cs = self.spi.select_drives().last().result;
                lemma_unit_ok(fl);
                lemma_unit_ok(cs);
                let last = self.spi.select_drives().last();
                assert(last == PinRequest { high: true, result: Ok::<(), CS::Error>(()) });
                assert(self.spi.select_drives() =~= d0.push(last));
                assert(self.spi.select_drives() =~= old(self).select_drives() + select_cycle(
                    Ok::<(), CS::Error>(()),
                ));
                assert(bus.requests() =~= h1.push(bus.requests().last()));
                assert(bus.requests() =~= old(bus).requests().push(
                    BusRequest::SetFrequency(old(self).frequency()),
                ) + sample_requests(x@, y@).push(BusRequest::Flush(Ok::<(), B::Error>(()))));
            }
        }
        match r {
            Err(e) => Err(e),
            Ok(()) => Ok(decode(x, y, &self.cal)),
        }
    }
}

} // verus!
