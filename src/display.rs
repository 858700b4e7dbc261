//! The command/data interface of a display controller on a shared bus.
//!
//! The controller tells commands from data by a separate line, driven low
//! for commands and high for data, inside the same transaction as the
//! bytes it qualifies.
use vstd::prelude::*;
use crate::bus::{
    select_cycle, settle_spec, BusRequest, OutputPin, PinRequest, SharedSpi, SpiBus,
    SpiDeviceWithCs, SpiDeviceWithCsError, SpiSetFrequency,
};
use crate::encode::{frames, send_u8, sent, DataFormat};

verus! {

/// Why a payload could not be sent to the display.
#[derive(Clone, Copy, Debug, PartialEq, Eq, Structural)]
pub enum DisplayError {
    /// The command/data line could not be driven.
    DCError,
    /// The bus transaction failed.
    BusWriteError,
}

/// What the logic of a send reports to its transaction: a failed
/// command/data line as the value `DCError` (the bus is not used), else the
/// outcome of sending the payload.
pub open spec fn display_body<BE, DE>(dc: Result<(), DE>, sent: Result<(), BE>) -> Result<
    Result<(), DisplayError>,
    BE,
> {
    match dc {
        Err(_) => Ok(Err(DisplayError::DCError)),
        Ok(_) => match sent {
            Err(e) => Err(e),
            Ok(_) => Ok(Ok(())),
        },
    }
}

/// What a send reports, given its transaction's result: any failure of the
/// transaction is `BusWriteError`; else what the logic reported.
pub open spec fn display_result_spec<BE, CE>(
    tx: Result<Result<(), DisplayError>, SpiDeviceWithCsError<BE, CE>>,
) -> Result<(), DisplayError> {
    match tx {
        Err(_) => Err(DisplayError::BusWriteError),
        Ok(inner) => inner,
    }
}

/// Maps a send's transaction result to what the send reports.
pub fn display_result<BE, CE>(tx: Result<Result<(), DisplayError>, SpiDeviceWithCsError<BE, CE>>) -> (r:
    Result<(), DisplayError>)
    ensures
        r == display_result_spec(tx),
{
    match tx {
        Err(_) => Err(DisplayError::BusWriteError),
        Ok(inner) => inner,
    }
}

/// Combines a device on a shared bus with its command/data line.
pub struct SPIDisplayInterface<CS, DC> {
    spi: SpiDeviceWithCs<CS>,
    dc: DC,
}

/// What sending `words` through interface `di` on `bus` did, to give `di2`,
/// `bus2` and the result `r`, with the command/data line driven high when
/// `data` holds:
/// - on a locked bus, nothing, and `BusWriteError`;
/// - if the select fails, only the clock was programmed, and
///   `BusWriteError`;
/// - else the clock, then the command/data line, then, if that succeeded,
///   the payload's writes, then the flush; the select line asserted and
///   deasserted once; and the result follows from the outcomes by
///   `display_body`, `settle_spec` and `display_result_spec`.
pub open spec fn sent_to_display<B: SpiBus, CS: OutputPin, DC: OutputPin>(
    di: SPIDisplayInterface<CS, DC>,
    di2: SPIDisplayInterface<CS, DC>,
    bus: SharedSpi<B>,
    bus2: SharedSpi<B>,
    words: DataFormat,
    data: bool,
    r: Result<(), DisplayError>,
) -> bool {
    let clocked = bus.requests().push(BusRequest::SetFrequency(di.frequency()));
    &&& di2.frequency() == di.frequency()
    &&& bus.is_locked() ==> (r == Err::<(), DisplayError>(DisplayError::BusWriteError) && bus2
        == bus && di2 == di)
    &&& !bus.is_locked() ==> !bus2.is_locked()
    &&& !bus.is_locked() ==> {
        ||| exists|c: CS::Error|
            {
                &&& r == Err::<(), DisplayError>(DisplayError::BusWriteError)
                &&& bus2.requests() == clocked
                &&& di2.select_drives() == di.select_drives().push(
                    PinRequest { high: false, result: Err(c) },
                )
                &&& di2.dc_drives() == di.dc_drives()
            }
        ||| exists|dc: Result<(), DC::Error>, sr: Result<(), B::Error>, native_little: bool|
            #![trigger display_body::<B::Error, DC::Error>(dc, sr), frames(words, native_little)]
            {
                let reqs = bus2.requests();
                let cs = di2.select_drives().last().result;
                &&& reqs.len() > 0
                &&& reqs.last() is Flush
                &&& di2.select_drives().len() >= 2
                &&& di2.select_drives() == di.select_drives() + select_cycle(cs)
                &&& di2.dc_drives() == di.dc_drives().push(PinRequest { high: data, result: dc })
                &&& dc is Err ==> reqs.drop_last() == clocked
                &&& dc is Ok ==> sent(clocked, reqs.drop_last(), frames(words, native_little), sr)
                &&& r == display_result_spec(
                    settle_spec(display_body(dc, sr), reqs.last()->Flush_0, cs),
                )
            }
    }
}

impl<CS: OutputPin, DC: OutputPin> SPIDisplayInterface<CS, DC> {
    pub closed spec fn frequency(&self) -> u32 {
        self.spi.frequency()
    }

    /// The requests made of the select line, oldest first.
    pub closed spec fn select_drives(&self) -> Seq<PinRequest<CS::Error>> {
        self.spi.select_drives()
    }

    /// The requests made of the command/data line, oldest first: high for
    /// data, low for commands.
    pub closed spec fn dc_drives(&self) -> Seq<PinRequest<DC::Error>> {
        self.dc.drives()
    }

    /// Creates the interface for a display driver. Nothing is driven.
    pub fn new(spi: SpiDeviceWithCs<CS>, dc: DC) -> (r: Self)
        ensures
            r.frequency() == spi.frequency(),
            r.select_drives() == spi.select_drives(),
            r.dc_drives() == dc.drives(),
    {
        SPIDisplayInterface { spi, dc }
    }

    /// Sends `words` in one transaction, with the command/data line high
    /// when `data` holds, else low.
    fn send<B: SpiSetFrequency>(&mut self, bus: &mut SharedSpi<B>, words: DataFormat, data: bool) -> (r:
        Result<(), DisplayError>)
        ensures
            sent_to_display(*old(self), *final(self), *old(bus), *final(bus), words, data, r),
    {
        let mut h = match self.spi.begin(bus) {
            Err(e) => {
                proof {
                    if !old(bus).is_locked() {
                        let c = e->Cs_0;
                        assert(self.select_drives() == old(self).select_drives().push(
                            PinRequest { high: false, result: Err(c) },
                        ));
                    }
                }
                return Err(DisplayError::BusWriteError);
            },
            Ok(h) => h,
        };
        let ghost clocked = h.requests();
        let ghost d0 = self.spi.select_drives();
        let dc = if data {
            self.dc.set_high()
        } else {
            self.dc.set_low()
        };
        let ghost mut sr: Result<(), B::Error> = Ok(());
        let body: Result<Result<(), DisplayError>, B::Error> = match dc {
            Err(_) => Ok(Err(DisplayError::DCError)),
            Ok(()) => {
                let s = send_u8(&mut h, words);
                proof {
                    sr = s;
                }
                match s {
                    Err(e) => Err(e),
                    Ok(()) => Ok(Ok(())),
                }
            },
        };
        let ghost sent_reqs = h.requests();
        let t = self.spi.end(bus, h, body);
        let r = display_result(t);
        proof {
            let cs = self.select_drives().last().result;
            let last = self.select_drives().last();
            assert(last == PinRequest { high: true, result: cs });
            assert(self.select_drives() =~= d0.push(last));
            assert(self.select_drives() =~= old(self).select_drives() + select_cycle(cs));
            assert(body == display_body(dc, sr));
            let native_little = choose|n: bool|
                {
                    &&& sent(clocked, sent_reqs, frames(words, n), sr)
                    &&& frames(words, n).len() == 0 ==> sr is Ok
                };
            if dc is Ok {
                assert(sent(clocked, bus.requests().drop_last(), frames(words, native_little), sr));
            }
            assert(r == display_result_spec(
                settle_spec(display_body(dc, sr), bus.requests().last()->Flush_0, cs),
            ));
            assert(frames(words, native_little) == frames(words, native_little));
        }
        r
    }

    /// Sends a batch of commands: the command/data line low.
    pub fn send_commands<B: SpiSetFrequency>(&mut self, bus: &mut SharedSpi<B>, cmds: DataFormat) -> (r:
        Result<(), DisplayError>)
        ensures
            sent_to_display(*old(self), *final(self), *old(bus), *final(bus), cmds, false, r),
    {
        self.send(bus, cmds, false)
    }

    /// Sends pixel data: the command/data line high.
    pub fn send_data<B: SpiSetFrequency>(&mut self, bus: &mut SharedSpi<B>, buf: DataFormat) -> (r:
        Result<(), DisplayError>)
        ensures
            sent_to_display(*old(self), *final(self), *old(bus), *final(bus), buf, true, r),
    {
        self.send(bus, buf, true)
    }
}

} // verus!
