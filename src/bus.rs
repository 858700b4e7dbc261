//! One serial bus shared by several devices, each with its own select line
//! and clock rate.
//!
//! A [`SharedSpi`] owns the bus. A device ([`SpiDeviceWithCs`]) borrows it for
//! one transaction at a time: it programs its clock rate, asserts its select
//! line, lends the bus to the caller's logic through a [`SpiBusHandle`], then
//! flushes the bus and deasserts the line whatever the logic returned.
//!
//! The bus and pin traits describe each request made of the hardware, with
//! its outcome, in a log (`requests`, `drives`); the contracts below are
//! stated over those logs.
use vstd::prelude::*;

verus! {

/// A request made of a bus, with what it returned.
pub enum BusRequest<E> {
    /// The clock was programmed to this rate.
    SetFrequency(u32),
    /// These bytes were written.
    Write(Seq<u8>, Result<(), E>),
    /// Bytes were read; these are what the buffer held afterwards.
    Read(Seq<u8>, Result<(), E>),
    /// The bus was flushed.
    Flush(Result<(), E>),
}

/// A request to drive an output pin, with what it returned.
pub struct PinRequest<E> {
    /// Driven high (else low).
    pub high: bool,
    pub result: Result<(), E>,
}

/// The data operations of a serial bus.
pub trait SpiBus {
    type Error;

    /// The requests made of this bus, oldest first. The log is ghost: it is
    /// never computed, and implementations outside verified code leave the
    /// default in place.
    closed spec fn requests(&self) -> Seq<BusRequest<Self::Error>> {
        Seq::empty()
    }

    /// Clocks `words` out on the bus.
    fn write(&mut self, words: &[u8]) -> (r: Result<(), Self::Error>)
        ensures
            final(self).requests() == old(self).requests().push(BusRequest::Write(words@, r)),
    ;

    /// Clocks bytes in from the bus into `words`.
    fn read(&mut self, words: &mut [u8]) -> (r: Result<(), Self::Error>)
        ensures
            final(words)@.len() == old(words)@.len(),
            final(self).requests() == old(self).requests().push(
                BusRequest::Read(final(words)@, r),
            ),
    ;

    /// Waits until every byte written so far has left the bus.
    fn flush(&mut self) -> (r: Result<(), Self::Error>)
        ensures
            final(self).requests() == old(self).requests().push(BusRequest::Flush(r)),
    ;
}

/// A bus whose clock rate can be changed between transactions.
pub trait SpiSetFrequency: SpiBus {
    fn set_frequency(&mut self, freq: u32)
        ensures
            final(self).requests() == old(self).requests().push(BusRequest::SetFrequency(freq)),
    ;
}

/// A digital output, such as a device's select line (active low).
pub trait OutputPin {
    type Error;

    /// The levels this pin was asked to drive, oldest first. The log is
    /// ghost: it is never computed, and implementations outside verified
    /// code leave the default in place.
    closed spec fn drives(&self) -> Seq<PinRequest<Self::Error>> {
        Seq::empty()
    }

    fn set_low(&mut self) -> (r: Result<(), Self::Error>)
        ensures
            final(self).drives() == old(self).drives().push(PinRequest { high: false, result: r }),
    ;

    fn set_high(&mut self) -> (r: Result<(), Self::Error>)
        ensures
            final(self).drives() == old(self).drives().push(PinRequest { high: true, result: r }),
    ;
}

/// Why a transaction failed.
#[derive(Clone, Copy, Debug, PartialEq, Eq)]
pub enum SpiDeviceWithCsError<BUS, CS> {
    /// The bus failed, in the caller's logic or in the final flush.
    Spi(BUS),
    /// The select line could not be asserted or deasserted.
    Cs(CS),
    /// The bus is already lent to another transaction.
    Reentrancy,
}

/// What a transaction reports, given the outcome of the caller's logic, of
/// the flush and of the deassert: the first failure in that order, else the
/// logic's value.
pub open spec fn settle_spec<R, BE, CE>(
    body: Result<R, BE>,
    flush: Result<(), BE>,
    cs: Result<(), CE>,
) -> Result<R, SpiDeviceWithCsError<BE, CE>> {
    match body {
        Err(e) => Err(SpiDeviceWithCsError::Spi(e)),
        Ok(v) => match flush {
            Err(e) => Err(SpiDeviceWithCsError::Spi(e)),
            Ok(_) => match cs {
                Err(e) => Err(SpiDeviceWithCsError::Cs(e)),
                Ok(_) => Ok(v),
            },
        },
    }
}

/// Combines the outcomes of a transaction's three steps into its result.
pub fn settle<R, BE, CE>(body: Result<R, BE>, flush: Result<(), BE>, cs: Result<(), CE>) -> (r:
    Result<R, SpiDeviceWithCsError<BE, CE>>)
    ensures
        r == settle_spec(body, flush, cs),
{
    match body {
        Err(e) => Err(SpiDeviceWithCsError::Spi(e)),
        Ok(v) => match flush {
            Err(e) => Err(SpiDeviceWithCsError::Spi(e)),
            Ok(_) => match cs {
                Err(e) => Err(SpiDeviceWithCsError::Cs(e)),
                Ok(_) => Ok(v),
            },
        },
    }
}

/// What a request returned (programming the clock cannot fail).
pub open spec fn request_result<E>(q: BusRequest<E>) -> Result<(), E> {
    match q {
        BusRequest::SetFrequency(_) => Ok(()),
        BusRequest::Write(_, r) => r,
        BusRequest::Read(_, r) => r,
        BusRequest::Flush(r) => r,
    }
}

/// The select-line requests of a transaction whose select succeeded:
/// assert, then deassert with outcome `cs`.
pub open spec fn select_cycle<E>(cs: Result<(), E>) -> Seq<PinRequest<E>> {
    seq![PinRequest { high: false, result: Ok(()) }, PinRequest { high: true, result: cs }]
}

/// How many times `drives` drives the pin high.
pub open spec fn high_count<E>(drives: Seq<PinRequest<E>>) -> nat
    decreases drives.len(),
{
    if drives.len() == 0 {
        0
    } else {
        high_count(drives.drop_last()) + if drives.last().high {
            1nat
        } else {
            0nat
        }
    }
}

/// The bus as lent to the logic of one transaction. It offers the data
/// operations only: the clock and the select line stay with the device.
pub struct SpiBusHandle<B> {
    bus: B,
}

impl<B: SpiBus> SpiBusHandle<B> {
    /// The requests made of the bus, oldest first.
    pub closed spec fn requests(&self) -> Seq<BusRequest<B::Error>> {
        self.bus.requests()
    }

    pub fn write(&mut self, words: &[u8]) -> (r: Result<(), B::Error>)
        ensures
            final(self).requests() == old(self).requests().push(BusRequest::Write(words@, r)),
    {
        self.bus.write(words)
    }

    pub fn read(&mut self, words: &mut [u8]) -> (r: Result<(), B::Error>)
        ensures
            final(words)@.len() == old(words)@.len(),
            final(self).requests() == old(self).requests().push(
                BusRequest::Read(final(words)@, r),
            ),
    {
        self.bus.read(words)
    }

    pub fn flush(&mut self) -> (r: Result<(), B::Error>)
        ensures
            final(self).requests() == old(self).requests().push(BusRequest::Flush(r)),
    {
        self.bus.flush()
    }
}

/// A bus shared by several devices. While a transaction holds it, the bus
/// itself is out on loan and the cell is locked.
pub struct SharedSpi<B> {
    bus: Option<B>,
}

impl<B: SpiBus> SharedSpi<B> {
    /// The requests made of the bus, oldest first, while it is not lent out.
    pub closed spec fn requests(&self) -> Seq<BusRequest<B::Error>> {
        match self.bus {
            Some(b) => b.requests(),
            None => Seq::empty(),
        }
    }

    /// A transaction holds the bus.
    pub closed spec fn is_locked(&self) -> bool {
        self.bus is None
    }

    pub fn new(bus: B) -> (r: Self)
        ensures
            !r.is_locked(),
            r.requests() == bus.requests(),
    {
        SharedSpi { bus: Some(bus) }
    }

    /// Whether a transaction holds the bus.
    pub fn locked(&self) -> (r: bool)
        ensures
            r == self.is_locked(),
    {
        self.bus.is_none()
    }
}

/// One device on a shared bus: its select line and its clock rate.
pub struct SpiDeviceWithCs<CS> {
    cs: CS,
    freq: u32,
}

impl<CS: OutputPin> SpiDeviceWithCs<CS> {
    pub closed spec fn frequency(&self) -> u32 {
        self.freq
    }

    /// The select line.
    pub closed spec fn select_line(&self) -> CS {
        self.cs
    }

    /// The requests made of the select line, oldest first.
    pub open spec fn select_drives(&self) -> Seq<PinRequest<CS::Error>> {
        self.select_line().drives()
    }

    /// A device on select line `cs` that runs at `freq` Hz. Nothing is
    /// driven.
    pub fn new(cs: CS, freq: u32) -> (r: Self)
        ensures
            r.frequency() == freq,
            r.select_line() == cs,
    {
        SpiDeviceWithCs { cs, freq }
    }

    /// The clock rate that each transaction of this device programs.
    pub fn freq(&self) -> (r: u32)
        ensures
            r == self.frequency(),
    {
        self.freq
    }

    /// Opens a transaction: takes the bus, programs this device's clock rate
    /// and asserts its select line. On success the bus is lent out through
    /// the returned handle until [`Self::end`] gives it back; if the select
    /// fails, the bus is given back untouched but for its clock.
    pub fn begin<B: SpiSetFrequency>(&mut self, spi: &mut SharedSpi<B>) -> (r: Result<
        SpiBusHandle<B>,
        SpiDeviceWithCsError<B::Error, CS::Error>,
    >)
        ensures
            final(self).frequency() == old(self).frequency(),
            old(spi).is_locked() ==> (r matches Err(SpiDeviceWithCsError::Reentrancy)
                && *final(spi) == *old(spi) && *final(self) == *old(self)),
            r matches Err(SpiDeviceWithCsError::Reentrancy) ==> old(spi).is_locked(),
            !old(spi).is_locked() ==> match r {
                Ok(h) => {
                    &&& final(spi).is_locked()
                    &&& h.requests() == old(spi).requests().push(
                        BusRequest::SetFrequency(old(self).frequency()),
                    )
                    &&& final(self).select_drives() == old(self).select_drives().push(
                        PinRequest { high: false, result: Ok(()) },
                    )
                },
                Err(e) => {
                    &&& e matches SpiDeviceWithCsError::Cs(c) && final(self).select_drives()
                        == old(self).select_drives().push(
                        PinRequest { high: false, result: Err(c) },
                    )
                    &&& !final(spi).is_locked()
                    &&& final(spi).requests() == old(spi).requests().push(
                        BusRequest::SetFrequency(old(self).frequency()),
                    )
                },
            },
    {
        let taken = spi.bus.take();
        match taken {
            None => Err(SpiDeviceWithCsError::Reentrancy),
            Some(mut bus) => {
                bus.set_frequency(self.freq);
                let sel = self.cs.set_low();
                match sel {
                    Err(e) => {
                        spi.bus = Some(bus);
                        assert(self.select_drives() == old(self).select_drives().push(
                            PinRequest { high: false, result: Err(e) },
                        ));
                        assert(spi.requests() == old(spi).requests().push(
                            BusRequest::SetFrequency(self.freq),
                        ));
                        Err(SpiDeviceWithCsError::Cs(e))
                    },
                    Ok(()) => {
                        let h = SpiBusHandle { bus };
                        assert(h.requests() == old(spi).requests().push(
                            BusRequest::SetFrequency(self.freq),
                        ));
                        assert(sel->Ok_0 == ());
                        assert(sel == Ok::<(), CS::Error>(()));
                        assert(self.select_drives() == old(self).select_drives().push(
                            PinRequest { high: false, result: Ok::<(), CS::Error>(()) },
                        ));
                        Ok(h)
                    },
                }
            },
        }
    }

    /// Closes the transaction that `handle` belongs to: flushes the bus and
    /// deasserts the select line, both attempted whatever came before, then
    /// gives the bus back. Reports the logic's failure first, then the
    /// flush's, then the deassert's.
    pub fn end<B: SpiSetFrequency, R>(
        &mut self,
        spi: &mut SharedSpi<B>,
        handle: SpiBusHandle<B>,
        body: Result<R, B::Error>,
    ) -> (r: Result<R, SpiDeviceWithCsError<B::Error, CS::Error>>)
        requires
            old(spi).is_locked(),
        ensures
            final(self).frequency() == old(self).frequency(),
            !final(spi).is_locked(),
            final(spi).requests().len() > 0,
            final(spi).requests().drop_last() == handle.requests(),
            final(spi).requests().last() is Flush,
            final(self).select_drives().len() > 0,
            final(self).select_drives().drop_last() == old(self).select_drives(),
            final(self).select_drives().last().high,
            r == settle_spec(
                body,
                final(spi).requests().last()->Flush_0,
                final(self).select_drives().last().result,
            ),
    {
        let SpiBusHandle { bus: mut bus } = handle;
        let flush = bus.flush();
        let cs = self.cs.set_high();
        spi.bus = Some(bus);
        proof {
            assert(spi.requests().drop_last() =~= handle.requests());
            assert(self.select_drives().drop_last() =~= old(self).select_drives());
        }
        settle(body, flush, cs)
    }

    /// Runs `f` on the bus inside one transaction of this device (see
    /// [`Self::begin`] and [`Self::end`]). `f` gets the bus handle and
    /// hands it back with its result.
    pub fn transaction<B: SpiSetFrequency, R, F>(
        &mut self,
        spi: &mut SharedSpi<B>,
        f: F,
    ) -> (r: Result<R, SpiDeviceWithCsError<B::Error, CS::Error>>) where
        F: FnOnce(SpiBusHandle<B>) -> (SpiBusHandle<B>, Result<R, B::Error>),

        requires
            forall|h: SpiBusHandle<B>| f.requires((h,)),
        ensures
            final(self).frequency() == old(self).frequency(),
            old(spi).is_locked() ==> (r matches Err(SpiDeviceWithCsError::Reentrancy)
                && *final(spi) == *old(spi) && *final(self) == *old(self)),
            r matches Err(SpiDeviceWithCsError::Reentrancy) ==> old(spi).is_locked(),
            !old(spi).is_locked() ==> !final(spi).is_locked(),
            !old(spi).is_locked() ==> {
                ||| exists|c: CS::Error|
                    {
                        &&& r == Err::<R, SpiDeviceWithCsError<B::Error, CS::Error>>(SpiDeviceWithCsError::Cs(c))
                        &&& final(self).select_drives() == old(self).select_drives().push(
                            PinRequest { high: false, result: Err(c) },
                        )
                        &&& final(spi).requests() == old(spi).requests().push(
                            BusRequest::SetFrequency(old(self).frequency()),
                        )
                    }
                ||| exists|h0: SpiBusHandle<B>, h1: SpiBusHandle<B>, body: Result<R, B::Error>|
                    {
                        &&& f.ensures((h0,), (h1, body))
                        &&& h0.requests() == old(spi).requests().push(
                            BusRequest::SetFrequency(old(self).frequency()),
                        )
                        &&& final(spi).requests().len() > 0
                        &&& final(spi).requests().drop_last() == h1.requests()
                        &&& final(spi).requests().last() is Flush
                        &&& final(self).select_drives().len() >= 2
                        &&& final(self).select_drives() == old(self).select_drives()
                            + select_cycle(final(self).select_drives().last().result)
                        &&& r == settle_spec(
                            body,
                            final(spi).requests().last()->Flush_0,
                            final(self).select_drives().last().result,
                        )
                    }
            },
    {
        let handle = match self.begin(spi) {
            Err(e) => {
                return Err(e);
            },
            Ok(h) => h,
        };
        let ghost h0 = handle;
        let ghost d0 = self.select_drives();
        let (h1, body) = f(handle);
        let ghost hh = h1;
        let r = self.end(spi, h1, body);
        proof {
            let last = self.select_drives().last();
            assert(last == PinRequest { high: true, result: last.result });
            assert(d0 == old(self).select_drives().push(
                PinRequest { high: false, result: Ok::<(), CS::Error>(()) },
            ));
            assert(self.select_drives() =~= d0.push(last));
            assert(self.select_drives() =~= old(self).select_drives() + select_cycle(
                self.select_drives().last().result,
            ));
            assert(f.ensures((h0,), (hh, body)));
        }
        r
    }
}

/// Release: the select-line requests of a transaction whose select
/// succeeded deassert the line exactly once, last, whatever the deassert
/// itself returned; they assert it exactly once, first.
pub proof fn lemma_select_released_once<E>(cs: Result<(), E>)
    ensures
        high_count(select_cycle(cs)) == 1,
        select_cycle(cs).last().high,
        !select_cycle(cs)[0].high,
{
    let s = select_cycle(cs);
    assert(s.drop_last() =~= seq![PinRequest { high: false, result: Ok::<(), E>(()) }]);
    assert(s.drop_last().drop_last() =~= Seq::<PinRequest<E>>::empty());
    reveal_with_fuel(high_count, 3);
}

/// Frequency isolation: whatever transaction came before, the bus requests
/// of a device's transaction start with that device's own clock rate, right
/// before the requests of its logic.
pub proof fn lemma_frequency_isolation<E>(
    before: Seq<BusRequest<E>>,
    freq_a: u32,
    body_a: Seq<BusRequest<E>>,
    flush_a: Result<(), E>,
)
    ensures
        ({
            let log = before.push(BusRequest::SetFrequency(freq_a)) + body_a.push(
                BusRequest::Flush(flush_a),
            );
            &&& log[before.len() as int] == BusRequest::<E>::SetFrequency(freq_a)
            &&& log.subrange(before.len() + 1int, before.len() + 1int + body_a.len()) == body_a
        }),
{
    let log = before.push(BusRequest::SetFrequency(freq_a)) + body_a.push(
        BusRequest::Flush(flush_a),
    );
    assert(log.subrange(before.len() + 1int, before.len() + 1int + body_a.len()) =~= body_a);
}

} // verus!
