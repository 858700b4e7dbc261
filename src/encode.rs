//! Framing of display payloads into bus writes.
//!
//! A payload is a slice of bytes or of 16-bit words, to be sent whole or
//! streamed. Slices go out in one write; streams are staged through a
//! fixed-size buffer and go out one full buffer at a time, then the
//! remainder, so that memory stays bounded however long the payload is.
use vstd::prelude::*;
use vstd::seq_lib::lemma_flatten_concat;
use byte_slice_cast::AsByteSlice;
use crate::bus::{BusRequest, SpiBus, SpiBusHandle};

verus! {

/// Staging capacity, in elements, for byte streams.
pub const U8_STAGE: usize = 32;

/// Staging capacity, in elements, for little-endian word streams.
pub const U16LE_STAGE: usize = 32;

/// Staging capacity, in elements, for big-endian word streams: twice the
/// others, kept so that the bus traces of existing hardware stay the same.
pub const U16BE_STAGE: usize = 64;

/// A payload for the display, by shape.
pub enum DataFormat<'a> {
    /// Bytes, sent as they are in one write.
    U8(&'a [u8]),
    /// Words, sent in the machine's own byte order in one write.
    U16(&'a [u16]),
    /// Words, sent big-endian in one write.
    U16BE(&'a [u16]),
    /// Words, sent little-endian in one write.
    U16LE(&'a [u16]),
    /// A stream of bytes.
    U8Iter(&'a [u8]),
    /// A stream of words, sent big-endian.
    U16BEIter(&'a [u16]),
    /// A stream of words, sent little-endian.
    U16LEIter(&'a [u16]),
}

/// The two bytes of `w`, most significant first.
pub open spec fn be_word(w: u16) -> Seq<u8> {
    seq![(w / 256) as u8, (w % 256) as u8]
}

/// The two bytes of `w`, least significant first.
pub open spec fn le_word(w: u16) -> Seq<u8> {
    seq![(w % 256) as u8, (w / 256) as u8]
}

/// The words of `ws` as big-endian bytes.
pub open spec fn be_bytes(ws: Seq<u16>) -> Seq<u8> {
    ws.map_values(|w: u16| be_word(w)).flatten()
}

/// The words of `ws` as little-endian bytes.
pub open spec fn le_bytes(ws: Seq<u16>) -> Seq<u8> {
    ws.map_values(|w: u16| le_word(w)).flatten()
}

/// `d` cut into pieces of `c` bytes, the last one possibly shorter; no
/// piece is empty.
pub open spec fn chunks(d: Seq<u8>, c: nat) -> Seq<Seq<u8>>
    decreases d.len(),
{
    if d.len() == 0 || c == 0 {
        seq![]
    } else if d.len() <= c {
        seq![d]
    } else {
        seq![d.take(c as int)] + chunks(d.skip(c as int), c)
    }
}

/// The words of `ws` as bytes, big-endian when `big` holds.
pub open spec fn word_bytes(ws: Seq<u16>, big: bool) -> Seq<u8> {
    if big {
        be_bytes(ws)
    } else {
        le_bytes(ws)
    }
}

/// The bytes of each write that sending `words` makes, in order. Words
/// sent in the machine's byte order are taken little-endian when
/// `native_little` holds, else big-endian.
pub open spec fn frames(words: DataFormat, native_little: bool) -> Seq<Seq<u8>> {
    match words {
        DataFormat::U8(s) => seq![s@],
        DataFormat::U16(s) => if native_little {
            seq![le_bytes(s@)]
        } else {
            seq![be_bytes(s@)]
        },
        DataFormat::U16BE(s) => seq![be_bytes(s@)],
        DataFormat::U16LE(s) => seq![le_bytes(s@)],
        DataFormat::U8Iter(s) => chunks(s@, U8_STAGE as nat),
        DataFormat::U16BEIter(s) => chunks(be_bytes(s@), 2 * U16BE_STAGE as nat),
        DataFormat::U16LEIter(s) => chunks(le_bytes(s@), 2 * U16LE_STAGE as nat),
    }
}

/// The bus requests of writing `frames` in order, each one succeeding.
pub open spec fn ok_writes<E>(frames: Seq<Seq<u8>>) -> Seq<BusRequest<E>> {
    frames.map_values(|f: Seq<u8>| BusRequest::Write(f, Ok(())))
}

/// What sending `frames` from a bus log `before` leaves: every frame
/// written, each successfully, and the result `Ok`; or the frames before
/// the `m`-th written successfully, the `m`-th written and failed, nothing
/// after it, and the result that failure.
pub open spec fn sent<E>(
    before: Seq<BusRequest<E>>,
    after: Seq<BusRequest<E>>,
    frames: Seq<Seq<u8>>,
    r: Result<(), E>,
) -> bool {
    &&& r is Ok ==> after == before + ok_writes(frames)
    &&& r is Err ==> exists|m: int|
        0 <= m < frames.len() && after == before + ok_writes(frames.take(m)).push(
            BusRequest::Write(frames[m], r),
        )
}

proof fn lemma_chunks_of_pieces(done: Seq<Seq<u8>>, rest: Seq<u8>, c: nat)
    requires
        c > 0,
        forall|j: int| 0 <= j < done.len() ==> (#[trigger] done[j]).len() == c,
    ensures
        chunks(done.flatten() + rest, c) == done + chunks(rest, c),
    decreases done.len(),
{
    let d = done.flatten() + rest;
    if done.len() == 0 {
        assert(done.flatten() =~= Seq::<u8>::empty());
        assert(d =~= rest);
        assert(done + chunks(rest, c) =~= chunks(rest, c));
    } else {
        let tail = done.drop_first();
        assert(done =~= seq![done[0]] + tail);
        lemma_flatten_concat(seq![done[0]], tail);
        seq![done[0]].lemma_flatten_one_element();
        assert(done.flatten() == done[0] + tail.flatten());
        assert(d =~= done[0] + (tail.flatten() + rest));
        lemma_chunks_of_pieces(tail, rest, c);
        if d.len() <= c {
            assert(tail.len() == 0) by {
                if tail.len() > 0 {
                    tail.lemma_flatten_length_ge_single_element_length(0);
                }
            }
            assert(tail.flatten() =~= Seq::<u8>::empty());
            assert(rest.len() == 0);
            assert(d =~= done[0]);
            assert(chunks(rest, c) =~= seq![]);
            assert(done + chunks(rest, c) =~= seq![done[0]]);
        } else {
            assert(d.take(c as int) =~= done[0]);
            assert(d.skip(c as int) =~= tail.flatten() + rest);
            assert(seq![done[0]] + (tail + chunks(rest, c)) =~= done + chunks(rest, c));
        }
    }
}

proof fn lemma_chunks_short(d: Seq<u8>, c: nat)
    requires
        0 < d.len() <= c,
    ensures
        chunks(d, c) == seq![d],
{
}

proof fn lemma_word_bytes_concat(a: Seq<u16>, b: Seq<u16>, big: bool)
    ensures
        word_bytes(a + b, big) == word_bytes(a, big) + word_bytes(b, big),
{
    if big {
        let f = |w: u16| be_word(w);
        assert((a + b).map_values(f) =~= a.map_values(f) + b.map_values(f));
        lemma_flatten_concat(a.map_values(f), b.map_values(f));
    } else {
        let f = |w: u16| le_word(w);
        assert((a + b).map_values(f) =~= a.map_values(f) + b.map_values(f));
        lemma_flatten_concat(a.map_values(f), b.map_values(f));
    }
}

proof fn lemma_word_bytes_one(w: u16, big: bool)
    ensures
        word_bytes(seq![w], big) == if big {
            be_word(w)
        } else {
            le_word(w)
        },
{
    if big {
        let f = |w: u16| be_word(w);
        assert(seq![w].map_values(f) =~= seq![be_word(w)]);
        seq![be_word(w)].lemma_flatten_one_element();
    } else {
        let f = |w: u16| le_word(w);
        assert(seq![w].map_values(f) =~= seq![le_word(w)]);
        seq![le_word(w)].lemma_flatten_one_element();
    }
}

proof fn lemma_word_bytes_len(ws: Seq<u16>, big: bool)
    ensures
        word_bytes(ws, big).len() == 2 * ws.len(),
    decreases ws.len(),
{
    if ws.len() > 0 {
        let init = ws.drop_last();
        assert(ws =~= init + seq![ws.last()]);
        lemma_word_bytes_concat(init, seq![ws.last()], big);
        lemma_word_bytes_one(ws.last(), big);
        lemma_word_bytes_len(init, big);
    } else {
        assert(ws.map_values(|w: u16| be_word(w)) =~= Seq::<Seq<u8>>::empty());
        assert(ws.map_values(|w: u16| le_word(w)) =~= Seq::<Seq<u8>>::empty());
    }
}

proof fn lemma_split_bytes(w: u16)
    ensures
        (w >> 8u16) as u8 == (w / 256) as u8,
        (w & 0xffu16) as u8 == (w % 256) as u8,
{
    assert((w >> 8u16) == w / 256) by (bit_vector);
    assert((w & 0xffu16) == w % 256) by (bit_vector);
}

proof fn lemma_unit_ok<E>(r: Result<(), E>)
    requires
        r is Ok,
    ensures
        r == Ok::<(), E>(()),
{
    assert(r->Ok_0 == ());
}

proof fn lemma_ok_writes_push<E>(fs: Seq<Seq<u8>>, f: Seq<u8>)
    ensures
        ok_writes::<E>(fs.push(f)) == ok_writes::<E>(fs).push(BusRequest::Write(f, Ok(()))),
{
    assert(ok_writes::<E>(fs.push(f)) =~= ok_writes::<E>(fs).push(BusRequest::Write(f, Ok(()))));
}

/// A full staging buffer `piece` was written with result `w`, after the
/// full pieces `done`; `rest` is what the payload still holds.
proof fn lemma_full_piece<E>(
    before: Seq<BusRequest<E>>,
    done: Seq<Seq<u8>>,
    piece: Seq<u8>,
    rest: Seq<u8>,
    w: Result<(), E>,
    c: nat,
)
    requires
        c > 0,
        piece.len() == c,
        forall|j: int| 0 <= j < done.len() ==> (#[trigger] done[j]).len() == c,
    ensures
        done.push(piece).flatten() == done.flatten() + piece,
        ok_writes::<E>(done.push(piece)) == ok_writes::<E>(done).push(
            BusRequest::Write(piece, Ok(())),
        ),
        w is Err ==> sent(
            before,
            before + ok_writes::<E>(done).push(BusRequest::Write(piece, w)),
            chunks(done.flatten() + piece + rest, c),
            w,
        ),
{
    let d2 = done.push(piece);
    done.lemma_flatten_push(piece);
    lemma_ok_writes_push::<E>(done, piece);
    assert forall|j: int| 0 <= j < d2.len() implies (#[trigger] d2[j]).len() == c by {}
    lemma_chunks_of_pieces(d2, rest, c);
    let fs = chunks(done.flatten() + piece + rest, c);
    assert(done.flatten() + piece + rest == d2.flatten() + rest);
    assert(fs == d2 + chunks(rest, c));
    let m = done.len() as int;
    assert(fs.take(m) =~= done);
    assert(fs[m] == piece);
}

/// The last, partial staging buffer `buf` after the full pieces `done`.
proof fn lemma_last_piece<E>(
    before: Seq<BusRequest<E>>,
    done: Seq<Seq<u8>>,
    buf: Seq<u8>,
    w: Result<(), E>,
    c: nat,
)
    requires
        c > 0,
        buf.len() < c,
        forall|j: int| 0 <= j < done.len() ==> (#[trigger] done[j]).len() == c,
    ensures
        buf.len() == 0 ==> sent(
            before,
            before + ok_writes::<E>(done),
            chunks(done.flatten() + buf, c),
            Ok(()),
        ),
        buf.len() > 0 ==> sent(
            before,
            before + ok_writes::<E>(done).push(BusRequest::Write(buf, w)),
            chunks(done.flatten() + buf, c),
            w,
        ),
{
    lemma_chunks_of_pieces(done, buf, c);
    let fs = chunks(done.flatten() + buf, c);
    if buf.len() == 0 {
        assert(done + chunks(buf, c) =~= done);
    } else {
        lemma_chunks_short(buf, c);
        assert(fs == done.push(buf));
        if w is Ok {
            lemma_unit_ok(w);
        }
        lemma_ok_writes_push::<E>(done, buf);
        let m = done.len() as int;
        assert(fs.take(m) =~= done);
        assert(fs[m] == buf);
        assert(fs.take(m + 1) =~= fs);
    }
}

/// Appends the two bytes of `w` to `buf`, big-endian when `big` holds,
/// else little-endian.
fn push_word(buf: &mut Vec<u8>, w: u16, big: bool)
    ensures
        final(buf)@ == old(buf)@ + word_bytes(seq![w], big),
{
    let hi = (w >> 8u16) as u8;
    let lo = (w & 0xffu16) as u8;
    if big {
        buf.push(hi);
        buf.push(lo);
    } else {
        buf.push(lo);
        buf.push(hi);
    }
    proof {
        lemma_split_bytes(w);
        lemma_word_bytes_one(w, big);
        assert(buf@ =~= old(buf)@ + word_bytes(seq![w], big));
    }
}

/// Staging loses nothing: the pieces of a payload, joined, give the payload
/// back byte for byte; every piece holds between 1 and `c` bytes, and all
/// but the last hold exactly `c`.
pub proof fn lemma_chunks_preserve_bytes(d: Seq<u8>, c: nat)
    requires
        c > 0,
    ensures
        chunks(d, c).flatten() == d,
        forall|i: int|
            0 <= i < chunks(d, c).len() ==> 0 < (#[trigger] chunks(d, c)[i]).len() <= c,
        forall|i: int| 0 <= i < chunks(d, c).len() - 1 ==> (#[trigger] chunks(d, c)[i]).len() == c,
    decreases d.len(),
{
    if d.len() == 0 {
        assert(chunks(d, c).flatten() =~= d);
    } else if d.len() <= c {
        seq![d].lemma_flatten_one_element();
    } else {
        let rest = d.skip(c as int);
        lemma_chunks_preserve_bytes(rest, c);
        lemma_flatten_concat(seq![d.take(c as int)], chunks(rest, c));
        seq![d.take(c as int)].lemma_flatten_one_element();
        assert(d.take(c as int) + d.skip(c as int) =~= d);
        let all = chunks(d, c);
        assert forall|i: int| 0 < i < all.len() implies #[trigger] all[i] == chunks(rest, c)[i - 1] by {}
    }
}

/// Streams `s` through a staging buffer of `U8_STAGE` bytes.
fn send_u8_staged<B: SpiBus>(bus: &mut SpiBusHandle<B>, s: &[u8]) -> (r: Result<(), B::Error>)
    ensures
        sent(old(bus).requests(), final(bus).requests(), chunks(s@, U8_STAGE as nat), r),
        s@.len() == 0 ==> r is Ok,
{
    let ghost before = bus.requests();
    let ghost mut done: Seq<Seq<u8>> = seq![];
    let mut buf: Vec<u8> = Vec::with_capacity(U8_STAGE);
    let mut i: usize = 0;
    while i < s.len()
        invariant
            i <= s@.len(),
            buf@.len() < U8_STAGE,
            done.flatten() + buf@ == s@.take(i as int),
            forall|j: int| 0 <= j < done.len() ==> (#[trigger] done[j]).len() == U8_STAGE,
            bus.requests() == before + ok_writes::<B::Error>(done),
            before == old(bus).requests(),
        decreases s@.len() - i,
    {
        buf.push(s[i]);
        i = i + 1;
        assert(s@.take(i as int) =~= s@.take(i - 1) + seq![s@[i - 1]]);
        assert(done.flatten() + buf@ =~= s@.take(i as int));
        if buf.len() == U8_STAGE {
            let w = bus.write(buf.as_slice());
            proof {
                assert(s@ =~= s@.take(i as int) + s@.skip(i as int));
                lemma_full_piece(before, done, buf@, s@.skip(i as int), w, U8_STAGE as nat);
            }
            if w.is_err() {
                return w;
            }
            proof {
                lemma_unit_ok(w);
                done = done.push(buf@);
            }
            buf.clear();
            assert(done.flatten() + buf@ =~= done.flatten());
        }
    }
    proof {
        assert(s@.take(s@.len() as int) =~= s@);
    }
    if buf.len() > 0 {
        let w = bus.write(buf.as_slice());
        proof {
            lemma_last_piece(before, done, buf@, w, U8_STAGE as nat);
        }
        w
    } else {
        proof {
            lemma_last_piece(before, done, buf@, Ok::<(), B::Error>(()), U8_STAGE as nat);
        }
        Ok(())
    }
}

/// Streams the words of `s` through a staging buffer of `cap` words, as
/// big-endian bytes when `big` holds, else little-endian.
fn send_u16_staged<B: SpiBus>(bus: &mut SpiBusHandle<B>, s: &[u16], big: bool, cap: usize) -> (r:
    Result<(), B::Error>)
    requires
        0 < cap <= U16BE_STAGE,
    ensures
        sent(old(bus).requests(), final(bus).requests(), chunks(word_bytes(s@, big), 2 * cap as nat), r),
        s@.len() == 0 ==> r is Ok,
{
    let ghost before = bus.requests();
    let ghost mut done: Seq<Seq<u8>> = seq![];
    let ghost c: nat = 2 * cap as nat;
    let mut buf: Vec<u8> = Vec::with_capacity(2 * cap);
    let mut e: usize = 0;
    while e < s.len()
        invariant
            e <= s@.len(),
            c == 2 * cap,
            0 < cap <= U16BE_STAGE,
            buf@.len() < c,
            buf@.len() % 2 == 0,
            done.flatten() + buf@ == word_bytes(s@.take(e as int), big),
            forall|j: int| 0 <= j < done.len() ==> (#[trigger] done[j]).len() == c,
            bus.requests() == before + ok_writes::<B::Error>(done),
            before == old(bus).requests(),
        decreases s@.len() - e,
    {
        let w = s[e];
        push_word(&mut buf, w, big);
        e = e + 1;
        proof {
            lemma_word_bytes_len(seq![w], big);
            assert(s@.take(e as int) =~= s@.take(e - 1) + seq![w]);
            lemma_word_bytes_concat(s@.take(e - 1), seq![w], big);
            assert(done.flatten() + buf@ =~= word_bytes(s@.take(e as int), big));
        }
        if buf.len() == 2 * cap {
            let res = bus.write(buf.as_slice());
            proof {
                let rest = word_bytes(s@.skip(e as int), big);
                assert(s@ =~= s@.take(e as int) + s@.skip(e as int));
                lemma_word_bytes_concat(s@.take(e as int), s@.skip(e as int), big);
                lemma_full_piece(before, done, buf@, rest, res, c);
            }
            if res.is_err() {
                return res;
            }
            proof {
                lemma_unit_ok(res);
                done = done.push(buf@);
            }
            buf.clear();
            assert(done.flatten() + buf@ =~= done.flatten());
        }
    }
    proof {
        assert(s@.take(s@.len() as int) =~= s@);
    }
    if buf.len() > 0 {
        let res = bus.write(buf.as_slice());
        proof {
            lemma_last_piece(before, done, buf@, res, c);
        }
        res
    } else {
        proof {
            lemma_last_piece(before, done, buf@, Ok::<(), B::Error>(()), c);
        }
        Ok(())
    }
}

/// Relies on `byte_slice_cast::AsByteSlice::as_byte_slice`: the words as
/// they lie in memory, two bytes each, in the machine's byte order.
#[verifier::external_body]
fn native_bytes(words: &[u16]) -> (r: Vec<u8>)
    ensures
        r@ == le_bytes(words@) || r@ == be_bytes(words@),
{
    words.as_byte_slice().to_vec()
}

/// The words of `s` as bytes, big-endian when `big` holds, else
/// little-endian.
pub fn words_to_bytes(s: &[u16], big: bool) -> (r: Vec<u8>)
    ensures
        r@ == word_bytes(s@, big),
{
    let mut out: Vec<u8> = Vec::new();
    let mut e: usize = 0;
    proof {
        assert(s@.take(0) =~= Seq::<u16>::empty());
        lemma_word_bytes_len(s@.take(0), big);
        assert(word_bytes(s@.take(0), big) =~= Seq::<u8>::empty());
    }
    while e < s.len()
        invariant
            e <= s@.len(),
            out@ == word_bytes(s@.take(e as int), big),
        decreases s@.len() - e,
    {
        let w = s[e];
        push_word(&mut out, w, big);
        e = e + 1;
        proof {
            assert(s@.take(e as int) =~= s@.take(e - 1) + seq![w]);
            lemma_word_bytes_concat(s@.take(e - 1), seq![w], big);
        }
    }
    assert(s@.take(s@.len() as int) =~= s@);
    out
}

/// Sends `bytes` in a single write.
fn send_frame<B: SpiBus>(bus: &mut SpiBusHandle<B>, bytes: &[u8]) -> (r: Result<(), B::Error>)
    ensures
        sent(old(bus).requests(), final(bus).requests(), seq![bytes@], r),
{
    let r = bus.write(bytes);
    proof {
        let fs = seq![bytes@];
        assert(ok_writes::<B::Error>(fs) =~= seq![BusRequest::Write(bytes@, Ok(()))]);
        assert(fs.take(0) =~= Seq::<Seq<u8>>::empty());
        assert(ok_writes::<B::Error>(fs.take(0)) =~= Seq::<BusRequest<B::Error>>::empty());
        if r is Ok {
            lemma_unit_ok(r);
        }
        assert(bus.requests() =~= old(bus).requests() + ok_writes::<B::Error>(fs.take(0)).push(
            BusRequest::Write(fs[0], r),
        ));
    }
    r
}

/// Sends a payload on the bus of the current transaction: a slice in one
/// write, a stream through its staging buffer (`U8_STAGE` bytes,
/// `U16LE_STAGE` or `U16BE_STAGE` words), one write per full buffer and one
/// for the remainder. Stops at the first failed write and reports it; `Ok`
/// means every write succeeded.
pub fn send_u8<B: SpiBus>(bus: &mut SpiBusHandle<B>, words: DataFormat) -> (r: Result<(), B::Error>)
    ensures
        exists|native_little: bool|
            {
                &&& sent(old(bus).requests(), final(bus).requests(), frames(words, native_little), r)
                &&& frames(words, native_little).len() == 0 ==> r is Ok
            },
{
    match words {
        DataFormat::U8(s) => {
            let r = send_frame(bus, s);
            assert(frames(words, true) == seq![s@]);
            r
        },
        DataFormat::U16(s) => {
            let bytes = native_bytes(s);
            let r = send_frame(bus, bytes.as_slice());
            assert(bytes@ == le_bytes(s@) ==> frames(words, true) == seq![bytes@]);
            assert(bytes@ == be_bytes(s@) ==> frames(words, false) == seq![bytes@]);
            r
        },
        DataFormat::U16BE(s) => {
            let bytes = words_to_bytes(s, true);
            let r = send_frame(bus, bytes.as_slice());
            assert(frames(words, true) == seq![bytes@]);
            r
        },
        DataFormat::U16LE(s) => {
            let bytes = words_to_bytes(s, false);
            let r = send_frame(bus, bytes.as_slice());
            assert(frames(words, true) == seq![bytes@]);
            r
        },
        DataFormat::U8Iter(s) => {
            let r = send_u8_staged(bus, s);
            assert(frames(words, true) == chunks(s@, U8_STAGE as nat));
            proof {
                if chunks(s@, U8_STAGE as nat).len() == 0 {
                    assert(s@.len() == 0);
                }
            }
            r
        },
        DataFormat::U16BEIter(s) => {
            let r = send_u16_staged(bus, s, true, U16BE_STAGE);
            assert(frames(words, true) == chunks(word_bytes(s@, true), 2 * U16BE_STAGE as nat));
            proof {
                lemma_word_bytes_len(s@, true);
            }
            r
        },
        DataFormat::U16LEIter(s) => {
            let r = send_u16_staged(bus, s, false, U16LE_STAGE);
            assert(frames(words, true) == chunks(word_bytes(s@, false), 2 * U16LE_STAGE as nat));
            proof {
                lemma_word_bytes_len(s@, false);
            }
            r
        },
    }
}

} // verus!
