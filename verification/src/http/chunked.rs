//! Chunked transfer coding: a restartable decoder for request bodies and
//! an encoder for responses, each held to one byte-level transition model.

use vstd::prelude::*;

use crate::util::{
    find_byte, find_byte_from, find_crlf_exec, find_byte_exec, trim, trim_exec, is_hex_numeral,
    hex_value, hex_digits, parse_hex, u64_to_hex, utf8_bytes, string_from_bytes, lower,
    lemma_find_byte_from_ok, lemma_find_crlf_from_ok, is_hex_digit,
};
use crate::util::find_crlf as spec_find_crlf;
use crate::http::response::header_block;

verus! {

/// Why chunked decoding or encoding stopped.
#[derive(Debug, Clone, Copy, PartialEq, Eq, Structural)]
pub enum ChunkedError {
    /// The chunk-size line is not a hexadecimal numeral.
    InvalidChunkSize,
    /// A chunk declares more bytes than the per-chunk cap.
    ChunkTooLarge,
    /// The decoded body would exceed the total cap.
    BodyTooLarge,
    /// The two bytes after a chunk's data are not CRLF.
    InvalidEncoding,
    /// A trailer line breaks the header grammar.
    IncompleteData,
    /// More data was offered to a finalized encoder.
    IoError,
}

impl ChunkedError {
    /// A short description of the error.
    pub fn message(&self) -> (r: &'static str) {
        match self {
            ChunkedError::InvalidChunkSize => "Invalid chunk size",
            ChunkedError::ChunkTooLarge => "Chunk size exceeds maximum allowed",
            ChunkedError::BodyTooLarge => "Chunked body exceeds maximum size",
            ChunkedError::InvalidEncoding => "Expected CRLF after chunk data",
            ChunkedError::IncompleteData => "Invalid trailer line",
            ChunkedError::IoError => "Encoder already finalized",
        }
    }
}

/// Where the decoder stands between calls.
#[derive(Debug, Clone, PartialEq)]
pub enum ChunkedState {
    /// Reading a chunk-size line.
    ChunkSize,
    /// Reading chunk data.
    ChunkData { size: usize, read: usize },
    /// Reading the CRLF after a chunk's data.
    ChunkTrailer,
    /// Reading the trailer section.
    Trailer,
    /// The terminating chunk and trailers are done.
    Complete,
    /// Decoding failed.
    Error(ChunkedError),
}

/// The model of the decoder's phase.
pub ghost enum CPhase {
    Size,
    Data { size: nat, read: nat },
    DataEnd,
    Trailer,
    Done,
    Failed(ChunkedError),
}

/// The byte-level model of a decoder: its phase, the bytes received but
/// not yet consumed, the decoded body, the trailers, and the two caps.
pub ghost struct CM {
    pub phase: CPhase,
    pub buf: Seq<u8>,
    pub body: Seq<u8>,
    pub trailers: Seq<(Seq<u8>, Seq<u8>)>,
    pub max_chunk: nat,
    pub max_body: nat,
}

/// The chunk-size part of a size line: everything before the first
/// semicolon; extensions after it are ignored.
pub open spec fn size_part(line: Seq<u8>) -> Seq<u8> {
    match find_byte(line, 59) {
        None => line,
        Some(p) => line.take(p),
    }
}

/// How far from terminal a phase is; steps that consume nothing must
/// lower it.
pub open spec fn crank(p: CPhase) -> nat {
    match p {
        CPhase::Done => 0,
        CPhase::Failed(_) => 0,
        _ => 1,
    }
}

/// `m` with its phase replaced by `Failed(e)`.
pub open spec fn cfail(m: CM, e: ChunkedError) -> CM {
    CM { phase: CPhase::Failed(e), ..m }
}

/// One decoding step: consumes a prefix of `m.buf` or reports that no
/// progress is possible (`None`), in which case more data is needed or the
/// phase is terminal. Data is consumed one byte per step.
pub open spec fn cstep(m: CM) -> Option<CM> {
    match m.phase {
        CPhase::Size => match spec_find_crlf(m.buf) {
            Some(p) => {
                let line = m.buf.take(p);
                let rest = m.buf.skip(p + 2);
                let sz = trim(size_part(line));
                if !is_hex_numeral(sz) {
                    Some(cfail(m, ChunkedError::InvalidChunkSize))
                } else if hex_value(sz) > m.max_chunk {
                    Some(cfail(m, ChunkedError::ChunkTooLarge))
                } else if hex_value(sz) == 0 {
                    Some(CM { phase: CPhase::Trailer, buf: rest, ..m })
                } else {
                    Some(
                        CM {
                            phase: CPhase::Data { size: hex_value(sz), read: 0 },
                            buf: rest,
                            ..m
                        },
                    )
                }
            },
            None => None,
        },
        CPhase::Data { size, read } => if m.buf.len() == 0 || read >= size {
            None
        } else if m.body.len() >= m.max_body {
            Some(cfail(m, ChunkedError::BodyTooLarge))
        } else {
            Some(
                CM {
                    phase: if read + 1 == size {
                        CPhase::DataEnd
                    } else {
                        CPhase::Data { size, read: read + 1 }
                    },
                    buf: m.buf.drop_first(),
                    body: m.body.push(m.buf[0]),
                    ..m
                },
            )
        },
        CPhase::DataEnd => if m.buf.len() >= 2 {
            if m.buf[0] == 13 && m.buf[1] == 10 {
                Some(CM { phase: CPhase::Size, buf: m.buf.skip(2), ..m })
            } else {
                Some(cfail(m, ChunkedError::InvalidEncoding))
            }
        } else if m.buf.len() == 1 && m.buf[0] != 13 {
            Some(cfail(m, ChunkedError::InvalidEncoding))
        } else {
            None
        },
        CPhase::Trailer => match spec_find_crlf(m.buf) {
            Some(p) => {
                if p == 0 {
                    Some(CM { phase: CPhase::Done, buf: m.buf.skip(2), ..m })
                } else {
                    let line = m.buf.take(p);
                    let rest = m.buf.skip(p + 2);
                    match trailer_line(line) {
                        Some(pair) => Some(
                            CM { buf: rest, trailers: m.trailers.push(pair), ..m },
                        ),
                        None => Some(cfail(m, ChunkedError::IncompleteData)),
                    }
                }
            },
            None => None,
        },
        CPhase::Done => None,
        CPhase::Failed(_) => None,
    }
}

/// A trailer line under the request-header grammar: a colon splits a
/// non-empty name from a value, both trimmed, both valid UTF-8.
pub open spec fn trailer_line(line: Seq<u8>) -> Option<(Seq<u8>, Seq<u8>)> {
    match find_byte(line, 58) {
        Some(c) => {
            let name = trim(line.take(c));
            let value = trim(line.skip(c + 1));
            if name.len() > 0 && vstd::utf8::valid_utf8(name) && vstd::utf8::valid_utf8(value) {
                Some((name, value))
            } else {
                None
            }
        },
        None => None,
    }
}

/// Runs `cstep` until no step applies.
pub open spec fn crun(m: CM) -> CM
    decreases m.buf.len(), crank(m.phase),
{
    match cstep_bounded(m) {
        Some(m2) => crun(m2),
        None => m,
    }
}

/// `cstep`, with the consumption bound made evident for termination: a
/// step either consumes at least one byte or lowers the phase rank.
pub open spec fn cstep_bounded(m: CM) -> Option<CM> {
    match cstep(m) {
        Some(m2) => if m2.buf.len() < m.buf.len() || (m2.buf.len() == m.buf.len() && crank(m2.phase)
            < crank(m.phase)) {
            Some(m2)
        } else {
            None
        },
        None => None,
    }
}

/// Every step consumes or lowers the rank, so `cstep_bounded` is `cstep`.
pub proof fn lemma_cstep_bounded(m: CM)
    ensures
        cstep_bounded(m) == cstep(m),
{
    match m.phase {
        CPhase::Size => {
            if let Some(p) = spec_find_crlf(m.buf) {
                crate::util::lemma_find_crlf_from_ok(m.buf, 0);
                assert(m.buf.skip(p + 2).len() < m.buf.len());
            }
        },
        CPhase::Data { size, read } => {
            if m.buf.len() > 0 && read < size && m.body.len() < m.max_body {
                assert(m.buf.drop_first().len() < m.buf.len());
            }
        },
        CPhase::DataEnd => {},
        CPhase::Trailer => {
            if let Some(p) = spec_find_crlf(m.buf) {
                crate::util::lemma_find_crlf_from_ok(m.buf, 0);
                assert(m.buf.skip(p + 2).len() < m.buf.len());
            }
        },
        CPhase::Done => {},
        CPhase::Failed(_) => {},
    }
}

/// Feeding `data`: append it to the pending buffer, then run.
pub open spec fn cfeed(m: CM, data: Seq<u8>) -> CM {
    crun(CM { buf: m.buf + data, ..m })
}

/// One step is unmoved by bytes that arrive later: whatever `cstep` does
/// with the buffer it also does when more bytes stand after it.
pub proof fn lemma_cstep_extend(m: CM, b: Seq<u8>)
    requires
        cstep(m) is Some,
    ensures
        cstep(CM { buf: m.buf + b, ..m }) == Some(
            CM { buf: cstep(m).unwrap().buf + b, ..cstep(m).unwrap() },
        ),
{
    let mx = CM { buf: m.buf + b, ..m };
    let m2 = cstep(m).unwrap();
    assert(forall|i: int| 0 <= i < m.buf.len() ==> (m.buf + b)[i] == m.buf[i]);
    match m.phase {
        CPhase::Size => {
            let p = spec_find_crlf(m.buf).unwrap();
            lemma_find_crlf_from_ok(m.buf, 0);
            crate::util::lemma_find_crlf_extend(m.buf, b, 0);
            assert(spec_find_crlf(mx.buf) == Some(p));
            assert(mx.buf.take(p) =~= m.buf.take(p));
            assert(mx.buf.skip(p + 2) =~= m.buf.skip(p + 2) + b);
        },
        CPhase::Data { size, read } => {
            assert(mx.buf[0] == m.buf[0]);
            assert(mx.buf.drop_first() =~= m.buf.drop_first() + b);
        },
        CPhase::DataEnd => {
            if m.buf.len() >= 2 {
                assert(mx.buf[0] == m.buf[0] && mx.buf[1] == m.buf[1]);
                if m.buf[0] == 13 && m.buf[1] == 10 {
                    assert(mx.buf.skip(2) =~= m.buf.skip(2) + b);
                }
            } else {
                assert(m.buf.len() == 1 && m.buf[0] != 13);
                assert(mx.buf[0] == m.buf[0]);
                if mx.buf.len() >= 2 {
                    assert(cstep(mx) == Some(cfail(mx, ChunkedError::InvalidEncoding)));
                }
            }
        },
        CPhase::Trailer => {
            let p = spec_find_crlf(m.buf).unwrap();
            lemma_find_crlf_from_ok(m.buf, 0);
            crate::util::lemma_find_crlf_extend(m.buf, b, 0);
            assert(spec_find_crlf(mx.buf) == Some(p));
            if p == 0 {
                assert(mx.buf.skip(2) =~= m.buf.skip(2) + b);
            } else {
                assert(mx.buf.take(p) =~= m.buf.take(p));
                assert(mx.buf.skip(p + 2) =~= m.buf.skip(p + 2) + b);
            }
        },
        CPhase::Done => {},
        CPhase::Failed(_) => {},
    }
}

/// Running, then receiving more bytes, then running again lands exactly
/// where one run over all the bytes lands.
pub proof fn lemma_crun_extend(m: CM, b: Seq<u8>)
    ensures
        crun(CM { buf: m.buf + b, ..m }) == crun(CM { buf: crun(m).buf + b, ..crun(m) }),
    decreases m.buf.len(), crank(m.phase),
{
    lemma_cstep_bounded(m);
    match cstep(m) {
        None => {},
        Some(m2) => {
            lemma_cstep_extend(m, b);
            let mx = CM { buf: m.buf + b, ..m };
            lemma_cstep_bounded(mx);
            assert(crun(mx) == crun(CM { buf: m2.buf + b, ..m2 }));
            lemma_crun_extend(m2, b);
        },
    }
}

/// In the data phase, consuming `k` bytes at once reaches the same state
/// as `k` single-byte steps.
pub proof fn lemma_cdata_bulk(m: CM, size: nat, read: nat, k: nat)
    requires
        m.phase == (CPhase::Data { size, read }),
        1 <= k,
        read + k <= size,
        k <= m.buf.len(),
        m.body.len() + k <= m.max_body,
    ensures
        crun(m) == crun(
            CM {
                phase: if read + k == size {
                    CPhase::DataEnd
                } else {
                    CPhase::Data { size, read: read + k }
                },
                buf: m.buf.skip(k as int),
                body: m.body + m.buf.take(k as int),
                ..m
            },
        ),
    decreases k,
{
    lemma_cstep_bounded(m);
    let m1 = cstep(m).unwrap();
    assert(crun(m) == crun(m1));
    if k == 1 {
        assert(m1.buf =~= m.buf.skip(1));
        assert(m1.body =~= m.body + m.buf.take(1));
    } else {
        lemma_cdata_bulk(m1, size, read + 1, (k - 1) as nat);
        let t1 = CM {
            phase: if read + 1 + (k - 1) == size {
                CPhase::DataEnd
            } else {
                CPhase::Data { size, read: (read + k) as nat }
            },
            buf: m1.buf.skip(k - 1),
            body: m1.body + m1.buf.take(k - 1),
            ..m1
        };
        let t = CM {
            phase: if read + k == size {
                CPhase::DataEnd
            } else {
                CPhase::Data { size, read: (read + k) as nat }
            },
            buf: m.buf.skip(k as int),
            body: m.body + m.buf.take(k as int),
            ..m
        };
        assert(t1.buf =~= t.buf);
        assert(t1.body =~= t.body);
        assert(t1 == t);
    }
}

/// A trailer pair the encoder can write and the decoder reads back
/// unchanged: a non-empty trimmed name without colons, a trimmed value,
/// no carriage returns in either, both valid UTF-8.
pub open spec fn wf_trailer(name: Seq<u8>, value: Seq<u8>) -> bool {
    &&& name.len() > 0
    &&& trim(name) == name
    &&& trim(value) == value
    &&& (forall|i: int| 0 <= i < name.len() ==> #[trigger] name[i] != 13 && name[i] != 58)
    &&& (forall|i: int| 0 <= i < value.len() ==> #[trigger] value[i] != 13)
    &&& vstd::utf8::valid_utf8(name)
    &&& vstd::utf8::valid_utf8(value)
}

/// All trailer pairs are well formed.
pub open spec fn wf_trailers(ts: Seq<(Seq<u8>, Seq<u8>)>) -> bool {
    forall|i: int| 0 <= i < ts.len() ==> wf_trailer(#[trigger] ts[i].0, ts[i].1)
}

/// The digits of a hexadecimal numeral carry no carriage return, no
/// semicolon and no whitespace.
proof fn lemma_hex_digits_plain(n: nat)
    ensures
        forall|i: int|
            0 <= i < hex_digits(n).len() ==> 48 <= #[trigger] hex_digits(n)[i] <= 70,
    decreases n,
{
    if n >= 16 {
        lemma_hex_digits_plain(n / 16);
        assert forall|i: int|
            0 <= i < hex_digits(n).len() implies 48 <= #[trigger] hex_digits(n)[i] <= 70 by {
            if i < hex_digits(n).len() - 1 {
                assert(hex_digits(n)[i] == hex_digits(n / 16)[i]);
            }
        }
    }
}

/// Decoding a well-formed trailer section: each line adds its pair, and
/// the final empty line completes the transfer with nothing left over.
proof fn lemma_trailer_section(m: CM, ts: Seq<(Seq<u8>, Seq<u8>)>)
    requires
        m.phase is Trailer,
        m.buf == header_block(ts) + seq![13u8, 10],
        wf_trailers(ts),
    ensures
        crun(m) == (CM { phase: CPhase::Done, buf: Seq::<u8>::empty(), trailers: m.trailers + ts, ..m }),
    decreases ts.len(),
{
    lemma_cstep_bounded(m);
    if ts.len() == 0 {
        assert(m.buf =~= seq![13u8, 10]);
        crate::util::lemma_find_crlf_is(m.buf, 0);
        let m2 = cstep(m).unwrap();
        assert(m2.buf =~= Seq::<u8>::empty());
        assert(m2.trailers =~= m.trailers + ts);
        lemma_cstep_bounded(m2);
        assert(crun(m) == m2);
    } else {
        let name = ts[0].0;
        let value = ts[0].1;
        assert(wf_trailer(name, value));
        let line = name + seq![58u8, 32] + value;
        let tail = header_block(ts.drop_first()) + seq![13u8, 10];
        assert(m.buf =~= line + seq![13u8, 10] + tail);
        let p = line.len() as int;
        assert(m.buf[p] == 13 && m.buf[p + 1] == 10);
        assert forall|q: int| 0 <= q < p implies !(#[trigger] m.buf[q] == 13 && m.buf[q + 1]
            == 10) by {
            if q < name.len() {
                assert(m.buf[q] == name[q]);
            } else if q == name.len() {
                assert(m.buf[q] == 58);
            } else if q == name.len() + 1 {
                assert(m.buf[q] == 32);
            } else {
                assert(m.buf[q] == value[q - name.len() - 2]);
            }
        }
        crate::util::lemma_find_crlf_is(m.buf, p);
        assert(m.buf.take(p) =~= line);
        assert(line[name.len() as int] == 58);
        assert forall|q: int| 0 <= q < name.len() implies #[trigger] line[q] != 58 by {
            assert(line[q] == name[q]);
        }
        crate::util::lemma_find_byte_is(line, 58, name.len() as int);
        assert(line.take(name.len() as int) =~= name);
        crate::util::lemma_trim_trimmed(name);
        crate::util::lemma_trim_id(name);
        assert(line.skip(name.len() as int + 1) =~= seq![32u8] + value);
        crate::util::lemma_trim_space_then(value);
        assert(trailer_line(line) == Some((name, value)));
        let m2 = cstep(m).unwrap();
        lemma_cstep_bounded(m2);
        assert(m2.buf =~= tail);
        assert(crun(m) == crun(m2));
        assert(wf_trailers(ts.drop_first())) by {
            assert(forall|i: int|
                0 <= i < ts.drop_first().len() ==> #[trigger] ts.drop_first()[i] == ts[i + 1]);
        }
        lemma_trailer_section(m2, ts.drop_first());
        assert(m2.trailers + ts.drop_first() =~= m.trailers + ts);
    }
}

/// Chunked round trip: what the encoder writes for a body within the
/// caps, a fresh decoder reads back as exactly that body, with any
/// well-formed trailer headers preserved and nothing left in its buffer.
#[verifier::rlimit(100)]
pub proof fn lemma_chunked_round_trip(
    data: Seq<u8>,
    trailers: Seq<(Seq<u8>, Seq<u8>)>,
    max_chunk: nat,
    max_body: nat,
)
    requires
        data.len() <= max_chunk,
        data.len() <= max_body,
        wf_trailers(trailers),
    ensures
        ({
            let m0 = CM {
                phase: CPhase::Size,
                buf: enc_chunk(data) + enc_final(trailers),
                body: Seq::empty(),
                trailers: Seq::empty(),
                max_chunk,
                max_body,
            };
            crun(m0) == (CM {
                phase: CPhase::Done,
                buf: Seq::<u8>::empty(),
                body: data,
                trailers,
                max_chunk,
                max_body,
            })
        }),
{
    let m0 = CM {
        phase: CPhase::Size,
        buf: enc_chunk(data) + enc_final(trailers),
        body: Seq::empty(),
        trailers: Seq::empty(),
        max_chunk,
        max_body,
    };
    crate::util::lemma_hex_digits_value(data.len());
    lemma_hex_digits_plain(data.len());
    let fin_m = CM {
        phase: CPhase::Size,
        buf: enc_final(trailers),
        body: data,
        trailers: Seq::empty(),
        max_chunk,
        max_body,
    };
    if data.len() == 0 {
        assert(m0.buf =~= fin_m.buf);
        assert(m0.body =~= fin_m.body);
        assert(m0 == fin_m);
    } else {
        let h = hex_digits(data.len());
        let hl = h.len() as int;
        assert(m0.buf =~= h + seq![13u8, 10] + data + seq![13u8, 10] + enc_final(trailers));
        assert(m0.buf[hl] == 13 && m0.buf[hl + 1] == 10);
        assert forall|q: int| 0 <= q < hl implies !(#[trigger] m0.buf[q] == 13 && m0.buf[q + 1]
            == 10) by {
            assert(m0.buf[q] == h[q]);
        }
        crate::util::lemma_find_crlf_is(m0.buf, hl);
        assert(m0.buf.take(hl) =~= h);
        assert(forall|q: int| 0 <= q < h.len() ==> #[trigger] h[q] != 59);
        crate::util::lemma_find_byte_none(h, 59);
        assert(size_part(h) == h);
        crate::util::lemma_trim_id(h);
        lemma_cstep_bounded(m0);
        let m1 = cstep(m0).unwrap();
        assert(m1.phase == (CPhase::Data { size: data.len(), read: 0nat }));
        assert(m1.buf =~= data + seq![13u8, 10] + enc_final(trailers));
        assert(crun(m0) == crun(m1));
        lemma_cdata_bulk(m1, data.len(), 0, data.len());
        let m2 = CM {
            phase: CPhase::DataEnd,
            buf: m1.buf.skip(data.len() as int),
            body: m1.body + m1.buf.take(data.len() as int),
            ..m1
        };
        assert(m2.buf =~= seq![13u8, 10] + enc_final(trailers));
        assert(m2.body =~= data);
        assert(crun(m1) == crun(m2));
        lemma_cstep_bounded(m2);
        let m3 = cstep(m2).unwrap();
        assert(m3.buf =~= enc_final(trailers));
        assert(crun(m2) == crun(m3));
        assert(m3 =~= fin_m);
        assert(m3 == fin_m);
    }
    // fin_m: phase Size, buffer `0` CRLF, trailers, final CRLF
    assert(fin_m.buf =~= seq![48u8, 13, 10] + (header_block(trailers) + seq![13u8, 10]));
    assert(fin_m.buf[0] == 48 && fin_m.buf[1] == 13 && fin_m.buf[2] == 10);
    crate::util::lemma_find_crlf_is(fin_m.buf, 1);
    assert(fin_m.buf.take(1) =~= seq![48u8]);
    crate::util::lemma_find_byte_none(seq![48u8], 59);
    crate::util::lemma_trim_id(seq![48u8]);
    assert(is_hex_numeral(seq![48u8]));
    assert(hex_value(seq![48u8]) == 0) by {
        assert(seq![48u8].drop_last() =~= Seq::<u8>::empty());
    }
    lemma_cstep_bounded(fin_m);
    let t0 = cstep(fin_m).unwrap();
    assert(t0.phase is Trailer);
    assert(t0.buf =~= header_block(trailers) + seq![13u8, 10]);
    assert(crun(fin_m) == crun(t0));
    lemma_trailer_section(t0, trailers);
    assert(t0.trailers + trailers =~= trailers);
}

/// The chunked transfer decoder: feed it bytes, read off the body and the
/// trailers when it reports completion.
#[derive(Debug)]
pub struct ChunkedDecoder {
    state: ChunkedState,
    buffer: Vec<u8>,
    body: Vec<u8>,
    max_chunk_size: usize,
    max_body_size: usize,
    trailer_headers: Vec<(String, String)>,
}

/// The model phase of an executable state.
pub open spec fn phase_of(s: ChunkedState) -> CPhase {
    match s {
        ChunkedState::ChunkSize => CPhase::Size,
        ChunkedState::ChunkData { size, read } => CPhase::Data {
            size: size as nat,
            read: read as nat,
        },
        ChunkedState::ChunkTrailer => CPhase::DataEnd,
        ChunkedState::Trailer => CPhase::Trailer,
        ChunkedState::Complete => CPhase::Done,
        ChunkedState::Error(e) => CPhase::Failed(e),
    }
}

impl ChunkedDecoder {
    /// The byte-level model of this decoder.
    pub closed spec fn m(&self) -> CM {
        CM {
            phase: phase_of(self.state),
            buf: self.buffer@,
            body: self.body@,
            trailers: self.trailer_headers@.map_values(
                |p: (String, String)| (utf8_bytes(p.0@), utf8_bytes(p.1@)),
            ),
            max_chunk: self.max_chunk_size as nat,
            max_body: self.max_body_size as nat,
        }
    }

    /// A fresh decoder with the given per-chunk and total-body caps.
    pub fn new(max_chunk_size: usize, max_body_size: usize) -> (r: ChunkedDecoder)
        ensures
            r.m() == (CM {
                phase: CPhase::Size,
                buf: Seq::<u8>::empty(),
                body: Seq::<u8>::empty(),
                trailers: Seq::<(Seq<u8>, Seq<u8>)>::empty(),
                max_chunk: max_chunk_size as nat,
                max_body: max_body_size as nat,
            }),
    {
        let r = ChunkedDecoder {
            state: ChunkedState::ChunkSize,
            buffer: Vec::new(),
            body: Vec::new(),
            max_chunk_size,
            max_body_size,
            trailer_headers: Vec::new(),
        };
        proof {
            assert(r.m().trailers =~= Seq::<(Seq<u8>, Seq<u8>)>::empty());
        }
        r
    }

    /// Feeds `data` to the decoder and runs it as far as it can go. `Ok`
    /// reports all of `data` consumed into the decoder; `Err(e)` reports
    /// the failure the model reaches. The state after the call is exactly
    /// the model's `cfeed` of the state before it.
    pub fn process(&mut self, data: &[u8]) -> (r: Result<usize, ChunkedError>)
        ensures
            final(self).m() == cfeed(old(self).m(), data@),
            match r {
                Ok(n) => n == data@.len() && !(final(self).m().phase is Failed),
                Err(e) => final(self).m().phase == CPhase::Failed(e),
            },
    {
        self.buffer.extend_from_slice(data);
        let ghost target = cfeed(old(self).m(), data@);
        proof {
            assert(self.buffer@ =~= old(self).m().buf + data@);
            assert(self.m() == (CM { buf: old(self).m().buf + data@, ..old(self).m() }));
        }
        loop
            invariant
                crun(self.m()) == target,
                target == cfeed(old(self).m(), data@),
                self.max_chunk_size == old(self).m().max_chunk,
            decreases self.m().buf.len(), crank(self.m().phase),
        {
            proof {
                lemma_cstep_bounded(self.m());
            }
            let ghost pre = self.m();
            match &self.state {
                ChunkedState::ChunkSize => {
                    match find_crlf_exec(self.buffer.as_slice()) {
                        None => {
                            proof {
                                assert(crun(pre) == pre);
                            }
                            return Ok(data.len());
                        },
                        Some(p) => {
                            let blen = self.buffer.len();
                            proof {
                                lemma_find_crlf_from_ok(pre.buf, 0);
                                lemma_find_byte_from_ok(pre.buf.take(p as int), 59, 0);
                                assert(p + 2 <= blen);
                            }
                            let line = &self.buffer.as_slice()[0..p];
                            let semi = find_byte_exec(line, 59, 0);
                            let szpart = match semi {
                                None => trim_exec(line),
                                Some(q) => trim_exec(&line[0..q]),
                            };
                            proof {
                                assert(szpart@ == trim(size_part(pre.buf.take(p as int))));
                            }
                            if !crate::util::is_hex_numeral_exec(szpart.as_slice()) {
                                self.state = ChunkedState::Error(ChunkedError::InvalidChunkSize);
                                proof {
                                    assert(cstep(pre) == Some(self.m()));
                                }
                            } else {
                                match parse_hex(szpart.as_slice(), self.max_chunk_size as u64) {
                                    None => {
                                        self.state = ChunkedState::Error(
                                            ChunkedError::ChunkTooLarge,
                                        );
                                        proof {
                                            assert(cstep(pre) == Some(self.m()));
                                        }
                                    },
                                    Some(sz) => {
                                        let rest = self.buffer.split_off(p + 2);
                                        self.buffer = rest;
                                        if sz == 0 {
                                            self.state = ChunkedState::Trailer;
                                        } else {
                                            self.state = ChunkedState::ChunkData {
                                                size: sz as usize,
                                                read: 0,
                                            };
                                        }
                                        proof {
                                            assert(self.m().buf =~= pre.buf.skip(p + 2));
                                            assert(cstep(pre) == Some(self.m()));
                                        }
                                    },
                                }
                            }
                        },
                    }
                },
                ChunkedState::ChunkData { size, read } => {
                    let size = *size;
                    let read = *read;
                    let avail = self.buffer.len();
                    if avail == 0 || read >= size {
                        proof {
                            assert(crun(pre) == pre);
                        }
                        return Ok(data.len());
                    }
                    if self.body.len() >= self.max_body_size {
                        self.state = ChunkedState::Error(ChunkedError::BodyTooLarge);
                        proof {
                            assert(cstep(pre) == Some(self.m()));
                        }
                    } else {
                        let rem = size - read;
                        let room = self.max_body_size - self.body.len();
                        let mut k = if rem < avail {
                            rem
                        } else {
                            avail
                        };
                        if room < k {
                            k = room;
                        }
                        self.body.extend_from_slice(&self.buffer.as_slice()[0..k]);
                        let rest = self.buffer.split_off(k);
                        self.buffer = rest;
                        if read + k == size {
                            self.state = ChunkedState::ChunkTrailer;
                        } else {
                            self.state = ChunkedState::ChunkData { size, read: read + k };
                        }
                        proof {
                            assert(self.m().buf =~= pre.buf.skip(k as int));
                            assert(self.m().body =~= pre.body + pre.buf.take(k as int));
                            lemma_cdata_bulk(pre, size as nat, read as nat, k as nat);
                            assert(crun(pre) == crun(self.m()));
                        }
                        continue;
                    }
                },
                ChunkedState::ChunkTrailer => {
                    if self.buffer.len() >= 2 {
                        if self.buffer[0] == 13 && self.buffer[1] == 10 {
                            let rest = self.buffer.split_off(2);
                            self.buffer = rest;
                            self.state = ChunkedState::ChunkSize;
                            proof {
                                assert(self.m().buf =~= pre.buf.skip(2));
                                assert(cstep(pre) == Some(self.m()));
                            }
                        } else {
                            self.state = ChunkedState::Error(ChunkedError::InvalidEncoding);
                            proof {
                                assert(cstep(pre) == Some(self.m()));
                            }
                        }
                    } else if self.buffer.len() == 1 && self.buffer[0] != 13 {
                        self.state = ChunkedState::Error(ChunkedError::InvalidEncoding);
                        proof {
                            assert(cstep(pre) == Some(self.m()));
                        }
                    } else {
                        proof {
                            assert(crun(pre) == pre);
                        }
                        return Ok(data.len());
                    }
                },
                ChunkedState::Trailer => {
                    match find_crlf_exec(self.buffer.as_slice()) {
                        None => {
                            proof {
                                assert(crun(pre) == pre);
                            }
                            return Ok(data.len());
                        },
                        Some(p) => {
                            let blen = self.buffer.len();
                            proof {
                                lemma_find_crlf_from_ok(pre.buf, 0);
                                assert(p + 2 <= blen);
                            }
                            if p == 0 {
                                let rest = self.buffer.split_off(2);
                                self.buffer = rest;
                                self.state = ChunkedState::Complete;
                                proof {
                                    assert(self.m().buf =~= pre.buf.skip(2));
                                    assert(cstep(pre) == Some(self.m()));
                                }
                            } else {
                                proof {
                                    lemma_find_byte_from_ok(pre.buf.take(p as int), 58, 0);
                                }
                                let line = &self.buffer.as_slice()[0..p];
                                match find_byte_exec(line, 58, 0) {
                                    None => {
                                        self.state = ChunkedState::Error(
                                            ChunkedError::IncompleteData,
                                        );
                                        proof {
                                            assert(cstep(pre) == Some(self.m()));
                                        }
                                    },
                                    Some(c) => {
                                        let name_b = trim_exec(&line[0..c]);
                                        let value_b = trim_exec(&line[c + 1..line.len()]);
                                        proof {
                                            assert(line@ == pre.buf.take(p as int));
                                            assert(line@.subrange(c + 1, line@.len() as int)
                                                =~= pre.buf.take(p as int).skip(c + 1));
                                        }
                                        if name_b.len() == 0 {
                                            self.state = ChunkedState::Error(
                                                ChunkedError::IncompleteData,
                                            );
                                            proof {
                                                assert(cstep(pre) == Some(self.m()));
                                            }
                                        } else {
                                            let ghost nb = name_b@;
                                            let ghost vb = value_b@;
                                            let name_s = string_from_bytes(name_b);
                                            let value_s = string_from_bytes(value_b);
                                            match (name_s, value_s) {
                                                (Some(n), Some(v)) => {
                                                    let ghost tpre = self.m().trailers;
                                                    let rest = self.buffer.split_off(p + 2);
                                                    self.buffer = rest;
                                                    self.trailer_headers.push((n, v));
                                                    proof {
                                                        assert(self.m().buf =~= pre.buf.skip(
                                                            p + 2,
                                                        ));
                                                        assert(self.m().trailers =~= tpre.push(
                                                            (nb, vb),
                                                        ));
                                                        assert(trailer_line(pre.buf.take(p as int))
                                                            == Some((nb, vb)));
                                                        assert(cstep(pre) == Some(self.m()));
                                                    }
                                                },
                                                _ => {
                                                    self.state = ChunkedState::Error(
                                                        ChunkedError::IncompleteData,
                                                    );
                                                    proof {
                                                        assert(trailer_line(
                                                            pre.buf.take(p as int),
                                                        ) is None);
                                                        assert(cstep(pre) == Some(self.m()));
                                                    }
                                                },
                                            }
                                        }
                                    },
                                }
                            }
                        },
                    }
                },
                ChunkedState::Complete => {
                    proof {
                        assert(crun(pre) == pre);
                    }
                    return Ok(data.len());
                },
                ChunkedState::Error(e) => {
                    let e = *e;
                    proof {
                        assert(crun(pre) == pre);
                    }
                    return Err(e);
                },
            }
            proof {
                assert(crun(pre) == crun(self.m()));
            }
        }
    }

    /// Whether decoding has reached the terminal chunk and trailers.
    pub fn is_complete(&self) -> (r: bool)
        ensures
            r == (self.m().phase is Done),
    {
        matches!(self.state, ChunkedState::Complete)
    }

    /// Whether decoding has failed.
    pub fn is_error(&self) -> (r: bool)
        ensures
            r == (self.m().phase is Failed),
    {
        matches!(self.state, ChunkedState::Error(_))
    }

    /// The body decoded so far.
    pub fn body(&self) -> (r: &[u8])
        ensures
            r@ == self.m().body,
    {
        self.body.as_slice()
    }

    /// The trailer headers read so far.
    pub fn trailer_headers(&self) -> (r: &[(String, String)])
        ensures
            r@.map_values(|p: (String, String)| (utf8_bytes(p.0@), utf8_bytes(p.1@)))
                == self.m().trailers,
    {
        self.trailer_headers.as_slice()
    }

    /// The current state.
    pub fn state(&self) -> (r: &ChunkedState)
        ensures
            phase_of(*r) == self.m().phase,
    {
        &self.state
    }

    /// Forgets everything and starts a new transfer, with the same caps.
    pub fn reset(&mut self)
        ensures
            final(self).m() == (CM {
                phase: CPhase::Size,
                buf: Seq::<u8>::empty(),
                body: Seq::<u8>::empty(),
                trailers: Seq::<(Seq<u8>, Seq<u8>)>::empty(),
                max_chunk: old(self).m().max_chunk,
                max_body: old(self).m().max_body,
            }),
    {
        self.state = ChunkedState::ChunkSize;
        self.buffer.clear();
        self.body.clear();
        self.trailer_headers.clear();
        proof {
            assert(self.m().trailers =~= Seq::<(Seq<u8>, Seq<u8>)>::empty());
        }
    }

    /// How many bytes the decoded body holds.
    pub fn body_size(&self) -> (r: usize)
        ensures
            r == self.m().body.len(),
    {
        self.body.len()
    }
}

/// The wire form of one chunk: its length in upper-case hex, CRLF, the
/// data, CRLF. An empty chunk emits nothing, since `0` would end the body.
pub open spec fn enc_chunk(data: Seq<u8>) -> Seq<u8> {
    if data.len() == 0 {
        Seq::empty()
    } else {
        hex_digits(data.len()) + seq![13u8, 10] + data + seq![13u8, 10]
    }
}

/// The wire form of the terminating chunk: `0`, CRLF, the trailer lines,
/// and a final CRLF.
pub open spec fn enc_final(trailers: Seq<(Seq<u8>, Seq<u8>)>) -> Seq<u8> {
    seq![48u8, 13, 10] + header_block(trailers) + seq![13u8, 10]
}

/// The wire form of a list of chunks.
pub open spec fn enc_chunks(chunks: Seq<Seq<u8>>) -> Seq<u8>
    decreases chunks.len(),
{
    if chunks.len() == 0 {
        Seq::empty()
    } else {
        enc_chunk(chunks[0]) + enc_chunks(chunks.drop_first())
    }
}

/// The byte view of an optional trailer slice.
pub open spec fn trailers_view(t: Option<&[(String, String)]>) -> Seq<(Seq<u8>, Seq<u8>)> {
    match t {
        None => Seq::empty(),
        Some(s) => s@.map_values(|p: (String, String)| (utf8_bytes(p.0@), utf8_bytes(p.1@))),
    }
}

/// The chunked transfer encoder for responses: each write emits one
/// chunk; `finalize` emits the terminating chunk and refuses further data.
#[derive(Debug)]
pub struct ChunkedEncoder {
    buffer: Vec<u8>,
    finalized: bool,
}

impl ChunkedEncoder {
    /// The bytes encoded so far.
    pub closed spec fn out(&self) -> Seq<u8> {
        self.buffer@
    }

    /// Whether the encoder has been finalized.
    pub closed spec fn done(&self) -> bool {
        self.finalized
    }

    /// A fresh encoder.
    pub fn new() -> (r: ChunkedEncoder)
        ensures
            r.out() == Seq::<u8>::empty(),
            !r.done(),
    {
        ChunkedEncoder { buffer: Vec::new(), finalized: false }
    }

    /// Appends one chunk; refused once finalized.
    pub fn encode_chunk(&mut self, data: &[u8]) -> (r: Result<(), ChunkedError>)
        ensures
            old(self).done() ==> r == Err::<(), ChunkedError>(ChunkedError::IoError) && *final(self)
                == *old(self),
            !old(self).done() ==> r is Ok && final(self).out() == old(self).out() + enc_chunk(data@)
                && !final(self).done(),
    {
        if self.finalized {
            return Err(ChunkedError::IoError);
        }
        if data.len() == 0 {
            proof {
                assert(self.out() =~= self.out() + enc_chunk(data@));
            }
            return Ok(());
        }
        let mut len_hex = u64_to_hex(data.len() as u64);
        self.buffer.append(&mut len_hex);
        self.buffer.push(13);
        self.buffer.push(10);
        self.buffer.extend_from_slice(data);
        self.buffer.push(13);
        self.buffer.push(10);
        proof {
            assert(self.out() =~= old(self).out() + enc_chunk(data@));
        }
        Ok(())
    }

    /// Emits the terminating chunk and the trailer lines; idempotent.
    pub fn finalize(&mut self, trailer_headers: Option<&[(String, String)]>) -> (r: Result<
        (),
        ChunkedError,
    >)
        ensures
            r is Ok,
            old(self).done() ==> *final(self) == *old(self),
            !old(self).done() ==> final(self).out() == old(self).out() + enc_final(
                trailers_view(trailer_headers),
            ) && final(self).done(),
    {
        if self.finalized {
            return Ok(());
        }
        self.buffer.push(48);
        self.buffer.push(13);
        self.buffer.push(10);
        let ghost mid = self.buffer@;
        if let Some(headers) = trailer_headers {
            let ghost ts = trailers_view(trailer_headers);
            let mut i: usize = 0;
            while i < headers.len()
                invariant
                    i <= headers.len(),
                    ts == trailers_view(Some(headers)),
                    ts.len() == headers.len(),
                    self.buffer@ == mid + header_block(ts.take(i as int)),
                decreases headers.len() - i,
            {
                let (name, value) = (&headers[i].0, &headers[i].1);
                self.buffer.extend_from_slice(name.as_str().as_bytes());
                self.buffer.push(58);
                self.buffer.push(32);
                self.buffer.extend_from_slice(value.as_str().as_bytes());
                self.buffer.push(13);
                self.buffer.push(10);
                proof {
                    crate::http::response::lemma_header_block_snoc(
                        ts.take(i as int),
                        ts[i as int],
                    );
                    assert(ts.take(i + 1) =~= ts.take(i as int).push(ts[i as int]));
                    assert(self.buffer@ =~= mid + header_block(ts.take(i + 1)));
                }
                i += 1;
            }
            proof {
                assert(ts.take(ts.len() as int) =~= ts);
            }
        }
        self.buffer.push(13);
        self.buffer.push(10);
        self.finalized = true;
        proof {
            assert(header_block(trailers_view(None)) =~= Seq::<u8>::empty());
            assert(self.out() =~= old(self).out() + enc_final(trailers_view(trailer_headers)));
        }
        Ok(())
    }

    /// Hands out the encoded bytes and clears the buffer.
    pub fn take_data(&mut self) -> (r: Vec<u8>)
        ensures
            r@ == old(self).out(),
            final(self).out() == Seq::<u8>::empty(),
            final(self).done() == old(self).done(),
    {
        let mut out = Vec::new();
        std::mem::swap(&mut out, &mut self.buffer);
        out
    }

    /// The encoded bytes, without clearing.
    pub fn data(&self) -> (r: &[u8])
        ensures
            r@ == self.out(),
    {
        self.buffer.as_slice()
    }

    /// Whether the encoder has been finalized.
    pub fn is_finalized(&self) -> (r: bool)
        ensures
            r == self.done(),
    {
        self.finalized
    }

    /// Clears the buffer and the finalized mark.
    pub fn reset(&mut self)
        ensures
            final(self).out() == Seq::<u8>::empty(),
            !final(self).done(),
    {
        self.buffer.clear();
        self.finalized = false;
    }

    /// Encodes one data block and the terminating chunk in one call.
    pub fn encode_complete(data: &[u8], trailer_headers: Option<&[(String, String)]>) -> (r: Result<
        Vec<u8>,
        ChunkedError,
    >)
        ensures
            r matches Ok(v) && v@ == enc_chunk(data@) + enc_final(trailers_view(trailer_headers)),
    {
        let mut encoder = ChunkedEncoder::new();
        let r1 = encoder.encode_chunk(data);
        proof {
            assert(r1 is Ok);
        }
        let r2 = encoder.finalize(trailer_headers);
        proof {
            assert(Seq::<u8>::empty() + enc_chunk(data@) + enc_final(
                trailers_view(trailer_headers),
            ) =~= enc_chunk(data@) + enc_final(trailers_view(trailer_headers)));
        }
        Ok(encoder.take_data())
    }

    /// Encodes a list of data blocks and the terminating chunk.
    pub fn encode_chunks(chunks: &[&[u8]], trailer_headers: Option<&[(String, String)]>) -> (r:
        Result<Vec<u8>, ChunkedError>)
        ensures
            r matches Ok(v) && v@ == enc_chunks(chunks@.map_values(|c: &[u8]| c@)) + enc_final(
                trailers_view(trailer_headers),
            ),
    {
        let ghost cs = chunks@.map_values(|c: &[u8]| c@);
        let mut encoder = ChunkedEncoder::new();
        let mut i: usize = 0;
        while i < chunks.len()
            invariant
                i <= chunks.len(),
                cs == chunks@.map_values(|c: &[u8]| c@),
                !encoder.done(),
                encoder.out() == enc_chunks(cs.take(i as int)),
            decreases chunks.len() - i,
        {
            let r1 = encoder.encode_chunk(chunks[i]);
            proof {
                lemma_enc_chunks_snoc(cs.take(i as int), cs[i as int]);
                assert(cs.take(i + 1) =~= cs.take(i as int).push(cs[i as int]));
            }
            i += 1;
        }
        let r2 = encoder.finalize(trailer_headers);
        proof {
            assert(cs.take(cs.len() as int) =~= cs);
        }
        Ok(encoder.take_data())
    }
}

impl Default for ChunkedEncoder {
    /// A fresh encoder.
    fn default() -> (r: Self)
        ensures
            r.out() == Seq::<u8>::empty(),
            !r.done(),
    {
        Self::new()
    }
}

/// `enc_chunks` distributes over appending one chunk.
pub proof fn lemma_enc_chunks_snoc(chunks: Seq<Seq<u8>>, c: Seq<u8>)
    ensures
        enc_chunks(chunks.push(c)) == enc_chunks(chunks) + enc_chunk(c),
    decreases chunks.len(),
{
    reveal_with_fuel(enc_chunks, 3);
    if chunks.len() == 0 {
        assert(chunks.push(c)[0] == c);
        assert(chunks.push(c).drop_first() =~= Seq::<Seq<u8>>::empty());
        assert(enc_chunks(chunks.push(c)) =~= enc_chunks(chunks) + enc_chunk(c));
    } else {
        assert(chunks.push(c)[0] == chunks[0]);
        assert(chunks.push(c).drop_first() =~= chunks.drop_first().push(c));
        lemma_enc_chunks_snoc(chunks.drop_first(), c);
        assert(enc_chunks(chunks.push(c)) =~= enc_chunks(chunks) + enc_chunk(c));
    }
}

/// The end of the comma-list item of `s` that starts at `from`: the
/// next comma, or the end of `s`.
pub open spec fn te_end(s: Seq<u8>, from: int) -> int {
    let e = match find_byte_from(s, 44, from) {
        Some(p) => p,
        None => s.len() as int,
    };
    if e < from {
        from
    } else if e > s.len() {
        s.len() as int
    } else {
        e
    }
}

/// The items of a comma-separated header value from `from` on, each
/// trimmed and ASCII lower-cased, in order.
pub open spec fn te_items(s: Seq<u8>, from: int) -> Seq<Seq<u8>>
    decreases s.len() - from,
{
    let piece = lower(trim(s.subrange(from, te_end(s, from))));
    let head = if vstd::utf8::valid_utf8(piece) {
        seq![piece]
    } else {
        Seq::<Seq<u8>>::empty()
    };
    if te_end(s, from) >= s.len() {
        head
    } else {
        head + te_items(s, te_end(s, from) + 1)
    }
}

/// Helpers and policy around chunked transfer.
#[derive(Debug)]
pub struct ChunkedUtils;

impl ChunkedUtils {
    /// Whether a response should be chunked: only on `HTTP/1.1` with no
    /// known length.
    pub fn should_use_chunked(content_length: Option<usize>, http_version: &str) -> (r: bool)
        ensures
            r == (utf8_bytes(http_version@) == crate::http::request::tok_http11()
                && content_length is None),
    {
        proof {
            crate::http::request::lemma_wire_literals();
        }
        crate::util::bytes_eq(http_version.as_bytes(), "HTTP/1.1".as_bytes())
            && content_length.is_none()
    }

    /// The comma-separated elements of a `Transfer-Encoding` value,
    /// trimmed and lower-cased.
    pub fn parse_transfer_encoding(header_value: &str) -> (r: Vec<String>)
        ensures
            r@.map_values(|x: String| utf8_bytes(x@)) == te_items(utf8_bytes(header_value@), 0),
    {
        let bytes = header_value.as_bytes();
        let mut out: Vec<String> = Vec::new();
        let mut from: usize = 0;
        loop
            invariant
                from <= bytes@.len(),
                bytes@ == utf8_bytes(header_value@),
                te_items(bytes@, 0) == out@.map_values(|x: String| utf8_bytes(x@)) + te_items(
                    bytes@,
                    from as int,
                ),
            decreases bytes@.len() - from,
        {
            proof {
                lemma_find_byte_from_ok(bytes@, 44, from as int);
            }
            let end = match find_byte_exec(bytes, 44, from) {
                Some(p) => p,
                None => bytes.len(),
            };
            proof {
                assert(te_end(bytes@, from as int) == end as int);
            }
            let piece = trim_exec(&bytes[from..end]);
            let low = crate::util::lower_bytes_exec(piece.as_slice());
            let ghost lowb = low@;
            let ghost outb = out@;
            proof {
                assert(lowb == lower(trim(bytes@.subrange(from as int, te_end(
                    bytes@,
                    from as int,
                )))));
            }
            if let Some(s) = string_from_bytes(low) {
                out.push(s);
                proof {
                    assert(out@.map_values(|x: String| utf8_bytes(x@)) =~= outb.map_values(
                        |x: String| utf8_bytes(x@),
                    ).push(lowb));
                }
            } else {
                proof {
                    assert(!vstd::utf8::valid_utf8(lowb));
                }
            }
            if end >= bytes.len() {
                proof {
                    assert(te_items(bytes@, from as int) == if vstd::utf8::valid_utf8(lowb) {
                        seq![lowb]
                    } else {
                        Seq::<Seq<u8>>::empty()
                    });
                    assert(te_items(bytes@, 0) =~= out@.map_values(|x: String| utf8_bytes(x@)));
                }
                return out;
            }
            proof {
                assert(te_items(bytes@, from as int) == (if vstd::utf8::valid_utf8(lowb) {
                    seq![lowb]
                } else {
                    Seq::<Seq<u8>>::empty()
                }) + te_items(bytes@, end + 1));
                assert(te_items(bytes@, 0) =~= out@.map_values(|x: String| utf8_bytes(x@))
                    + te_items(bytes@, end + 1));
            }
            from = end + 1;
        }
    }

    /// Whether an encoding list names `chunked`.
    pub fn is_chunked_encoding(transfer_encoding: &Vec<String>) -> (r: bool)
        ensures
            r == (exists|i: int|
                0 <= i < transfer_encoding@.len() && utf8_bytes(#[trigger] transfer_encoding@[i]@)
                    == crate::http::request::tok_chunked()),
    {
        proof {
            crate::http::request::lemma_wire_literals();
        }
        let mut i: usize = 0;
        while i < transfer_encoding.len()
            invariant
                i <= transfer_encoding@.len(),
                forall|j: int|
                    0 <= j < i ==> utf8_bytes(#[trigger] transfer_encoding@[j]@)
                        != crate::http::request::tok_chunked(),
            decreases transfer_encoding.len() - i,
        {
            proof {
                crate::http::request::lemma_wire_literals();
            }
            if crate::util::bytes_eq(
                transfer_encoding[i].as_str().as_bytes(),
                "chunked".as_bytes(),
            ) {
                return true;
            }
            i += 1;
        }
        false
    }

    /// Holds a declared chunk size to a cap.
    pub fn validate_chunk_size(size: usize, max_size: usize) -> (r: Result<(), ChunkedError>)
        ensures
            r is Ok <==> size <= max_size,
            r matches Err(e) ==> e == ChunkedError::ChunkTooLarge,
    {
        if size > max_size {
            Err(ChunkedError::ChunkTooLarge)
        } else {
            Ok(())
        }
    }

    /// The chunk size the encoder favours for a body of a known size.
    pub fn optimal_chunk_size(total_size: Option<usize>) -> (r: usize)
        ensures
            r == match total_size {
                Some(size) => if size < 1024 {
                    512usize
                } else if size < 65536 {
                    4096usize
                } else if size < 1048576 {
                    8192usize
                } else {
                    16384usize
                },
                None => 16384usize,
            },
    {
        match total_size {
            Some(size) => {
                if size < 1024 {
                    512
                } else if size < 65536 {
                    4096
                } else if size < 1048576 {
                    8192
                } else {
                    16384
                }
            },
            None => 16384,
        }
    }
}

/// The position of the first CRLF pair in a buffer.
pub fn find_crlf(buffer: &[u8]) -> (r: Option<usize>)
    ensures
        match r {
            Some(p) => spec_find_crlf(buffer@) == Some(p as int),
            None => spec_find_crlf(buffer@) is None,
        },
{
    find_crlf_exec(buffer)
}

/// The position of the first blank line (CRLF CRLF) in a buffer.
pub fn find_empty_line(buffer: &[u8]) -> (r: Option<usize>)
    ensures
        r matches Some(p) ==> p + 4 <= buffer@.len(),
{
    if buffer.len() < 4 {
        return None;
    }
    let mut i: usize = 0;
    while i <= buffer.len() - 4
        invariant
            buffer@.len() >= 4,
            i <= buffer@.len(),
        decreases buffer.len() - i,
    {
        if buffer[i] == 13 && buffer[i + 1] == 10 && buffer[i + 2] == 13 && buffer[i + 3] == 10 {
            return Some(i);
        }
        i += 1;
    }
    None
}

} // verus!
