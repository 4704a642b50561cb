//! `.incwav` WAV to DPCM conversion. A mono PCM WAV is delta-modulated into
//! the NES DPCM bit stream: each output byte packs eight 1-bit up/down
//! decisions, least significant bit first.

use vstd::prelude::*;

verus! {

/// Why a WAV could not be converted.
#[derive(Debug, Clone, Copy, PartialEq, Eq, Structural)]
pub enum WavError {
    /// Header shorter than 12 bytes.
    ShortRead,
    /// Missing `RIFF`/`WAVE` magic.
    NotWav,
    /// More than one channel.
    NotMono,
}

/// Little-endian 16-bit value at `p`.
pub open spec fn le16(b: Seq<u8>, p: int) -> int {
    b[p] + b[p + 1] * 256
}

/// Little-endian 32-bit value at `p`.
pub open spec fn le32(b: Seq<u8>, p: int) -> int {
    b[p] + b[p + 1] * 256 + b[p + 2] * 65536 + b[p + 3] * 16777216
}

/// Whether the four bytes at `p` spell `t0 t1 t2 t3`.
pub open spec fn tag_at(b: Seq<u8>, p: int, t0: u8, t1: u8, t2: u8, t3: u8) -> bool {
    b[p] == t0 && b[p + 1] == t1 && b[p + 2] == t2 && b[p + 3] == t3
}

/// The outcome of walking the chunk list from `pos`: whether the walk ended
/// the conversion with no output, the `fmt ` fields `(channels, bits per
/// sample)` seen, and the `data` chunk's `(start, length)` when found.
pub open spec fn walk(b: Seq<u8>, pos: int, fmt: Option<(int, int)>) -> (
    bool,
    Option<(int, int)>,
    Option<(int, int)>,
)
    decreases (if 0 <= pos < b.len() {
        b.len() - pos
    } else {
        0
    }),
{
    if pos < 0 || pos + 8 > b.len() {
        (false, fmt, None)
    } else {
        let size = le32(b, pos + 4);
        let p = pos + 8;
        if tag_at(b, pos, 0x66, 0x6D, 0x74, 0x20) {
            if size < 16 || p + 16 > b.len() {
                (true, None, None)
            } else {
                walk(b, p + size, Some((le16(b, p + 2), le16(b, p + 14))))
            }
        } else if tag_at(b, pos, 0x64, 0x61, 0x74, 0x61) {
            if fmt is None || size == 0 {
                (true, None, None)
            } else {
                let end = if p + size < b.len() {
                    p + size
                } else {
                    b.len() as int
                };
                (false, fmt, Some((p, end - p)))
            }
        } else {
            walk(b, p + size, fmt)
        }
    }
}

/// Bytes read per sample for a sample width of `bits`.
pub open spec fn bytes_per_sample(bits: int) -> int {
    (bits + 7) / 8
}

/// The sample whose slot starts at byte `s` of a PCM stream: the last two
/// bytes of the slot as a little-endian 16-bit value (8-bit samples recentred
/// from unsigned), and `0` at or past the end of the data.
pub open spec fn slot_sample(data: Seq<u8>, bits: int, s: int) -> int {
    let k = bytes_per_sample(bits);
    if s >= data.len() || s < 0 {
        0
    } else {
        let e = if s + k < data.len() {
            s + k
        } else {
            data.len() as int
        };
        let prev = if e - s >= 2 {
            data[e - 2] as int
        } else {
            0
        };
        let cur = data[e - 1] * 256 + prev;
        if bits <= 8 {
            cur - 32768
        } else if cur >= 32768 {
            cur - 65536
        } else {
            cur
        }
    }
}

/// Sample `t` of a PCM stream.
pub open spec fn sample_value(data: Seq<u8>, bits: int, t: int) -> int {
    slot_sample(data, bits, t * bytes_per_sample(bits))
}

/// Floor division by `2^15`.
pub open spec fn floor_div32768(v: int) -> int {
    if v >= 0 {
        v / 32768
    } else {
        -((-v + 32767) / 32768)
    }
}

/// The delta-modulation target for sample `t`.
pub open spec fn target(data: Seq<u8>, bits: int, amp: int, t: int) -> int {
    floor_div32768(sample_value(data, bits, t) * amp + 16384)
}

/// The reconstructed level before sample `t` is coded.
pub open spec fn level(data: Seq<u8>, bits: int, amp: int, t: int) -> int
    decreases t,
{
    if t <= 0 {
        0
    } else {
        let y = level(data, bits, amp, t - 1);
        if target(data, bits, amp, t - 1) >= y {
            if y + 1 > 31 {
                31
            } else {
                y + 1
            }
        } else {
            if y - 1 < -32 {
                -32
            } else {
                y - 1
            }
        }
    }
}

/// The DPCM bit for sample `t`: whether its target is at or above the level.
pub open spec fn dpcm_bit(data: Seq<u8>, bits: int, amp: int, t: int) -> bool {
    target(data, bits, amp, t) >= level(data, bits, amp, t)
}

/// The weight of bit `i` in a byte.
pub open spec fn bit_weight(i: nat) -> int
    decreases i,
{
    if i == 0 {
        1
    } else {
        2 * bit_weight((i - 1) as nat)
    }
}

/// The first nine bit weights.
proof fn lemma_bit_weight(i: nat)
    requires
        i <= 8,
    ensures
        i < 8 ==> bit_weight(i) <= 128,
        i == 8 ==> bit_weight(i) == 256,
        1 <= bit_weight(i) <= 256,
        i < 8 ==> bit_weight((i + 1) as nat) == 2 * bit_weight(i),
{
    reveal_with_fuel(bit_weight, 10);
    if i == 0 {
    } else if i == 1 {
    } else if i == 2 {
    } else if i == 3 {
    } else if i == 4 {
    } else if i == 5 {
    } else if i == 6 {
    } else if i == 7 {
    } else {
    }
}

/// The bits for samples `t0 .. t0 + n`, packed least significant first.
pub open spec fn packed_bits(data: Seq<u8>, bits: int, amp: int, t0: int, n: nat) -> int
    decreases n,
{
    if n == 0 {
        0
    } else {
        packed_bits(data, bits, amp, t0, (n - 1) as nat) + (if dpcm_bit(
            data,
            bits,
            amp,
            t0 + n - 1,
        ) {
            bit_weight((n - 1) as nat)
        } else {
            0
        })
    }
}

/// The DPCM stream for `data`: one byte per eight samples, for as many bytes
/// as it takes for the byte's first sample to start at or past the end.
/// Samples zero bits wide hold nothing, and give no bytes.
pub open spec fn dpcm_spec(data: Seq<u8>, bits: int, amp: int) -> Seq<u8> {
    let k = bytes_per_sample(bits);
    if data.len() == 0 || k == 0 {
        Seq::empty()
    } else {
        let n = (data.len() + 8 * k - 1) / (8 * k);
        Seq::new(n as nat, |j: int| packed_bits(data, bits, amp, 8 * j, 8) as u8)
    }
}

/// `amplitude` clamped to `2..=40`.
pub open spec fn clamp_amp(a: int) -> int {
    if a < 2 {
        2
    } else if a > 40 {
        40
    } else {
        a
    }
}

/// What converting `bytes` with `amplitude` gives.
pub open spec fn wav_spec(bytes: Seq<u8>, amplitude: int) -> Result<Seq<u8>, WavError> {
    if bytes.len() < 12 {
        Err(WavError::ShortRead)
    } else if !tag_at(bytes, 0, 0x52, 0x49, 0x46, 0x46) || !tag_at(bytes, 8, 0x57, 0x41, 0x56, 0x45) {
        Err(WavError::NotWav)
    } else {
        let (empty, fmt, data) = walk(bytes, 12, None);
        if empty {
            Ok(Seq::empty())
        } else {
            match (fmt, data) {
                (Some((channels, bits)), Some((start, len))) => if channels != 1 {
                    Err(WavError::NotMono)
                } else {
                    Ok(dpcm_spec(bytes.subrange(start, start + len), bits, clamp_amp(amplitude)))
                },
                _ => Ok(Seq::empty()),
            }
        }
    }
}

/// Little-endian 32-bit read.
fn read_le32(b: &[u8], p: usize) -> (r: u64)
    requires
        p + 4 <= b.len(),
    ensures
        r == le32(b@, p as int),
{
    b[p] as u64 + b[p + 1] as u64 * 256 + b[p + 2] as u64 * 65536 + b[p + 3] as u64 * 16777216
}

/// Little-endian 16-bit read.
fn read_le16(b: &[u8], p: usize) -> (r: u16)
    requires
        p + 2 <= b.len(),
    ensures
        r == le16(b@, p as int),
{
    b[p] as u16 + b[p + 1] as u16 * 256
}

/// Convert mono PCM WAV `bytes` into DPCM using `amplitude` (clamped to
/// `2..=40`). Returns the DPCM byte stream, or a [`WavError`].
pub fn wav_to_dpcm(bytes: &[u8], amplitude: i32) -> (r: Result<Vec<u8>, WavError>)
    requires
        bytes.len() <= i64::MAX,
    ensures
        match (r, wav_spec(bytes@, amplitude as int)) {
            (Ok(v), Ok(s)) => v@ == s,
            (Err(e), Err(f)) => e == f,
            _ => false,
        },
{
    if bytes.len() < 12 {
        return Err(WavError::ShortRead);
    }
    if !(bytes[0] == 0x52 && bytes[1] == 0x49 && bytes[2] == 0x46 && bytes[3] == 0x46) || !(
    bytes[8] == 0x57 && bytes[9] == 0x41 && bytes[10] == 0x56 && bytes[11] == 0x45) {
        return Err(WavError::NotWav);
    }
    let len = bytes.len() as u64;
    let mut pos: u64 = 12;
    let mut fmt: Option<(u16, u16)> = None;
    while pos + 8 <= len
        invariant
            len == bytes.len() <= i64::MAX,
            12 <= pos <= len + 0x1_0000_0008,
            bytes@.len() >= 12,
            tag_at(bytes@, 0, 0x52, 0x49, 0x46, 0x46),
            tag_at(bytes@, 8, 0x57, 0x41, 0x56, 0x45),
            walk(bytes@, 12, None) == walk(
                bytes@,
                pos as int,
                match fmt {
                    Some((c, b)) => Some((c as int, b as int)),
                    None => None,
                },
            ),
        decreases (if pos < len {
            len - pos
        } else {
            0
        }),
    {
        let p = pos as usize;
        let size = read_le32(bytes, p + 4);
        let q = p + 8;
        if bytes[p] == 0x66 && bytes[p + 1] == 0x6D && bytes[p + 2] == 0x74 && bytes[p + 3] == 0x20 {
            if size < 16 || q as u64 + 16 > len {
                return Ok(Vec::new());
            }
            fmt = Some((read_le16(bytes, q + 2), read_le16(bytes, q + 14)));
            pos = q as u64 + size;
        } else if bytes[p] == 0x64 && bytes[p + 1] == 0x61 && bytes[p + 2] == 0x74 && bytes[p + 3]
            == 0x61 {
            let (channels, bits_sample) = match fmt {
                Some(f) => f,
                None => {
                    return Ok(Vec::new());
                },
            };
            if size == 0 {
                return Ok(Vec::new());
            }
            let end = if q as u64 + size < len {
                (q as u64 + size) as usize
            } else {
                bytes.len()
            };
            if channels != 1 {
                return Err(WavError::NotMono);
            }
            let amplitude = if amplitude < 2 {
                2
            } else if amplitude > 40 {
                40
            } else {
                amplitude
            };
            let chunk = &bytes[q..end];
            assert(chunk@ == bytes@.subrange(q as int, end as int));
            return Ok(encode_dpcm(chunk, bits_sample, amplitude));
        } else {
            pos = q as u64 + size;
        }
    }
    Ok(Vec::new())
}

/// Sequential PCM sample reader.
struct SampleReader<'a> {
    data: &'a [u8],
    pos: usize,
    bits_sample: u16,
    chunk_left: i64,
}

impl<'a> SampleReader<'a> {
    /// The reader's invariant: `chunk_left` counts the unread bytes.
    spec fn wf(&self) -> bool {
        &&& self.pos <= self.data.len()
        &&& self.chunk_left == self.data.len() - self.pos
    }

    /// A reader positioned at the start of `data`.
    fn new(data: &'a [u8], bits_sample: u16) -> (r: Self)
        requires
            data.len() <= i64::MAX,
        ensures
            r.wf(),
            r.data@ == data@,
            r.pos == 0,
            r.bits_sample == bits_sample,
    {
        SampleReader { data, pos: 0, bits_sample, chunk_left: data.len() as i64 }
    }

    /// Read one sample (little-endian, `bits_sample` wide), returning the
    /// signed 16-bit value of its last two bytes; 8-bit samples are recentred
    /// from unsigned to signed. At the end of the data it returns `0`.
    fn next_sample(&mut self) -> (v: i16)
        requires
            old(self).wf(),
            old(self).bits_sample > 0,
        ensures
            final(self).wf(),
            final(self).data == old(self).data,
            final(self).bits_sample == old(self).bits_sample,
            final(self).pos == (if old(self).pos + bytes_per_sample(old(self).bits_sample as int)
                < old(self).data.len() {
                old(self).pos + bytes_per_sample(old(self).bits_sample as int)
            } else {
                old(self).data.len() as int
            }),
            v as int == slot_sample(old(self).data@, old(self).bits_sample as int, old(self).pos as int),
    {
        let ghost k = bytes_per_sample(self.bits_sample as int);
        if self.chunk_left == 0 {
            return 0;
        }
        let start = self.pos;
        let mut cur: u32 = 0;
        let mut prev: u32 = 0;
        let mut n: usize = 0;
        let mut i: u32 = 0;
        while i < self.bits_sample as u32 && self.chunk_left > 0
            invariant
                self.wf(),
                self.data == old(self).data,
                self.bits_sample == old(self).bits_sample,
                k == bytes_per_sample(self.bits_sample as int),
                start == old(self).pos,
                start < self.data.len(),
                self.pos == start + n,
                i == 8 * n,
                n <= k,
                n >= 1 ==> cur == self.data@[self.pos - 1] * 256 + prev,
                n >= 2 ==> prev == self.data@[self.pos - 2],
                n < 2 ==> prev == 0,
                n == 0 ==> cur == 0,
                cur < 65536,
                prev < 256,
            decreases self.data.len() - self.pos,
        {
            let c = self.data[self.pos];
            prev = cur / 256;
            cur = (c as u32) * 256 + prev;
            self.pos += 1;
            self.chunk_left -= 1;
            n += 1;
            i += 8;
        }
        assert(n == (if start + k < self.data.len() {
            k
        } else {
            self.data.len() - start
        }));
        let mut sample: i32 = cur as i32;
        if self.bits_sample <= 8 {
            sample -= 32768;
        } else if sample >= 32768 {
            sample -= 65536;
        }
        sample as i16
    }
}

/// The core delta-modulation loop: `y` tracks the reconstructed level; each
/// bit records whether the target sample is at or above it.
fn encode_dpcm(data: &[u8], bits_sample: u16, amplitude: i32) -> (out: Vec<u8>)
    requires
        2 <= amplitude <= 40,
        data.len() <= i64::MAX,
    ensures
        out@ == dpcm_spec(data@, bits_sample as int, amplitude as int),
{
    let mut out: Vec<u8> = Vec::new();
    if data.len() == 0 || bits_sample == 0 {
        assert(dpcm_spec(data@, bits_sample as int, amplitude as int) =~= Seq::<u8>::empty());
        return out;
    }
    let mut reader = SampleReader::new(data, bits_sample);
    let mut y: i32 = 0;
    let ghost k = bytes_per_sample(bits_sample as int);
    let ghost mut j: int = 0;
    let ghost spec_out = dpcm_spec(data@, bits_sample as int, amplitude as int);
    assert(8 * j * k == 0) by (nonlinear_arith)
        requires
            j == 0,
    ;
    while reader.chunk_left > 0
        invariant
            reader.wf(),
            reader.data@ == data@,
            reader.bits_sample == bits_sample,
            bits_sample > 0,
            data.len() > 0,
            2 <= amplitude <= 40,
            k == bytes_per_sample(bits_sample as int),
            k >= 1,
            j >= 0,
            j > 0 ==> 8 * (j - 1) * k < data.len(),
            reader.pos == (if 8 * j * k < data.len() {
                8 * j * k
            } else {
                data.len() as int
            }),
            y == level(data@, bits_sample as int, amplitude as int, 8 * j),
            -32 <= y <= 31,
            out.len() == j,
            forall|q: int| 0 <= q < j ==> #[trigger] out@[q] == packed_bits(data@, bits_sample as int, amplitude as int, 8 * q, 8) as u8,
        decreases data.len() - reader.pos,
    {
        let ghost t = 8 * j;
        let ghost pos0 = reader.pos;
        let mut code: u32 = 0;
        let mut weight: u32 = 1;
        let mut i: u32 = 0;
        while i < 8
            invariant
                reader.wf(),
                reader.data@ == data@,
                reader.bits_sample == bits_sample,
                bits_sample > 0,
                2 <= amplitude <= 40,
                k == bytes_per_sample(bits_sample as int),
                k >= 1,
                t >= 0,
                i <= 8,
                weight == bit_weight(i as nat),
                code == packed_bits(data@, bits_sample as int, amplitude as int, t, i as nat),
                code < weight,
                t == 8 * j,
                weight <= 256,
                i < 8 ==> weight <= 128,
                reader.pos == (if (t + i) * k < data.len() {
                    (t + i) * k
                } else {
                    data.len() as int
                }),
                y == level(data@, bits_sample as int, amplitude as int, t + i),
                -32 <= y <= 31,
            decreases 8 - i,
        {
            let ghost p0 = reader.pos;
            let sample = reader.next_sample();
            proof {
                assert((t + i) * k + k == (t + i + 1) * k) by (nonlinear_arith);
                assert((t + i) * k >= 0) by (nonlinear_arith)
                    requires
                        t + i >= 0,
                        k >= 1,
                ;
                assert(sample as int == sample_value(data@, bits_sample as int, t + i));
            }
            assert(-32768 * 40 <= sample as i32 * amplitude <= 32767 * 40) by (nonlinear_arith)
                requires
                    -32768 <= sample <= 32767,
                    2 <= amplitude <= 40,
            ;
            let v: i32 = sample as i32 * amplitude + 16384;
            let x: i32 = if v >= 0 {
                v / 32768
            } else {
                -((-v + 32767) / 32768)
            };
            assert(x == target(data@, bits_sample as int, amplitude as int, t + i));
            if x >= y {
                y += 1;
                if y > 31 {
                    y = 31;
                }
                code += weight;
            } else {
                y -= 1;
                if y < -32 {
                    y = -32;
                }
            }
            proof {
                lemma_bit_weight(i as nat);
                lemma_bit_weight((i + 1) as nat);
            }
            weight *= 2;
            i += 1;
        }
        proof {
            lemma_bit_weight(8);
        }
        proof {
            assert((t + 8) * k == 8 * (j + 1) * k) by (nonlinear_arith)
                requires
                    t == 8 * j,
            ;
            assert(t * k == 8 * j * k) by (nonlinear_arith)
                requires
                    t == 8 * j,
            ;
            assert((t + 8) * k > t * k) by (nonlinear_arith)
                requires
                    k >= 1,
            ;
        }
        let ghost before = out@;
        out.push(code as u8);
        proof {
            assert(out@ == before.push(code as u8));
            j = j + 1;
        }
    }
    proof {
        let m = 8 * k;
        assert(m >= 8);
        assert(8 * j * k == j * m) by (nonlinear_arith)
            requires
                m == 8 * k,
        ;
        assert(8 * (j - 1) * k == (j - 1) * m) by (nonlinear_arith)
            requires
                m == 8 * k,
        ;
        assert(j >= 1);
        assert((data.len() + m - 1) / m == j) by (nonlinear_arith)
            requires
                (j - 1) * m < data.len(),
                data.len() <= j * m,
                m >= 8,
                j >= 1,
        ;
        assert(out@ =~= spec_out);
    }
    out
}

/// The two's-complement value of a little-endian 16-bit pair of bytes.
pub open spec fn signed_le16(lo: u8, hi: u8) -> int {
    if hi < 0x80 {
        hi * 256 + lo
    } else {
        hi * 256 + lo - 65536
    }
}

/// How a sample is read from a full slot: a sample wider than eight bits is
/// the signed little-endian value of the slot's last two bytes (so a slot of
/// zero bytes reads as `0`, and one whose last byte is `0x80` or more reads
/// negative); a sample of eight bits or fewer is its byte read unsigned and
/// recentred on `0x80`, scaled to sixteen bits.
pub proof fn lemma_sample_reading(data: Seq<u8>, bits: int, t: int)
    requires
        0 < bits,
        0 <= t,
        (t + 1) * ((bits + 7) / 8) <= data.len(),
    ensures
        bits > 8 ==> sample_value(data, bits, t) == signed_le16(
            data[(t + 1) * ((bits + 7) / 8) - 2],
            data[(t + 1) * ((bits + 7) / 8) - 1],
        ),
        bits > 8 ==> (sample_value(data, bits, t) < 0 <==> data[(t + 1) * ((bits + 7) / 8) - 1] >= 0x80),
        bits <= 8 ==> sample_value(data, bits, t) == (data[t] - 128) * 256,
        -32768 <= sample_value(data, bits, t) < 32768,
{
    let k = bytes_per_sample(bits);
    assert(k >= 1);
    assert(t * k + k == (t + 1) * k) by (nonlinear_arith);
    assert(t * k >= 0) by (nonlinear_arith)
        requires
            t >= 0,
            k >= 1,
    ;
    if bits <= 8 {
        assert(k == 1);
        assert(t * k == t) by (nonlinear_arith)
            requires
                k == 1,
        ;
    } else {
        assert(k >= 2);
    }
}

/// Silence wider than eight bits codes as alternating steps: when every byte
/// of the data is zero, every DPCM byte is `0x55` (up, down, up, down, ...,
/// least significant bit first).
pub proof fn lemma_silence_alternates(data: Seq<u8>, bits: int, amp: int)
    requires
        bits > 8,
        2 <= amp <= 40,
        forall|i: int| 0 <= i < data.len() ==> data[i] == 0,
    ensures
        forall|j: int| 0 <= j < dpcm_spec(data, bits, amp).len() ==> #[trigger] dpcm_spec(data, bits, amp)[j] == 0x55,
{
    assert forall|t: int| #[trigger] sample_value(data, bits, t) == 0 by {
        let k = bytes_per_sample(bits);
        let s = t * k;
        if 0 <= s < data.len() {
            let e = if s + k < data.len() {
                s + k
            } else {
                data.len() as int
            };
            assert(data[e - 1] == 0);
            if e - s >= 2 {
                assert(data[e - 2] == 0);
            }
        }
    }
    assert forall|t: int| #[trigger] target(data, bits, amp, t) == 0 by {
        assert(sample_value(data, bits, t) == 0);
    }
    assert forall|t: int| 0 <= t implies #[trigger] level(data, bits, amp, t) == (if t % 2 == 0 {
        0int
    } else {
        1int
    }) by {
        lemma_silent_level(data, bits, amp, t);
    }
    assert forall|j: int| 0 <= j < dpcm_spec(data, bits, amp).len() implies #[trigger] dpcm_spec(
        data,
        bits,
        amp,
    )[j] == 0x55 by {
        let t0 = 8 * j;
        assert forall|n: int| 0 <= n < 8 implies #[trigger] dpcm_bit(data, bits, amp, t0 + n) == (n % 2
            == 0) by {
            assert(target(data, bits, amp, t0 + n) == 0);
            assert((t0 + n) % 2 == n % 2);
        }
        reveal_with_fuel(packed_bits, 9);
        reveal_with_fuel(bit_weight, 9);
        assert(dpcm_bit(data, bits, amp, t0));
        assert(!dpcm_bit(data, bits, amp, t0 + 1));
        assert(dpcm_bit(data, bits, amp, t0 + 2));
        assert(!dpcm_bit(data, bits, amp, t0 + 3));
        assert(dpcm_bit(data, bits, amp, t0 + 4));
        assert(!dpcm_bit(data, bits, amp, t0 + 5));
        assert(dpcm_bit(data, bits, amp, t0 + 6));
        assert(!dpcm_bit(data, bits, amp, t0 + 7));
        assert(packed_bits(data, bits, amp, t0, 8) == 85);
    }
}

/// Before silent sample `t`, the level is `0` for even `t` and `1` for odd.
proof fn lemma_silent_level(data: Seq<u8>, bits: int, amp: int, t: int)
    requires
        0 <= t,
        forall|u: int| #[trigger] target(data, bits, amp, u) == 0,
    ensures
        level(data, bits, amp, t) == (if t % 2 == 0 {
            0int
        } else {
            1int
        }),
    decreases t,
{
    if t > 0 {
        lemma_silent_level(data, bits, amp, t - 1);
        assert(target(data, bits, amp, t - 1) == 0);
    }
}

} // verus!
