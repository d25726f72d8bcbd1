//! Encoded sound bytes, by their magic numbers.

use vstd::prelude::*;

verus! {

/// Container or codec of encoded sound.
#[derive(Clone, Copy, Debug, PartialEq, Eq, Structural)]
pub enum AudioFormat {
    Ogg,
    Mp3,
    Flac,
    Wav,
    Unknown,
}

impl Default for AudioFormat {
    fn default() -> (f: AudioFormat)
        ensures
            f == AudioFormat::Unknown,
    {
        AudioFormat::Unknown
    }
}

/// `bytes` hold `tag` from `at` on.
pub open spec fn tagged(bytes: Seq<u8>, at: int, tag: Seq<u8>) -> bool {
    at + tag.len() <= bytes.len() && bytes.subrange(at, at + tag.len()) == tag
}

/// `OggS`
pub open spec fn ogg_tag() -> Seq<u8> {
    seq![0x4fu8, 0x67, 0x67, 0x53]
}

/// `ID3`
pub open spec fn id3_tag() -> Seq<u8> {
    seq![0x49u8, 0x44, 0x33]
}

/// `fLaC`
pub open spec fn flac_tag() -> Seq<u8> {
    seq![0x66u8, 0x4c, 0x61, 0x43]
}

/// `RIFF`
pub open spec fn riff_tag() -> Seq<u8> {
    seq![0x52u8, 0x49, 0x46, 0x46]
}

/// `WAVE`
pub open spec fn wave_tag() -> Seq<u8> {
    seq![0x57u8, 0x41, 0x56, 0x45]
}

/// An MPEG frame: eleven set bits, with something behind them.
pub open spec fn frame_sync(bytes: Seq<u8>) -> bool {
    bytes.len() > 2 && bytes[0] == 0xff && bytes[1] >= 0xe0
}

/// What the first bytes say.
pub open spec fn sniffed(bytes: Seq<u8>) -> AudioFormat {
    if tagged(bytes, 0, ogg_tag()) {
        AudioFormat::Ogg
    } else if tagged(bytes, 0, id3_tag()) || frame_sync(bytes) {
        AudioFormat::Mp3
    } else if tagged(bytes, 0, flac_tag()) {
        AudioFormat::Flac
    } else if tagged(bytes, 0, riff_tag()) && tagged(bytes, 8, wave_tag()) {
        AudioFormat::Wav
    } else {
        AudioFormat::Unknown
    }
}

fn has_tag(bytes: &[u8], at: usize, tag: &[u8]) -> (r: bool)
    requires
        at + tag@.len() <= usize::MAX,
    ensures
        r == tagged(bytes@, at as int, tag@),
{
    if bytes.len() < at + tag.len() {
        return false;
    }
    let mut i: usize = 0;
    while i < tag.len()
        invariant
            i <= tag@.len(),
            at + tag@.len() <= bytes@.len(),
            bytes@.len() <= usize::MAX,
            forall|k: int| 0 <= k < i ==> bytes@[at + k] == tag@[k],
        decreases tag@.len() - i,
    {
        if bytes[at + i] != tag[i] {
            proof {
                assert(bytes@.subrange(at as int, at + tag@.len())[i as int] != tag@[i as int]);
            }
            return false;
        }
        i += 1;
    }
    assert(bytes@.subrange(at as int, at + tag@.len()) =~= tag@);
    true
}

/// Read the format off the first bytes.
pub fn sniff_format(bytes: &[u8]) -> (f: AudioFormat)
    ensures
        f == sniffed(bytes@),
{
    let ogg: [u8; 4] = [0x4f, 0x67, 0x67, 0x53];
    let id3: [u8; 3] = [0x49, 0x44, 0x33];
    let flac: [u8; 4] = [0x66, 0x4c, 0x61, 0x43];
    let riff: [u8; 4] = [0x52, 0x49, 0x46, 0x46];
    let wave: [u8; 4] = [0x57, 0x41, 0x56, 0x45];
    assert(ogg@ =~= ogg_tag());
    assert(id3@ =~= id3_tag());
    assert(flac@ =~= flac_tag());
    assert(riff@ =~= riff_tag());
    assert(wave@ =~= wave_tag());
    if has_tag(bytes, 0, &ogg) {
        AudioFormat::Ogg
    } else if has_tag(bytes, 0, &id3) || (bytes.len() > 2 && bytes[0] == 0xff && bytes[1] >= 0xe0) {
        AudioFormat::Mp3
    } else if has_tag(bytes, 0, &flac) {
        AudioFormat::Flac
    } else if has_tag(bytes, 0, &riff) && has_tag(bytes, 8, &wave) {
        AudioFormat::Wav
    } else {
        AudioFormat::Unknown
    }
}

/// Encoded sound with its sniffed format.
#[derive(Clone, Debug, PartialEq, Eq)]
pub struct AudioSource {
    bytes: Vec<u8>,
    format: AudioFormat,
}

impl View for AudioSource {
    type V = Seq<u8>;

    closed spec fn view(&self) -> Seq<u8> {
        self.bytes@
    }
}

impl AudioSource {
    /// The format was sniffed from these bytes.
    pub closed spec fn wf(&self) -> bool {
        self.format == sniffed(self.bytes@)
    }

    /// Wrap encoded bytes. The format is sniffed, not taken from a name.
    pub fn from_bytes(bytes: Vec<u8>) -> (s: AudioSource)
        ensures
            s.wf(),
            s@ == bytes@,
    {
        let format = sniff_format(bytes.as_slice());
        AudioSource { bytes, format }
    }

    /// Raw encoded bytes.
    pub fn bytes(&self) -> (b: &[u8])
        ensures
            b@ == self@,
    {
        self.bytes.as_slice()
    }

    /// Sniffed format.
    pub fn format(&self) -> (f: AudioFormat)
        requires
            self.wf(),
        ensures
            f == sniffed(self@),
    {
        self.format
    }

    /// Whether the format is known.
    pub fn is_supported(&self) -> (r: bool)
        requires
            self.wf(),
        ensures
            r == (sniffed(self@) != AudioFormat::Unknown),
    {
        self.format != AudioFormat::Unknown
    }
}

/// Two bytes, low one first.
pub open spec fn le2(x: int) -> Seq<u8> {
    seq![(x % 256) as u8, (x / 256 % 256) as u8]
}

/// Four bytes, low one first.
pub open spec fn le4(x: int) -> Seq<u8> {
    seq![
        (x % 256) as u8,
        (x / 256 % 256) as u8,
        (x / 65536 % 256) as u8,
        (x / 16777216 % 256) as u8,
    ]
}

/// The number that four bytes, low one first, stand for.
pub open spec fn from_le4(b: Seq<u8>) -> int {
    b[0] + 256 * b[1] + 65536 * b[2] + 16777216 * b[3]
}

/// The bits of a signed sample.
pub open spec fn sample_bits(s: i16) -> int {
    if s < 0 {
        s + 65536
    } else {
        s as int
    }
}

/// Samples as bytes.
pub open spec fn pcm(samples: Seq<i16>) -> Seq<u8>
    decreases samples.len(),
{
    if samples.len() == 0 {
        Seq::empty()
    } else {
        pcm(samples.drop_last()) + le2(sample_bits(samples.last()))
    }
}

/// A mono 16-bit WAV file.
pub open spec fn wav_file(samples: Seq<i16>, sample_rate: int) -> Seq<u8> {
    wav_format(2 * samples.len() as int, sample_rate) + wav_data(
        2 * samples.len() as int,
        sample_rate,
    ) + pcm(samples)
}

/// File and format headers, up to the byte rate, of `data` bytes of
/// samples.
pub open spec fn wav_format(data: int, sample_rate: int) -> Seq<u8> {
    riff_tag() + le4(36 + data) + wave_tag() + seq![0x66u8, 0x6d, 0x74, 0x20] + le4(16) + le2(1)
        + le2(1) + le4(sample_rate)
}

/// The rest of the headers: byte rate, block size, sample size, length.
pub open spec fn wav_data(data: int, sample_rate: int) -> Seq<u8> {
    le4(2 * sample_rate) + le2(2) + le2(16) + seq![0x64u8, 0x61, 0x74, 0x61] + le4(data)
}

fn push2(out: &mut Vec<u8>, x: u16)
    ensures
        final(out)@ == old(out)@ + le2(x as int),
{
    out.push((x % 256) as u8);
    out.push((x / 256 % 256) as u8);
    assert(out@ =~= old(out)@ + le2(x as int));
}

fn push4(out: &mut Vec<u8>, x: u32)
    ensures
        final(out)@ == old(out)@ + le4(x as int),
{
    out.push((x % 256) as u8);
    out.push((x / 256 % 256) as u8);
    out.push((x / 65536 % 256) as u8);
    out.push((x / 16777216 % 256) as u8);
    assert(out@ =~= old(out)@ + le4(x as int));
}

fn push_tag(out: &mut Vec<u8>, a: u8, b: u8, c: u8, d: u8)
    ensures
        final(out)@ == old(out)@ + seq![a, b, c, d],
{
    out.push(a);
    out.push(b);
    out.push(c);
    out.push(d);
    assert(out@ =~= old(out)@ + seq![a, b, c, d]);
}

/// Write a mono 16-bit WAV file.
pub fn write_wav(samples: &Vec<i16>, sample_rate: u32) -> (out: Vec<u8>)
    requires
        36 + 2 * samples@.len() <= u32::MAX,
        2 * sample_rate <= u32::MAX,
    ensures
        out@ == wav_file(samples@, sample_rate as int),
{
    let mut out: Vec<u8> = Vec::new();
    let data: u32 = 2 * (samples.len() as u32);
    push_tag(&mut out, 0x52, 0x49, 0x46, 0x46);
    push4(&mut out, 36 + data);
    push_tag(&mut out, 0x57, 0x41, 0x56, 0x45);
    push_tag(&mut out, 0x66, 0x6d, 0x74, 0x20);
    push4(&mut out, 16);
    push2(&mut out, 1);
    push2(&mut out, 1);
    push4(&mut out, sample_rate);
    let ghost format = out@;
    assert(format =~= wav_format(data as int, sample_rate as int));
    push4(&mut out, 2 * sample_rate);
    push2(&mut out, 2);
    push2(&mut out, 16);
    push_tag(&mut out, 0x64, 0x61, 0x74, 0x61);
    push4(&mut out, data);
    let ghost head = out@;
    assert(head =~= format + wav_data(data as int, sample_rate as int));
    let mut i: usize = 0;
    while i < samples.len()
        invariant
            i <= samples@.len(),
            out@ == head + pcm(samples@.take(i as int)),
        decreases samples@.len() - i,
    {
        let s: i16 = samples[i];
        let bits: u16 = if s < 0 {
            (s as i32 + 65536) as u16
        } else {
            s as u16
        };
        push2(&mut out, bits);
        proof {
            assert(samples@.take(i + 1).drop_last() =~= samples@.take(i as int));
            assert(out@ =~= head + pcm(samples@.take(i + 1)));
        }
        i += 1;
    }
    proof {
        assert(samples@.take(samples@.len() as int) =~= samples@);
    }
    out
}

proof fn lemma_pcm_len(samples: Seq<i16>)
    ensures
        pcm(samples).len() == 2 * samples.len(),
    decreases samples.len(),
{
    if samples.len() > 0 {
        lemma_pcm_len(samples.drop_last());
    }
}

proof fn lemma_le4(x: int)
    requires
        0 <= x <= u32::MAX,
    ensures
        le4(x).len() == 4,
        from_le4(le4(x)) == x,
{
    let (b0, b1, b2, b3) = (x % 256, x / 256 % 256, x / 65536 % 256, x / 16777216 % 256);
    assert(x == b0 + 256 * b1 + 65536 * b2 + 16777216 * b3);
    assert(le4(x)[0] == b0 && le4(x)[1] == b1 && le4(x)[2] == b2 && le4(x)[3] == b3);
}

proof fn lemma_format(data: int, sample_rate: int)
    ensures
        wav_format(data, sample_rate).len() == 28,
        wav_format(data, sample_rate).subrange(0, 4) == riff_tag(),
        wav_format(data, sample_rate).subrange(8, 12) == wave_tag(),
        wav_format(data, sample_rate).subrange(24, 28) == le4(sample_rate),
{
    let a = riff_tag() + le4(36 + data);
    let b = a + wave_tag();
    let c = b + seq![0x66u8, 0x6d, 0x74, 0x20] + le4(16) + le2(1) + le2(1);
    let d = c + le4(sample_rate);
    assert(a.len() == 8 && b.len() == 12 && c.len() == 24 && d.len() == 28);
    assert(d == wav_format(data, sample_rate));
    assert(a.subrange(0, 4) =~= riff_tag());
    assert(d.subrange(0, 4) =~= a.subrange(0, 4)) by {
        assert(d.subrange(0, 8) =~= c.subrange(0, 8));
        assert(c.subrange(0, 8) =~= b.subrange(0, 8));
        assert(b.subrange(0, 8) =~= a);
        assert(d.subrange(0, 4) =~= d.subrange(0, 8).subrange(0, 4));
    }
    assert(b.subrange(8, 12) =~= wave_tag());
    assert(d.subrange(8, 12) =~= wave_tag()) by {
        assert(d.subrange(0, 12) =~= c.subrange(0, 12));
        assert(c.subrange(0, 12) =~= b);
        assert(d.subrange(8, 12) =~= d.subrange(0, 12).subrange(8, 12));
    }
    assert(d.subrange(24, 28) =~= le4(sample_rate));
}

proof fn lemma_data(data: int, sample_rate: int)
    ensures
        wav_data(data, sample_rate).len() == 16,
        wav_data(data, sample_rate).subrange(12, 16) == le4(data),
{
    let a = le4(2 * sample_rate) + le2(2) + le2(16) + seq![0x64u8, 0x61, 0x74, 0x61];
    assert(a.len() == 12);
    assert((a + le4(data)).subrange(12, 16) =~= le4(data));
}

/// A written file is 44 bytes of header and two bytes per sample, is
/// recognised as WAV, and says at what rate and how long its data is.
pub proof fn law_written_wav_is_recognised(samples: Seq<i16>, sample_rate: int)
    requires
        36 + 2 * samples.len() <= u32::MAX,
        0 <= sample_rate,
        2 * sample_rate <= u32::MAX,
    ensures
        wav_file(samples, sample_rate).len() == 44 + 2 * samples.len(),
        sniffed(wav_file(samples, sample_rate)) == AudioFormat::Wav,
        from_le4(wav_file(samples, sample_rate).subrange(24, 28)) == sample_rate,
        from_le4(wav_file(samples, sample_rate).subrange(40, 44)) == 2 * samples.len(),
{
    let data = 2 * samples.len() as int;
    let (a, b, c) = (wav_format(data, sample_rate), wav_data(data, sample_rate), pcm(samples));
    let f = wav_file(samples, sample_rate);
    lemma_pcm_len(samples);
    lemma_format(data, sample_rate);
    lemma_data(data, sample_rate);
    lemma_le4(sample_rate);
    lemma_le4(data);
    lemma_parts(a, b, c);
    let four = f.subrange(0, 4);
    assert(four =~= a.subrange(0, 4));
    assert(f.subrange(8, 12) =~= a.subrange(8, 12));
    assert(f.subrange(24, 28) =~= a.subrange(24, 28));
    assert(f.subrange(40, 44) =~= b.subrange(12, 16));
    assert(f[0] == four[0] && four[0] == 0x52u8);
    assert(f.subrange(0, 3)[0] == 0x52u8);
    assert(!tagged(f, 0, ogg_tag()));
    assert(!tagged(f, 0, id3_tag()));
    assert(!tagged(f, 0, flac_tag()));
}

proof fn lemma_parts(a: Seq<u8>, b: Seq<u8>, c: Seq<u8>)
    requires
        a.len() == 28,
        b.len() == 16,
    ensures
        (a + b + c).len() == 44 + c.len(),
        forall|i: int| 0 <= i < 28 ==> (a + b + c)[i] == a[i],
        forall|i: int| 28 <= i < 44 ==> (a + b + c)[i] == b[i - 28],
{
}

/// Files are told by their first bytes: `OggS`, `fLaC`, `RIFF` with `WAVE`
/// behind the length, `ID3`, or the sync of a bare frame, which is eleven
/// set bits. Nothing shorter or else is recognised.
pub proof fn law_signatures_are_read(bytes: Seq<u8>)
    ensures
        bytes.len() >= 4 && bytes[0] == 0x4f && bytes[1] == 0x67 && bytes[2] == 0x67 && bytes[3]
            == 0x53 ==> sniffed(bytes) == AudioFormat::Ogg,
        bytes.len() >= 4 && bytes[0] == 0x66 && bytes[1] == 0x4c && bytes[2] == 0x61 && bytes[3]
            == 0x43 ==> sniffed(bytes) == AudioFormat::Flac,
        bytes.len() >= 12 && bytes[0] == 0x52 && bytes[1] == 0x49 && bytes[2] == 0x46 && bytes[3]
            == 0x46 && bytes[8] == 0x57 && bytes[9] == 0x41 && bytes[10] == 0x56 && bytes[11]
            == 0x45 ==> sniffed(bytes) == AudioFormat::Wav,
        bytes.len() >= 3 && bytes[0] == 0x49 && bytes[1] == 0x44 && bytes[2] == 0x33 ==> sniffed(
            bytes,
        ) == AudioFormat::Mp3,
        bytes.len() >= 3 && bytes[0] == 0xff && bytes[1] >= 0xe0 ==> sniffed(bytes)
            == AudioFormat::Mp3,
        bytes.len() < 3 ==> sniffed(bytes) == AudioFormat::Unknown,
        bytes.len() >= 3 && bytes[0] != 0x4f && bytes[0] != 0x66 && bytes[0] != 0x52 && bytes[0]
            != 0x49 && bytes[0] != 0xff ==> sniffed(bytes) == AudioFormat::Unknown,
        bytes.len() >= 3 && bytes[0] == 0xff && bytes[1] < 0xe0 ==> sniffed(bytes)
            == AudioFormat::Unknown,
        3 <= bytes.len() < 12 && bytes[0] == 0x52 ==> sniffed(bytes) == AudioFormat::Unknown,
{
    lemma_tag_bytes(bytes, 0, ogg_tag());
    lemma_tag_bytes(bytes, 0, id3_tag());
    lemma_tag_bytes(bytes, 0, flac_tag());
    lemma_tag_bytes(bytes, 0, riff_tag());
    lemma_tag_bytes(bytes, 8, wave_tag());
    if tagged(bytes, 0, ogg_tag()) {
        assert(bytes[0] == ogg_tag()[0]);
    }
    if tagged(bytes, 0, id3_tag()) {
        assert(bytes[0] == id3_tag()[0]);
    }
    if tagged(bytes, 0, flac_tag()) {
        assert(bytes[0] == flac_tag()[0]);
    }
    if tagged(bytes, 0, riff_tag()) {
        assert(bytes[0] == riff_tag()[0]);
    }
}

proof fn lemma_tag_bytes(bytes: Seq<u8>, at: int, tag: Seq<u8>)
    requires
        at >= 0,
    ensures
        tagged(bytes, at, tag) <==> at + tag.len() <= bytes.len() && forall|k: int|
            0 <= k < tag.len() ==> bytes[at + k] == #[trigger] tag[k],
{
    if at + tag.len() <= bytes.len() {
        let part = bytes.subrange(at, at + tag.len());
        if forall|k: int| 0 <= k < tag.len() ==> bytes[at + k] == #[trigger] tag[k] {
            assert(part =~= tag);
        }
        if part == tag {
            assert forall|k: int| 0 <= k < tag.len() implies bytes[at + k] == #[trigger] tag[k] by {
                assert(part[k] == tag[k]);
            }
        }
    }
}

/// The samples of a written file lie behind its header, two bytes each, the
/// low one first, in order.
pub proof fn law_samples_are_written_in_order(samples: Seq<i16>, k: int)
    requires
        0 <= k < samples.len(),
    ensures
        pcm(samples).len() == 2 * samples.len(),
        samples[k] >= 0 ==> pcm(samples)[2 * k] + 256 * pcm(samples)[2 * k + 1] == samples[k],
        samples[k] < 0 ==> pcm(samples)[2 * k] + 256 * pcm(samples)[2 * k + 1] == samples[k]
            + 0x1_0000,
    decreases samples.len(),
{
    lemma_pcm_len(samples);
    let front = samples.drop_last();
    lemma_pcm_len(front);
    let x = sample_bits(samples.last());
    assert(0 <= x < 65536);
    assert(le2(x)[0] + 256 * le2(x)[1] == x);
    if k < front.len() {
        law_samples_are_written_in_order(front, k);
        assert(front[k] == samples[k]);
        assert(pcm(samples)[2 * k] == pcm(front)[2 * k]);
        assert(pcm(samples)[2 * k + 1] == pcm(front)[2 * k + 1]);
    } else {
        assert(pcm(samples)[2 * k] == le2(x)[0]);
        assert(pcm(samples)[2 * k + 1] == le2(x)[1]);
    }
}

} // verus!
