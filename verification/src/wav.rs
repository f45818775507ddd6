//! 16-bit mono WAV files.

use vstd::prelude::*;

use crate::capture;

verus! {

/// The number of bytes before the samples.
pub const HEADER_LEN: usize = 44;

/// A 16-bit number, low byte first.
pub open spec fn le16(n: int) -> Seq<u8>
    recommends
        0 <= n < 0x1_0000,
{
    seq![(n % 0x100) as u8, (n / 0x100 % 0x100) as u8]
}

/// A 32-bit number, low byte first.
pub open spec fn le32(n: int) -> Seq<u8>
    recommends
        0 <= n < 0x1_0000_0000,
{
    le16(n % 0x1_0000) + le16(n / 0x1_0000)
}

/// A sample, in two's complement, low byte first.
pub open spec fn sample_bytes(v: i16) -> Seq<u8> {
    le16(
        if v < 0 {
            v + 0x1_0000
        } else {
            v as int
        },
    )
}

/// The samples one after the other.
pub open spec fn data_bytes(samples: Seq<i16>) -> Seq<u8>
    decreases samples.len(),
{
    if samples.len() == 0 {
        Seq::empty()
    } else {
        data_bytes(samples.drop_last()) + sample_bytes(samples.last())
    }
}

/// The four letters of a chunk's name.
pub open spec fn tag(a: char, b: char, c: char, d: char) -> Seq<u8> {
    seq![a as u8, b as u8, c as u8, d as u8]
}

/// The header of a WAV file: the size of what follows, the format (uncompressed, one channel,
/// so many samples and bytes per second, two bytes and 16 bits per sample), and the size of the
/// samples.
pub open spec fn header(count: int, sample_rate: int) -> Seq<u8> {
    tag('R', 'I', 'F', 'F') + le32(36 + 2 * count) + tag('W', 'A', 'V', 'E') + tag(
        'f',
        'm',
        't',
        ' ',
    ) + le32(16) + le16(1) + le16(1) + le32(sample_rate) + le32(2 * sample_rate) + le16(2) + le16(
        16,
    ) + tag('d', 'a', 't', 'a') + le32(2 * count)
}

/// A WAV file.
pub open spec fn wav_file(samples: Seq<i16>, sample_rate: int) -> Seq<u8> {
    header(samples.len() as int, sample_rate) + data_bytes(samples)
}

/// So many samples at this rate fit in a WAV file: the rate is not zero, and neither the bytes
/// per second nor the bytes of the file overflow 32 bits.
pub open spec fn encodable(count: int, sample_rate: int) -> bool {
    0 < sample_rate && 2 * sample_rate <= u32::MAX && 36 + 2 * count <= u32::MAX
}

/// The encoder refused.
#[derive(Clone, Copy, Debug, PartialEq, Eq, Structural)]
pub enum WavError {
    Encoder,
}

/// The encoder's error.
#[verifier::external_type_specification]
#[verifier::external_body]
pub struct ExHoundError(hound::Error);

/// Calls `hound::WavWriter` on a buffer in memory: `new`, `write_sample` for each sample in
/// order, `finalize`. The writer holds on to the buffer from the first call to the last, so the
/// three stand together. For one channel of 16-bit integers they write the short, 44-byte form of
/// the header and then the samples, low byte first; nothing in it fails on a buffer in memory.
/// The writer divides by the rate and computes in 32 bits, which the precondition allows for.
#[verifier::external_body]
fn write_wav(
    channels: u16,
    sample_rate: u32,
    bits_per_sample: u16,
    samples: &Vec<i16>,
) -> (r: Result<Vec<u8>, hound::Error>)
    requires
        channels == 1,
        bits_per_sample == 16,
        encodable(samples@.len() as int, sample_rate as int),
    ensures
        r is Ok,
        r->Ok_0@ == wav_file(samples@, sample_rate as int),
{
    let sample_format = hound::SampleFormat::Int;
    let format = hound::WavSpec { channels, sample_rate, bits_per_sample, sample_format };
    let mut cursor = std::io::Cursor::new(Vec::<u8>::new());
    let mut writer = hound::WavWriter::new(&mut cursor, format)?;
    for sample in samples.iter() {
        writer.write_sample(*sample)?;
    }
    writer.finalize()?;
    Ok(cursor.into_inner())
}

/// Encodes samples as a WAV file. That succeeds whenever they fit in one.
pub fn wav_bytes(samples: &Vec<i16>, sample_rate: u32) -> (r: Result<Vec<u8>, WavError>)
    requires
        encodable(samples@.len() as int, sample_rate as int),
    ensures
        r is Ok,
        r->Ok_0@ == wav_file(samples@, sample_rate as int),
{
    match write_wav(1, sample_rate, 16, samples) {
        Ok(bytes) => Ok(bytes),
        Err(_) => Err(WavError::Encoder),
    }
}

/// The number that four bytes write, low byte first.
pub open spec fn read_le32(b: Seq<u8>) -> int
    recommends
        b.len() == 4,
{
    b[0] + 0x100 * b[1] + 0x1_0000 * b[2] + 0x100_0000 * b[3]
}

proof fn lemma_le32(n: int)
    requires
        0 <= n < 0x1_0000_0000,
    ensures
        le32(n).len() == 4,
        read_le32(le32(n)) == n,
{
    let lo = n % 0x1_0000;
    let hi = n / 0x1_0000;
    assert(n == lo + 0x1_0000 * hi);
    assert(lo == lo % 0x100 + 0x100 * (lo / 0x100));
    assert(hi == hi % 0x100 + 0x100 * (hi / 0x100));
    assert(0 <= lo / 0x100 < 0x100);
    assert(0 <= hi / 0x100 < 0x100);
}

proof fn lemma_data(samples: Seq<i16>, rest: Seq<u8>)
    requires
        rest.len() < 2,
    ensures
        data_bytes(samples).len() == 2 * samples.len(),
        capture::pcm(data_bytes(samples) + rest) == samples,
    decreases samples.len(),
{
    let all = data_bytes(samples) + rest;
    if samples.len() == 0 {
        assert(capture::pcm(all) =~= samples);
    } else {
        let front = samples.drop_last();
        lemma_data(front, Seq::empty());
        let v = samples.last();
        assert(data_bytes(front) + Seq::<u8>::empty() =~= data_bytes(front));
        assert forall|i: int| 0 <= i < samples.len() implies #[trigger] capture::pcm(all)[i]
            == samples[i] by {
            if i < front.len() {
                assert(all[2 * i] == data_bytes(front)[2 * i]);
                assert(all[2 * i + 1] == data_bytes(front)[2 * i + 1]);
                assert(capture::pcm(data_bytes(front))[i] == front[i]);
            } else {
                let u: int = if v < 0 {
                    v + 0x1_0000
                } else {
                    v as int
                };
                assert(all[2 * i] == sample_bytes(v)[0]);
                assert(all[2 * i + 1] == sample_bytes(v)[1]);
                assert(u == u % 0x100 + 0x100 * (u / 0x100));
                assert(0 <= u / 0x100 < 0x100);
            }
        }
        assert(capture::pcm(all) =~= samples);
    }
}

/// A WAV file holds its samples: read as raw 16-bit audio, what follows the header is what was
/// encoded, and the two sizes in the header are those of the file and of the samples.
pub proof fn law_wav_holds_its_samples(samples: Seq<i16>, sample_rate: int)
    requires
        encodable(samples.len() as int, sample_rate),
    ensures
        ({
            let file = wav_file(samples, sample_rate);
            &&& file.len() == HEADER_LEN + 2 * samples.len()
            &&& capture::pcm(file.skip(HEADER_LEN as int)) == samples
            &&& read_le32(file.subrange(4, 8)) == file.len() - 8
            &&& read_le32(file.subrange(24, 28)) == sample_rate
            &&& read_le32(file.subrange(40, 44)) == 2 * samples.len()
        }),
{
    let file = wav_file(samples, sample_rate);
    let n = samples.len() as int;
    lemma_data(samples, Seq::empty());
    assert(data_bytes(samples) + Seq::<u8>::empty() =~= data_bytes(samples));
    lemma_le32(36 + 2 * n);
    lemma_le32(sample_rate);
    lemma_le32(2 * n);
    assert(header(n, sample_rate).len() == 44);
    assert(file.skip(44) =~= data_bytes(samples));
    assert(file.subrange(4, 8) =~= le32(36 + 2 * n));
    assert(file.subrange(24, 28) =~= le32(sample_rate));
    assert(file.subrange(40, 44) =~= le32(2 * n));
}

/// So many samples at this rate fit exactly where the sizes stay below four gigabytes.
pub proof fn law_what_fits(count: int, sample_rate: int)
    ensures
        encodable(count, sample_rate) <==> 1 <= sample_rate <= 2_147_483_647 && count
            <= 2_147_483_629,
{
}

proof fn lemma_data_at(samples: Seq<i16>, i: int)
    requires
        0 <= i < samples.len(),
    ensures
        data_bytes(samples).len() == 2 * samples.len(),
        ({
            let n = data_bytes(samples)[2 * i] as int + 256 * data_bytes(samples)[2 * i + 1];
            n == samples[i] as int || n == samples[i] as int + 65536
        }),
    decreases samples.len(),
{
    lemma_data(samples, Seq::empty());
    let front = samples.drop_last();
    lemma_data(front, Seq::empty());
    let all = data_bytes(samples);
    if i < front.len() {
        lemma_data_at(front, i);
        assert(all[2 * i] == data_bytes(front)[2 * i]);
        assert(all[2 * i + 1] == data_bytes(front)[2 * i + 1]);
    } else {
        let v = samples.last();
        lemma_sample_bytes(v);
        assert(all[2 * i] == sample_bytes(v)[0]);
        assert(all[2 * i + 1] == sample_bytes(v)[1]);
    }
}

proof fn lemma_sample_bytes(v: i16)
    ensures
        sample_bytes(v).len() == 2,
        ({
            let n = sample_bytes(v)[0] as int + 256 * sample_bytes(v)[1];
            n == v as int || n == v as int + 65536
        }),
{
    let u: int = if v < 0 {
        v + 0x1_0000
    } else {
        v as int
    };
    assert(u == u % 0x100 + 0x100 * (u / 0x100));
    assert(0 <= u / 0x100 < 0x100);
}

/// In the file every sample stands at its place behind the header, low byte first, and the
/// header says: uncompressed, one channel, two bytes and 16 bits per sample, and so many bytes
/// per second.
pub proof fn law_wav_layout(samples: Seq<i16>, sample_rate: int, i: int)
    requires
        encodable(samples.len() as int, sample_rate),
    ensures
        ({
            let file = wav_file(samples, sample_rate);
            &&& 0 <= i < samples.len() ==> ({
                let n = file[44 + 2 * i] as int + 256 * file[45 + 2 * i];
                n == samples[i] as int || n == samples[i] as int + 65536
            })
            &&& read_le32(file.subrange(16, 20)) == 16
            &&& file.subrange(20, 24) == seq![1u8, 0, 1, 0]
            &&& read_le32(file.subrange(28, 32)) == 2 * sample_rate
            &&& file.subrange(32, 36) == seq![2u8, 0, 16, 0]
        }),
{
    let file = wav_file(samples, sample_rate);
    let n = samples.len() as int;
    let head = header(n, sample_rate);
    assert(head.len() == 44);
    if 0 <= i < n {
        lemma_data_at(samples, i);
        assert(file[44 + 2 * i] == data_bytes(samples)[2 * i]);
        assert(file[45 + 2 * i] == data_bytes(samples)[2 * i + 1]);
    }
    lemma_le32(16);
    lemma_le32(2 * sample_rate);
    assert(file.subrange(16, 20) =~= le32(16));
    assert(file.subrange(28, 32) =~= le32(2 * sample_rate));
    assert(file.subrange(20, 24) =~= seq![1u8, 0, 1, 0]);
    assert(file.subrange(32, 36) =~= seq![2u8, 0, 16, 0]);
}

} // verus!
