//! Recording from the microphone: how the recorder is called, and what it sends.

use vstd::prelude::*;

use crate::number;
use crate::text;
use crate::text::string_of;
use crate::state;

verus! {

/// The samples per second that are recorded.
pub const SAMPLE_RATE: u32 = 16_000;

/// The arguments of the recorder: 16-bit mono audio at the sample rate, from the configured
/// source if there is one, else from the default source.
pub open spec fn recorder_arguments(source: Option<Seq<char>>) -> Seq<Seq<char>> {
    let always = seq![
        "--format=s16le"@,
        "--rate="@ + number::decimal(SAMPLE_RATE as nat),
        "--channels=1"@,
        "--latency-msec=30"@,
    ];
    match source {
        Some(s) if s.len() > 0 => always.push("--device="@ + s),
        _ => always,
    }
}

/// The arguments of the recorder.
pub fn recorder_args(source: Option<&str>) -> (r: Vec<String>)
    ensures
        text::string_views(r@) == recorder_arguments(state::setting(source)),
{
    let mut out: Vec<String> = Vec::new();
    out.push("--format=s16le".to_owned());
    let mut rate = "--rate=".to_owned();
    rate.append(string_of(&number::decimal_of(SAMPLE_RATE as u64)).as_str());
    out.push(rate);
    out.push("--channels=1".to_owned());
    out.push("--latency-msec=30".to_owned());
    match source {
        Some(s) => {
            if !s.is_empty() {
                let mut device = "--device=".to_owned();
                device.append(s);
                out.push(device);
            }
        },
        None => {},
    }
    assert(text::string_views(out@) =~= recorder_arguments(state::setting(source)));
    out
}

/// The sample that two bytes write, in two's complement, low byte first.
pub open spec fn sample(lo: u8, hi: u8) -> i16 {
    let n = lo + 0x100 * hi;
    if n >= 0x8000 {
        (n - 0x1_0000) as i16
    } else {
        n as i16
    }
}

/// The samples in raw 16-bit audio. An odd byte at the end is no sample.
pub open spec fn pcm(bytes: Seq<u8>) -> Seq<i16> {
    Seq::new((bytes.len() / 2) as nat, |i: int| sample(bytes[2 * i], bytes[2 * i + 1]))
}

/// The samples in raw 16-bit audio. An odd byte at the end is dropped.
pub fn decode_pcm(bytes: &[u8]) -> (r: Vec<i16>)
    ensures
        r@ == pcm(bytes@),
{
    let mut out: Vec<i16> = Vec::new();
    let count: usize = bytes.len();
    let pairs: usize = count / 2;
    for i in 0..pairs
        invariant
            pairs == count / 2,
            count == bytes@.len(),
            out@ == pcm(bytes@.take(2 * i)),
    {
        let n: i32 = (bytes[2 * i] as i32) + 0x100 * (bytes[2 * i + 1] as i32);
        let v: i16 = if n >= 0x8000 {
            (n - 0x1_0000) as i16
        } else {
            n as i16
        };
        out.push(v);
        assert(out@ =~= pcm(bytes@.take(2 * (i + 1))));
    }
    assert(pcm(bytes@.take(2 * pairs)) =~= pcm(bytes@));
    out
}

/// Every two bytes are one sample, whose value they are in two's complement, low byte first: up
/// to the 16 bits, and within the range of a sample, there is only one such value.
pub proof fn law_raw_audio(bytes: Seq<u8>, i: int)
    requires
        0 <= i < bytes.len() / 2,
    ensures
        pcm(bytes).len() == bytes.len() / 2,
        ({
            let n = bytes[2 * i] as int + 256 * bytes[2 * i + 1];
            pcm(bytes)[i] as int == n || pcm(bytes)[i] as int == n - 65536
        }),
{
    lemma_sample(bytes[2 * i], bytes[2 * i + 1]);
}

proof fn lemma_sample(lo: u8, hi: u8)
    ensures
        sample(lo, hi) as int == lo + 256 * hi || sample(lo, hi) as int == lo + 256 * hi - 65536,
{
}

/// Audio that comes in chunks of whole samples gives the same samples as in one piece.
pub proof fn law_raw_audio_in_chunks(a: Seq<u8>, b: Seq<u8>)
    requires
        a.len() % 2 == 0,
    ensures
        pcm(a + b) == pcm(a) + pcm(b),
{
    let whole = a + b;
    let n = a.len() / 2;
    assert forall|i: int| 0 <= i < pcm(whole).len() implies pcm(whole)[i] == #[trigger] (pcm(a)
        + pcm(b))[i] by {
        if i < n {
            assert(whole[2 * i] == a[2 * i]);
            assert(whole[2 * i + 1] == a[2 * i + 1]);
        } else {
            assert(whole[2 * i] == b[2 * (i - n)]);
            assert(whole[2 * i + 1] == b[2 * (i - n) + 1]);
        }
    }
    assert(pcm(whole) =~= pcm(a) + pcm(b));
}

/// The recorder is always asked for the same format, and for a device exactly where one is
/// named.
pub proof fn law_recorder_arguments(source: Option<Seq<char>>)
    ensures
        ({
            let args = recorder_arguments(source);
            &&& args.take(4) == seq![
                "--format=s16le"@,
                "--rate="@ + number::decimal(16000),
                "--channels=1"@,
                "--latency-msec=30"@,
            ]
            &&& (source is Some && source->0.len() > 0) ==> args.len() == 5 && args[4]
                == "--device="@ + source->0
            &&& (source is None || source->0.len() == 0) ==> args.len() == 4
        }),
{
    assert(recorder_arguments(source).take(4) =~= seq![
        "--format=s16le"@,
        "--rate="@ + number::decimal(16000),
        "--channels=1"@,
        "--latency-msec=30"@,
    ]);
}

} // verus!
