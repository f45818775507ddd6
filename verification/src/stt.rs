//! Requests to the speech-to-text server, and its answers.
//!
//! A recording is sent as a WAV file in a multipart form; the answer is plain text with one line
//! per segment.

use vstd::prelude::*;

use crate::number;
use crate::state;
use crate::text;
use crate::text::{chars_of, string_of};
use crate::unicode;
use crate::wav;
use crate::wav::{wav_bytes, WavError};

verus! {

/// The seconds after which a turn is abandoned where nothing else is configured: a little over
/// the server's own deadline, so that its error normally comes first.
pub const DEFAULT_WATCHDOG_S: u64 = 55;

/// The seconds that an HTTP exchange may take where nothing else is configured.
pub const DEFAULT_HTTP_TIMEOUT_S: u64 = 50;

/// The seconds that connecting to the server may take.
pub const CONNECT_TIMEOUT_S: u64 = 5;

/// The milliseconds of silence behind a recording where nothing else is configured.
pub const DEFAULT_TAIL_PAD_MS: u32 = 800;

/// A number that is configured, or a default where none is, or none that can be read.
pub open spec fn configured_number(setting: Option<Seq<char>>, max: nat, default: nat) -> nat {
    match setting {
        Some(s) => match number::number_up_to(s, max) {
            Some(n) => n,
            None => default,
        },
        None => default,
    }
}

fn seconds(setting: Option<&str>, default: u64) -> (r: u64)
    ensures
        r == configured_number(state::setting(setting), u64::MAX as nat, default as nat),
{
    match setting {
        Some(s) => match number::parse_u64(s) {
            Some(n) => n,
            None => default,
        },
        None => default,
    }
}

/// The seconds after which a whole turn is abandoned.
pub fn watchdog(setting: Option<&str>) -> (r: u64)
    ensures
        r == configured_number(
            state::setting(setting),
            u64::MAX as nat,
            DEFAULT_WATCHDOG_S as nat,
        ),
{
    seconds(setting, DEFAULT_WATCHDOG_S)
}

/// The seconds that an HTTP exchange may take, the reading of the answer included.
pub fn http_timeout(setting: Option<&str>) -> (r: u64)
    ensures
        r == configured_number(
            state::setting(setting),
            u64::MAX as nat,
            DEFAULT_HTTP_TIMEOUT_S as nat,
        ),
{
    seconds(setting, DEFAULT_HTTP_TIMEOUT_S)
}

/// The milliseconds of silence behind a recording, which let the decoder finish the last word;
/// 0 for none.
pub fn tail_pad_ms(setting: Option<&str>) -> (r: u32)
    ensures
        r == configured_number(
            state::setting(setting),
            u32::MAX as nat,
            DEFAULT_TAIL_PAD_MS as nat,
        ),
{
    match setting {
        Some(s) => match number::parse_u32(s) {
            Some(n) => n,
            None => DEFAULT_TAIL_PAD_MS,
        },
        None => DEFAULT_TAIL_PAD_MS,
    }
}

/// The address of the server.
pub fn endpoint(setting: Option<&str>) -> (r: String)
    ensures
        r@ == match setting {
            Some(url) => url@,
            None => "http://127.0.0.1:48450/inference"@,
        },
{
    match setting {
        Some(url) => url.to_owned(),
        None => "http://127.0.0.1:48450/inference".to_owned(),
    }
}

/// What separates the parts of the form.
pub open spec fn boundary() -> Seq<char> {
    "----voicechatBoundary7e3f"@
}

/// The content type of the request.
pub fn content_type() -> (r: String)
    ensures
        r@ == "multipart/form-data; boundary="@ + boundary(),
{
    let mut out = "multipart/form-data; boundary=".to_owned();
    out.append("----voicechatBoundary7e3f");
    out
}

/// A text field of the form.
pub open spec fn form_field(name: Seq<char>, value: Seq<char>) -> Seq<char> {
    "--"@ + boundary() + "\r\nContent-Disposition: form-data; name=\""@ + name + "\"\r\n\r\n"@
        + value + "\r\n"@
}

/// What the form has before the file: the field that asks for plain text, and the head of the
/// file's part.
pub open spec fn form_head() -> Seq<char> {
    form_field("response_format"@, "text"@) + "--"@ + boundary()
        + "\r\nContent-Disposition: form-data; name=\"file\"; filename=\"audio.wav\"\r\nContent-Type: audio/wav\r\n\r\n"@
}

/// What the form has behind the file.
pub open spec fn form_tail() -> Seq<char> {
    "\r\n--"@ + boundary() + "--\r\n"@
}

/// The form with a file in it.
pub open spec fn form(file: Seq<u8>) -> Seq<u8> {
    vstd::utf8::encode_utf8(form_head()) + file + vstd::utf8::encode_utf8(form_tail())
}

fn push_field(out: &mut String, name: &str, value: &str)
    ensures
        final(out)@ == old(out)@ + form_field(name@, value@),
{
    let ghost start = out@;
    out.append("--");
    out.append("----voicechatBoundary7e3f");
    out.append("\r\nContent-Disposition: form-data; name=\"");
    out.append(name);
    out.append("\"\r\n\r\n");
    out.append(value);
    out.append("\r\n");
    assert(out@ =~= start + form_field(name@, value@));
}

fn push_bytes(out: &mut Vec<u8>, bytes: &[u8])
    ensures
        final(out)@ == old(out)@ + bytes@,
{
    let ghost start = out@;
    let count: usize = bytes.len();
    for i in 0..count
        invariant
            count == bytes@.len(),
            out@ == start + bytes@.take(i as int),
    {
        out.push(bytes[i]);
        assert(bytes@.take(i + 1) =~= bytes@.take(i as int).push(bytes@[i as int]));
    }
    assert(bytes@.take(count as int) =~= bytes@);
}

/// The form with a file in it.
pub fn form_with(file: &Vec<u8>) -> (r: Vec<u8>)
    ensures
        r@ == form(file@),
{
    let mut head = String::new();
    push_field(&mut head, "response_format", "text");
    head.append("--");
    head.append("----voicechatBoundary7e3f");
    head.append(
        "\r\nContent-Disposition: form-data; name=\"file\"; filename=\"audio.wav\"\r\nContent-Type: audio/wav\r\n\r\n",
    );
    assert(head@ =~= form_head());
    let mut tail = "\r\n--".to_owned();
    tail.append("----voicechatBoundary7e3f");
    tail.append("--\r\n");
    let mut out: Vec<u8> = Vec::new();
    push_bytes(&mut out, head.as_str().as_bytes());
    push_bytes(&mut out, file.as_slice());
    push_bytes(&mut out, tail.as_str().as_bytes());
    assert(out@ =~= form(file@));
    out
}

/// How many samples of silence so many milliseconds are.
pub open spec fn pad_len(sample_rate: int, pad_ms: int) -> int {
    sample_rate * pad_ms / 1000
}

/// The samples with silence behind them.
pub open spec fn with_silence(samples: Seq<i16>, sample_rate: int, pad_ms: int) -> Seq<i16> {
    samples + Seq::new(pad_len(sample_rate, pad_ms) as nat, |i: int| 0i16)
}

/// The recording, with its silence, fits in a WAV file.
pub open spec fn sendable(count: int, sample_rate: int, pad_ms: int) -> bool {
    wav::encodable(count + pad_len(sample_rate, pad_ms), sample_rate)
}

/// The number of samples of silence that so many milliseconds are.
pub fn pad_samples(sample_rate: u32, pad_ms: u32) -> (r: u64)
    ensures
        r == pad_len(sample_rate as int, pad_ms as int),
{
    assert(sample_rate * pad_ms <= 0xffff_ffff * 0xffff_ffff) by (nonlinear_arith)
        requires
            0 <= sample_rate <= 0xffff_ffff,
            0 <= pad_ms <= 0xffff_ffff,
    ;
    assert(0 <= sample_rate * pad_ms) by (nonlinear_arith)
        requires
            0 <= sample_rate,
            0 <= pad_ms,
    ;
    (sample_rate as u64) * (pad_ms as u64) / 1000
}

/// Whether a recording of so many samples, with its silence, fits in a WAV file.
pub fn can_send(count: usize, sample_rate: u32, pad_ms: u32) -> (r: bool)
    ensures
        r == sendable(count as int, sample_rate as int, pad_ms as int),
{
    let pad: u64 = pad_samples(sample_rate, pad_ms);
    let room: u64 = ((u32::MAX - 36) / 2) as u64;
    0 < sample_rate && sample_rate <= u32::MAX / 2 && pad <= room && (count as u64) <= room - pad
}

/// The body of the request for a recording: a form with the recording, and silence behind it, as
/// a WAV file.
pub fn request_body(samples: &Vec<i16>, sample_rate: u32, pad_ms: u32) -> (r: Result<
    Vec<u8>,
    WavError,
>)
    requires
        sendable(samples@.len() as int, sample_rate as int, pad_ms as int),
    ensures
        r is Ok,
        r->Ok_0@ == form(
            wav::wav_file(
                with_silence(samples@, sample_rate as int, pad_ms as int),
                sample_rate as int,
            ),
        ),
{
    let pad: u64 = pad_samples(sample_rate, pad_ms);
    let mut padded: Vec<i16> = Vec::new();
    for i in 0..samples.len()
        invariant
            padded@ == samples@.take(i as int),
    {
        padded.push(samples[i]);
    }
    assert(samples@.take(samples.len() as int) =~= samples@);
    for i in 0..pad
        invariant
            padded@ == samples@ + Seq::new(i as nat, |k: int| 0i16),
    {
        padded.push(0);
        assert(padded@ =~= samples@ + Seq::new((i + 1) as nat, |k: int| 0i16));
    }
    assert(padded@ =~= with_silence(samples@, sample_rate as int, pad_ms as int));
    match wav_bytes(&padded, sample_rate) {
        Ok(file) => Ok(form_with(&file)),
        Err(e) => Err(e),
    }
}

/// What the server's answer says, as one line.
pub open spec fn one_line(answer: Seq<char>) -> Seq<char> {
    text::join(text::words(answer))
}

/// The transcript in the server's answer: its words with single spaces between them, so that
/// several segments are pasted as one line.
pub fn transcript_of(answer: &str) -> (r: String)
    ensures
        r@ == one_line(answer@),
{
    string_of(&text::join_pieces(&text::split_words(&chars_of(answer))))
}

/// The error for a request that failed.
pub fn post_error(url: &str, cause: &str) -> (r: String)
    ensures
        r@ == "POST "@ + url@ + ": "@ + cause@,
{
    let mut out = "POST ".to_owned();
    out.append(url);
    out.append(": ");
    out.append(cause);
    out
}

/// Putting an answer on one line keeps its words, all of them and in order.
pub proof fn law_one_line_keeps_the_words(answer: Seq<char>)
    ensures
        text::words(one_line(answer)) == text::words(answer),
        one_line(one_line(answer)) == one_line(answer),
{
    text::lemma_words_are_words(answer);
    text::lemma_words_of_join(text::words(answer));
}

proof fn lemma_join_whitespace(list: Seq<Seq<char>>, i: int)
    requires
        forall|k: int| 0 <= k < list.len() ==> text::is_word(#[trigger] list[k]),
        0 <= i < text::join(list).len(),
        unicode::whitespace(text::join(list)[i]),
    ensures
        text::join(list)[i] == ' ',
        0 < i < text::join(list).len() - 1,
        !unicode::whitespace(text::join(list)[i + 1]),
    decreases list.len(),
{
    let s = text::join(list);
    let w = list.last();
    assert(text::is_word(list[list.len() - 1]));
    if list.len() == 1 {
        assert(s == w);
        assert(false);
    } else {
        let front = list.drop_last();
        let f = text::join(front);
        assert forall|k: int| 0 <= k < front.len() implies text::is_word(#[trigger] front[k]) by {
            assert(front[k] == list[k]);
        }
        assert(s == f.push(' ') + w);
        if i < f.len() {
            assert(s[i] == f[i]);
            lemma_join_whitespace(front, i);
            assert(s[i + 1] == f[i + 1]);
        } else if i == f.len() {
            assert(s[i] == ' ');
            assert(s[i + 1] == w[0]);
            lemma_join_not_empty(front);
        } else {
            assert(s[i] == w[i - f.len() - 1]);
            assert(false);
        }
    }
}

proof fn lemma_join_not_empty(list: Seq<Seq<char>>)
    requires
        forall|k: int| 0 <= k < list.len() ==> text::is_word(#[trigger] list[k]),
        list.len() > 0,
    ensures
        text::join(list).len() > 0,
{
    assert(text::is_word(list[0]));
}

/// The only white space on the one line is single spaces inside it: no line break, no space at
/// either end, no two in a row.
pub proof fn law_one_line_is_one_line(answer: Seq<char>, i: int)
    requires
        0 <= i < one_line(answer).len(),
        unicode::whitespace(one_line(answer)[i]),
    ensures
        one_line(answer)[i] == ' ',
        0 < i < one_line(answer).len() - 1,
        !unicode::whitespace(one_line(answer)[i + 1]),
{
    text::lemma_words_are_words(answer);
    lemma_join_whitespace(text::words(answer), i);
}

/// The recording stands unchanged at the front of what is sent, and only silence follows it.
pub proof fn law_silence_follows_the_recording(
    samples: Seq<i16>,
    sample_rate: u32,
    pad_ms: u32,
    i: int,
)
    requires
        0 <= i < samples.len() + pad_len(sample_rate as int, pad_ms as int),
    ensures
        with_silence(samples, sample_rate as int, pad_ms as int).len() == samples.len() + pad_len(
            sample_rate as int,
            pad_ms as int,
        ),
        with_silence(samples, sample_rate as int, pad_ms as int)[i] == if i < samples.len() {
            samples[i]
        } else {
            0i16
        },
{
    assert(0 <= sample_rate * pad_ms) by (nonlinear_arith)
        requires
            0 <= sample_rate,
            0 <= pad_ms,
    ;
}

/// The form carries its file whole, between its head and its tail.
pub proof fn law_form_carries_the_file(file: Seq<u8>)
    ensures
        ({
            let head = vstd::utf8::encode_utf8(form_head());
            let tail = vstd::utf8::encode_utf8(form_tail());
            let at = head.len() as int;
            &&& form(file).take(at) == head
            &&& form(file).subrange(at, at + file.len()) == file
            &&& form(file).skip(at + file.len()) == tail
        }),
{
    let head = vstd::utf8::encode_utf8(form_head());
    let tail = vstd::utf8::encode_utf8(form_tail());
    let at = head.len() as int;
    assert(form(file).take(at) =~= head);
    assert(form(file).subrange(at, at + file.len()) =~= file);
    assert(form(file).skip(at + file.len()) =~= tail);
}

/// The silence is as long as it was asked for, to the sample.
pub proof fn law_length_of_the_silence(sample_rate: u32, pad_ms: u32)
    ensures
        1000 * pad_len(sample_rate as int, pad_ms as int) <= sample_rate * pad_ms,
        sample_rate * pad_ms < 1000 * (pad_len(sample_rate as int, pad_ms as int) + 1),
{
}

/// A recording can be sent exactly if it and its silence stay below four gigabytes.
pub proof fn law_what_can_be_sent(count: int, sample_rate: int, pad_ms: int)
    ensures
        sendable(count, sample_rate, pad_ms) <==> 1 <= sample_rate <= 2_147_483_647 && count
            + sample_rate * pad_ms / 1000 <= 2_147_483_629,
{
    wav::law_what_fits(count + pad_len(sample_rate, pad_ms), sample_rate);
}

/// The request holds the recording: behind the head of the form and the header of the file stand
/// its samples, one after the other, then the silence, then the tail of the form.
pub proof fn law_request_holds_the_recording(
    samples: Seq<i16>,
    sample_rate: u32,
    pad_ms: u32,
    i: int,
)
    requires
        sendable(samples.len() as int, sample_rate as int, pad_ms as int),
        0 <= i < samples.len() + pad_len(sample_rate as int, pad_ms as int),
    ensures
        ({
            let file = wav::wav_file(
                with_silence(samples, sample_rate as int, pad_ms as int),
                sample_rate as int,
            );
            let body = form(file);
            let at = vstd::utf8::encode_utf8(form_head()).len() + 44 + 2 * i;
            let n = body[at] as int + 256 * body[at + 1];
            let v = if i < samples.len() {
                samples[i] as int
            } else {
                0
            };
            &&& n == v || n == v + 65536
            &&& body.len() == vstd::utf8::encode_utf8(form_head()).len() + 44 + 2 * (samples.len()
                + pad_len(sample_rate as int, pad_ms as int)) + vstd::utf8::encode_utf8(
                form_tail(),
            ).len()
        }),
{
    let all = with_silence(samples, sample_rate as int, pad_ms as int);
    law_silence_follows_the_recording(samples, sample_rate, pad_ms, i);
    let file = wav::wav_file(all, sample_rate as int);
    wav::law_wav_holds_its_samples(all, sample_rate as int);
    wav::law_wav_layout(all, sample_rate as int, i);
    let head = vstd::utf8::encode_utf8(form_head());
    let body = form(file);
    let at = head.len() + 44 + 2 * i;
    assert(body[at] == file[44 + 2 * i]);
    assert(body[at + 1] == file[45 + 2 * i]);
}

/// A setting that writes a number within the limit, with white space around it, counts as that
/// number; one over the limit counts for nothing, as does one that is no number, or none.
pub proof fn law_configured_numbers(
    p: Seq<char>,
    n: nat,
    q: Seq<char>,
    s: Seq<char>,
    max: nat,
    default: nat,
)
    requires
        forall|i: int| 0 <= i < p.len() ==> unicode::whitespace(#[trigger] p[i]),
        forall|i: int| 0 <= i < q.len() ==> unicode::whitespace(#[trigger] q[i]),
    ensures
        configured_number(Some(p + number::decimal(n) + q), max, default) == if n <= max {
            n
        } else {
            default
        },
        number::parse_unsigned(text::trim(s)) is None ==> configured_number(Some(s), max, default)
            == default,
        number::parse_unsigned(text::trim(s)) matches Some(m) ==> configured_number(
            Some(s),
            max,
            default,
        ) == if m <= max {
            m
        } else {
            default
        },
        configured_number(None, max, default) == default,
{
    number::law_limits(p, n, q, max);
}

/// Connecting is given up first, then the exchange, and the whole turn last, so that the most
/// telling error comes first.
pub proof fn law_deadlines()
    ensures
        CONNECT_TIMEOUT_S == 5,
        DEFAULT_HTTP_TIMEOUT_S == 50,
        DEFAULT_WATCHDOG_S == 55,
        DEFAULT_TAIL_PAD_MS == 800,
        CONNECT_TIMEOUT_S < DEFAULT_HTTP_TIMEOUT_S < DEFAULT_WATCHDOG_S,
{
}

/// The form is separated by its boundary: a field of text, the head of the file, the file, and
/// the closing line.
pub proof fn law_form_text(name: Seq<char>, value: Seq<char>)
    ensures
        boundary() == "----voicechatBoundary7e3f"@,
        form_field(name, value) == "--"@ + boundary()
            + "\r\nContent-Disposition: form-data; name=\""@ + name + "\"\r\n\r\n"@ + value
            + "\r\n"@,
        form_head() == form_field("response_format"@, "text"@) + "--"@ + boundary()
            + "\r\nContent-Disposition: form-data; name=\"file\"; filename=\"audio.wav\"\r\nContent-Type: audio/wav\r\n\r\n"@,
        form_tail() == "\r\n--"@ + boundary() + "--\r\n"@,
{
}

} // verus!
