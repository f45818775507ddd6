use voicechat::stt::{
    can_send, content_type, endpoint, http_timeout, pad_samples, post_error, request_body,
    tail_pad_ms, transcript_of, watchdog,
};
use voicechat::wav::wav_bytes;

#[test]
fn configured_numbers() {
    assert_eq!(watchdog(None), 55);
    assert_eq!(watchdog(Some(" 7\n")), 7);
    assert_eq!(watchdog(Some("seven")), 55);
    assert_eq!(watchdog(Some("-1")), 55);
    assert_eq!(http_timeout(None), 50);
    assert_eq!(http_timeout(Some("+3")), 3);
    assert_eq!(tail_pad_ms(None), 800);
    assert_eq!(tail_pad_ms(Some("0")), 0);
    assert_eq!(tail_pad_ms(Some("4294967295")), 4294967295);
    assert_eq!(tail_pad_ms(Some("4294967296")), 800);
    assert_eq!(watchdog(Some("18446744073709551615")), u64::MAX);
    assert_eq!(watchdog(Some("18446744073709551616")), 55);
}

#[test]
fn server_address() {
    assert_eq!(endpoint(None), "http://127.0.0.1:48450/inference");
    assert_eq!(endpoint(Some("http://x/")), "http://x/");
    assert_eq!(post_error("http://x/", "refused"), "POST http://x/: refused");
}

#[test]
fn silence_lengths() {
    assert_eq!(pad_samples(16000, 800), 12800);
    assert_eq!(pad_samples(16000, 0), 0);
    assert_eq!(pad_samples(44100, 1), 44);
    assert_eq!(pad_samples(u32::MAX, u32::MAX), 18446744065119617);
}

#[test]
fn what_fits_in_a_request() {
    assert!(can_send(16000, 16000, 800));
    assert!(can_send(2147483629, 16000, 0));
    assert!(!can_send(2147483630, 16000, 0));
    assert!(!can_send(0, 0, 0));
    assert!(!can_send(0, 2147483648, 0));
    assert!(!can_send(2147483629, 16000, 1));
}

#[test]
fn request_is_a_form_around_a_padded_wav_file() {
    let samples = vec![1, -2, 300];
    let body = request_body(&samples, 1000, 2).unwrap();
    let mut padded = samples.clone();
    padded.extend([0, 0]);
    let mut expected = Vec::new();
    expected.extend_from_slice(
        b"------voicechatBoundary7e3f\r\nContent-Disposition: form-data; name=\"response_format\"\r\n\r\ntext\r\n",
    );
    expected.extend_from_slice(
        b"------voicechatBoundary7e3f\r\nContent-Disposition: form-data; name=\"file\"; filename=\"audio.wav\"\r\nContent-Type: audio/wav\r\n\r\n",
    );
    expected.extend_from_slice(&wav_bytes(&padded, 1000).unwrap());
    expected.extend_from_slice(b"\r\n------voicechatBoundary7e3f--\r\n");
    assert_eq!(body, expected);
    assert_eq!(content_type(), "multipart/form-data; boundary=----voicechatBoundary7e3f");
}

#[test]
fn answers_become_one_line() {
    assert_eq!(transcript_of(" Hello there.\n How are\r\n\tyou? \n"), "Hello there. How are you?");
    assert_eq!(transcript_of("\u{a0}a\u{2003}b\u{3000}"), "a b");
    assert_eq!(transcript_of(" \n"), "");
    let once = transcript_of("a \n b");
    assert_eq!(transcript_of(&once), once);
}
