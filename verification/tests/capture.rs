use voicechat::capture::{decode_pcm, recorder_args, SAMPLE_RATE};

#[test]
fn recorder_arguments_with_and_without_a_source() {
    let always = vec!["--format=s16le", "--rate=16000", "--channels=1", "--latency-msec=30"];
    assert_eq!(SAMPLE_RATE, 16000);
    assert_eq!(recorder_args(None), always);
    assert_eq!(recorder_args(Some("")), always);
    let mut with = always.clone();
    with.push("--device=mic 1");
    assert_eq!(recorder_args(Some("mic 1")), with);
}

#[test]
fn raw_audio() {
    assert_eq!(decode_pcm(&[]), Vec::<i16>::new());
    assert_eq!(decode_pcm(&[7]), Vec::<i16>::new());
    assert_eq!(decode_pcm(&[1, 0, 0xff, 0xff, 0, 0x80, 0xff, 0x7f, 9]), vec![1, -1, i16::MIN, i16::MAX]);
    for v in [0i16, 255, 256, -256, -255, 12345, -12345] {
        assert_eq!(decode_pcm(&v.to_le_bytes()), vec![v]);
    }
}
