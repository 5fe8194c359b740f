use protocol_util::wire::{decode_frame, encode_frame, parse_channel};

#[test]
fn frames_are_channel_colon_message() {
    assert_eq!(encode_frame(7, b"hello"), b"7:hello".to_vec());
    assert_eq!(encode_frame(0, b""), b"0:".to_vec());
    assert_eq!(
        encode_frame(u64::MAX, b"a:b"),
        b"18446744073709551615:a:b".to_vec()
    );
}

#[test]
fn frames_split_at_the_first_colon() {
    assert_eq!(decode_frame(b"12:a:b"), Some((12, b"a:b".to_vec())));
    assert_eq!(decode_frame(b"0:"), Some((0, Vec::new())));
    assert_eq!(decode_frame(b"+5:x"), Some((5, b"x".to_vec())));
}

#[test]
fn frames_without_channel_are_refused() {
    assert_eq!(decode_frame(b"no colon"), None);
    assert_eq!(decode_frame(b":message"), None);
    assert_eq!(decode_frame(b"x1:message"), None);
    assert_eq!(decode_frame(b"-1:message"), None);
    assert_eq!(decode_frame(b"+:message"), None);
    assert_eq!(decode_frame(b"18446744073709551616:message"), None);
}

#[test]
fn channel_numbers_parse_as_u64_does() {
    for text in [
        "0",
        "42",
        "+42",
        "007",
        "18446744073709551615",
        "18446744073709551616",
        "",
        "+",
        "-0",
        " 1",
        "1 ",
        "99999999999999999999",
        "1a",
    ] {
        assert_eq!(parse_channel(text.as_bytes()), text.parse::<u64>().ok(), "{}", text);
    }
}

#[test]
fn frames_read_back_as_written() {
    for channel in [0u64, 1, 9, 10, 99, 100, 12345, u64::MAX - 1, u64::MAX] {
        for message in ["", "hello", "with:colons:inside", "ünïcödé"] {
            let frame = encode_frame(channel, message.as_bytes());
            assert_eq!(
                decode_frame(&frame),
                Some((channel, message.as_bytes().to_vec()))
            );
            assert_eq!(String::from_utf8(frame).unwrap(), format!("{}:{}", channel, message));
        }
    }
}
