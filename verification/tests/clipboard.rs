use hexview::buffer::BufferError;
use hexview::clipboard::hex::{digit_value, hex_digits, strip_delimiters};
use hexview::clipboard::{
    build_osc52_sequence, bytes_to_hex, dual_copy_result, hex_to_bytes, terminal_sequence,
    wrap_for_screen, wrap_for_tmux, ClipboardError, HexFormat,
};

#[test]
fn test_bytes_to_hex() {
    let bytes = b"Hello";
    assert_eq!(bytes_to_hex(bytes, HexFormat::Spaced), "48 65 6C 6C 6F");
    assert_eq!(bytes_to_hex(bytes, HexFormat::Continuous), "48656C6C6F");
    assert_eq!(
        bytes_to_hex(bytes, HexFormat::CArray),
        "{ 0x48, 0x65, 0x6C, 0x6C, 0x6F }"
    );
}

#[test]
fn test_hex_to_bytes() {
    assert_eq!(hex_to_bytes("48 65 6C 6C 6F").unwrap(), b"Hello");
    assert_eq!(hex_to_bytes("48656C6C6F").unwrap(), b"Hello");
    assert_eq!(
        hex_to_bytes("0x48, 0x65, 0x6C, 0x6C, 0x6F").unwrap(),
        b"Hello"
    );
}

#[test]
fn bytes_to_hex_of_nothing() {
    assert_eq!(bytes_to_hex(&[], HexFormat::Spaced), "");
    assert_eq!(bytes_to_hex(&[], HexFormat::Continuous), "");
    assert_eq!(bytes_to_hex(&[], HexFormat::CArray), "{  }");
}

#[test]
fn bytes_to_hex_of_one_byte() {
    assert_eq!(bytes_to_hex(&[0x0A], HexFormat::Spaced), "0A");
    assert_eq!(bytes_to_hex(&[0x0A], HexFormat::Continuous), "0A");
    assert_eq!(bytes_to_hex(&[0x0A], HexFormat::CArray), "{ 0x0A }");
}

#[test]
fn bytes_to_hex_pads_and_uses_upper_case() {
    assert_eq!(
        bytes_to_hex(&[0x00, 0x0F, 0xF0, 0xFF, 0xAB], HexFormat::Spaced),
        "00 0F F0 FF AB"
    );
}

#[test]
fn hex_default_format_is_spaced() {
    assert_eq!(HexFormat::default(), HexFormat::Spaced);
}

#[test]
fn hex_to_bytes_rejects_odd_digit_count() {
    match hex_to_bytes("ABC") {
        Err(ClipboardError::InvalidHex(detail)) => {
            assert_eq!(detail, "Hex string must have even length");
        }
        other => panic!("expected an invalid hex error, got {:?}", other),
    }
    assert!(hex_to_bytes("4").is_err());
    assert!(hex_to_bytes("0x4, 0x65").is_err());
}

#[test]
fn hex_to_bytes_reads_braced_list() {
    assert_eq!(
        hex_to_bytes("{ 0x48, 0x65, 0x6C, 0x6C, 0x6F }").unwrap(),
        b"Hello"
    );
    assert_eq!(hex_to_bytes("{  }").unwrap(), Vec::<u8>::new());
}

#[test]
fn hex_to_bytes_reads_lower_case_and_capital_prefix() {
    assert_eq!(hex_to_bytes("ff 0a").unwrap(), vec![0xFF, 0x0A]);
    assert_eq!(hex_to_bytes("0XFF0X0a").unwrap(), vec![0xFF, 0x0A]);
}

#[test]
fn hex_to_bytes_drops_other_characters() {
    assert_eq!(hex_to_bytes("zz41-42\n43").unwrap(), vec![0x41, 0x42, 0x43]);
    assert_eq!(hex_to_bytes("").unwrap(), Vec::<u8>::new());
    assert_eq!(hex_to_bytes("he said: e").unwrap(), vec![0xEA, 0xDE]);
    assert!(hex_to_bytes("hello").is_err());
}

#[test]
fn hex_to_bytes_strips_in_order() {
    // the space goes first, so the prefix forms and goes too
    assert_eq!(hex_to_bytes("0 x41").unwrap(), vec![0x41]);
    // a tab is no delimiter: the zero stays, and the digits are odd
    assert!(hex_to_bytes("0\tx41").is_err());
    // prefixes are found from left to right without overlap
    assert!(hex_to_bytes("00x41").is_err());
    assert_eq!(hex_to_bytes("00x410").unwrap(), vec![0x04, 0x10]);
    // one pass only: the prefix that forms behind a removed one stays
    assert!(hex_to_bytes("00xx41").is_err());
    assert_eq!(hex_to_bytes("00xx4").unwrap(), vec![0x04]);
    assert!(hex_to_bytes("0{x41").is_err());
}

#[test]
fn strip_delimiters_is_the_first_phase() {
    let kept: String = strip_delimiters("{ 0x48, 0X65 }").into_iter().collect();
    assert_eq!(kept, "{4865}");
    let kept: String = strip_delimiters("00xx").into_iter().collect();
    assert_eq!(kept, "0x");
}

#[test]
fn hex_digits_is_the_second_phase() {
    let text: Vec<char> = "{4g8-6F}".chars().collect();
    let kept: String = hex_digits(&text).into_iter().collect();
    assert_eq!(kept, "486F");
}

#[test]
fn hex_round_trip_in_every_format() {
    let mut all: Vec<u8> = Vec::new();
    for value in 0..=255u8 {
        all.push(value);
    }
    let samples: Vec<Vec<u8>> = vec![vec![], vec![0], vec![0, 0], vec![0x10, 0x00, 0x01], all];
    for bytes in samples {
        for format in [HexFormat::Spaced, HexFormat::Continuous, HexFormat::CArray] {
            let text = bytes_to_hex(&bytes, format);
            assert_eq!(hex_to_bytes(&text).unwrap(), bytes);
        }
    }
}

#[test]
fn osc52_sequence_carries_base64() {
    assert_eq!(
        build_osc52_sequence(b"Hello"),
        b"\x1b]52;c;SGVsbG8=\x07".to_vec()
    );
    assert_eq!(build_osc52_sequence(b""), b"\x1b]52;c;\x07".to_vec());
    assert_eq!(
        build_osc52_sequence(&[0xFB, 0xFF]),
        b"\x1b]52;c;+/8=\x07".to_vec()
    );
}

#[test]
fn tmux_envelope_doubles_escapes() {
    let osc52 = build_osc52_sequence(b"Hello");
    assert_eq!(
        wrap_for_tmux(&osc52),
        b"\x1bPtmux;\x1b\x1b]52;c;SGVsbG8=\x07\x1b\\".to_vec()
    );
    assert_eq!(
        wrap_for_tmux(&[0x1b, 0x1b, 0x41]),
        b"\x1bPtmux;\x1b\x1b\x1b\x1bA\x1b\\".to_vec()
    );
    assert_eq!(wrap_for_tmux(&[]), b"\x1bPtmux;\x1b\\".to_vec());
}

#[test]
fn screen_envelope_keeps_bytes() {
    let osc52 = build_osc52_sequence(b"Hello");
    assert_eq!(
        wrap_for_screen(&osc52),
        b"\x1bP\x1b]52;c;SGVsbG8=\x07\x1b\\".to_vec()
    );
}

#[test]
fn tmux_envelope_unwraps_to_plain_sequence() {
    for payload in [&b""[..], &b"Hello"[..], &[0x1b, 0x00, 0x1b, 0x1b][..]] {
        let plain = terminal_sequence(payload, false, false);
        let wrapped = terminal_sequence(payload, true, false);
        let inner = &wrapped[7..wrapped.len() - 2];
        let mut unwrapped: Vec<u8> = Vec::new();
        let mut at = 0;
        while at < inner.len() {
            if inner[at] == 0x1b && at + 1 < inner.len() && inner[at + 1] == 0x1b {
                at += 1;
            }
            unwrapped.push(inner[at]);
            at += 1;
        }
        assert_eq!(unwrapped, plain);
    }
}

#[test]
fn terminal_sequence_picks_the_envelope() {
    let plain = build_osc52_sequence(b"hi");
    assert_eq!(terminal_sequence(b"hi", false, false), plain);
    assert_eq!(terminal_sequence(b"hi", false, true), wrap_for_screen(&plain));
    assert_eq!(terminal_sequence(b"hi", true, false), wrap_for_tmux(&plain));
    assert_eq!(terminal_sequence(b"hi", true, true), wrap_for_tmux(&plain));
}

#[test]
fn clipboard_error_messages() {
    assert_eq!(
        ClipboardError::InvalidHex("zz".to_string()).message(),
        "Invalid hex string: zz"
    );
    assert_eq!(
        ClipboardError::Arboard("no display".to_string()).message(),
        "Clipboard error: no display"
    );
    assert_eq!(
        ClipboardError::Io("broken pipe".to_string()).message(),
        "IO error: broken pipe"
    );
}

#[test]
fn buffer_error_messages() {
    assert_eq!(
        BufferError::OutOfBounds(42).message(),
        "Position out of bounds: 42"
    );
    assert_eq!(
        BufferError::OutOfBounds(0).message(),
        "Position out of bounds: 0"
    );
    assert_eq!(
        BufferError::Io("disk full".to_string()).message(),
        "IO error: disk full"
    );
}

#[test]
fn digit_value_of_each_class() {
    assert_eq!(digit_value('0'), Some(0));
    assert_eq!(digit_value('9'), Some(9));
    assert_eq!(digit_value('A'), Some(10));
    assert_eq!(digit_value('F'), Some(15));
    assert_eq!(digit_value('a'), Some(10));
    assert_eq!(digit_value('f'), Some(15));
    assert_eq!(digit_value('G'), None);
    assert_eq!(digit_value('g'), None);
    assert_eq!(digit_value('/'), None);
    assert_eq!(digit_value(':'), None);
    assert_eq!(digit_value('@'), None);
    assert_eq!(digit_value('`'), None);
    assert_eq!(digit_value('\u{FF10}'), None);
}

#[test]
fn dual_copy_reports_the_system_clipboard() {
    let failed = |detail: &str| -> Result<(), String> { Err(detail.to_string()) };
    assert_eq!(dual_copy_result(Ok(()), Ok::<(), String>(())), Ok(()));
    assert_eq!(dual_copy_result(Ok(()), failed("terminal")), Ok(()));
    assert_eq!(dual_copy_result(failed("system"), Ok(())), failed("system"));
    assert_eq!(
        dual_copy_result(failed("system"), failed("terminal")),
        failed("system")
    );
}
