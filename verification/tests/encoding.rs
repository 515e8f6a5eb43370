use hexview::encoding::codec::{decode_lossy, encode_lossy};
use hexview::encoding::display::single_byte_unit_of;
use hexview::encoding::unit::{display_unit, placeholder_unit};
use hexview::encoding::{
    byte_to_char, decode_bytes, decode_for_display, encode_char, encode_string, grapheme_width,
    graphemes, is_displayable, utf8_char_len, CharEncoding, DecodedChar,
};

fn shown(map: &[Option<DecodedChar>]) -> Vec<Option<(String, usize, usize)>> {
    map.iter()
        .map(|slot| {
            slot.as_ref()
                .map(|entry| (entry.display.clone(), entry.byte_len, entry.width))
        })
        .collect()
}

fn entry(display: &str, byte_len: usize, width: usize) -> Option<(String, usize, usize)> {
    Some((display.to_string(), byte_len, width))
}

fn assert_partition(map: &[Option<DecodedChar>]) {
    let mut at = 0;
    let mut sum = 0;
    while at < map.len() {
        let len = map[at].as_ref().expect("a unit starts here").byte_len;
        assert!(len >= 1);
        assert!(at + len <= map.len());
        for inner in at + 1..at + len {
            assert!(map[inner].is_none());
        }
        sum += len;
        at += len;
    }
    assert_eq!(at, map.len());
    assert_eq!(sum, map.len());
}

const ALL: [CharEncoding; 8] = [
    CharEncoding::Utf8,
    CharEncoding::Utf16Le,
    CharEncoding::Utf16Be,
    CharEncoding::ShiftJis,
    CharEncoding::EucJp,
    CharEncoding::Iso2022Jp,
    CharEncoding::Ascii,
    CharEncoding::Latin1,
];

#[test]
fn encoding_names() {
    assert_eq!(CharEncoding::Utf8.name(), "UTF-8");
    assert_eq!(CharEncoding::Utf16Le.name(), "UTF-16LE");
    assert_eq!(CharEncoding::Utf16Be.name(), "UTF-16BE");
    assert_eq!(CharEncoding::ShiftJis.name(), "Shift-JIS");
    assert_eq!(CharEncoding::EucJp.name(), "EUC-JP");
    assert_eq!(CharEncoding::Iso2022Jp.name(), "ISO-2022-JP");
    assert_eq!(CharEncoding::Ascii.name(), "ASCII");
    assert_eq!(CharEncoding::Latin1.name(), "Latin-1");
}

#[test]
fn encoding_next_walks_one_cycle() {
    for (index, encoding) in ALL.iter().enumerate() {
        assert_eq!(encoding.next(), ALL[(index + 1) % 8]);
    }
    let mut current = CharEncoding::default();
    assert_eq!(current, CharEncoding::Utf8);
    for _ in 0..8 {
        current = current.next();
    }
    assert_eq!(current, CharEncoding::Utf8);
}

#[test]
fn encoding_codec_table() {
    assert_eq!(CharEncoding::Utf8.to_encoding().name(), "UTF-8");
    assert_eq!(CharEncoding::Utf16Le.to_encoding().name(), "UTF-16LE");
    assert_eq!(CharEncoding::Utf16Be.to_encoding().name(), "UTF-16BE");
    assert_eq!(CharEncoding::ShiftJis.to_encoding().name(), "Shift_JIS");
    assert_eq!(CharEncoding::EucJp.to_encoding().name(), "EUC-JP");
    assert_eq!(CharEncoding::Iso2022Jp.to_encoding().name(), "ISO-2022-JP");
    assert_eq!(CharEncoding::Ascii.to_encoding().name(), "windows-1252");
    assert_eq!(CharEncoding::Latin1.to_encoding().name(), "windows-1252");
}

#[test]
fn byte_to_char_shows_printable_ascii() {
    assert_eq!(byte_to_char(b'A'), 'A');
    assert_eq!(byte_to_char(b' '), ' ');
    assert_eq!(byte_to_char(b'~'), '~');
    assert_eq!(byte_to_char(0x1F), '.');
    assert_eq!(byte_to_char(0x7F), '.');
    assert_eq!(byte_to_char(0x80), '.');
    assert_eq!(byte_to_char(0x00), '.');
    assert_eq!(byte_to_char(0xFF), '.');
}

#[test]
fn decode_bytes_uses_the_codec() {
    assert_eq!(decode_bytes(&[0x82, 0xA0], CharEncoding::ShiftJis), "あ");
    assert_eq!(decode_bytes(&[0xA4, 0xA2], CharEncoding::EucJp), "あ");
    assert_eq!(decode_bytes(&[0x41, 0x00], CharEncoding::Utf16Le), "A");
    assert_eq!(decode_bytes(&[0x00, 0x41], CharEncoding::Utf16Be), "A");
    assert_eq!(decode_bytes(&[0xE9], CharEncoding::Latin1), "é");
    assert_eq!(decode_bytes(&[0xFF], CharEncoding::Utf8), "\u{FFFD}");
    assert_eq!(decode_bytes(b"", CharEncoding::Utf8), "");
}

#[test]
fn encode_string_uses_the_codec() {
    assert_eq!(encode_string("あ", CharEncoding::ShiftJis), vec![0x82, 0xA0]);
    assert_eq!(encode_string("あ", CharEncoding::EucJp), vec![0xA4, 0xA2]);
    assert_eq!(encode_string("é", CharEncoding::Latin1), vec![0xE9]);
    assert_eq!(encode_string("é", CharEncoding::Utf8), vec![0xC3, 0xA9]);
    assert_eq!(encode_string("abc", CharEncoding::Ascii), b"abc".to_vec());
}

#[test]
fn encode_char_tells_what_cannot_be_mapped() {
    assert_eq!(encode_char('A', CharEncoding::ShiftJis), Some(vec![0x41]));
    assert_eq!(
        encode_char('あ', CharEncoding::ShiftJis),
        Some(vec![0x82, 0xA0])
    );
    assert_eq!(encode_char('é', CharEncoding::Latin1), Some(vec![0xE9]));
    assert_eq!(encode_char('あ', CharEncoding::Latin1), None);
    assert_eq!(encode_char('€', CharEncoding::ShiftJis), None);
    assert_eq!(
        encode_char('€', CharEncoding::Utf8),
        Some(vec![0xE2, 0x82, 0xAC])
    );
}

#[test]
fn graphemes_splits_into_clusters() {
    assert_eq!(
        graphemes("a\u{310}e\u{301}o"),
        vec!["a\u{310}", "e\u{301}", "o"]
    );
    assert_eq!(graphemes("a\r\nb"), vec!["a", "\r\n", "b"]);
    assert_eq!(graphemes(""), Vec::<&str>::new());
    assert_eq!(graphemes("é"), vec!["é"]);
}

#[test]
fn grapheme_width_adds_cluster_widths() {
    assert_eq!(grapheme_width(""), 0);
    assert_eq!(grapheme_width("abc"), 3);
    assert_eq!(grapheme_width("Ｈｅｌｌｏ"), 10);
    assert_eq!(grapheme_width("aあ"), 3);
    assert_eq!(grapheme_width("e\u{301}"), 1);
}

#[test]
fn utf8_char_len_by_leading_byte() {
    assert_eq!(utf8_char_len(0x00), 1);
    assert_eq!(utf8_char_len(0x7F), 1);
    assert_eq!(utf8_char_len(0x80), 0);
    assert_eq!(utf8_char_len(0xBF), 0);
    assert_eq!(utf8_char_len(0xC0), 2);
    assert_eq!(utf8_char_len(0xDF), 2);
    assert_eq!(utf8_char_len(0xE0), 3);
    assert_eq!(utf8_char_len(0xEF), 3);
    assert_eq!(utf8_char_len(0xF0), 4);
    assert_eq!(utf8_char_len(0xF7), 4);
    assert_eq!(utf8_char_len(0xF8), 0);
    assert_eq!(utf8_char_len(0xFF), 0);
}

#[test]
fn is_displayable_rules() {
    assert!(is_displayable("a"));
    assert!(is_displayable(" "));
    assert!(is_displayable("あ"));
    assert!(!is_displayable(""));
    assert!(!is_displayable("\u{0}"));
    assert!(!is_displayable("\n"));
    assert!(!is_displayable("\u{7F}"));
    assert!(!is_displayable("\u{9F}"));
    assert!(is_displayable("\u{A0}"));
    assert!(!is_displayable("\u{FFFD}"));
    assert!(!is_displayable("\u{1}abc"));
}

#[test]
fn display_unit_applies_the_placeholder_policy() {
    let entry = display_unit("あ", 2, 3);
    assert_eq!((entry.display.as_str(), entry.byte_len, entry.width), ("あ", 3, 2));
    let entry = display_unit("\u{7}", 0, 1);
    assert_eq!((entry.display.as_str(), entry.byte_len, entry.width), (".", 1, 1));
    let entry = display_unit("\u{FFFD}", 1, 3);
    assert_eq!((entry.display.as_str(), entry.byte_len, entry.width), (".", 3, 1));
    let entry = display_unit("\u{301}", 0, 2);
    assert_eq!(
        (entry.display.as_str(), entry.byte_len, entry.width),
        ("\u{301}", 2, 1)
    );
    let entry = placeholder_unit(2);
    assert_eq!((entry.display.as_str(), entry.byte_len, entry.width), (".", 2, 1));
}

#[test]
fn decode_empty_input_gives_empty_map() {
    for encoding in ALL {
        assert!(decode_for_display(&[], encoding).is_empty());
    }
}

#[test]
fn decode_utf8_ascii_decodes_to_itself() {
    let mut bytes: Vec<u8> = Vec::new();
    for byte in 0x20..=0x7Eu8 {
        bytes.push(byte);
    }
    let map = decode_for_display(&bytes, CharEncoding::Utf8);
    assert_eq!(map.len(), bytes.len());
    for (at, byte) in bytes.iter().enumerate() {
        let entry = map[at].as_ref().unwrap();
        assert_eq!(entry.display, (*byte as char).to_string());
        assert_eq!(entry.byte_len, 1);
        assert_eq!(entry.width, 1);
    }
}

#[test]
fn decode_utf8_multibyte_units() {
    // a, あ, é, 😀
    let bytes = "aあé😀".as_bytes();
    let map = decode_for_display(bytes, CharEncoding::Utf8);
    assert_eq!(
        shown(&map),
        vec![
            entry("a", 1, 1),
            entry("あ", 3, 2),
            None,
            None,
            entry("é", 2, 1),
            None,
            entry("😀", 4, 2),
            None,
            None,
            None,
        ]
    );
    assert_partition(&map);
}

#[test]
fn decode_utf8_invalid_bytes_are_placeholders() {
    // a lone continuation byte, an impossible byte, a truncated sequence
    let map = decode_for_display(&[0x80, 0xFF, 0xE3, 0x81], CharEncoding::Utf8);
    assert_eq!(
        shown(&map),
        vec![entry(".", 1, 1), entry(".", 1, 1), entry(".", 1, 1), entry(".", 1, 1)]
    );
    // a leading byte followed by ASCII: the ASCII byte stays a unit of its own
    let map = decode_for_display(&[0xC3, 0x41], CharEncoding::Utf8);
    assert_eq!(shown(&map), vec![entry(".", 1, 1), entry("A", 1, 1)]);
    // an overlong encoding of '/'
    let map = decode_for_display(&[0xC0, 0xAF], CharEncoding::Utf8);
    assert_eq!(shown(&map), vec![entry(".", 1, 1), entry(".", 1, 1)]);
}

#[test]
fn decode_utf8_controls_keep_their_length() {
    let map = decode_for_display(&[0x00, 0x0A, 0x7F, 0xC2, 0x85], CharEncoding::Utf8);
    assert_eq!(
        shown(&map),
        vec![
            entry(".", 1, 1),
            entry(".", 1, 1),
            entry(".", 1, 1),
            entry(".", 2, 1),
            None,
        ]
    );
    // the replacement character itself, well-formed
    let map = decode_for_display(&[0xEF, 0xBF, 0xBD], CharEncoding::Utf8);
    assert_eq!(shown(&map), vec![entry(".", 3, 1), None, None]);
}

#[test]
fn decode_utf16_units() {
    let map = decode_for_display(&[0x41, 0x00, 0x42, 0x30], CharEncoding::Utf16Le);
    assert_eq!(
        shown(&map),
        vec![entry("A", 2, 1), None, entry("あ", 2, 2), None]
    );
    let map = decode_for_display(&[0x00, 0x41, 0x30, 0x42], CharEncoding::Utf16Be);
    assert_eq!(
        shown(&map),
        vec![entry("A", 2, 1), None, entry("あ", 2, 2), None]
    );
}

#[test]
fn decode_utf16_surrogate_pair_is_one_unit() {
    // U+1F600 is D83D DE00: 0x10000 + (0x3D << 10) + 0x200
    let expected = char::from_u32(0x10000 + ((0xD83D - 0xD800) << 10) + (0xDE00 - 0xDC00))
        .unwrap()
        .to_string();
    assert_eq!(expected, "😀");
    let map = decode_for_display(&[0x3D, 0xD8, 0x00, 0xDE], CharEncoding::Utf16Le);
    assert_eq!(shown(&map), vec![entry("😀", 4, 2), None, None, None]);
    let map = decode_for_display(&[0xD8, 0x3D, 0xDE, 0x00], CharEncoding::Utf16Be);
    assert_eq!(shown(&map), vec![entry("😀", 4, 2), None, None, None]);
    // the lowest and the highest pair
    let map = decode_for_display(&[0x00, 0xD8, 0x00, 0xDC], CharEncoding::Utf16Le);
    assert_eq!(map[0].as_ref().unwrap().display, "\u{10000}");
    assert_eq!(map[0].as_ref().unwrap().byte_len, 4);
    let map = decode_for_display(&[0xFF, 0xDB, 0xFF, 0xDF], CharEncoding::Utf16Le);
    assert_eq!(map[0].as_ref().unwrap().display, "\u{10FFFF}");
    assert_eq!(map[0].as_ref().unwrap().byte_len, 4);
}

#[test]
fn decode_utf16_lone_surrogates_and_trailing_byte() {
    // a high surrogate without a low one, then a trailing byte
    let map = decode_for_display(&[0x3D, 0xD8, 0x41, 0x00, 0x42], CharEncoding::Utf16Le);
    assert_eq!(
        shown(&map),
        vec![entry(".", 2, 1), None, entry("A", 2, 1), None, entry(".", 1, 1)]
    );
    // a low surrogate first
    let map = decode_for_display(&[0x00, 0xDE, 0x3D, 0xD8], CharEncoding::Utf16Le);
    assert_eq!(
        shown(&map),
        vec![entry(".", 2, 1), None, entry(".", 2, 1), None]
    );
    // two high surrogates, then a low one: the second high one pairs up
    let map = decode_for_display(
        &[0x3D, 0xD8, 0x3D, 0xD8, 0x00, 0xDE],
        CharEncoding::Utf16Le,
    );
    assert_eq!(
        shown(&map),
        vec![entry(".", 2, 1), None, entry("😀", 4, 2), None, None, None]
    );
    // controls and the replacement character
    let map = decode_for_display(&[0x0A, 0x00, 0xFD, 0xFF], CharEncoding::Utf16Le);
    assert_eq!(
        shown(&map),
        vec![entry(".", 2, 1), None, entry(".", 2, 1), None]
    );
    let map = decode_for_display(&[0x41], CharEncoding::Utf16Be);
    assert_eq!(shown(&map), vec![entry(".", 1, 1)]);
}

#[test]
fn decode_shift_jis_units() {
    // A, あ (82 A0), half-width katakana ｱ (B1), 漢 (8A BF)
    let map = decode_for_display(&[0x41, 0x82, 0xA0, 0xB1, 0x8A, 0xBF], CharEncoding::ShiftJis);
    assert_eq!(
        shown(&map),
        vec![
            entry("A", 1, 1),
            entry("あ", 2, 2),
            None,
            entry("ｱ", 1, 1),
            entry("漢", 2, 2),
            None,
        ]
    );
    assert_partition(&map);
}

#[test]
fn decode_shift_jis_invalid_bytes() {
    // a lead byte at the end of the buffer, and a byte that is never valid
    let map = decode_for_display(&[0xFF, 0x41, 0x82], CharEncoding::ShiftJis);
    assert_eq!(
        shown(&map),
        vec![entry(".", 1, 1), entry("A", 1, 1), entry(".", 1, 1)]
    );
    let map = decode_for_display(&[0x0A], CharEncoding::ShiftJis);
    assert_eq!(shown(&map), vec![entry(".", 1, 1)]);
}

#[test]
fn decode_euc_jp_units() {
    // あ (A4 A2), A, half-width katakana ｱ (8E B1)
    let map = decode_for_display(&[0xA4, 0xA2, 0x41, 0x8E, 0xB1], CharEncoding::EucJp);
    assert_eq!(
        shown(&map),
        vec![
            entry("あ", 2, 2),
            None,
            entry("A", 1, 1),
            entry("ｱ", 2, 1),
            None,
        ]
    );
    assert_partition(&map);
}

#[test]
fn decode_single_byte_encodings() {
    for encoding in [
        CharEncoding::Ascii,
        CharEncoding::Latin1,
        CharEncoding::Iso2022Jp,
    ] {
        let map = decode_for_display(&[0x41, 0x20, 0x00, 0x1F, 0x7F, 0xE9, 0xFF], encoding);
        assert_eq!(
            shown(&map),
            vec![
                entry("A", 1, 1),
                entry(" ", 1, 1),
                entry(".", 1, 1),
                entry(".", 1, 1),
                entry(".", 1, 1),
                entry("é", 1, 1),
                entry("ÿ", 1, 1),
            ]
        );
    }
}

#[test]
fn single_byte_unit_of_each_class() {
    let entry = single_byte_unit_of(0x80);
    assert_eq!((entry.display.as_str(), entry.byte_len, entry.width), ("\u{80}", 1, 1));
    let entry = single_byte_unit_of(0x1B);
    assert_eq!((entry.display.as_str(), entry.byte_len, entry.width), (".", 1, 1));
    let entry = single_byte_unit_of(b'~');
    assert_eq!((entry.display.as_str(), entry.byte_len, entry.width), ("~", 1, 1));
}

#[test]
fn decode_map_partitions_any_bytes() {
    let mut state: u32 = 0x1234_5678;
    let mut samples: Vec<Vec<u8>> = vec![
        vec![0xE3, 0x81],
        vec![0xF0, 0x9F, 0x98],
        vec![0x3D, 0xD8, 0x00],
        vec![0x82],
        vec![0x8E],
        vec![0xEF, 0xBB, 0xBF, 0x41],
        vec![0xFF, 0xFE, 0x41, 0x00],
        vec![0x1B, 0x24, 0x42, 0x24, 0x22],
    ];
    for len in 0..40 {
        let mut bytes = Vec::new();
        for _ in 0..len {
            state = state.wrapping_mul(1664525).wrapping_add(1013904223);
            bytes.push((state >> 24) as u8);
        }
        samples.push(bytes);
    }
    for bytes in &samples {
        for encoding in ALL {
            let map = decode_for_display(bytes, encoding);
            assert_eq!(map.len(), bytes.len());
            assert_partition(&map);
            for slot in map.iter().flatten() {
                assert!(slot.width >= 1);
                assert!(!slot.display.is_empty());
            }
        }
    }
}

#[test]
fn lossy_codec_calls_report_errors() {
    assert_eq!(
        decode_lossy(CharEncoding::Utf8, &[0x61, 0xFF]),
        ("a\u{FFFD}".to_string(), true)
    );
    assert_eq!(
        decode_lossy(CharEncoding::ShiftJis, &[0x82, 0xA0]),
        ("あ".to_string(), false)
    );
    assert_eq!(
        decode_lossy(CharEncoding::ShiftJis, &[0x82]),
        ("\u{FFFD}".to_string(), true)
    );
    assert_eq!(
        encode_lossy(CharEncoding::ShiftJis, "あ"),
        (vec![0x82, 0xA0], false)
    );
    assert_eq!(
        encode_lossy(CharEncoding::Latin1, "あ"),
        (b"&#12354;".to_vec(), true)
    );
}
