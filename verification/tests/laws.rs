use rusty_expressions::{EncKind, Encoding, Error};

const ALL: [EncKind; 18] = [
    EncKind::Ascii,
    EncKind::Utf8,
    EncKind::Utf16Be,
    EncKind::Utf16Le,
    EncKind::Utf32Be,
    EncKind::Utf32Le,
    EncKind::Iso8859(1),
    EncKind::Iso8859(15),
    EncKind::Koi8R,
    EncKind::Cp1251,
    EncKind::EucJp,
    EncKind::EucTw,
    EncKind::EucKr,
    EncKind::EucCn,
    EncKind::Sjis,
    EncKind::Big5,
    EncKind::Gb18030,
    EncKind::Iso8859(7),
];

fn round_trip(e: Encoding, code: u32) {
    let mut buf = [0x5au8; 8];
    let n = e.code_to_mbc(code, &mut buf).expect("writable");
    assert_eq!(e.mbc_len(&buf), Ok(n), "{} {:x}", e.name(), code);
    assert_eq!(e.mbc_to_code(&buf), Ok(code), "{} {:x}", e.name(), code);
}

#[test]
fn law_write_then_read_unicode() {
    for k in [EncKind::Utf8, EncKind::Utf16Be, EncKind::Utf16Le, EncKind::Utf32Be, EncKind::Utf32Le] {
        for code in [0u32, 0x41, 0x7f, 0x80, 0x7ff, 0x800, 0xd7ff, 0xe000, 0xfffd, 0xffff, 0x10000, 0x1f600, 0x10ffff] {
            round_trip(Encoding::new(k), code);
        }
    }
    round_trip(Encoding::new(EncKind::Utf32Le), 0xffff_ffff);
}

#[test]
fn law_write_then_read_single_byte() {
    for k in [EncKind::Ascii, EncKind::Iso8859(2), EncKind::Koi8R, EncKind::Cp1251] {
        for code in [0u32, 0x41, 0x80, 0xc4, 0xff] {
            round_trip(Encoding::new(k), code);
        }
    }
}

#[test]
fn law_ascii_round_trips_everywhere() {
    for k in ALL {
        for code in [0u32, 0x0a, 0x41, 0x5c, 0x7e, 0x7f] {
            round_trip(Encoding::new(k), code);
        }
    }
}

#[test]
fn law_ascii_byte_reads_as_itself() {
    for k in ALL {
        let e = Encoding::new(k);
        if e.min_len() == 1 {
            assert_eq!(e.mbc_len(&[0x41, 0xa4, 0xa4]), Ok(1));
            assert_eq!(e.mbc_to_code(&[0x41, 0xa4, 0xa4]), Ok(0x41));
        }
    }
}

#[test]
fn law_raw_code_round_trip() {
    round_trip(Encoding::new(EncKind::EucKr), 0xb0a1);
    round_trip(Encoding::new(EncKind::EucTw), 0x8ea1_a1a1);
}

#[test]
fn law_len_within_min_max() {
    let inputs: [&[u8]; 6] = [
        &[0x41, 0x42, 0x43, 0x44],
        &[0xe3, 0x81, 0x82, 0x41],
        &[0x3d, 0xd8, 0x00, 0xde],
        &[0x81, 0x30, 0x81, 0x30],
        &[0x8f, 0xa2, 0xaf, 0x41],
        &[0xa4, 0xa4, 0x41, 0x41],
    ];
    for k in ALL {
        let e = Encoding::new(k);
        for p in inputs {
            if let Ok(n) = e.mbc_len(p) {
                assert!(e.min_len() <= n && n <= e.max_len(), "{}", e.name());
            }
        }
    }
    let tw = Encoding::new(EncKind::EucTw);
    assert_eq!(tw.mbc_len(&[0x8e, 0xa1, 0xa1, 0xa1]), Ok(4));
    assert_eq!(tw.max_len(), 4);
}

#[test]
fn law_newline_written_is_newline() {
    for k in ALL {
        let e = Encoding::new(k);
        let mut buf = [0xffu8; 4];
        e.code_to_mbc(0x0a, &mut buf).expect("newline");
        assert!(e.is_newline(&buf), "{}", e.name());
    }
}

#[test]
fn law_code_mbc_len_is_written_length() {
    for k in ALL {
        let e = Encoding::new(k);
        for code in [0x41u32, 0xe9, 0x3042, 0x4e2d, 0xff71, 0x1f600, 0x80] {
            let mut buf = [0u8; 8];
            let expected = match e.code_to_mbc(code, &mut buf) {
                Ok(n) => n,
                Err(_) => 1,
            };
            assert_eq!(e.code_mbc_len(code), expected);
        }
    }
}

#[test]
fn law_case_fold_ascii_letter() {
    for k in ALL {
        let e = Encoding::new(k);
        if e.min_len() == 1 {
            let mut out = [0u8; 4];
            assert_eq!(e.case_fold(true, b"M", &mut out), Ok(1));
            assert_eq!(out[0], b'm');
        }
    }
}

#[test]
fn law_left_adjust_within() {
    let hay = [0x41, 0xe3, 0x81, 0x82, 0x82, 0xa0, 0xa4, 0xa4, 0x42];
    for k in ALL {
        let e = Encoding::new(k);
        for start in 0..hay.len() {
            for pos in start + 1..hay.len() {
                let r = e.left_adjust(&hay, start, pos);
                assert!(start <= r && r <= pos, "{} {} {}", e.name(), start, pos);
                if k == EncKind::Utf8 {
                    assert!(r == start || hay[r] & 0xc0 != 0x80);
                }
                if let Some(q) = e.prev_char_start(&hay, start, pos) {
                    assert!(start <= q && q < pos);
                }
            }
        }
    }
}

#[test]
fn law_mbc_to_code_errors_match_mbc_len() {
    for k in ALL {
        let e = Encoding::new(k);
        for p in [&[][..], &[0x81][..], &[0xd8, 0x3d][..], &[0xe3, 0x81][..]] {
            match e.mbc_len(p) {
                Err(err) => assert_eq!(e.mbc_to_code(p), Err::<u32, Error>(err)),
                Ok(_) => assert!(e.mbc_to_code(p).is_ok()),
            }
        }
    }
}


#[test]
fn law_utf8_undecodable_above_scalars() {
    let e = Encoding::new(EncKind::Utf8);
    for p in [&[0x80u8][..], &[0xc0, 0x80][..], &[0xed, 0xa0, 0x80][..], &[0xf4, 0x90, 0x80, 0x80][..], &[0xe3, 0x41, 0x41][..]] {
        let c = e.mbc_to_code(p).unwrap();
        assert!(c > 0x10ffff);
        assert_eq!(c, 0x8000_0000 + p[0] as u32);
    }
    for p in [&[0x41u8][..], &[0xc3, 0xa9][..], &[0xf4, 0x8f, 0xbf, 0xbf][..]] {
        assert!(e.mbc_to_code(p).unwrap() <= 0x10ffff);
    }
}

#[test]
fn law_left_adjust_idempotent() {
    let hay = [0x41, 0xe3, 0x81, 0x82, 0x82, 0xa0, 0xd8, 0x3d, 0xde, 0x00, 0xa4, 0xa4, 0x42];
    for k in ALL {
        let e = Encoding::new(k);
        for start in 0..hay.len() {
            for pos in start + 1..=hay.len() {
                let r = e.left_adjust(&hay, start, pos);
                assert_eq!(e.left_adjust(&hay, start, r), r, "{} {} {}", e.name(), start, pos);
            }
        }
    }
}

#[test]
fn law_left_adjust_greatest_boundary() {
    // Well-formed input in each encoding; every boundary found by walking
    // characters from the start.
    let cases: [(EncKind, &[u8]); 5] = [
        (EncKind::Utf8, &[0x41, 0xe3, 0x81, 0x82, 0xf0, 0x9f, 0x98, 0x80, 0x42]),
        (EncKind::Utf16Be, &[0x00, 0x41, 0xd8, 0x3d, 0xde, 0x00, 0x30, 0x42]),
        (EncKind::Utf32Le, &[0x41, 0, 0, 0, 0x00, 0xf6, 0x01, 0x00]),
        (EncKind::Sjis, &[0x82, 0xa0, 0x41, 0xb1, 0x82, 0xa0]),
        (EncKind::Gb18030, &[0x41, 0x81, 0x30, 0x81, 0x30, 0xd6, 0xd0]),
    ];
    for (k, hay) in cases {
        let e = Encoding::new(k);
        let mut bounds = vec![0usize];
        let mut i = 0;
        while i < hay.len() {
            i += e.mbc_len(&hay[i..]).unwrap();
            bounds.push(i);
        }
        for pos in 1..=hay.len() {
            let expected = *bounds.iter().filter(|&&b| b <= pos).max().unwrap();
            assert_eq!(e.left_adjust(hay, 0, pos), expected, "{} {}", e.name(), pos);
        }
    }
}

#[test]
fn law_names_distinct() {
    let kinds = [
        EncKind::Ascii, EncKind::Utf8, EncKind::Utf16Be, EncKind::Utf16Le, EncKind::Utf32Be,
        EncKind::Utf32Le, EncKind::Iso8859(1), EncKind::Iso8859(2), EncKind::Iso8859(3),
        EncKind::Iso8859(4), EncKind::Iso8859(5), EncKind::Iso8859(6), EncKind::Iso8859(7),
        EncKind::Iso8859(8), EncKind::Iso8859(9), EncKind::Iso8859(10), EncKind::Iso8859(11),
        EncKind::Iso8859(13), EncKind::Iso8859(14), EncKind::Iso8859(15), EncKind::Iso8859(16),
        EncKind::Koi8R, EncKind::Cp1251, EncKind::EucJp, EncKind::EucTw, EncKind::EucKr,
        EncKind::EucCn, EncKind::Sjis, EncKind::Big5, EncKind::Gb18030,
    ];
    for a in kinds {
        assert_ne!(Encoding::new(a).name(), "ISO-8859");
        for b in kinds {
            assert_eq!(Encoding::new(a).name() == Encoding::new(b).name(), a == b);
        }
    }
}

#[test]
fn law_written_length_is_one_to_four() {
    for k in ALL {
        let e = Encoding::new(k);
        for code in [0u32, 0x41, 0xff, 0x100, 0x3042, 0x4e2d, 0x20ac, 0xff71, 0x1f600, 0x8ea1_a1a1, 0xd800] {
            let n = e.code_mbc_len(code);
            assert!((1..=4).contains(&n));
        }
    }
}

#[test]
fn law_prev_char_start_ends_at_boundary() {
    let cases: [(EncKind, &[u8]); 6] = [
        (EncKind::Utf8, &[0x41, 0xe3, 0x81, 0x82, 0xf0, 0x9f, 0x98, 0x80, 0x42]),
        (EncKind::Utf16Le, &[0x41, 0x00, 0x3d, 0xd8, 0x00, 0xde, 0x42, 0x30]),
        (EncKind::Utf32Be, &[0, 0, 0, 0x41, 0x00, 0x01, 0xf6, 0x00]),
        (EncKind::EucJp, &[0x8f, 0xa2, 0xaf, 0xa4, 0xa2, 0x41, 0x8e, 0xb1]),
        (EncKind::Big5, &[0xa4, 0xa4, 0x41, 0xad, 0x61]),
        (EncKind::Ascii, b"abc"),
    ];
    for (k, hay) in cases {
        let e = Encoding::new(k);
        let mut bounds = vec![0usize];
        let mut i = 0;
        while i < hay.len() {
            i += e.mbc_len(&hay[i..]).unwrap();
            bounds.push(i);
        }
        for w in bounds.windows(2) {
            assert_eq!(e.prev_char_start(hay, 0, w[1]), Some(w[0]), "{} {}", e.name(), w[1]);
        }
    }
}

#[test]
fn law_case_fold_ascii_idempotent() {
    let inputs: [&[u8]; 6] = [b"A", b"z", &[0xc3, 0x84], &[0x82], &[0xc0, 0x80], &[0xe3, 0x81, 0x82]];
    for k in [EncKind::Utf8, EncKind::Ascii, EncKind::Iso8859(1), EncKind::Koi8R] {
        let e = Encoding::new(k);
        for p in inputs {
            for ascii_only in [true, false] {
                if !ascii_only && e.is_unicode() {
                    continue;
                }
                let mut once = [0u8; 4];
                if let Ok(n) = e.case_fold(ascii_only, p, &mut once) {
                    let mut twice = [0u8; 4];
                    assert_eq!(e.case_fold(ascii_only, &once[..n], &mut twice), Ok(n));
                    assert_eq!(&twice[..n], &once[..n]);
                }
            }
        }
    }
}
