use xmlencread::{
    decoder_helper, detect_encoding_with_suggestion, detect_step, resolve_declaration, DetectStep,
    Encoding, EncodingError,
};

fn detect(hint: Option<&str>, source: &[u8]) -> Result<(Encoding, Vec<u8>), EncodingError> {
    detect_encoding_with_suggestion(hint.map(|h| h.to_string()), source)
}

fn utf16le(s: &str) -> Vec<u8> {
    s.encode_utf16().flat_map(|u| u.to_le_bytes()).collect()
}

fn utf16be(s: &str) -> Vec<u8> {
    s.encode_utf16().flat_map(|u| u.to_be_bytes()).collect()
}

#[test]
fn quad_table_byte_order_marks() {
    assert_eq!(Encoding::new_from_buffer(&[0xEF, 0xBB, 0xBF, 0x3C]), Ok((Encoding::Utf8(true), 3)));
    assert_eq!(Encoding::new_from_buffer(&[0xEF, 0xBB, 0xBF, 0x00]), Ok((Encoding::Utf8(true), 3)));
    assert_eq!(Encoding::new_from_buffer(&[0xFF, 0xFE, 0x3C, 0x00]), Ok((Encoding::Utf16Le(true), 2)));
    assert_eq!(Encoding::new_from_buffer(&[0xFE, 0xFF, 0x00, 0x3C]), Ok((Encoding::Utf16Be(true), 2)));
}

#[test]
fn quad_table_declaration_patterns() {
    assert_eq!(Encoding::new_from_buffer(b"<?xm"), Ok((Encoding::Utf8(false), 0)));
    assert_eq!(Encoding::new_from_buffer(&[0x3C, 0x00, 0x3F, 0x00]), Ok((Encoding::Utf16Le(true), 0)));
    assert_eq!(Encoding::new_from_buffer(&[0x00, 0x3C, 0x00, 0x3F]), Ok((Encoding::Utf16Be(true), 0)));
    assert_eq!(Encoding::new_from_buffer(b"abcd"), Ok((Encoding::Utf8(false), 0)));
    assert_eq!(Encoding::new_from_buffer(&[0xFF, 0xFE, 0x41, 0x42]), Ok((Encoding::Utf8(false), 0)));
}

#[test]
fn quad_table_unsupported_patterns() {
    for quad in [
        [0x00, 0x00, 0x00, 0x3C],
        [0x3C, 0x00, 0x00, 0x00],
        [0xFF, 0xFE, 0x00, 0x00],
        [0x00, 0x00, 0xFE, 0xFF],
        [0x41, 0x42, 0x43, 0x00],
        [0xFF, 0xFE, 0x00, 0x41],
    ] {
        assert_eq!(Encoding::new_from_buffer(&quad), Err(EncodingError::UnsupportedByteOrder));
    }
    assert_eq!(Encoding::new_from_buffer(b"<?x"), Err(EncodingError::SourceExhausted));
}

#[test]
fn bom_strips_exactly_its_width() {
    let (e, pre) = detect(None, b"\xEF\xBB\xBFhello world").unwrap();
    assert_eq!(e, Encoding::Utf8(true));
    assert_eq!(pre, b"hello ".to_vec());
    let (e, pre) = detect(None, &[0xFF, 0xFE, 0x41, 0x00, 0x42, 0x00, 0, 0, 0, 0, 0, 0, 0, 0, 9]).unwrap();
    assert_eq!(e, Encoding::Utf16Le(true));
    assert_eq!(pre, vec![0x41, 0x00, 0x42, 0x00, 0, 0, 0, 0, 0, 0, 0, 0]);
    let mut src = vec![0xFE, 0xFF];
    src.extend(utf16be("ABCDEFGH"));
    let (e, pre) = detect(None, &src).unwrap();
    assert_eq!(e, Encoding::Utf16Be(true));
    assert_eq!(pre, utf16be("ABCDEF"));
}

#[test]
fn no_bom_no_declaration_no_hint_is_ambiguous() {
    assert_eq!(detect(None, b"hello world"), Err(EncodingError::AmbiguousInput));
    assert_eq!(detect(None, b"<root/>"), Err(EncodingError::AmbiguousInput));
    assert_eq!(detect(None, b"<?xmlx version"), Err(EncodingError::AmbiguousInput));
}

#[test]
fn hint_resolves_undeclared_text() {
    let (e, pre) = detect(Some("UTF-8"), b"hello world").unwrap();
    assert_eq!(e, Encoding::Utf8(true));
    assert_eq!(pre, b"hello ".to_vec());
    assert_eq!(detect(Some("utf-16be"), b"hello world").unwrap().0, Encoding::Utf16Be(true));
}

#[test]
fn hint_outside_the_decode_targets_fails() {
    assert_eq!(
        detect(Some("latin1"), b"hello world"),
        Err(EncodingError::UnsupportedEncoding("windows-1252".to_string()))
    );
    assert_eq!(
        detect(Some("nonsense"), b"hello world"),
        Err(EncodingError::UnsupportedEncoding("nonsense".to_string()))
    );
}

#[test]
fn short_source_is_exhausted() {
    assert_eq!(detect(None, b"<?x"), Err(EncodingError::SourceExhausted));
    assert_eq!(detect(Some("utf-8"), b"<?xm"), Err(EncodingError::SourceExhausted));
    assert_eq!(detect(None, b"<?xml version=\"1.0\""), Err(EncodingError::SourceExhausted));
}

#[test]
fn declaration_without_encoding_keeps_the_guess() {
    let src = b"<?xml version=\"1.0\"?><a/>";
    let (e, pre) = detect(None, src).unwrap();
    assert_eq!(e, Encoding::Utf8(false));
    assert_eq!(pre, b"<?xml version=\"1.0\"?>".to_vec());
}

#[test]
fn declared_encoding_wins_without_bom() {
    let src = [
        0x3C, 0x3F, 0x78, 0x6D, 0x6C, 0x20, 0x76, 0x65, 0x72, 0x73, 0x69, 0x6F, 0x6E, 0x3D, 0x22,
        0x31, 0x2E, 0x30, 0x22, 0x20, 0x65, 0x6E, 0x63, 0x6F, 0x64, 0x69, 0x6E, 0x67, 0x3D, 0x22,
        0x69, 0x73, 0x6F, 0x2D, 0x38, 0x38, 0x35, 0x39, 0x2D, 0x31, 0x22, 0x3F, 0x3E,
    ];
    let (e, pre) = detect(None, &src).unwrap();
    assert_eq!(e, Encoding::Declared("iso-8859-1".to_string()));
    assert_eq!(e.get_name(), "iso-8859-1");
    assert!(!e.is_definitive());
    assert_eq!(pre, src.to_vec());
}

#[test]
fn bom_conflicting_with_declaration_fails() {
    let mut src = vec![0xFF, 0xFE];
    src.extend(utf16le("<?xml version=\"1.0\" encoding=\"utf-8\"?><a/>"));
    assert_eq!(
        detect(None, &src),
        Err(EncodingError::EncodingConflict {
            detected: "utf-16le".to_string(),
            declared: "utf-8".to_string()
        })
    );
}

#[test]
fn bom_agreeing_with_declaration_succeeds() {
    let mut src = vec![0xFF, 0xFE];
    let decl = "<?xml version='1.0' encoding='UTF-16'?>";
    src.extend(utf16le(decl));
    src.extend(utf16le("<a/>"));
    let (e, pre) = detect(None, &src).unwrap();
    assert_eq!(e, Encoding::Utf16Le(true));
    assert_eq!(pre, utf16le(decl));
}

#[test]
fn utf16_pattern_with_other_declared_encoding_conflicts() {
    let src = utf16be("<?xml version=\"1.0\" encoding=\"UTF-16\"?>");
    assert_eq!(
        detect(None, &src),
        Err(EncodingError::EncodingConflict {
            detected: "utf-16be".to_string(),
            declared: "UTF-16".to_string()
        })
    );
}

#[test]
fn declaration_past_the_cap_is_malformed() {
    let mut text = "<?xml ".to_string();
    text.push_str(&"a".repeat(300));
    assert_eq!(detect(None, text.as_bytes()), Err(EncodingError::MalformedDeclaration));
    let mut text = "<?xml ".to_string();
    text.push_str(&"a".repeat(250));
    assert_eq!(detect(None, text.as_bytes()), Err(EncodingError::SourceExhausted));
    text.push('b');
    assert_eq!(detect(None, text.as_bytes()), Err(EncodingError::MalformedDeclaration));
}

#[test]
fn declaration_closing_at_the_cap_is_read() {
    let mut text = "<?xml ".to_string();
    text.push_str(&" ".repeat(248));
    text.push_str("?>");
    assert_eq!(text.chars().count(), 256);
    let (e, pre) = detect(None, text.as_bytes()).unwrap();
    assert_eq!(e, Encoding::Utf8(false));
    assert_eq!(pre, text.as_bytes().to_vec());
}

#[test]
fn unquoted_or_unterminated_value_is_malformed() {
    for src in [
        "<?xml version=\"1.0\" encoding=utf-8?>",
        "<?xml version=\"1.0\" encoding=\"utf-8?>",
        "<?xml version=\"1.0\" encoding=\"utf 8\"?>",
        "<?xml version=\"1.0\" encoding= ?>",
        "<?xml version=\"1.0\" encoding\t?>",
    ] {
        assert_eq!(detect(None, src.as_bytes()), Err(EncodingError::MalformedDeclaration), "{}", src);
    }
}

#[test]
fn keyword_joined_to_other_text_is_no_encoding_token() {
    let (e, _) = detect(None, b"<?xml version=\"1.0\" encoding?>").unwrap();
    assert_eq!(e, Encoding::Utf8(false));
}

#[test]
fn encoding_token_may_stand_apart_from_its_value() {
    let (e, _) = detect(None, b"<?xml version='1.0'  encoding = 'KOI8-R' ?>").unwrap();
    assert_eq!(e, Encoding::Declared("KOI8-R".to_string()));
}

#[test]
fn malformed_declaration_bytes_fail_detection() {
    let mut src = utf16le("<?xml ");
    src.extend_from_slice(&[0x00, 0xD8]);
    src.extend(utf16le("?>"));
    assert_eq!(
        detect(None, &src),
        Err(EncodingError::MalformedInput { bytes: vec![0x00, 0xD8], position: 12 })
    );
}

#[test]
fn detect_step_asks_for_what_it_needs() {
    assert!(matches!(detect_step(&None, &[]), DetectStep::NeedMore(4)));
    assert!(matches!(detect_step(&None, b"<?"), DetectStep::NeedMore(2)));
    assert!(matches!(detect_step(&None, b"<?xm"), DetectStep::NeedMore(2)));
    assert!(matches!(detect_step(&None, b"\xEF\xBB\xBF<"), DetectStep::NeedMore(5)));
    assert!(matches!(detect_step(&None, &[0x3C, 0, 0x3F, 0]), DetectStep::NeedMore(8)));
    assert!(matches!(detect_step(&None, &[0xFF, 0xFE, 0x3C, 0]), DetectStep::NeedMore(10)));
    assert!(matches!(detect_step(&None, b"<?xml v"), DetectStep::NeedMore(1)));
    assert!(matches!(detect_step(&None, &utf16le("<?xml v")), DetectStep::NeedMore(2)));
    assert!(matches!(detect_step(&None, &utf16le("<?xml v")[..13]), DetectStep::NeedMore(1)));
}

#[test]
fn detect_step_settles_with_extra_bytes_read() {
    match detect_step(&None, b"\xEF\xBB\xBFplain text and more") {
        DetectStep::Found(e, bom) => {
            assert_eq!(e, Encoding::Utf8(true));
            assert_eq!(bom, 3);
        }
        _ => panic!("expected a result"),
    }
}

#[test]
fn resolve_declaration_cases() {
    let decl: Vec<char> = "<?xml version=\"1.0\" encoding=\"windows-1251\"?>".chars().collect();
    assert!(matches!(
        resolve_declaration(&Encoding::Utf8(false), 0, &decl),
        DetectStep::Found(Encoding::Declared(ref n), 0) if n == "windows-1251"
    ));
    assert!(matches!(
        resolve_declaration(&Encoding::Utf8(true), 3, &decl),
        DetectStep::Failed(EncodingError::EncodingConflict { .. })
    ));
    let plain: Vec<char> = "<?xml version=\"1.0\"?>".chars().collect();
    assert!(matches!(
        resolve_declaration(&Encoding::Utf16Be(true), 2, &plain),
        DetectStep::Found(Encoding::Utf16Be(true), 2)
    ));
    let unknown: Vec<char> = "<?xml encoding=\"klingon\"?>".chars().collect();
    assert!(matches!(
        resolve_declaration(&Encoding::Utf16Le(true), 0, &unknown),
        DetectStep::Failed(EncodingError::UnsupportedEncoding(ref n)) if n == "klingon"
    ));
}

#[test]
fn names_widths_and_flags() {
    assert_eq!(Encoding::Ascii(true).get_name(), "ascii");
    assert_eq!(Encoding::Utf8(false).get_name(), "utf-8");
    assert_eq!(Encoding::Utf16Le(true).get_name(), "utf-16le");
    assert_eq!(Encoding::Utf16Be(false).get_name(), "utf-16be");
    assert_eq!(Encoding::Ascii(false).get_char_width(), 1);
    assert_eq!(Encoding::Utf8(true).get_char_width(), 1);
    assert_eq!(Encoding::Utf16Le(true).get_char_width(), 2);
    assert_eq!(Encoding::Utf16Be(false).get_char_width(), 2);
    assert_eq!(Encoding::Declared("koi8-r".to_string()).get_char_width(), 1);
    assert!(Encoding::Utf8(true).is_definitive());
    assert!(!Encoding::Utf16Le(false).is_definitive());
    assert!(!Encoding::Declared("utf-8".to_string()).is_definitive());
}

#[test]
fn new_from_name_resolves_labels() {
    assert_eq!(Encoding::new_from_name("UTF-8", false), Ok(Encoding::Utf8(false)));
    assert_eq!(Encoding::new_from_name(" utf8 ", true), Ok(Encoding::Utf8(true)));
    assert_eq!(Encoding::new_from_name("utf-16", true), Ok(Encoding::Utf16Le(true)));
    assert_eq!(Encoding::new_from_name("UTF-16BE", false), Ok(Encoding::Utf16Be(false)));
    assert_eq!(
        Encoding::new_from_name("shift_jis", true),
        Err(EncodingError::UnsupportedEncoding("shift_jis".to_string()))
    );
    assert_eq!(Encoding::new_from_name("ascii", true), Ok(Encoding::Ascii(true)));
    assert_eq!(Encoding::new_from_name(" ASCII\t", false), Ok(Encoding::Ascii(false)));
    assert_eq!(
        Encoding::new_from_name("us-ascii", true),
        Err(EncodingError::UnsupportedEncoding("windows-1252".to_string()))
    );
    assert_eq!(
        Encoding::new_from_name("replacement", true),
        Err(EncodingError::UnsupportedEncoding("replacement".to_string()))
    );
}

#[test]
fn new_from_name_gives_back_every_decode_target() {
    for e in [
        Encoding::Ascii(true),
        Encoding::Ascii(false),
        Encoding::Utf8(true),
        Encoding::Utf8(false),
        Encoding::Utf16Le(true),
        Encoding::Utf16Le(false),
        Encoding::Utf16Be(true),
        Encoding::Utf16Be(false),
    ] {
        assert_eq!(Encoding::new_from_name(&e.get_name(), e.is_definitive()), Ok(e.clone()));
    }
}

#[test]
fn hint_ascii_resolves_to_ascii() {
    let (e, _) = detect(Some("ascii"), b"plain text").unwrap();
    assert_eq!(e, Encoding::Ascii(true));
}

#[test]
fn compatibility_rule() {
    assert_eq!(Encoding::Utf8(false).encoding_decl_is_compatible("utf-8"), Ok(true));
    assert_eq!(Encoding::Utf8(false).encoding_decl_is_compatible("latin1"), Ok(true));
    assert_eq!(Encoding::Ascii(false).encoding_decl_is_compatible("koi8-u"), Ok(true));
    assert_eq!(Encoding::Utf8(false).encoding_decl_is_compatible("shift_jis"), Ok(false));
    assert_eq!(Encoding::Utf8(true).encoding_decl_is_compatible("latin1"), Ok(false));
    assert_eq!(Encoding::Utf16Le(true).encoding_decl_is_compatible("utf-16"), Ok(true));
    assert_eq!(Encoding::Utf16Be(true).encoding_decl_is_compatible("utf-16"), Ok(false));
    assert_eq!(
        Encoding::Utf16Le(false).encoding_decl_is_compatible("latin1"),
        Err(EncodingError::UndecidableCompatibility {
            detected: "utf-16le".to_string(),
            declared: "windows-1252".to_string()
        })
    );
    assert_eq!(
        Encoding::Utf8(true).encoding_decl_is_compatible("bogus"),
        Err(EncodingError::UnsupportedEncoding("bogus".to_string()))
    );
}

#[test]
fn decoder_helper_decodes_incrementally() {
    let mut decoder = Encoding::Utf8(true).get_decoder().unwrap();
    assert_eq!(decoder_helper(&mut decoder, &[b'a', 0xC3]).unwrap(), "a");
    assert_eq!(decoder_helper(&mut decoder, &[0xA9]).unwrap(), "\u{e9}");
    assert_eq!(decoder_helper(&mut decoder, b"").unwrap(), "");
    match decoder_helper(&mut decoder, &[0xFF]) {
        Err(EncodingError::MalformedInput { bytes, .. }) => assert_eq!(bytes, vec![0xFF]),
        other => panic!("unexpected {:?}", other),
    }
}

#[test]
fn get_decoder_needs_a_known_name() {
    assert!(Encoding::Utf16Be(true).get_decoder().is_ok());
    assert!(Encoding::Declared("iso-8859-2".to_string()).get_decoder().is_ok());
    assert_eq!(
        Encoding::Declared("bogus".to_string()).get_decoder().err(),
        Some(EncodingError::UnsupportedEncoding("bogus".to_string()))
    );
}
