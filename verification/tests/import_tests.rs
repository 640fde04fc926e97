use std::io::Write;
use yomitan::import::{import_zip, ImportConfig, ImportError, ImportLimits};
use yomitan::store::Store;

fn build_zip(entries: &[(&str, &[u8])]) -> Vec<u8> {
    let cursor = std::io::Cursor::new(Vec::new());
    let mut writer = zip::ZipWriter::new(cursor);
    let options = zip::write::SimpleFileOptions::default();
    for (name, data) in entries {
        writer.start_file(name.to_string(), options).expect("start entry");
        writer.write_all(data).expect("write entry");
    }
    writer.finish().expect("finish archive").into_inner()
}

fn minimal_archive() -> Vec<u8> {
    build_zip(&[
        ("index.json", br#"{"format":3,"title":"Test","revision":"1"}"#),
        (
            "term_bank_1.json",
            "[[\"猫\",\"ねこ\",\"n\",null,100,[\"cat\"],0,\"common\"]]".as_bytes(),
        ),
    ])
}

fn config() -> ImportConfig {
    ImportConfig { compress_payloads: false, extract_media: true }
}

#[test]
fn minimal_v3_import() {
    let mut store = Store::new();
    let limits = ImportLimits::default();
    let outcome = import_zip(&mut store, &limits, &config(), &minimal_archive()).expect("imports");
    assert_eq!(outcome.dictionary_name, "Test");
    assert_eq!(store.dictionaries.len(), 1);
    assert_eq!(store.terms.len(), 1);
    assert_eq!(store.terms[0].term, "猫");
    assert_eq!(&store.terms[0].payload[0..4], b"MGB1");
}

#[test]
fn committed_import_inserts_exactly_one_dictionary_row() {
    let mut store = Store::new();
    let limits = ImportLimits::default();
    let before = store.dictionaries.len();
    import_zip(&mut store, &limits, &config(), &minimal_archive()).expect("imports");
    assert_eq!(store.dictionaries.len(), before + 1);
}

#[test]
fn duplicate_name_rejected() {
    let mut store = Store::new();
    let limits = ImportLimits::default();
    import_zip(&mut store, &limits, &config(), &minimal_archive()).expect("first import");
    let err = match import_zip(&mut store, &limits, &config(), &minimal_archive()) {
        Err(e) => e,
        Ok(_) => panic!("second import fails"),
    };
    assert!(matches!(err, ImportError::DuplicateName));
    assert_eq!(store.dictionaries.len(), 1);
}

#[test]
fn case_insensitive_trimmed_duplicate_rejected() {
    let mut store = Store::new();
    let limits = ImportLimits::default();
    import_zip(&mut store, &limits, &config(), &minimal_archive()).expect("first import");
    let second = build_zip(&[(
        "index.json",
        br#"{"format":3,"title":"  TEST ","revision":"2"}"#,
    )]);
    let err = match import_zip(&mut store, &limits, &config(), &second) {
        Err(e) => e,
        Ok(_) => panic!("duplicate"),
    };
    assert!(matches!(err, ImportError::DuplicateName));
}

#[test]
fn non_v3_rejected() {
    let mut store = Store::new();
    let limits = ImportLimits::default();
    let archive = build_zip(&[
        ("index.json", br#"{"format":2,"title":"Old"}"#),
        ("term_bank_1.json", b"[]"),
    ]);
    let err = match import_zip(&mut store, &limits, &config(), &archive) {
        Err(e) => e,
        Ok(_) => panic!("rejected"),
    };
    assert!(err.message().contains("Unsupported dictionary format version"));
    assert_eq!(store.dictionaries.len(), 0);
}

#[test]
fn archive_at_limit_succeeds_one_byte_over_fails() {
    let archive = minimal_archive();
    let mut limits = ImportLimits::default();
    limits.max_archive_bytes = archive.len() as u64;
    let mut store = Store::new();
    import_zip(&mut store, &limits, &config(), &archive).expect("at the limit succeeds");

    let mut store2 = Store::new();
    limits.max_archive_bytes = (archive.len() - 1) as u64;
    let err = match import_zip(&mut store2, &limits, &config(), &archive) {
        Err(e) => e,
        Ok(_) => panic!("over the limit"),
    };
    assert!(matches!(err, ImportError::InputTooLarge));
    assert!(err.message().contains("Archive is too large"));
    assert_eq!(store2.dictionaries.len(), 0);
}

#[test]
fn truncated_term_bank_rolls_back() {
    let mut bank = "[[\"猫\",\"ねこ\",\"n\",null,100,[\"cat\"],0,\"common\"]]".as_bytes().to_vec();
    bank.pop();
    let archive = build_zip(&[
        ("index.json", br#"{"format":3,"title":"Test","revision":"1"}"#),
        ("term_bank_1.json", &bank),
    ]);
    let mut store = Store::new();
    let limits = ImportLimits::default();
    let err = match import_zip(&mut store, &limits, &config(), &archive) {
        Err(e) => e,
        Ok(_) => panic!("parse error"),
    };
    assert!(matches!(err, ImportError::ParseError));
    assert_eq!(store.dictionaries.len(), 0);
    assert_eq!(store.terms.len(), 0);
    assert_eq!(store.kanji.len(), 0);
    assert_eq!(store.kanji_meta.len(), 0);
}

#[test]
fn escape_repair_reaches_stored_content() {
    let bank = br#"[["word","","",null,1,["broken \u and \x escape"],0,""]]"#;
    let archive = build_zip(&[
        ("index.json", br#"{"format":3,"title":"Esc","revision":"1"}"#),
        ("term_bank_1.json", bank),
    ]);
    let mut store = Store::new();
    let limits = ImportLimits::default();
    import_zip(&mut store, &limits, &config(), &archive).expect("imports");
    assert_eq!(store.terms.len(), 1);
    let payload = yomitan::codec::decode_payload(&store.terms[0].payload).expect("decodes");
    let content = &payload.content[0];
    assert!(content.contains('\u{FFFD}'));
    assert!(content.contains("\\x"));
}

#[test]
fn missing_index_rejected() {
    let archive = build_zip(&[("term_bank_1.json", b"[]".as_slice())]);
    let mut store = Store::new();
    let limits = ImportLimits::default();
    let err = match import_zip(&mut store, &limits, &config(), &archive) {
        Err(e) => e,
        Ok(_) => panic!("no index"),
    };
    assert!(matches!(err, ImportError::MissingIndex));
}

#[test]
fn not_an_archive_rejected() {
    let mut store = Store::new();
    let limits = ImportLimits::default();
    let err = match import_zip(&mut store, &limits, &config(), b"this is not a zip") {
        Err(e) => e,
        Ok(_) => panic!("not a zip"),
    };
    assert!(matches!(err, ImportError::NotAnArchive));
}

#[test]
fn term_record_bound_enforced() {
    let archive = minimal_archive();
    let mut limits = ImportLimits::default();
    limits.max_term_records = 0;
    let mut store = Store::new();
    let err = match import_zip(&mut store, &limits, &config(), &archive) {
        Err(e) => e,
        Ok(_) => panic!("too many terms"),
    };
    assert!(matches!(err, ImportError::TooManyTerms));
    assert_eq!(store.terms.len(), 0);
}

#[test]
fn media_and_styles_are_planned() {
    let archive = build_zip(&[
        ("index.json", br#"{"format":3,"title":"Media","revision":"1"}"#),
        ("term_bank_1.json", b"[]"),
        ("styles.css", b".x { color: red }"),
        ("img/pic.png", b"\x89PNGdata"),
        ("../evil.bin", b"nope"),
    ]);
    let mut store = Store::new();
    let limits = ImportLimits::default();
    let outcome = import_zip(&mut store, &limits, &config(), &archive).expect("imports");
    assert_eq!(outcome.media.len(), 1);
    assert_eq!(outcome.media[0].path, "img/pic.png");
    assert_eq!(outcome.media[0].data, b"\x89PNGdata");
    assert!(!outcome.keep_archive);
    assert_eq!(store.dictionaries[0].styles.as_deref(), Some(".x { color: red }"));
}

#[test]
fn inner_dots_in_media_names_are_safe() {
    let archive = build_zip(&[
        ("index.json", br#"{"format":3,"title":"Dots","revision":"1"}"#),
        ("img/a..b.png", b"data"),
        ("img/../up.png", b"nope"),
    ]);
    let mut store = Store::new();
    let limits = ImportLimits::default();
    let outcome = import_zip(&mut store, &limits, &config(), &archive).expect("imports");
    // A name holding `..` inside a component is safe; a `..` component is not.
    assert_eq!(outcome.media.len(), 1);
    assert_eq!(outcome.media[0].path, "img/a..b.png");
}

#[test]
fn skipped_media_keeps_archive() {
    let archive = build_zip(&[
        ("index.json", br#"{"format":3,"title":"Media2","revision":"1"}"#),
        ("img/pic.png", b"\x89PNGdata"),
    ]);
    let mut store = Store::new();
    let limits = ImportLimits::default();
    let cfg = ImportConfig { compress_payloads: false, extract_media: false };
    let outcome = import_zip(&mut store, &limits, &cfg, &archive).expect("imports");
    assert!(outcome.media.is_empty());
    assert!(outcome.keep_archive);
}

#[test]
fn meta_and_kanji_banks_import() {
    let archive = build_zip(&[
        ("index.json", br#"{"format":3,"title":"Meta","revision":"1"}"#),
        (
            "term_meta_bank_1.json",
            "[[\"猫\",\"freq\",12],[\"犬\",\"pitch\",{\"reading\":\"いぬ\",\"pitches\":[{\"position\":1}]}]]"
                .as_bytes(),
        ),
        (
            "kanji_bank_1.json",
            "[[\"猫\",\"ビョウ\",\"ねこ\",\"jouyou\",[\"cat\"],{\"grade\":\"8\"}]]".as_bytes(),
        ),
        ("kanji_meta_bank_1.json", "[[\"猫\",\"freq\",77]]".as_bytes()),
    ]);
    let mut store = Store::new();
    let limits = ImportLimits::default();
    import_zip(&mut store, &limits, &config(), &archive).expect("imports");
    // Two term-meta records plus one synthetic kanji frequency record.
    assert_eq!(store.terms.len(), 3);
    assert_eq!(store.kanji.len(), 1);
    assert_eq!(store.kanji_meta.len(), 1);
    assert_eq!(store.kanji[0].character, '猫');
    assert_eq!(store.kanji[0].meanings, vec!["cat".to_string()]);
    assert_eq!(store.kanji_meta[0].freq_value, Some(77));
    let freq_row = &store.terms[0];
    assert_eq!(freq_row.term, "猫");
    let payload = yomitan::codec::decode_payload(&freq_row.payload).expect("decodes");
    assert_eq!(payload.content[0], "\"Frequency: 12\"");
    assert_eq!(payload.popularity, 12);
}
