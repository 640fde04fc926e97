use std::io::Write;
use yomitan::deinflect::{transformer, Deinflector, Language, Rule};
use yomitan::import::{import_zip, ImportConfig, ImportLimits};
use yomitan::lookup::{lookup_kanji, snap_to_char_boundary, LookupService};
use yomitan::store::Store;
use yomitan::text::str_to_chars;

fn build_zip(entries: &[(&str, &[u8])]) -> Vec<u8> {
    let cursor = std::io::Cursor::new(Vec::new());
    let mut writer = zip::ZipWriter::new(cursor);
    let options = zip::write::SimpleFileOptions::default();
    for (name, data) in entries {
        writer.start_file(name.to_string(), options).expect("start entry");
        writer.write_all(data).expect("write entry");
    }
    writer.finish().expect("finish archive").into_inner()
}

fn import(store: &mut Store, entries: &[(&str, &[u8])]) {
    let limits = ImportLimits::default();
    let cfg = ImportConfig { compress_payloads: false, extract_media: true };
    import_zip(store, &limits, &cfg, &build_zip(entries)).expect("imports");
}

fn japanese() -> LookupService {
    LookupService::new(Language::Japanese, Deinflector::from_rules(Vec::new()))
}

#[test]
fn minimal_lookup_returns_one_entry() {
    let mut store = Store::new();
    import(
        &mut store,
        &[
            ("index.json", br#"{"format":3,"title":"Test","revision":"1"}"#),
            (
                "term_bank_1.json",
                "[[\"猫\",\"ねこ\",\"n\",null,100,[\"cat\"],0,\"common\"]]".as_bytes(),
            ),
        ],
    );
    let svc = japanese();
    let results = svc.search(&store, "猫", 0);
    assert_eq!(results.len(), 1);
    assert_eq!(results[0].span_chars_end, 1);
    assert_eq!(results[0].frequency, 100);
    assert_eq!(results[0].term, "猫");
    assert_eq!(results[0].record.reading.as_deref(), Some("ねこ"));
}

#[test]
fn results_sorted_by_span_priority_frequency() {
    let mut store = Store::new();
    import(
        &mut store,
        &[
            ("index.json", br#"{"format":3,"title":"One","revision":"1"}"#),
            (
                "term_bank_1.json",
                "[[\"ねこ\",\"\",\"\",null,10,[\"cat\"],0,\"\"],[\"ね\",\"\",\"\",null,500,[\"root\"],0,\"\"],[\"ねこ\",\"\",\"\",null,90,[\"feline\"],0,\"\"]]"
                    .as_bytes(),
            ),
        ],
    );
    let svc = japanese();
    let results = svc.search(&store, "ねこです", 0);
    assert_eq!(results.len(), 3);
    // Longest span first; within the same span larger frequency first.
    assert_eq!(results[0].span_chars_end, 2);
    assert_eq!(results[0].frequency, 90);
    assert_eq!(results[1].span_chars_end, 2);
    assert_eq!(results[1].frequency, 10);
    assert_eq!(results[2].span_chars_end, 1);
    assert_eq!(results[2].frequency, 500);
}

#[test]
fn equal_keys_keep_their_bank_order() {
    let mut store = Store::new();
    import(
        &mut store,
        &[
            ("index.json", br#"{"format":3,"title":"Stable","revision":"1"}"#),
            (
                "term_bank_1.json",
                "[[\"ねこ\",\"\",\"\",null,7,[\"first\"],0,\"\"],[\"ねこ\",\"\",\"\",null,7,[\"second\"],0,\"\"]]"
                    .as_bytes(),
            ),
        ],
    );
    let svc = japanese();
    let results = svc.search(&store, "ねこ", 0);
    assert_eq!(results.len(), 2);
    // Same span, priority and frequency: the rows keep their bank order.
    assert_eq!(results[0].record.content, vec!["\"first\"".to_string()]);
    assert_eq!(results[1].record.content, vec!["\"second\"".to_string()]);
}

#[test]
fn disabled_dictionary_is_filtered() {
    let mut store = Store::new();
    import(
        &mut store,
        &[
            ("index.json", br#"{"format":3,"title":"Flip","revision":"1"}"#),
            ("term_bank_1.json", "[[\"ねこ\",\"\",\"\",null,1,[\"cat\"],0,\"\"]]".as_bytes()),
        ],
    );
    let id = store.dictionaries[0].id;
    let svc = japanese();
    assert_eq!(svc.search(&store, "ねこ", 0).len(), 1);
    assert!(store.set_dictionary_enabled(id, false));
    assert_eq!(svc.search(&store, "ねこ", 0).len(), 0);
}

#[test]
fn priority_orders_dictionaries() {
    let mut store = Store::new();
    import(
        &mut store,
        &[
            ("index.json", br#"{"format":3,"title":"A","revision":"1"}"#),
            ("term_bank_1.json", "[[\"ねこ\",\"\",\"\",null,1,[\"a\"],0,\"\"]]".as_bytes()),
        ],
    );
    import(
        &mut store,
        &[
            ("index.json", br#"{"format":3,"title":"B","revision":"1"}"#),
            ("term_bank_1.json", "[[\"ねこ\",\"\",\"\",null,999,[\"b\"],0,\"\"]]".as_bytes()),
        ],
    );
    let id_a = store.dictionaries[0].id;
    let id_b = store.dictionaries[1].id;
    assert!(store.set_dictionary_priority(id_a, 5));
    assert!(store.set_dictionary_priority(id_b, 1));
    let svc = japanese();
    let results = svc.search(&store, "ねこ", 0);
    assert_eq!(results.len(), 2);
    // Dictionary B has the smaller priority integer and wins the tie on span.
    assert_eq!(results[0].source, id_b);
    assert_eq!(results[1].source, id_a);
}

#[test]
fn katakana_query_matches_hiragana_entry() {
    let mut store = Store::new();
    import(
        &mut store,
        &[
            ("index.json", br#"{"format":3,"title":"Kana","revision":"1"}"#),
            ("term_bank_1.json", "[[\"ねこ\",\"\",\"\",null,1,[\"cat\"],0,\"\"]]".as_bytes()),
        ],
    );
    let svc = japanese();
    let results = svc.search(&store, "ネコ", 0);
    assert_eq!(results.len(), 1);
    assert_eq!(results[0].term, "ねこ");
}

#[test]
fn latin_lowercase_variant_matches() {
    let mut store = Store::new();
    import(
        &mut store,
        &[
            ("index.json", br#"{"format":3,"title":"En","revision":"1"}"#),
            ("term_bank_1.json", br#"[["cat","","",null,1,["animal"],0,""]]"#),
        ],
    );
    let svc = LookupService::new(Language::English, Deinflector::from_rules(Vec::new()));
    let results = svc.search(&store, "CAT", 0);
    assert_eq!(results.len(), 1);
    assert_eq!(results[0].term, "cat");
}

#[test]
fn single_letter_latin_prefixes_are_skipped_except_a_and_i() {
    let mut store = Store::new();
    import(
        &mut store,
        &[
            ("index.json", br#"{"format":3,"title":"En2","revision":"1"}"#),
            (
                "term_bank_1.json",
                br#"[["x","","",null,1,["letter"],0,""],["a","","",null,1,["article"],0,""]]"#,
            ),
        ],
    );
    let svc = LookupService::new(Language::English, Deinflector::from_rules(Vec::new()));
    assert_eq!(svc.search(&store, "x", 0).len(), 0);
    assert_eq!(svc.search(&store, "a", 0).len(), 1);
}

#[test]
fn deinflection_respects_kanji_filter() {
    let mut store = Store::new();
    import(
        &mut store,
        &[
            ("index.json", br#"{"format":3,"title":"Verb","revision":"1"}"#),
            ("term_bank_1.json", "[[\"食べる\",\"\",\"\",null,1,[\"eat\"],0,\"\"]]".as_bytes()),
        ],
    );
    let rules = vec![Rule {
        suffix: true,
        from: "た".to_string(),
        to: "る".to_string(),
        cond_in: 0,
        cond_out: 0,
    }];
    let svc = LookupService::new(Language::Japanese, Deinflector::from_rules(rules));
    let results = svc.search(&store, "食べた", 0);
    assert_eq!(results.len(), 1);
    assert_eq!(results[0].term, "食べる");
    assert_eq!(results[0].span_chars_end, 3);
}

#[test]
fn candidate_set_contains_the_input_substring() {
    let svc = LookupService::new(Language::French, transformer());
    let sub = str_to_chars("chats");
    let cands = svc.generate_candidates(&sub);
    assert_eq!(cands[0], "chats");
    assert!(cands.iter().any(|c| c == "chat"));
}

#[test]
fn cursor_snaps_down_at_multibyte_boundaries() {
    let text = "a猫b";
    // Bytes: 'a' at 0, the three bytes of 猫 at 1..4, 'b' at 4.
    assert_eq!(snap_to_char_boundary(text, 0), 0);
    assert_eq!(snap_to_char_boundary(text, 1), 1);
    assert_eq!(snap_to_char_boundary(text, 2), 1);
    assert_eq!(snap_to_char_boundary(text, 3), 1);
    assert_eq!(snap_to_char_boundary(text, 4), 4);
    assert_eq!(snap_to_char_boundary(text, 5), 5);
    assert_eq!(snap_to_char_boundary(text, 99), 5);
}

#[test]
fn cursor_past_end_returns_no_entries() {
    let mut store = Store::new();
    import(
        &mut store,
        &[
            ("index.json", br#"{"format":3,"title":"End","revision":"1"}"#),
            ("term_bank_1.json", "[[\"ねこ\",\"\",\"\",null,1,[\"cat\"],0,\"\"]]".as_bytes()),
        ],
    );
    let svc = japanese();
    assert_eq!(svc.search(&store, "ねこ", 600).len(), 0);
}

#[test]
fn compressed_payloads_read_back_through_lookup() {
    let mut store = Store::new();
    let limits = ImportLimits::default();
    let cfg = ImportConfig { compress_payloads: true, extract_media: true };
    let archive = build_zip(&[
        ("index.json", br#"{"format":3,"title":"Zipped","revision":"1"}"#),
        (
            "term_bank_1.json",
            "[[\"猫\",\"ねこ\",\"n\",null,100,[\"cat\"],0,\"common\"]]".as_bytes(),
        ),
    ]);
    import_zip(&mut store, &limits, &cfg, &archive).expect("imports");
    // The stored bytes are compressed, so they do not open with the magic.
    assert_ne!(&store.terms[0].payload[0..4], b"MGB1");
    let svc = japanese();
    let results = svc.search(&store, "猫", 0);
    assert_eq!(results.len(), 1);
    assert_eq!(results[0].frequency, 100);
    assert_eq!(results[0].record.content, vec!["\"cat\"".to_string()]);
}

#[test]
fn kanji_lookup_joins_meta_and_sorts() {
    let mut store = Store::new();
    import(
        &mut store,
        &[
            ("index.json", br#"{"format":3,"title":"K","revision":"1"}"#),
            (
                "kanji_bank_1.json",
                "[[\"猫\",\"ビョウ\",\"ねこ\",\"jouyou\",[\"cat\"],{}],[\"犬\",\"ケン\",\"いぬ\",\"jouyou\",[\"dog\"],{}]]"
                    .as_bytes(),
            ),
            (
                "kanji_meta_bank_1.json",
                "[[\"猫\",\"freq\",200],[\"犬\",\"freq\",50]]".as_bytes(),
            ),
        ],
    );
    let results = lookup_kanji(&store, "猫犬", 0);
    assert_eq!(results.len(), 2);
    // Ascending by numeric frequency: 犬 (50) before 猫 (200).
    assert_eq!(results[0].character, '犬');
    assert_eq!(results[0].freq_key, 50);
    assert_eq!(results[1].character, '猫');
    assert_eq!(results[1].meanings, vec!["cat".to_string()]);
    assert_eq!(results[1].onyomi, vec!["ビョウ".to_string()]);
}
