use game_analyzer::{
    is_whitespace_char, Analyzer, AnalyzerConfig, GamePrototype, IoError, StringMap,
    VulnerabilityDB,
};

fn s(x: &str) -> String {
    x.to_string()
}

fn config() -> AnalyzerConfig {
    AnalyzerConfig {
        game_prototype_path: s("path/to/game/prototype"),
        vulnerability_db_path: s("path/to/vulnerability/db"),
        rules: vec![s("vulnerability1"), s("vulnerability2")],
    }
}

fn prototype(pairs: &[(&str, &str)]) -> GamePrototype {
    let mut game_data = StringMap::new();
    for (k, v) in pairs {
        game_data.insert(s(k), s(v));
    }
    GamePrototype {
        id: 1,
        name: s("Example Game"),
        description: s("This is an example game"),
        game_data,
    }
}

fn analyzer(db: &str) -> Analyzer {
    match Analyzer::init(config(), Ok(s(db))) {
        Ok(a) => a,
        Err(_) => panic!("init failed on a readable source"),
    }
}

fn lookup(db: &VulnerabilityDB, key: &str) -> Option<String> {
    db.get(&s(key)).cloned()
}

#[test]
fn parse_keeps_only_two_token_lines() {
    let db = VulnerabilityDB::parse("k1 v1\nbadline\nk2 v2 extra\nk3 v3");
    assert_eq!(db.len(), 2);
    assert_eq!(lookup(&db, "k1"), Some(s("v1")));
    assert_eq!(lookup(&db, "k3"), Some(s("v3")));
    assert_eq!(lookup(&db, "k2"), None);
    assert_eq!(lookup(&db, "badline"), None);
}

#[test]
fn parse_last_write_wins() {
    let db = VulnerabilityDB::parse("k1 v1\nk1 v2");
    assert_eq!(db.len(), 1);
    assert_eq!(lookup(&db, "k1"), Some(s("v2")));
}

#[test]
fn parse_empty_source() {
    let db = VulnerabilityDB::parse("");
    assert_eq!(db.len(), 0);
    assert!(!db.contains_key(&s("")));
}

#[test]
fn parse_whitespace_runs_and_line_endings() {
    let db = VulnerabilityDB::parse("  a \t  b  \r\n\n\nc\u{3000}d\r\ne f\n");
    assert_eq!(db.len(), 3);
    assert_eq!(lookup(&db, "a"), Some(s("b")));
    assert_eq!(lookup(&db, "c"), Some(s("d")));
    assert_eq!(lookup(&db, "e"), Some(s("f")));
}

#[test]
fn parse_lines_split_only_at_newline() {
    let db = VulnerabilityDB::parse("x y\r z w");
    assert_eq!(db.len(), 0);
    let db = VulnerabilityDB::parse("x\ny");
    assert_eq!(db.len(), 0);
}

#[test]
fn parse_unicode_tokens() {
    let db = VulnerabilityDB::parse("clé\u{a0}valeur\nβ γ");
    assert_eq!(lookup(&db, "clé"), Some(s("valeur")));
    assert_eq!(lookup(&db, "β"), Some(s("γ")));
}

#[test]
fn whitespace_classes() {
    for c in [' ', '\t', '\n', '\r', '\u{b}', '\u{c}', '\u{85}', '\u{a0}', '\u{1680}', '\u{2000}', '\u{200a}', '\u{2028}', '\u{2029}', '\u{202f}', '\u{205f}', '\u{3000}'] {
        assert!(is_whitespace_char(c));
        assert!(c.is_whitespace());
    }
    for c in ['a', '0', '_', '\u{200b}', '\u{feff}', '\u{0}', '\u{1f}'] {
        assert!(!is_whitespace_char(c));
        assert!(!c.is_whitespace());
    }
}

#[test]
fn scan_reports_record_value_not_description() {
    let a = analyzer("vuln1 stored_description");
    let results = a.analyze(&prototype(&[("vuln1", "anything")]));
    assert_eq!(results, vec![s("Vulnerability found: vuln1 -> anything")]);
    assert!(!results[0].contains("stored_description"));
}

#[test]
fn scan_example_from_original_program() {
    let a = analyzer("vulnerability1 buffer_overflow\nvulnerability3 leak");
    let results = a.analyze(&prototype(&[("vulnerability1", "example value")]));
    assert_eq!(results, vec![s("Vulnerability found: vulnerability1 -> example value")]);
}

#[test]
fn scan_no_false_positives() {
    let a = analyzer("k1 v1\nk2 v2");
    let results = a.analyze(&prototype(&[("other", "k1"), ("k1x", "v"), ("K1", "v")]));
    assert!(results.is_empty());
}

#[test]
fn scan_empty_record() {
    let a = analyzer("k1 v1");
    assert!(a.analyze(&prototype(&[])).is_empty());
}

#[test]
fn scan_several_matches_in_attribute_order() {
    let a = analyzer("a 1\nb 2\nc 3");
    let results = a.analyze(&prototype(&[("c", "x"), ("z", "y"), ("a", "w")]));
    assert_eq!(results, vec![s("Vulnerability found: c -> x"), s("Vulnerability found: a -> w")]);
}

#[test]
fn scan_twice_gives_same_results() {
    let a = analyzer("a 1\nb 2");
    let record = prototype(&[("a", "p"), ("b", "q"), ("c", "r")]);
    let first = a.analyze(&record);
    let second = a.analyze(&record);
    assert_eq!(first, second);
    assert_eq!(first.len(), 2);
}

#[test]
fn scans_of_different_records_do_not_interfere() {
    let a = analyzer("a 1\nb 2");
    let r1 = prototype(&[("a", "one")]);
    let r2 = prototype(&[("b", "two"), ("a", "three")]);
    let alone1 = a.analyze(&r1);
    let alone2 = a.analyze(&r2);
    let again2 = a.analyze(&r2);
    let again1 = a.analyze(&r1);
    assert_eq!(alone1, again1);
    assert_eq!(alone2, again2);
    assert_eq!(alone1, vec![s("Vulnerability found: a -> one")]);
    assert_eq!(alone2, vec![s("Vulnerability found: b -> two"), s("Vulnerability found: a -> three")]);
}

#[test]
fn init_propagates_read_failure() {
    let r = Analyzer::init(config(), Err(IoError { message: s("no such file") }));
    match r {
        Ok(_) => panic!("an analyzer was built from a failed read"),
        Err(e) => assert_eq!(e.message, "no such file"),
    }
}

#[test]
fn init_keeps_config_and_table() {
    let a = analyzer("k1 v1\nk2 v2");
    assert_eq!(a.config().vulnerability_db_path, "path/to/vulnerability/db");
    assert_eq!(a.config().rules.len(), 2);
    assert_eq!(a.vulnerability_db().len(), 2);
    assert_eq!(lookup(a.vulnerability_db(), "k2"), Some(s("v2")));
}

#[test]
fn string_map_insert_replaces() {
    let mut m = StringMap::new();
    assert_eq!(m.len(), 0);
    m.insert(s("a"), s("1"));
    m.insert(s("b"), s("2"));
    m.insert(s("a"), s("3"));
    assert_eq!(m.len(), 2);
    assert_eq!(m.get(&s("a")), Some(&s("3")));
    assert!(m.contains_key(&s("b")));
    assert!(!m.contains_key(&s("c")));
    assert_eq!(m.entries(), &vec![(s("a"), s("3")), (s("b"), s("2"))]);
}
