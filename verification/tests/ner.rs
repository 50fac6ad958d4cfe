use mnem_global::ner::{open, NerBackend, NerConfig, NerError, NullNer};

#[test]
fn default_config_is_rule() {
    assert_eq!(NerConfig::default(), NerConfig::Rule);
}

#[test]
fn open_rule_selects_rule_provider() {
    assert_eq!(open(&NerConfig::Rule), Ok(NerBackend::Rule));
}

#[test]
fn open_disabled_selects_null_provider() {
    assert_eq!(open(&NerConfig::Disabled), Ok(NerBackend::Null(NullNer)));
}

#[test]
fn null_provider_extracts_nothing() {
    let p = NullNer;
    let found: Vec<(String, usize)> = p.extract("Alice met Bob in Berlin.");
    assert!(found.is_empty());
    let none: Vec<u8> = p.extract("");
    assert!(none.is_empty());
}

#[test]
fn null_provider_id() {
    assert_eq!(NullNer::default().provider_id(), "null");
}

#[test]
fn ner_error_messages() {
    assert_eq!(
        NerError::NotAvailable("onnx".to_string()).message(),
        "NER provider not available: onnx"
    );
    assert_eq!(
        NerError::Config("bad provider".to_string()).message(),
        "NER provider configuration error: bad provider"
    );
}
