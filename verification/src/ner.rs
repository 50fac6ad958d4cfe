//! Named-entity-recognition provider selection: the configuration, its
//! errors, the no-op provider and the `open` factory.
use vstd::prelude::*;

verus! {

/// NER provider selection, read from the `[ner]` section of `config.toml`
/// (`provider = "rule"`, the default, or `provider = "none"`, here `Disabled`).
#[derive(Debug, Clone, Copy, PartialEq, Eq, Structural)]
pub enum NerConfig {
    /// Capitalized-phrase heuristic. Zero dependencies. Default.
    Rule,
    /// Suppress all entity extraction. No entity nodes are emitted.
    Disabled,
}

impl Default for NerConfig {
    /// The rule-based provider.
    fn default() -> (c: Self)
        ensures
            c == NerConfig::Rule,
    {
        NerConfig::Rule
    }
}

/// Error returned by NER provider operations.
#[derive(Debug, PartialEq, Eq)]
pub enum NerError {
    /// The requested NER provider is not compiled in or cannot be loaded.
    NotAvailable(String),
    /// The NER provider configuration is invalid.
    Config(String),
}

/// The human-readable text of a NER error.
pub open spec fn ner_error_text(e: NerError) -> Seq<char> {
    match e {
        NerError::NotAvailable(d) => "NER provider not available: "@ + d@,
        NerError::Config(d) => "NER provider configuration error: "@ + d@,
    }
}

impl NerError {
    /// The error's message, as it is shown to users.
    pub fn message(&self) -> (m: String)
        ensures
            m@ == ner_error_text(*self),
    {
        match self {
            NerError::NotAvailable(d) => {
                let mut m = String::from_str("NER provider not available: ");
                m.append(d.as_str());
                m
            },
            NerError::Config(d) => {
                let mut m = String::from_str("NER provider configuration error: ");
                m.append(d.as_str());
                m
            },
        }
    }
}

/// A provider that never emits any entities. Useful when entity extraction
/// should be suppressed (code files, config files, structured data where
/// the capitalized-phrase heuristic would only produce noise).
#[derive(Debug, Default, Clone, Copy, PartialEq, Eq, Structural)]
pub struct NullNer;

impl NullNer {
    /// Extracts nothing: the result is always empty, whatever the text.
    pub fn extract<E>(&self, text: &str) -> (entities: Vec<E>)
        ensures
            entities@.len() == 0,
    {
        Vec::new()
    }

    /// The provider's identifier, `"null"`.
    pub fn provider_id(&self) -> (id: &'static str)
        ensures
            id@ == "null"@,
    {
        "null"
    }
}

/// The provider that a configuration selects.
#[derive(Debug, Clone, Copy, PartialEq, Eq, Structural)]
pub enum NerBackend {
    /// The capitalized-phrase heuristic provider.
    Rule,
    /// The no-op provider.
    Null(NullNer),
}

/// The provider that `cfg` selects.
pub open spec fn backend_for(cfg: NerConfig) -> NerBackend {
    match cfg {
        NerConfig::Rule => NerBackend::Rule,
        NerConfig::Disabled => NerBackend::Null(NullNer),
    }
}

/// Opens the provider that `cfg` selects. Neither `Rule` nor `Disabled` can
/// fail.
pub fn open(cfg: &NerConfig) -> (r: Result<NerBackend, NerError>)
    ensures
        r == Ok::<NerBackend, NerError>(backend_for(*cfg)),
        *cfg == NerConfig::Rule ==> r == Ok::<NerBackend, NerError>(NerBackend::Rule),
        *cfg == NerConfig::Disabled ==> r == Ok::<NerBackend, NerError>(NerBackend::Null(NullNer)),
{
    match cfg {
        NerConfig::Rule => Ok(NerBackend::Rule),
        NerConfig::Disabled => Ok(NerBackend::Null(NullNer)),
    }
}

} // verus!
