use vstd::prelude::*;

verus! {

/// Relies on `confy::ConfyError`, the reason a configuration file could not
/// be loaded; it is only carried, never looked into.
#[verifier::external_type_specification]
#[verifier::external_body]
pub struct ExConfyError(confy::ConfyError);

/// The back end that evaluates a line.
#[derive(Debug, Clone, Copy, PartialEq, Eq, Structural)]
pub enum Engine {
    /// The built-in evaluator.
    Internal,
    /// An outside computer algebra system; not implemented.
    Maxima,
}

impl Default for Engine {
    fn default() -> (r: Engine)
        ensures
            r == Engine::Internal,
    {
        Engine::Internal
    }
}

/// The settings that a configuration file gives, once checked.
pub struct ParsedConfig {
    pub engine: Engine,
}

impl Default for ParsedConfig {
    fn default() -> (r: ParsedConfig)
        ensures
            r.engine == Engine::Internal,
    {
        ParsedConfig { engine: Engine::Internal }
    }
}

/// A failure to load the configuration.
pub enum ConfigError {
    /// The file could not be read or written.
    FailedLoading(confy::ConfyError),
    /// The engine named in the file is not one of ours.
    InvalidValue { found: String },
}

impl ConfigError {
    /// The category under which a configuration failure is reported.
    pub fn kind(&self) -> (r: String)
        ensures
            r@ == "config file error"@,
    {
        String::from_str("config file error")
    }
}

/// Whether two texts hold the same characters.
fn same_text(a: &str, b: &str) -> (r: bool)
    ensures
        r == (a@ == b@),
{
    let n = a.unicode_len();
    if n != b.unicode_len() {
        return false;
    }
    let mut i: usize = 0;
    while i < n
        invariant
            n == a@.len(),
            n == b@.len(),
            i <= n,
            forall|k: int| 0 <= k < i ==> a@[k] == b@[k],
        decreases n - i,
    {
        if a.get_char(i) != b.get_char(i) {
            return false;
        }
        i = i + 1;
    }
    assert(a@ =~= b@);
    true
}

/// The engine that a configuration value names: `internal` or `maxima`;
/// any other value is rejected and reported back.
pub fn parse_engine(value: &str) -> (r: Result<Engine, ConfigError>)
    ensures
        value@ == "internal"@ ==> r matches Ok(Engine::Internal),
        value@ == "maxima"@ ==> r matches Ok(Engine::Maxima),
        value@ != "internal"@ && value@ != "maxima"@ ==> (r matches Err(ConfigError::InvalidValue { found }) && found@ == value@),
{
    proof {
        reveal_strlit("internal");
        reveal_strlit("maxima");
        assert("internal"@[0] != "maxima"@[0]);
    }
    if same_text(value, "internal") {
        Ok(Engine::Internal)
    } else if same_text(value, "maxima") {
        Ok(Engine::Maxima)
    } else {
        Err(ConfigError::InvalidValue { found: String::from_str(value) })
    }
}

} // verus!
