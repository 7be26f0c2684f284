//! What a run is configured with, and the header that identifies its user
//! to the remote service.

use vstd::prelude::*;
use vstd::string::StringExecFns;
use crate::census::{PAGE_SIZE, clone_names};
use crate::error::ConfigurationError;
use crate::rate::{DEFAULT_RATE, RateGate, effective_rate_spec, spacing_spec};
use crate::scan::{ScanModel, ScanRules, Scanner};

verus! {

/// Cap that is used where none is configured.
pub const DEFAULT_ENDOCAP: u64 = 25;

/// Number of nations that a scan collects where none is configured.
pub const DEFAULT_TARGET: usize = 20;

/// What stands in the identifying header before the user's identifier.
pub open spec fn tool_label() -> Seq<char> {
    "Endocap violator endorsers, developed by nation=UPC, used by "@
}

/// Region that is searched where none is configured.
pub open spec fn default_region() -> Seq<char> {
    "europeia"@
}

/// Whether a header value may hold `c`: every character but the control
/// characters, of which the tab alone is let in.
pub open spec fn header_char(c: char) -> bool {
    (c as u32 >= 32 && c as u32 != 127) || c as u32 == 9
}

/// Whether `text` can be the value of a header.
pub open spec fn header_text(text: Seq<char>) -> bool {
    forall|i: int| 0 <= i < text.len() ==> header_char(#[trigger] text[i])
}

/// Calls `reqwest::header::HeaderValue::from_str` and says whether it took
/// `text`. It goes through the bytes of `text` and refuses it at the first
/// byte below 32 other than the tab, or equal to 127. A character above 127
/// is written in bytes above 127, so the same holds character by character.
#[verifier::external_body]
fn header_value_accepts(text: &str) -> (accepted: bool)
    ensures
        accepted == header_text(text@),
{
    reqwest::header::HeaderValue::from_str(text).is_ok()
}

/// The header that identifies the user: the tool's label followed by
/// `identifier`. An empty identifier is refused as missing, one that no
/// header value can hold as malformed.
pub fn identifying_header(identifier: &str) -> (header: Result<String, ConfigurationError>)
    ensures
        identifier@.len() == 0 ==> header == Err::<String, ConfigurationError>(
            ConfigurationError::MissingIdentifier,
        ),
        identifier@.len() > 0 && !header_text(identifier@) ==> header == Err::<
            String,
            ConfigurationError,
        >(ConfigurationError::MalformedIdentifier),
        identifier@.len() > 0 && header_text(identifier@) ==> header is Ok && header->Ok_0@
            == tool_label() + identifier@,
{
    if identifier.is_empty() {
        Err(ConfigurationError::MissingIdentifier)
    } else if !header_value_accepts(identifier) {
        Err(ConfigurationError::MalformedIdentifier)
    } else {
        let label = String::from_str(
            "Endocap violator endorsers, developed by nation=UPC, used by ",
        );
        Ok(label.concat(identifier))
    }
}

/// What a run is configured with.
#[derive(Clone, Debug, PartialEq, Eq)]
pub struct Config {
    /// Who runs the tool; goes into the identifying header.
    pub identifier: String,
    /// Requests per window that were asked for.
    pub rate_limit: u64,
    /// A nation is over the cap when its score is greater than this.
    pub endocap: u64,
    /// The region that is searched.
    pub region: String,
    /// Nations that may exceed the cap.
    pub ignore: Vec<String>,
    /// Number of nations over the cap that are looked for.
    pub target: usize,
}

impl Config {
    /// The configuration of `identifier` with every other setting at its
    /// default.
    pub fn new(identifier: String) -> (config: Config)
        ensures
            config.identifier@ == identifier@,
            config.rate_limit == DEFAULT_RATE,
            config.endocap == DEFAULT_ENDOCAP,
            config.region@ == default_region(),
            config.ignore.deep_view() == Seq::<Seq<char>>::empty(),
            config.target == DEFAULT_TARGET,
    {
        let ignore: Vec<String> = Vec::new();
        assert(ignore.deep_view() =~= Seq::<Seq<char>>::empty());
        Config {
            identifier,
            rate_limit: DEFAULT_RATE,
            endocap: DEFAULT_ENDOCAP,
            region: String::from_str("europeia"),
            ignore,
            target: DEFAULT_TARGET,
        }
    }

    /// The identifying header of this configuration, or why the
    /// configuration is refused. To be asked for before any request is made.
    pub fn user_agent(&self) -> (header: Result<String, ConfigurationError>)
        ensures
            self.identifier@.len() == 0 ==> header == Err::<String, ConfigurationError>(
                ConfigurationError::MissingIdentifier,
            ),
            self.identifier@.len() > 0 && !header_text(self.identifier@) ==> header == Err::<
                String,
                ConfigurationError,
            >(ConfigurationError::MalformedIdentifier),
            self.identifier@.len() > 0 && header_text(self.identifier@) ==> header is Ok
                && header->Ok_0@ == tool_label() + self.identifier@,
    {
        identifying_header(self.identifier.as_str())
    }

    /// A gate for the configured rate that has granted no permit yet.
    pub fn gate(&self) -> (gate: RateGate)
        ensures
            gate@.spacing == spacing_spec(effective_rate_spec(self.rate_limit)),
            gate@.last is None,
    {
        RateGate::new(self.rate_limit)
    }

    /// A scan for the configured cap, target and exemptions that has read
    /// nothing yet.
    pub fn scanner(&self) -> (scanner: Scanner)
        ensures
            scanner@ == ScanModel::start(
                ScanRules {
                    endocap: self.endocap,
                    target: self.target as nat,
                    page_size: PAGE_SIZE as nat,
                    ignore: self.ignore.deep_view().to_set(),
                },
            ),
    {
        Scanner::new(self.endocap, clone_names(&self.ignore), self.target, PAGE_SIZE)
    }
}

} // verus!
