//! Operator configuration: the tier table and the knobs the decision table reads.

use crate::error::{Error, ErrorModel};
use crate::number::Real32;
use crate::text::{is_blank, opt_str, opt_text};
use vstd::prelude::*;
use vstd::string::*;

verus! {

/// Default classifier confidence below which a document is not split: the bit pattern of 0.6.
pub const DEFAULT_MIN_CONFIDENCE: u32 = 0x3f19_999a;

/// Default size ceiling above which a document bypasses classification (50 MiB).
pub const DEFAULT_MAX_DOCUMENT_BYTES: u64 = 50 * 1024 * 1024;

/// Default host-side document fetch timeout, in seconds: the bit pattern of 20.
pub const DEFAULT_FETCH_TIMEOUT_SECONDS: u32 = 0x41a0_0000;

/// Where a page or a document can go.
#[derive(Clone, Copy, Debug, PartialEq, Eq, Hash, Structural)]
pub enum Tier {
    /// The in-process text-layer extractor.
    Local,
    /// The standard OCR model group.
    Standard,
    /// The premium OCR model group.
    Premium,
}

impl Tier {
    /// The wire string for this tier.
    pub open spec fn text(self) -> Seq<char> {
        match self {
            Tier::Local => "local"@,
            Tier::Standard => "standard"@,
            Tier::Premium => "premium"@,
        }
    }

    /// The wire string for this tier (`"local"`, `"standard"`, `"premium"`).
    pub fn as_str(self) -> (r: &'static str)
        ensures
            r@ == self.text(),
    {
        match self {
            Tier::Local => "local",
            Tier::Standard => "standard",
            Tier::Premium => "premium",
        }
    }
}

/// Tiers an OCR leg may use. `Local` is excluded on purpose: a page that needs OCR is
/// exactly the page the local extractor cannot read.
#[derive(Clone, Copy, Debug, PartialEq, Eq, Hash, Structural)]
pub enum OcrTier {
    /// The standard OCR model group.
    Standard,
    /// The premium OCR model group.
    Premium,
}

impl OcrTier {
    /// The corresponding [`Tier`].
    pub open spec fn spec_tier(self) -> Tier {
        match self {
            OcrTier::Standard => Tier::Standard,
            OcrTier::Premium => Tier::Premium,
        }
    }

    /// The corresponding [`Tier`].
    #[verifier::when_used_as_spec(spec_tier)]
    pub fn tier(self) -> (r: Tier)
        ensures
            r == self.tier(),
    {
        match self {
            OcrTier::Standard => Tier::Standard,
            OcrTier::Premium => Tier::Premium,
        }
    }

    /// The wire string for this tier.
    pub fn as_str(self) -> (r: &'static str)
        ensures
            r@ == self.tier().text(),
    {
        self.tier().as_str()
    }
}

impl From<OcrTier> for Tier {
    fn from(value: OcrTier) -> (r: Tier) {
        value.tier()
    }
}

impl vstd::std_specs::convert::FromSpecImpl<OcrTier> for Tier {
    open spec fn obeys_from_spec() -> bool {
        true
    }

    open spec fn from_spec(value: OcrTier) -> Tier {
        value.tier()
    }
}

/// Model groups backing each tier. `local` and `standard` are required.
#[derive(Debug, PartialEq, Eq)]
pub struct Tiers {
    /// The in-process extractor deployment, e.g. `local_pdf/extract`.
    pub local: String,
    /// The standard OCR model group.
    pub standard: String,
    /// The premium OCR model group, when one is configured.
    pub premium: Option<String>,
}

/// A [`Tiers`] with its names as character sequences.
pub ghost struct TiersModel {
    pub local: Seq<char>,
    pub standard: Seq<char>,
    pub premium: Option<Seq<char>>,
}

impl View for Tiers {
    type V = TiersModel;

    open spec fn view(&self) -> TiersModel {
        TiersModel {
            local: self.local@,
            standard: self.standard@,
            premium: opt_text(self.premium),
        }
    }
}

impl TiersModel {
    /// The model group configured for `tier`.
    pub open spec fn model_for(self, tier: Tier) -> Option<Seq<char>> {
        match tier {
            Tier::Local => Some(self.local),
            Tier::Standard => Some(self.standard),
            Tier::Premium => self.premium,
        }
    }
}

impl Tiers {
    /// Build a tier table without a premium tier.
    pub fn new(local: &str, standard: &str) -> (r: Self)
        ensures
            r@ == (TiersModel { local: local@, standard: standard@, premium: None }),
    {
        Tiers { local: local.to_owned(), standard: standard.to_owned(), premium: None }
    }

    /// The same table with a premium tier configured.
    #[must_use]
    pub fn with_premium(self, premium: &str) -> (r: Self)
        ensures
            r@ == (TiersModel {
                local: self@.local,
                standard: self@.standard,
                premium: Some(premium@),
            }),
    {
        Tiers { local: self.local, standard: self.standard, premium: Some(premium.to_owned()) }
    }

    /// The model group configured for `tier`, or `None` when it is not configured.
    pub fn model_for(&self, tier: Tier) -> (r: Option<&str>)
        ensures
            opt_str(r) == self@.model_for(tier),
    {
        match tier {
            Tier::Local => Some(self.local.as_str()),
            Tier::Standard => Some(self.standard.as_str()),
            Tier::Premium => match &self.premium {
                Some(model) => Some(model.as_str()),
                None => None,
            },
        }
    }
}

impl Clone for Tiers {
    fn clone(&self) -> (r: Self)
        ensures
            r@ == self@,
    {
        Tiers {
            local: self.local.clone(),
            standard: self.standard.clone(),
            premium: crate::text::clone_opt_text(&self.premium),
        }
    }
}

/// The configuration block of a router deployment.
#[derive(Debug, PartialEq)]
pub struct Config {
    /// Model groups backing each tier.
    pub tiers: Tiers,
    /// Classifier confidence below which the whole document goes to `standard` untouched.
    pub min_confidence: Real32,
    /// Tier used for the OCR leg when the classifier flags a complex layout.
    pub complex_layout_tier: OcrTier,
    /// Documents larger than this bypass to the default model instead of being classified.
    pub max_document_bytes: u64,
    /// Timeout for fetching a document from a URL, in seconds. Host-only knob, kept here so
    /// one block serves both the host and this library.
    pub fetch_timeout_seconds: Real32,
    /// `false` = never split a mixed document; it goes to the OCR tier whole.
    pub split_pages: bool,
}

/// A [`Config`] with its names as character sequences.
pub ghost struct ConfigModel {
    pub tiers: TiersModel,
    pub min_confidence: Real32,
    pub complex_layout_tier: OcrTier,
    pub max_document_bytes: u64,
    pub fetch_timeout_seconds: Real32,
    pub split_pages: bool,
}

impl View for Config {
    type V = ConfigModel;

    open spec fn view(&self) -> ConfigModel {
        ConfigModel {
            tiers: self.tiers@,
            min_confidence: self.min_confidence,
            complex_layout_tier: self.complex_layout_tier,
            max_document_bytes: self.max_document_bytes,
            fetch_timeout_seconds: self.fetch_timeout_seconds,
            split_pages: self.split_pages,
        }
    }
}

impl ConfigModel {
    /// Every knob at its default, backed by `tiers`.
    pub open spec fn defaults(tiers: TiersModel) -> ConfigModel {
        ConfigModel {
            tiers,
            min_confidence: Real32 { bits: DEFAULT_MIN_CONFIDENCE },
            complex_layout_tier: OcrTier::Premium,
            max_document_bytes: DEFAULT_MAX_DOCUMENT_BYTES,
            fetch_timeout_seconds: Real32 { bits: DEFAULT_FETCH_TIMEOUT_SECONDS },
            split_pages: true,
        }
    }

    /// What is wrong with the block, or `None` when it is usable. `confidence` and `timeout`
    /// are the two numbers as they print. The first fault in field order is the one reported.
    pub open spec fn fault(self, confidence: Seq<char>, timeout: Seq<char>) -> Option<Seq<char>> {
        if crate::text::blank(self.tiers.local) {
            Some("tiers.local must not be empty"@)
        } else if crate::text::blank(self.tiers.standard) {
            Some("tiers.standard must not be empty"@)
        } else if self.tiers.premium is Some && crate::text::blank(self.tiers.premium->0) {
            Some("tiers.premium must not be empty when set"@)
        } else if !self.min_confidence.in_unit_interval() {
            Some("min_confidence must be between 0.0 and 1.0, got "@ + confidence)
        } else if self.max_document_bytes == 0 {
            Some("max_document_bytes must be greater than 0"@)
        } else if !self.fetch_timeout_seconds.positive() {
            Some("fetch_timeout_seconds must be greater than 0, got "@ + timeout)
        } else {
            None
        }
    }

    /// The tier a complex layout goes to: premium only when a premium model is configured.
    pub open spec fn resolved_complex_layout_tier(self) -> OcrTier {
        if self.complex_layout_tier == OcrTier::Premium && self.tiers.premium is None {
            OcrTier::Standard
        } else {
            self.complex_layout_tier
        }
    }
}

/// The default of `min_confidence`.
pub fn default_min_confidence() -> (r: Real32)
    ensures
        r == (Real32 { bits: DEFAULT_MIN_CONFIDENCE }),
{
    Real32 { bits: DEFAULT_MIN_CONFIDENCE }
}

/// The default of `complex_layout_tier`.
pub fn default_complex_layout_tier() -> (r: OcrTier)
    ensures
        r == OcrTier::Premium,
{
    OcrTier::Premium
}

/// The default of `max_document_bytes`.
pub fn default_max_document_bytes() -> (r: u64)
    ensures
        r == 52_428_800,
{
    DEFAULT_MAX_DOCUMENT_BYTES
}

/// The default of `fetch_timeout_seconds`.
pub fn default_fetch_timeout_seconds() -> (r: Real32)
    ensures
        r == (Real32 { bits: DEFAULT_FETCH_TIMEOUT_SECONDS }),
{
    Real32 { bits: DEFAULT_FETCH_TIMEOUT_SECONDS }
}

/// The default of `split_pages`.
pub fn default_split_pages() -> (r: bool)
    ensures
        r,
{
    true
}

impl Config {
    /// A config with every knob at its default, backed by `tiers`.
    pub fn new(tiers: Tiers) -> (r: Self)
        ensures
            r@ == ConfigModel::defaults(tiers@),
    {
        Config {
            tiers,
            min_confidence: default_min_confidence(),
            complex_layout_tier: default_complex_layout_tier(),
            max_document_bytes: DEFAULT_MAX_DOCUMENT_BYTES,
            fetch_timeout_seconds: default_fetch_timeout_seconds(),
            split_pages: default_split_pages(),
        }
    }

    /// Check every range and reject empty model names.
    ///
    /// `min_confidence` and `fetch_timeout_seconds` are the two fields as they print: the
    /// message names the offending value in those words.
    pub fn validate(&self, min_confidence: &str, fetch_timeout_seconds: &str) -> (r: Result<
        (),
        Error,
    >)
        ensures
            match self@.fault(min_confidence@, fetch_timeout_seconds@) {
                None => r is Ok,
                Some(fault) => r is Err && r->Err_0@ == ErrorModel::InvalidConfig(fault),
            },
    {
        if is_blank(self.tiers.local.as_str()) {
            return Err(Error::InvalidConfig("tiers.local must not be empty".to_owned()));
        }
        if is_blank(self.tiers.standard.as_str()) {
            return Err(Error::InvalidConfig("tiers.standard must not be empty".to_owned()));
        }
        if let Some(premium) = &self.tiers.premium {
            if is_blank(premium.as_str()) {
                return Err(
                    Error::InvalidConfig("tiers.premium must not be empty when set".to_owned()),
                );
            }
        }
        if !self.min_confidence.is_in_unit_interval() {
            return Err(
                Error::InvalidConfig(
                    "min_confidence must be between 0.0 and 1.0, got ".to_owned().concat(
                        min_confidence,
                    ),
                ),
            );
        }
        if self.max_document_bytes == 0 {
            return Err(
                Error::InvalidConfig("max_document_bytes must be greater than 0".to_owned()),
            );
        }
        if !self.fetch_timeout_seconds.is_positive() {
            return Err(
                Error::InvalidConfig(
                    "fetch_timeout_seconds must be greater than 0, got ".to_owned().concat(
                        fetch_timeout_seconds,
                    ),
                ),
            );
        }
        Ok(())
    }

    /// `complex_layout_tier`, downgraded to `standard` when premium is not configured.
    pub fn resolved_complex_layout_tier(&self) -> (r: OcrTier)
        ensures
            r == self@.resolved_complex_layout_tier(),
    {
        if self.complex_layout_tier == OcrTier::Premium && self.tiers.premium.is_none() {
            OcrTier::Standard
        } else {
            self.complex_layout_tier
        }
    }

    /// The model group for `tier`, or `None` when that tier is not configured.
    pub fn model_for(&self, tier: Tier) -> (r: Option<&str>)
        ensures
            opt_str(r) == self@.tiers.model_for(tier),
    {
        self.tiers.model_for(tier)
    }

    /// The model group for `tier`, as an error when the tier is unconfigured.
    pub fn model_for_tier(&self, tier: Tier) -> (r: Result<&str, Error>)
        ensures
            match self@.tiers.model_for(tier) {
                Some(model) => r is Ok && r->Ok_0@ == model,
                None => r is Err && r->Err_0@ == ErrorModel::InvalidConfig(
                    "no model configured for tier "@ + tier.text(),
                ),
            },
    {
        match self.model_for(tier) {
            Some(model) => Ok(model),
            None => Err(
                Error::InvalidConfig(
                    "no model configured for tier ".to_owned().concat(tier.as_str()),
                ),
            ),
        }
    }
}

impl Clone for Config {
    fn clone(&self) -> (r: Self)
        ensures
            r@ == self@,
    {
        Config {
            tiers: self.tiers.clone(),
            min_confidence: self.min_confidence,
            complex_layout_tier: self.complex_layout_tier,
            max_document_bytes: self.max_document_bytes,
            fetch_timeout_seconds: self.fetch_timeout_seconds,
            split_pages: self.split_pages,
        }
    }
}

/// The tier a complex layout resolves to always has a model behind it.
pub proof fn resolved_tier_is_configured(config: ConfigModel)
    ensures
        config.tiers.model_for(config.resolved_complex_layout_tier().tier()) is Some,
{
}

/// The default block is valid as soon as its two required names are not blank.
pub proof fn defaults_are_valid(tiers: TiersModel, confidence: Seq<char>, timeout: Seq<char>)
    requires
        !crate::text::blank(tiers.local),
        !crate::text::blank(tiers.standard),
        tiers.premium is Some ==> !crate::text::blank(tiers.premium->0),
    ensures
        ConfigModel::defaults(tiers).fault(confidence, timeout) is None,
{
}

/// A configuration is valid exactly when every model name in it has a character that is not
/// whitespace, the least confidence lies between 0 and 1, documents may have a byte, and the
/// fetch timeout is a finite time.
pub proof fn which_configurations_are_valid(
    config: ConfigModel,
    confidence: Seq<char>,
    timeout: Seq<char>,
)
    ensures
        config.fault(confidence, timeout) is None <==> {
            &&& exists|i: int|
                0 <= i < config.tiers.local.len() && !crate::text::is_space(
                    #[trigger] config.tiers.local[i],
                )
            &&& exists|i: int|
                0 <= i < config.tiers.standard.len() && !crate::text::is_space(
                    #[trigger] config.tiers.standard[i],
                )
            &&& config.tiers.premium is Some ==> exists|i: int|
                0 <= i < config.tiers.premium->0.len() && !crate::text::is_space(
                    #[trigger] config.tiers.premium->0[i],
                )
            &&& config.min_confidence.bits <= 0x3f80_0000 || config.min_confidence.bits
                == 0x8000_0000
            &&& config.max_document_bytes > 0
            &&& 0 < config.fetch_timeout_seconds.bits < 0x7f80_0000
        },
{
}

/// The default block: a least confidence of 0.6, premium for complex layouts, 50 MiB, 20 seconds,
/// and splitting on.
pub proof fn what_the_defaults_are(tiers: TiersModel)
    ensures
        ConfigModel::defaults(tiers).tiers == tiers,
        ConfigModel::defaults(tiers).min_confidence.bits == 0x3f19_999a,
        ConfigModel::defaults(tiers).complex_layout_tier == OcrTier::Premium,
        ConfigModel::defaults(tiers).max_document_bytes == 52_428_800,
        ConfigModel::defaults(tiers).fetch_timeout_seconds.bits == 0x41a0_0000,
        ConfigModel::defaults(tiers).split_pages,
{
}

/// A complex layout goes where it is configured to go, but for a premium tier that has no model:
/// then it goes to the standard tier.
pub proof fn where_complex_layouts_go(config: ConfigModel)
    ensures
        config.resolved_complex_layout_tier() == OcrTier::Premium <==> config.complex_layout_tier
            == OcrTier::Premium && config.tiers.premium is Some,
        config.tiers.model_for(Tier::Local) == Some(config.tiers.local),
        config.tiers.model_for(Tier::Standard) == Some(config.tiers.standard),
        config.tiers.model_for(Tier::Premium) == config.tiers.premium,
        OcrTier::Premium.tier() == Tier::Premium,
        OcrTier::Standard.tier() == Tier::Standard,
{
}

/// A list of tiers and a configuration hold what they are made of: the two models, no premium one
/// until it is given, and the defaults beside the tiers.
pub proof fn tiers_hold_what_they_are_made_of(
    local: &str,
    standard: &str,
    premium: &str,
    made: Tiers,
    more: Tiers,
)
    requires
        call_ensures(Tiers::new, (local, standard), made),
        call_ensures(Tiers::with_premium, (made, premium), more),
    ensures
        made@.local == local@,
        made@.standard == standard@,
        made@.premium is None,
        more@.local == local@,
        more@.standard == standard@,
        more@.premium == Some(premium@),
        made@.model_for(Tier::Local) == Some(local@),
        made@.model_for(Tier::Standard) == Some(standard@),
        made@.model_for(Tier::Premium) is None,
        more@.model_for(Tier::Premium) == Some(premium@),
{
}

/// The model of a tier is given exactly where one is configured, and otherwise the tier is named
/// as the fault.
pub proof fn a_tier_without_a_model_is_a_fault(cfg: &Config, tier: Tier, found: Result<&str, Error>)
    requires
        call_ensures(Config::model_for_tier, (cfg, tier), found),
    ensures
        found is Err <==> tier == Tier::Premium && cfg@.tiers.premium is None,
        tier == Tier::Local ==> found is Ok && found->Ok_0@ == cfg@.tiers.local,
        tier == Tier::Standard ==> found is Ok && found->Ok_0@ == cfg@.tiers.standard,
        tier == Tier::Premium && found is Ok ==> Some(found->Ok_0@) == cfg@.tiers.premium,
        found is Err ==> found->Err_0@ == ErrorModel::InvalidConfig(
            "no model configured for tier "@ + "premium"@,
        ),
{
}

/// Which fault of a configuration is reported: the first in field order, in words that name the
/// field, with the number where it is one.
pub proof fn which_fault_is_reported(config: ConfigModel, confidence: Seq<char>, timeout: Seq<char>)
    ensures
        ({
            let fault = config.fault(confidence, timeout);
            let local = crate::text::blank(config.tiers.local);
            let standard = crate::text::blank(config.tiers.standard);
            let premium = config.tiers.premium is Some && crate::text::blank(
                config.tiers.premium->0,
            );
            let sure = config.min_confidence.bits <= 0x3f80_0000 || config.min_confidence.bits
                == 0x8000_0000;
            let named = !local && !standard && !premium;
            &&& local ==> fault == Some("tiers.local must not be empty"@)
            &&& !local && standard ==> fault == Some("tiers.standard must not be empty"@)
            &&& !local && !standard && premium ==> fault == Some(
                "tiers.premium must not be empty when set"@,
            )
            &&& named && !sure ==> fault == Some(
                "min_confidence must be between 0.0 and 1.0, got "@ + confidence,
            )
            &&& named && sure && config.max_document_bytes == 0 ==> fault == Some(
                "max_document_bytes must be greater than 0"@,
            )
            &&& named && sure && config.max_document_bytes > 0 && !(0
                < config.fetch_timeout_seconds.bits < 0x7f80_0000) ==> fault == Some(
                "fetch_timeout_seconds must be greater than 0, got "@ + timeout,
            )
        }),
{
}

} // verus!
