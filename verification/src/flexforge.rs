//! The payment configuration panel of a host editor.
//!
//! The host shows the panel from a schema of typed fields and hands changes
//! back as pairs of a key and a value, both text. This module holds the
//! panel's configuration, describes its fields, and applies changes,
//! refusing unknown keys and values that do not parse.

use vstd::prelude::*;
use vstd::string::*;

use crate::errors::{ConfigurationError, PaymentError, PaymentResult};
use crate::text::{
    decimal_of, lemma_decimal_round_trip, parse_decimal, parse_decimal_spec, same_text,
    u64_to_decimal,
};

verus! {

/// The smallest minimum channel capacity that the schema offers to the host.
/// It is a hint for the host's control: a change is not held to it.
pub const PANEL_MIN_CAPACITY: u64 = 10_000;

/// The largest minimum channel capacity that the schema offers to the host.
/// It is a hint for the host's control: a change is not held to it.
pub const PANEL_MAX_CAPACITY: u64 = 10_000_000;

/// FlexForge payment panel configuration
#[derive(Debug)]
pub struct FlexForgePaymentConfig {
    pub lightning_enabled: bool,
    pub micropayments_enabled: bool,
    pub default_network: String,
    pub min_channel_capacity: u64,
    pub auto_channel: bool,
    pub pqc_channels: bool,
}

/// A panel configuration as a plain value.
pub ghost struct PanelView {
    pub lightning_enabled: bool,
    pub micropayments_enabled: bool,
    pub default_network: Seq<char>,
    pub min_channel_capacity: u64,
    pub auto_channel: bool,
    pub pqc_channels: bool,
}

impl View for FlexForgePaymentConfig {
    type V = PanelView;

    open spec fn view(&self) -> PanelView {
        PanelView {
            lightning_enabled: self.lightning_enabled,
            micropayments_enabled: self.micropayments_enabled,
            default_network: self.default_network@,
            min_channel_capacity: self.min_channel_capacity,
            auto_channel: self.auto_channel,
            pqc_channels: self.pqc_channels,
        }
    }
}

impl Clone for FlexForgePaymentConfig {
    fn clone(&self) -> (copy: Self)
        ensures
            copy@ == self@,
    {
        FlexForgePaymentConfig {
            lightning_enabled: self.lightning_enabled,
            micropayments_enabled: self.micropayments_enabled,
            default_network: self.default_network.clone(),
            min_channel_capacity: self.min_channel_capacity,
            auto_channel: self.auto_channel,
            pqc_channels: self.pqc_channels,
        }
    }
}

impl Default for FlexForgePaymentConfig {
    fn default() -> (config: Self)
        ensures
            config@ == PanelView::defaults(),
    {
        Self {
            lightning_enabled: true,
            micropayments_enabled: true,
            default_network: "mainnet".to_owned(),
            min_channel_capacity: 100000,
            auto_channel: false,
            pqc_channels: true,
        }
    }
}

/// What a toggle's value says, if it is `true` or `false`.
pub open spec fn parse_toggle(value: Seq<char>) -> Option<bool> {
    if value == "true"@ {
        Some(true)
    } else if value == "false"@ {
        Some(false)
    } else {
        None
    }
}

/// The text of a toggle's value.
pub open spec fn toggle_text(on: bool) -> Seq<char> {
    if on {
        "true"@
    } else {
        "false"@
    }
}

/// The networks that the schema offers to the host, in the order in which
/// they are shown. They are a hint for the host's control: the panel takes
/// any name.
pub open spec fn offered_networks() -> Seq<Seq<char>> {
    seq!["mainnet"@, "testnet"@, "regtest"@]
}

impl PanelView {
    /// The configuration that a new panel starts with.
    pub open spec fn defaults() -> PanelView {
        PanelView {
            lightning_enabled: true,
            micropayments_enabled: true,
            default_network: "mainnet"@,
            min_channel_capacity: 100000,
            auto_channel: false,
            pqc_channels: true,
        }
    }

    /// Whether every value is one that a change can set: the minimum channel
    /// capacity is strictly positive.
    pub open spec fn valid(self) -> bool {
        self.min_channel_capacity > 0
    }

    /// The configuration after the field `key` has been set to `value`, or
    /// why the change is refused: the key is unknown, a toggle is neither
    /// `true` nor `false`, or the capacity is no strictly positive number.
    /// The network is any text.
    pub open spec fn changed(self, key: Seq<char>, value: Seq<char>) -> Result<
        PanelView,
        ConfigurationError,
    > {
        if key == "lightning_enabled"@ {
            match parse_toggle(value) {
                Some(on) => Ok(PanelView { lightning_enabled: on, ..self }),
                None => Err(ConfigurationError::InvalidChoice),
            }
        } else if key == "micropayments_enabled"@ {
            match parse_toggle(value) {
                Some(on) => Ok(PanelView { micropayments_enabled: on, ..self }),
                None => Err(ConfigurationError::InvalidChoice),
            }
        } else if key == "default_network"@ {
            Ok(PanelView { default_network: value, ..self })
        } else if key == "min_channel_capacity"@ {
            match parse_decimal_spec(value) {
                Some(n) => if n > 0 {
                    Ok(PanelView { min_channel_capacity: n, ..self })
                } else {
                    Err(ConfigurationError::InvalidNumber)
                },
                None => Err(ConfigurationError::InvalidNumber),
            }
        } else if key == "auto_channel"@ {
            match parse_toggle(value) {
                Some(on) => Ok(PanelView { auto_channel: on, ..self }),
                None => Err(ConfigurationError::InvalidChoice),
            }
        } else if key == "pqc_channels"@ {
            match parse_toggle(value) {
                Some(on) => Ok(PanelView { pqc_channels: on, ..self }),
                None => Err(ConfigurationError::InvalidChoice),
            }
        } else {
            Err(ConfigurationError::UnknownKey)
        }
    }

    /// The configuration after the first `count` entries have been applied in
    /// order, or the first refusal. Entries after a refusal are not looked at.
    pub open spec fn applied(self, entries: Seq<(Seq<char>, Seq<char>)>, count: int) -> Result<
        PanelView,
        ConfigurationError,
    >
        decreases count,
    {
        if count <= 0 {
            Ok(self)
        } else {
            match self.applied(entries, count - 1) {
                Ok(so_far) => so_far.changed(entries[count - 1].0, entries[count - 1].1),
                Err(e) => Err(e),
            }
        }
    }

    /// The configuration as pairs of a key and a value, in the order of the
    /// panel's fields.
    pub open spec fn snapshot(self) -> Seq<(Seq<char>, Seq<char>)> {
        seq![
            ("lightning_enabled"@, toggle_text(self.lightning_enabled)),
            ("micropayments_enabled"@, toggle_text(self.micropayments_enabled)),
            ("default_network"@, self.default_network),
            ("min_channel_capacity"@, decimal_of(self.min_channel_capacity as nat)),
            ("auto_channel"@, toggle_text(self.auto_channel)),
            ("pqc_channels"@, toggle_text(self.pqc_channels)),
        ]
    }

    /// A change that is accepted leaves a valid configuration valid; the
    /// configuration that a new panel starts with is valid.
    pub proof fn lemma_changes_keep_valid(self, key: Seq<char>, value: Seq<char>)
        requires
            self.valid(),
        ensures
            Self::defaults().valid(),
            self.changed(key, value) matches Ok(after) ==> after.valid(),
    {
    }

    /// Applying the snapshot of a valid configuration to any configuration
    /// gives that configuration: the panel round-trips through its pairs of
    /// keys and values.
    pub proof fn lemma_snapshot_round_trip(self, other: PanelView)
        requires
            self.valid(),
        ensures
            other.applied(self.snapshot(), 6) == Ok::<PanelView, ConfigurationError>(self),
    {
        reveal_strlit("lightning_enabled");
        reveal_strlit("micropayments_enabled");
        reveal_strlit("default_network");
        reveal_strlit("min_channel_capacity");
        reveal_strlit("auto_channel");
        reveal_strlit("pqc_channels");
        reveal_strlit("true");
        reveal_strlit("false");
        lemma_decimal_round_trip(self.min_channel_capacity);
        let entries = self.snapshot();
        assert("lightning_enabled"@ != "micropayments_enabled"@) by {
            assert("lightning_enabled"@.len() != "micropayments_enabled"@.len());
        }
        let s0 = other;
        let s1 = PanelView { lightning_enabled: self.lightning_enabled, ..s0 };
        assert(s0.applied(entries, 0) == Ok::<PanelView, ConfigurationError>(s0));
        assert(s0.applied(entries, 1) == Ok::<PanelView, ConfigurationError>(s1));
        let s2 = PanelView { micropayments_enabled: self.micropayments_enabled, ..s1 };
        assert(s0.applied(entries, 2) == Ok::<PanelView, ConfigurationError>(s2));
        let s3 = PanelView { default_network: self.default_network, ..s2 };
        assert("default_network"@[0] != "lightning_enabled"@[0]);
        assert(s0.applied(entries, 3) == Ok::<PanelView, ConfigurationError>(s3));
        let s4 = PanelView { min_channel_capacity: self.min_channel_capacity, ..s3 };
        assert("min_channel_capacity"@.len() != "micropayments_enabled"@.len());
        assert(s0.applied(entries, 4) == Ok::<PanelView, ConfigurationError>(s4));
        let s5 = PanelView { auto_channel: self.auto_channel, ..s4 };
        assert("auto_channel"@[0] != "lightning_enabled"@[0]);
        assert(s0.applied(entries, 5) == Ok::<PanelView, ConfigurationError>(s5));
    }
}

/// The kind of a field of the panel, with its default.
#[derive(Debug, Clone, Copy, PartialEq, Eq, Structural)]
pub enum PanelFieldKind {
    /// A switch.
    Toggle { on_by_default: bool },
    /// A whole number; the host's control runs from `min` to `max`.
    Number { default_value: u64, min: u64, max: u64 },
    /// The name of a network; the host's control offers `offered_networks`.
    Network,
}

/// A field of the panel.
#[derive(Debug, Clone, Copy)]
pub struct PanelField {
    /// The key under which the field's value travels.
    pub key: &'static str,
    /// What the panel shows next to the field.
    pub label: &'static str,
    /// The kind of the field.
    pub kind: PanelFieldKind,
}

/// FlexForge integration for the Payment plugin
#[derive(Debug)]
pub struct PaymentFlexForgeIntegration {
    config: FlexForgePaymentConfig,
}

impl PaymentFlexForgeIntegration {
    /// The panel's configuration.
    pub closed spec fn view(&self) -> PanelView {
        self.config@
    }

    /// Create a new FlexForge integration instance
    pub fn new() -> (panel: Self)
        ensures
            panel@ == PanelView::defaults(),
    {
        Self { config: FlexForgePaymentConfig::default() }
    }

    /// A copy of the panel's configuration.
    pub fn config(&self) -> (config: FlexForgePaymentConfig)
        ensures
            config@ == self@,
    {
        self.config.clone()
    }

    /// Replaces the panel's configuration.
    pub fn set_config(&mut self, config: FlexForgePaymentConfig)
        ensures
            final(self)@ == config@,
    {
        self.config = config;
    }

    /// The identifier of the panel.
    pub fn panel_id(&self) -> (id: &'static str)
        ensures
            id@ == "payment_config"@,
    {
        "payment_config"
    }

    /// The name under which the panel is shown.
    pub fn display_name(&self) -> (name: &'static str)
        ensures
            name@ == "Payments"@,
    {
        "Payments"
    }

    /// The networks that the network field offers, in the order in which
    /// they are shown.
    pub fn network_choices(&self) -> (names: Vec<&'static str>)
        ensures
            names@.len() == offered_networks().len(),
            forall|i: int|
                0 <= i < names@.len() ==> (#[trigger] names@[i])@ == offered_networks()[i],
    {
        let mut names: Vec<&'static str> = Vec::new();
        names.push("mainnet");
        names.push("testnet");
        names.push("regtest");
        names
    }

    /// The fields of the panel, in the order in which they are shown.
    pub fn config_schema(&self) -> (fields: Vec<PanelField>)
        ensures
            fields@.len() == 6,
            fields@[0].key@ == "lightning_enabled"@,
            fields@[0].label@ == "Lightning Network"@,
            fields@[0].kind == (PanelFieldKind::Toggle { on_by_default: true }),
            fields@[1].key@ == "micropayments_enabled"@,
            fields@[1].label@ == "Micropayments"@,
            fields@[1].kind == (PanelFieldKind::Toggle { on_by_default: true }),
            fields@[2].key@ == "default_network"@,
            fields@[2].label@ == "Network"@,
            fields@[2].kind == PanelFieldKind::Network,
            fields@[3].key@ == "min_channel_capacity"@,
            fields@[3].label@ == "Min Channel (sats)"@,
            fields@[3].kind == (PanelFieldKind::Number {
                default_value: 100000,
                min: PANEL_MIN_CAPACITY,
                max: PANEL_MAX_CAPACITY,
            }),
            fields@[4].key@ == "auto_channel"@,
            fields@[4].label@ == "Auto-Channel"@,
            fields@[4].kind == (PanelFieldKind::Toggle { on_by_default: false }),
            fields@[5].key@ == "pqc_channels"@,
            fields@[5].label@ == "PQC Channels"@,
            fields@[5].kind == (PanelFieldKind::Toggle { on_by_default: true }),
    {
        let mut fields: Vec<PanelField> = Vec::new();
        fields.push(
            PanelField {
                key: "lightning_enabled",
                label: "Lightning Network",
                kind: PanelFieldKind::Toggle { on_by_default: true },
            },
        );
        fields.push(
            PanelField {
                key: "micropayments_enabled",
                label: "Micropayments",
                kind: PanelFieldKind::Toggle { on_by_default: true },
            },
        );
        fields.push(
            PanelField { key: "default_network", label: "Network", kind: PanelFieldKind::Network },
        );
        fields.push(
            PanelField {
                key: "min_channel_capacity",
                label: "Min Channel (sats)",
                kind: PanelFieldKind::Number {
                    default_value: 100000,
                    min: PANEL_MIN_CAPACITY,
                    max: PANEL_MAX_CAPACITY,
                },
            },
        );
        fields.push(
            PanelField {
                key: "auto_channel",
                label: "Auto-Channel",
                kind: PanelFieldKind::Toggle { on_by_default: false },
            },
        );
        fields.push(
            PanelField {
                key: "pqc_channels",
                label: "PQC Channels",
                kind: PanelFieldKind::Toggle { on_by_default: true },
            },
        );
        fields
    }

    /// Sets the field `key` to `value`. Nothing changes when the change is
    /// refused.
    pub fn on_config_changed(&mut self, key: &str, value: &str) -> (r: PaymentResult<()>)
        ensures
            match old(self)@.changed(key@, value@) {
                Ok(after) => r == Ok::<(), PaymentError>(()) && final(self)@ == after,
                Err(e) => r == Err::<(), PaymentError>(PaymentError::Configuration(e))
                    && final(self)@ == old(self)@,
            },
    {
        if same_text(key, "lightning_enabled") {
            self.config.lightning_enabled = read_toggle(value)?;
        } else if same_text(key, "micropayments_enabled") {
            self.config.micropayments_enabled = read_toggle(value)?;
        } else if same_text(key, "default_network") {
            self.config.default_network = value.to_owned();
        } else if same_text(key, "min_channel_capacity") {
            let n = match parse_decimal(value) {
                Some(n) => n,
                None => {
                    return Err(PaymentError::Configuration(ConfigurationError::InvalidNumber));
                },
            };
            if n == 0 {
                return Err(PaymentError::Configuration(ConfigurationError::InvalidNumber));
            }
            self.config.min_channel_capacity = n;
        } else if same_text(key, "auto_channel") {
            self.config.auto_channel = read_toggle(value)?;
        } else if same_text(key, "pqc_channels") {
            self.config.pqc_channels = read_toggle(value)?;
        } else {
            return Err(PaymentError::Configuration(ConfigurationError::UnknownKey));
        }
        Ok(())
    }

    /// Applies the entries in order, all of them or none: when one is
    /// refused, the configuration stays as it was before the call.
    pub fn apply_config(&mut self, config: &[(String, String)]) -> (r: PaymentResult<()>)
        ensures
            match old(self)@.applied(entry_views(config@), config@.len() as int) {
                Ok(after) => r == Ok::<(), PaymentError>(()) && final(self)@ == after,
                Err(e) => r == Err::<(), PaymentError>(PaymentError::Configuration(e))
                    && final(self)@ == old(self)@,
            },
    {
        let ghost start = self@;
        let ghost entries = entry_views(config@);
        let mut trial = Self { config: self.config.clone() };
        let mut i: usize = 0;
        while i < config.len()
            invariant
                i <= config.len(),
                entries == entry_views(config@),
                start == self@,
                start.applied(entries, i as int) == Ok::<PanelView, ConfigurationError>(trial@),
            decreases config.len() - i,
        {
            let entry = &config[i];
            match trial.on_config_changed(entry.0.as_str(), entry.1.as_str()) {
                Ok(()) => {},
                Err(e) => {
                    proof {
                        lemma_refusal_sticks(start, entries, i + 1, config@.len() as int);
                    }
                    return Err(e);
                },
            }
            i += 1;
        }
        self.config = trial.config;
        Ok(())
    }

    /// The position of the first entry that would be refused if the entries
    /// were applied in order, if there is one.
    pub fn first_refused(&self, config: &[(String, String)]) -> (at: Option<usize>)
        ensures
            match at {
                Some(k) => k < config@.len() && self@.applied(entry_views(config@), k as int)
                    is Ok && self@.applied(entry_views(config@), k + 1) is Err,
                None => self@.applied(entry_views(config@), config@.len() as int) is Ok,
            },
    {
        let ghost entries = entry_views(config@);
        let mut trial = Self { config: self.config.clone() };
        let mut i: usize = 0;
        while i < config.len()
            invariant
                i <= config.len(),
                entries == entry_views(config@),
                self@.applied(entries, i as int) == Ok::<PanelView, ConfigurationError>(trial@),
            decreases config.len() - i,
        {
            let entry = &config[i];
            if trial.on_config_changed(entry.0.as_str(), entry.1.as_str()).is_err() {
                return Some(i);
            }
            i += 1;
        }
        None
    }

    /// The configuration as pairs of a key and a value.
    pub fn get_current_config(&self) -> (entries: Vec<(String, String)>)
        ensures
            entry_views(entries@) == self@.snapshot(),
    {
        let mut entries: Vec<(String, String)> = Vec::new();
        entries.push(("lightning_enabled".to_owned(), write_toggle(self.config.lightning_enabled)));
        entries.push(
            ("micropayments_enabled".to_owned(), write_toggle(self.config.micropayments_enabled)),
        );
        entries.push(("default_network".to_owned(), self.config.default_network.clone()));
        entries.push(
            ("min_channel_capacity".to_owned(), u64_to_decimal(self.config.min_channel_capacity)),
        );
        entries.push(("auto_channel".to_owned(), write_toggle(self.config.auto_channel)));
        entries.push(("pqc_channels".to_owned(), write_toggle(self.config.pqc_channels)));
        entries
    }

    /// Goes back to the configuration that a new panel starts with.
    pub fn reset_to_defaults(&mut self)
        ensures
            final(self)@ == PanelView::defaults(),
    {
        self.config = FlexForgePaymentConfig::default();
    }
}

impl Default for PaymentFlexForgeIntegration {
    fn default() -> (panel: Self)
        ensures
            panel@ == PanelView::defaults(),
    {
        Self::new()
    }
}

/// The entries as pairs of plain text.
pub open spec fn entry_views(entries: Seq<(String, String)>) -> Seq<(Seq<char>, Seq<char>)> {
    Seq::new(entries.len(), |i: int| (entries[i].0@, entries[i].1@))
}

/// Once an entry has been refused, the refusal is the outcome of any longer
/// run of entries.
proof fn lemma_refusal_sticks(
    start: PanelView,
    entries: Seq<(Seq<char>, Seq<char>)>,
    count: int,
    more: int,
)
    requires
        0 <= count <= more,
        start.applied(entries, count) is Err,
    ensures
        start.applied(entries, more) == start.applied(entries, count),
    decreases more - count,
{
    if count < more {
        lemma_refusal_sticks(start, entries, count, more - 1);
    }
}

fn read_toggle(value: &str) -> (r: PaymentResult<bool>)
    ensures
        r == (match parse_toggle(value@) {
            Some(on) => Ok::<bool, PaymentError>(on),
            None => Err::<bool, PaymentError>(
                PaymentError::Configuration(ConfigurationError::InvalidChoice),
            ),
        }),
{
    if same_text(value, "true") {
        Ok(true)
    } else if same_text(value, "false") {
        Ok(false)
    } else {
        Err(PaymentError::Configuration(ConfigurationError::InvalidChoice))
    }
}

fn write_toggle(on: bool) -> (text: String)
    ensures
        text@ == toggle_text(on),
{
    if on {
        "true".to_owned()
    } else {
        "false".to_owned()
    }
}

} // verus!
