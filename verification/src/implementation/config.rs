//! Payment plugin configuration.

use vstd::prelude::*;

use crate::errors::{ConfigurationError, PaymentError, PaymentResult};

verus! {

/// Configuration for the payment plugin.
#[derive(Debug, Clone, Copy)]
pub struct PaymentConfig {
    /// Maximum channel capacity in satoshis.
    pub max_channel_capacity: u64,
    /// Minimum channel capacity in satoshis.
    pub min_channel_capacity: u64,
    /// Default invoice expiry in seconds.
    pub default_invoice_expiry: u64,
    /// Maximum payment retries.
    pub max_payment_retries: u32,
    /// Payment timeout in seconds.
    pub payment_timeout: u64,
    /// Enable automatic channel management.
    pub auto_channel_management: bool,
}

impl PaymentConfig {
    /// The documented defaults: channels of 20 000 to 10 000 000 satoshis,
    /// invoices that expire after an hour, three retries, a timeout of a
    /// minute, and automatic channel management.
    pub open spec fn default_spec() -> PaymentConfig {
        PaymentConfig {
            max_channel_capacity: 10_000_000,
            min_channel_capacity: 20_000,
            default_invoice_expiry: 3600,
            max_payment_retries: 3,
            payment_timeout: 60,
            auto_channel_management: true,
        }
    }

    /// The first rule that the configuration breaks, if any: both capacity
    /// bounds are positive, and the minimum does not exceed the maximum.
    pub open spec fn violation(&self) -> Option<ConfigurationError> {
        if self.min_channel_capacity == 0 || self.max_channel_capacity == 0 {
            Some(ConfigurationError::ZeroCapacity)
        } else if self.min_channel_capacity > self.max_channel_capacity {
            Some(ConfigurationError::CapacityRangeInverted)
        } else {
            None
        }
    }

    /// Whether every value lies in its valid range.
    pub open spec fn valid(&self) -> bool {
        self.violation() is None
    }

    /// Checks every value against its valid range.
    pub fn validate(&self) -> (r: PaymentResult<()>)
        ensures
            r == (match self.violation() {
                Some(e) => Err::<(), PaymentError>(PaymentError::Configuration(e)),
                None => Ok::<(), PaymentError>(()),
            }),
    {
        if self.min_channel_capacity == 0 || self.max_channel_capacity == 0 {
            Err(PaymentError::Configuration(ConfigurationError::ZeroCapacity))
        } else if self.min_channel_capacity > self.max_channel_capacity {
            Err(PaymentError::Configuration(ConfigurationError::CapacityRangeInverted))
        } else {
            Ok(())
        }
    }

    /// The defaults lie in their valid ranges.
    pub proof fn lemma_default_is_valid()
        ensures
            Self::default_spec().valid(),
    {
    }
}

impl Default for PaymentConfig {
    fn default() -> (config: Self)
        ensures
            config == PaymentConfig::default_spec(),
    {
        Self {
            max_channel_capacity: 10_000_000,
            min_channel_capacity: 20_000,
            default_invoice_expiry: 3600,
            max_payment_retries: 3,
            payment_timeout: 60,
            auto_channel_management: true,
        }
    }
}

} // verus!
