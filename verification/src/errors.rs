//! Error kinds reported by the payment engine.

use vstd::prelude::*;
use vstd::string::*;

use crate::text::{decimal_of, push_decimal, string_from_chars};

verus! {

/// Why a channel operation was refused.
#[derive(Debug, Clone, Copy, PartialEq, Eq, Structural)]
pub enum ChannelError {
    /// The peer key does not start with a compressed-key prefix byte.
    InvalidPeerKey,
    /// The capacity lies outside the configured bounds, or the store is full.
    CapacityOutOfBounds,
    /// More was pushed to the peer than the channel holds.
    PushExceedsCapacity,
    /// No channel has the given identifier.
    UnknownChannel,
    /// The identifier is already taken by another channel.
    DuplicateChannel,
    /// The channel is closed or force-closed.
    TerminalChannel,
    /// The channel is not in the state that the operation needs.
    InvalidState,
    /// The deltas would leave the two balances out of step with the capacity.
    BalanceMismatch,
    /// More was released or committed than is reserved.
    ReservationMismatch,
    /// The system's random source failed, so no identifier could be drawn.
    EntropyUnavailable,
}

/// Why an invoice operation was refused.
#[derive(Debug, Clone, Copy, PartialEq, Eq, Structural)]
pub enum InvoiceError {
    /// The description is empty.
    EmptyDescription,
    /// The invoice's expiry lies before the current time.
    Expired,
    /// No invoice with the given payment hash was issued here.
    UnknownPaymentHash,
    /// An invoice with this payment hash was already issued.
    DuplicatePaymentHash,
    /// The expiry timestamp does not fit in 64 bits.
    ExpiryOutOfRange,
    /// The text is not a well-formed encoded invoice.
    Malformed,
    /// The system clock could not be read.
    ClockUnavailable,
    /// The system's random source failed.
    EntropyUnavailable,
}

/// Why no route was returned.
#[derive(Debug, Clone, Copy, PartialEq, Eq, Structural)]
pub enum RoutingError {
    /// The graph is empty or holds no path to the destination.
    NoPath,
    /// Paths exist, but none can carry the amount.
    InsufficientCapacity,
}

/// Why a configuration value was refused.
#[derive(Debug, Clone, Copy, PartialEq, Eq, Structural)]
pub enum ConfigurationError {
    /// A channel capacity bound is zero.
    ZeroCapacity,
    /// The minimum channel capacity exceeds the maximum.
    CapacityRangeInverted,
    /// The key names no configuration field.
    UnknownKey,
    /// The value is not a number, or lies outside the field's range.
    InvalidNumber,
    /// The value is not one of the field's choices.
    InvalidChoice,
}

/// Why an escrow operation was refused.
#[derive(Debug, Clone, Copy, PartialEq, Eq, Structural)]
pub enum EscrowError {
    /// The escrow's status does not allow the transition.
    InvalidTransition,
    /// The preimage does not hash to the escrow's payment hash.
    PreimageMismatch,
    /// Fewer than two of the three parties have approved.
    MissingApproval,
    /// The operation belongs to the other kind of escrow.
    WrongKind,
}

/// Payment operation errors.
#[derive(Debug, Clone, Copy, PartialEq, Eq, Structural)]
pub enum PaymentError {
    /// Channel operation error.
    Channel(ChannelError),
    /// Invoice error.
    Invoice(InvoiceError),
    /// Routing error.
    Routing(RoutingError),
    /// The requested amount exceeds what can be spent.
    InsufficientFunds { needed: u64, available: u64 },
    /// The attempt did not finish within the configured timeout.
    Timeout,
    /// Configuration error.
    Configuration(ConfigurationError),
    /// Escrow error.
    Escrow(EscrowError),
}

/// Result type for payment operations.
pub type PaymentResult<T> = Result<T, PaymentError>;

impl ChannelError {
    /// The text of [`ChannelError::describe`].
    pub open spec fn text(self) -> Seq<char> {
        match self {
            ChannelError::InvalidPeerKey => "Invalid peer public key"@,
            ChannelError::CapacityOutOfBounds => "Capacity out of bounds"@,
            ChannelError::PushExceedsCapacity => "Pushed amount exceeds capacity"@,
            ChannelError::UnknownChannel => "Unknown channel"@,
            ChannelError::DuplicateChannel => "Channel identifier already in use"@,
            ChannelError::TerminalChannel => "Channel is closed"@,
            ChannelError::InvalidState => "Channel state does not allow this"@,
            ChannelError::BalanceMismatch => "Balances would not add up to capacity"@,
            ChannelError::ReservationMismatch => "Reservation is smaller than the amount"@,
            ChannelError::EntropyUnavailable => "Random source unavailable"@,
        }
    }

    /// A short description of the error.
    pub fn describe(&self) -> (s: &'static str)
        ensures
            s@ == self.text(),
    {
        match self {
            ChannelError::InvalidPeerKey => "Invalid peer public key",
            ChannelError::CapacityOutOfBounds => "Capacity out of bounds",
            ChannelError::PushExceedsCapacity => "Pushed amount exceeds capacity",
            ChannelError::UnknownChannel => "Unknown channel",
            ChannelError::DuplicateChannel => "Channel identifier already in use",
            ChannelError::TerminalChannel => "Channel is closed",
            ChannelError::InvalidState => "Channel state does not allow this",
            ChannelError::BalanceMismatch => "Balances would not add up to capacity",
            ChannelError::ReservationMismatch => "Reservation is smaller than the amount",
            ChannelError::EntropyUnavailable => "Random source unavailable",
        }
    }
}

impl InvoiceError {
    /// The text of [`InvoiceError::describe`].
    pub open spec fn text(self) -> Seq<char> {
        match self {
            InvoiceError::EmptyDescription => "Description cannot be empty"@,
            InvoiceError::Expired => "Invoice has expired"@,
            InvoiceError::UnknownPaymentHash => "Invoice not found"@,
            InvoiceError::DuplicatePaymentHash => "Payment hash already issued"@,
            InvoiceError::ExpiryOutOfRange => "Expiry out of range"@,
            InvoiceError::Malformed => "Malformed invoice"@,
            InvoiceError::ClockUnavailable => "Time error"@,
            InvoiceError::EntropyUnavailable => "Random source unavailable"@,
        }
    }

    /// A short description of the error.
    pub fn describe(&self) -> (s: &'static str)
        ensures
            s@ == self.text(),
    {
        match self {
            InvoiceError::EmptyDescription => "Description cannot be empty",
            InvoiceError::Expired => "Invoice has expired",
            InvoiceError::UnknownPaymentHash => "Invoice not found",
            InvoiceError::DuplicatePaymentHash => "Payment hash already issued",
            InvoiceError::ExpiryOutOfRange => "Expiry out of range",
            InvoiceError::Malformed => "Malformed invoice",
            InvoiceError::ClockUnavailable => "Time error",
            InvoiceError::EntropyUnavailable => "Random source unavailable",
        }
    }
}

impl RoutingError {
    /// The text of [`RoutingError::describe`].
    pub open spec fn text(self) -> Seq<char> {
        match self {
            RoutingError::NoPath => "No path to destination"@,
            RoutingError::InsufficientCapacity => "Insufficient channel capacity on every path"@,
        }
    }

    /// A short description of the error.
    pub fn describe(&self) -> (s: &'static str)
        ensures
            s@ == self.text(),
    {
        match self {
            RoutingError::NoPath => "No path to destination",
            RoutingError::InsufficientCapacity => "Insufficient channel capacity on every path",
        }
    }
}

impl ConfigurationError {
    /// The text of [`ConfigurationError::describe`].
    pub open spec fn text(self) -> Seq<char> {
        match self {
            ConfigurationError::ZeroCapacity => "Channel capacity must be positive"@,
            ConfigurationError::CapacityRangeInverted => "Minimum capacity exceeds maximum"@,
            ConfigurationError::UnknownKey => "Unknown key"@,
            ConfigurationError::InvalidNumber => "Invalid number"@,
            ConfigurationError::InvalidChoice => "Invalid choice"@,
        }
    }

    /// A short description of the error.
    pub fn describe(&self) -> (s: &'static str)
        ensures
            s@ == self.text(),
    {
        match self {
            ConfigurationError::ZeroCapacity => "Channel capacity must be positive",
            ConfigurationError::CapacityRangeInverted => "Minimum capacity exceeds maximum",
            ConfigurationError::UnknownKey => "Unknown key",
            ConfigurationError::InvalidNumber => "Invalid number",
            ConfigurationError::InvalidChoice => "Invalid choice",
        }
    }
}

impl EscrowError {
    /// The text of [`EscrowError::describe`].
    pub open spec fn text(self) -> Seq<char> {
        match self {
            EscrowError::InvalidTransition => "Escrow status does not allow this"@,
            EscrowError::PreimageMismatch => "Preimage does not match payment hash"@,
            EscrowError::MissingApproval => "Two approvals are required"@,
            EscrowError::WrongKind => "Operation does not apply to this escrow"@,
        }
    }

    /// A short description of the error.
    pub fn describe(&self) -> (s: &'static str)
        ensures
            s@ == self.text(),
    {
        match self {
            EscrowError::InvalidTransition => "Escrow status does not allow this",
            EscrowError::PreimageMismatch => "Preimage does not match payment hash",
            EscrowError::MissingApproval => "Two approvals are required",
            EscrowError::WrongKind => "Operation does not apply to this escrow",
        }
    }
}

impl PaymentError {
    /// The text of [`PaymentError::message`]: the kind, a colon, and the detail.
    pub open spec fn message_text(self) -> Seq<char> {
        match self {
            PaymentError::Channel(e) => "Channel error: "@ + e.text(),
            PaymentError::Invoice(e) => "Invoice error: "@ + e.text(),
            PaymentError::Routing(e) => "Routing error: "@ + e.text(),
            PaymentError::InsufficientFunds { needed, available } => "Insufficient funds: Need "@
                + decimal_of(needed as nat) + " sats, have "@ + decimal_of(available as nat),
            PaymentError::Timeout => "Payment timeout: Attempt exceeded the configured timeout"@,
            PaymentError::Configuration(e) => "Configuration error: "@ + e.text(),
            PaymentError::Escrow(e) => "Escrow error: "@ + e.text(),
        }
    }

    /// The error as a line of text for a person to read.
    pub fn message(&self) -> (s: String)
        ensures
            s@ == self.message_text(),
    {
        match self {
            PaymentError::Channel(e) => String::from_str("Channel error: ").concat(e.describe()),
            PaymentError::Invoice(e) => String::from_str("Invoice error: ").concat(e.describe()),
            PaymentError::Routing(e) => String::from_str("Routing error: ").concat(e.describe()),
            PaymentError::InsufficientFunds { needed, available } => {
                let mut digits: Vec<char> = Vec::new();
                push_decimal(&mut digits, *needed);
                let first = string_from_chars(&digits);
                let mut digits2: Vec<char> = Vec::new();
                push_decimal(&mut digits2, *available);
                let second = string_from_chars(&digits2);
                assert(digits@ =~= decimal_of(*needed as nat));
                assert(digits2@ =~= decimal_of(*available as nat));
                String::from_str("Insufficient funds: Need ").concat(first.as_str()).concat(
                    " sats, have ",
                ).concat(second.as_str())
            },
            PaymentError::Timeout => String::from_str(
                "Payment timeout: Attempt exceeded the configured timeout",
            ),
            PaymentError::Configuration(e) => String::from_str("Configuration error: ").concat(
                e.describe(),
            ),
            PaymentError::Escrow(e) => String::from_str("Escrow error: ").concat(e.describe()),
        }
    }
}

} // verus!
