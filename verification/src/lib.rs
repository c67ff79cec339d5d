//! Payment channel accounting, invoicing and routing for a Lightning-style node.
//!
//! The crate models the node-local core of a payment channel network node:
//!
//! - the channel store, which keeps every channel's balances equal to its
//!   capacity and its reservations within its local balance;
//! - the invoice registry, with the text encoding of invoices;
//! - the router, which finds the cheapest route through the channel graph;
//! - the payment engine, which verifies, routes, reserves and settles;
//! - escrows, held against a payment hash or between three parties.
//!
//! Amounts of channels and invoices are in satoshis; the router works in
//! millisatoshis.

pub mod errors;
pub mod flexforge;
pub mod implementation;
pub mod index;
pub mod sources;
pub mod text;
pub mod traits;
pub mod types;

pub use errors::{PaymentError, PaymentResult};
pub use flexforge::PaymentFlexForgeIntegration;
pub use implementation::{
    ChannelManager, InvoiceGenerator, LightningNodeImpl, PaymentConfig, PaymentPlugin,
    PaymentRouter,
};
pub use traits::{ChannelProvider, InvoiceProvider, PaymentProcessor};
pub use types::{
    ChannelState, EscrowStatus, EscrowType, LightningInvoice, LightningNode, PaymentAmount,
    PaymentChannel, PaymentHash, PaymentInvoice, PaymentRoute, PaymentStatus, RouteHop, Satoshis,
    SubscriptionTier, TierLimits,
};
