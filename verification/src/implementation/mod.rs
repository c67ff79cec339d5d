//! The components of the payment engine:
//! - `PaymentConfig` - Configuration
//! - `ChannelManager` - Lightning channel management
//! - `InvoiceGenerator` - Invoice creation and verification
//! - `PaymentRouter` - Payment routing
//! - `PaymentPlugin` - Main plugin interface and payment engine
//! - `LightningNodeImpl` - A node with its own channels and invoices
//! - `Escrow` - Hold and multisig escrows

pub mod channels;
pub mod config;
pub mod escrow;
pub mod invoices;
pub mod lightning;
pub mod plugin;
pub mod router;
mod search;
mod shortcut;

pub use channels::ChannelManager;
pub use config::PaymentConfig;
pub use escrow::Escrow;
pub use invoices::InvoiceGenerator;
pub use lightning::LightningNodeImpl;
pub use plugin::PaymentPlugin;
pub use router::PaymentRouter;
