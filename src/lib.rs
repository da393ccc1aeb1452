//! State transitions of a domain-leasing registry: zones, leases and records
//! kept in fixed-size account buffers, each behind a one-byte tag, and the
//! dispatcher that rewrites them.
pub mod codec;
pub mod laws;
pub mod lease;
pub mod processor;
pub mod pubkey;
pub mod record;
pub mod zone;

pub use lease::Lease;
pub use processor::{
    create_lease, create_record, create_zone, decommission_lease, process, process_instruction,
    Account, RegistryError, DISCRIMINATOR_DECOMMISSION_LEASE, DISCRIMINATOR_LEASE,
    DISCRIMINATOR_RECORD, DISCRIMINATOR_ZONE, RECORD_TTL,
};
pub use pubkey::Pubkey;
pub use record::Record;
pub use zone::Zone;
