//! Authorization-policy derivation engine for SSH certificate-based login.
//!
//! The crate decodes the untrusted binary option blob carried inside a
//! certificate (critical options and extensions) into a validated, immutable
//! authorization record, and evaluates source-address and
//! destination-permission restrictions against that record.
//!
//! - [`addr`] holds the family-tagged address value with mask derivation,
//!   conjunction and successor computation;
//! - [`addrtext`] parses and formats dotted-quad IPv4, colon-form IPv6 and
//!   `address/prefixlen` CIDR text, and proves that formatting a CIDR
//!   specification and re-parsing it round-trips;
//! - [`addrmatch`] evaluates comma-separated address lists, leniently (with
//!   glob fallback and `!`-negation) and strictly (CIDR entries only);
//! - [`auth_options`] decodes the length-prefixed option blob, folds the
//!   pairs into the [`auth_options::SshAuthOpt`] record, and validates
//!   destination permissions;
//! - [`audit`], [`audit_bsm`] and [`audit_linux`] classify audit events and
//!   compose record texts; [`auth_bsdauth`] holds the keyboard-interactive
//!   challenge/response state machine.

pub mod strutil;
pub mod numtext;
pub mod addr;
pub mod addrtext;
pub mod addrmatch;
pub mod auth_options;
pub mod audit;
pub mod audit_bsm;
pub mod audit_linux;
pub mod auth_bsdauth;
