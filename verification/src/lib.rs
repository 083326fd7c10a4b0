//! Domain names in their uncompressed wire format, and the option records
//! that travel beside them.
//!
//! A name is a run of labels. [`wire`] says in mathematics what that
//! means, [`label`] holds one label, and [`relative`] and [`dname`] hold
//! a relative and an absolute name in an octet buffer of [`octets`]. A
//! [`chain`] reads two names as one without copying them, and a
//! [`builder`] puts a name together label by label. Names compare as
//! [`canonical`] says; what holds of all names is proved in [`laws`].
//!
//! Wire data is read with [`parse`] and written with [`compose`]. The
//! data of OPT records and its options live in [`opt`].

pub mod builder;
pub mod canonical;
pub mod chain;
pub mod compose;
pub mod dname;
pub mod header;
pub mod iana;
pub mod label;
pub mod laws;
pub mod message_builder;
pub mod octets;
pub mod opt;
pub mod parse;
pub mod rdata;
pub mod record;
pub mod relative;
pub mod scan;
pub mod sort;
pub mod traits;
pub mod wire;
