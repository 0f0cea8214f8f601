//! A network of ten committee members, a relying party and the storage between
//! them: what each decides on the messages and files it is handed.
pub mod aggregator;
pub mod config;
pub mod holder;
pub mod member;
pub mod mldsa_holder;
pub mod mldsa_member;
pub mod report;
pub mod storage;
pub mod vc;
pub mod wire;
