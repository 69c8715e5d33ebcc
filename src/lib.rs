//! Bracket balance as an arithmetic circuit over the Vesta base field.
//!
//! `field` holds the field elements (arithmetic by `pasta_curves`, through halo2), `symbols`
//! the alphabet, the encoder and the integer model of balances, `trace` the rows and the
//! meaning of each constraint, `circuit` configuration, witness generation and constraint
//! evaluation, and `laws` what is proved of them.
pub mod field;
pub mod symbols;
pub mod trace;
pub mod circuit;
pub mod laws;
