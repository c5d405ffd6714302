//! Credential generation: passwords drawn from configurable character
//! classes, Diceware-style passphrases and memorable `AdjectiveNoun`
//! usernames, with the decisions of the surrounding user interface.

pub mod charset;
pub mod random;
pub mod text;
pub mod generator;
pub mod wordlist;
pub mod seed;
pub mod credentials;
pub mod interface;
