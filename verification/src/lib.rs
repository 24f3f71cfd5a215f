//! The verified core of a GPU miner for a keccak256 proof-of-work token.
//!
//! What the miner decides on whole numbers, bytes and text stands here: how a
//! nonce is laid out and checked, how batches are cut and walked, which account
//! nonce a transaction takes, what is done with a hit, and how tuning results
//! are written back to the settings.
//!
//! Devices, sockets and files stay outside, and so does reading the settings.
//! So does all that is floating point: the rank that a percentile stands for,
//! the ratio of cost to reward, and the factors that tuning holds times and
//! rates against. What comes of these is handed in.

pub mod account;
pub mod bytes;
pub mod chain;
pub mod config;
pub mod format;
pub mod gpu;
pub mod hit;
pub mod market;
pub mod miner;
pub mod oracle;
pub mod persist;
pub mod price;
pub mod profile;
pub mod search;
pub mod seed;
pub mod text;
pub mod tune;
pub mod word;
