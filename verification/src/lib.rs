//! Aethel: programmable payment-stream receivables.

pub mod artifacts;
pub mod book;
pub mod canon;
pub mod contract;
pub mod distribution;
pub mod order;
pub mod provider;
pub mod receivable;
pub mod seqs;
pub mod servicing;
pub mod stream;
pub mod subject;
pub mod tokenization;
pub mod types;
pub mod wallet;
