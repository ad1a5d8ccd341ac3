//! Core of a tiered-memory placement agent: a sample ring, an indexed
//! min-heap, a streaming top-K sketch and the decision logic that turns
//! access samples into huge-page promotions and demotions.

pub mod collection;
pub mod event;
pub mod hagent;
pub mod hash;
pub mod helper;
pub mod identification;
pub mod iheap;
pub mod index;
pub mod migration;
pub mod migrator;
pub mod pages;
pub mod sdh;
pub mod spsc;
