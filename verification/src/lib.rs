//! Core logic of a masternode.
pub mod activity;
pub mod addresses;
pub mod bytes;
pub mod certificates;
pub mod clock;
pub mod crypto;
pub mod finality;
pub mod json;
pub mod keyed;
pub mod main_loop;
pub mod masternode_p2p;
pub mod mempool_manager;
pub mod messages;
pub mod monolith_benchmark;
pub mod monolith_p2p;
pub mod monolith_p2p_fixed;
pub mod monolith_producer;
pub mod monolith_storage;
pub mod p2p;
pub mod p2p_block_receiver;
pub mod peers;
pub mod performance;
pub mod proposal_validator;
pub mod proposals;
pub mod registration;
pub mod registry;
pub mod retry_manager;
pub mod search;
pub mod startup;
pub mod text;
pub mod text_set;
pub mod topics;
pub mod transactions;
pub mod whitelist;
