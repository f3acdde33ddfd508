//! bitmapd: a deterministic indexer for the Bitmap protocol on Bitcoin.
//!
//! The library holds the protocol's rules and the indexer's decisions, each
//! with a proved contract: reading claims from inscription content
//! (`parser`), validating them (`validator`), processing a block step by step
//! (`processor`), the keys and values kept in the store (`store`), the requests
//! made of an `ord` server (`ord_api`), the district query's answers
//! (`records`) and the walk over the chain (`indexer`).
pub mod text;
pub mod parser;
pub mod validator;
pub mod ord_api;
pub mod store;
pub mod records;
pub mod processor;
pub mod indexer;
pub mod block_laws;
