//! Negamax alpha-beta search.
//!
//! State is kept in two places: a `Searcher` owns what belongs to the whole search (time management,
//! root moves, transposition table), a `Worker` owns what changes on the way down the tree (the board,
//! the accumulator, the per-ply stack).

pub mod candidate;
pub mod config;
pub mod deepening;
pub mod laws;
pub mod limitlaws;
pub mod line;
pub mod matelaws;
pub mod model;
pub mod negamax;
pub mod nodelaws;
pub mod ply;
pub mod quiescence;
pub mod quietlaws;
pub mod report;
pub mod reportlaws;
pub mod searcher;
pub mod searchlaws;
pub mod worker;

pub use config::{Limits, Protocol, SearchConfig, SearchDisplay};
pub use line::{Line, MoveResult, RootMove, SearchAborted, Stack, MAX_TRACKED_QUIETS};
pub use model::{NODE_CHECK_INTERVAL, PRINT_UPDATE_MS};
pub use report::{Console, Mute, Report, SearchInfoData, CURRMOVE_NODE_THRESHOLD};
pub use searcher::{Searcher, Worker};
pub use worker::{NodeType, NonPvNode, PvNode, RootNode};
