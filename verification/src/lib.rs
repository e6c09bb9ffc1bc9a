//! A verified model of a Compose-style layout core: node kinds, the
//! modifier algebra, the modifier node chain with its coordinators, the
//! placeable and measure bookkeeping, and the layout node tree.

pub mod geometry;
pub mod node_kind;
pub mod modifier;
pub mod placeable;
pub mod coordinator;
pub mod modifier_node;
pub mod node_chain;
pub mod measure;
pub mod layout_node;
pub mod measure_and_layout_delegate;
pub mod measure_layout_defer_action_manager;
pub mod leak_token;
