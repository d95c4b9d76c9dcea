//! Reference handles for graphs that may contain cycles.
//!
//! The cells of a graph live in a [`Graph`]. A cell is named by a non-owning
//! [`Internode`]; a [`Node`] is an owning handle that anchors its cell. When
//! the last owning handle of a cell goes, the cell is kept only if an
//! anchored cell can still be reached from it, and is otherwise released
//! together with everything linked to it.

pub mod anchor;
pub mod graph;
pub mod internode;
pub mod internode_mutex_guard;
pub mod laws;
pub mod linked;
pub mod neighbors;
pub mod node;
pub mod search;
pub mod walk;

pub use crate::graph::{Cell, Direction, Graph};
pub use crate::internode::Internode;
pub use crate::internode_mutex_guard::InternodeMutexGuard;
pub use crate::linked::Linked;
pub use crate::neighbors::Neighbors;
pub use crate::node::Node;
pub use crate::search::Search;
pub use crate::walk::Order;
