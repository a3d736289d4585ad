//! Compilation of query plans over an entity-attribute-value store:
//! the plan tree, its dependencies, the environment it is resolved
//! against, and the relation each plan yields.

pub mod context;
pub mod plan;
pub mod project;
pub mod pull;
pub mod relation;
pub mod theorems;
pub mod value;

pub use context::{Environment, ImplContext, Rule};
pub use plan::{Implementable, Plan};
pub use project::{Project, Union};
pub use pull::{interleave, pull_row, Pull, PullLevel};
pub use relation::{CollectionRelation, PlanError, VariableMap};
pub use value::{Aid, Diff, Eid, Value, Var};
