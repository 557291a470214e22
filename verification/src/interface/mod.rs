pub mod bounds;
pub mod container;
pub mod engine;
pub mod flag;
pub mod graph;
pub mod implementation;
pub mod info;
pub mod method;
pub mod plan;
pub mod selector;
pub mod variant;

pub use engine::PyEngine;
pub use flag::Modern;
pub use implementation::PyImplementation;
pub use method::PyMethod;
pub use variant::PyVariant;
