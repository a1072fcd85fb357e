//! Gameplay state, node templates, node-graph editing rules and the task
//! transition log, with their contracts proved by Verus.

pub mod clock;
pub mod color;
pub mod game;
pub mod graph;
pub mod layout;
pub mod legacy;
pub mod pivot;
pub mod platform;
pub mod shell;
pub mod template;
pub mod text;

pub use color::Color;
pub use game::{GameCore, Renderer, UiState};
pub use graph::{NodeGraph, NodeInstanceId};
pub use layout::TextAlign;
pub use pivot::{LogEntry, PivotDb};
pub use platform::{AssetError, AssetSource};
pub use template::{
    NodeSize, NodeStyle, NodeTemplate, PortDirection, PortKind, PortTemplate, PropertyTemplate,
    TemplateError, TemplateId, TemplateValue,
};
