//! A scripting engine for branching visual-novel dialogue.
//!
//! Script source text is compiled into an ordered list of events
//! (dialogue blocks and directives), which a playback engine steps
//! through one event at a time, maintaining the scene state: active
//! sprites, the current background, and a hierarchical attribute
//! store.  A render cache computes a content hash over everything
//! that affects the rendered frame so that redundant rendering can be
//! skipped.

pub mod attributes;
pub mod config;
pub mod directives;
pub mod engine;
pub mod errors;
pub mod laws;
pub mod numbers;
pub mod parse;
pub mod render;
pub mod script;
pub mod text;

pub use attributes::AttributeValue;
pub use attributes::Attributes;
pub use config::Config;
pub use directives::AttributeDirective;
pub use directives::CharacterAttributeDirective;
pub use directives::CustomDirective;
pub use directives::Directive;
pub use directives::JumpDirective;
pub use directives::LazilyLoadedScript;
pub use directives::LoadBGDirective;
pub use directives::SpriteDirective;
pub use engine::Engine;
pub use errors::DirectiveError;
pub use errors::EngineError;
pub use errors::ParseError;
pub use errors::SyntaxError;
pub use render::Color;
pub use render::RenderCache;
pub use render::RenderContext;
pub use script::Script;
pub use script::ScriptContext;
pub use script::ScriptDialogue;
pub use script::ScriptDirective;
