//! Pick one remote compute resource from a filtered inventory, interactively:
//! filter predicates are built from raw tokens, the grouped service response
//! is flattened into selectable items whose display text one name rule
//! resolves, a streaming bridge turns the fetch outcome into the channel's
//! one terminal event, and the selected identifier is printed or substituted,
//! shell-escaped, into a command template.

pub mod bridge;
pub mod command;
pub mod filter;
pub mod item;
pub mod name;
pub mod resource;
