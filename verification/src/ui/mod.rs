//! The state of the user interface that is not drawing: pages, views,
//! play modes, themes, dialogs and the kinds of widgets.

pub mod components;
pub mod icons;
pub mod messages;
pub mod theme;
pub mod widgets;
