//! Verified core of the C-ITS exploration UI: trajectory and playback state,
//! vehicle state and its visual classes, timestamp formatting, analysis
//! aggregation, injection filtering and the persisted-settings statements.

pub mod analysis;
pub mod calendar;
pub mod charts;
pub mod countries;
pub mod injection;
pub mod lexical;
pub mod live;
pub mod monitor;
pub mod order;
pub mod packet;
pub mod picker;
pub mod settings;
pub mod playback;
pub mod text;
pub mod timeline;
pub mod trajectory;
pub mod transfer;
pub mod visible;
