//! A small personal expense tracker: purchases, their one-line text form,
//! and a per-category spending report.

pub mod category;
pub mod codec;
pub mod format;
pub mod input;
pub mod purchase;
pub mod report;
pub mod text;
