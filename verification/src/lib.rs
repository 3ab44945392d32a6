//! Platform-independent logic of SmithSphere: interface language, file-format
//! detection, table and Touchstone structure, the grammar of typed complex
//! numbers, and the selection and run structure shared by the views.

pub mod i18n;
pub mod text;
pub mod expression;
pub mod parse;
pub mod dataset;
pub mod demo;
pub mod sphere;
pub mod scene;
pub mod io;
pub mod dialogs;
