use vstd::prelude::*;

pub mod text;
pub mod utf8_facts;
pub mod csv_document;
pub mod diagnostics;
pub mod json;
pub mod type_shape;
pub mod declared;
pub mod i18n;
pub mod editor_navigation;
pub mod settings;
pub mod startup;
pub mod table_virtualization;
pub mod file_monitor;
pub mod search;
pub mod workspace;
pub mod laws;
pub mod document_session;
pub mod cell_edit;
pub mod editor;
pub mod platform;
pub mod editor_commands;

verus! {

} // verus!
