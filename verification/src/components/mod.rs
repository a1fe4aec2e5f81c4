//! The state of the parts of the screen: what each part holds, and how a key
//! press changes it. Drawing them is left to the program.

pub mod event;
pub mod fuzzyfinder;
pub mod lesson_edit_form;
pub mod node_list;
pub mod popup;
pub mod study_editor;
pub mod textinput;
