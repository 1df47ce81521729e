//! What the commands of the program decide.

pub mod add;
pub mod add_laws;
pub mod check_laws;
pub mod cli;
pub mod compare;
pub mod compare_laws;
pub mod delete;
pub mod doctor;
pub mod duplicate;
pub mod edit;
pub mod edit_laws;
pub mod init;
pub mod meta;
pub mod migrate;
pub mod migrate_laws;
pub mod move_laws;
pub mod order;
pub mod order_laws;
pub mod prompt;
pub mod report_laws;
pub mod root_laws;
pub mod selection;
pub mod selection_laws;
pub mod show;
pub mod show_laws;
pub mod ssh_check;
pub mod step_laws;
pub mod steps;
pub mod validate;
pub mod value_laws;
pub mod write_laws;
