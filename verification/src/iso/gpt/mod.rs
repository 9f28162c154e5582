pub mod guid;
pub mod header;
pub mod main_gpt_functions;
pub mod partition_entry;
