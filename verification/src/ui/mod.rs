//! The state behind the two screens of the program: the title database
//! explorer and the cheat manager.
pub mod cheat_manager;
pub mod database_explorer;
