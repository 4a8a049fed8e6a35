pub mod csv;
pub mod in_memory;
pub mod sqlite;
