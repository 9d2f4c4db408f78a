pub mod dbs;
pub mod doc;
pub mod err;
pub mod sql;
