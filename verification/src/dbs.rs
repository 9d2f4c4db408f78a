pub mod commit;
pub mod fetch;
pub mod group;
pub mod iterator;
pub mod options;
pub mod runtime;
pub mod shape;
pub mod statement;
pub mod transaction;
