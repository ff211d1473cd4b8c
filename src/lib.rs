pub mod comparators;
pub mod databases;
pub mod calibration;
pub mod page_management;
pub mod communication;
pub mod parsers;
pub mod store;
pub mod columns;
