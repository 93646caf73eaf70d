//! What the library promises of modules and documents, said of the syntax trees and texts
//! themselves.
pub mod shapes;
pub mod walk;
pub mod declared;
pub mod kinds;
pub mod exported;
pub mod usages;
pub mod search;
pub mod analysis;
pub mod positions;
pub mod prologue;
pub mod reports;
pub mod places;
pub mod surroundings;
pub mod promises;
pub mod views;
