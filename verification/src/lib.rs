pub mod executor;
pub mod increment;
pub mod numeral;
