//! What the commands decide, apart from what they read and print.

pub mod load;
pub mod mutate;
pub mod print;
pub mod results;
pub mod run;
pub mod status;
pub mod test;
