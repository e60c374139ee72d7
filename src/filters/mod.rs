pub mod arb;
pub mod fir;
