pub mod dopr54;
