pub mod resnsend;
