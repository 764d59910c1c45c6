pub mod matrix;
