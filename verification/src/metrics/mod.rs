pub mod binary;
