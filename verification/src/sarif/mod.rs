pub mod sarif;
