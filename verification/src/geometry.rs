pub mod scara;
