pub mod doublelinkedlist;
pub mod laws;
