pub mod list1;
pub mod list2;
pub mod dlist;
pub mod double_linked;
