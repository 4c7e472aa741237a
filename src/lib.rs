//! Foundational containers with verified contracts: a fixed-capacity array,
//! a growable array, a singly linked list and a doubly linked list.

pub mod error;
pub mod ordering;
pub mod fixed_array;
pub mod dynamic_array;
pub mod single_linked_list;
pub mod double_linked_list;
pub mod laws;

pub use error::ContainerError;
pub use fixed_array::FixedArray;
pub use dynamic_array::DynamicArray;
pub use single_linked_list::SingleLinkedList;
pub use double_linked_list::{DoubleLinkedList, DoubleLinkedNode};
