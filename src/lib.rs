//! Layout core of a retained-mode view tree: layout descriptions that refer to
//! older siblings, their validation, and scheduled changes of a view's child list.
pub mod children;
pub mod extent;
pub mod reference;
pub mod view;
