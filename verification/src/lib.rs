//! Spring animations of CSS properties for a seed web application: which
//! properties are animated and when the frame loop runs, how a CSS value is
//! taken apart into its numbers and put back together, and the small model of
//! the application around them.
pub mod number_template;
pub mod prop_map;
pub mod use_spring;
pub mod use_spring2;
pub mod simple_back;
pub mod model;
pub mod animated_view;
