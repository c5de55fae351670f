//! Layout requests, their answers, and the arrangement of windows.

pub mod answer;
pub mod arrange;
pub mod laws;
pub mod order;
pub mod repeat;
pub mod request;
pub mod steps;
