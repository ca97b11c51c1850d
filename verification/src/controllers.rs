//! The boundary to the outside world: the controller every job-related
//! instruction delegates to.

pub mod vm_controller;
