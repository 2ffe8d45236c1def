use vstd::prelude::*;

pub mod text;
pub mod numeric;
pub mod device;
pub mod web;
