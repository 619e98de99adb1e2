use vstd::prelude::*;

pub mod canvas;
pub mod export;
pub mod font;
pub mod generators;
pub mod import;
pub mod lsystem;
pub mod model;
pub mod optimize;
pub mod panels;
pub mod path;
pub mod selection;
pub mod drawing;
pub mod text;
