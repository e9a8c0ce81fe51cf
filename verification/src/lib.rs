//! Verified cores of a set of small Unix text utilities.

pub mod cal;
pub mod cat;
pub mod comm;
pub mod csv_intro;
pub mod cut;
pub mod decimal;
pub mod echo;
pub mod find;
pub mod fortune;
pub mod head;
pub mod ls;
pub mod pattern;
pub mod tail;
pub mod text;
pub mod uniq;
