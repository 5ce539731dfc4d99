//! Experimental tasks.

pub mod take_more_labels;
