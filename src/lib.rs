//! Sorting of study files into a tree of category and type folders: rule
//! loading, keyword classification, extension lookup, collision-free naming,
//! and the decisions of the move and of the directory scan.
pub mod text;
pub mod rules;
pub mod classify;
pub mod type_folder;
pub mod destination;
pub mod relocate;
pub mod scan;
