//! Structure of markdown documents: the heading tree, the typed blocks of each
//! section, and the catalog of links.

pub mod parser;
