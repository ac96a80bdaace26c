//! The bootstrap's command-line options, as plain data.

use vstd::prelude::*;

verus! {

/// Options of the bootstrap launcher: where Java and the POM are, where
/// jars go, and whether to run the host or only print its command line.
#[derive(Debug, Clone)]
pub struct Options {
    pub java_location: Option<String>,
    pub properties_file: String,
    pub jar_folder: String,
    pub pom_file: String,
    pub should_execute: bool,
    pub logback_configuration: Option<String>,
}

} // verus!
