use vstd::prelude::*;

verus! {

/// The errors of the library, each with the message that explains it.
///
/// `Io`, `Yaml` and `Http` carry the message of a failed file, YAML or HTTP
/// operation of the surrounding program.
#[derive(Debug)]
pub enum AtpError {
    Io(String),
    Yaml(String),
    Time(String),
    Coordinate(String),
    Catalog(String),
    Config(String),
    Http(String),
    Ceo(String),
    Numerical(String),
    GuideStarSelection(String),
}

} // verus!
