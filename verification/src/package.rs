//! Minimal manifest view used by the `run` front end: only the package
//! identity is needed to locate the produced executable.

use vstd::prelude::*;

verus! {

/// Declared identity of a package: its name and a free-form version string.
pub struct Package {
    pub name: String,
    pub version: String,
}

/// A manifest reduced to the one section every command needs.
pub struct YacToml {
    pub package: Package,
}

impl YacToml {
    /// A fresh manifest for a package called `name`, at the conventional
    /// initial version.
    pub fn new(name: &str) -> (result: Self)
        ensures
            result.package.name@ == name@,
            result.package.version@ == "0.1.0"@,
    {
        YacToml {
            package: Package {
                name: String::from_str(name),
                version: String::from_str("0.1.0"),
            },
        }
    }
}

} // verus!
