//! Config file naming: the markup formats a config can be written in, the
//! templates a fresh config can start from, and the file path a config of a
//! given format lives at inside a directory.

use vstd::prelude::*;

verus! {

/// A markup format a config file can be decoded from or encoded to.
#[derive(Clone, Copy, Debug, Eq, Ord, PartialEq, PartialOrd)]
pub enum Format {
    Json,
    Ron,
    Toml,
    Yaml,
}

/// A starter template for a generated config file.
#[derive(Clone, Copy, Debug, Eq, Ord, PartialEq, PartialOrd)]
pub enum Template {
    Bare,
    Cmake,
    Cargo,
    Go,
    Node,
    Make,
    Python,
}

/// The path of the config file of the given format inside directory `path`:
/// the fixed name stem with the format's extension.
pub fn generate_config_path(path: &str, format: &Format) -> (r: String)
    ensures
        (match format {
            Format::Json => r@ == path@ + "/prog.json"@,
            Format::Ron => r@ == path@ + "/prog.ron"@,
            Format::Toml => r@ == path@ + "/prog.toml"@,
            Format::Yaml => r@ == path@ + "/prog.yml"@,
        }),
{
    let mut s = String::from_str(path);
    match format {
        Format::Json => s.append("/prog.json"),
        Format::Ron => s.append("/prog.ron"),
        Format::Toml => s.append("/prog.toml"),
        Format::Yaml => s.append("/prog.yml"),
    }
    s
}

} // verus!
