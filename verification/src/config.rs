use vstd::prelude::*;

verus! {

/// The manifest record of a project: its name, its version, the places it is
/// built to, and the two format identifiers of the target runtime. Every
/// field is carried as text and never interpreted here.
pub struct Config {
    pub name: String,
    pub version: String,
    pub targets: Vec<String>,
    pub datapack_format: String,
    pub command_format: String,
}

impl Config {
    /// The version a freshly created project starts with.
    pub open spec fn initial_version() -> Seq<char> {
        seq!['0', '.', '1', '.', '0']
    }

    /// A new manifest for the project `name`: version `0.1.0`, no targets,
    /// and both format identifiers empty.
    pub fn new(name: String) -> (config: Self)
        ensures
            config.name@ == name@,
            config.version@ == Self::initial_version(),
            config.targets@.len() == 0,
            config.datapack_format@.len() == 0,
            config.command_format@.len() == 0,
    {
        let version = String::from_str("0.1.0");
        proof {
            reveal_strlit("0.1.0");
            assert(version@ =~= Self::initial_version());
        }
        Config {
            name,
            version,
            targets: Vec::new(),
            datapack_format: String::new(),
            command_format: String::new(),
        }
    }
}

} // verus!
