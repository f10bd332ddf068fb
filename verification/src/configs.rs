use vstd::prelude::*;

verus! {

/// Why the configuration could not be loaded or used.
#[derive(Clone, Copy, Debug, PartialEq, Eq, Structural)]
pub enum ConfigError {
    NoDefaultSearchPath,
    LoadError,
    IoError,
}

impl ConfigError {
    pub open spec fn message_spec(&self) -> Seq<char> {
        match self {
            ConfigError::NoDefaultSearchPath => "No default search path was found"@,
            ConfigError::LoadError => "Could not load configuration"@,
            ConfigError::IoError => "IO error"@,
        }
    }

    /// Human-readable description of the error.
    pub fn message(&self) -> (r: String)
        ensures
            r@ == self.message_spec(),
    {
        match self {
            ConfigError::NoDefaultSearchPath => "No default search path was found".to_owned(),
            ConfigError::LoadError => "Could not load configuration".to_owned(),
            ConfigError::IoError => "IO error".to_owned(),
        }
    }
}

/// One unit of search work: an absolute path together with the depth budget
/// that remains below it.
#[derive(Debug)]
pub struct SearchDirectory {
    pub path: String,
    pub depth: usize,
}

impl SearchDirectory {
    pub fn new(path: String, depth: usize) -> (d: SearchDirectory)
        ensures
            d.path == path,
            d.depth == depth,
    {
        SearchDirectory { path, depth }
    }
}

/// The user's configuration: the ordered search roots, if any were given.
#[derive(Debug)]
pub struct Config {
    pub search_dirs: Option<Vec<SearchDirectory>>,
}

impl Config {
    /// The configured search roots, in configured order. Having none at all is
    /// a configuration error: discovery would have nowhere to start.
    pub fn search_dirs(&self) -> (r: Result<Vec<SearchDirectory>, ConfigError>)
        ensures
            match r {
                Ok(v) => match self.search_dirs {
                    Option::Some(d) => d@.len() > 0 && v@ == d@,
                    Option::None => false,
                },
                Err(e) => e == ConfigError::NoDefaultSearchPath && match self.search_dirs {
                    Option::Some(d) => d@.len() == 0,
                    Option::None => true,
                },
            },
    {
        match &self.search_dirs {
            Option::Some(dirs) => {
                if dirs.len() == 0 {
                    Err(ConfigError::NoDefaultSearchPath)
                } else {
                    let mut v: Vec<SearchDirectory> = Vec::new();
                    let mut i: usize = 0;
                    while i < dirs.len()
                        invariant
                            i <= dirs@.len(),
                            v@ == dirs@.take(i as int),
                        decreases dirs@.len() - i,
                    {
                        let d = &dirs[i];
                        v.push(SearchDirectory { path: d.path.clone(), depth: d.depth });
                        proof {
                            assert(dirs@.take(i as int).push(dirs@[i as int]) =~= dirs@.take(
                                i + 1 as int,
                            ));
                        }
                        i += 1;
                    }
                    proof {
                        assert(dirs@.take(dirs@.len() as int) =~= dirs@);
                    }
                    Ok(v)
                }
            }
            Option::None => Err(ConfigError::NoDefaultSearchPath),
        }
    }
}

} // verus!
