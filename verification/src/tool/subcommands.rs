//! Commands of the tool, and the rule by which it settles its configuration.

use vstd::prelude::*;

verus! {

/// Command-line options of the tool.
#[derive(Clone, Copy, Debug, PartialEq, Eq, Hash, Structural)]
pub struct Cli {
    pub cmd: Subcommand,
}

/// The tool's commands.
#[derive(Clone, Copy, Debug, PartialEq, Eq, Hash, Structural)]
pub enum Subcommand {
    /// Benchmark various subsystems.
    Benchmark,
    /// State migration tools.
    StateMigration,
    /// Manage snapshots.
    Snapshot,
    /// Download parameters for generating and verifying proofs.
    Fetch,
    /// Manage archives.
    Archive,
    /// Database management.
    DB,
    /// Utilities for manipulating archive files.
    Car,
    /// API tooling.
    Api,
}

/// The network that the node follows.
#[derive(Debug, PartialEq, Eq, Hash)]
pub enum NetworkChain {
    Mainnet,
    Calibnet,
    Devnet(String),
}

impl Clone for NetworkChain {
    fn clone(&self) -> (r: NetworkChain)
        ensures
            r == *self,
    {
        match self {
            NetworkChain::Mainnet => NetworkChain::Mainnet,
            NetworkChain::Calibnet => NetworkChain::Calibnet,
            NetworkChain::Devnet(name) => NetworkChain::Devnet(name.clone()),
        }
    }
}

/// The tool's configuration.
#[derive(Debug, PartialEq, Eq)]
pub struct Config {
    pub chain: NetworkChain,
}

impl Default for Config {
    /// The configuration of a tool that was given none: the main network.
    fn default() -> (r: Config)
        ensures
            r == (Config { chain: NetworkChain::Mainnet }),
    {
        Config { chain: NetworkChain::Mainnet }
    }
}

/// What became of the search for a configuration file.
#[derive(Debug, PartialEq, Eq)]
pub enum ConfigFile {
    /// No configuration file was named or found.
    Missing,
    /// A file was found and could not be read; holds the reason.
    Unreadable(String),
    /// The file was read and is no valid configuration; holds the reason.
    Malformed(String),
    /// The file was read and parsed.
    Parsed(Config),
}

/// Why no configuration could be settled.
#[derive(Debug, PartialEq, Eq)]
pub enum ConfigError {
    /// The configuration file could not be read.
    Read(String),
    /// The configuration file could not be parsed.
    Parse(String),
}

/// The configuration that `file` and the chain given on the command line
/// settle on.
pub open spec fn settled_config(file: ConfigFile, chain_opt: Option<NetworkChain>) -> Result<
    Config,
    ConfigError,
> {
    match file {
        ConfigFile::Missing => Ok(Config { chain: NetworkChain::Mainnet }),
        ConfigFile::Unreadable(reason) => Err(ConfigError::Read(reason)),
        ConfigFile::Malformed(reason) => Err(ConfigError::Parse(reason)),
        ConfigFile::Parsed(config) => match chain_opt {
            Some(chain) => Ok(Config { chain, ..config }),
            None => Ok(config),
        },
    }
}

/// Settles the configuration. Without a file it is the default one,
/// whatever chain was asked for. A file that could not be read or parsed
/// is an error. Otherwise it is the file's configuration, with the chain
/// given on the command line in place of the file's where one was given.
pub fn read_config(file: ConfigFile, chain_opt: &Option<NetworkChain>) -> (r: Result<
    Config,
    ConfigError,
>)
    ensures
        r == settled_config(file, *chain_opt),
{
    match file {
        ConfigFile::Missing => Ok(Config::default()),
        ConfigFile::Unreadable(reason) => Err(ConfigError::Read(reason)),
        ConfigFile::Malformed(reason) => Err(ConfigError::Parse(reason)),
        ConfigFile::Parsed(config) => {
            let mut config = config;
            if let Some(chain) = chain_opt {
                config.chain = chain.clone();
            }
            Ok(config)
        },
    }
}

} // verus!
