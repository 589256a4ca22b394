use forest_filecoin::tool::subcommands::{
    read_config, Cli, Config, ConfigError, ConfigFile, NetworkChain, Subcommand,
};

#[test]
fn no_file_gives_the_default_configuration() {
    assert_eq!(read_config(ConfigFile::Missing, &None), Ok(Config::default()));
    assert_eq!(
        Config::default(),
        Config {
            chain: NetworkChain::Mainnet
        }
    );
}

#[test]
fn no_file_ignores_the_chain_asked_for() {
    assert_eq!(
        read_config(ConfigFile::Missing, &Some(NetworkChain::Calibnet)),
        Ok(Config {
            chain: NetworkChain::Mainnet
        })
    );
}

#[test]
fn unreadable_file_is_a_read_error() {
    assert_eq!(
        read_config(
            ConfigFile::Unreadable(String::from("permission denied")),
            &Some(NetworkChain::Calibnet)
        ),
        Err(ConfigError::Read(String::from("permission denied")))
    );
}

#[test]
fn malformed_file_is_a_parse_error() {
    assert_eq!(
        read_config(ConfigFile::Malformed(String::from("line 3")), &None),
        Err(ConfigError::Parse(String::from("line 3")))
    );
}

#[test]
fn parsed_file_keeps_its_chain() {
    let file = ConfigFile::Parsed(Config {
        chain: NetworkChain::Calibnet,
    });
    assert_eq!(
        read_config(file, &None),
        Ok(Config {
            chain: NetworkChain::Calibnet
        })
    );
}

#[test]
fn chain_asked_for_overrides_the_file() {
    let file = ConfigFile::Parsed(Config {
        chain: NetworkChain::Calibnet,
    });
    let asked = Some(NetworkChain::Devnet(String::from("local")));
    assert_eq!(
        read_config(file, &asked),
        Ok(Config {
            chain: NetworkChain::Devnet(String::from("local"))
        })
    );
    assert_eq!(asked, Some(NetworkChain::Devnet(String::from("local"))));
}

#[test]
fn network_chain_clones_to_itself() {
    let chains = [
        NetworkChain::Mainnet,
        NetworkChain::Calibnet,
        NetworkChain::Devnet(String::from("x")),
    ];
    for chain in &chains {
        assert_eq!(&chain.clone(), chain);
    }
}

#[test]
fn cli_holds_its_command() {
    let cli = Cli {
        cmd: Subcommand::Snapshot,
    };
    assert_eq!(cli.cmd, Subcommand::Snapshot);
    assert_ne!(cli.cmd, Subcommand::DB);
}
