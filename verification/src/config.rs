//! The application's own persisted configuration: where the game is
//! installed.  Reading and writing the file is the caller's concern; this
//! module owns what the file's text means.

use vstd::prelude::*;

use crate::ini::ascii_no_upper;
use crate::ini::doc_lookup;
use crate::ini::ini_get;
use crate::ini::ini_new;
use crate::ini::ini_opts;
use crate::ini::ini_parse;
use crate::ini::ini_read;

verus! {

/// Why a configuration text could not be loaded.
#[derive(Debug)]
pub enum ConfigLoadError {
    IniParse { reason: String },
    MissingKey { section: String, key: String },
}

/// A failed write of the configuration file, as the caller reports it.
#[derive(Debug)]
pub struct ConfigWriteError {
    pub path: String,
    pub message: String,
}

/// The application's configuration: the path where the game is located.
#[derive(Clone, Debug)]
pub struct Config {
    pub game_root: String,
}

/// The two configuration query strings are ASCII without capitals, so the
/// case-insensitive document answers them verbatim.
proof fn lemma_config_keys_ascii()
    ensures
        ascii_no_upper("general"@),
        ascii_no_upper("game_root"@),
{
    reveal_strlit("general");
    reveal_strlit("game_root");
    assert forall|i: int| 0 <= i < "general"@.len() implies (("general"@[i] as u32) < 128 && !(
    'A' <= "general"@[i] <= 'Z')) by {
        assert("general"@.len() == 7);
    }
    assert forall|i: int| 0 <= i < "game_root"@.len() implies (("game_root"@[i] as u32) < 128
        && !('A' <= "game_root"@[i] <= 'Z')) by {
        assert("game_root"@.len() == 9);
    }
}

/// The value stored under a key of the parsed configuration, or the error
/// naming the missing key.
pub fn fetch_key(config: &configparser::ini::Ini, section: &str, key: &str) -> (r: Result<
    String,
    ConfigLoadError,
>)
    requires
        ini_opts(*config) is Some,
        ini_opts(*config) == Some(true) || (ascii_no_upper(section@) && ascii_no_upper(key@)),
    ensures
        match doc_lookup(crate::ini::ini_doc(*config), section@, key@) {
            Some(v) => r matches Ok(s) && s@ == v,
            None => r matches Err(e) && (e matches ConfigLoadError::MissingKey {
                section: s,
                key: k,
            } && s@ == section@ && k@ == key@),
        },
{
    match ini_get(config, section, key) {
        Some(v) => Ok(v),
        None => Err(
            ConfigLoadError::MissingKey { section: section.to_owned(), key: key.to_owned() },
        ),
    }
}

impl Config {
    /// A configuration naming the given game path.
    pub fn new(game_root: &str) -> (r: Config)
        ensures
            r.game_root@ == game_root@,
    {
        Config { game_root: game_root.to_owned() }
    }

    /// Parse a configuration text: the game path is the `game_root` key of
    /// the `general` section.
    pub fn load(text: &str) -> (r: Result<Config, ConfigLoadError>)
        ensures
            match ini_parse(text@, false) {
                Err(e) => r matches Err(err) && (err matches ConfigLoadError::IniParse {
                    reason,
                } && reason@ == e),
                Ok(doc) => match doc_lookup(doc, "general"@, "game_root"@) {
                    Some(v) => r matches Ok(c) && c.game_root@ == v,
                    None => r matches Err(err) && (err matches ConfigLoadError::MissingKey {
                        section,
                        key,
                    } && section@ == "general"@ && key@ == "game_root"@),
                },
            },
    {
        let mut config = ini_new();
        match ini_read(&mut config, text.to_owned()) {
            Err(e) => {
                return Err(ConfigLoadError::IniParse { reason: e });
            },
            Ok(()) => {},
        }
        proof {
            lemma_config_keys_ascii();
        }
        let game_root = match fetch_key(&config, "general", "game_root") {
            Ok(v) => v,
            Err(e) => {
                return Err(e);
            },
        };
        Ok(Config { game_root })
    }
}

} // verus!
