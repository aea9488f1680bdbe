//! The settings: where the store lives and how the picker is run.

use vstd::prelude::*;

verus! {

/// The settings of one run. `dmenu_command` is the picker's command line;
/// the search arguments are appended to it when picking a mark or a tag.
pub struct Config {
    pub config_file: String,
    pub database_file: String,
    pub dmenu_command: String,
    pub dmenu_mark_search_args: String,
    pub dmenu_tag_search_args: String,
}

/// Why settings were refused.
#[derive(Debug, Clone, Copy, PartialEq, Eq, Structural)]
pub enum ConfigError {
    /// The store's path is empty.
    EmptyDatabasePath,
}

/// The value given on the command line, else the one from the file.
pub open spec fn chosen(given: Option<String>, from_file: Seq<char>) -> Seq<char> {
    match given {
        Some(v) => v@,
        None => from_file,
    }
}

fn choose_setting(given: Option<String>, from_file: &String) -> (r: String)
    ensures
        r@ == chosen(given, from_file@),
{
    match given {
        Some(v) => v,
        None => from_file.clone(),
    }
}

impl Config {
    /// The default settings, read from `config_file`: the store at
    /// `database_file`, `dmenu` as the picker, no search arguments.
    pub fn new(config_file: String, database_file: String) -> (r: Config)
        ensures
            r.config_file@ == config_file@,
            r.database_file@ == database_file@,
            r.dmenu_command@ == seq!['d', 'm', 'e', 'n', 'u'],
            r.dmenu_mark_search_args@.len() == 0,
            r.dmenu_tag_search_args@.len() == 0,
    {
        proof {
            reveal_strlit("dmenu");
            reveal_strlit("");
        }
        Config {
            config_file,
            database_file,
            dmenu_command: String::from_str("dmenu"),
            dmenu_mark_search_args: String::from_str(""),
            dmenu_tag_search_args: String::from_str(""),
        }
    }

    /// Takes each setting from the command line where it was given there, else
    /// from `file`, the settings read from the configuration file. Fails,
    /// leaving the settings unchanged, when the store's path would be empty.
    pub fn load_config(
        &mut self,
        file: &Config,
        database_file: Option<String>,
        dmenu_command: Option<String>,
        dmenu_mark_search_args: Option<String>,
        dmenu_tag_search_args: Option<String>,
    ) -> (r: Result<(), ConfigError>)
        ensures
            chosen(database_file, file.database_file@).len() == 0 <==> r is Err,
            r is Err ==> r == Err::<(), ConfigError>(ConfigError::EmptyDatabasePath) && *final(self)
                == *old(self),
            r is Ok ==> {
                &&& final(self).config_file == old(self).config_file
                &&& final(self).database_file@ == chosen(database_file, file.database_file@)
                &&& final(self).dmenu_command@ == chosen(dmenu_command, file.dmenu_command@)
                &&& final(self).dmenu_mark_search_args@ == chosen(
                    dmenu_mark_search_args,
                    file.dmenu_mark_search_args@,
                )
                &&& final(self).dmenu_tag_search_args@ == chosen(
                    dmenu_tag_search_args,
                    file.dmenu_tag_search_args@,
                )
            },
    {
        let database_file = choose_setting(database_file, &file.database_file);
        if database_file.as_str().is_empty() {
            return Err(ConfigError::EmptyDatabasePath);
        }
        self.database_file = database_file;
        self.dmenu_command = choose_setting(dmenu_command, &file.dmenu_command);
        self.dmenu_mark_search_args = choose_setting(dmenu_mark_search_args, &file.dmenu_mark_search_args);
        self.dmenu_tag_search_args = choose_setting(dmenu_tag_search_args, &file.dmenu_tag_search_args);
        Ok(())
    }
}

} // verus!
