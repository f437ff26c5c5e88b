//! Global configuration.

use crate::domain::issue::{copy_text, text_of};
use crate::text::same_text;
use vstd::prelude::*;
use vstd::string::StringExecFns;

verus! {

/// The branch that holds the records where the configuration names none.
pub open spec fn data_branch_default() -> Seq<char> {
    "data/itack"@
}

/// The branch that record commits are merged into where the configuration names none.
pub open spec fn merge_branch_default() -> Seq<char> {
    "main"@
}

/// The editor used where neither the configuration nor the environment names one.
pub open spec fn editor_default() -> Seq<char> {
    "vi"@
}

/// Default value for data_branch config.
pub fn default_data_branch() -> (r: Option<String>)
    ensures
        text_of(r) == Some(data_branch_default()),
{
    Some("data/itack".to_owned())
}

/// Default value for merge_branch config.
pub fn default_merge_branch() -> (r: Option<String>)
    ensures
        text_of(r) == Some(merge_branch_default()),
{
    Some("main".to_owned())
}

/// `name` in the directory `dir`.
pub open spec fn joined(dir: Seq<char>, name: Seq<char>) -> Seq<char> {
    dir + seq!['/'] + name
}

/// The path of `name` in the directory `dir`.
pub fn join_path(dir: &str, name: &str) -> (path: String)
    ensures
        path@ == joined(dir@, name@),
{
    let mut path = dir.to_owned();
    path.push('/');
    path.append(name);
    assert(path@ =~= joined(dir@, name@));
    path
}

/// Global itack configuration.
#[derive(Debug, PartialEq, Eq)]
pub struct Config {
    /// Default assignee name for claims.
    pub default_assignee: Option<String>,
    /// Default editor command.
    pub editor: Option<String>,
    /// Branch where itack stores issue data (default: "data/itack").
    pub data_branch: Option<String>,
    /// Branch to merge data into after commits (default: "main").
    /// Set to empty string or null to disable merging (data-only mode).
    pub merge_branch: Option<String>,
}

/// A configuration as mathematical values.
pub struct ConfigView {
    pub default_assignee: Option<Seq<char>>,
    pub editor: Option<Seq<char>>,
    pub data_branch: Option<Seq<char>>,
    pub merge_branch: Option<Seq<char>>,
}

impl View for Config {
    type V = ConfigView;

    open spec fn view(&self) -> ConfigView {
        ConfigView {
            default_assignee: text_of(self.default_assignee),
            editor: text_of(self.editor),
            data_branch: text_of(self.data_branch),
            merge_branch: text_of(self.merge_branch),
        }
    }
}

impl Default for Config {
    fn default() -> (c: Config)
        ensures
            c@ == (ConfigView {
                default_assignee: None,
                editor: None,
                data_branch: Some(data_branch_default()),
                merge_branch: Some(merge_branch_default()),
            }),
    {
        Config {
            default_assignee: None,
            editor: None,
            data_branch: default_data_branch(),
            merge_branch: default_merge_branch(),
        }
    }
}

impl Clone for Config {
    fn clone(&self) -> (r: Config)
        ensures
            r@ == self@,
    {
        Config {
            default_assignee: copy_text(&self.default_assignee),
            editor: copy_text(&self.editor),
            data_branch: copy_text(&self.data_branch),
            merge_branch: copy_text(&self.merge_branch),
        }
    }
}

impl ConfigView {
    /// The editor to use: the configured one, else `$EDITOR`, else `$VISUAL`, else `vi`.
    pub open spec fn editor_to_use(
        self,
        editor_env: Option<Seq<char>>,
        visual_env: Option<Seq<char>>,
    ) -> Seq<char> {
        match self.editor {
            Some(e) => e,
            None => match editor_env {
                Some(e) => e,
                None => match visual_env {
                    Some(e) => e,
                    None => editor_default(),
                },
            },
        }
    }

    /// The branch that holds the records.
    pub open spec fn data_branch_to_use(self) -> Seq<char> {
        match self.data_branch {
            Some(b) => b,
            None => data_branch_default(),
        }
    }

    /// The branch to merge record commits into, where merging is on: a configured branch
    /// with a name that is not empty.
    pub open spec fn merge_target(self) -> Option<Seq<char>> {
        match self.merge_branch {
            Some(b) if b.len() > 0 => Some(b),
            _ => None,
        }
    }
}

impl Config {
    /// Get the global config directory path: `itack_home`, which is what the environment
    /// sets as `ITACK_HOME`, or else `.itack` in the user's home directory.
    pub fn global_dir(itack_home: Option<String>, home_dir: Option<String>) -> (r: Option<String>)
        ensures
            text_of(r) == (match itack_home {
                Some(home) => Some(home@),
                None => match home_dir {
                    Some(dir) => Some(joined(dir@, ".itack"@)),
                    None => None,
                },
            }),
    {
        match itack_home {
            Some(home) => Some(home),
            None => match home_dir {
                Some(dir) => Some(join_path(dir.as_str(), ".itack")),
                None => None,
            },
        }
    }

    /// Get the global config file path: `config.toml` in the global config directory.
    pub fn global_path(itack_home: Option<String>, home_dir: Option<String>) -> (r: Option<String>)
        ensures
            text_of(r) == (match itack_home {
                Some(home) => Some(joined(home@, "config.toml"@)),
                None => match home_dir {
                    Some(dir) => Some(joined(joined(dir@, ".itack"@), "config.toml"@)),
                    None => None,
                },
            }),
    {
        match Config::global_dir(itack_home, home_dir) {
            Some(dir) => Some(join_path(dir.as_str(), "config.toml")),
            None => None,
        }
    }

    /// Get the editor command to use, given what the environment sets as `EDITOR` and as
    /// `VISUAL`.
    pub fn get_editor(&self, editor_env: Option<String>, visual_env: Option<String>) -> (r: String)
        ensures
            r@ == self@.editor_to_use(text_of(editor_env), text_of(visual_env)),
    {
        match &self.editor {
            Some(e) => e.clone(),
            None => match editor_env {
                Some(e) => e,
                None => match visual_env {
                    Some(e) => e,
                    None => "vi".to_owned(),
                },
            },
        }
    }

    /// The branch that holds the records.
    pub fn data_branch_name(&self) -> (r: String)
        ensures
            r@ == self@.data_branch_to_use(),
    {
        match &self.data_branch {
            Some(b) => b.clone(),
            None => "data/itack".to_owned(),
        }
    }

    /// The branch to merge record commits into, or `None` in data-only mode.
    pub fn merge_target(&self) -> (r: Option<String>)
        ensures
            text_of(r) == self@.merge_target(),
    {
        match &self.merge_branch {
            Some(b) => {
                if same_text(b.as_str(), "") {
                    proof {
                        reveal_strlit("");
                    }
                    None
                } else {
                    proof {
                        reveal_strlit("");
                        assert(b@.len() > 0) by {
                            if b@.len() == 0 {
                                assert(b@ =~= ""@);
                            }
                        }
                    }
                    Some(b.clone())
                }
            },
            None => None,
        }
    }
}

} // verus!
