//! The daemon's configuration: a KDL file with `port`, `cert_file`,
//! `key_file` and `projects_path`, defaults for what it leaves out, and
//! command-line overrides.

use vstd::prelude::*;
use crate::kdl_tree::{KdlNodeModel, kdl_parse_model, parse_kdl, child_string, child_integer, opt_str,
    get_child_string, get_child_integer,
};
use crate::paths::{join_relative, join_relative_path};

verus! {

#[derive(Debug, Clone, PartialEq)]
pub struct Config {
    pub port: u16,
    pub cert_file: Option<String>,
    pub key_file: Option<String>,
    pub projects_path: String,
}

#[derive(Debug)]
pub enum ConfigError {
    /// The file could not be read: the error's message and the path.
    Io(String, String),
    /// The file is not a KDL document.
    Kdl(kdl::KdlError),
}

/// The mathematical content of a [`Config`].
pub struct ConfigView {
    pub port: u16,
    pub cert_file: Option<Seq<char>>,
    pub key_file: Option<Seq<char>>,
    pub projects_path: Seq<char>,
}

impl View for Config {
    type V = ConfigView;

    open spec fn view(&self) -> ConfigView {
        ConfigView {
            port: self.port,
            cert_file: opt_str(self.cert_file),
            key_file: opt_str(self.key_file),
            projects_path: self.projects_path@,
        }
    }
}

/// The default projects directory: `code` in the home directory, or the
/// empty path where there is no home directory.
pub open spec fn default_projects_path(home: Option<Seq<char>>) -> Seq<char> {
    match home {
        Some(h) => join_relative(h, "code"@),
        None => Seq::empty(),
    }
}

/// The configuration that the top-level nodes of a config file describe,
/// `defaults` filling in what they leave out. A `port` integer is truncated
/// to 16 bits.
pub open spec fn config_of(nodes: Seq<KdlNodeModel>, defaults: ConfigView) -> ConfigView {
    ConfigView {
        port: match child_integer(nodes, "port"@) {
            Some(v) => (v as i64) as u16,
            None => defaults.port,
        },
        cert_file: child_string(nodes, "cert_file"@),
        key_file: child_string(nodes, "key_file"@),
        projects_path: match child_string(nodes, "projects_path"@) {
            Some(p) => p,
            None => defaults.projects_path,
        },
    }
}

impl Config {
    /// The defaults for a user whose home directory is `home`: port 0 (the
    /// OS picks a free port), no TLS files, projects in `<home>/code`.
    pub fn with_home(home: Option<&str>) -> (r: Config)
        ensures
            r.port == 0,
            r.cert_file is None,
            r.key_file is None,
            r.projects_path@ == default_projects_path(
                match home {
                    Some(h) => Some(h@),
                    None => None,
                },
            ),
    {
        let projects_path = match home {
            Some(h) => join_relative_path(h, "code"),
            None => String::new(),
        };
        Config { port: 0, cert_file: None, key_file: None, projects_path }
    }

    /// The configuration that the parsed nodes of a config file describe.
    pub fn from_nodes(nodes: &[KdlNodeModel], defaults: Config) -> (r: Config)
        ensures
            r@ == config_of(nodes@, defaults@),
    {
        let port: u16 = match get_child_integer(nodes, "port") {
            Some(v) => (v as i64) as u16,
            None => defaults.port,
        };
        let cert_file = get_child_string(nodes, "cert_file");
        let key_file = get_child_string(nodes, "key_file");
        let projects_path = match get_child_string(nodes, "projects_path") {
            Some(p) => p,
            None => defaults.projects_path,
        };
        Config { port, cert_file, key_file, projects_path }
    }

    /// Parse a config file's text, `defaults` filling in what it leaves out.
    pub fn parse(input: &str, defaults: Config) -> (r: Result<Config, ConfigError>)
        ensures
            match r {
                Ok(c) => kdl_parse_model(input@) matches Some(nodes) && c@ == config_of(
                    nodes,
                    defaults@,
                ),
                Err(e) => kdl_parse_model(input@) is None && e is Kdl,
            },
    {
        match parse_kdl(input) {
            Ok(nodes) => Ok(Config::from_nodes(nodes.as_slice(), defaults)),
            Err(e) => Err(ConfigError::Kdl(e)),
        }
    }

    /// Merge command-line overrides into this config; `None` keeps a value.
    pub fn merge(&mut self, port: Option<u16>, projects_path: Option<String>)
        ensures
            final(self).port == match port {
                Some(p) => p,
                None => old(self).port,
            },
            final(self).projects_path@ == match projects_path {
                Some(pp) => pp@,
                None => old(self).projects_path@,
            },
            final(self).cert_file == old(self).cert_file,
            final(self).key_file == old(self).key_file,
    {
        if let Some(p) = port {
            self.port = p;
        }
        if let Some(pp) = projects_path {
            self.projects_path = pp;
        }
    }
}

} // verus!
