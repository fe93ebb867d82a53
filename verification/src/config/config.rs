//! The server's settings, taken from its command-line arguments.
use crate::http::serv::{path_push, push_path};
use crate::text::{decimal, lemma_parse_u16_decimal, parse_u16, spec_parse_u16};
use vstd::prelude::*;
use vstd::string::*;

verus! {

/// The port to listen on and the directory to serve.
#[derive(Debug)]
pub struct Config {
    pub port: u16,
    pub path: String,
}

/// The port that argument `arg` asks for: a number from 1 to 65535, else 8080.
pub open spec fn config_port(arg: Seq<char>) -> u16 {
    match spec_parse_u16(arg) {
        Some(p) => if p != 0 {
            p
        } else {
            8080
        },
        None => 8080,
    }
}

/// The directory that argument `arg` names, seen from working directory `cwd`:
/// an empty or absolute path stays as it is; a relative one is pushed onto `cwd`.
pub open spec fn config_path(arg: Seq<char>, cwd: Seq<char>) -> Seq<char> {
    if arg.len() == 0 || arg[0] == '/' {
        arg
    } else {
        path_push(cwd, arg)
    }
}

impl Config {
    /// Reads the settings from `args` (program name, port, directory), with
    /// `cwd` the working directory that a relative directory is taken from.
    pub fn build(args: Vec<String>, cwd: &str) -> (config: Config)
        requires
            args@.len() >= 3,
        ensures
            config.port == config_port(args@[1]@),
            config.path@ == config_path(args@[2]@, cwd@),
    {
        let input: &str = if args.len() > 2 {
            args[2].as_str()
        } else {
            ""
        };
        let n = input.unicode_len();
        let path = if n == 0 || input.get_char(0) == '/' {
            String::from_str(input)
        } else {
            push_path(cwd, input)
        };
        let port = match parse_u16(args[1].as_str()) {
            Some(p) => if p != 0 {
                p
            } else {
                8080
            },
            None => 8080,
        };
        Config { port, path }
    }
}


/// The configured port is never zero: zero and text that is no port both
/// fall back to 8080.
pub proof fn lemma_config_port_nonzero(arg: Seq<char>)
    ensures
        config_port(arg) != 0,
{
}

/// A port written in decimal is the port that gets configured, for every
/// port from 1 to 65535.
pub proof fn lemma_config_port_decimal(port: u16)
    requires
        port != 0,
    ensures
        config_port(decimal(port as nat)) == port,
{
    lemma_parse_u16_decimal(port);
}

/// An absolute directory is kept as it is, whatever the working directory.
pub proof fn lemma_config_path_absolute(arg: Seq<char>, cwd: Seq<char>)
    requires
        arg.len() > 0,
        arg[0] == '/',
    ensures
        config_path(arg, cwd) == arg,
{
}

} // verus!
