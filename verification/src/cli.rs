//! The command line: its subcommands and what each asks the program to do.

use vstd::prelude::*;
use vstd::string::StringSliceAdditionalSpecFns;
use vstd::utf8::{decode_utf8, encode_utf8_decode_utf8, is_char_boundary};

verus! {

/// The command line of `rblog`.
#[derive(Debug, PartialEq)]
pub struct Cli {
    pub subcommand: Option<CliSubcommand>,
}

/// The subcommands.
#[derive(Debug, PartialEq)]
pub enum CliSubcommand {
    Version(SubcommandVersion),
    Run(SubcommandRun),
}

/// `rblog version`: display version information.
#[derive(Debug, PartialEq)]
pub struct SubcommandVersion {}

/// `rblog run [-c <config_file>]`: run the blog.
#[derive(Debug, PartialEq)]
pub struct SubcommandRun {
    config_file: String,
}

/// The configuration file read when none is named.
pub open spec fn default_config_file() -> Seq<char> {
    "blog.yaml"@
}

impl SubcommandRun {
    pub closed spec fn config_file_view(&self) -> Seq<char> {
        self.config_file@
    }

    pub fn new(config_file: String) -> (res: Self)
        ensures
            res.config_file_view() == config_file@,
    {
        SubcommandRun { config_file }
    }

    pub fn config_file(&self) -> (res: &str)
        ensures
            res@ == self.config_file_view(),
    {
        self.config_file.as_str()
    }
}

/// What the command line asks for.
#[derive(Debug)]
pub enum CliCommand {
    /// Print the version.
    PrintVersion,
    /// Load the application from this configuration file and serve it.
    Run { config_file: String },
}

impl Cli {
    /// What to do: print the version for `version`; otherwise run with the
    /// named configuration file, or with `blog.yaml` when no subcommand is
    /// given.
    pub fn command(&self) -> (res: CliCommand)
        ensures
            match self.subcommand {
                Some(CliSubcommand::Version(_)) => res is PrintVersion,
                Some(CliSubcommand::Run(args)) => res matches CliCommand::Run { config_file }
                    && config_file@ == args.config_file_view(),
                None => res matches CliCommand::Run { config_file } && config_file@
                    == default_config_file(),
            },
    {
        match &self.subcommand {
            Some(CliSubcommand::Version(_)) => CliCommand::PrintVersion,
            Some(CliSubcommand::Run(args)) => CliCommand::Run {
                config_file: args.config_file().to_owned(),
            },
            None => CliCommand::Run { config_file: String::from_str("blog.yaml") },
        }
    }
}

/// The version line: `<name> <version>-<sha>`, with the first nine bytes of
/// the commit hash.
pub fn version_string(name: &str, version: &str, sha: &str) -> (res: String)
    requires
        is_char_boundary(sha.spec_bytes(), 9),
    ensures
        res@ == name@ + " "@ + version@ + "-"@ + decode_utf8(sha.spec_bytes().subrange(0, 9)),
{
    let (short, _) = sha.split_at(9);
    proof {
        encode_utf8_decode_utf8(short@);
    }
    let mut res = String::from_str(name);
    res.append(" ");
    res.append(version);
    res.append("-");
    res.append(short);
    res
}

} // verus!
