//! The identity-management tool: its commands, and what it prints.

use vstd::prelude::*;
use vstd::string::StringExecFns;

pub mod dump;
pub mod list;

verus! {

/// Commands of the identity-management tool.
#[derive(Debug, Clone, PartialEq, Eq)]
pub enum NdnSecCommand {
    /// All identities with their keys and certificates.
    List,
    /// The default certificate of one identity, in readable form.
    Dump(String),
}

impl NdnSecCommand {
    /// The argument vector that the command is run with, program first.
    pub open spec fn command_line(self) -> Seq<Seq<char>> {
        match self {
            NdnSecCommand::List => seq!["/usr/bin/ndnsec"@, "list"@, "-c"@],
            NdnSecCommand::Dump(identity) => seq![
                "/usr/bin/ndnsec"@,
                "cert-dump"@,
                "-p"@,
                "-i"@,
                identity@,
            ],
        }
    }

    /// Builds the argument vector of the command.
    pub fn to_command(&self) -> (args: Vec<String>)
        ensures
            args.deep_view() == self.command_line(),
    {
        let mut args: Vec<String> = Vec::new();
        args.push(String::from_str("/usr/bin/ndnsec"));
        match self {
            NdnSecCommand::List => {
                args.push(String::from_str("list"));
                args.push(String::from_str("-c"));
            },
            NdnSecCommand::Dump(identity) => {
                args.push(String::from_str("cert-dump"));
                args.push(String::from_str("-p"));
                args.push(String::from_str("-i"));
                args.push(identity.clone());
            },
        }
        assert(args.deep_view() =~= self.command_line());
        args
    }
}

} // verus!
