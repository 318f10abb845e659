//! The built-in commands, the registry that maps command names to them, and
//! the service that answers each request.
use crate::codec::Request;
use crate::line::opt_view;
use vstd::prelude::*;
use vstd::string::*;

verus! {

/// A built-in command.
#[derive(Debug, Clone, Copy, PartialEq, Eq, Structural)]
pub enum CliCommand {
    /// Answers with its argument, or with nothing when it has none.
    Echo,
    /// Answers with the description of the connection.
    Info,
}

impl CliCommand {
    /// The name under which the command is called.
    pub open spec fn name_spec(self) -> Seq<char> {
        match self {
            CliCommand::Echo => "echo"@,
            CliCommand::Info => "info"@,
        }
    }

    /// What the command answers on a connection described by `info`.
    pub open spec fn call_spec(self, info: Seq<char>, args: Option<Seq<char>>) -> Seq<char> {
        match self {
            CliCommand::Echo => match args {
                Some(a) => a,
                None => Seq::empty(),
            },
            CliCommand::Info => info,
        }
    }

    pub fn name(&self) -> (r: &'static str)
        ensures
            r@ == self.name_spec(),
    {
        match self {
            CliCommand::Echo => "echo",
            CliCommand::Info => "info",
        }
    }

    pub fn description(&self) -> (r: &'static str)
        ensures
            r@ == match self {
                CliCommand::Echo => "Prints the command line."@,
                CliCommand::Info => "Prints connection information."@,
            },
    {
        match self {
            CliCommand::Echo => "Prints the command line.",
            CliCommand::Info => "Prints connection information.",
        }
    }

    /// Runs the command.
    pub fn call(&self, info: String, args: Option<String>) -> (r: String)
        ensures
            r@ == self.call_spec(info@, opt_view(args)),
    {
        match self {
            CliCommand::Echo => match args {
                Some(s) => s,
                None => String::new(),
            },
            CliCommand::Info => info,
        }
    }
}

/// The command that answers to `name` in a list of registrations: the last
/// one registered under that name.
pub open spec fn lookup(cmds: Seq<CliCommand>, name: Seq<char>) -> Option<CliCommand>
    decreases cmds.len(),
{
    if cmds.len() == 0 {
        None
    } else if cmds.last().name_spec() == name {
        Some(cmds.last())
    } else {
        lookup(cmds.drop_last(), name)
    }
}

/// The answer to a command name that nothing is registered under.
pub open spec fn unknown_reply(name: Seq<char>) -> Seq<char> {
    "Unknown command: "@ + name
}

/// The answer of a registry to a request.
pub open spec fn dispatch_spec(
    registry: Map<Seq<char>, CliCommand>,
    info: Seq<char>,
    name: Seq<char>,
    args: Option<Seq<char>>,
) -> Seq<char> {
    if registry.contains_key(name) {
        registry[name].call_spec(info, args)
    } else {
        unknown_reply(name)
    }
}

/// The registry of commands and the service that answers requests with it.
pub struct CliServer {
    commands: Vec<CliCommand>,
}

impl View for CliServer {
    type V = Map<Seq<char>, CliCommand>;

    /// Each command name mapped to the command that answers to it.
    closed spec fn view(&self) -> Map<Seq<char>, CliCommand> {
        Map::new(
            |n: Seq<char>| lookup(self.commands@, n) is Some,
            |n: Seq<char>| lookup(self.commands@, n)->Some_0,
        )
    }
}

impl CliServer {
    /// A server with no commands.
    pub fn new() -> (r: CliServer)
        ensures
            r@ == Map::<Seq<char>, CliCommand>::empty(),
    {
        let r = CliServer { commands: Vec::new() };
        assert(r@ =~= Map::<Seq<char>, CliCommand>::empty());
        r
    }

    /// Registers a command under its name, in place of any command that was
    /// registered under that name before.
    pub fn add_command(&mut self, cmd: CliCommand)
        ensures
            final(self)@ == old(self)@.insert(cmd.name_spec(), cmd),
    {
        self.commands.push(cmd);
        assert(self.commands@.drop_last() =~= old(self).commands@);
        assert(self@ =~= old(self)@.insert(cmd.name_spec(), cmd));
    }

    /// The command registered under `name`, if any.
    pub fn find_command(&self, name: &String) -> (r: Option<CliCommand>)
        ensures
            r == (if self@.contains_key(name@) {
                Some(self@[name@])
            } else {
                None
            }),
    {
        let mut i: usize = self.commands.len();
        assert(self.commands@.take(i as int) =~= self.commands@);
        while i > 0
            invariant
                i <= self.commands@.len(),
                lookup(self.commands@, name@) == lookup(self.commands@.take(i as int), name@),
            decreases i,
        {
            let c = self.commands[i - 1];
            assert(self.commands@.take(i as int).drop_last() =~= self.commands@.take(i - 1));
            let cname = String::from_str(c.name());
            if cname == *name {
                return Some(c);
            }
            i = i - 1;
        }
        None
    }

    /// Answers a request: the registered command's answer, or
    /// `Unknown command: <name>` when no command has that name.
    pub fn call(&self, req: Request) -> (r: String)
        ensures
            r@ == dispatch_spec(self@, req.0@, req.1@, opt_view(req.2)),
            !self@.contains_key(req.1@) ==> r@ == unknown_reply(req.1@),
    {
        let (info, cmdname, args) = req;
        match self.find_command(&cmdname) {
            Some(cmd) => cmd.call(info, args),
            None => {
                let mut reply = String::from_str("Unknown command: ");
                reply.append(cmdname.as_str());
                reply
            },
        }
    }
}

impl Default for CliServer {
    fn default() -> (r: CliServer)
        ensures
            r@ == Map::<Seq<char>, CliCommand>::empty(),
    {
        CliServer::new()
    }
}

/// Describes the far end of a connection.
pub struct CliProto;

impl CliProto {
    /// The description of a connection from the given address and port.
    pub fn peer_info(&self, ip: &str, port: &str) -> (r: String)
        ensures
            r@ == "Client address: "@ + ip@ + "\nClient port: "@ + port@ + "\n"@,
    {
        let mut r = String::from_str("Client address: ");
        r.append(ip);
        r.append("\nClient port: ");
        r.append(port);
        r.append("\n");
        r
    }
}

} // verus!
