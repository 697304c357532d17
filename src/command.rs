use vstd::prelude::*;

verus! {

/// The single byte that opens every connection from the coordinator.
#[derive(Clone, Copy, Debug, PartialEq, Eq, Structural)]
pub enum HostCommand {
    /// Nothing to do yet: the worker hangs up and polls again.
    Wait,
    /// A program frame and a data frame follow.
    Execute,
    /// The worker leaves its polling loop.
    Terminate,
}

/// The wire value of each command.
pub open spec fn command_byte(c: HostCommand) -> u8 {
    match c {
        HostCommand::Wait => 0,
        HostCommand::Execute => 1,
        HostCommand::Terminate => 2,
    }
}

impl HostCommand {
    /// The byte that carries this command on the wire.
    pub fn to_byte(&self) -> (r: u8)
        ensures
            r == command_byte(*self),
    {
        match self {
            HostCommand::Wait => 0,
            HostCommand::Execute => 1,
            HostCommand::Terminate => 2,
        }
    }

    /// Reads a command byte; any byte that names no command is refused.
    pub fn try_from(v: u8) -> (r: Result<HostCommand, ()>)
        ensures
            r matches Ok(c) ==> command_byte(c) == v,
            r is Err <==> v > 2,
    {
        if v == 0 {
            Ok(HostCommand::Wait)
        } else if v == 1 {
            Ok(HostCommand::Execute)
        } else if v == 2 {
            Ok(HostCommand::Terminate)
        } else {
            Err(())
        }
    }
}

/// Reading back the byte of a command gives that command.
pub proof fn lemma_command_round_trip(c: HostCommand)
    ensures
        command_byte(c) <= 2,
        forall|d: HostCommand| command_byte(d) == command_byte(c) ==> d == c,
{
}

} // verus!
