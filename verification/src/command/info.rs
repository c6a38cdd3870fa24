use vstd::prelude::*;

use crate::command::CmdError;
use crate::command::Command;
use crate::command::CommandV;
use crate::resp::Resp;
use crate::resp::RespV;
use crate::store::Store;
use crate::text::str_eq;

verus! {

/// Which server section an information request names.
#[derive(Clone, Copy, Debug, PartialEq, Eq, Structural)]
pub enum InfoKind {
    All,
    Replication,
}

/// The information grammar: no section, or exactly the replication
/// section; any other section is refused.
pub open spec fn spec_parse(args: Seq<Seq<char>>) -> Result<CommandV, CmdError> {
    if args.len() < 2 {
        Ok(CommandV::Info { kind: InfoKind::All })
    } else if args[1] == "replication"@ {
        Ok(CommandV::Info { kind: InfoKind::Replication })
    } else {
        Err(CmdError::BadArgs)
    }
}

/// Reads the optional section name after the command word.
pub fn parse(args: &Vec<String>) -> (r: Result<Command, CmdError>)
    ensures
        match (r, spec_parse(args.deep_view())) {
            (Ok(c), Ok(cv)) => c@ == cv,
            (Err(e1), Err(e2)) => e1 == e2,
            _ => false,
        },
{
    proof {
        assert(args.deep_view().len() == args@.len());
        assert(forall|i: int|
            0 <= i < args@.len() ==> (#[trigger] args.deep_view()[i]) == args@[i]@);
    }
    if args.len() < 2 {
        Ok(Command::Info { kind: InfoKind::All })
    } else if str_eq(args[1].as_str(), "replication") {
        Ok(Command::Info { kind: InfoKind::Replication })
    } else {
        Err(CmdError::BadArgs)
    }
}

/// The role line of the information reply. The unsectioned request
/// reports the master role whatever the configuration says.
pub open spec fn spec_role_line(kind: InfoKind, replica_of: Seq<char>) -> Seq<char> {
    match kind {
        InfoKind::Replication => if replica_of.len() == 0 {
            "role:master"@
        } else {
            "role:slave"@
        },
        InfoKind::All => "role:master"@,
    }
}

/// Replies with the role line for the requested section.
pub fn invoke(store: &mut Store, kind: InfoKind) -> (r: Resp)
    ensures
        *final(store) == *old(store),
        r@ == RespV::BulkString(Some(spec_role_line(kind, old(store).config.replica_of@))),
{
    let value = match kind {
        InfoKind::Replication => {
            if store.config.replica_of().is_empty() {
                "role:master"
            } else {
                "role:slave"
            }
        },
        InfoKind::All => "role:master",
    };
    Resp::bulk(value)
}

} // verus!
