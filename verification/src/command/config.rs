use vstd::prelude::*;

use crate::command::CmdError;
use crate::command::Command;
use crate::command::CommandV;
use crate::resp::Resp;
use crate::resp::RespV;
use crate::store::Store;
use crate::text::str_eq;

verus! {

/// What a settings command does: read, or the accepted no-op write.
#[derive(Clone, Copy, Debug, PartialEq, Eq, Structural)]
pub enum Op {
    Get,
    Put,
}

/// Which setting a settings command names.
#[derive(Clone, Copy, Debug, PartialEq, Eq, Structural)]
pub enum Name {
    Dir,
    DbFileName,
}

/// The canonical text of a setting name.
pub open spec fn spec_name_text(name: Name) -> Seq<char> {
    match name {
        Name::Dir => "dir"@,
        Name::DbFileName => "dbfilename"@,
    }
}

/// The settings grammar: an operation word in upper case, then a
/// setting name in lower case; anything else is refused.
pub open spec fn spec_parse(args: Seq<Seq<char>>) -> Result<CommandV, CmdError> {
    if args.len() < 3 {
        Err(CmdError::BadArgs)
    } else if !(args[1] == "GET"@ || args[1] == "SET"@) {
        Err(CmdError::BadArgs)
    } else if !(args[2] == "dir"@ || args[2] == "dbfilename"@) {
        Err(CmdError::BadArgs)
    } else {
        Ok(
            CommandV::Config {
                op: if args[1] == "GET"@ {
                    Op::Get
                } else {
                    Op::Put
                },
                name: if args[2] == "dir"@ {
                    Name::Dir
                } else {
                    Name::DbFileName
                },
            },
        )
    }
}

/// Reads the operation and setting name after the command word.
pub fn parse(args: &Vec<String>) -> (r: Result<Command, CmdError>)
    ensures
        match (r, spec_parse(args.deep_view())) {
            (Ok(c), Ok(cv)) => c@ == cv,
            (Err(e1), Err(e2)) => e1 == e2,
            _ => false,
        },
{
    proof {
        assert(args.deep_view().len() == args@.len());
        assert(forall|i: int|
            0 <= i < args@.len() ==> (#[trigger] args.deep_view()[i]) == args@[i]@);
    }
    if args.len() < 3 {
        return Err(CmdError::BadArgs);
    }
    let op = if str_eq(args[1].as_str(), "GET") {
        Op::Get
    } else if str_eq(args[1].as_str(), "SET") {
        Op::Put
    } else {
        return Err(CmdError::BadArgs);
    };
    let name = if str_eq(args[2].as_str(), "dir") {
        Name::Dir
    } else if str_eq(args[2].as_str(), "dbfilename") {
        Name::DbFileName
    } else {
        return Err(CmdError::BadArgs);
    };
    Ok(Command::Config { op, name })
}

/// Runs a settings command: a read replies with the name and its
/// value; the accepted no-op write replies with the null bulk string.
pub fn invoke(store: &Store, op: Op, name: Name) -> (r: Resp)
    ensures
        op == Op::Get ==> r@ == RespV::Array(
            seq![
                RespV::BulkString(Some(spec_name_text(name))),
                RespV::BulkString(
                    Some(
                        match name {
                            Name::Dir => store.config.dir@,
                            Name::DbFileName => store.config.db_file_name@,
                        },
                    ),
                ),
            ],
        ),
        op == Op::Put ==> r@ == RespV::BulkString(None::<Seq<char>>),
{
    let key = match name {
        Name::Dir => String::from_str("dir"),
        Name::DbFileName => String::from_str("dbfilename"),
    };
    let val = match name {
        Name::Dir => String::from_str(store.config.dir()),
        Name::DbFileName => String::from_str(store.config.db_file_name()),
    };
    match op {
        Op::Get => {
            let ghost keyv = key@;
            let ghost valv = val@;
            let mut items: Vec<String> = Vec::new();
            items.push(key);
            items.push(val);
            let ghost items_v = items@;
            let r = Resp::array(items);
            proof {
                assert(items_v[0]@ == keyv);
                assert(items_v[1]@ == valv);
                assert(Seq::new(items_v.len(), |i: int| RespV::BulkString(Some(items_v[i]@)))
                    =~= seq![RespV::BulkString(Some(keyv)), RespV::BulkString(Some(valv))]);
            }
            r
        },
        Op::Put => Resp::null(),
    }
}

} // verus!
