use vstd::prelude::*;

use crate::command::CmdError;
use crate::command::Command;
use crate::command::CommandV;
use crate::resp::Resp;
use crate::resp::RespV;
use crate::store::db::RecordV;
use crate::store::spec_deadline;
use crate::store::Store;
use crate::text::parse_u64;
use crate::text::parse_u64_chars;
use crate::text::str_eq;

verus! {

/// A lifetime in seconds as milliseconds, capped at the largest `u64`.
pub open spec fn spec_ms_of_secs(t: u64) -> u64 {
    if t * 1000 <= u64::MAX {
        (t * 1000) as u64
    } else {
        u64::MAX
    }
}

/// The write grammar: a key and a value, then an optional lifetime as
/// an upper-case unit word and a decimal number. A number that cannot
/// be read is refused; a unit word other than the two known ones means
/// no lifetime at all.
pub open spec fn spec_parse(args: Seq<Seq<char>>) -> Result<CommandV, CmdError> {
    if args.len() < 3 {
        Err(CmdError::BadArgs)
    } else if args.len() < 5 {
        Ok(CommandV::Put { key: args[1], value: args[2], expiry: None })
    } else {
        match parse_u64_chars(args[4]) {
            None => Err(CmdError::BadArgs),
            Some(t) => Ok(
                CommandV::Put {
                    key: args[1],
                    value: args[2],
                    expiry: if args[3] == "PX"@ {
                        Some(t)
                    } else if args[3] == "EX"@ {
                        Some(spec_ms_of_secs(t))
                    } else {
                        None
                    },
                },
            ),
        }
    }
}

/// Reads the key, the value and the optional lifetime after the
/// command word.
pub fn parse(args: &Vec<String>) -> (r: Result<Command, CmdError>)
    ensures
        match (r, spec_parse(args.deep_view())) {
            (Ok(c), Ok(cv)) => c@ == cv,
            (Err(e1), Err(e2)) => e1 == e2,
            _ => false,
        },
{
    proof {
        assert(args.deep_view().len() == args@.len());
        assert(forall|i: int|
            0 <= i < args@.len() ==> (#[trigger] args.deep_view()[i]) == args@[i]@);
    }
    if args.len() < 3 {
        return Err(CmdError::BadArgs);
    }
    let key = args[1].clone();
    let value = args[2].clone();
    if args.len() < 5 {
        return Ok(Command::Put { key, value, expiry: None });
    }
    let t = match parse_u64(args[4].as_str()) {
        None => {
            return Err(CmdError::BadArgs);
        },
        Some(t) => t,
    };
    let expiry = if str_eq(args[3].as_str(), "PX") {
        Some(t)
    } else if str_eq(args[3].as_str(), "EX") {
        match t.checked_mul(1000) {
            Some(ms) => Some(ms),
            None => Some(u64::MAX),
        }
    } else {
        None
    };
    Ok(Command::Put { key, value, expiry })
}

/// Writes the value under the key as of the instant `now`, turning the
/// optional lifetime into an absolute expiry, and replies with the
/// fixed success line.
pub fn invoke(store: &mut Store, key: &str, value: &str, expiry: Option<u64>, now: u64) -> (r:
    Resp)
    ensures
        final(store).config == old(store).config,
        final(store).db@ == old(store).db@.insert(
            key@,
            (RecordV { value: value@, expiry: spec_deadline(expiry, now) }),
        ),
        r@ == RespV::SimpleString("OK"@),
{
    let _ = store.set_at(key, value, expiry, now);
    Resp::ok()
}

} // verus!
