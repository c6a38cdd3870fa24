use vstd::prelude::*;

use crate::command::CmdError;
use crate::command::Command;
use crate::command::CommandV;
use crate::resp::bulk_views;
use crate::resp::Resp;
use crate::resp::RespV;
use crate::store::db::keys_set_ok;
use crate::store::Store;

verus! {

/// The key-listing grammar: exactly one pattern after the command word.
pub open spec fn spec_parse(args: Seq<Seq<char>>) -> Result<CommandV, CmdError> {
    if args.len() < 2 {
        Err(CmdError::BadArgs)
    } else {
        Ok(CommandV::Keys { pattern: args[1] })
    }
}

/// Reads the glob pattern after the command word.
pub fn parse(args: &Vec<String>) -> (r: Result<Command, CmdError>)
    ensures
        match (r, spec_parse(args.deep_view())) {
            (Ok(c), Ok(cv)) => c@ == cv,
            (Err(e1), Err(e2)) => e1 == e2,
            _ => false,
        },
{
    proof {
        assert(args.deep_view().len() == args@.len());
        assert(forall|i: int|
            0 <= i < args@.len() ==> (#[trigger] args.deep_view()[i]) == args@[i]@);
    }
    if args.len() < 2 {
        return Err(CmdError::BadArgs);
    }
    let pattern = args[1].clone();
    Ok(Command::Keys { pattern })
}

/// Replies with one bulk string per key whose text the pattern
/// matches; an unreadable pattern yields the empty array, no error.
pub fn invoke(store: &mut Store, pattern: &str) -> (r: Resp)
    ensures
        *final(store) == *old(store),
        exists|ks: Seq<Seq<char>>|
            r@ == RespV::Array(bulk_views(ks)) && keys_set_ok(ks, old(store).db@, pattern@),
{
    let matching_keys = store.db.keys(pattern);
    let ghost mv = matching_keys@;
    let ghost ks = matching_keys.deep_view();
    let r = Resp::array(matching_keys);
    proof {
        assert(ks.len() == mv.len());
        assert(forall|i: int| 0 <= i < mv.len() ==> (#[trigger] ks[i]) == mv[i]@);
        assert(Seq::new(mv.len(), |i: int| RespV::BulkString(Some(mv[i]@))) =~= bulk_views(ks));
        assert(r@ == RespV::Array(bulk_views(ks)));
    }
    r
}

} // verus!
