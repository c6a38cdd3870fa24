use vstd::prelude::*;

use crate::command::executed_at_some_instant;
use crate::command::spec_parse;
use crate::command::Command;
use crate::resp::spec_decode;
use crate::resp::spec_encode;
use crate::resp::Resp;
use crate::resp::RespError;
use crate::resp::RespV;
use crate::store::Store;

verus! {

/// What one request step promises: a framing failure is returned as
/// is with the store untouched; an argument vector that names no
/// command is answered with a generic one-line error; and a command
/// runs as `execute_post` says, at some instant of the wall clock.
pub open spec fn frame_post(s0: Store, s1: Store, buf: Seq<u8>, r: Result<String, RespError>) -> bool {
    match r {
        Ok(reply) => match spec_decode(buf) {
            Ok(args) => match spec_parse(args) {
                Ok(c) => executed_at_some_instant(c, s0, s1, reply@),
                Err(_) => s1 == s0 && reply@ == spec_encode(
                    RespV::SimpleError("Something went wrong"@),
                ),
            },
            Err(_) => false,
        },
        Err(e) => spec_decode(buf) == Err::<Seq<Seq<char>>, RespError>(e) && s1 == s0,
    }
}

/// One step of the per-connection loop: decode the frame, parse and
/// run the command, and encode the reply. A framing failure comes back
/// as the error, which ends the session.
pub fn handle_frame(store: &mut Store, buf: &[u8]) -> (r: Result<String, RespError>)
    ensures
        frame_post(*old(store), *final(store), buf@, r),
{
    let args = match Resp::decode(buf) {
        Err(e) => {
            return Err(e);
        },
        Ok(a) => a,
    };
    let ghost dv = args.deep_view();
    let cmd = match Command::parse(args) {
        Err(_) => {
            return Ok(Resp::error("Something went wrong").encode());
        },
        Ok(c) => c,
    };
    let ghost cv = cmd@;
    let reply = cmd.execute(store);
    proof {
        assert(spec_decode(buf@) == Ok::<Seq<Seq<char>>, RespError>(dv));
        assert(crate::command::spec_parse(dv) == Ok::<
            crate::command::CommandV,
            crate::command::CmdError,
        >(cv));
        assert(spec_parse(spec_decode(buf@)->Ok_0)->Ok_0 == cv);
        assert(executed_at_some_instant(cv, *old(store), *store, reply@));
        assert(frame_post(*old(store), *store, buf@, Ok(reply)));
    }
    Ok(reply)
}

} // verus!
