use vstd::prelude::*;

pub mod config;
pub mod info;
pub mod keys;
pub mod set;

use crate::resp::bulk_views;
use crate::resp::spec_encode;
use crate::resp::Resp;
use crate::resp::RespV;
use crate::store::db::keys_set_ok;
use crate::store::db::spec_get;
use crate::store::db::RecordV;
use crate::store::spec_deadline;
use crate::store::Store;
use crate::text::lower_chars;
use crate::text::eq_lowered;

verus! {

/// Why an argument vector names no runnable command.
#[derive(Clone, Copy, Debug, PartialEq, Eq, Structural)]
pub enum CmdError {
    BadArgs,
    UnknownCommand,
}

/// A typed request, as parsed from an argument vector.
pub enum Command {
    Ping,
    Echo { name: String },
    Get { key: String },
    Put { key: String, value: String, expiry: Option<u64> },
    Config { op: config::Op, name: config::Name },
    Keys { pattern: String },
    Info { kind: info::InfoKind },
}

/// The mathematical form of a request. A write's `expiry` is the
/// requested lifetime in milliseconds, not yet an absolute instant.
pub ghost enum CommandV {
    Ping,
    Echo { name: Seq<char> },
    Get { key: Seq<char> },
    Put { key: Seq<char>, value: Seq<char>, expiry: Option<u64> },
    Config { op: config::Op, name: config::Name },
    Keys { pattern: Seq<char> },
    Info { kind: info::InfoKind },
}

impl View for Command {
    type V = CommandV;

    open spec fn view(&self) -> CommandV {
        match self {
            Command::Ping => CommandV::Ping,
            Command::Echo { name } => CommandV::Echo { name: name@ },
            Command::Get { key } => CommandV::Get { key: key@ },
            Command::Put { key, value, expiry } => CommandV::Put {
                key: key@,
                value: value@,
                expiry: *expiry,
            },
            Command::Config { op, name } => CommandV::Config { op: *op, name: *name },
            Command::Keys { pattern } => CommandV::Keys { pattern: pattern@ },
            Command::Info { kind } => CommandV::Info { kind: *kind },
        }
    }
}

/// The command grammar: dispatch on the first word without regard to
/// ASCII case, then each command's own argument grammar.
pub open spec fn spec_parse(args: Seq<Seq<char>>) -> Result<CommandV, CmdError> {
    if args.len() == 0 {
        Err(CmdError::BadArgs)
    } else {
        let word = lower_chars(args[0]);
        if word == "ping"@ {
            Ok(CommandV::Ping)
        } else if word == "echo"@ {
            if args.len() < 2 {
                Err(CmdError::BadArgs)
            } else {
                Ok(CommandV::Echo { name: args[1] })
            }
        } else if word == "get"@ {
            if args.len() < 2 {
                Err(CmdError::BadArgs)
            } else {
                Ok(CommandV::Get { key: args[1] })
            }
        } else if word == "set"@ {
            set::spec_parse(args)
        } else if word == "config"@ {
            config::spec_parse(args)
        } else if word == "keys"@ {
            keys::spec_parse(args)
        } else if word == "info"@ {
            info::spec_parse(args)
        } else {
            Err(CmdError::UnknownCommand)
        }
    }
}

/// The store contents after a command ran at the instant `now`: only a
/// write changes them.
pub open spec fn spec_db_after(c: CommandV, db: Map<Seq<char>, RecordV>, now: u64) -> Map<
    Seq<char>,
    RecordV,
> {
    match c {
        CommandV::Put { key, value, expiry } => db.insert(
            key,
            RecordV { value, expiry: spec_deadline(expiry, now) },
        ),
        _ => db,
    }
}

/// The reply to every command but the key listing, whose reply order
/// is left open.
pub open spec fn spec_reply(
    c: CommandV,
    dir: Seq<char>,
    db_file_name: Seq<char>,
    replica_of: Seq<char>,
    db: Map<Seq<char>, RecordV>,
    now: u64,
) -> RespV {
    match c {
        CommandV::Ping => RespV::SimpleString("PONG"@),
        CommandV::Echo { name } => RespV::BulkString(Some(name)),
        CommandV::Get { key } => match spec_get(db, key, now) {
            Some(v) => RespV::BulkString(Some(v)),
            None => RespV::BulkString(None),
        },
        CommandV::Put { .. } => RespV::SimpleString("OK"@),
        CommandV::Config { op, name } => match op {
            config::Op::Get => RespV::Array(
                seq![
                    RespV::BulkString(Some(config::spec_name_text(name))),
                    RespV::BulkString(
                        Some(
                            match name {
                                config::Name::Dir => dir,
                                config::Name::DbFileName => db_file_name,
                            },
                        ),
                    ),
                ],
            ),
            config::Op::Put => RespV::BulkString(None),
        },
        CommandV::Keys { .. } => arbitrary(),
        CommandV::Info { kind } => RespV::BulkString(
            Some(info::spec_role_line(kind, replica_of)),
        ),
    }
}

/// Everything running one command promises: the settings are kept, the
/// store moves as `spec_db_after` says, and the encoded reply is the
/// one `spec_reply` gives, or for a key listing the encoding of some
/// correct listing.
pub open spec fn execute_post(c: CommandV, s0: Store, s1: Store, r: Seq<char>, now: u64) -> bool {
    &&& s1.config == s0.config
    &&& s1.db@ == spec_db_after(c, s0.db@, now)
    &&& match c {
        CommandV::Keys { pattern } => exists|ks: Seq<Seq<char>>|
            r == spec_encode(RespV::Array(bulk_views(ks))) && keys_set_ok(ks, s0.db@, pattern),
        _ => r == spec_encode(
            spec_reply(
                c,
                s0.config.dir@,
                s0.config.db_file_name@,
                s0.config.replica_of@,
                s0.db@,
                now,
            ),
        ),
    }
}

/// The command ran at some instant of the wall clock.
pub open spec fn executed_at_some_instant(c: CommandV, s0: Store, s1: Store, r: Seq<char>) -> bool {
    exists|now: u64| execute_post(c, s0, s1, r, now)
}

impl Command {
    /// Reads a typed command out of an argument vector.
    pub fn parse(args: Vec<String>) -> (r: Result<Command, CmdError>)
        ensures
            match (r, spec_parse(args.deep_view())) {
                (Ok(c), Ok(cv)) => c@ == cv,
                (Err(e1), Err(e2)) => e1 == e2,
                _ => false,
            },
    {
        proof {
            assert(args.deep_view().len() == args@.len());
            assert(forall|i: int|
                0 <= i < args@.len() ==> (#[trigger] args.deep_view()[i]) == args@[i]@);
        }
        if args.len() == 0 {
            return Err(CmdError::BadArgs);
        }
        if eq_lowered(args[0].as_str(), "ping") {
            Ok(Command::Ping)
        } else if eq_lowered(args[0].as_str(), "echo") {
            if args.len() < 2 {
                return Err(CmdError::BadArgs);
            }
            Ok(Command::Echo { name: args[1].clone() })
        } else if eq_lowered(args[0].as_str(), "get") {
            if args.len() < 2 {
                return Err(CmdError::BadArgs);
            }
            Ok(Command::Get { key: args[1].clone() })
        } else if eq_lowered(args[0].as_str(), "set") {
            set::parse(&args)
        } else if eq_lowered(args[0].as_str(), "config") {
            config::parse(&args)
        } else if eq_lowered(args[0].as_str(), "keys") {
            keys::parse(&args)
        } else if eq_lowered(args[0].as_str(), "info") {
            info::parse(&args)
        } else {
            Err(CmdError::UnknownCommand)
        }
    }

    /// Runs the command against the store as of the instant `now` and
    /// returns the encoded reply.
    pub fn execute_at(self, store: &mut Store, now: u64) -> (r: String)
        ensures
            execute_post(self@, *old(store), *final(store), r@, now),
    {
        let ghost c = self@;
        let reply: Resp = match self {
            Command::Ping => {
                let r = Resp::SimpleString(String::from_str("PONG"));
                proof {
                    assert(r@ == RespV::SimpleString("PONG"@));
                }
                r
            },
            Command::Echo { name } => Resp::BulkString(Some(name)),
            Command::Get { key } => match store.get_at(key.as_str(), now) {
                Some(value) => Resp::BulkString(Some(value)),
                None => Resp::null(),
            },
            Command::Put { key, value, expiry } => set::invoke(
                store,
                key.as_str(),
                value.as_str(),
                expiry,
                now,
            ),
            Command::Config { op, name } => config::invoke(store, op, name),
            Command::Keys { pattern } => keys::invoke(store, pattern.as_str()),
            Command::Info { kind } => info::invoke(store, kind),
        };
        let out = reply.encode();
        proof {
            match c {
                CommandV::Keys { pattern } => {
                    let ks = choose|ks: Seq<Seq<char>>|
                        reply@ == RespV::Array(bulk_views(ks)) && keys_set_ok(
                            ks,
                            old(store).db@,
                            pattern,
                        );
                    assert(out@ == spec_encode(RespV::Array(bulk_views(ks))));
                },
                _ => {},
            }
        }
        out
    }

    /// Runs the command at the wall clock of the call.
    pub fn execute(self, store: &mut Store) -> (r: String)
        ensures
            executed_at_some_instant(self@, *old(store), *final(store), r@),
    {
        let now = crate::store::now_millis();
        let ghost c = self@;
        let r = self.execute_at(store, now);
        proof {
            assert(execute_post(c, *old(store), *store, r@, now));
        }
        r
    }
}

// ---------- what a write then a read observes ----------

/// A write with no lifetime is seen by every later read: the reply to
/// a read of the key is the bulk string holding the value, whatever
/// instants the two commands ran at.
pub proof fn lemma_set_then_get(
    db: Map<Seq<char>, RecordV>,
    dir: Seq<char>,
    db_file_name: Seq<char>,
    replica_of: Seq<char>,
    k: Seq<char>,
    v: Seq<char>,
    now1: u64,
    now2: u64,
)
    ensures
        spec_reply(
            CommandV::Get { key: k },
            dir,
            db_file_name,
            replica_of,
            spec_db_after(CommandV::Put { key: k, value: v, expiry: None }, db, now1),
            now2,
        ) == RespV::BulkString(Some(v)),
{
}

/// A write with a lifetime of `d` milliseconds is seen by reads
/// strictly before `now1 + d` and masked from that instant on. The
/// sum must stay within `u64`; past it the record never expires.
pub proof fn lemma_set_px_then_get(
    db: Map<Seq<char>, RecordV>,
    dir: Seq<char>,
    db_file_name: Seq<char>,
    replica_of: Seq<char>,
    k: Seq<char>,
    v: Seq<char>,
    d: u64,
    now1: u64,
    now2: u64,
)
    requires
        now1 + d <= u64::MAX,
    ensures
        now2 < now1 + d ==> spec_reply(
            CommandV::Get { key: k },
            dir,
            db_file_name,
            replica_of,
            spec_db_after(CommandV::Put { key: k, value: v, expiry: Some(d) }, db, now1),
            now2,
        ) == RespV::BulkString(Some(v)),
        now2 >= now1 + d ==> spec_reply(
            CommandV::Get { key: k },
            dir,
            db_file_name,
            replica_of,
            spec_db_after(CommandV::Put { key: k, value: v, expiry: Some(d) }, db, now1),
            now2,
        ) == RespV::BulkString(None::<Seq<char>>),
{
}

/// The same visibility rule at second granularity: a lifetime of `t`
/// seconds is the lifetime of `1000 t` milliseconds.
pub proof fn lemma_set_ex_then_get(
    db: Map<Seq<char>, RecordV>,
    dir: Seq<char>,
    db_file_name: Seq<char>,
    replica_of: Seq<char>,
    k: Seq<char>,
    v: Seq<char>,
    t: u64,
    now1: u64,
    now2: u64,
)
    requires
        t * 1000 <= u64::MAX,
        now1 + t * 1000 <= u64::MAX,
    ensures
        now2 < now1 + t * 1000 ==> spec_reply(
            CommandV::Get { key: k },
            dir,
            db_file_name,
            replica_of,
            spec_db_after(
                CommandV::Put { key: k, value: v, expiry: Some(set::spec_ms_of_secs(t)) },
                db,
                now1,
            ),
            now2,
        ) == RespV::BulkString(Some(v)),
        now2 >= now1 + t * 1000 ==> spec_reply(
            CommandV::Get { key: k },
            dir,
            db_file_name,
            replica_of,
            spec_db_after(
                CommandV::Put { key: k, value: v, expiry: Some(set::spec_ms_of_secs(t)) },
                db,
                now1,
            ),
            now2,
        ) == RespV::BulkString(None::<Seq<char>>),
{
    assert(set::spec_ms_of_secs(t) == t * 1000);
}

} // verus!
