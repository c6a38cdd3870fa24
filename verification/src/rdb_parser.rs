use vstd::prelude::*;

use crate::store::db::Db;
use crate::store::db::RecordV;
use crate::text::int_chars;
use crate::text::i64_to_dec_string;
use crate::text::string_from_utf8;

verus! {

/// Why a snapshot cannot be read.
#[derive(Clone, Copy, Debug, PartialEq, Eq, Structural)]
pub enum RdbError {
    UnexpectedByte,
    UnknownSpecialEncoding,
    Truncated,
    InvalidUtf8,
}

/// What one length marker denotes: a byte count, or an integer stored
/// in place of a string.
#[derive(Clone, Copy, Debug, PartialEq, Eq, Structural)]
pub enum LengthEncoding {
    Length(usize),
    Integer(i64),
}

/// The mathematical form of a parsed snapshot.
pub ghost struct RdbV {
    pub header: Seq<char>,
    pub metadata: Map<Seq<char>, Seq<char>>,
    pub data: Map<Seq<char>, Seq<char>>,
}

// ---------- reading integers out of bytes ----------

/// Four big-endian bytes as an unsigned number.
pub open spec fn spec_u32_be(b0: u8, b1: u8, b2: u8, b3: u8) -> u32 {
    ((b0 as u32) << 24) | ((b1 as u32) << 16) | ((b2 as u32) << 8) | (b3 as u32)
}

/// One byte as a signed number.
pub open spec fn spec_i8(b: u8) -> i64 {
    if b >= 128 {
        (b - 256) as i64
    } else {
        b as i64
    }
}

/// Two little-endian bytes as a signed number.
pub open spec fn spec_i16_le(b0: u8, b1: u8) -> i64 {
    let u = b0 + 256 * (b1 as int);
    if u >= 32768 {
        (u - 65536) as i64
    } else {
        u as i64
    }
}

/// Four little-endian bytes as a signed number.
pub open spec fn spec_i32_le(b0: u8, b1: u8, b2: u8, b3: u8) -> i64 {
    let u = b0 + 256 * (b1 as int) + 65536 * (b2 as int) + 16777216 * (b3 as int);
    if u >= 2147483648 {
        (u - 4294967296) as i64
    } else {
        u as i64
    }
}

// ---------- the byte-level grammar ----------

/// Exactly `len` bytes at `pos`, or a truncation failure.
pub open spec fn spec_read_exact(input: Seq<u8>, pos: int, len: int) -> Result<
    (Seq<u8>, int),
    RdbError,
> {
    if 0 <= pos && 0 <= len && pos + len <= input.len() {
        Ok((input.subrange(pos, pos + len), pos + len))
    } else {
        Err(RdbError::Truncated)
    }
}

/// One length marker at `pos`. The top two bits of the first byte pick
/// the variant: a six-bit length, a fourteen-bit length, a four-byte
/// big-endian length, or a stored integer whose low six bits pick its
/// width; any other width is refused.
pub open spec fn spec_read_length_or_int(input: Seq<u8>, pos: int) -> Result<
    (LengthEncoding, int),
    RdbError,
> {
    if pos < 0 || pos >= input.len() {
        Err(RdbError::Truncated)
    } else {
        let b = input[pos];
        let enc = b >> 6;
        if enc == 0 {
            Ok((LengthEncoding::Length((b & 0x3F) as usize), pos + 1))
        } else if enc == 1 {
            if pos + 2 <= input.len() {
                Ok(
                    (
                        LengthEncoding::Length(
                            (((b & 0x3F) as usize) << 8) | (input[pos + 1] as usize),
                        ),
                        pos + 2,
                    ),
                )
            } else {
                Err(RdbError::Truncated)
            }
        } else if enc == 2 {
            if pos + 5 <= input.len() {
                Ok(
                    (
                        LengthEncoding::Length(
                            spec_u32_be(
                                input[pos + 1],
                                input[pos + 2],
                                input[pos + 3],
                                input[pos + 4],
                            ) as usize,
                        ),
                        pos + 5,
                    ),
                )
            } else {
                Err(RdbError::Truncated)
            }
        } else {
            let w = b & 0x3F;
            if w == 0 {
                if pos + 2 <= input.len() {
                    Ok((LengthEncoding::Integer(spec_i8(input[pos + 1])), pos + 2))
                } else {
                    Err(RdbError::Truncated)
                }
            } else if w == 1 {
                if pos + 3 <= input.len() {
                    Ok(
                        (
                            LengthEncoding::Integer(spec_i16_le(input[pos + 1], input[pos + 2])),
                            pos + 3,
                        ),
                    )
                } else {
                    Err(RdbError::Truncated)
                }
            } else if w == 2 {
                if pos + 5 <= input.len() {
                    Ok(
                        (
                            LengthEncoding::Integer(
                                spec_i32_le(
                                    input[pos + 1],
                                    input[pos + 2],
                                    input[pos + 3],
                                    input[pos + 4],
                                ),
                            ),
                            pos + 5,
                        ),
                    )
                } else {
                    Err(RdbError::Truncated)
                }
            } else {
                Err(RdbError::UnknownSpecialEncoding)
            }
        }
    }
}

/// One string at `pos`: a byte run read as UTF-8 when the marker gives
/// a length, or the decimal text of a stored integer.
pub open spec fn spec_read_string(input: Seq<u8>, pos: int) -> Result<(Seq<char>, int), RdbError> {
    match spec_read_length_or_int(input, pos) {
        Err(e) => Err(e),
        Ok((LengthEncoding::Length(l), p2)) => match spec_read_exact(input, p2, l as int) {
            Err(e) => Err(e),
            Ok((bytes, p3)) => if vstd::utf8::valid_utf8(bytes) {
                Ok((vstd::utf8::decode_utf8(bytes), p3))
            } else {
                Err(RdbError::InvalidUtf8)
            },
        },
        Ok((LengthEncoding::Integer(v), p2)) => Ok((int_chars(v as int), p2)),
    }
}

/// `n` records of a database section: one value-type byte each, then a
/// string key and a string value.
pub open spec fn spec_parse_keys(input: Seq<u8>, pos: int, n: nat, acc: RdbV) -> Result<
    (RdbV, int),
    RdbError,
>
    decreases n,
{
    if n == 0 {
        Ok((acc, pos))
    } else if pos < 0 || pos >= input.len() {
        Err(RdbError::Truncated)
    } else {
        match spec_read_string(input, pos + 1) {
            Err(e) => Err(e),
            Ok((k, p2)) => match spec_read_string(input, p2) {
                Err(e) => Err(e),
                Ok((v, p3)) => spec_parse_keys(
                    input,
                    p3,
                    (n - 1) as nat,
                    RdbV { data: acc.data.insert(k, v), ..acc },
                ),
            },
        }
    }
}

/// The marker loop: metadata pairs, database sections, and the end
/// marker; any other marker byte is refused.
pub open spec fn spec_parse_items(input: Seq<u8>, pos: int, acc: RdbV) -> Result<RdbV, RdbError>
    decreases input.len() - pos,
{
    if pos < 0 || pos >= input.len() {
        Err(RdbError::Truncated)
    } else {
        let m = input[pos];
        if m == 0xFF {
            Ok(acc)
        } else if m == 0xFA {
            match spec_read_string(input, pos + 1) {
                Err(e) => Err(e),
                Ok((k, p2)) => match spec_read_string(input, p2) {
                    Err(e) => Err(e),
                    Ok((v, p3)) => if pos < p3 <= input.len() {
                        spec_parse_items(input, p3, RdbV { metadata: acc.metadata.insert(k, v), ..acc })
                    } else {
                        Err(RdbError::Truncated)
                    },
                },
            }
        } else if m == 0xFE {
            if pos + 5 > input.len() {
                Err(RdbError::Truncated)
            } else {
                match spec_parse_keys(input, pos + 5, input[pos + 3] as nat, acc) {
                    Err(e) => Err(e),
                    Ok((acc2, p4)) => if pos < p4 <= input.len() {
                        spec_parse_items(input, p4, acc2)
                    } else {
                        Err(RdbError::Truncated)
                    },
                }
            }
        } else {
            Err(RdbError::UnexpectedByte)
        }
    }
}

/// A whole snapshot starting at `pos`: nine header bytes read as
/// UTF-8, then the marker loop.
pub open spec fn spec_parse(input: Seq<u8>, pos: int) -> Result<RdbV, RdbError> {
    match spec_read_exact(input, pos, 9) {
        Err(e) => Err(e),
        Ok((hb, p1)) => if vstd::utf8::valid_utf8(hb) {
            spec_parse_items(
                input,
                p1,
                RdbV {
                    header: vstd::utf8::decode_utf8(hb),
                    metadata: Map::empty(),
                    data: Map::empty(),
                },
            )
        } else {
            Err(RdbError::InvalidUtf8)
        },
    }
}

// ---------- the parsed snapshot ----------

spec fn pairs_map(s: Seq<(String, String)>) -> Map<Seq<char>, Seq<char>>
    decreases s.len(),
{
    if s.len() == 0 {
        Map::empty()
    } else {
        pairs_map(s.drop_last()).insert(s.last().0@, s.last().1@)
    }
}

/// Snapshot records as store records: plain values with no expiry.
pub open spec fn records_of(m: Map<Seq<char>, Seq<char>>) -> Map<Seq<char>, RecordV> {
    m.map_values(|v: Seq<char>| RecordV { value: v, expiry: None })
}

/// A parsed snapshot: the header text and the two key/value sections.
/// A pair written under a key already present replaces its value.
pub struct RDB {
    header: String,
    metadata: Vec<(String, String)>,
    data: Vec<(String, String)>,
}

impl View for RDB {
    type V = RdbV;

    closed spec fn view(&self) -> RdbV {
        RdbV {
            header: self.header@,
            metadata: pairs_map(self.metadata@),
            data: pairs_map(self.data@),
        }
    }
}

impl RDB {
    /// An empty snapshot.
    pub fn new() -> (r: RDB)
        ensures
            r@.header == Seq::<char>::empty(),
            r@.metadata == Map::<Seq<char>, Seq<char>>::empty(),
            r@.data == Map::<Seq<char>, Seq<char>>::empty(),
    {
        proof {
            reveal_strlit("");
        }
        RDB { header: String::new(), metadata: Vec::new(), data: Vec::new() }
    }

    /// Records the header text.
    pub fn header(&mut self, msg: &str)
        ensures
            final(self)@ == (RdbV { header: msg@, ..old(self)@ }),
    {
        self.header = String::from_str(msg);
    }

    /// Records one metadata pair.
    pub fn metadata(&mut self, key: &str, val: &str)
        ensures
            final(self)@ == (RdbV {
                metadata: old(self)@.metadata.insert(key@, val@),
                ..old(self)@
            }),
    {
        let ghost before = self.metadata@;
        self.metadata.push((String::from_str(key), String::from_str(val)));
        proof {
            assert(self.metadata@.drop_last() =~= before);
        }
    }

    /// Records one data pair.
    pub fn data(&mut self, key: &str, val: &str)
        ensures
            final(self)@ == (RdbV { data: old(self)@.data.insert(key@, val@), ..old(self)@ }),
    {
        let ghost before = self.data@;
        self.data.push((String::from_str(key), String::from_str(val)));
        proof {
            assert(self.data@.drop_last() =~= before);
        }
    }

    /// Seeds a store with every data pair, none of them expiring; keys
    /// already present are overwritten.
    pub fn apply_to(&self, db: &mut Db)
        ensures
            final(db)@ == old(db)@.union_prefer_right(records_of(self@.data)),
    {
        let n = self.data.len();
        let mut i: usize = 0;
        while i < n
            invariant
                0 <= i <= n,
                n == self.data@.len(),
                db@ == old(db)@.union_prefer_right(
                    records_of(pairs_map(self.data@.subrange(0, i as int))),
                ),
            decreases n - i,
        {
            let ghost prefix = self.data@.subrange(0, i as int);
            let _ = db.set(self.data[i].0.as_str(), self.data[i].1.as_str(), None);
            proof {
                let longer = self.data@.subrange(0, i + 1);
                assert(longer.drop_last() =~= prefix);
                assert(longer.last() == self.data@[i as int]);
                assert(db@ =~= old(db)@.union_prefer_right(records_of(pairs_map(longer))));
            }
            i = i + 1;
        }
        proof {
            assert(self.data@.subrange(0, n as int) =~= self.data@);
        }
    }
}

// ---------- the reader ----------

/// The mathematical form of the reader: the bytes and the position.
pub ghost struct ParserV {
    pub input: Seq<u8>,
    pub pos: int,
}

/// A snapshot reader over a byte buffer.
pub struct RDBParser {
    input: Vec<u8>,
    pos: usize,
}

impl View for RDBParser {
    type V = ParserV;

    closed spec fn view(&self) -> ParserV {
        ParserV { input: self.input@, pos: self.pos as int }
    }
}

impl RDBParser {
    #[verifier::type_invariant]
    spec fn wf(self) -> bool {
        self.pos <= self.input@.len()
    }

    /// A reader at the start of the given bytes.
    pub fn new(input: Vec<u8>) -> (r: RDBParser)
        ensures
            r@.input == input@,
            r@.pos == 0,
    {
        RDBParser { input, pos: 0 }
    }

    /// Reads exactly `len` bytes and advances past them.
    pub fn read_exact(&mut self, len: usize) -> (r: Result<Vec<u8>, RdbError>)
        ensures
            final(self)@.input == old(self)@.input,
            match (r, spec_read_exact(old(self)@.input, old(self)@.pos, len as int)) {
                (Ok(bytes), Ok(sp)) => bytes@ == sp.0 && final(self)@.pos == sp.1,
                (Err(e1), Err(e2)) => e1 == e2 && final(self)@ == old(self)@,
                _ => false,
            },
    {
        proof {
            use_type_invariant(&*self);
        }
        if len > self.input.len() - self.pos {
            return Err(RdbError::Truncated);
        }
        let out = crate::text::copy_range(self.input.as_slice(), self.pos, self.pos + len);
        self.pos = self.pos + len;
        Ok(out)
    }

    /// Reads one byte and advances past it.
    pub fn read_byte(&mut self) -> (r: Result<u8, RdbError>)
        ensures
            final(self)@.input == old(self)@.input,
            match r {
                Ok(b) => old(self)@.pos < old(self)@.input.len() && b == old(self)@.input[old(
                    self,
                )@.pos] && final(self)@.pos == old(self)@.pos + 1,
                Err(e) => old(self)@.pos >= old(self)@.input.len() && e == RdbError::Truncated
                    && final(self)@ == old(self)@,
            },
    {
        proof {
            use_type_invariant(&*self);
        }
        if self.pos >= self.input.len() {
            return Err(RdbError::Truncated);
        }
        let b = self.input[self.pos];
        self.pos = self.pos + 1;
        Ok(b)
    }

    /// Reads one length marker and advances past it.
    pub fn read_length_or_int(&mut self) -> (r: Result<LengthEncoding, RdbError>)
        ensures
            final(self)@.input == old(self)@.input,
            match (r, spec_read_length_or_int(old(self)@.input, old(self)@.pos)) {
                (Ok(le), Ok(sp)) => le == sp.0 && final(self)@.pos == sp.1 && old(self)@.pos
                    < sp.1 <= old(self)@.input.len(),
                (Err(e1), Err(e2)) => e1 == e2,
                _ => false,
            },
    {
        proof {
            use_type_invariant(&*self);
        }
        let first = match self.read_byte() {
            Err(e) => {
                return Err(e);
            },
            Ok(b) => b,
        };
        let enc: u8 = first >> 6;
        if enc == 0 {
            Ok(LengthEncoding::Length((first & 0x3F) as usize))
        } else if enc == 1 {
            let second = match self.read_byte() {
                Err(e) => {
                    return Err(e);
                },
                Ok(b) => b,
            };
            let l: usize = (((first & 0x3F) as usize) << 8) | (second as usize);
            Ok(LengthEncoding::Length(l))
        } else if enc == 2 {
            let bytes = match self.read_exact(4) {
                Err(e) => {
                    return Err(e);
                },
                Ok(b) => b,
            };
            let l: u32 = ((bytes[0] as u32) << 24) | ((bytes[1] as u32) << 16) | ((bytes[2]
                as u32) << 8) | (bytes[3] as u32);
            Ok(LengthEncoding::Length(l as usize))
        } else {
            let w: u8 = first & 0x3F;
            if w == 0 {
                let b = match self.read_byte() {
                    Err(e) => {
                        return Err(e);
                    },
                    Ok(b) => b,
                };
                let v: i64 = if b >= 128 {
                    (b as i64) - 256
                } else {
                    b as i64
                };
                Ok(LengthEncoding::Integer(v))
            } else if w == 1 {
                let bytes = match self.read_exact(2) {
                    Err(e) => {
                        return Err(e);
                    },
                    Ok(b) => b,
                };
                let u: i64 = (bytes[0] as i64) + 256 * (bytes[1] as i64);
                let v: i64 = if u >= 32768 {
                    u - 65536
                } else {
                    u
                };
                Ok(LengthEncoding::Integer(v))
            } else if w == 2 {
                let bytes = match self.read_exact(4) {
                    Err(e) => {
                        return Err(e);
                    },
                    Ok(b) => b,
                };
                let u: i64 = (bytes[0] as i64) + 256 * (bytes[1] as i64) + 65536 * (bytes[2]
                    as i64) + 16777216 * (bytes[3] as i64);
                let v: i64 = if u >= 2147483648 {
                    u - 4294967296
                } else {
                    u
                };
                Ok(LengthEncoding::Integer(v))
            } else {
                Err(RdbError::UnknownSpecialEncoding)
            }
        }
    }

    /// Reads one string and advances past it.
    pub fn read_string(&mut self) -> (r: Result<String, RdbError>)
        ensures
            final(self)@.input == old(self)@.input,
            match (r, spec_read_string(old(self)@.input, old(self)@.pos)) {
                (Ok(s), Ok(sp)) => s@ == sp.0 && final(self)@.pos == sp.1 && old(self)@.pos < sp.1
                    <= old(self)@.input.len(),
                (Err(e1), Err(e2)) => e1 == e2,
                _ => false,
            },
    {
        proof {
            use_type_invariant(&*self);
        }
        let le = match self.read_length_or_int() {
            Err(e) => {
                return Err(e);
            },
            Ok(le) => le,
        };
        match le {
            LengthEncoding::Length(l) => {
                let bytes = match self.read_exact(l) {
                    Err(e) => {
                        return Err(e);
                    },
                    Ok(b) => b,
                };
                match string_from_utf8(bytes) {
                    None => Err(RdbError::InvalidUtf8),
                    Some(s) => {
                        proof {
                            vstd::utf8::encode_utf8_decode_utf8(s@);
                        }
                        Ok(s)
                    },
                }
            },
            LengthEncoding::Integer(v) => Ok(i64_to_dec_string(v)),
        }
    }

    /// Reads one database section after its marker: two skipped bytes,
    /// a one-byte record count, one more skipped byte, then that many
    /// records into the snapshot's data.
    #[verifier::rlimit(100)]
    #[verifier::spinoff_prover]
    fn parse_db_section(&mut self, rdb: &mut RDB) -> (r: Result<(), RdbError>)
        ensures
            final(self)@.input == old(self)@.input,
            match r {
                Ok(()) => {
                    &&& old(self)@.pos + 4 <= old(self)@.input.len()
                    &&& spec_parse_keys(
                        old(self)@.input,
                        old(self)@.pos + 4,
                        old(self)@.input[old(self)@.pos + 2] as nat,
                        old(rdb)@,
                    ) == Ok::<(RdbV, int), RdbError>((final(rdb)@, final(self)@.pos))
                    &&& old(self)@.pos + 4 <= final(self)@.pos <= old(self)@.input.len()
                },
                Err(e) => (old(self)@.pos + 4 > old(self)@.input.len() && e == RdbError::Truncated)
                    || spec_parse_keys(
                    old(self)@.input,
                    old(self)@.pos + 4,
                    old(self)@.input[old(self)@.pos + 2] as nat,
                    old(rdb)@,
                ) == Err::<(RdbV, int), RdbError>(e),
            },
    {
        proof {
            use_type_invariant(&*self);
        }
        let ghost input0 = self@.input;
        let ghost pos0 = self@.pos;
        let ghost acc0 = rdb@;
        let _db_index = match self.read_byte() {
            Err(e) => {
                return Err(e);
            },
            Ok(b) => b,
        };
        let _hash_marker = match self.read_byte() {
            Err(e) => {
                return Err(e);
            },
            Ok(b) => b,
        };
        let total_keys = match self.read_byte() {
            Err(e) => {
                return Err(e);
            },
            Ok(b) => b,
        };
        let _expire_keys = match self.read_byte() {
            Err(e) => {
                return Err(e);
            },
            Ok(b) => b,
        };
        let mut k: u8 = 0;
        while k < total_keys
            invariant
                input0 == old(self)@.input,
                pos0 == old(self)@.pos,
                acc0 == old(rdb)@,
                self@.input == input0,
                self@.pos <= input0.len(),
                pos0 + 4 <= self@.pos,
                pos0 + 4 <= input0.len(),
                input0[pos0 + 2] == total_keys,
                0 <= k <= total_keys,
                spec_parse_keys(input0, self@.pos as int, (total_keys - k) as nat, rdb@)
                    == spec_parse_keys(input0, pos0 + 4, total_keys as nat, acc0),
            decreases total_keys - k,
        {
            let ghost pos_k = self@.pos;
            let ghost acc_k = rdb@;
            let ghost n_k = (total_keys - k) as nat;
            let _value_type = match self.read_byte() {
                Err(e) => {
                    return Err(e);
                },
                Ok(b) => b,
            };
            let key = match self.read_string() {
                Err(e) => {
                    return Err(e);
                },
                Ok(s) => s,
            };
            let val = match self.read_string() {
                Err(e) => {
                    return Err(e);
                },
                Ok(s) => s,
            };
            rdb.data(key.as_str(), val.as_str());
            proof {
                assert(spec_parse_keys(input0, pos_k as int, n_k, acc_k) == spec_parse_keys(
                    input0,
                    self@.pos as int,
                    (n_k - 1) as nat,
                    rdb@,
                ));
            }
            k = k + 1;
        }
        proof {
            assert(spec_parse_keys(input0, self@.pos as int, 0, rdb@) == Ok::<
                (RdbV, int),
                RdbError,
            >((rdb@, self@.pos as int)));
        }
        Ok(())
    }

    /// Reads one marker and its payload. Gives back whether the end
    /// marker was reached, advancing the marker loop by one step.
    #[verifier::rlimit(100)]
    #[verifier::spinoff_prover]
    fn parse_item(&mut self, rdb: &mut RDB) -> (r: Result<bool, RdbError>)
        ensures
            final(self)@.input == old(self)@.input,
            match r {
                Ok(done) => if done {
                    spec_parse_items(old(self)@.input, old(self)@.pos, old(rdb)@) == Ok::<
                        RdbV,
                        RdbError,
                    >(final(rdb)@)
                } else {
                    &&& spec_parse_items(old(self)@.input, old(self)@.pos, old(rdb)@)
                        == spec_parse_items(old(self)@.input, final(self)@.pos, final(rdb)@)
                    &&& old(self)@.pos < final(self)@.pos <= old(self)@.input.len()
                },
                Err(e) => spec_parse_items(old(self)@.input, old(self)@.pos, old(rdb)@) == Err::<
                    RdbV,
                    RdbError,
                >(e),
            },
    {
        proof {
            use_type_invariant(&*self);
        }
        let ghost pos_at = self@.pos;
        let ghost acc_at = rdb@;
        let marker = match self.read_byte() {
            Err(e) => {
                return Err(e);
            },
            Ok(b) => b,
        };
        if marker == 0xFF {
            return Ok(true);
        } else if marker == 0xFA {
            let key = match self.read_string() {
                Err(e) => {
                    return Err(e);
                },
                Ok(s) => s,
            };
            let val = match self.read_string() {
                Err(e) => {
                    return Err(e);
                },
                Ok(s) => s,
            };
            rdb.metadata(key.as_str(), val.as_str());
            Ok(false)
        } else if marker == 0xFE {
            match self.parse_db_section(rdb) {
                Err(e) => {
                    return Err(e);
                },
                Ok(()) => {},
            }
            Ok(false)
        } else {
            return Err(RdbError::UnexpectedByte);
        }
    }

    /// Reads a whole snapshot: the nine header bytes, then markers up
    /// to the end marker.
    pub fn parse(&mut self) -> (r: Result<RDB, RdbError>)
        ensures
            match (r, spec_parse(old(self)@.input, old(self)@.pos)) {
                (Ok(rdb), Ok(v)) => rdb@ == v,
                (Err(e1), Err(e2)) => e1 == e2,
                _ => false,
            },
    {
        proof {
            use_type_invariant(&*self);
        }
        let ghost input0 = self@.input;
        let header_bytes = match self.read_exact(9) {
            Err(e) => {
                return Err(e);
            },
            Ok(b) => b,
        };
        let header = match string_from_utf8(header_bytes) {
            None => {
                return Err(RdbError::InvalidUtf8);
            },
            Some(s) => s,
        };
        proof {
            vstd::utf8::encode_utf8_decode_utf8(header@);
        }
        let mut rdb = RDB::new();
        rdb.header(header.as_str());
        let ghost target = spec_parse(input0, old(self)@.pos);
        proof {
            assert(target == spec_parse_items(input0, self@.pos, rdb@));
        }
        loop
            invariant
                input0 == old(self)@.input,
                self@.input == input0,
                self@.pos <= input0.len(),
                target == spec_parse(input0, old(self)@.pos),
                spec_parse_items(input0, self@.pos, rdb@) == target,
            decreases input0.len() - self@.pos,
        {
            match self.parse_item(&mut rdb) {
                Err(e) => {
                    return Err(e);
                },
                Ok(true) => {
                    return Ok(rdb);
                },
                Ok(false) => {},
            }
        }
    }
}

} // verus!
