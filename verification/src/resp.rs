use vstd::prelude::*;

use crate::text::dec_digits;
use crate::text::u64_to_dec_string;

verus! {

broadcast use vstd::utf8::group_utf8_lib;

/// Decoding failures at the framing layer.
#[derive(Clone, Copy, Debug, PartialEq, Eq, Structural)]
pub enum RespError {
    UnsupportedRespType,
    MalformedFrame,
}

/// A reply value of the wire protocol.
pub enum Resp {
    SimpleString(String),
    SimpleError(String),
    BulkString(Option<String>),
    Array(Vec<Resp>),
}

/// The mathematical form of a reply value.
pub ghost enum RespV {
    SimpleString(Seq<char>),
    SimpleError(Seq<char>),
    BulkString(Option<Seq<char>>),
    Array(Seq<RespV>),
}

pub open spec fn resp_view(r: Resp) -> RespV
    decreases r,
{
    match r {
        Resp::SimpleString(s) => RespV::SimpleString(s@),
        Resp::SimpleError(s) => RespV::SimpleError(s@),
        Resp::BulkString(o) => RespV::BulkString(
            match o {
                Some(s) => Some(s@),
                None => None,
            },
        ),
        Resp::Array(items) => RespV::Array(resp_views(items@, 0)),
    }
}

pub open spec fn resp_views(items: Seq<Resp>, i: int) -> Seq<RespV>
    decreases items, items.len() - i,
{
    if i < 0 || i >= items.len() {
        Seq::empty()
    } else {
        seq![resp_view(items[i])] + resp_views(items, i + 1)
    }
}

impl View for Resp {
    type V = RespV;

    open spec fn view(&self) -> RespV {
        resp_view(*self)
    }
}

/// The views of a reply vector, element by element.
pub proof fn lemma_resp_views(items: Seq<Resp>, i: int)
    requires
        0 <= i <= items.len(),
    ensures
        resp_views(items, i).len() == items.len() - i,
        forall|j: int|
            i <= j < items.len() ==> resp_views(items, i)[j - i] == resp_view(#[trigger] items[j]),
    decreases items.len() - i,
{
    if i < items.len() {
        lemma_resp_views(items, i + 1);
    }
}

pub open spec fn crlf() -> Seq<char> {
    seq!['\r', '\n']
}

/// The encoded characters of a reply value.
pub open spec fn spec_encode(v: RespV) -> Seq<char>
    decreases v,
{
    match v {
        RespV::SimpleString(s) => seq!['+'] + s + crlf(),
        RespV::SimpleError(s) => seq!['-'] + s + crlf(),
        RespV::BulkString(None) => seq!['$', '-', '1'] + crlf(),
        RespV::BulkString(Some(s)) => seq!['$'] + dec_digits(vstd::utf8::encode_utf8(s).len())
            + crlf() + s + crlf(),
        RespV::Array(elems) => seq!['*'] + dec_digits(elems.len()) + crlf() + spec_encode_elems(
            elems,
            0,
        ),
    }
}

/// The concatenated encodings of the elements from index `i` on.
pub open spec fn spec_encode_elems(elems: Seq<RespV>, i: int) -> Seq<char>
    decreases elems, elems.len() - i,
{
    if i < 0 || i >= elems.len() {
        Seq::empty()
    } else {
        spec_encode(elems[i]) + spec_encode_elems(elems, i + 1)
    }
}

impl Resp {
    /// Encodes a reply deterministically, variant by variant.
    pub fn encode(&self) -> (r: String)
        ensures
            r@ == spec_encode(self@),
        decreases *self,
    {
        proof {
            reveal_strlit("+");
            reveal_strlit("-");
            reveal_strlit("*");
            reveal_strlit("$");
            reveal_strlit("\r\n");
            reveal_strlit("$-1\r\n");
        }
        match self {
            Resp::SimpleString(msg) => {
                let mut s = String::from_str("+");
                s.append(msg.as_str());
                s.append("\r\n");
                proof {
                    assert(s@ =~= spec_encode(self@));
                }
                s
            },
            Resp::SimpleError(msg) => {
                let mut s = String::from_str("-");
                s.append(msg.as_str());
                s.append("\r\n");
                proof {
                    assert(s@ =~= spec_encode(self@));
                }
                s
            },
            Resp::BulkString(None) => {
                let s = String::from_str("$-1\r\n");
                proof {
                    assert(s@ =~= spec_encode(self@));
                }
                s
            },
            Resp::BulkString(Some(msg)) => {
                let mut s = String::from_str("$");
                let byte_len = msg.as_str().as_bytes().len();
                let len_str = u64_to_dec_string(byte_len as u64);
                s.append(len_str.as_str());
                s.append("\r\n");
                s.append(msg.as_str());
                s.append("\r\n");
                proof {
                    assert(s@ =~= spec_encode(self@));
                }
                s
            },
            Resp::Array(items) => {
                let ghost velems = resp_views(items@, 0);
                proof {
                    lemma_resp_views(items@, 0);
                }
                let mut s = String::from_str("*");
                let n = items.len();
                let len_str = u64_to_dec_string(n as u64);
                s.append(len_str.as_str());
                s.append("\r\n");
                let ghost head = s@;
                let mut i: usize = 0;
                while i < n
                    invariant
                        0 <= i <= n,
                        n == items@.len(),
                        *self == Resp::Array(*items),
                        velems == resp_views(items@, 0),
                        velems.len() == n,
                        forall|j: int| 0 <= j < n ==> velems[j] == resp_view(#[trigger] items@[j]),
                        s@ + spec_encode_elems(velems, i as int) == head + spec_encode_elems(
                            velems,
                            0,
                        ),
                    decreases n - i,
                {
                    let ghost s_before = s@;
                    let elem = &items[i];
                    proof {
                        vstd::std_specs::vec::axiom_vec_index_decreases(*items, i as int);
                        assert(decreases_to!(*self => (*self)->Array_0));
                        assert((*self)->Array_0 == *items);
                        assert(decreases_to!(*self => *elem));
                    }
                    let piece = elem.encode();
                    s.append(piece.as_str());
                    proof {
                        assert(s@ + spec_encode_elems(velems, i + 1) =~= s_before
                            + spec_encode_elems(velems, i as int));
                    }
                    i = i + 1;
                }
                proof {
                    assert(s@ + spec_encode_elems(velems, n as int) =~= s@);
                    assert(s@ =~= head + spec_encode_elems(velems, 0));
                    assert(head =~= seq!['*'] + dec_digits(n as nat) + crlf());
                    assert(s@ =~= spec_encode(self@));
                }
                s
            },
        }
    }

    /// A bulk-string reply holding the given text.
    pub fn bulk(msg: &str) -> (r: Resp)
        ensures
            r@ == RespV::BulkString(Some(msg@)),
    {
        Resp::BulkString(Some(String::from_str(msg)))
    }

    /// The fixed success reply.
    pub fn ok() -> (r: Resp)
        ensures
            r@ == RespV::SimpleString("OK"@),
    {
        Resp::SimpleString(String::from_str("OK"))
    }

    /// The null bulk string.
    pub fn null() -> (r: Resp)
        ensures
            r@ == RespV::BulkString(None::<Seq<char>>),
    {
        Resp::BulkString(None)
    }

    /// A one-line error reply.
    pub fn error(msg: &str) -> (r: Resp)
        ensures
            r@ == RespV::SimpleError(msg@),
    {
        Resp::SimpleError(String::from_str(msg))
    }

    /// An array reply of one bulk string per given item.
    pub fn array(items: Vec<String>) -> (r: Resp)
        ensures
            r@ == RespV::Array(
                Seq::new(items@.len(), |i: int| RespV::BulkString(Some(items@[i]@))),
            ),
    {
        let n = items.len();
        let mut out: Vec<Resp> = Vec::new();
        let mut i: usize = 0;
        while i < n
            invariant
                0 <= i <= n,
                n == items@.len(),
                out@.len() == i,
                forall|j: int|
                    0 <= j < i ==> #[trigger] out@[j] == Resp::BulkString(Some(items@[j])),
            decreases n - i,
        {
            let item = items[i].clone();
            proof {
                assert(item@ == items@[i as int]@);
            }
            out.push(Resp::BulkString(Some(item)));
            i = i + 1;
        }
        let r = Resp::Array(out);
        proof {
            lemma_resp_views(out@, 0);
            assert forall|j: int| 0 <= j < items@.len() implies resp_views(out@, 0)[j]
                == RespV::BulkString(Some(items@[j]@)) by {
                assert(out@[j] == Resp::BulkString(Some(items@[j])));
                assert(resp_views(out@, 0)[j] == resp_view(out@[j]));
            }
            assert(resp_views(out@, 0) =~= Seq::new(
                items@.len(),
                |i: int| RespV::BulkString(Some(items@[i]@)),
            ));
        }
        r
    }
}

// ---------- decoding ----------

pub open spec fn is_digit_byte(b: u8) -> bool {
    48 <= b && b <= 57
}

pub open spec fn all_digit_bytes(s: Seq<u8>) -> bool {
    forall|i: int| 0 <= i < s.len() ==> is_digit_byte(#[trigger] s[i])
}

/// The numeric value of an ASCII digit string, most significant first.
pub open spec fn dec_val_bytes(s: Seq<u8>) -> nat
    recommends
        all_digit_bytes(s),
    decreases s.len(),
{
    if s.len() == 0 {
        0
    } else {
        (dec_val_bytes(s.drop_last()) * 10 + (s.last() - 48)) as nat
    }
}

/// The value read from a digit string never shrinks as more digits follow.
pub proof fn lemma_dec_val_bytes_prefix(s: Seq<u8>, i: int)
    requires
        all_digit_bytes(s),
        0 <= i <= s.len(),
    ensures
        dec_val_bytes(s) >= dec_val_bytes(s.subrange(0, i)),
    decreases s.len() - i,
{
    if i == s.len() {
        assert(s.subrange(0, i) =~= s);
    } else {
        assert(s.subrange(0, i + 1).drop_last() =~= s.subrange(0, i));
        assert(s.subrange(0, i + 1).last() == s[i]);
        assert(dec_val_bytes(s.subrange(0, i + 1)) >= dec_val_bytes(s.subrange(0, i)));
        lemma_dec_val_bytes_prefix(s, i + 1);
    }
}

/// The position of the first carriage return at or after `from`.
pub open spec fn find_cr(bytes: Seq<u8>, from: int) -> Option<int>
    decreases bytes.len() - from,
{
    if from < 0 || from >= bytes.len() {
        None
    } else if bytes[from] == 13u8 {
        Some(from)
    } else {
        find_cr(bytes, from + 1)
    }
}

/// A digit run denotes a number; anything else is no length at all.
pub open spec fn parse_len_bytes(s: Seq<u8>) -> Option<nat> {
    if s.len() == 0 || !all_digit_bytes(s) {
        None
    } else {
        Some(dec_val_bytes(s))
    }
}

/// One bulk-string element at `pos`: `$`, a decimal byte length, a line
/// break, that many payload bytes read as UTF-8, then `\r\n`.
pub open spec fn spec_parse_elem(bytes: Seq<u8>, pos: int) -> Result<(Seq<char>, int), RespError> {
    if pos < 0 || pos >= bytes.len() || bytes[pos] != 36u8 {
        Err(RespError::MalformedFrame)
    } else {
        match find_cr(bytes, pos + 1) {
            None => Err(RespError::MalformedFrame),
            Some(cr) => match parse_len_bytes(bytes.subrange(pos + 1, cr)) {
                None => Err(RespError::MalformedFrame),
                Some(l) => if l > usize::MAX {
                    Err(RespError::MalformedFrame)
                } else {
                    let start = cr + 2;
                    let end = start + l;
                    if end + 2 > bytes.len() {
                        Err(RespError::MalformedFrame)
                    } else if bytes[end] != 13u8 || bytes[end + 1] != 10u8 {
                        Err(RespError::MalformedFrame)
                    } else if !vstd::utf8::valid_utf8(bytes.subrange(start, end)) {
                        Err(RespError::MalformedFrame)
                    } else {
                        Ok((vstd::utf8::decode_utf8(bytes.subrange(start, end)), end + 2))
                    }
                },
            },
        }
    }
}

/// `n` elements in a row starting at `pos`, appended to `acc`.
pub open spec fn spec_parse_elems(bytes: Seq<u8>, pos: int, n: nat, acc: Seq<Seq<char>>) -> Result<
    (Seq<Seq<char>>, int),
    RespError,
>
    decreases n,
{
    if n == 0 {
        Ok((acc, pos))
    } else {
        match spec_parse_elem(bytes, pos) {
            Err(e) => Err(e),
            Ok((v, p2)) => spec_parse_elems(bytes, p2, (n - 1) as nat, acc.push(v)),
        }
    }
}

/// The body of an array frame: a decimal element count up to the first
/// carriage return, one byte skipped, then that many bulk strings.
pub open spec fn spec_parse_array(bytes: Seq<u8>) -> Result<Seq<Seq<char>>, RespError> {
    match find_cr(bytes, 1) {
        None => Err(RespError::MalformedFrame),
        Some(cr) => match parse_len_bytes(bytes.subrange(1, cr)) {
            None => Err(RespError::MalformedFrame),
            Some(n) => if n > usize::MAX {
                Err(RespError::MalformedFrame)
            } else {
                match spec_parse_elems(bytes, cr + 2, n, Seq::empty()) {
                    Err(e) => Err(e),
                    Ok((vals, _)) => Ok(vals),
                }
            },
        },
    }
}

/// A full client frame: an array marker, then the array body. Anything
/// not starting with `*` is refused outright.
pub open spec fn spec_decode(bytes: Seq<u8>) -> Result<Seq<Seq<char>>, RespError> {
    if bytes.len() == 0 || bytes[0] != 42u8 {
        Err(RespError::UnsupportedRespType)
    } else {
        spec_parse_array(bytes)
    }
}

/// Finds the first carriage return at or after `from`.
fn find_cr_exec(buf: &[u8], from: usize) -> (r: Option<usize>)
    ensures
        match r {
            Some(p) => find_cr(buf@, from as int) == Some(p as int) && from <= p < buf@.len()
                && buf@[p as int] == 13u8,
            None => find_cr(buf@, from as int) is None,
        },
{
    let n = buf.len();
    if from >= n {
        return None;
    }
    let mut j: usize = from;
    while j < n
        invariant
            from <= j <= n,
            n == buf@.len(),
            find_cr(buf@, from as int) == find_cr(buf@, j as int),
        decreases n - j,
    {
        if buf[j] == 13 {
            return Some(j);
        }
        j = j + 1;
    }
    None
}

/// Reads the decimal number in `buf[start..end)`, refusing non-digits,
/// an empty run, and values over `usize::MAX`.
fn parse_len_exec(buf: &[u8], start: usize, end: usize) -> (r: Option<usize>)
    requires
        start <= end <= buf@.len(),
    ensures
        ({
            let s = buf@.subrange(start as int, end as int);
            match r {
                Some(v) => parse_len_bytes(s) == Some(v as nat),
                None => parse_len_bytes(s) is None || parse_len_bytes(s)->0 > usize::MAX,
            }
        }),
{
    if start == end {
        return None;
    }
    let ghost s = buf@.subrange(start as int, end as int);
    let mut acc: usize = 0;
    let mut i: usize = start;
    while i < end
        invariant
            start <= i <= end <= buf@.len(),
            s == buf@.subrange(start as int, end as int),
            all_digit_bytes(s.subrange(0, i - start)),
            acc as nat == dec_val_bytes(s.subrange(0, i - start)),
        decreases end - i,
    {
        let b = buf[i];
        proof {
            assert(s[i - start] == buf@[i as int]);
        }
        if b < 48 || b > 57 {
            proof {
                assert(!is_digit_byte(s[i - start]));
            }
            return None;
        }
        let d = (b - 48) as usize;
        proof {
            assert(s.subrange(0, i - start + 1).drop_last() =~= s.subrange(0, i - start));
            assert(s.subrange(0, i - start + 1).last() == s[i - start]);
        }
        if acc > (usize::MAX - d) / 10 {
            proof {
                assert(acc * 10 + d > usize::MAX) by (nonlinear_arith)
                    requires
                        acc > (usize::MAX - d) / 10,
                        d <= 9,
                ;
                assert(dec_val_bytes(s.subrange(0, i - start + 1)) > usize::MAX);
                if all_digit_bytes(s) {
                    lemma_dec_val_bytes_prefix(s, i - start + 1);
                }
            }
            return None;
        }
        proof {
            assert(acc * 10 + d <= usize::MAX) by (nonlinear_arith)
                requires
                    acc <= (usize::MAX - d) / 10,
                    d <= 9,
            ;
        }
        acc = acc * 10 + d;
        i = i + 1;
    }
    proof {
        assert(s.subrange(0, end - start) =~= s);
    }
    Some(acc)
}

/// Parses one bulk-string element, returning the text and the position
/// just past its trailing line break.
fn parse_elem_exec(buf: &[u8], pos: usize) -> (r: Result<(String, usize), RespError>)
    ensures
        match r {
            Ok(sp) => spec_parse_elem(buf@, pos as int) == Ok::<_, RespError>((
                sp.0@,
                sp.1 as int,
            )) && pos < sp.1 <= buf@.len(),
            Err(e) => spec_parse_elem(buf@, pos as int) == Err::<(Seq<char>, int), _>(e),
        },
{
    if pos >= buf.len() || buf[pos] != 36 {
        return Err(RespError::MalformedFrame);
    }
    let cr = match find_cr_exec(buf, pos + 1) {
        None => {
            return Err(RespError::MalformedFrame);
        },
        Some(c) => c,
    };
    let l = match parse_len_exec(buf, pos + 1, cr) {
        None => {
            return Err(RespError::MalformedFrame);
        },
        Some(v) => v,
    };
    if cr + 1 >= buf.len() {
        return Err(RespError::MalformedFrame);
    }
    let start = cr + 2;
    if buf.len() - start < 2 || l > buf.len() - start - 2 {
        return Err(RespError::MalformedFrame);
    }
    let end = start + l;
    if buf[end] != 13 || buf[end + 1] != 10 {
        return Err(RespError::MalformedFrame);
    }
    let payload = crate::text::copy_range(buf, start, end);
    match crate::text::string_from_utf8(payload) {
        None => Err(RespError::MalformedFrame),
        Some(s) => {
            proof {
                assert(vstd::utf8::decode_utf8(buf@.subrange(start as int, end as int)) == s@);
            }
            Ok((s, end + 2))
        },
    }
}

/// Parses the body of an array frame into its argument strings.
pub fn parse_array(buf: &[u8]) -> (r: Result<Vec<String>, RespError>)
    ensures
        match (r, spec_parse_array(buf@)) {
            (Ok(args), Ok(vals)) => args.deep_view() == vals,
            (Err(e1), Err(e2)) => e1 == e2,
            _ => false,
        },
{
    let cr = match find_cr_exec(buf, 1) {
        None => {
            return Err(RespError::MalformedFrame);
        },
        Some(c) => c,
    };
    let n = match parse_len_exec(buf, 1, cr) {
        None => {
            return Err(RespError::MalformedFrame);
        },
        Some(v) => v,
    };
    let mut result: Vec<String> = Vec::new();
    if n == 0 {
        proof {
            assert(result.deep_view() =~= Seq::<Seq<char>>::empty());
        }
        return Ok(result);
    }
    proof {
        assert(cr < buf@.len());
    }
    if cr >= buf.len() - 1 {
        proof {
            assert(spec_parse_elem(buf@, cr + 2) == Err::<(Seq<char>, int), _>(
                RespError::MalformedFrame,
            ));
        }
        return Err(RespError::MalformedFrame);
    }
    let mut pos: usize = cr + 2;
    let mut k: usize = 0;
    proof {
        assert(result.deep_view() =~= Seq::<Seq<char>>::empty());
    }
    while k < n
        invariant
            0 <= k <= n,
            pos <= buf@.len(),
            find_cr(buf@, 1) == Some(cr as int),
            parse_len_bytes(buf@.subrange(1, cr as int)) == Some(n as nat),
            spec_parse_elems(buf@, pos as int, (n - k) as nat, result.deep_view())
                == spec_parse_elems(buf@, cr as int + 2, n as nat, Seq::<Seq<char>>::empty()),
        decreases n - k,
    {
        let ghost dv = result.deep_view();
        match parse_elem_exec(buf, pos) {
            Err(e) => {
                return Err(e);
            },
            Ok(sp) => {
                let (s, p2) = sp;
                proof {
                    assert(spec_parse_elems(buf@, pos as int, (n - k) as nat, dv)
                        == spec_parse_elems(buf@, p2 as int, (n - k - 1) as nat, dv.push(s@)));
                }
                result.push(s);
                proof {
                    assert(result.deep_view() =~= dv.push(s@));
                }
                pos = p2;
                k = k + 1;
            },
        }
    }
    Ok(result)
}

// ---------- the round trip ----------

/// One bulk-string reply per argument.
pub open spec fn bulk_views(xs: Seq<Seq<char>>) -> Seq<RespV> {
    Seq::new(xs.len(), |i: int| RespV::BulkString(Some(xs[i])))
}

/// UTF-8 encoding distributes over concatenation.
pub proof fn lemma_encode_utf8_concat(a: Seq<char>, b: Seq<char>)
    ensures
        vstd::utf8::encode_utf8(a + b) == vstd::utf8::encode_utf8(a) + vstd::utf8::encode_utf8(b),
    decreases a.len(),
{
    if a.len() == 0 {
        assert(a + b =~= b);
        assert(vstd::utf8::encode_utf8(a) =~= Seq::<u8>::empty());
        assert(vstd::utf8::encode_utf8(a) + vstd::utf8::encode_utf8(b) =~= vstd::utf8::encode_utf8(
            b,
        ));
    } else {
        lemma_encode_utf8_concat(a.drop_first(), b);
        assert((a + b).drop_first() =~= a.drop_first() + b);
        assert((a + b)[0] == a[0]);
        assert(vstd::utf8::encode_utf8(a + b) =~= vstd::utf8::encode_utf8(a)
            + vstd::utf8::encode_utf8(b));
    }
}

/// A carriage return preceded by none is the one the search finds.
pub proof fn lemma_find_cr_first(bytes: Seq<u8>, from: int, p: int)
    requires
        0 <= from <= p < bytes.len(),
        bytes[p] == 13u8,
        forall|j: int| from <= j < p ==> bytes[j] != 13u8,
    ensures
        find_cr(bytes, from) == Some(p),
    decreases p - from,
{
    if from < p {
        lemma_find_cr_first(bytes, from + 1, p);
    }
}

/// Digit characters and their ASCII bytes denote the same number.
pub proof fn lemma_dec_val_bytes_of_chars(ds: Seq<char>, bs: Seq<u8>)
    requires
        crate::text::all_digits(ds),
        bs.len() == ds.len(),
        forall|i: int| 0 <= i < ds.len() ==> bs[i] == (#[trigger] ds[i]) as u8,
    ensures
        all_digit_bytes(bs),
        dec_val_bytes(bs) == crate::text::dec_val(ds),
    decreases ds.len(),
{
    assert forall|i: int| 0 <= i < bs.len() implies is_digit_byte(#[trigger] bs[i]) by {
        crate::text::lemma_ascii_char_u8(ds[i]);
    }
    if ds.len() > 0 {
        assert(bs.drop_last().len() == ds.drop_last().len());
        assert forall|i: int| 0 <= i < ds.drop_last().len() implies bs.drop_last()[i] == (
        #[trigger] ds.drop_last()[i]) as u8 by {
            assert(ds.drop_last()[i] == ds[i]);
            assert(bs.drop_last()[i] == bs[i]);
        }
        lemma_dec_val_bytes_of_chars(ds.drop_last(), bs.drop_last());
        crate::text::lemma_ascii_char_u8(ds.last());
        assert(bs.last() == ds.last() as u8);
        assert(bs.last() - 48 == crate::text::digit_val(ds.last()));
    }
}

/// The encoded bytes of one bulk-string element, laid out piece by piece.
pub open spec fn elem_bytes(s: Seq<char>) -> Seq<u8> {
    vstd::utf8::encode_utf8(spec_encode(RespV::BulkString(Some(s))))
}

pub proof fn lemma_elem_bytes(s: Seq<char>)
    ensures
        ({
            let payload = vstd::utf8::encode_utf8(s);
            let db = vstd::utf8::encode_utf8(dec_digits(payload.len()));
            &&& elem_bytes(s) == seq![36u8] + db + seq![13u8, 10u8] + payload + seq![13u8, 10u8]
            &&& db.len() == dec_digits(payload.len()).len()
            &&& db.len() >= 1
            &&& all_digit_bytes(db)
            &&& dec_val_bytes(db) == payload.len()
        }),
{
    let payload = vstd::utf8::encode_utf8(s);
    let dd = dec_digits(payload.len());
    crate::text::lemma_dec_digits(payload.len());
    assert(vstd::utf8::is_ascii_chars(dd));
    let db = vstd::utf8::encode_utf8(dd);
    vstd::utf8::is_ascii_chars_encode_utf8(dd);
    lemma_dec_val_bytes_of_chars(dd, db);
    let chars = spec_encode(RespV::BulkString(Some(s)));
    assert(chars == seq!['$'] + dd + crlf() + s + crlf());
    lemma_encode_utf8_concat(seq!['$'] + dd + crlf() + s, crlf());
    lemma_encode_utf8_concat(seq!['$'] + dd + crlf(), s);
    lemma_encode_utf8_concat(seq!['$'] + dd, crlf());
    lemma_encode_utf8_concat(seq!['$'], dd);
    assert(vstd::utf8::is_ascii_chars(seq!['$']));
    assert(vstd::utf8::is_ascii_chars(crlf()));
    vstd::utf8::is_ascii_chars_encode_utf8(seq!['$']);
    vstd::utf8::is_ascii_chars_encode_utf8(crlf());
    assert(vstd::utf8::encode_utf8(seq!['$']) =~= seq![36u8]) by {
        crate::text::lemma_ascii_char_u8('$');
    }
    assert(vstd::utf8::encode_utf8(crlf()) =~= seq![13u8, 10u8]) by {
        crate::text::lemma_ascii_char_u8('\r');
        crate::text::lemma_ascii_char_u8('\n');
    }
    assert(elem_bytes(s) =~= seq![36u8] + db + seq![13u8, 10u8] + payload + seq![13u8, 10u8]);
}

/// A well-formed element at `pos` parses back to its text.
pub proof fn lemma_parse_one_elem(bytes: Seq<u8>, pos: int, s: Seq<char>)
    requires
        0 <= pos,
        vstd::utf8::encode_utf8(s).len() <= usize::MAX,
        pos + elem_bytes(s).len() <= bytes.len(),
        bytes.subrange(pos, pos + elem_bytes(s).len()) == elem_bytes(s),
    ensures
        spec_parse_elem(bytes, pos) == Ok::<(Seq<char>, int), RespError>(
            (s, pos + elem_bytes(s).len()),
        ),
{
    broadcast use vstd::utf8::group_utf8_lib;

    lemma_elem_bytes(s);
    let payload = vstd::utf8::encode_utf8(s);
    let pl = payload.len() as int;
    let db = vstd::utf8::encode_utf8(dec_digits(payload.len()));
    let dlen = db.len() as int;
    let eb = elem_bytes(s);
    let elen = eb.len() as int;
    assert(elen == 5 + dlen + pl);
    assert forall|j: int| 0 <= j < elen implies bytes[pos + j] == eb[j] by {
        assert(bytes.subrange(pos, pos + elen)[j] == bytes[pos + j]);
    }
    assert(eb[0] == 36u8);
    assert(bytes[pos] == 36u8);
    let crp = pos + 1 + dlen;
    assert(eb[1 + dlen] == 13u8);
    assert(bytes[crp] == 13u8);
    assert forall|j: int| pos + 1 <= j < crp implies bytes[j] != 13u8 by {
        assert(eb[j - pos] == db[j - pos - 1]);
        assert(is_digit_byte(db[j - pos - 1]));
    }
    lemma_find_cr_first(bytes, pos + 1, crp);
    assert forall|j: int| 0 <= j < dlen implies bytes.subrange(pos + 1, crp)[j] == db[j] by {
        assert(bytes[pos + 1 + j] == eb[1 + j]);
        assert(eb[1 + j] == db[j]);
    }
    assert(bytes.subrange(pos + 1, crp) =~= db);
    assert(parse_len_bytes(bytes.subrange(pos + 1, crp)) == Some(payload.len()));
    let start = crp + 2;
    let end = start + pl;
    assert forall|j: int| 0 <= j < pl implies bytes.subrange(start, end)[j] == payload[j] by {
        assert(bytes[start + j] == eb[start + j - pos]);
        assert(eb[3 + dlen + j] == payload[j]);
    }
    assert(bytes.subrange(start, end) =~= payload);
    assert(eb[3 + dlen + pl] == 13u8);
    assert(eb[4 + dlen + pl] == 10u8);
    assert(bytes[end] == 13u8);
    assert(bytes[end + 1] == 10u8);
    assert(end + 2 == pos + elen);
    assert(vstd::utf8::valid_utf8(payload));
    assert(vstd::utf8::decode_utf8(payload) == s);
}

/// Consecutive well-formed elements filling the rest of the buffer parse
/// back to the remaining arguments.
pub proof fn lemma_parse_elems_all(bytes: Seq<u8>, pos: int, xs: Seq<Seq<char>>, i: int, acc: Seq<
    Seq<char>,
>)
    requires
        0 <= i <= xs.len(),
        0 <= pos,
        forall|k: int|
            0 <= k < xs.len() ==> (#[trigger] vstd::utf8::encode_utf8(xs[k])).len() <= usize::MAX,
        pos + vstd::utf8::encode_utf8(spec_encode_elems(bulk_views(xs), i)).len() == bytes.len(),
        bytes.subrange(pos, bytes.len() as int) == vstd::utf8::encode_utf8(
            spec_encode_elems(bulk_views(xs), i),
        ),
    ensures
        spec_parse_elems(bytes, pos, (xs.len() - i) as nat, acc) == Ok::<
            (Seq<Seq<char>>, int),
            RespError,
        >((acc + xs.subrange(i, xs.len() as int), bytes.len() as int)),
    decreases xs.len() - i,
{
    let velems = bulk_views(xs);
    if i == xs.len() {
        assert(spec_encode_elems(velems, i) =~= Seq::<char>::empty());
        assert(vstd::utf8::encode_utf8(spec_encode_elems(velems, i)) =~= Seq::<u8>::empty());
        assert(pos == bytes.len());
        assert(acc + xs.subrange(i, xs.len() as int) =~= acc);
    } else {
        assert(velems[i] == RespV::BulkString(Some(xs[i])));
        assert(spec_encode_elems(velems, i) == spec_encode(velems[i]) + spec_encode_elems(
            velems,
            i + 1,
        ));
        lemma_encode_utf8_concat(spec_encode(velems[i]), spec_encode_elems(velems, i + 1));
        let eb = elem_bytes(xs[i]);
        let tail = vstd::utf8::encode_utf8(spec_encode_elems(velems, i + 1));
        assert(bytes.subrange(pos, bytes.len() as int) == eb + tail);
        let pos2 = pos + eb.len() as int;
        assert forall|j: int| 0 <= j < eb.len() implies bytes.subrange(pos, pos2)[j] == eb[j] by {
            assert(bytes.subrange(pos, bytes.len() as int)[j] == (eb + tail)[j]);
        }
        assert(bytes.subrange(pos, pos2) =~= eb);
        assert forall|j: int| 0 <= j < tail.len() implies bytes.subrange(
            pos2,
            bytes.len() as int,
        )[j] == tail[j] by {
            assert(bytes.subrange(pos, bytes.len() as int)[eb.len() + j] == (eb + tail)[eb.len()
                + j]);
        }
        assert(bytes.subrange(pos2, bytes.len() as int) =~= tail);
        lemma_parse_one_elem(bytes, pos, xs[i]);
        lemma_parse_elems_all(bytes, pos2, xs, i + 1, acc.push(xs[i]));
        assert(acc.push(xs[i]) + xs.subrange(i + 1, xs.len() as int) =~= acc + xs.subrange(
            i,
            xs.len() as int,
        ));
    }
}

/// Decoding the encoded bytes of an array of bulk strings yields exactly
/// the original argument vector.
pub proof fn lemma_decode_encode(xs: Seq<Seq<char>>)
    requires
        xs.len() <= usize::MAX,
        forall|i: int|
            0 <= i < xs.len() ==> (#[trigger] vstd::utf8::encode_utf8(xs[i])).len() <= usize::MAX,
    ensures
        spec_decode(vstd::utf8::encode_utf8(spec_encode(RespV::Array(bulk_views(xs))))) == Ok::<
            Seq<Seq<char>>,
            RespError,
        >(xs),
{
    broadcast use vstd::utf8::group_utf8_lib;

    let velems = bulk_views(xs);
    let n = velems.len();
    let dd = dec_digits(n);
    crate::text::lemma_dec_digits(n);
    let chars = spec_encode(RespV::Array(velems));
    assert(chars == seq!['*'] + dd + crlf() + spec_encode_elems(velems, 0));
    let bytes = vstd::utf8::encode_utf8(chars);
    lemma_encode_utf8_concat(seq!['*'] + dd + crlf(), spec_encode_elems(velems, 0));
    lemma_encode_utf8_concat(seq!['*'] + dd, crlf());
    lemma_encode_utf8_concat(seq!['*'], dd);
    assert(vstd::utf8::is_ascii_chars(seq!['*']));
    assert(vstd::utf8::is_ascii_chars(dd));
    assert(vstd::utf8::is_ascii_chars(crlf()));
    vstd::utf8::is_ascii_chars_encode_utf8(seq!['*']);
    vstd::utf8::is_ascii_chars_encode_utf8(dd);
    vstd::utf8::is_ascii_chars_encode_utf8(crlf());
    let db = vstd::utf8::encode_utf8(dd);
    let dlen = db.len() as int;
    lemma_dec_val_bytes_of_chars(dd, db);
    assert(vstd::utf8::encode_utf8(seq!['*']) =~= seq![42u8]) by {
        crate::text::lemma_ascii_char_u8('*');
    }
    assert(vstd::utf8::encode_utf8(crlf()) =~= seq![13u8, 10u8]) by {
        crate::text::lemma_ascii_char_u8('\r');
        crate::text::lemma_ascii_char_u8('\n');
    }
    let tail = vstd::utf8::encode_utf8(spec_encode_elems(velems, 0));
    assert(bytes == seq![42u8] + db + seq![13u8, 10u8] + tail);
    assert(bytes[0] == 42u8);
    assert(bytes.len() >= 1);
    let crp = 1 + dlen;
    assert(bytes[crp] == 13u8);
    assert forall|j: int| 1 <= j < crp implies bytes[j] != 13u8 by {
        assert(bytes[j] == db[j - 1]);
        assert(is_digit_byte(db[j - 1]));
    }
    lemma_find_cr_first(bytes, 1, crp);
    assert(bytes.subrange(1, crp) =~= db);
    assert(parse_len_bytes(bytes.subrange(1, crp)) == Some(n));
    let pos0 = crp + 2;
    assert forall|j: int| 0 <= j < tail.len() implies bytes.subrange(pos0, bytes.len() as int)[j]
        == tail[j] by {
        assert(bytes[pos0 + j] == (seq![42u8] + db + seq![13u8, 10u8] + tail)[pos0 + j]);
    }
    assert(bytes.subrange(pos0, bytes.len() as int) =~= tail);
    lemma_parse_elems_all(bytes, pos0, xs, 0, Seq::empty());
    assert(Seq::<Seq<char>>::empty() + xs.subrange(0, xs.len() as int) =~= xs);
}

impl Resp {
    /// Decodes one client frame into its argument strings.
    pub fn decode(buf: &[u8]) -> (r: Result<Vec<String>, RespError>)
        ensures
            match (r, spec_decode(buf@)) {
                (Ok(args), Ok(vals)) => args.deep_view() == vals,
                (Err(e1), Err(e2)) => e1 == e2,
                _ => false,
            },
    {
        if buf.len() == 0 || buf[0] != 42 {
            return Err(RespError::UnsupportedRespType);
        }
        parse_array(buf)
    }
}

} // verus!
