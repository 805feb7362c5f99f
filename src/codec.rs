//! The tagged binary codec for log arguments and records.
//!
//! A record is laid out as `[call-site id: i32][argument]*`, every integer in
//! fixed-width little-endian form. An argument is a `u32` variant tag followed
//! by its payload: `0` an `i64`, `1` the bit pattern of an `f64` as `u64`, `2` a
//! `u64` byte length followed by that many UTF-8 bytes. Records carry no length
//! of their own: the decoder of each call site knows how many arguments follow.
use vstd::bytes::{
    lemma_auto_spec_u32_to_from_le_bytes, lemma_auto_spec_u64_to_from_le_bytes,
    spec_u32_from_le_bytes, spec_u32_to_le_bytes, spec_u64_from_le_bytes, spec_u64_to_le_bytes,
};
use vstd::prelude::*;
use vstd::slice::slice_subrange;
use vstd::string::StringSliceAdditionalSpecFns;
use vstd::utf8::{decode_utf8, encode_utf8, encode_utf8_decode_utf8, encode_utf8_valid_utf8, valid_utf8};

verus! {

#[verifier::external_type_specification]
#[verifier::external_body]
pub struct ExEncodeError(bincode::error::EncodeError);

#[verifier::external_type_specification]
#[verifier::external_body]
pub struct ExDecodeError(bincode::error::DecodeError);

/// Variant tag of a signed 64-bit integer argument.
pub const TAG_I64: u32 = 0;

/// Variant tag of a double argument.
pub const TAG_F64: u32 = 1;

/// Variant tag of a text argument.
pub const TAG_STR: u32 = 2;

/// Relies on `bincode::encode_to_vec` with the legacy configuration (fixed-width
/// little-endian integers): a `u32` becomes its four little-endian bytes, and
/// writing into a `Vec` never fails.
#[verifier::external_body]
fn bincode_u32(v: u32) -> (r: Result<Vec<u8>, bincode::error::EncodeError>)
    ensures
        r is Ok,
        r matches Ok(b) ==> b@ == spec_u32_to_le_bytes(v),
{
    bincode::encode_to_vec(v, bincode::config::legacy())
}

/// Relies on `bincode::encode_to_vec` with the legacy configuration: a `u64`
/// becomes its eight little-endian bytes, and writing into a `Vec` never fails.
#[verifier::external_body]
fn bincode_u64(v: u64) -> (r: Result<Vec<u8>, bincode::error::EncodeError>)
    ensures
        r is Ok,
        r matches Ok(b) ==> b@ == spec_u64_to_le_bytes(v),
{
    bincode::encode_to_vec(v, bincode::config::legacy())
}

/// Relies on `bincode::encode_to_vec` with the legacy configuration: a `str`
/// becomes its UTF-8 byte length as a `u64` followed by those bytes, and
/// writing into a `Vec` never fails.
#[verifier::external_body]
fn bincode_str(s: &str) -> (r: Result<Vec<u8>, bincode::error::EncodeError>)
    ensures
        r is Ok,
        r matches Ok(b) ==> b@ == text_bytes(s.spec_bytes()),
{
    bincode::encode_to_vec(s, bincode::config::legacy())
}

/// Relies on `bincode::decode_from_slice::<u32, _>` with the legacy
/// configuration: it reads the first four bytes as a little-endian `u32`, and
/// fails exactly when fewer than four bytes are there.
#[verifier::external_body]
pub(crate) fn bincode_read_u32(src: &[u8]) -> (r: Result<(u32, usize), bincode::error::DecodeError>)
    ensures
        r is Ok <==> src@.len() >= 4,
        r matches Ok((v, n)) ==> n == 4 && v == spec_u32_from_le_bytes(src@.subrange(0, 4)),
{
    bincode::decode_from_slice::<u32, _>(src, bincode::config::legacy())
}

/// Relies on `bincode::decode_from_slice::<u64, _>` with the legacy
/// configuration: it reads the first eight bytes as a little-endian `u64`, and
/// fails exactly when fewer than eight bytes are there.
#[verifier::external_body]
fn bincode_read_u64(src: &[u8]) -> (r: Result<(u64, usize), bincode::error::DecodeError>)
    ensures
        r is Ok <==> src@.len() >= 8,
        r matches Ok((v, n)) ==> n == 8 && v == spec_u64_from_le_bytes(src@.subrange(0, 8)),
{
    bincode::decode_from_slice::<u64, _>(src, bincode::config::legacy())
}

/// Relies on `bincode::borrow_decode_from_slice::<&str, _>` with the legacy
/// configuration: it reads a little-endian `u64` length, then borrows that
/// many bytes and checks them with `core::str::from_utf8`; it fails when the
/// length or the bytes are missing or the bytes are not UTF-8.
#[verifier::external_body]
fn bincode_read_str<'a>(src: &'a [u8]) -> (r: Result<(&'a str, usize), bincode::error::DecodeError>)
    ensures
        r is Ok <==> parse_text(src@) is Some,
        r matches Ok((s, n)) ==> parse_text(src@) == Some((s.spec_bytes(), n as nat)),
{
    bincode::borrow_decode_from_slice::<&str, _>(src, bincode::config::legacy())
}

/// A log argument as the codec sees it.
pub ghost enum ArgView {
    Int(i64),
    /// The IEEE-754 bit pattern of a double.
    Float(u64),
    Text(Seq<char>),
}

impl ArgView {
    /// The argument can be encoded: its text, if any, has a length that fits
    /// the `u64` length prefix.
    pub open spec fn wf(self) -> bool {
        match self {
            ArgView::Text(cs) => encode_utf8(cs).len() <= u64::MAX,
            _ => true,
        }
    }
}

/// A decoded record: the call site that produced it and its arguments.
pub ghost struct RecordView {
    pub site: nat,
    pub args: Seq<ArgView>,
}

/// A length-prefixed byte string.
pub open spec fn text_bytes(b: Seq<u8>) -> Seq<u8> {
    spec_u64_to_le_bytes(b.len() as u64) + b
}

/// The encoding of one argument.
pub open spec fn arg_bytes(a: ArgView) -> Seq<u8> {
    match a {
        ArgView::Int(x) => spec_u32_to_le_bytes(TAG_I64) + spec_u64_to_le_bytes(x as u64),
        ArgView::Float(b) => spec_u32_to_le_bytes(TAG_F64) + spec_u64_to_le_bytes(b),
        ArgView::Text(cs) => spec_u32_to_le_bytes(TAG_STR) + text_bytes(encode_utf8(cs)),
    }
}

/// The encodings of `args`, one after another.
pub open spec fn args_bytes(args: Seq<ArgView>) -> Seq<u8>
    decreases args.len(),
{
    if args.len() == 0 {
        Seq::empty()
    } else {
        args_bytes(args.drop_last()) + arg_bytes(args.last())
    }
}

/// The encoding of a record of call site `site` with arguments `args`.
pub open spec fn record_bytes(site: nat, args: Seq<ArgView>) -> Seq<u8> {
    spec_u32_to_le_bytes(site as u32) + args_bytes(args)
}

/// Reads a length-prefixed UTF-8 byte string at the start of `b`: its bytes
/// and the number of bytes taken, length prefix included.
pub open spec fn parse_text(b: Seq<u8>) -> Option<(Seq<u8>, nat)> {
    if b.len() < 8 {
        None
    } else {
        let n = spec_u64_from_le_bytes(b.subrange(0, 8)) as int;
        if 8 + n > b.len() || !valid_utf8(b.subrange(8, 8 + n)) {
            None
        } else {
            Some((b.subrange(8, 8 + n), (8 + n) as nat))
        }
    }
}

/// Reads one argument at the start of `b`: the argument and the number of
/// bytes it takes.
pub open spec fn parse_arg(b: Seq<u8>) -> Option<(ArgView, nat)> {
    if b.len() < 4 {
        None
    } else {
        let tag = spec_u32_from_le_bytes(b.subrange(0, 4));
        let rest = b.subrange(4, b.len() as int);
        if tag == TAG_I64 || tag == TAG_F64 {
            if rest.len() < 8 {
                None
            } else {
                let x = spec_u64_from_le_bytes(rest.subrange(0, 8));
                Some((if tag == TAG_I64 { ArgView::Int(x as i64) } else { ArgView::Float(x) }, 12))
            }
        } else if tag == TAG_STR {
            match parse_text(rest) {
                Some((t, n)) => Some((ArgView::Text(decode_utf8(t)), 4 + n)),
                None => None,
            }
        } else {
            None
        }
    }
}

/// Reads `k` arguments, one after another, at the start of `b`: the arguments
/// and the number of bytes they take.
pub open spec fn parse_args(b: Seq<u8>, k: nat) -> Option<(Seq<ArgView>, nat)>
    decreases k,
{
    if k == 0 {
        Some((Seq::empty(), 0))
    } else {
        match parse_args(b, (k - 1) as nat) {
            None => None,
            Some((vs, n)) => match parse_arg(b.subrange(n as int, b.len() as int)) {
                None => None,
                Some((a, m)) => Some((vs.push(a), n + m)),
            },
        }
    }
}

/// The decoder of one call site, as the codec sees it: the id of the site it
/// belongs to, once the site is registered, and its argument count.
pub ghost struct DecoderView {
    pub site: Option<nat>,
    pub arity: nat,
}

/// Reads, at the start of `b`, a record of the call site that decoder `d`
/// belongs to, its leading id included: the arguments and the number of bytes
/// the record takes. A record whose id names another site is refused.
pub open spec fn parse_record_body(b: Seq<u8>, d: DecoderView) -> Option<(Seq<ArgView>, nat)> {
    if b.len() < 4 || d.site != Some(spec_u32_from_le_bytes(b.subrange(0, 4)) as nat) {
        None
    } else {
        match parse_args(b.subrange(4, b.len() as int), d.arity) {
            None => None,
            Some((args, n)) => Some((args, 4 + n)),
        }
    }
}

/// A call-site argument at the moment of logging; its text borrows from the
/// caller until the record is encoded.
#[derive(Clone, Copy, Debug, PartialEq)]
pub enum Loggable<'a> {
    I64(i64),
    /// A double, carried as its IEEE-754 bit pattern (`f64::to_bits`).
    F64(u64),
    Str(&'a str),
}

impl<'a> View for Loggable<'a> {
    type V = ArgView;

    open spec fn view(&self) -> ArgView {
        match self {
            Loggable::I64(x) => ArgView::Int(*x),
            Loggable::F64(b) => ArgView::Float(*b),
            Loggable::Str(s) => ArgView::Text(s@),
        }
    }
}

impl<'a> From<i64> for Loggable<'a> {
    fn from(item: i64) -> Self {
        Loggable::I64(item)
    }
}

impl<'a> vstd::std_specs::convert::FromSpecImpl<i64> for Loggable<'a> {
    open spec fn obeys_from_spec() -> bool {
        true
    }

    open spec fn from_spec(v: i64) -> Self {
        Loggable::I64(v)
    }
}

impl<'a> From<&'a str> for Loggable<'a> {
    fn from(item: &'a str) -> Self {
        Loggable::Str(item)
    }
}

impl<'a> vstd::std_specs::convert::FromSpecImpl<&'a str> for Loggable<'a> {
    open spec fn obeys_from_spec() -> bool {
        true
    }

    open spec fn from_spec(v: &'a str) -> Self {
        Loggable::Str(v)
    }
}

/// A decoded argument, owning its text.
#[derive(Clone, Debug, PartialEq)]
pub enum LoggedValue {
    I64(i64),
    /// A double, carried as its IEEE-754 bit pattern (`f64::to_bits`).
    F64(u64),
    Str(String),
}

impl View for LoggedValue {
    type V = ArgView;

    open spec fn view(&self) -> ArgView {
        match self {
            LoggedValue::I64(x) => ArgView::Int(*x),
            LoggedValue::F64(b) => ArgView::Float(*b),
            LoggedValue::Str(s) => ArgView::Text(s@),
        }
    }
}

/// The views of a sequence of values.
pub open spec fn views<T: View>(s: Seq<T>) -> Seq<T::V> {
    s.map_values(|v: T| v@)
}

/// Appends the encoding of `v` to `out`.
pub fn encode_loggable(v: &Loggable, out: &mut Vec<u8>)
    ensures
        final(out)@ == old(out)@ + arg_bytes(v@),
{
    let (tag, payload) = match v {
        Loggable::I64(x) => (bincode_u32(TAG_I64), bincode_u64(*x as u64)),
        Loggable::F64(b) => (bincode_u32(TAG_F64), bincode_u64(*b)),
        Loggable::Str(s) => (bincode_u32(TAG_STR), bincode_str(s)),
    };
    match (tag, payload) {
        (Ok(mut t), Ok(mut p)) => {
            out.append(&mut t);
            out.append(&mut p);
            assert(out@ =~= old(out)@ + arg_bytes(v@));
        },
        _ => {},
    }
}

/// The encoding of a record of call site `site` with arguments `args`.
pub fn encode_record(site: usize, args: &[Loggable]) -> (r: Vec<u8>)
    requires
        site <= i32::MAX,
    ensures
        r@ == record_bytes(site as nat, views(args@)),
{
    let mut out: Vec<u8> = match bincode_u32(site as u32) {
        Ok(b) => b,
        Err(_) => Vec::new(),
    };
    let mut i: usize = 0;
    while i < args.len()
        invariant
            0 <= i <= args@.len(),
            out@ == spec_u32_to_le_bytes(site as u32) + args_bytes(views(args@.subrange(0, i as int))),
        decreases args@.len() - i,
    {
        let ghost before = out@;
        encode_loggable(&args[i], &mut out);
        proof {
            let prev = views(args@.subrange(0, i as int));
            let next = views(args@.subrange(0, i + 1));
            assert(next.drop_last() =~= prev);
            assert(next.last() == args@[i as int]@);
            assert(out@ =~= spec_u32_to_le_bytes(site as u32) + args_bytes(next));
        }
        i = i + 1;
    }
    assert(args@.subrange(0, args@.len() as int) =~= args@);
    out
}

/// Reads one argument at the start of `src`.
pub fn decode_arg(src: &[u8]) -> (r: Option<(LoggedValue, usize)>)
    ensures
        r is Some <==> parse_arg(src@) is Some,
        r matches Some((v, n)) ==> parse_arg(src@) == Some((v@, n as nat)),
{
    let (tag, _) = match bincode_read_u32(src) {
        Ok(t) => t,
        Err(_) => return None,
    };
    let rest = slice_subrange(src, 4, src.len());
    assert(rest@ =~= src@.subrange(4, src@.len() as int));
    if tag == TAG_I64 || tag == TAG_F64 {
        match bincode_read_u64(rest) {
            Ok((x, _)) => {
                if tag == TAG_I64 {
                    Some((LoggedValue::I64(x as i64), 12))
                } else {
                    Some((LoggedValue::F64(x), 12))
                }
            },
            Err(_) => None,
        }
    } else if tag == TAG_STR {
        match bincode_read_str(rest) {
            Ok((s, n)) => {
                let owned = s.to_owned();
                proof {
                    encode_utf8_decode_utf8(s@);
                }
                Some((LoggedValue::Str(owned), 4 + n))
            },
            Err(_) => None,
        }
    } else {
        None
    }
}

/// Once `k` arguments cannot be read, no longer run of arguments can.
proof fn lemma_parse_args_none_grows(b: Seq<u8>, k: nat, j: nat)
    requires
        parse_args(b, k) is None,
        k <= j,
    ensures
        parse_args(b, j) is None,
    decreases j - k,
{
    if k < j {
        lemma_parse_args_none_grows(b, k, (j - 1) as nat);
    }
}

/// Reads, at the start of `src`, a record of call site `site`, which carries
/// `arity` arguments.
pub fn decode_record_body(src: &[u8], site: usize, arity: usize) -> (r: Option<(Vec<LoggedValue>, usize)>)
    ensures
        r is Some <==> parse_record_body(src@, DecoderView { site: Some(site as nat), arity: arity as nat }) is Some,
        r matches Some((vs, n)) ==> parse_record_body(src@, DecoderView { site: Some(site as nat), arity: arity as nat })
            == Some((views(vs@), n as nat)),
{
    let id = match bincode_read_u32(src) {
        Ok((v, _)) => v,
        Err(_) => return None,
    };
    if id as u64 != site as u64 {
        return None;
    }
    let body = slice_subrange(src, 4, src.len());
    let ghost b = src@.subrange(4, src@.len() as int);
    assert(body@ =~= b);
    let mut vals: Vec<LoggedValue> = Vec::new();
    let mut off: usize = 0;
    let mut i: usize = 0;
    while i < arity
        invariant
            0 <= i <= arity,
            src@.len() >= 4,
            b == src@.subrange(4, src@.len() as int),
            body@ == b,
            off <= b.len(),
            parse_args(b, i as nat) == Some((views(vals@), off as nat)),
        decreases arity - i,
    {
        let rest = slice_subrange(body, off, body.len());
        assert(rest@ =~= b.subrange(off as int, b.len() as int));
        match decode_arg(rest) {
            Some((v, n)) => {
                proof {
                    assert(views(vals@.push(v)) =~= views(vals@).push(v@));
                }
                vals.push(v);
                off = off + n;
                i = i + 1;
            },
            None => {
                proof {
                    assert(parse_args(b, (i + 1) as nat) is None);
                    lemma_parse_args_none_grows(b, (i + 1) as nat, arity as nat);
                }
                return None;
            },
        }
    }
    Some((vals, 4 + off))
}

/// Reading one argument back from its encoding, whatever follows it, gives
/// the argument and the exact number of bytes that were written.
pub proof fn lemma_arg_round_trip(a: ArgView, rest: Seq<u8>)
    requires
        a.wf(),
    ensures
        parse_arg(arg_bytes(a) + rest) == Some((a, arg_bytes(a).len())),
{
    lemma_auto_spec_u32_to_from_le_bytes();
    lemma_auto_spec_u64_to_from_le_bytes();
    let b = arg_bytes(a) + rest;
    assert(b.subrange(0, 4) =~= spec_u32_to_le_bytes(match a {
        ArgView::Int(_) => TAG_I64,
        ArgView::Float(_) => TAG_F64,
        ArgView::Text(_) => TAG_STR,
    }));
    let r = b.subrange(4, b.len() as int);
    match a {
        ArgView::Int(x) => {
            assert(r.subrange(0, 8) =~= spec_u64_to_le_bytes(x as u64));
            assert((x as u64) as i64 == x) by (bit_vector);
        },
        ArgView::Float(x) => {
            assert(r.subrange(0, 8) =~= spec_u64_to_le_bytes(x));
        },
        ArgView::Text(cs) => {
            let t = encode_utf8(cs);
            assert(r =~= spec_u64_to_le_bytes(t.len() as u64) + t + rest);
            assert(r.subrange(0, 8) =~= spec_u64_to_le_bytes(t.len() as u64));
            assert(r.subrange(8, 8 + t.len() as int) =~= t);
            encode_utf8_valid_utf8(cs);
            encode_utf8_decode_utf8(cs);
        },
    }
}

/// Reading back the encodings of `args`, whatever follows them, gives `args`
/// and the exact number of bytes that were written.
pub proof fn lemma_args_round_trip(args: Seq<ArgView>, rest: Seq<u8>)
    requires
        forall|i: int| 0 <= i < args.len() ==> (#[trigger] args[i]).wf(),
    ensures
        parse_args(args_bytes(args) + rest, args.len()) == Some((args, args_bytes(args).len())),
    decreases args.len(),
{
    if args.len() == 0 {
        assert(args =~= Seq::<ArgView>::empty());
    } else {
        let a = args.last();
        let init = args.drop_last();
        let tail = arg_bytes(a) + rest;
        lemma_args_round_trip(init, tail);
        let b = args_bytes(args) + rest;
        assert(b =~= args_bytes(init) + tail);
        let n = args_bytes(init).len();
        assert(b.subrange(n as int, b.len() as int) =~= tail);
        lemma_arg_round_trip(a, rest);
        assert(init.push(a) =~= args);
    }
}

/// Why a chunk of records could not be decoded.
#[derive(Clone, Copy, Debug, PartialEq, Eq, Structural)]
pub enum DecodeCorruption {
    /// A record names a call site that has no decoder.
    UnknownCallSite,
    /// A record is cut short or holds a payload that does not decode.
    MalformedPayload,
}

/// Reads one record at the start of `b`, given the argument count of each
/// call site: the record and the number of bytes it takes.
pub open spec fn parse_record(b: Seq<u8>, table: Seq<DecoderView>) -> Result<(RecordView, nat), DecodeCorruption> {
    if b.len() < 4 {
        Err(DecodeCorruption::MalformedPayload)
    } else {
        let site = spec_u32_from_le_bytes(b.subrange(0, 4)) as nat;
        if site >= table.len() {
            Err(DecodeCorruption::UnknownCallSite)
        } else {
            match parse_record_body(b, table[site as int]) {
                None => Err(DecodeCorruption::MalformedPayload),
                Some((args, n)) => Ok((RecordView { site, args }, n)),
            }
        }
    }
}

/// Reads the records that fill `b` exactly, one after another.
pub open spec fn parse_stream(b: Seq<u8>, table: Seq<DecoderView>) -> Result<Seq<RecordView>, DecodeCorruption>
    decreases b.len(),
{
    if b.len() == 0 {
        Ok(Seq::empty())
    } else {
        match parse_record(b, table) {
            Err(e) => Err(e),
            Ok((r, n)) => if 0 < n <= b.len() {
                match parse_stream(b.subrange(n as int, b.len() as int), table) {
                    Err(e) => Err(e),
                    Ok(rs) => Ok(seq![r] + rs),
                }
            } else {
                Err(DecodeCorruption::MalformedPayload)
            },
        }
    }
}

/// The encodings of `recs`, one after another.
pub open spec fn stream_bytes(recs: Seq<RecordView>) -> Seq<u8>
    decreases recs.len(),
{
    if recs.len() == 0 {
        Seq::empty()
    } else {
        record_bytes(recs[0].site, recs[0].args) + stream_bytes(recs.drop_first())
    }
}

/// A record that a call site with these argument counts can have written.
pub open spec fn record_fits(r: RecordView, table: Seq<DecoderView>) -> bool {
    &&& r.site < table.len()
    &&& r.site <= i32::MAX
    &&& table[r.site as int].site == Some(r.site)
    &&& r.args.len() == table[r.site as int].arity
    &&& forall|i: int| 0 <= i < r.args.len() ==> (#[trigger] r.args[i]).wf()
}

/// Records written one after another by one producer decode in the order in
/// which they were written, each with its own call site and arguments: none is
/// lost, duplicated or reordered.
pub proof fn lemma_stream_round_trip(recs: Seq<RecordView>, table: Seq<DecoderView>)
    requires
        forall|i: int| 0 <= i < recs.len() ==> record_fits(#[trigger] recs[i], table),
    ensures
        parse_stream(stream_bytes(recs), table) == Ok::<Seq<RecordView>, DecodeCorruption>(recs),
    decreases recs.len(),
{
    if recs.len() == 0 {
        assert(recs =~= Seq::<RecordView>::empty());
    } else {
        let r = recs[0];
        let tail = recs.drop_first();
        assert forall|i: int| 0 <= i < tail.len() implies record_fits(#[trigger] tail[i], table) by {
            assert(tail[i] == recs[i + 1]);
        }
        lemma_stream_round_trip(tail, table);
        assert(record_fits(recs[0], table));
        lemma_auto_spec_u32_to_from_le_bytes();
        let b = stream_bytes(recs);
        let rest = stream_bytes(tail);
        let body = args_bytes(r.args);
        assert(b =~= spec_u32_to_le_bytes(r.site as u32) + (body + rest));
        assert(b.subrange(0, 4) =~= spec_u32_to_le_bytes(r.site as u32));
        assert((r.site as u32) as nat == r.site);
        assert(b.subrange(4, b.len() as int) =~= body + rest);
        lemma_args_round_trip(r.args, rest);
        let n = 4 + body.len();
        assert(b.subrange(n as int, b.len() as int) =~= rest);
        assert(seq![r] + tail =~= recs);
    }
}

} // verus!
