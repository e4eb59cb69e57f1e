//! The record codec: typed object and log records as bytes.
//!
//! The format is length-prefixed and big-endian throughout.  Each record
//! starts with its type tag, so a reader can check the tag before touching
//! the rest (`decode` of a mismatched tag fails with the two tags and never
//! decodes the fields behind them).  Every decoder comes with two
//! guarantees: what it accepts re-encodes to exactly the bytes it consumed,
//! and on input that is an encoding it returns that value.

use vstd::prelude::*;

use vstd::utf8::{encode_utf8, valid_utf8};

use crate::api::{
    dts_view, durs_view, ids_view, obj_payload_tag, log_payload_tag, CreateObj, Diff, DiffV,
    EventV, LogPayload, LogPayloadV, LogRecV, LogRecord, ObjId, LogId, ObjPayload, ObjPayloadV,
    ObjRecV, ObjRecord, ObjSetAttr, ObjSetDesc, OptRepeatedV, RepeatedV, StateV, StopV, EveryV,
    SubTaskV, TaskFinish, TaskFlavor, TaskV, Obj, Log, Event, Task, SubTask, State, Error,
    lemma_obj_tags_distinct, lemma_log_tags_distinct,
};
use crate::attr::attr_val_view;
use crate::strings::str_eq;
use crate::attr::{AttrValue, AttrValueV, Attrs, AttrsV};
use crate::recur::{Every, OptRepeated, Repeated, Stop};
use crate::time::{DateTime, Duration};

verus! {

/// A big-endian 32-bit number.
pub open spec fn enc_u32(x: u32) -> Seq<u8> {
    seq![(x >> 24) as u8, (x >> 16) as u8, (x >> 8) as u8, x as u8]
}

/// A big-endian 64-bit number.
pub open spec fn enc_u64(x: u64) -> Seq<u8> {
    seq![
        (x >> 56) as u8,
        (x >> 48) as u8,
        (x >> 40) as u8,
        (x >> 32) as u8,
        (x >> 24) as u8,
        (x >> 16) as u8,
        (x >> 8) as u8,
        x as u8,
    ]
}

/// A signed 64-bit number, in two's complement.
pub open spec fn enc_i64(x: i64) -> Seq<u8> {
    enc_u64(x as u64)
}

/// A signed 32-bit number, in two's complement.
pub open spec fn enc_i32(x: i32) -> Seq<u8> {
    enc_u32(x as u32)
}

/// A machine-size number, widened to 64 bits.
pub open spec fn enc_usize(x: usize) -> Seq<u8> {
    enc_u64(x as u64)
}

/// A boolean, one byte.
pub open spec fn enc_bool(x: bool) -> Seq<u8> {
    seq![if x { 1u8 } else { 0u8 }]
}

/// A string: the byte length of its UTF-8 form, then those bytes.
pub open spec fn enc_str(s: Seq<char>) -> Seq<u8> {
    enc_u64(encode_utf8(s).len() as u64) + encode_utf8(s)
}

/// Whether a string's UTF-8 form fits the length prefix.
pub open spec fn str_ok(s: Seq<char>) -> bool {
    encode_utf8(s).len() <= u64::MAX
}

// ------------------------------------------------------------------
// Writers
// ------------------------------------------------------------------

pub fn w_u32(out: &mut Vec<u8>, x: u32)
    ensures
        final(out)@ == old(out)@ + enc_u32(x),
{
    out.push(#[verifier::truncate] ((x >> 24) as u8));
    out.push(#[verifier::truncate] ((x >> 16) as u8));
    out.push(#[verifier::truncate] ((x >> 8) as u8));
    out.push(#[verifier::truncate] (x as u8));
    proof {
        assert(final(out)@ =~= old(out)@ + enc_u32(x));
    }
}

pub fn w_u64(out: &mut Vec<u8>, x: u64)
    ensures
        final(out)@ == old(out)@ + enc_u64(x),
{
    out.push(#[verifier::truncate] ((x >> 56) as u8));
    out.push(#[verifier::truncate] ((x >> 48) as u8));
    out.push(#[verifier::truncate] ((x >> 40) as u8));
    out.push(#[verifier::truncate] ((x >> 32) as u8));
    out.push(#[verifier::truncate] ((x >> 24) as u8));
    out.push(#[verifier::truncate] ((x >> 16) as u8));
    out.push(#[verifier::truncate] ((x >> 8) as u8));
    out.push(#[verifier::truncate] (x as u8));
    proof {
        assert(final(out)@ =~= old(out)@ + enc_u64(x));
    }
}

pub fn w_i64(out: &mut Vec<u8>, x: i64)
    ensures
        final(out)@ == old(out)@ + enc_i64(x),
{
    w_u64(out, #[verifier::truncate] (x as u64));
}

pub fn w_i32(out: &mut Vec<u8>, x: i32)
    ensures
        final(out)@ == old(out)@ + enc_i32(x),
{
    w_u32(out, #[verifier::truncate] (x as u32));
}

pub fn w_usize(out: &mut Vec<u8>, x: usize)
    ensures
        final(out)@ == old(out)@ + enc_usize(x),
{
    w_u64(out, x as u64);
}

pub fn w_bool(out: &mut Vec<u8>, x: bool)
    ensures
        final(out)@ == old(out)@ + enc_bool(x),
{
    if x {
        out.push(1u8);
    } else {
        out.push(0u8);
    }
    proof {
        assert(final(out)@ =~= old(out)@ + enc_bool(x));
    }
}

pub fn w_str(out: &mut Vec<u8>, s: &str)
    ensures
        final(out)@ == old(out)@ + enc_str(s@),
        str_ok(s@),
{
    let bytes = s.as_bytes();
    let n = bytes.len();
    w_u64(out, n as u64);
    let mut i: usize = 0;
    while i < n
        invariant
            0 <= i <= n,
            n == bytes@.len(),
            bytes@ == encode_utf8(s@),
            out@ == old(out)@ + enc_u64(n as u64) + bytes@.take(i as int),
        decreases n - i,
    {
        out.push(bytes[i]);
        proof {
            assert(bytes@.take(i + 1) =~= bytes@.take(i as int).push(bytes@[i as int]));
            assert(out@ =~= old(out)@ + enc_u64(n as u64) + bytes@.take(i + 1));
        }
        i = i + 1;
    }
    proof {
        assert(bytes@.take(n as int) =~= bytes@);
        assert(out@ =~= old(out)@ + enc_str(s@));
    }
}

// ------------------------------------------------------------------
// Readers
// ------------------------------------------------------------------

/// Relies on `String::from_utf8`: it succeeds exactly on valid UTF-8
/// input, and the returned string's UTF-8 form is the input.
#[verifier::external_body]
pub(crate) fn bytes_to_string(v: Vec<u8>) -> (r: Option<String>)
    ensures
        r matches Some(s) ==> encode_utf8(s@) == v@,
        r is None ==> !valid_utf8(v@),
{
    match String::from_utf8(v) {
        Ok(s) => Some(s),
        Err(_) => None,
    }
}

pub fn d_u32(b: &[u8]) -> (r: Option<(u32, usize)>)
    ensures
        r matches Some(p) ==> p.1 == 4 && 4 <= b@.len() && b@.take(4) == enc_u32(p.0),
        r is None <==> b@.len() < 4,
        forall|x: u32, rest: Seq<u8>| b@ == enc_u32(x) + rest ==> r == Some((x, 4usize)),
{
    if b.len() < 4 {
        return None;
    }
    let b0 = b[0];
    let b1 = b[1];
    let b2 = b[2];
    let b3 = b[3];
    let x = ((b0 as u32) << 24) | ((b1 as u32) << 16) | ((b2 as u32) << 8) | (b3 as u32);
    proof {
        assert((x >> 24) as u8 == b0 && (x >> 16) as u8 == b1 && (x >> 8) as u8 == b2 && x as u8
            == b3) by (bit_vector)
            requires
                x == ((b0 as u32) << 24) | ((b1 as u32) << 16) | ((b2 as u32) << 8) | (b3 as u32),
        ;
        assert(b@.take(4) =~= enc_u32(x));
        assert forall|x2: u32, rest: Seq<u8>| b@ == enc_u32(x2) + rest implies x2 == x by {
            assert(b0 == (x2 >> 24) as u8 && b1 == (x2 >> 16) as u8 && b2 == (x2 >> 8) as u8 && b3
                == x2 as u8);
            assert(x2 == x) by (bit_vector)
                requires
                    b0 == (x2 >> 24) as u8 && b1 == (x2 >> 16) as u8 && b2 == (x2 >> 8) as u8 && b3
                        == x2 as u8 && x == ((b0 as u32) << 24) | ((b1 as u32) << 16) | ((
                    b2 as u32) << 8) | (b3 as u32),
            ;
        }
    }
    Some((x, 4))
}

pub fn d_u64(b: &[u8]) -> (r: Option<(u64, usize)>)
    ensures
        r matches Some(p) ==> p.1 == 8 && 8 <= b@.len() && b@.take(8) == enc_u64(p.0),
        forall|x: u64, rest: Seq<u8>| b@ == enc_u64(x) + rest ==> r == Some((x, 8usize)),
{
    if b.len() < 8 {
        return None;
    }
    let b0 = b[0];
    let b1 = b[1];
    let b2 = b[2];
    let b3 = b[3];
    let b4 = b[4];
    let b5 = b[5];
    let b6 = b[6];
    let b7 = b[7];
    let x = ((b0 as u64) << 56) | ((b1 as u64) << 48) | ((b2 as u64) << 40) | ((b3 as u64) << 32)
        | ((b4 as u64) << 24) | ((b5 as u64) << 16) | ((b6 as u64) << 8) | (b7 as u64);
    proof {
        assert((x >> 56) as u8 == b0 && (x >> 48) as u8 == b1 && (x >> 40) as u8 == b2 && (x >> 32)
            as u8 == b3 && (x >> 24) as u8 == b4 && (x >> 16) as u8 == b5 && (x >> 8) as u8 == b6
            && x as u8 == b7) by (bit_vector)
            requires
                x == ((b0 as u64) << 56) | ((b1 as u64) << 48) | ((b2 as u64) << 40) | ((b3 as u64)
                    << 32) | ((b4 as u64) << 24) | ((b5 as u64) << 16) | ((b6 as u64) << 8) | (
                b7 as u64),
        ;
        assert(b@.take(8) =~= enc_u64(x));
        assert forall|x2: u64, rest: Seq<u8>| b@ == enc_u64(x2) + rest implies x2 == x by {
            assert(b0 == (x2 >> 56) as u8 && b1 == (x2 >> 48) as u8 && b2 == (x2 >> 40) as u8 && b3
                == (x2 >> 32) as u8 && b4 == (x2 >> 24) as u8 && b5 == (x2 >> 16) as u8 && b6 == (
            x2 >> 8) as u8 && b7 == x2 as u8);
            assert(x2 == x) by (bit_vector)
                requires
                    b0 == (x2 >> 56) as u8 && b1 == (x2 >> 48) as u8 && b2 == (x2 >> 40) as u8 && b3
                        == (x2 >> 32) as u8 && b4 == (x2 >> 24) as u8 && b5 == (x2 >> 16) as u8
                        && b6 == (x2 >> 8) as u8 && b7 == x2 as u8 && x == ((b0 as u64) << 56) | ((
                    b1 as u64) << 48) | ((b2 as u64) << 40) | ((b3 as u64) << 32) | ((b4 as u64)
                        << 24) | ((b5 as u64) << 16) | ((b6 as u64) << 8) | (b7 as u64),
            ;
        }
    }
    Some((x, 8))
}

pub fn d_i64(b: &[u8]) -> (r: Option<(i64, usize)>)
    ensures
        r matches Some(p) ==> p.1 == 8 && 8 <= b@.len() && b@.take(8) == enc_i64(p.0),
        forall|x: i64, rest: Seq<u8>| b@ == enc_i64(x) + rest ==> r == Some((x, 8usize)),
{
    match d_u64(b) {
        None => None,
        Some((u, n)) => {
            let x = #[verifier::truncate] (u as i64);
            proof {
                assert((u as i64) as u64 == u) by (bit_vector);
                assert forall|x2: i64, rest: Seq<u8>| b@ == enc_i64(x2) + rest implies x2 == x by {
                    assert(u == x2 as u64);
                    assert((x2 as u64) as i64 == x2) by (bit_vector);
                }
            }
            Some((x, n))
        },
    }
}

pub fn d_i32(b: &[u8]) -> (r: Option<(i32, usize)>)
    ensures
        r matches Some(p) ==> p.1 == 4 && 4 <= b@.len() && b@.take(4) == enc_i32(p.0),
        forall|x: i32, rest: Seq<u8>| b@ == enc_i32(x) + rest ==> r == Some((x, 4usize)),
{
    match d_u32(b) {
        None => None,
        Some((u, n)) => {
            let x = #[verifier::truncate] (u as i32);
            proof {
                assert((u as i32) as u32 == u) by (bit_vector);
                assert forall|x2: i32, rest: Seq<u8>| b@ == enc_i32(x2) + rest implies x2 == x by {
                    assert(u == x2 as u32);
                    assert((x2 as u32) as i32 == x2) by (bit_vector);
                }
            }
            Some((x, n))
        },
    }
}

pub fn d_usize(b: &[u8]) -> (r: Option<(usize, usize)>)
    ensures
        r matches Some(p) ==> p.1 == 8 && 8 <= b@.len() && b@.take(8) == enc_usize(p.0),
        forall|x: usize, rest: Seq<u8>| b@ == enc_usize(x) + rest ==> r == Some((x, 8usize)),
{
    match d_u64(b) {
        None => None,
        Some((u, n)) => {
            if u > usize::MAX as u64 {
                None
            } else {
                Some((u as usize, n))
            }
        },
    }
}

pub fn d_bool(b: &[u8]) -> (r: Option<(bool, usize)>)
    ensures
        r matches Some(p) ==> p.1 == 1 && 1 <= b@.len() && b@.take(1) == enc_bool(p.0),
        forall|x: bool, rest: Seq<u8>| b@ == enc_bool(x) + rest ==> r == Some((x, 1usize)),
{
    if b.len() < 1 {
        return None;
    }
    let r = if b[0] == 1u8 {
        Some((true, 1usize))
    } else if b[0] == 0u8 {
        Some((false, 1usize))
    } else {
        None
    };
    proof {
        if b@[0] == 1u8 {
            assert(b@.take(1) =~= enc_bool(true));
        }
        if b@[0] == 0u8 {
            assert(b@.take(1) =~= enc_bool(false));
        }
    }
    r
}

pub fn d_str(b: &[u8]) -> (r: Option<(String, usize)>)
    ensures
        r matches Some(p) ==> p.1 <= b@.len() && b@.take(p.1 as int) == enc_str(p.0@) && str_ok(
            p.0@,
        ),
        forall|s: Seq<char>, rest: Seq<u8>|
            str_ok(s) && b@ == enc_str(s) + rest ==> (r matches Some(p) && p.0@ == s && p.1 as int
                == enc_str(s).len()),
{
    broadcast use vstd::utf8::encode_utf8_valid_utf8, vstd::utf8::encode_utf8_decode_utf8;

    let blen = b.len();
    proof {
        assert forall|s: Seq<char>, rest: Seq<u8>|
            str_ok(s) && b@ == enc_str(s) + rest implies b@ == enc_u64(
            encode_utf8(s).len() as u64,
        ) + (encode_utf8(s) + rest) && b@.len() == 8 + encode_utf8(s).len() + rest.len() by {
            assert(b@ =~= enc_u64(encode_utf8(s).len() as u64) + (encode_utf8(s) + rest));
        }
    }
    let (len64, _) = match d_u64(b) {
        None => {
            return None;
        },
        Some(p) => p,
    };
    if len64 > usize::MAX as u64 {
        return None;
    }
    let len = len64 as usize;
    if blen - 8 < len {
        return None;
    }
    proof {
        assert forall|s: Seq<char>, rest: Seq<u8>|
            str_ok(s) && b@ == enc_str(s) + rest implies b@.subrange(8, 8 + len as int)
            == encode_utf8(s) by {
            assert(len64 == encode_utf8(s).len() as u64);
            assert(b@.subrange(8, 8 + len as int) =~= encode_utf8(s));
        }
    }
    let body = vstd::slice::slice_to_vec(&b[8..8 + len]);
    proof {
        assert(body@ == b@.subrange(8, 8 + len as int));
    }
    match bytes_to_string(body) {
        None => None,
        Some(s) => {
            proof {
                assert(b@.take(8 + len as int) =~= enc_u64(len64) + encode_utf8(s@));
                assert forall|s2: Seq<char>, rest: Seq<u8>|
                    str_ok(s2) && b@ == enc_str(s2) + rest implies s@ == s2 && 8 + len as int
                    == enc_str(s2).len() by {
                    assert(len64 == encode_utf8(s2).len() as u64);
                    assert(encode_utf8(s@) == b@.subrange(8, 8 + len as int));
                    assert(encode_utf8(s@) == encode_utf8(s2));
                    assert(vstd::utf8::decode_utf8(encode_utf8(s@)) == s@);
                    assert(vstd::utf8::decode_utf8(encode_utf8(s2)) == s2);
                }
            }
            Some((s, 8 + len))
        },
    }
}

// ------------------------------------------------------------------
// Composite encodings
// ------------------------------------------------------------------

pub open spec fn enc_opt_i64(o: Option<i64>) -> Seq<u8> {
    match o {
        None => seq![0u8],
        Some(x) => seq![1u8] + enc_i64(x),
    }
}

pub open spec fn enc_opt_str(o: Option<Seq<char>>) -> Seq<u8> {
    match o {
        None => seq![0u8],
        Some(s) => seq![1u8] + enc_str(s),
    }
}

pub open spec fn opt_str_ok(o: Option<Seq<char>>) -> bool {
    match o {
        None => true,
        Some(s) => str_ok(s),
    }
}

/// The body of a list of signed numbers.
pub open spec fn enc_i64s_body(s: Seq<i64>) -> Seq<u8>
    decreases s.len(),
{
    if s.len() == 0 {
        Seq::empty()
    } else {
        enc_i64(s[0]) + enc_i64s_body(s.drop_first())
    }
}

/// A list of signed numbers: the count, then each.
pub open spec fn enc_i64s(s: Seq<i64>) -> Seq<u8> {
    enc_u64(s.len() as u64) + enc_i64s_body(s)
}

pub open spec fn enc_u32s_body(s: Seq<u32>) -> Seq<u8>
    decreases s.len(),
{
    if s.len() == 0 {
        Seq::empty()
    } else {
        enc_u32(s[0]) + enc_u32s_body(s.drop_first())
    }
}

/// A list of unsigned 32-bit numbers: the count, then each.
pub open spec fn enc_u32s(s: Seq<u32>) -> Seq<u8> {
    enc_u64(s.len() as u64) + enc_u32s_body(s)
}

pub open spec fn list_ok<T>(s: Seq<T>) -> bool {
    s.len() <= u64::MAX
}

pub open spec fn enc_every(e: EveryV) -> Seq<u8> {
    match e {
        EveryV::Time(d) => seq![0u8] + enc_i64(d),
        EveryV::Month(c) => seq![1u8] + enc_u32(c),
    }
}

pub open spec fn enc_stop(st: StopV) -> Seq<u8> {
    match st {
        StopV::Nonstop => seq![0u8],
        StopV::Stopped => seq![1u8],
        StopV::Count(n) => seq![2u8] + enc_i32(n),
        StopV::After(t) => seq![3u8] + enc_i64(t),
    }
}

pub open spec fn enc_repeated(r: RepeatedV) -> Seq<u8> {
    enc_i64s(r.start) + enc_every(r.every) + enc_stop(r.stop) + enc_opt_i64(r.last) + enc_usize(
        r.index,
    )
}

pub open spec fn repeated_ok(r: RepeatedV) -> bool {
    list_ok(r.start)
}

pub open spec fn enc_optrep(o: OptRepeatedV) -> Seq<u8> {
    match o {
        OptRepeatedV::Single(t) => seq![0u8] + enc_i64(t),
        OptRepeatedV::Repeat(r) => seq![1u8] + enc_repeated(r),
    }
}

pub open spec fn optrep_ok(o: OptRepeatedV) -> bool {
    match o {
        OptRepeatedV::Single(_) => true,
        OptRepeatedV::Repeat(r) => repeated_ok(r),
    }
}

pub open spec fn enc_flavor(f: TaskFlavor) -> Seq<u8> {
    match f {
        TaskFlavor::Deadline => seq![0u8],
        TaskFlavor::Balanced => seq![1u8],
    }
}

// Attribute values, recursively.

pub open spec fn enc_attr_val(v: AttrValueV) -> Seq<u8>
    decreases v,
{
    match v {
        AttrValueV::Num(n) => seq![0u8] + enc_i64(n),
        AttrValueV::Str(s) => seq![1u8] + enc_str(s),
        AttrValueV::Bool(x) => seq![2u8] + enc_bool(x),
        AttrValueV::Arr(items) => seq![3u8] + enc_u64(items.len() as u64) + enc_attr_items(items),
        AttrValueV::Dict(entries) => seq![4u8] + enc_u64(entries.len() as u64) + enc_attr_entries(
            entries,
        ),
    }
}

pub open spec fn enc_attr_items(s: Seq<AttrValueV>) -> Seq<u8>
    decreases s,
{
    if s.len() == 0 {
        Seq::empty()
    } else {
        enc_attr_val(s[0]) + enc_attr_items(s.drop_first())
    }
}

pub open spec fn enc_attr_entries(s: Seq<(Seq<char>, AttrValueV)>) -> Seq<u8>
    decreases s,
{
    if s.len() == 0 {
        Seq::empty()
    } else {
        enc_str(s[0].0) + enc_attr_val(s[0].1) + enc_attr_entries(s.drop_first())
    }
}

pub open spec fn attr_val_ok(v: AttrValueV) -> bool
    decreases v,
{
    match v {
        AttrValueV::Num(_) => true,
        AttrValueV::Str(s) => str_ok(s),
        AttrValueV::Bool(_) => true,
        AttrValueV::Arr(items) => list_ok(items) && attr_items_ok(items),
        AttrValueV::Dict(entries) => list_ok(entries) && attr_entries_ok(entries),
    }
}

pub open spec fn attr_items_ok(s: Seq<AttrValueV>) -> bool
    decreases s,
{
    if s.len() == 0 {
        true
    } else {
        attr_val_ok(s[0]) && attr_items_ok(s.drop_first())
    }
}

pub open spec fn attr_entries_ok(s: Seq<(Seq<char>, AttrValueV)>) -> bool
    decreases s,
{
    if s.len() == 0 {
        true
    } else {
        str_ok(s[0].0) && attr_val_ok(s[0].1) && attr_entries_ok(s.drop_first())
    }
}

/// An attribute map: the count of pairs, then each pair.
pub open spec fn enc_attrs(a: AttrsV) -> Seq<u8> {
    enc_u64(a.len() as u64) + enc_attr_entries(a)
}

pub open spec fn attrs_enc_ok(a: AttrsV) -> bool {
    list_ok(a) && attr_entries_ok(a)
}

pub open spec fn enc_opt_attrs(o: Option<AttrsV>) -> Seq<u8> {
    match o {
        None => seq![0u8],
        Some(a) => seq![1u8] + enc_attrs(a),
    }
}

pub open spec fn opt_attrs_ok(o: Option<AttrsV>) -> bool {
    match o {
        None => true,
        Some(a) => attrs_enc_ok(a),
    }
}

// Payload bodies (the fields behind the tag).

/// The leading fixed fields of a task payload.
pub open spec fn enc_task_head(
    deadline: OptRepeatedV,
    priority: u32,
    flavor: TaskFlavor,
    gen_ahead: usize,
    cache_size: usize,
) -> Seq<u8> {
    enc_optrep(deadline) + enc_u32(priority) + enc_flavor(flavor) + enc_usize(gen_ahead)
        + enc_usize(cache_size)
}

pub open spec fn enc_obj_payload_body(p: ObjPayloadV) -> Seq<u8> {
    match p {
        ObjPayloadV::State(x) => enc_opt_i64(x.last_notified),
        ObjPayloadV::Event(x) => enc_optrep(x.start) + enc_i64(x.duration),
        ObjPayloadV::Task(x) => enc_task_head(x.deadline, x.priority, x.flavor, x.gen_ahead,
            x.cache_size) + enc_i64s(x.notifications) + enc_u32s(x.cache),
        ObjPayloadV::SubTask(x) => enc_u32(x.task_id) + enc_i64(x.deadline) + enc_i64s(
            x.notifications,
        ) + enc_opt_i64(x.finished),
    }
}

pub open spec fn obj_payload_ok(p: ObjPayloadV) -> bool {
    match p {
        ObjPayloadV::State(_) => true,
        ObjPayloadV::Event(x) => optrep_ok(x.start),
        ObjPayloadV::Task(x) => optrep_ok(x.deadline) && list_ok(x.notifications) && list_ok(
            x.cache,
        ),
        ObjPayloadV::SubTask(x) => list_ok(x.notifications),
    }
}

pub open spec fn enc_diff_str(d: DiffV<Seq<char>>) -> Seq<u8> {
    match d {
        DiffV::New(n) => seq![0u8] + enc_str(n),
        DiffV::Del(o) => seq![1u8] + enc_str(o),
        DiffV::Diff(o, n) => seq![2u8] + enc_str(o) + enc_str(n),
    }
}

pub open spec fn diff_str_ok(d: DiffV<Seq<char>>) -> bool {
    match d {
        DiffV::New(n) => str_ok(n),
        DiffV::Del(o) => str_ok(o),
        DiffV::Diff(o, n) => str_ok(o) && str_ok(n),
    }
}

pub open spec fn enc_diff_attr(d: DiffV<AttrValueV>) -> Seq<u8> {
    match d {
        DiffV::New(n) => seq![0u8] + enc_attr_val(n),
        DiffV::Del(o) => seq![1u8] + enc_attr_val(o),
        DiffV::Diff(o, n) => seq![2u8] + enc_attr_val(o) + enc_attr_val(n),
    }
}

pub open spec fn diff_attr_ok(d: DiffV<AttrValueV>) -> bool {
    match d {
        DiffV::New(n) => attr_val_ok(n),
        DiffV::Del(o) => attr_val_ok(o),
        DiffV::Diff(o, n) => attr_val_ok(o) && attr_val_ok(n),
    }
}

pub open spec fn enc_log_payload_body(p: LogPayloadV) -> Seq<u8> {
    match p {
        LogPayloadV::CreateObj { id, typ } => enc_u32(id) + enc_str(typ),
        LogPayloadV::ObjSetDesc { id, diff } => enc_u32(id) + enc_diff_str(diff),
        LogPayloadV::ObjSetAttr { id, attr, diff } => enc_u32(id) + enc_str(attr) + enc_diff_attr(
            diff,
        ),
        LogPayloadV::TaskFinish { id } => enc_u32(id),
    }
}

pub open spec fn log_payload_ok(p: LogPayloadV) -> bool {
    match p {
        LogPayloadV::CreateObj { id, typ } => str_ok(typ),
        LogPayloadV::ObjSetDesc { id, diff } => diff_str_ok(diff),
        LogPayloadV::ObjSetAttr { id, attr, diff } => str_ok(attr) && diff_attr_ok(diff),
        LogPayloadV::TaskFinish { id } => true,
    }
}

/// The common leading fields of a record: the type tag, the name, the
/// optional description and attributes.
pub open spec fn enc_obj_head(
    tag: Seq<char>,
    name: Seq<char>,
    desc: Option<Seq<char>>,
    attrs: Option<AttrsV>,
) -> Seq<u8> {
    enc_str(tag) + enc_str(name) + enc_opt_str(desc) + enc_opt_attrs(attrs)
}

/// A full object record: the type tag first, then the user fields, then
/// the payload fields the tag names.
pub open spec fn enc_obj_record(v: ObjRecV) -> Seq<u8> {
    enc_obj_head(obj_payload_tag(v.payload), v.name, v.desc, v.attrs) + enc_obj_payload_body(
        v.payload,
    )
}

pub open spec fn obj_record_ok(v: ObjRecV) -> bool {
    str_ok(v.name) && opt_str_ok(v.desc) && opt_attrs_ok(v.attrs) && obj_payload_ok(v.payload)
}

/// The common leading fields of a log record.
pub open spec fn enc_log_head(tag: Seq<char>, time: i64, attrs: Option<AttrsV>) -> Seq<u8> {
    enc_str(tag) + enc_i64(time) + enc_opt_attrs(attrs)
}

/// A full log record: the type tag first, then the time and attributes,
/// then the payload fields the tag names.
pub open spec fn enc_log_record(v: LogRecV) -> Seq<u8> {
    enc_log_head(log_payload_tag(v.payload), v.time, v.attrs) + enc_log_payload_body(v.payload)
}

pub open spec fn log_record_ok(v: LogRecV) -> bool {
    opt_attrs_ok(v.attrs) && log_payload_ok(v.payload)
}

// ------------------------------------------------------------------
// List lemmas
// ------------------------------------------------------------------

pub proof fn lemma_enc_i64s_snoc(s: Seq<i64>, x: i64)
    ensures
        enc_i64s_body(s.push(x)) =~= enc_i64s_body(s) + enc_i64(x),
    decreases s.len(),
{
    let t = s.push(x);
    assert(t.len() == s.len() + 1);
    assert(enc_i64s_body(t) == enc_i64(t[0]) + enc_i64s_body(t.drop_first()));
    if s.len() == 0 {
        assert(t[0] == x);
        assert(t.drop_first() =~= Seq::<i64>::empty());
        assert(enc_i64s_body(Seq::<i64>::empty()) == Seq::<u8>::empty());
        assert(enc_i64s_body(s) == Seq::<u8>::empty());
        assert(enc_i64s_body(t) =~= enc_i64s_body(s) + enc_i64(x));
    } else {
        assert(t[0] == s[0]);
        assert(t.drop_first() =~= s.drop_first().push(x));
        lemma_enc_i64s_snoc(s.drop_first(), x);
        assert(enc_i64s_body(s) == enc_i64(s[0]) + enc_i64s_body(s.drop_first()));
        assert(enc_i64s_body(t) =~= enc_i64s_body(s) + enc_i64(x));
    }
}

pub proof fn lemma_enc_u32s_snoc(s: Seq<u32>, x: u32)
    ensures
        enc_u32s_body(s.push(x)) =~= enc_u32s_body(s) + enc_u32(x),
    decreases s.len(),
{
    let t = s.push(x);
    assert(t.len() == s.len() + 1);
    assert(enc_u32s_body(t) == enc_u32(t[0]) + enc_u32s_body(t.drop_first()));
    if s.len() == 0 {
        assert(t[0] == x);
        assert(t.drop_first() =~= Seq::<u32>::empty());
        assert(enc_u32s_body(Seq::<u32>::empty()) == Seq::<u8>::empty());
        assert(enc_u32s_body(s) == Seq::<u8>::empty());
        assert(enc_u32s_body(t) =~= enc_u32s_body(s) + enc_u32(x));
    } else {
        assert(t[0] == s[0]);
        assert(t.drop_first() =~= s.drop_first().push(x));
        lemma_enc_u32s_snoc(s.drop_first(), x);
        assert(enc_u32s_body(s) == enc_u32(s[0]) + enc_u32s_body(s.drop_first()));
        assert(enc_u32s_body(t) =~= enc_u32s_body(s) + enc_u32(x));
    }
}

pub proof fn lemma_enc_attr_items_snoc(s: Seq<AttrValueV>, x: AttrValueV)
    ensures
        enc_attr_items(s.push(x)) =~= enc_attr_items(s) + enc_attr_val(x),
        attr_items_ok(s.push(x)) == (attr_items_ok(s) && attr_val_ok(x)),
    decreases s.len(),
{
    let t = s.push(x);
    assert(t.len() == s.len() + 1);
    assert(enc_attr_items(t) == enc_attr_val(t[0]) + enc_attr_items(t.drop_first()));
    assert(attr_items_ok(t) == (attr_val_ok(t[0]) && attr_items_ok(t.drop_first())));
    if s.len() == 0 {
        assert(t[0] == x);
        assert(t.drop_first() =~= Seq::<AttrValueV>::empty());
        assert(enc_attr_items(Seq::<AttrValueV>::empty()) == Seq::<u8>::empty());
        assert(attr_items_ok(Seq::<AttrValueV>::empty()));
        assert(enc_attr_items(s) == Seq::<u8>::empty());
        assert(enc_attr_items(t) =~= enc_attr_items(s) + enc_attr_val(x));
    } else {
        assert(t[0] == s[0]);
        assert(t.drop_first() =~= s.drop_first().push(x));
        lemma_enc_attr_items_snoc(s.drop_first(), x);
        assert(enc_attr_items(s) == enc_attr_val(s[0]) + enc_attr_items(s.drop_first()));
        assert(enc_attr_items(t) =~= enc_attr_items(s) + enc_attr_val(x));
    }
}

pub proof fn lemma_enc_attr_entries_snoc(
    s: Seq<(Seq<char>, AttrValueV)>,
    k: Seq<char>,
    x: AttrValueV,
)
    ensures
        enc_attr_entries(s.push((k, x))) =~= enc_attr_entries(s) + enc_str(k) + enc_attr_val(x),
        attr_entries_ok(s.push((k, x))) == (attr_entries_ok(s) && str_ok(k) && attr_val_ok(x)),
    decreases s.len(),
{
    let t = s.push((k, x));
    assert(t.len() == s.len() + 1);
    assert(enc_attr_entries(t) == enc_str(t[0].0) + enc_attr_val(t[0].1) + enc_attr_entries(
        t.drop_first(),
    ));
    assert(attr_entries_ok(t) == (str_ok(t[0].0) && attr_val_ok(t[0].1) && attr_entries_ok(
        t.drop_first(),
    )));
    if s.len() == 0 {
        assert(t[0] == (k, x));
        assert(t.drop_first() =~= Seq::<(Seq<char>, AttrValueV)>::empty());
        assert(enc_attr_entries(Seq::<(Seq<char>, AttrValueV)>::empty()) == Seq::<u8>::empty());
        assert(attr_entries_ok(Seq::<(Seq<char>, AttrValueV)>::empty()));
        assert(enc_attr_entries(s) == Seq::<u8>::empty());
        assert(enc_attr_entries(t) =~= enc_attr_entries(s) + enc_str(k) + enc_attr_val(x));
    } else {
        assert(t[0] == s[0]);
        assert(t.drop_first() =~= s.drop_first().push((k, x)));
        lemma_enc_attr_entries_snoc(s.drop_first(), k, x);
        assert(enc_attr_entries(s) == enc_str(s[0].0) + enc_attr_val(s[0].1) + enc_attr_entries(
            s.drop_first(),
        ));
        assert(enc_attr_entries(t) =~= enc_attr_entries(s) + enc_str(k) + enc_attr_val(x));
    }
}

// ------------------------------------------------------------------
// Writers for composites
// ------------------------------------------------------------------

pub fn w_opt_dt(out: &mut Vec<u8>, o: &Option<DateTime>)
    ensures
        final(out)@ == old(out)@ + enc_opt_i64(
            match o {
                Some(d) => Some(d.secs),
                None => None,
            },
        ),
{
    match o {
        None => {
            out.push(0u8);
            proof {
                assert(final(out)@ =~= old(out)@ + enc_opt_i64(None));
            }
        },
        Some(d) => {
            out.push(1u8);
            w_i64(out, d.secs);
            proof {
                assert(final(out)@ =~= old(out)@ + enc_opt_i64(Some(d.secs)));
            }
        },
    }
}

pub fn w_opt_string(out: &mut Vec<u8>, o: &Option<String>)
    ensures
        final(out)@ == old(out)@ + enc_opt_str(
            match o {
                Some(s) => Some(s@),
                None => None,
            },
        ),
        opt_str_ok(
            match o {
                Some(s) => Some(s@),
                None => None,
            },
        ),
{
    match o {
        None => {
            out.push(0u8);
            proof {
                assert(final(out)@ =~= old(out)@ + enc_opt_str(None));
            }
        },
        Some(s) => {
            out.push(1u8);
            w_str(out, s.as_str());
            proof {
                assert(final(out)@ =~= old(out)@ + enc_opt_str(Some(s@)));
            }
        },
    }
}

pub fn w_dts(out: &mut Vec<u8>, v: &Vec<DateTime>)
    ensures
        final(out)@ == old(out)@ + enc_i64s(dts_view(v@)),
        list_ok(dts_view(v@)),
{
    let n = v.len();
    w_u64(out, n as u64);
    let ghost sv = dts_view(v@);
    let mut i: usize = 0;
    while i < n
        invariant
            0 <= i <= n,
            n == v@.len(),
            sv == dts_view(v@),
            out@ == old(out)@ + enc_u64(n as u64) + enc_i64s_body(sv.take(i as int)),
        decreases n - i,
    {
        w_i64(out, v[i].secs);
        proof {
            assert(sv.take(i + 1) =~= sv.take(i as int).push(sv[i as int]));
            lemma_enc_i64s_snoc(sv.take(i as int), sv[i as int]);
            assert(out@ =~= old(out)@ + enc_u64(n as u64) + enc_i64s_body(sv.take(i + 1)));
        }
        i = i + 1;
    }
    proof {
        assert(sv.take(n as int) =~= sv);
        assert(out@ =~= old(out)@ + enc_i64s(sv));
    }
}

pub fn w_durs(out: &mut Vec<u8>, v: &Vec<Duration>)
    ensures
        final(out)@ == old(out)@ + enc_i64s(durs_view(v@)),
        list_ok(durs_view(v@)),
{
    let n = v.len();
    w_u64(out, n as u64);
    let ghost sv = durs_view(v@);
    let mut i: usize = 0;
    while i < n
        invariant
            0 <= i <= n,
            n == v@.len(),
            sv == durs_view(v@),
            out@ == old(out)@ + enc_u64(n as u64) + enc_i64s_body(sv.take(i as int)),
        decreases n - i,
    {
        w_i64(out, v[i].secs);
        proof {
            assert(sv.take(i + 1) =~= sv.take(i as int).push(sv[i as int]));
            lemma_enc_i64s_snoc(sv.take(i as int), sv[i as int]);
            assert(out@ =~= old(out)@ + enc_u64(n as u64) + enc_i64s_body(sv.take(i + 1)));
        }
        i = i + 1;
    }
    proof {
        assert(sv.take(n as int) =~= sv);
        assert(out@ =~= old(out)@ + enc_i64s(sv));
    }
}

pub fn w_ids(out: &mut Vec<u8>, v: &Vec<ObjId>)
    ensures
        final(out)@ == old(out)@ + enc_u32s(ids_view(v@)),
        list_ok(ids_view(v@)),
{
    let n = v.len();
    w_u64(out, n as u64);
    let ghost sv = ids_view(v@);
    let mut i: usize = 0;
    while i < n
        invariant
            0 <= i <= n,
            n == v@.len(),
            sv == ids_view(v@),
            out@ == old(out)@ + enc_u64(n as u64) + enc_u32s_body(sv.take(i as int)),
        decreases n - i,
    {
        w_u32(out, v[i].0);
        proof {
            assert(sv.take(i + 1) =~= sv.take(i as int).push(sv[i as int]));
            lemma_enc_u32s_snoc(sv.take(i as int), sv[i as int]);
            assert(out@ =~= old(out)@ + enc_u64(n as u64) + enc_u32s_body(sv.take(i + 1)));
        }
        i = i + 1;
    }
    proof {
        assert(sv.take(n as int) =~= sv);
        assert(out@ =~= old(out)@ + enc_u32s(sv));
    }
}

pub fn w_every(out: &mut Vec<u8>, e: &Every)
    ensures
        final(out)@ == old(out)@ + enc_every(e@),
{
    match e {
        Every::Time(d) => {
            out.push(0u8);
            w_i64(out, d.secs);
        },
        Every::Month(c) => {
            out.push(1u8);
            w_u32(out, *c);
        },
    }
    proof {
        assert(final(out)@ =~= old(out)@ + enc_every(e@));
    }
}

pub fn w_stop(out: &mut Vec<u8>, st: &Stop)
    ensures
        final(out)@ == old(out)@ + enc_stop(st@),
{
    match st {
        Stop::Nonstop => {
            out.push(0u8);
        },
        Stop::Stopped => {
            out.push(1u8);
        },
        Stop::Count(n) => {
            out.push(2u8);
            w_i32(out, *n);
        },
        Stop::After(t) => {
            out.push(3u8);
            w_i64(out, t.secs);
        },
    }
    proof {
        assert(final(out)@ =~= old(out)@ + enc_stop(st@));
    }
}

pub fn w_repeated(out: &mut Vec<u8>, r: &Repeated)
    ensures
        final(out)@ == old(out)@ + enc_repeated(r@),
        repeated_ok(r@),
{
    w_dts(out, &r.start);
    w_every(out, &r.every);
    w_stop(out, &r.stop);
    w_opt_dt(out, &r.last);
    w_usize(out, r.index);
    proof {
        assert(final(out)@ =~= old(out)@ + enc_repeated(r@));
    }
}

pub fn w_optrep(out: &mut Vec<u8>, o: &OptRepeated)
    ensures
        final(out)@ == old(out)@ + enc_optrep(o@),
        optrep_ok(o@),
{
    match o {
        OptRepeated::Single(t) => {
            out.push(0u8);
            w_i64(out, t.secs);
        },
        OptRepeated::Repeat(r) => {
            out.push(1u8);
            w_repeated(out, r);
        },
    }
    proof {
        assert(final(out)@ =~= old(out)@ + enc_optrep(o@));
    }
}

pub fn w_flavor(out: &mut Vec<u8>, f: &TaskFlavor)
    ensures
        final(out)@ == old(out)@ + enc_flavor(*f),
{
    match f {
        TaskFlavor::Deadline => {
            out.push(0u8);
        },
        TaskFlavor::Balanced => {
            out.push(1u8);
        },
    }
    proof {
        assert(final(out)@ =~= old(out)@ + enc_flavor(*f));
    }
}

pub fn w_attr_val(out: &mut Vec<u8>, v: &AttrValue)
    ensures
        final(out)@ == old(out)@ + enc_attr_val(v@),
        attr_val_ok(v@),
    decreases crate::attr::val_size(*v),
{
    match v {
        AttrValue::Num(n) => {
            out.push(0u8);
            w_i64(out, *n);
            proof {
                assert(final(out)@ =~= old(out)@ + enc_attr_val(v@));
            }
        },
        AttrValue::Str(s) => {
            out.push(1u8);
            w_str(out, s.as_str());
            proof {
                assert(final(out)@ =~= old(out)@ + enc_attr_val(v@));
            }
        },
        AttrValue::Bool(x) => {
            out.push(2u8);
            w_bool(out, *x);
            proof {
                assert(final(out)@ =~= old(out)@ + enc_attr_val(v@));
            }
        },
        AttrValue::Arr(items) => {
            out.push(3u8);
            let n = items.len();
            w_u64(out, n as u64);
            let ghost sv = crate::attr::attr_items_view(items@);
            proof {
                crate::attr::lemma_attr_items_view(items@);
            }
            let mut i: usize = 0;
            while i < n
                invariant
                    *v == AttrValue::Arr(*items),
                    0 <= i <= n,
                    n == items@.len(),
                    sv == crate::attr::attr_items_view(items@),
                    sv.len() == n,
                    forall|j: int| 0 <= j < n ==> sv[j] == crate::attr::attr_val_view(items@[j]),
                    out@ == old(out)@ + seq![3u8] + enc_u64(n as u64) + enc_attr_items(
                        sv.take(i as int),
                    ),
                    attr_items_ok(sv.take(i as int)),
                decreases n - i,
            {
                proof {
                    crate::attr::lemma_items_size_bound_pub(items@, i as int);
                }
                w_attr_val(out, &items[i]);
                proof {
                    assert(sv.take(i + 1) =~= sv.take(i as int).push(sv[i as int]));
                    lemma_enc_attr_items_snoc(sv.take(i as int), sv[i as int]);
                    assert(out@ =~= old(out)@ + seq![3u8] + enc_u64(n as u64) + enc_attr_items(
                        sv.take(i + 1),
                    ));
                }
                i = i + 1;
            }
            proof {
                assert(sv.take(n as int) =~= sv);
                assert(final(out)@ =~= old(out)@ + enc_attr_val(v@));
            }
        },
        AttrValue::Dict(entries) => {
            out.push(4u8);
            let n = entries.len();
            w_u64(out, n as u64);
            let ghost sv = crate::attr::attr_entries_view(entries@);
            proof {
                crate::attr::lemma_attr_entries_view(entries@);
            }
            let mut i: usize = 0;
            while i < n
                invariant
                    *v == AttrValue::Dict(*entries),
                    0 <= i <= n,
                    n == entries@.len(),
                    sv == crate::attr::attr_entries_view(entries@),
                    sv.len() == n,
                    forall|j: int|
                        0 <= j < n ==> sv[j] == (
                            entries@[j].0@,
                            crate::attr::attr_val_view(entries@[j].1),
                        ),
                    out@ == old(out)@ + seq![4u8] + enc_u64(n as u64) + enc_attr_entries(
                        sv.take(i as int),
                    ),
                    attr_entries_ok(sv.take(i as int)),
                decreases n - i,
            {
                proof {
                    crate::attr::lemma_entries_size_bound_pub(entries@, i as int);
                }
                w_str(out, entries[i].0.as_str());
                w_attr_val(out, &entries[i].1);
                proof {
                    assert(sv.take(i + 1) =~= sv.take(i as int).push(sv[i as int]));
                    lemma_enc_attr_entries_snoc(
                        sv.take(i as int),
                        sv[i as int].0,
                        sv[i as int].1,
                    );
                    assert(out@ =~= old(out)@ + seq![4u8] + enc_u64(n as u64) + enc_attr_entries(
                        sv.take(i + 1),
                    ));
                }
                i = i + 1;
            }
            proof {
                assert(sv.take(n as int) =~= sv);
                assert(final(out)@ =~= old(out)@ + enc_attr_val(v@));
            }
        },
    }
}

pub fn w_attrs(out: &mut Vec<u8>, a: &Attrs)
    ensures
        final(out)@ == old(out)@ + enc_attrs(a@),
        attrs_enc_ok(a@),
{
    let n = a.entries.len();
    w_u64(out, n as u64);
    let ghost sv = a@;
    let mut i: usize = 0;
    while i < n
        invariant
            0 <= i <= n,
            n == a.entries@.len(),
            sv == a@,
            sv.len() == n,
            forall|j: int| 0 <= j < n ==> sv[j] == (a.entries@[j].0@, a.entries@[j].1@),
            out@ == old(out)@ + enc_u64(n as u64) + enc_attr_entries(sv.take(i as int)),
            attr_entries_ok(sv.take(i as int)),
        decreases n - i,
    {
        w_str(out, a.entries[i].0.as_str());
        w_attr_val(out, &a.entries[i].1);
        proof {
            assert(sv.take(i + 1) =~= sv.take(i as int).push(sv[i as int]));
            lemma_enc_attr_entries_snoc(sv.take(i as int), sv[i as int].0, sv[i as int].1);
            assert(out@ =~= old(out)@ + enc_u64(n as u64) + enc_attr_entries(sv.take(i + 1)));
        }
        i = i + 1;
    }
    proof {
        assert(sv.take(n as int) =~= sv);
        assert(out@ =~= old(out)@ + enc_attrs(sv));
    }
}

pub fn w_opt_attrs(out: &mut Vec<u8>, o: &Option<Attrs>)
    ensures
        final(out)@ == old(out)@ + enc_opt_attrs(
            match o {
                Some(a) => Some(a@),
                None => None,
            },
        ),
        opt_attrs_ok(
            match o {
                Some(a) => Some(a@),
                None => None,
            },
        ),
{
    match o {
        None => {
            out.push(0u8);
            proof {
                assert(final(out)@ =~= old(out)@ + enc_opt_attrs(None));
            }
        },
        Some(a) => {
            out.push(1u8);
            w_attrs(out, a);
            proof {
                assert(final(out)@ =~= old(out)@ + enc_opt_attrs(Some(a@)));
            }
        },
    }
}

// ------------------------------------------------------------------
// Decoders
// ------------------------------------------------------------------

pub proof fn lemma_enc_i64s_split(v: Seq<i64>, i: int)
    requires
        0 <= i <= v.len(),
    ensures
        enc_i64s_body(v) =~= enc_i64s_body(v.take(i)) + enc_i64s_body(v.skip(i)),
    decreases i,
{
    if i == 0 {
        assert(v.take(0) =~= Seq::<i64>::empty());
        assert(v.skip(0) =~= v);
    } else {
        lemma_enc_i64s_split(v, i - 1);
        assert(v.take(i) =~= v.take(i - 1).push(v[i - 1]));
        lemma_enc_i64s_snoc(v.take(i - 1), v[i - 1]);
        assert(v.skip(i - 1) =~= seq![v[i - 1]] + v.skip(i));
        assert(v.skip(i - 1).drop_first() =~= v.skip(i));
        assert(v.skip(i - 1)[0] == v[i - 1]);
        assert(enc_i64s_body(v.skip(i - 1)) == enc_i64(v[i - 1]) + enc_i64s_body(v.skip(i)));
        assert(enc_i64s_body(v) =~= enc_i64s_body(v.take(i)) + enc_i64s_body(v.skip(i)));
    }
}

pub proof fn lemma_enc_u32s_split(v: Seq<u32>, i: int)
    requires
        0 <= i <= v.len(),
    ensures
        enc_u32s_body(v) =~= enc_u32s_body(v.take(i)) + enc_u32s_body(v.skip(i)),
    decreases i,
{
    if i == 0 {
        assert(v.take(0) =~= Seq::<u32>::empty());
        assert(v.skip(0) =~= v);
    } else {
        lemma_enc_u32s_split(v, i - 1);
        assert(v.take(i) =~= v.take(i - 1).push(v[i - 1]));
        lemma_enc_u32s_snoc(v.take(i - 1), v[i - 1]);
        assert(v.skip(i - 1) =~= seq![v[i - 1]] + v.skip(i));
        assert(v.skip(i - 1).drop_first() =~= v.skip(i));
        assert(v.skip(i - 1)[0] == v[i - 1]);
        assert(enc_u32s_body(v.skip(i - 1)) == enc_u32(v[i - 1]) + enc_u32s_body(v.skip(i)));
        assert(enc_u32s_body(v) =~= enc_u32s_body(v.take(i)) + enc_u32s_body(v.skip(i)));
    }
}

pub fn d_opt_i64(b: &[u8]) -> (r: Option<(Option<i64>, usize)>)
    ensures
        r matches Some(p) ==> p.1 <= b@.len() && b@.take(p.1 as int) == enc_opt_i64(p.0),
        forall|v: Option<i64>, rest: Seq<u8>|
            b@ == enc_opt_i64(v) + rest ==> (r matches Some(p) && p.0 == v && p.1 as int
                == enc_opt_i64(v).len()),
{
    if b.len() < 1 {
        return None;
    }
    let tag = b[0];
    if tag == 0u8 {
        proof {
            assert(b@.take(1) =~= enc_opt_i64(None));
            assert forall|v: Option<i64>, rest: Seq<u8>|
                b@ == enc_opt_i64(v) + rest implies v is None by {
                match v {
                    Some(x) => {
                        assert(b@[0] == 1u8);
                    },
                    None => {},
                }
            }
        }
        Some((None, 1))
    } else if tag == 1u8 {
        let tail = &b[1..b.len()];
        proof {
            assert(tail@ =~= b@.skip(1));
            assert forall|v: Option<i64>, rest: Seq<u8>|
                b@ == enc_opt_i64(v) + rest implies (v matches Some(x) && tail@ == enc_i64(x)
                    + rest) by {
                match v {
                    Some(x) => {
                        assert(b@ =~= seq![1u8] + (enc_i64(x) + rest));
                        assert(tail@ =~= enc_i64(x) + rest);
                    },
                    None => {
                        assert(b@[0] == 0u8);
                    },
                }
            }
        }
        match d_i64(tail) {
            None => None,
            Some((x, n)) => {
                proof {
                    assert(b@.take(1 + n as int) =~= seq![1u8] + tail@.take(n as int));
                }
                Some((Some(x), 1 + n))
            },
        }
    } else {
        proof {
            assert forall|v: Option<i64>, rest: Seq<u8>|
                b@ == enc_opt_i64(v) + rest implies false by {
                if v is None {
                    assert(b@[0] == 0u8);
                }
                match v {
                    Some(x) => {
                        assert(b@[0] == 1u8);
                    },
                    None => {},
                }
            }
        }
        None
    }
}

/// The same, as an instant.
pub fn d_opt_dt(b: &[u8]) -> (r: Option<(Option<DateTime>, usize)>)
    ensures
        r matches Some(p) ==> p.1 <= b@.len() && b@.take(p.1 as int) == enc_opt_i64(
            match p.0 {
                Some(d) => Some(d.secs),
                None => None,
            },
        ),
        forall|v: Option<i64>, rest: Seq<u8>|
            b@ == enc_opt_i64(v) + rest ==> (r matches Some(p) && (match p.0 {
                Some(d) => Some(d.secs),
                None => None,
            }) == v && p.1 as int == enc_opt_i64(v).len()),
{
    match d_opt_i64(b) {
        None => None,
        Some((o, n)) => match o {
            None => Some((None, n)),
            Some(x) => Some((Some(DateTime { secs: x }), n)),
        },
    }
}

pub fn d_opt_string(b: &[u8]) -> (r: Option<(Option<String>, usize)>)
    ensures
        r matches Some(p) ==> p.1 <= b@.len() && b@.take(p.1 as int) == enc_opt_str(
            match p.0 {
                Some(s) => Some(s@),
                None => None,
            },
        ) && opt_str_ok(
            match p.0 {
                Some(s) => Some(s@),
                None => None,
            },
        ),
        forall|v: Option<Seq<char>>, rest: Seq<u8>|
            opt_str_ok(v) && b@ == enc_opt_str(v) + rest ==> (r matches Some(p) && (match p.0 {
                Some(s) => Some(s@),
                None => None,
            }) == v && p.1 as int == enc_opt_str(v).len()),
{
    if b.len() < 1 {
        return None;
    }
    let tag = b[0];
    if tag == 0u8 {
        proof {
            assert(b@.take(1) =~= enc_opt_str(None));
            assert forall|v: Option<Seq<char>>, rest: Seq<u8>|
                opt_str_ok(v) && b@ == enc_opt_str(v) + rest implies v is None by {
                match v {
                    Some(x) => {
                        assert(b@[0] == 1u8);
                    },
                    None => {},
                }
            }
        }
        Some((None, 1))
    } else if tag == 1u8 {
        let tail = &b[1..b.len()];
        proof {
            assert(tail@ =~= b@.skip(1));
            assert forall|v: Option<Seq<char>>, rest: Seq<u8>|
                opt_str_ok(v) && b@ == enc_opt_str(v) + rest implies (v matches Some(x) && str_ok(
                    x,
                ) && tail@ == enc_str(x) + rest) by {
                match v {
                    Some(x) => {
                        assert(b@ =~= seq![1u8] + (enc_str(x) + rest));
                        assert(tail@ =~= enc_str(x) + rest);
                    },
                    None => {
                        assert(b@[0] == 0u8);
                    },
                }
            }
        }
        match d_str(tail) {
            None => None,
            Some((x, n)) => {
                proof {
                    assert(b@.take(1 + n as int) =~= seq![1u8] + tail@.take(n as int));
                }
                Some((Some(x), 1 + n))
            },
        }
    } else {
        proof {
            assert forall|v: Option<Seq<char>>, rest: Seq<u8>|
                opt_str_ok(v) && b@ == enc_opt_str(v) + rest implies false by {
                if v is None {
                    assert(b@[0] == 0u8);
                }
                match v {
                    Some(x) => {
                        assert(b@[0] == 1u8);
                    },
                    None => {},
                }
            }
        }
        None
    }
}

pub proof fn lemma_enc_i64s_body_len(v: Seq<i64>)
    ensures
        enc_i64s_body(v).len() == 8 * v.len(),
    decreases v.len(),
{
    if v.len() > 0 {
        lemma_enc_i64s_body_len(v.drop_first());
    }
}

pub proof fn lemma_enc_u32s_body_len(v: Seq<u32>)
    ensures
        enc_u32s_body(v).len() == 4 * v.len(),
    decreases v.len(),
{
    if v.len() > 0 {
        lemma_enc_u32s_body_len(v.drop_first());
    }
}

pub fn d_dts(b: &[u8]) -> (r: Option<(Vec<DateTime>, usize)>)
    ensures
        r matches Some(p) ==> p.1 <= b@.len() && b@.take(p.1 as int) == enc_i64s(
            dts_view(p.0@),
        ) && list_ok(dts_view(p.0@)),
        forall|v: Seq<i64>, rest: Seq<u8>|
            list_ok(v) && b@ == enc_i64s(v) + rest ==> (r matches Some(p) && dts_view(p.0@) == v
                && p.1 as int == enc_i64s(v).len()),
{
    let blen = b.len();
    proof {
        assert forall|v: Seq<i64>, rest: Seq<u8>|
            list_ok(v) && b@ == enc_i64s(v) + rest implies b@ == enc_u64(v.len() as u64) + (
        enc_i64s_body(v) + rest) && v.len() <= usize::MAX by {
            assert(b@ =~= enc_u64(v.len() as u64) + (enc_i64s_body(v) + rest));
            lemma_enc_i64s_body_len(v);
        }
    }
    let (cnt, _) = match d_u64(b) {
        None => {
            return None;
        },
        Some(p) => p,
    };
    if cnt > (usize::MAX as u64) {
        return None;
    }
    let mut out: Vec<DateTime> = Vec::new();
    let mut pos: usize = 8;
    let mut i: u64 = 0;
    while i < cnt
        invariant
            blen == b@.len(),
            8 <= pos <= blen,
            i <= cnt,
            out@.len() == i,
            b@.take(pos as int) == enc_u64(cnt) + enc_i64s_body(dts_view(out@)),
            forall|v: Seq<i64>, rest: Seq<u8>|
                list_ok(v) && b@ == enc_i64s(v) + rest ==> v.len() == cnt && dts_view(out@)
                    == v.take(i as int) && pos as int == 8 + enc_i64s_body(
                    v.take(i as int),
                ).len(),
        decreases cnt - i,
    {
        let tail = &b[pos..blen];
        proof {
            assert(tail@ == b@.skip(pos as int));
            assert forall|v: Seq<i64>, rest: Seq<u8>|
                list_ok(v) && b@ == enc_i64s(v) + rest implies tail@ == enc_i64(
                v[i as int],
            ) + (enc_i64s_body(v.skip(i as int + 1)) + rest) by {
                lemma_enc_i64s_split(v, i as int);
                assert(v.skip(i as int)[0] == v[i as int]);
                assert(v.skip(i as int).drop_first() =~= v.skip(i as int + 1));
                assert(enc_i64s_body(v.skip(i as int)) == enc_i64(v[i as int])
                    + enc_i64s_body(v.skip(i as int + 1)));
                assert(b@ =~= b@.take(pos as int) + b@.skip(pos as int));
                assert(b@.skip(pos as int) =~= enc_i64(v[i as int]) + (enc_i64s_body(
                    v.skip(i as int + 1),
                ) + rest));
            }
        }
        match d_i64(tail) {
            None => {
                return None;
            },
            Some((x, _n)) => {
                let ghost prev = dts_view(out@);
                out.push(DateTime { secs: x });
                proof {
                    assert(dts_view(out@) =~= prev.push(x));
                    lemma_enc_i64s_snoc(prev, x);
                    assert(b@.take(pos as int + 8) =~= b@.take(pos as int) + tail@.take(
                        8,
                    ));
                    assert forall|v: Seq<i64>, rest: Seq<u8>|
                        list_ok(v) && b@ == enc_i64s(v) + rest implies dts_view(out@) == v.take(
                        i as int + 1,
                    ) && pos as int + 8 == 8 + enc_i64s_body(
                        v.take(i as int + 1),
                    ).len() by {
                        assert(x == v[i as int]);
                        assert(v.take(i as int + 1) =~= v.take(i as int).push(v[i as int]));
                        lemma_enc_i64s_snoc(v.take(i as int), v[i as int]);
                        assert(dts_view(out@) =~= v.take(i as int + 1));
                    }
                }
                pos = pos + 8;
                i = i + 1;
            },
        }
    }
    proof {
        assert(b@.take(pos as int) =~= enc_i64s(dts_view(out@)));
        assert forall|v: Seq<i64>, rest: Seq<u8>|
            list_ok(v) && b@ == enc_i64s(v) + rest implies dts_view(out@) == v && pos as int
            == enc_i64s(v).len() by {
            assert(v.take(i as int) =~= v);
        }
    }
    Some((out, pos))
}

pub fn d_durs(b: &[u8]) -> (r: Option<(Vec<Duration>, usize)>)
    ensures
        r matches Some(p) ==> p.1 <= b@.len() && b@.take(p.1 as int) == enc_i64s(
            durs_view(p.0@),
        ) && list_ok(durs_view(p.0@)),
        forall|v: Seq<i64>, rest: Seq<u8>|
            list_ok(v) && b@ == enc_i64s(v) + rest ==> (r matches Some(p) && durs_view(p.0@) == v
                && p.1 as int == enc_i64s(v).len()),
{
    let blen = b.len();
    proof {
        assert forall|v: Seq<i64>, rest: Seq<u8>|
            list_ok(v) && b@ == enc_i64s(v) + rest implies b@ == enc_u64(v.len() as u64) + (
        enc_i64s_body(v) + rest) && v.len() <= usize::MAX by {
            assert(b@ =~= enc_u64(v.len() as u64) + (enc_i64s_body(v) + rest));
            lemma_enc_i64s_body_len(v);
        }
    }
    let (cnt, _) = match d_u64(b) {
        None => {
            return None;
        },
        Some(p) => p,
    };
    if cnt > (usize::MAX as u64) {
        return None;
    }
    let mut out: Vec<Duration> = Vec::new();
    let mut pos: usize = 8;
    let mut i: u64 = 0;
    while i < cnt
        invariant
            blen == b@.len(),
            8 <= pos <= blen,
            i <= cnt,
            out@.len() == i,
            b@.take(pos as int) == enc_u64(cnt) + enc_i64s_body(durs_view(out@)),
            forall|v: Seq<i64>, rest: Seq<u8>|
                list_ok(v) && b@ == enc_i64s(v) + rest ==> v.len() == cnt && durs_view(out@)
                    == v.take(i as int) && pos as int == 8 + enc_i64s_body(
                    v.take(i as int),
                ).len(),
        decreases cnt - i,
    {
        let tail = &b[pos..blen];
        proof {
            assert(tail@ == b@.skip(pos as int));
            assert forall|v: Seq<i64>, rest: Seq<u8>|
                list_ok(v) && b@ == enc_i64s(v) + rest implies tail@ == enc_i64(
                v[i as int],
            ) + (enc_i64s_body(v.skip(i as int + 1)) + rest) by {
                lemma_enc_i64s_split(v, i as int);
                assert(v.skip(i as int)[0] == v[i as int]);
                assert(v.skip(i as int).drop_first() =~= v.skip(i as int + 1));
                assert(enc_i64s_body(v.skip(i as int)) == enc_i64(v[i as int])
                    + enc_i64s_body(v.skip(i as int + 1)));
                assert(b@ =~= b@.take(pos as int) + b@.skip(pos as int));
                assert(b@.skip(pos as int) =~= enc_i64(v[i as int]) + (enc_i64s_body(
                    v.skip(i as int + 1),
                ) + rest));
            }
        }
        match d_i64(tail) {
            None => {
                return None;
            },
            Some((x, _n)) => {
                let ghost prev = durs_view(out@);
                out.push(Duration { secs: x });
                proof {
                    assert(durs_view(out@) =~= prev.push(x));
                    lemma_enc_i64s_snoc(prev, x);
                    assert(b@.take(pos as int + 8) =~= b@.take(pos as int) + tail@.take(
                        8,
                    ));
                    assert forall|v: Seq<i64>, rest: Seq<u8>|
                        list_ok(v) && b@ == enc_i64s(v) + rest implies durs_view(out@) == v.take(
                        i as int + 1,
                    ) && pos as int + 8 == 8 + enc_i64s_body(
                        v.take(i as int + 1),
                    ).len() by {
                        assert(x == v[i as int]);
                        assert(v.take(i as int + 1) =~= v.take(i as int).push(v[i as int]));
                        lemma_enc_i64s_snoc(v.take(i as int), v[i as int]);
                        assert(durs_view(out@) =~= v.take(i as int + 1));
                    }
                }
                pos = pos + 8;
                i = i + 1;
            },
        }
    }
    proof {
        assert(b@.take(pos as int) =~= enc_i64s(durs_view(out@)));
        assert forall|v: Seq<i64>, rest: Seq<u8>|
            list_ok(v) && b@ == enc_i64s(v) + rest implies durs_view(out@) == v && pos as int
            == enc_i64s(v).len() by {
            assert(v.take(i as int) =~= v);
        }
    }
    Some((out, pos))
}

pub fn d_ids(b: &[u8]) -> (r: Option<(Vec<ObjId>, usize)>)
    ensures
        r matches Some(p) ==> p.1 <= b@.len() && b@.take(p.1 as int) == enc_u32s(
            ids_view(p.0@),
        ) && list_ok(ids_view(p.0@)),
        forall|v: Seq<u32>, rest: Seq<u8>|
            list_ok(v) && b@ == enc_u32s(v) + rest ==> (r matches Some(p) && ids_view(p.0@) == v
                && p.1 as int == enc_u32s(v).len()),
{
    let blen = b.len();
    proof {
        assert forall|v: Seq<u32>, rest: Seq<u8>|
            list_ok(v) && b@ == enc_u32s(v) + rest implies b@ == enc_u64(v.len() as u64) + (
        enc_u32s_body(v) + rest) && v.len() <= usize::MAX by {
            assert(b@ =~= enc_u64(v.len() as u64) + (enc_u32s_body(v) + rest));
            lemma_enc_u32s_body_len(v);
        }
    }
    let (cnt, _) = match d_u64(b) {
        None => {
            return None;
        },
        Some(p) => p,
    };
    if cnt > (usize::MAX as u64) {
        return None;
    }
    let mut out: Vec<ObjId> = Vec::new();
    let mut pos: usize = 8;
    let mut i: u64 = 0;
    while i < cnt
        invariant
            blen == b@.len(),
            8 <= pos <= blen,
            i <= cnt,
            out@.len() == i,
            b@.take(pos as int) == enc_u64(cnt) + enc_u32s_body(ids_view(out@)),
            forall|v: Seq<u32>, rest: Seq<u8>|
                list_ok(v) && b@ == enc_u32s(v) + rest ==> v.len() == cnt && ids_view(out@)
                    == v.take(i as int) && pos as int == 8 + enc_u32s_body(
                    v.take(i as int),
                ).len(),
        decreases cnt - i,
    {
        let tail = &b[pos..blen];
        proof {
            assert(tail@ == b@.skip(pos as int));
            assert forall|v: Seq<u32>, rest: Seq<u8>|
                list_ok(v) && b@ == enc_u32s(v) + rest implies tail@ == enc_u32(
                v[i as int],
            ) + (enc_u32s_body(v.skip(i as int + 1)) + rest) by {
                lemma_enc_u32s_split(v, i as int);
                assert(v.skip(i as int)[0] == v[i as int]);
                assert(v.skip(i as int).drop_first() =~= v.skip(i as int + 1));
                assert(enc_u32s_body(v.skip(i as int)) == enc_u32(v[i as int])
                    + enc_u32s_body(v.skip(i as int + 1)));
                assert(b@ =~= b@.take(pos as int) + b@.skip(pos as int));
                assert(b@.skip(pos as int) =~= enc_u32(v[i as int]) + (enc_u32s_body(
                    v.skip(i as int + 1),
                ) + rest));
            }
        }
        match d_u32(tail) {
            None => {
                return None;
            },
            Some((x, _n)) => {
                let ghost prev = ids_view(out@);
                out.push(ObjId(x));
                proof {
                    assert(ids_view(out@) =~= prev.push(x));
                    lemma_enc_u32s_snoc(prev, x);
                    assert(b@.take(pos as int + 4) =~= b@.take(pos as int) + tail@.take(
                        4,
                    ));
                    assert forall|v: Seq<u32>, rest: Seq<u8>|
                        list_ok(v) && b@ == enc_u32s(v) + rest implies ids_view(out@) == v.take(
                        i as int + 1,
                    ) && pos as int + 4 == 8 + enc_u32s_body(
                        v.take(i as int + 1),
                    ).len() by {
                        assert(x == v[i as int]);
                        assert(v.take(i as int + 1) =~= v.take(i as int).push(v[i as int]));
                        lemma_enc_u32s_snoc(v.take(i as int), v[i as int]);
                        assert(ids_view(out@) =~= v.take(i as int + 1));
                    }
                }
                pos = pos + 4;
                i = i + 1;
            },
        }
    }
    proof {
        assert(b@.take(pos as int) =~= enc_u32s(ids_view(out@)));
        assert forall|v: Seq<u32>, rest: Seq<u8>|
            list_ok(v) && b@ == enc_u32s(v) + rest implies ids_view(out@) == v && pos as int
            == enc_u32s(v).len() by {
            assert(v.take(i as int) =~= v);
        }
    }
    Some((out, pos))
}

pub fn d_flavor(b: &[u8]) -> (r: Option<(TaskFlavor, usize)>)
    ensures
        r matches Some(p) ==> p.1 == 1 && 1 <= b@.len() && b@.take(1) == enc_flavor(p.0),
        forall|v: TaskFlavor, rest: Seq<u8>|
            b@ == enc_flavor(v) + rest ==> r == Some((v, 1usize)),
{
    if b.len() < 1 {
        return None;
    }
    let tag = b[0];
    let r = if tag == 0u8 {
        Some((TaskFlavor::Deadline, 1usize))
    } else if tag == 1u8 {
        Some((TaskFlavor::Balanced, 1usize))
    } else {
        None
    };
    proof {
        if b@[0] == 0u8 {
            assert(b@.take(1) =~= enc_flavor(TaskFlavor::Deadline));
        }
        if b@[0] == 1u8 {
            assert(b@.take(1) =~= enc_flavor(TaskFlavor::Balanced));
        }
        assert forall|v: TaskFlavor, rest: Seq<u8>|
            b@ == enc_flavor(v) + rest implies r == Some((v, 1usize)) by {
            match v {
                TaskFlavor::Deadline => {
                    assert(b@[0] == 0u8);
                },
                TaskFlavor::Balanced => {
                    assert(b@[0] == 1u8);
                },
            }
        }
    }
    r
}

pub fn d_every(b: &[u8]) -> (r: Option<(Every, usize)>)
    ensures
        r matches Some(p) ==> p.1 <= b@.len() && b@.take(p.1 as int) == enc_every(p.0@),
        forall|v: EveryV, rest: Seq<u8>|
            b@ == enc_every(v) + rest ==> (r matches Some(p) && p.0@ == v && p.1 as int
                == enc_every(v).len()),
{
    if b.len() < 1 {
        return None;
    }
    let tag = b[0];
    let tail = &b[1..b.len()];
    proof {
        assert(tail@ =~= b@.skip(1));
        assert forall|v: EveryV, rest: Seq<u8>| b@ == enc_every(v) + rest implies match v {
            EveryV::Time(d) => b@[0] == 0u8 && tail@ == enc_i64(d) + rest,
            EveryV::Month(c) => b@[0] == 1u8 && tail@ == enc_u32(c) + rest,
        } by {
            match v {
                EveryV::Time(d) => {
                    assert(b@ =~= seq![0u8] + (enc_i64(d) + rest));
                    assert(tail@ =~= enc_i64(d) + rest);
                },
                EveryV::Month(c) => {
                    assert(b@ =~= seq![1u8] + (enc_u32(c) + rest));
                    assert(tail@ =~= enc_u32(c) + rest);
                },
            }
        }
    }
    if tag == 0u8 {
        match d_i64(tail) {
            None => None,
            Some((d, n)) => {
                proof {
                    assert(b@.take(1 + n as int) =~= seq![0u8] + tail@.take(n as int));
                }
                Some((Every::Time(Duration { secs: d }), 1 + n))
            },
        }
    } else if tag == 1u8 {
        match d_u32(tail) {
            None => None,
            Some((c, n)) => {
                proof {
                    assert(b@.take(1 + n as int) =~= seq![1u8] + tail@.take(n as int));
                }
                Some((Every::Month(c), 1 + n))
            },
        }
    } else {
        None
    }
}

pub fn d_stop(b: &[u8]) -> (r: Option<(Stop, usize)>)
    ensures
        r matches Some(p) ==> p.1 <= b@.len() && b@.take(p.1 as int) == enc_stop(p.0@),
        forall|v: StopV, rest: Seq<u8>|
            b@ == enc_stop(v) + rest ==> (r matches Some(p) && p.0@ == v && p.1 as int == enc_stop(
                v,
            ).len()),
{
    if b.len() < 1 {
        return None;
    }
    let tag = b[0];
    let tail = &b[1..b.len()];
    proof {
        assert(tail@ =~= b@.skip(1));
        assert forall|v: StopV, rest: Seq<u8>| b@ == enc_stop(v) + rest implies match v {
            StopV::Nonstop => b@[0] == 0u8,
            StopV::Stopped => b@[0] == 1u8,
            StopV::Count(n) => b@[0] == 2u8 && tail@ == enc_i32(n) + rest,
            StopV::After(t) => b@[0] == 3u8 && tail@ == enc_i64(t) + rest,
        } by {
            match v {
                StopV::Nonstop => {},
                StopV::Stopped => {},
                StopV::Count(n) => {
                    assert(b@ =~= seq![2u8] + (enc_i32(n) + rest));
                    assert(tail@ =~= enc_i32(n) + rest);
                },
                StopV::After(t) => {
                    assert(b@ =~= seq![3u8] + (enc_i64(t) + rest));
                    assert(tail@ =~= enc_i64(t) + rest);
                },
            }
        }
    }
    if tag == 0u8 {
        proof {
            assert(b@.take(1) =~= enc_stop(StopV::Nonstop));
        }
        Some((Stop::Nonstop, 1))
    } else if tag == 1u8 {
        proof {
            assert(b@.take(1) =~= enc_stop(StopV::Stopped));
        }
        Some((Stop::Stopped, 1))
    } else if tag == 2u8 {
        match d_i32(tail) {
            None => None,
            Some((n, m)) => {
                proof {
                    assert(b@.take(1 + m as int) =~= seq![2u8] + tail@.take(m as int));
                }
                Some((Stop::Count(n), 1 + m))
            },
        }
    } else if tag == 3u8 {
        match d_i64(tail) {
            None => None,
            Some((t, m)) => {
                proof {
                    assert(b@.take(1 + m as int) =~= seq![3u8] + tail@.take(m as int));
                }
                Some((Stop::After(DateTime { secs: t }), 1 + m))
            },
        }
    } else {
        None
    }
}

#[verifier::rlimit(100)]
pub fn d_repeated(b: &[u8]) -> (r: Option<(Repeated, usize)>)
    ensures
        r matches Some(p) ==> p.1 <= b@.len() && b@.take(p.1 as int) == enc_repeated(p.0@)
            && repeated_ok(p.0@),
        forall|v: RepeatedV, rest: Seq<u8>|
            repeated_ok(v) && b@ == enc_repeated(v) + rest ==> (r matches Some(p) && p.0@ == v
                && p.1 as int == enc_repeated(v).len()),
{
    let blen = b.len();
    proof {
        assert forall|v: RepeatedV, rest: Seq<u8>|
            repeated_ok(v) && b@ == enc_repeated(v) + rest implies list_ok(v.start) && b@
            == enc_i64s(v.start) + (enc_every(v.every) + (enc_stop(v.stop) + (enc_opt_i64(v.last)
            + (enc_usize(v.index) + rest)))) by {
            assert(b@ =~= enc_i64s(v.start) + (enc_every(v.every) + (enc_stop(v.stop) + (
            enc_opt_i64(v.last) + (enc_usize(v.index) + rest)))));
        }
    }
    let (start, n1) = match d_dts(b) {
        None => {
            return None;
        },
        Some(p) => p,
    };
    let t2 = &b[n1..blen];
    proof {
        assert(t2@ == b@.skip(n1 as int));
        assert forall|v: RepeatedV, rest: Seq<u8>|
            repeated_ok(v) && b@ == enc_repeated(v) + rest implies dts_view(start@) == v.start
            && n1 as int == enc_i64s(v.start).len() && t2@ == enc_every(v.every) + (enc_stop(
            v.stop,
        ) + (enc_opt_i64(v.last) + (enc_usize(v.index) + rest))) by {
            assert(b@.skip(n1 as int) =~= enc_every(v.every) + (enc_stop(v.stop) + (enc_opt_i64(
                v.last,
            ) + (enc_usize(v.index) + rest))));
        }
    }
    let (every, n2) = match d_every(t2) {
        None => {
            return None;
        },
        Some(p) => p,
    };
    let t3 = &b[n1 + n2..blen];
    proof {
        assert(t3@ == b@.skip(n1 as int + n2 as int));
        assert(b@.take(n1 as int + n2 as int) =~= b@.take(n1 as int) + t2@.take(n2 as int));
        assert forall|v: RepeatedV, rest: Seq<u8>|
            repeated_ok(v) && b@ == enc_repeated(v) + rest implies every@ == v.every && n2 as int
            == enc_every(v.every).len() && t3@ == enc_stop(v.stop) + (enc_opt_i64(v.last) + (
        enc_usize(v.index) + rest)) by {
            assert(t2@.skip(n2 as int) =~= enc_stop(v.stop) + (enc_opt_i64(v.last) + (enc_usize(
                v.index,
            ) + rest)));
            assert(t3@ =~= t2@.skip(n2 as int));
        }
    }
    let (stop, n3) = match d_stop(t3) {
        None => {
            return None;
        },
        Some(p) => p,
    };
    let t4 = &b[n1 + n2 + n3..blen];
    proof {
        assert(t4@ == b@.skip(n1 as int + n2 + n3));
        assert(b@.take(n1 as int + n2 + n3) =~= b@.take(n1 as int + n2) + t3@.take(n3 as int));
        assert forall|v: RepeatedV, rest: Seq<u8>|
            repeated_ok(v) && b@ == enc_repeated(v) + rest implies stop@ == v.stop && n3 as int
            == enc_stop(v.stop).len() && t4@ == enc_opt_i64(v.last) + (enc_usize(v.index)
            + rest) by {
            assert(t3@.skip(n3 as int) =~= enc_opt_i64(v.last) + (enc_usize(v.index) + rest));
            assert(t4@ =~= t3@.skip(n3 as int));
        }
    }
    let (last, n4) = match d_opt_dt(t4) {
        None => {
            return None;
        },
        Some(p) => p,
    };
    let t5 = &b[n1 + n2 + n3 + n4..blen];
    let ghost lastv: Option<i64> = match last {
        Some(d) => Some(d.secs),
        None => None,
    };
    proof {
        assert(t5@ == b@.skip(n1 as int + n2 + n3 + n4));
        assert(b@.take(n1 as int + n2 + n3 + n4) =~= b@.take(n1 as int + n2 + n3) + t4@.take(
            n4 as int,
        ));
        assert forall|v: RepeatedV, rest: Seq<u8>|
            repeated_ok(v) && b@ == enc_repeated(v) + rest implies lastv == v.last && n4 as int
            == enc_opt_i64(v.last).len() && t5@ == enc_usize(v.index) + rest by {
            assert(t4@.skip(n4 as int) =~= enc_usize(v.index) + rest);
            assert(t5@ =~= t4@.skip(n4 as int));
        }
    }
    let (index, n5) = match d_usize(t5) {
        None => {
            return None;
        },
        Some(p) => p,
    };
    let rec = Repeated { start, every, stop, last, index };
    let n = n1 + n2 + n3 + n4 + n5;
    proof {
        assert(b@.take(n as int) =~= b@.take(n1 as int + n2 + n3 + n4) + t5@.take(n5 as int));
        assert(b@.take(n as int) =~= enc_repeated(rec@));
        assert forall|v: RepeatedV, rest: Seq<u8>|
            repeated_ok(v) && b@ == enc_repeated(v) + rest implies rec@ == v && n as int
            == enc_repeated(v).len() by {
            assert(index == v.index);
            assert(rec@ =~= v);
        }
    }
    Some((rec, n))
}

pub fn d_optrep(b: &[u8]) -> (r: Option<(OptRepeated, usize)>)
    ensures
        r matches Some(p) ==> p.1 <= b@.len() && b@.take(p.1 as int) == enc_optrep(p.0@)
            && optrep_ok(p.0@),
        forall|v: OptRepeatedV, rest: Seq<u8>|
            optrep_ok(v) && b@ == enc_optrep(v) + rest ==> (r matches Some(p) && p.0@ == v
                && p.1 as int == enc_optrep(v).len()),
{
    if b.len() < 1 {
        return None;
    }
    let tag = b[0];
    let tail = &b[1..b.len()];
    proof {
        assert(tail@ =~= b@.skip(1));
        assert forall|v: OptRepeatedV, rest: Seq<u8>|
            optrep_ok(v) && b@ == enc_optrep(v) + rest implies match v {
            OptRepeatedV::Single(t) => b@[0] == 0u8 && tail@ == enc_i64(t) + rest,
            OptRepeatedV::Repeat(rv) => b@[0] == 1u8 && repeated_ok(rv) && tail@ == enc_repeated(
                rv,
            ) + rest,
        } by {
            match v {
                OptRepeatedV::Single(t) => {
                    assert(b@ =~= seq![0u8] + (enc_i64(t) + rest));
                    assert(tail@ =~= enc_i64(t) + rest);
                },
                OptRepeatedV::Repeat(rv) => {
                    assert(b@ =~= seq![1u8] + (enc_repeated(rv) + rest));
                    assert(tail@ =~= enc_repeated(rv) + rest);
                },
            }
        }
    }
    if tag == 0u8 {
        match d_i64(tail) {
            None => None,
            Some((t, n)) => {
                proof {
                    assert(b@.take(1 + n as int) =~= seq![0u8] + tail@.take(n as int));
                }
                Some((OptRepeated::Single(DateTime { secs: t }), 1 + n))
            },
        }
    } else if tag == 1u8 {
        match d_repeated(tail) {
            None => None,
            Some((rv, n)) => {
                proof {
                    assert(b@.take(1 + n as int) =~= seq![1u8] + tail@.take(n as int));
                }
                Some((OptRepeated::Repeat(rv), 1 + n))
            },
        }
    } else {
        None
    }
}

pub proof fn lemma_enc_attr_items_split(v: Seq<AttrValueV>, i: int)
    requires
        0 <= i <= v.len(),
    ensures
        enc_attr_items(v) =~= enc_attr_items(v.take(i)) + enc_attr_items(v.skip(i)),
        attr_items_ok(v) ==> attr_items_ok(v.take(i)) && attr_items_ok(v.skip(i)),
    decreases i,
{
    if i == 0 {
        assert(v.take(0) =~= Seq::<AttrValueV>::empty());
        assert(v.skip(0) =~= v);
    } else {
        lemma_enc_attr_items_split(v, i - 1);
        assert(v.take(i) =~= v.take(i - 1).push(v[i - 1]));
        lemma_enc_attr_items_snoc(v.take(i - 1), v[i - 1]);
        assert(v.skip(i - 1).drop_first() =~= v.skip(i));
        assert(v.skip(i - 1)[0] == v[i - 1]);
        assert(enc_attr_items(v.skip(i - 1)) == enc_attr_val(v[i - 1]) + enc_attr_items(v.skip(i)));
        assert(attr_items_ok(v.skip(i - 1)) == (attr_val_ok(v[i - 1]) && attr_items_ok(v.skip(i))));
        assert(enc_attr_items(v) =~= enc_attr_items(v.take(i)) + enc_attr_items(v.skip(i)));
    }
}

pub proof fn lemma_enc_attr_entries_split(v: Seq<(Seq<char>, AttrValueV)>, i: int)
    requires
        0 <= i <= v.len(),
    ensures
        enc_attr_entries(v) =~= enc_attr_entries(v.take(i)) + enc_attr_entries(v.skip(i)),
        attr_entries_ok(v) ==> attr_entries_ok(v.take(i)) && attr_entries_ok(v.skip(i)),
    decreases i,
{
    if i == 0 {
        assert(v.take(0) =~= Seq::<(Seq<char>, AttrValueV)>::empty());
        assert(v.skip(0) =~= v);
    } else {
        lemma_enc_attr_entries_split(v, i - 1);
        assert(v.take(i) =~= v.take(i - 1).push(v[i - 1]));
        lemma_enc_attr_entries_snoc(v.take(i - 1), v[i - 1].0, v[i - 1].1);
        assert(v.take(i - 1).push(v[i - 1]) == v.take(i - 1).push((v[i - 1].0, v[i - 1].1)));
        assert(v.skip(i - 1).drop_first() =~= v.skip(i));
        assert(v.skip(i - 1)[0] == v[i - 1]);
        assert(enc_attr_entries(v.skip(i - 1)) == enc_str(v[i - 1].0) + enc_attr_val(v[i - 1].1)
            + enc_attr_entries(v.skip(i)));
        assert(attr_entries_ok(v.skip(i - 1)) == (str_ok(v[i - 1].0) && attr_val_ok(v[i - 1].1)
            && attr_entries_ok(v.skip(i))));
        assert(enc_attr_entries(v) =~= enc_attr_entries(v.take(i)) + enc_attr_entries(v.skip(i)));
    }
}

#[verifier::rlimit(100)]
pub fn d_attr_val(b: &[u8]) -> (r: Option<(AttrValue, usize)>)
    ensures
        r matches Some(p) ==> 1 <= p.1 <= b@.len() && b@.take(p.1 as int) == enc_attr_val(p.0@)
            && attr_val_ok(p.0@),
        forall|v: AttrValueV, rest: Seq<u8>|
            attr_val_ok(v) && b@ == enc_attr_val(v) + rest ==> (r matches Some(p) && p.0@ == v
                && p.1 as int == enc_attr_val(v).len()),
    decreases b@.len(),
{
    broadcast use crate::attr::lemma_attr_items_view, crate::attr::lemma_attr_entries_view;

    let blen = b.len();
    if blen < 1 {
        return None;
    }
    let tag = b[0];
    let tail = &b[1..blen];
    proof {
        assert(tail@ =~= b@.skip(1));
        assert forall|v: AttrValueV, rest: Seq<u8>|
            attr_val_ok(v) && b@ == enc_attr_val(v) + rest implies match v {
            AttrValueV::Num(x) => b@[0] == 0u8 && tail@ == enc_i64(x) + rest,
            AttrValueV::Str(x) => b@[0] == 1u8 && str_ok(x) && tail@ == enc_str(x) + rest,
            AttrValueV::Bool(x) => b@[0] == 2u8 && tail@ == enc_bool(x) + rest,
            AttrValueV::Arr(items) => b@[0] == 3u8 && list_ok(items) && attr_items_ok(items)
                && tail@ == enc_u64(items.len() as u64) + (enc_attr_items(items) + rest),
            AttrValueV::Dict(entries) => b@[0] == 4u8 && list_ok(entries) && attr_entries_ok(
                entries,
            ) && tail@ == enc_u64(entries.len() as u64) + (enc_attr_entries(entries) + rest),
        } by {
            match v {
                AttrValueV::Num(x) => {
                    assert(b@ =~= seq![0u8] + (enc_i64(x) + rest));
                    assert(tail@ =~= enc_i64(x) + rest);
                },
                AttrValueV::Str(x) => {
                    assert(b@ =~= seq![1u8] + (enc_str(x) + rest));
                    assert(tail@ =~= enc_str(x) + rest);
                },
                AttrValueV::Bool(x) => {
                    assert(b@ =~= seq![2u8] + (enc_bool(x) + rest));
                    assert(tail@ =~= enc_bool(x) + rest);
                },
                AttrValueV::Arr(items) => {
                    assert(b@ =~= seq![3u8] + (enc_u64(items.len() as u64) + (enc_attr_items(items)
                        + rest)));
                    assert(tail@ =~= enc_u64(items.len() as u64) + (enc_attr_items(items) + rest));
                },
                AttrValueV::Dict(entries) => {
                    assert(b@ =~= seq![4u8] + (enc_u64(entries.len() as u64) + (enc_attr_entries(
                        entries,
                    ) + rest)));
                    assert(tail@ =~= enc_u64(entries.len() as u64) + (enc_attr_entries(entries)
                        + rest));
                },
            }
        }
    }
    if tag == 0u8 {
        match d_i64(tail) {
            None => None,
            Some((x, n)) => {
                proof {
                    assert(b@.take(1 + n as int) =~= seq![0u8] + tail@.take(n as int));
                }
                Some((AttrValue::Num(x), 1 + n))
            },
        }
    } else if tag == 1u8 {
        match d_str(tail) {
            None => None,
            Some((x, n)) => {
                proof {
                    assert(b@.take(1 + n as int) =~= seq![1u8] + tail@.take(n as int));
                }
                Some((AttrValue::Str(x), 1 + n))
            },
        }
    } else if tag == 2u8 {
        match d_bool(tail) {
            None => None,
            Some((x, n)) => {
                proof {
                    assert(b@.take(1 + n as int) =~= seq![2u8] + tail@.take(n as int));
                }
                Some((AttrValue::Bool(x), 1 + n))
            },
        }
    } else if tag == 3u8 {
        let (cnt, _) = match d_u64(tail) {
            None => {
                return None;
            },
            Some(p) => p,
        };
        let mut out: Vec<AttrValue> = Vec::new();
        let mut pos: usize = 9;
        let mut i: u64 = 0;
        proof {
            assert(crate::attr::attr_items_view(out@) =~= Seq::<AttrValueV>::empty());
        }
        while i < cnt
            invariant
                blen == b@.len(),
                9 <= pos <= blen,
                i <= cnt,
                out@.len() == i,
                b@[0] == 3u8,
                b@.take(pos as int) == seq![3u8] + enc_u64(cnt) + enc_attr_items(
                    crate::attr::attr_items_view(out@),
                ),
                attr_items_ok(crate::attr::attr_items_view(out@)),
                forall|v: AttrValueV, rest: Seq<u8>|
                    attr_val_ok(v) && b@ == enc_attr_val(v) + rest ==> (v matches AttrValueV::Arr(
                        items,
                    ) && items.len() == cnt && crate::attr::attr_items_view(out@) == items.take(
                        i as int,
                    ) && pos as int == 9 + enc_attr_items(items.take(i as int)).len()),
            decreases cnt - i,
        {
            let tl = &b[pos..blen];
            proof {
                assert(tl@ == b@.skip(pos as int));
                assert forall|v: AttrValueV, rest: Seq<u8>|
                    attr_val_ok(v) && b@ == enc_attr_val(v) + rest implies v matches
                    AttrValueV::Arr(items) && attr_val_ok(items[i as int]) && tl@ == enc_attr_val(
                    items[i as int],
                ) + (enc_attr_items(items.skip(i as int + 1)) + rest) by {
                    match v {
                        AttrValueV::Arr(items) => {
                            lemma_enc_attr_items_split(items, i as int);
                            assert(items.skip(i as int)[0] == items[i as int]);
                            assert(items.skip(i as int).drop_first() =~= items.skip(i as int + 1));
                            assert(enc_attr_items(items.skip(i as int)) == enc_attr_val(
                                items[i as int],
                            ) + enc_attr_items(items.skip(i as int + 1)));
                            lemma_enc_attr_items_split(items, i as int + 1);
                            assert(attr_val_ok(items[i as int])) by {
                                assert(attr_items_ok(items.skip(i as int)));
                            }
                            assert(b@ =~= b@.take(pos as int) + b@.skip(pos as int));
                            assert(b@.skip(pos as int) =~= enc_attr_val(items[i as int]) + (
                            enc_attr_items(items.skip(i as int + 1)) + rest));
                        },
                        _ => {},
                    }
                }
            }
            match d_attr_val(tl) {
                None => {
                    return None;
                },
                Some((x, n)) => {
                    let ghost pre = out@;
                    let ghost xv = x@;
                    out.push(x);
                    proof {
                        crate::attr::lemma_attr_items_view(pre);
                        crate::attr::lemma_attr_items_view(out@);
                        assert(out@ == pre.push(out@[i as int]));
                        let prev = crate::attr::attr_items_view(pre);
                        assert(crate::attr::attr_items_view(out@) =~= prev.push(xv));
                        lemma_enc_attr_items_snoc(prev, xv);
                        assert(b@.take(pos as int + n as int) =~= b@.take(pos as int) + tl@.take(
                            n as int,
                        ));
                        assert forall|v: AttrValueV, rest: Seq<u8>|
                            attr_val_ok(v) && b@ == enc_attr_val(v) + rest implies v matches
                            AttrValueV::Arr(items) && crate::attr::attr_items_view(out@)
                            == items.take(i as int + 1) && pos as int + n as int == 9
                            + enc_attr_items(items.take(i as int + 1)).len() by {
                            match v {
                                AttrValueV::Arr(items) => {
                                    assert(x@ == items[i as int]);
                                    assert(items.take(i as int + 1) =~= items.take(
                                        i as int,
                                    ).push(items[i as int]));
                                    lemma_enc_attr_items_snoc(items.take(i as int), items[i as int]);
                                    assert(crate::attr::attr_items_view(out@) =~= items.take(
                                        i as int + 1,
                                    ));
                                },
                                _ => {},
                            }
                        }
                    }
                    pos = pos + n;
                    i = i + 1;
                },
            }
        }
        let rv = AttrValue::Arr(out);
        proof {
            assert(rv@ matches AttrValueV::Arr(items) && items == crate::attr::attr_items_view(
                out@,
            ));
            assert(b@.take(pos as int) =~= enc_attr_val(rv@));
            assert forall|v: AttrValueV, rest: Seq<u8>|
                attr_val_ok(v) && b@ == enc_attr_val(v) + rest implies rv@ == v && pos as int
                == enc_attr_val(v).len() by {
                match v {
                    AttrValueV::Arr(items) => {
                        assert(items.take(i as int) =~= items);
                        assert(rv@ =~= v);
                    },
                    _ => {},
                }
            }
        }
        Some((rv, pos))
    } else if tag == 4u8 {
        let (cnt, _) = match d_u64(tail) {
            None => {
                return None;
            },
            Some(p) => p,
        };
        let mut out: Vec<(String, AttrValue)> = Vec::new();
        let mut pos: usize = 9;
        let mut i: u64 = 0;
        proof {
            assert(crate::attr::attr_entries_view(out@) =~= Seq::<(Seq<char>, AttrValueV)>::empty());
        }
        while i < cnt
            invariant
                blen == b@.len(),
                9 <= pos <= blen,
                i <= cnt,
                out@.len() == i,
                b@[0] == 4u8,
                b@.take(pos as int) == seq![4u8] + enc_u64(cnt) + enc_attr_entries(
                    crate::attr::attr_entries_view(out@),
                ),
                attr_entries_ok(crate::attr::attr_entries_view(out@)),
                forall|v: AttrValueV, rest: Seq<u8>|
                    attr_val_ok(v) && b@ == enc_attr_val(v) + rest ==> (v matches AttrValueV::Dict(
                        entries,
                    ) && entries.len() == cnt && crate::attr::attr_entries_view(out@)
                        == entries.take(i as int) && pos as int == 9 + enc_attr_entries(
                        entries.take(i as int),
                    ).len()),
            decreases cnt - i,
        {
            let tl = &b[pos..blen];
            proof {
                assert(tl@ == b@.skip(pos as int));
                assert forall|v: AttrValueV, rest: Seq<u8>|
                    attr_val_ok(v) && b@ == enc_attr_val(v) + rest implies v matches
                    AttrValueV::Dict(entries) && str_ok(entries[i as int].0) && attr_val_ok(
                    entries[i as int].1,
                ) && tl@ == enc_str(entries[i as int].0) + (enc_attr_val(entries[i as int].1) + (
                enc_attr_entries(entries.skip(i as int + 1)) + rest)) by {
                    match v {
                        AttrValueV::Dict(entries) => {
                            lemma_enc_attr_entries_split(entries, i as int);
                            assert(entries.skip(i as int)[0] == entries[i as int]);
                            assert(entries.skip(i as int).drop_first() =~= entries.skip(
                                i as int + 1,
                            ));
                            assert(enc_attr_entries(entries.skip(i as int)) == enc_str(
                                entries[i as int].0,
                            ) + enc_attr_val(entries[i as int].1) + enc_attr_entries(
                                entries.skip(i as int + 1),
                            ));
                            assert(str_ok(entries[i as int].0) && attr_val_ok(
                                entries[i as int].1,
                            )) by {
                                assert(attr_entries_ok(entries.skip(i as int)));
                            }
                            assert(b@ =~= b@.take(pos as int) + b@.skip(pos as int));
                            assert(b@.skip(pos as int) =~= enc_str(entries[i as int].0) + (
                            enc_attr_val(entries[i as int].1) + (enc_attr_entries(
                                entries.skip(i as int + 1),
                            ) + rest)));
                        },
                        _ => {},
                    }
                }
            }
            let (key, nk) = match d_str(tl) {
                None => {
                    return None;
                },
                Some(p) => p,
            };
            let tl2 = &b[pos + nk..blen];
            proof {
                assert(tl2@ == b@.skip(pos as int + nk as int));
                assert(tl2@ =~= tl@.skip(nk as int));
                assert(b@.take(pos as int + nk as int) =~= b@.take(pos as int) + tl@.take(
                    nk as int,
                ));
                assert forall|v: AttrValueV, rest: Seq<u8>|
                    attr_val_ok(v) && b@ == enc_attr_val(v) + rest implies v matches
                    AttrValueV::Dict(entries) && key@ == entries[i as int].0 && nk as int == enc_str(
                    entries[i as int].0,
                ).len() && tl2@ == enc_attr_val(entries[i as int].1) + (enc_attr_entries(
                    entries.skip(i as int + 1),
                ) + rest) by {
                    match v {
                        AttrValueV::Dict(entries) => {
                            assert(tl@.skip(nk as int) =~= enc_attr_val(entries[i as int].1) + (
                            enc_attr_entries(entries.skip(i as int + 1)) + rest));
                        },
                        _ => {},
                    }
                }
            }
            match d_attr_val(tl2) {
                None => {
                    return None;
                },
                Some((x, n)) => {
                    let ghost pre = out@;
                    let ghost kv = key@;
                    let ghost xv = x@;
                    out.push((key, x));
                    proof {
                        crate::attr::lemma_attr_entries_view(pre);
                        crate::attr::lemma_attr_entries_view(out@);
                        assert(out@ == pre.push(out@[i as int]));
                        let prev = crate::attr::attr_entries_view(pre);
                        assert(crate::attr::attr_entries_view(out@) =~= prev.push((kv, xv)));
                        lemma_enc_attr_entries_snoc(prev, kv, xv);
                        assert(b@.take(pos as int + nk as int + n as int) =~= b@.take(
                            pos as int + nk as int,
                        ) + tl2@.take(n as int));
                        assert forall|v: AttrValueV, rest: Seq<u8>|
                            attr_val_ok(v) && b@ == enc_attr_val(v) + rest implies v matches
                            AttrValueV::Dict(entries) && crate::attr::attr_entries_view(out@)
                            == entries.take(i as int + 1) && pos as int + nk as int + n as int == 9
                            + enc_attr_entries(entries.take(i as int + 1)).len() by {
                            match v {
                                AttrValueV::Dict(entries) => {
                                    assert(x@ == entries[i as int].1);
                                    assert(entries.take(i as int + 1) =~= entries.take(
                                        i as int,
                                    ).push((entries[i as int].0, entries[i as int].1)));
                                    lemma_enc_attr_entries_snoc(
                                        entries.take(i as int),
                                        entries[i as int].0,
                                        entries[i as int].1,
                                    );
                                    assert(crate::attr::attr_entries_view(out@) =~= entries.take(
                                        i as int + 1,
                                    ));
                                },
                                _ => {},
                            }
                        }
                    }
                    pos = pos + nk + n;
                    i = i + 1;
                },
            }
        }
        let rv = AttrValue::Dict(out);
        proof {
            assert(rv@ matches AttrValueV::Dict(entries) && entries
                == crate::attr::attr_entries_view(out@));
            assert(b@.take(pos as int) =~= enc_attr_val(rv@));
            assert forall|v: AttrValueV, rest: Seq<u8>|
                attr_val_ok(v) && b@ == enc_attr_val(v) + rest implies rv@ == v && pos as int
                == enc_attr_val(v).len() by {
                match v {
                    AttrValueV::Dict(entries) => {
                        assert(entries.take(i as int) =~= entries);
                        assert(rv@ =~= v);
                    },
                    _ => {},
                }
            }
        }
        Some((rv, pos))
    } else {
        None
    }
}

// ------------------------------------------------------------------
// Diffs
// ------------------------------------------------------------------

pub fn w_diff_str(out: &mut Vec<u8>, d: &Diff<String>)
    ensures
        final(out)@ == old(out)@ + enc_diff_str(diff_str_view(d)),
        diff_str_ok(diff_str_view(d)),
{
    match d {
        Diff::New(n) => {
            out.push(0u8);
            w_str(out, n.as_str());
        },
        Diff::Del(o) => {
            out.push(1u8);
            w_str(out, o.as_str());
        },
        Diff::Diff(o, n) => {
            out.push(2u8);
            w_str(out, o.as_str());
            w_str(out, n.as_str());
        },
    }
    proof {
        assert(final(out)@ =~= old(out)@ + enc_diff_str(diff_str_view(d)));
    }
}

/// The shape of a description diff.
pub open spec fn diff_str_view(d: &Diff<String>) -> DiffV<Seq<char>> {
    match d {
        Diff::New(n) => DiffV::New(n@),
        Diff::Del(o) => DiffV::Del(o@),
        Diff::Diff(o, n) => DiffV::Diff(o@, n@),
    }
}

/// The shape of an attribute diff.
pub open spec fn diff_attr_view(d: &Diff<AttrValue>) -> DiffV<AttrValueV> {
    match d {
        Diff::New(n) => DiffV::New(attr_val_view(*n)),
        Diff::Del(o) => DiffV::Del(attr_val_view(*o)),
        Diff::Diff(o, n) => DiffV::Diff(attr_val_view(*o), attr_val_view(*n)),
    }
}

pub fn w_diff_attr(out: &mut Vec<u8>, d: &Diff<AttrValue>)
    ensures
        final(out)@ == old(out)@ + enc_diff_attr(diff_attr_view(d)),
        diff_attr_ok(diff_attr_view(d)),
{
    match d {
        Diff::New(n) => {
            out.push(0u8);
            w_attr_val(out, n);
        },
        Diff::Del(o) => {
            out.push(1u8);
            w_attr_val(out, o);
        },
        Diff::Diff(o, n) => {
            out.push(2u8);
            w_attr_val(out, o);
            w_attr_val(out, n);
        },
    }
    proof {
        assert(final(out)@ =~= old(out)@ + enc_diff_attr(diff_attr_view(d)));
    }
}

pub fn d_diff_str(b: &[u8]) -> (r: Option<(Diff<String>, usize)>)
    ensures
        r matches Some(p) ==> p.1 <= b@.len() && b@.take(p.1 as int) == enc_diff_str(
            diff_str_view(&p.0),
        ) && diff_str_ok(diff_str_view(&p.0)),
        forall|v: DiffV<Seq<char>>, rest: Seq<u8>|
            diff_str_ok(v) && b@ == enc_diff_str(v) + rest ==> (r matches Some(p) && diff_str_view(
                &p.0,
            ) == v && p.1 as int == enc_diff_str(v).len()),
{
    let blen = b.len();
    if blen < 1 {
        return None;
    }
    let tag = b[0];
    let tail = &b[1..blen];
    proof {
        assert(tail@ =~= b@.skip(1));
        assert forall|v: DiffV<Seq<char>>, rest: Seq<u8>|
            diff_str_ok(v) && b@ == enc_diff_str(v) + rest implies match v {
            DiffV::New(n) => b@[0] == 0u8 && str_ok(n) && tail@ == enc_str(n) + rest,
            DiffV::Del(o) => b@[0] == 1u8 && str_ok(o) && tail@ == enc_str(o) + rest,
            DiffV::Diff(o, n) => b@[0] == 2u8 && str_ok(o) && str_ok(n) && tail@ == enc_str(o) + (
            enc_str(n) + rest),
        } by {
            match v {
                DiffV::New(n) => {
                    assert(b@ =~= seq![0u8] + (enc_str(n) + rest));
                    assert(tail@ =~= enc_str(n) + rest);
                },
                DiffV::Del(o) => {
                    assert(b@ =~= seq![1u8] + (enc_str(o) + rest));
                    assert(tail@ =~= enc_str(o) + rest);
                },
                DiffV::Diff(o, n) => {
                    assert(b@ =~= seq![2u8] + (enc_str(o) + (enc_str(n) + rest)));
                    assert(tail@ =~= enc_str(o) + (enc_str(n) + rest));
                },
            }
        }
    }
    if tag == 0u8 {
        match d_str(tail) {
            None => None,
            Some((n, m)) => {
                proof {
                    assert(b@.take(1 + m as int) =~= seq![0u8] + tail@.take(m as int));
                }
                Some((Diff::New(n), 1 + m))
            },
        }
    } else if tag == 1u8 {
        match d_str(tail) {
            None => None,
            Some((o, m)) => {
                proof {
                    assert(b@.take(1 + m as int) =~= seq![1u8] + tail@.take(m as int));
                }
                Some((Diff::Del(o), 1 + m))
            },
        }
    } else if tag == 2u8 {
        let (o, m1) = match d_str(tail) {
            None => {
                return None;
            },
            Some(p) => p,
        };
        let tail2 = &b[1 + m1..blen];
        proof {
            assert(tail2@ == b@.skip(1 + m1 as int));
            assert(tail2@ =~= tail@.skip(m1 as int));
            assert forall|v: DiffV<Seq<char>>, rest: Seq<u8>|
                diff_str_ok(v) && b@ == enc_diff_str(v) + rest implies (v matches DiffV::Diff(
                vo,
                vn,
            ) && o@ == vo && m1 as int == enc_str(vo).len() && tail2@ == enc_str(vn) + rest) by {
                match v {
                    DiffV::Diff(vo, vn) => {
                        assert(tail@.skip(m1 as int) =~= enc_str(vn) + rest);
                    },
                    _ => {},
                }
            }
        }
        match d_str(tail2) {
            None => None,
            Some((n, m2)) => {
                proof {
                    assert(b@.take(1 + m1 as int + m2 as int) =~= seq![2u8] + tail@.take(m1 as int)
                        + tail2@.take(m2 as int));
                }
                Some((Diff::Diff(o, n), 1 + m1 + m2))
            },
        }
    } else {
        None
    }
}

pub fn d_diff_attr(b: &[u8]) -> (r: Option<(Diff<AttrValue>, usize)>)
    ensures
        r matches Some(p) ==> p.1 <= b@.len() && b@.take(p.1 as int) == enc_diff_attr(
            diff_attr_view(&p.0),
        ) && diff_attr_ok(diff_attr_view(&p.0)),
        forall|v: DiffV<AttrValueV>, rest: Seq<u8>|
            diff_attr_ok(v) && b@ == enc_diff_attr(v) + rest ==> (r matches Some(p)
                && diff_attr_view(&p.0) == v && p.1 as int == enc_diff_attr(v).len()),
{
    let blen = b.len();
    if blen < 1 {
        return None;
    }
    let tag = b[0];
    let tail = &b[1..blen];
    proof {
        assert(tail@ =~= b@.skip(1));
        assert forall|v: DiffV<AttrValueV>, rest: Seq<u8>|
            diff_attr_ok(v) && b@ == enc_diff_attr(v) + rest implies match v {
            DiffV::New(n) => b@[0] == 0u8 && attr_val_ok(n) && tail@ == enc_attr_val(n) + rest,
            DiffV::Del(o) => b@[0] == 1u8 && attr_val_ok(o) && tail@ == enc_attr_val(o) + rest,
            DiffV::Diff(o, n) => b@[0] == 2u8 && attr_val_ok(o) && attr_val_ok(n) && tail@
                == enc_attr_val(o) + (enc_attr_val(n) + rest),
        } by {
            match v {
                DiffV::New(n) => {
                    assert(b@ =~= seq![0u8] + (enc_attr_val(n) + rest));
                    assert(tail@ =~= enc_attr_val(n) + rest);
                },
                DiffV::Del(o) => {
                    assert(b@ =~= seq![1u8] + (enc_attr_val(o) + rest));
                    assert(tail@ =~= enc_attr_val(o) + rest);
                },
                DiffV::Diff(o, n) => {
                    assert(b@ =~= seq![2u8] + (enc_attr_val(o) + (enc_attr_val(n) + rest)));
                    assert(tail@ =~= enc_attr_val(o) + (enc_attr_val(n) + rest));
                },
            }
        }
    }
    if tag == 0u8 {
        match d_attr_val(tail) {
            None => None,
            Some((n, m)) => {
                proof {
                    assert(b@.take(1 + m as int) =~= seq![0u8] + tail@.take(m as int));
                }
                Some((Diff::New(n), 1 + m))
            },
        }
    } else if tag == 1u8 {
        match d_attr_val(tail) {
            None => None,
            Some((o, m)) => {
                proof {
                    assert(b@.take(1 + m as int) =~= seq![1u8] + tail@.take(m as int));
                }
                Some((Diff::Del(o), 1 + m))
            },
        }
    } else if tag == 2u8 {
        let (o, m1) = match d_attr_val(tail) {
            None => {
                return None;
            },
            Some(p) => p,
        };
        let tail2 = &b[1 + m1..blen];
        proof {
            assert(tail2@ == b@.skip(1 + m1 as int));
            assert(tail2@ =~= tail@.skip(m1 as int));
            assert forall|v: DiffV<AttrValueV>, rest: Seq<u8>|
                diff_attr_ok(v) && b@ == enc_diff_attr(v) + rest implies (v matches DiffV::Diff(
                vo,
                vn,
            ) && attr_val_view(o) == vo && m1 as int == enc_attr_val(vo).len() && tail2@
                == enc_attr_val(vn) + rest) by {
                match v {
                    DiffV::Diff(vo, vn) => {
                        assert(tail@.skip(m1 as int) =~= enc_attr_val(vn) + rest);
                    },
                    _ => {},
                }
            }
        }
        match d_attr_val(tail2) {
            None => None,
            Some((n, m2)) => {
                proof {
                    assert(b@.take(1 + m1 as int + m2 as int) =~= seq![2u8] + tail@.take(m1 as int)
                        + tail2@.take(m2 as int));
                }
                Some((Diff::Diff(o, n), 1 + m1 + m2))
            },
        }
    } else {
        None
    }
}

// ------------------------------------------------------------------
// Attribute maps
// ------------------------------------------------------------------

pub fn d_attrs(b: &[u8]) -> (r: Option<(Attrs, usize)>)
    ensures
        r matches Some(p) ==> p.1 <= b@.len() && b@.take(p.1 as int) == enc_attrs(p.0@)
            && attrs_enc_ok(p.0@),
        forall|v: AttrsV, rest: Seq<u8>|
            attrs_enc_ok(v) && b@ == enc_attrs(v) + rest ==> (r matches Some(p) && p.0@ == v
                && p.1 as int == enc_attrs(v).len()),
{
    let blen = b.len();
    proof {
        assert forall|v: AttrsV, rest: Seq<u8>|
            attrs_enc_ok(v) && b@ == enc_attrs(v) + rest implies b@ == enc_u64(v.len() as u64) + (
        enc_attr_entries(v) + rest) by {
            assert(b@ =~= enc_u64(v.len() as u64) + (enc_attr_entries(v) + rest));
        }
    }
    let (cnt, _) = match d_u64(b) {
        None => {
            return None;
        },
        Some(p) => p,
    };
    let mut out: Vec<(String, AttrValue)> = Vec::new();
    let mut pos: usize = 8;
    let mut i: u64 = 0;
    proof {
        assert(crate::attr::attr_entries_view(out@) =~= Seq::<(Seq<char>, AttrValueV)>::empty());
    }
    while i < cnt
        invariant
            blen == b@.len(),
            8 <= pos <= blen,
            i <= cnt,
            out@.len() == i,
            b@.take(pos as int) == enc_u64(cnt) + enc_attr_entries(
                crate::attr::attr_entries_view(out@),
            ),
            attr_entries_ok(crate::attr::attr_entries_view(out@)),
            forall|v: AttrsV, rest: Seq<u8>|
                attrs_enc_ok(v) && b@ == enc_attrs(v) + rest ==> v.len() == cnt
                    && crate::attr::attr_entries_view(out@) == v.take(i as int) && pos as int == 8
                    + enc_attr_entries(v.take(i as int)).len(),
        decreases cnt - i,
    {
        let tl = &b[pos..blen];
        proof {
            assert(tl@ == b@.skip(pos as int));
            assert forall|v: AttrsV, rest: Seq<u8>|
                attrs_enc_ok(v) && b@ == enc_attrs(v) + rest implies str_ok(v[i as int].0)
                && attr_val_ok(v[i as int].1) && tl@ == enc_str(v[i as int].0) + (enc_attr_val(
                v[i as int].1,
            ) + (enc_attr_entries(v.skip(i as int + 1)) + rest)) by {
                lemma_enc_attr_entries_split(v, i as int);
                assert(v.skip(i as int)[0] == v[i as int]);
                assert(v.skip(i as int).drop_first() =~= v.skip(i as int + 1));
                assert(enc_attr_entries(v.skip(i as int)) == enc_str(v[i as int].0) + enc_attr_val(
                    v[i as int].1,
                ) + enc_attr_entries(v.skip(i as int + 1)));
                assert(str_ok(v[i as int].0) && attr_val_ok(v[i as int].1)) by {
                    assert(attr_entries_ok(v.skip(i as int)));
                }
                assert(b@ =~= b@.take(pos as int) + b@.skip(pos as int));
                assert(b@.skip(pos as int) =~= enc_str(v[i as int].0) + (enc_attr_val(
                    v[i as int].1,
                ) + (enc_attr_entries(v.skip(i as int + 1)) + rest)));
            }
        }
        let (key, nk) = match d_str(tl) {
            None => {
                return None;
            },
            Some(p) => p,
        };
        let tl2 = &b[pos + nk..blen];
        proof {
            assert(tl2@ == b@.skip(pos as int + nk as int));
            assert(tl2@ =~= tl@.skip(nk as int));
            assert(b@.take(pos as int + nk as int) =~= b@.take(pos as int) + tl@.take(nk as int));
            assert forall|v: AttrsV, rest: Seq<u8>|
                attrs_enc_ok(v) && b@ == enc_attrs(v) + rest implies key@ == v[i as int].0
                && nk as int == enc_str(v[i as int].0).len() && tl2@ == enc_attr_val(v[i as int].1)
                + (enc_attr_entries(v.skip(i as int + 1)) + rest) by {
                assert(tl@.skip(nk as int) =~= enc_attr_val(v[i as int].1) + (enc_attr_entries(
                    v.skip(i as int + 1),
                ) + rest));
            }
        }
        match d_attr_val(tl2) {
            None => {
                return None;
            },
            Some((x, n)) => {
                let ghost pre = out@;
                let ghost kv = key@;
                let ghost xv = x@;
                out.push((key, x));
                proof {
                    crate::attr::lemma_attr_entries_view(pre);
                    crate::attr::lemma_attr_entries_view(out@);
                    assert(out@ == pre.push(out@[i as int]));
                    let prev = crate::attr::attr_entries_view(pre);
                    assert(crate::attr::attr_entries_view(out@) =~= prev.push((kv, xv)));
                    lemma_enc_attr_entries_snoc(prev, kv, xv);
                    assert(b@.take(pos as int + nk as int + n as int) =~= b@.take(
                        pos as int + nk as int,
                    ) + tl2@.take(n as int));
                    assert forall|v: AttrsV, rest: Seq<u8>|
                        attrs_enc_ok(v) && b@ == enc_attrs(v) + rest implies
                        crate::attr::attr_entries_view(out@) == v.take(i as int + 1) && pos as int
                        + nk as int + n as int == 8 + enc_attr_entries(v.take(i as int + 1)).len() by {
                        assert(xv == v[i as int].1);
                        assert(v.take(i as int + 1) =~= v.take(i as int).push(
                            (v[i as int].0, v[i as int].1),
                        ));
                        lemma_enc_attr_entries_snoc(v.take(i as int), v[i as int].0, v[i as int].1);
                        assert(crate::attr::attr_entries_view(out@) =~= v.take(i as int + 1));
                    }
                }
                pos = pos + nk + n;
                i = i + 1;
            },
        }
    }
    let rv = Attrs { entries: out };
    proof {
        crate::attr::lemma_attr_entries_view(out@);
        assert(rv@ =~= crate::attr::attr_entries_view(out@));
        assert(b@.take(pos as int) =~= enc_attrs(rv@));
        assert forall|v: AttrsV, rest: Seq<u8>|
            attrs_enc_ok(v) && b@ == enc_attrs(v) + rest implies rv@ == v && pos as int == enc_attrs(
            v,
        ).len() by {
            assert(v.take(i as int) =~= v);
        }
    }
    Some((rv, pos))
}

pub fn d_opt_attrs(b: &[u8]) -> (r: Option<(Option<Attrs>, usize)>)
    ensures
        r matches Some(p) ==> p.1 <= b@.len() && b@.take(p.1 as int) == enc_opt_attrs(
            match &p.0 {
                Some(a) => Some(a@),
                None => None,
            },
        ) && opt_attrs_ok(
            match &p.0 {
                Some(a) => Some(a@),
                None => None,
            },
        ),
        forall|v: Option<AttrsV>, rest: Seq<u8>|
            opt_attrs_ok(v) && b@ == enc_opt_attrs(v) + rest ==> (r matches Some(p) && (match &p.0 {
                Some(a) => Some(a@),
                None => None,
            }) == v && p.1 as int == enc_opt_attrs(v).len()),
{
    if b.len() < 1 {
        return None;
    }
    let tag = b[0];
    if tag == 0u8 {
        proof {
            assert(b@.take(1) =~= enc_opt_attrs(None));
            assert forall|v: Option<AttrsV>, rest: Seq<u8>|
                opt_attrs_ok(v) && b@ == enc_opt_attrs(v) + rest implies v is None by {
                match v {
                    Some(x) => {
                        assert(b@[0] == 1u8);
                    },
                    None => {},
                }
            }
        }
        Some((None, 1))
    } else if tag == 1u8 {
        let tail = &b[1..b.len()];
        proof {
            assert(tail@ =~= b@.skip(1));
            assert forall|v: Option<AttrsV>, rest: Seq<u8>|
                opt_attrs_ok(v) && b@ == enc_opt_attrs(v) + rest implies (v matches Some(x)
                    && attrs_enc_ok(x) && tail@ == enc_attrs(x) + rest) by {
                match v {
                    Some(x) => {
                        assert(b@ =~= seq![1u8] + (enc_attrs(x) + rest));
                        assert(tail@ =~= enc_attrs(x) + rest);
                    },
                    None => {
                        assert(b@[0] == 0u8);
                    },
                }
            }
        }
        match d_attrs(tail) {
            None => None,
            Some((a, n)) => {
                proof {
                    assert(b@.take(1 + n as int) =~= seq![1u8] + tail@.take(n as int));
                }
                Some((Some(a), 1 + n))
            },
        }
    } else {
        proof {
            assert forall|v: Option<AttrsV>, rest: Seq<u8>|
                opt_attrs_ok(v) && b@ == enc_opt_attrs(v) + rest implies false by {
                match v {
                    Some(x) => {
                        assert(b@[0] == 1u8);
                    },
                    None => {
                        assert(b@[0] == 0u8);
                    },
                }
            }
        }
        None
    }
}

// ------------------------------------------------------------------
// Payload bodies
// ------------------------------------------------------------------

pub fn w_obj_payload_body(out: &mut Vec<u8>, p: &ObjPayload)
    ensures
        final(out)@ == old(out)@ + enc_obj_payload_body(p@),
        obj_payload_ok(p@),
{
    match p {
        ObjPayload::State(x) => {
            w_opt_dt(out, &x.last_notified);
        },
        ObjPayload::Event(x) => {
            w_optrep(out, &x.start);
            w_i64(out, x.duration.secs);
        },
        ObjPayload::Task(x) => {
            w_optrep(out, &x.deadline);
            w_u32(out, x.priority);
            w_flavor(out, &x.flavor);
            w_usize(out, x.gen_ahead);
            w_usize(out, x.cache_size);
            w_durs(out, &x.notifications);
            w_ids(out, &x.cache);
        },
        ObjPayload::SubTask(x) => {
            w_u32(out, x.task_id.0);
            w_i64(out, x.deadline.secs);
            w_durs(out, &x.notifications);
            w_opt_dt(out, &x.finished);
        },
    }
    proof {
        assert(final(out)@ =~= old(out)@ + enc_obj_payload_body(p@));
    }
}

pub fn w_log_payload_body(out: &mut Vec<u8>, p: &LogPayload)
    ensures
        final(out)@ == old(out)@ + enc_log_payload_body(p@),
        log_payload_ok(p@),
{
    match p {
        LogPayload::CreateObj(x) => {
            w_u32(out, x.id.0);
            w_str(out, x.typ.as_str());
        },
        LogPayload::ObjSetDesc(x) => {
            w_u32(out, x.id.0);
            w_diff_str(out, &x.diff);
        },
        LogPayload::ObjSetAttr(x) => {
            w_u32(out, x.id.0);
            w_str(out, x.attr.as_str());
            w_diff_attr(out, &x.diff);
        },
        LogPayload::TaskFinish(x) => {
            w_u32(out, x.id.0);
        },
    }
    proof {
        assert(final(out)@ =~= old(out)@ + enc_log_payload_body(p@));
    }
}

/// Encode a full object record, the type tag first.
pub fn encode_obj_record(rec: &ObjRecord) -> (r: Vec<u8>)
    ensures
        r@ == enc_obj_record(rec@),
        obj_record_ok(rec@),
{
    let mut out: Vec<u8> = Vec::new();
    let tag = rec.payload.tag_string();
    w_str(&mut out, tag.as_str());
    w_str(&mut out, rec.name.as_str());
    w_opt_string(&mut out, &rec.desc);
    w_opt_attrs(&mut out, &rec.attrs);
    w_obj_payload_body(&mut out, &rec.payload);
    proof {
        assert(out@ =~= enc_obj_record(rec@));
    }
    out
}

/// Encode a full log record, the type tag first.
pub fn encode_log_record(rec: &LogRecord) -> (r: Vec<u8>)
    ensures
        r@ == enc_log_record(rec@),
        log_record_ok(rec@),
{
    let mut out: Vec<u8> = Vec::new();
    let tag = rec.payload.tag_string();
    w_str(&mut out, tag.as_str());
    w_i64(&mut out, rec.time.secs);
    w_opt_attrs(&mut out, &rec.attrs);
    w_log_payload_body(&mut out, &rec.payload);
    proof {
        assert(out@ =~= enc_log_record(rec@));
    }
    out
}

fn d_state_body(b: &[u8]) -> (r: Option<(State, usize)>)
    ensures
        r matches Some(p) ==> p.1 <= b@.len() && b@.take(p.1 as int) == enc_obj_payload_body(
            ObjPayloadV::State(p.0@),
        ),
        forall|v: StateV, rest: Seq<u8>|
            b@ == enc_obj_payload_body(ObjPayloadV::State(v)) + rest ==> (r matches Some(p) && p.0@
                == v && p.1 as int == enc_obj_payload_body(ObjPayloadV::State(v)).len()),
{
    match d_opt_dt(b) {
        None => None,
        Some((last_notified, n)) => {
            let st = State { last_notified };
            proof {
                assert forall|v: StateV, rest: Seq<u8>|
                    b@ == enc_obj_payload_body(ObjPayloadV::State(v)) + rest implies st@ =~= v by {}
            }
            Some((st, n))
        },
    }
}

fn d_event_body(b: &[u8]) -> (r: Option<(Event, usize)>)
    ensures
        r matches Some(p) ==> p.1 <= b@.len() && b@.take(p.1 as int) == enc_obj_payload_body(
            ObjPayloadV::Event(p.0@),
        ) && obj_payload_ok(ObjPayloadV::Event(p.0@)),
        forall|v: EventV, rest: Seq<u8>|
            obj_payload_ok(ObjPayloadV::Event(v)) && b@ == enc_obj_payload_body(
                ObjPayloadV::Event(v),
            ) + rest ==> (r matches Some(p) && p.0@ == v && p.1 as int == enc_obj_payload_body(
                ObjPayloadV::Event(v),
            ).len()),
{
    let blen = b.len();
    proof {
        assert forall|v: EventV, rest: Seq<u8>|
            obj_payload_ok(ObjPayloadV::Event(v)) && b@ == enc_obj_payload_body(
                ObjPayloadV::Event(v),
            ) + rest implies optrep_ok(v.start) && b@ == enc_optrep(v.start) + (enc_i64(v.duration)
            + rest) by {
            assert(b@ =~= enc_optrep(v.start) + (enc_i64(v.duration) + rest));
        }
    }
    let (start, n1) = match d_optrep(b) {
        None => {
            return None;
        },
        Some(p) => p,
    };
    let t2 = &b[n1..blen];
    proof {
        assert(t2@ == b@.skip(n1 as int));
        assert forall|v: EventV, rest: Seq<u8>|
            obj_payload_ok(ObjPayloadV::Event(v)) && b@ == enc_obj_payload_body(
                ObjPayloadV::Event(v),
            ) + rest implies start@ == v.start && n1 as int == enc_optrep(v.start).len() && t2@
            == enc_i64(v.duration) + rest by {
            assert(b@.skip(n1 as int) =~= enc_i64(v.duration) + rest);
        }
    }
    match d_i64(t2) {
        None => None,
        Some((dur, n2)) => {
            let ev = Event { start, duration: Duration { secs: dur } };
            proof {
                assert(b@.take(n1 as int + n2 as int) =~= b@.take(n1 as int) + t2@.take(n2 as int));
                assert(b@.take(n1 as int + n2 as int) =~= enc_obj_payload_body(
                    ObjPayloadV::Event(ev@),
                ));
                assert forall|v: EventV, rest: Seq<u8>|
                    obj_payload_ok(ObjPayloadV::Event(v)) && b@ == enc_obj_payload_body(
                        ObjPayloadV::Event(v),
                    ) + rest implies ev@ =~= v by {}
            }
            Some((ev, n1 + n2))
        },
    }
}

#[verifier::rlimit(100)]
fn d_task_head(b: &[u8]) -> (r: Option<((OptRepeated, u32, TaskFlavor, usize, usize), usize)>)
    ensures
        r matches Some(p) ==> p.1 <= b@.len() && b@.take(p.1 as int) == enc_task_head(
            p.0.0@,
            p.0.1,
            p.0.2,
            p.0.3,
            p.0.4,
        ) && optrep_ok(p.0.0@),
        forall|dl: OptRepeatedV, pr: u32, fl: TaskFlavor, ga: usize, cs: usize, rest: Seq<u8>|
            optrep_ok(dl) && b@ == enc_task_head(dl, pr, fl, ga, cs) + rest ==> (r matches Some(p)
                && p.0.0@ == dl && p.0.1 == pr && p.0.2 == fl && p.0.3 == ga && p.0.4 == cs
                && p.1 as int == enc_task_head(dl, pr, fl, ga, cs).len()),
{
    let blen = b.len();
    proof {
        assert forall|dl: OptRepeatedV, pr: u32, fl: TaskFlavor, ga: usize, cs: usize, rest: Seq<
            u8,
        >|
            optrep_ok(dl) && b@ == enc_task_head(dl, pr, fl, ga, cs) + rest implies b@ == enc_optrep(
            dl,
        ) + (enc_u32(pr) + (enc_flavor(fl) + (enc_usize(ga) + (enc_usize(cs) + rest)))) by {
            assert(b@ =~= enc_optrep(dl) + (enc_u32(pr) + (enc_flavor(fl) + (enc_usize(ga) + (
            enc_usize(cs) + rest)))));
        }
    }
    let (deadline, n1) = match d_optrep(b) {
        None => {
            return None;
        },
        Some(p) => p,
    };
    let t2 = &b[n1..blen];
    proof {
        assert(t2@ == b@.skip(n1 as int));
        assert forall|dl: OptRepeatedV, pr: u32, fl: TaskFlavor, ga: usize, cs: usize, rest: Seq<
            u8,
        >|
            optrep_ok(dl) && b@ == enc_task_head(dl, pr, fl, ga, cs) + rest implies deadline@ == dl
            && t2@ == enc_u32(pr) + (enc_flavor(fl) + (enc_usize(ga) + (enc_usize(cs)
            + rest))) by {
            assert(b@ =~= enc_optrep(dl) + (enc_u32(pr) + (enc_flavor(fl) + (enc_usize(ga) + (
            enc_usize(cs) + rest)))));
            assert(b@.skip(n1 as int) =~= enc_u32(pr) + (enc_flavor(fl) + (enc_usize(ga) + (
            enc_usize(cs) + rest))));
        }
    }
    let (priority, n2) = match d_u32(t2) {
        None => {
            return None;
        },
        Some(p) => p,
    };
    let t3 = &b[n1 + n2..blen];
    proof {
        assert(t3@ == b@.skip(n1 as int + n2));
        assert(b@.take(n1 as int + n2) =~= b@.take(n1 as int) + t2@.take(n2 as int));
        assert forall|dl: OptRepeatedV, pr: u32, fl: TaskFlavor, ga: usize, cs: usize, rest: Seq<
            u8,
        >|
            optrep_ok(dl) && b@ == enc_task_head(dl, pr, fl, ga, cs) + rest implies priority == pr
            && t3@ == enc_flavor(fl) + (enc_usize(ga) + (enc_usize(cs) + rest)) by {
            assert(t2@.skip(n2 as int) =~= enc_flavor(fl) + (enc_usize(ga) + (enc_usize(cs)
                + rest)));
            assert(t3@ =~= t2@.skip(n2 as int));
        }
    }
    let (flavor, n3) = match d_flavor(t3) {
        None => {
            return None;
        },
        Some(p) => p,
    };
    let t4 = &b[n1 + n2 + n3..blen];
    proof {
        assert(t4@ == b@.skip(n1 as int + n2 + n3));
        assert(b@.take(n1 as int + n2 + n3) =~= b@.take(n1 as int + n2) + t3@.take(n3 as int));
        assert forall|dl: OptRepeatedV, pr: u32, fl: TaskFlavor, ga: usize, cs: usize, rest: Seq<
            u8,
        >|
            optrep_ok(dl) && b@ == enc_task_head(dl, pr, fl, ga, cs) + rest implies flavor == fl
            && t4@ == enc_usize(ga) + (enc_usize(cs) + rest) by {
            assert(t3@.skip(n3 as int) =~= enc_usize(ga) + (enc_usize(cs) + rest));
            assert(t4@ =~= t3@.skip(n3 as int));
        }
    }
    let (gen_ahead, n4) = match d_usize(t4) {
        None => {
            return None;
        },
        Some(p) => p,
    };
    let t5 = &b[n1 + n2 + n3 + n4..blen];
    proof {
        assert(t5@ == b@.skip(n1 as int + n2 + n3 + n4));
        assert(b@.take(n1 as int + n2 + n3 + n4) =~= b@.take(n1 as int + n2 + n3) + t4@.take(
            n4 as int,
        ));
        assert forall|dl: OptRepeatedV, pr: u32, fl: TaskFlavor, ga: usize, cs: usize, rest: Seq<
            u8,
        >|
            optrep_ok(dl) && b@ == enc_task_head(dl, pr, fl, ga, cs) + rest implies gen_ahead == ga
            && t5@ == enc_usize(cs) + rest by {
            assert(t4@.skip(n4 as int) =~= enc_usize(cs) + rest);
            assert(t5@ =~= t4@.skip(n4 as int));
        }
    }
    let (cache_size, n5) = match d_usize(t5) {
        None => {
            return None;
        },
        Some(p) => p,
    };
    let n = n1 + n2 + n3 + n4 + n5;
    proof {
        assert(b@.take(n as int) =~= b@.take(n1 as int + n2 + n3 + n4) + t5@.take(n5 as int));
        assert(b@.take(n as int) =~= enc_task_head(
            deadline@,
            priority,
            flavor,
            gen_ahead,
            cache_size,
        ));
    }
    Some(((deadline, priority, flavor, gen_ahead, cache_size), n))
}

#[verifier::rlimit(100)]
fn d_task_body(b: &[u8]) -> (r: Option<(Task, usize)>)
    ensures
        r matches Some(p) ==> p.1 <= b@.len() && b@.take(p.1 as int) == enc_obj_payload_body(
            ObjPayloadV::Task(p.0@),
        ) && obj_payload_ok(ObjPayloadV::Task(p.0@)),
        forall|v: TaskV, rest: Seq<u8>|
            obj_payload_ok(ObjPayloadV::Task(v)) && b@ == enc_obj_payload_body(ObjPayloadV::Task(v))
                + rest ==> (r matches Some(p) && p.0@ == v && p.1 as int == enc_obj_payload_body(
                ObjPayloadV::Task(v),
            ).len()),
{
    let blen = b.len();
    proof {
        assert forall|v: TaskV, rest: Seq<u8>|
            obj_payload_ok(ObjPayloadV::Task(v)) && b@ == enc_obj_payload_body(ObjPayloadV::Task(v))
                + rest implies optrep_ok(v.deadline) && list_ok(v.notifications) && list_ok(v.cache)
            && b@ == enc_task_head(v.deadline, v.priority, v.flavor, v.gen_ahead, v.cache_size) + (
        enc_i64s(v.notifications) + (enc_u32s(v.cache) + rest)) by {
            assert(b@ =~= enc_task_head(v.deadline, v.priority, v.flavor, v.gen_ahead, v.cache_size)
                + (enc_i64s(v.notifications) + (enc_u32s(v.cache) + rest)));
        }
    }
    let (head, n1) = match d_task_head(b) {
        None => {
            return None;
        },
        Some(p) => p,
    };
    let (deadline, priority, flavor, gen_ahead, cache_size) = head;
    let t2 = &b[n1..blen];
    proof {
        assert(t2@ == b@.skip(n1 as int));
        assert forall|v: TaskV, rest: Seq<u8>|
            obj_payload_ok(ObjPayloadV::Task(v)) && b@ == enc_obj_payload_body(ObjPayloadV::Task(v))
                + rest implies deadline@ == v.deadline && priority == v.priority && flavor
            == v.flavor && gen_ahead == v.gen_ahead && cache_size == v.cache_size && t2@ == enc_i64s(
            v.notifications,
        ) + (enc_u32s(v.cache) + rest) by {
            assert(b@.skip(n1 as int) =~= enc_i64s(v.notifications) + (enc_u32s(v.cache) + rest));
        }
    }
    let (notifications, n2) = match d_durs(t2) {
        None => {
            return None;
        },
        Some(p) => p,
    };
    let t3 = &b[n1 + n2..blen];
    proof {
        assert(t3@ == b@.skip(n1 as int + n2));
        assert(b@.take(n1 as int + n2) =~= b@.take(n1 as int) + t2@.take(n2 as int));
        assert forall|v: TaskV, rest: Seq<u8>|
            obj_payload_ok(ObjPayloadV::Task(v)) && b@ == enc_obj_payload_body(ObjPayloadV::Task(v))
                + rest implies durs_view(notifications@) == v.notifications && t3@ == enc_u32s(
            v.cache,
        ) + rest by {
            assert(t2@.skip(n2 as int) =~= enc_u32s(v.cache) + rest);
            assert(t3@ =~= t2@.skip(n2 as int));
        }
    }
    let (cache, n3) = match d_ids(t3) {
        None => {
            return None;
        },
        Some(p) => p,
    };
    let tk = Task { deadline, priority, flavor, gen_ahead, cache_size, notifications, cache };
    let n = n1 + n2 + n3;
    proof {
        assert(b@.take(n as int) =~= b@.take(n1 as int + n2) + t3@.take(n3 as int));
        assert(b@.take(n as int) =~= enc_obj_payload_body(ObjPayloadV::Task(tk@)));
        assert forall|v: TaskV, rest: Seq<u8>|
            obj_payload_ok(ObjPayloadV::Task(v)) && b@ == enc_obj_payload_body(ObjPayloadV::Task(v))
                + rest implies tk@ == v && n as int == enc_obj_payload_body(
            ObjPayloadV::Task(v),
        ).len() by {
            assert(tk@ =~= v);
        }
    }
    Some((tk, n))
}

fn d_subtask_body(b: &[u8]) -> (r: Option<(SubTask, usize)>)
    ensures
        r matches Some(p) ==> p.1 <= b@.len() && b@.take(p.1 as int) == enc_obj_payload_body(
            ObjPayloadV::SubTask(p.0@),
        ) && obj_payload_ok(ObjPayloadV::SubTask(p.0@)),
        forall|v: SubTaskV, rest: Seq<u8>|
            obj_payload_ok(ObjPayloadV::SubTask(v)) && b@ == enc_obj_payload_body(
                ObjPayloadV::SubTask(v),
            ) + rest ==> (r matches Some(p) && p.0@ == v && p.1 as int == enc_obj_payload_body(
                ObjPayloadV::SubTask(v),
            ).len()),
{
    let blen = b.len();
    proof {
        assert forall|v: SubTaskV, rest: Seq<u8>|
            obj_payload_ok(ObjPayloadV::SubTask(v)) && b@ == enc_obj_payload_body(
                ObjPayloadV::SubTask(v),
            ) + rest implies list_ok(v.notifications) && b@ == enc_u32(v.task_id) + (enc_i64(
            v.deadline,
        ) + (enc_i64s(v.notifications) + (enc_opt_i64(v.finished) + rest))) by {
            assert(b@ =~= enc_u32(v.task_id) + (enc_i64(v.deadline) + (enc_i64s(v.notifications) + (
            enc_opt_i64(v.finished) + rest))));
        }
    }
    let (task_id, n1) = match d_u32(b) {
        None => {
            return None;
        },
        Some(p) => p,
    };
    let t2 = &b[n1..blen];
    proof {
        assert(t2@ == b@.skip(n1 as int));
        assert forall|v: SubTaskV, rest: Seq<u8>|
            obj_payload_ok(ObjPayloadV::SubTask(v)) && b@ == enc_obj_payload_body(
                ObjPayloadV::SubTask(v),
            ) + rest implies task_id == v.task_id && t2@ == enc_i64(v.deadline) + (enc_i64s(
            v.notifications,
        ) + (enc_opt_i64(v.finished) + rest)) by {
            assert(b@.skip(n1 as int) =~= enc_i64(v.deadline) + (enc_i64s(v.notifications) + (
            enc_opt_i64(v.finished) + rest)));
        }
    }
    let (deadline, n2) = match d_i64(t2) {
        None => {
            return None;
        },
        Some(p) => p,
    };
    let t3 = &b[n1 + n2..blen];
    proof {
        assert(t3@ == b@.skip(n1 as int + n2));
        assert(b@.take(n1 as int + n2) =~= b@.take(n1 as int) + t2@.take(n2 as int));
        assert forall|v: SubTaskV, rest: Seq<u8>|
            obj_payload_ok(ObjPayloadV::SubTask(v)) && b@ == enc_obj_payload_body(
                ObjPayloadV::SubTask(v),
            ) + rest implies deadline == v.deadline && t3@ == enc_i64s(v.notifications) + (
        enc_opt_i64(v.finished) + rest) by {
            assert(t2@.skip(n2 as int) =~= enc_i64s(v.notifications) + (enc_opt_i64(v.finished)
                + rest));
            assert(t3@ =~= t2@.skip(n2 as int));
        }
    }
    let (notifications, n3) = match d_durs(t3) {
        None => {
            return None;
        },
        Some(p) => p,
    };
    let t4 = &b[n1 + n2 + n3..blen];
    proof {
        assert(t4@ == b@.skip(n1 as int + n2 + n3));
        assert(b@.take(n1 as int + n2 + n3) =~= b@.take(n1 as int + n2) + t3@.take(n3 as int));
        assert forall|v: SubTaskV, rest: Seq<u8>|
            obj_payload_ok(ObjPayloadV::SubTask(v)) && b@ == enc_obj_payload_body(
                ObjPayloadV::SubTask(v),
            ) + rest implies durs_view(notifications@) == v.notifications && t4@ == enc_opt_i64(
            v.finished,
        ) + rest by {
            assert(t3@.skip(n3 as int) =~= enc_opt_i64(v.finished) + rest);
            assert(t4@ =~= t3@.skip(n3 as int));
        }
    }
    let (finished, n4) = match d_opt_dt(t4) {
        None => {
            return None;
        },
        Some(p) => p,
    };
    let st = SubTask { task_id: ObjId(task_id), deadline: DateTime { secs: deadline }, notifications, finished };
    let n = n1 + n2 + n3 + n4;
    proof {
        assert(b@.take(n as int) =~= b@.take(n1 as int + n2 + n3) + t4@.take(n4 as int));
        assert(b@.take(n as int) =~= enc_obj_payload_body(ObjPayloadV::SubTask(st@)));
        assert forall|v: SubTaskV, rest: Seq<u8>|
            obj_payload_ok(ObjPayloadV::SubTask(v)) && b@ == enc_obj_payload_body(
                ObjPayloadV::SubTask(v),
            ) + rest implies st@ == v && n as int == enc_obj_payload_body(
            ObjPayloadV::SubTask(v),
        ).len() by {
            assert(st@ =~= v);
        }
    }
    Some((st, n))
}

// ------------------------------------------------------------------
// Full records
// ------------------------------------------------------------------

#[verifier::rlimit(100)]
fn d_obj_head(b: &[u8]) -> (r: Option<((String, String, Option<String>, Option<Attrs>), usize)>)
    ensures
        r matches Some(p) ==> p.1 <= b@.len() && b@.take(p.1 as int) == enc_obj_head(
            p.0.0@,
            p.0.1@,
            opt_string_view(&p.0.2),
            opt_attrs_view(&p.0.3),
        ) && str_ok(p.0.0@) && str_ok(p.0.1@) && opt_str_ok(opt_string_view(&p.0.2)) && opt_attrs_ok(
            opt_attrs_view(&p.0.3),
        ),
        forall|tag: Seq<char>, name: Seq<char>, desc: Option<Seq<char>>, attrs: Option<AttrsV>,
            rest: Seq<u8>,
        |
            str_ok(tag) && str_ok(name) && opt_str_ok(desc) && opt_attrs_ok(attrs) && b@
                == enc_obj_head(tag, name, desc, attrs) + rest ==> (r matches Some(p) && p.0.0@
                == tag && p.0.1@ == name && opt_string_view(&p.0.2) == desc && opt_attrs_view(
                &p.0.3,
            ) == attrs && p.1 as int == enc_obj_head(tag, name, desc, attrs).len()),
{
    let blen = b.len();
    proof {
        assert forall|tag: Seq<char>, name: Seq<char>, desc: Option<Seq<char>>, attrs: Option<
            AttrsV,
        >, rest: Seq<u8>|
            str_ok(tag) && str_ok(name) && opt_str_ok(desc) && opt_attrs_ok(attrs) && b@
                == enc_obj_head(tag, name, desc, attrs) + rest implies b@ == enc_str(tag) + (
        enc_str(name) + (enc_opt_str(desc) + (enc_opt_attrs(attrs) + rest))) by {
            assert(b@ =~= enc_str(tag) + (enc_str(name) + (enc_opt_str(desc) + (enc_opt_attrs(
                attrs,
            ) + rest))));
        }
    }
    let (tag, n1) = match d_str(b) {
        None => {
            return None;
        },
        Some(p) => p,
    };
    let t2 = &b[n1..blen];
    proof {
        assert(t2@ == b@.skip(n1 as int));
        assert forall|tag2: Seq<char>, name: Seq<char>, desc: Option<Seq<char>>, attrs: Option<
            AttrsV,
        >, rest: Seq<u8>|
            str_ok(tag2) && str_ok(name) && opt_str_ok(desc) && opt_attrs_ok(attrs) && b@
                == enc_obj_head(tag2, name, desc, attrs) + rest implies tag@ == tag2 && t2@
            == enc_str(name) + (enc_opt_str(desc) + (enc_opt_attrs(attrs) + rest)) by {
            assert(b@ =~= enc_str(tag2) + (enc_str(name) + (enc_opt_str(desc) + (enc_opt_attrs(
                attrs,
            ) + rest))));
            assert(b@.skip(n1 as int) =~= enc_str(name) + (enc_opt_str(desc) + (enc_opt_attrs(attrs)
                + rest)));
        }
    }
    let (name, n2) = match d_str(t2) {
        None => {
            return None;
        },
        Some(p) => p,
    };
    let t3 = &b[n1 + n2..blen];
    proof {
        assert(t3@ == b@.skip(n1 as int + n2));
        assert(b@.take(n1 as int + n2) =~= b@.take(n1 as int) + t2@.take(n2 as int));
        assert forall|tag2: Seq<char>, name2: Seq<char>, desc: Option<Seq<char>>, attrs: Option<
            AttrsV,
        >, rest: Seq<u8>|
            str_ok(tag2) && str_ok(name2) && opt_str_ok(desc) && opt_attrs_ok(attrs) && b@
                == enc_obj_head(tag2, name2, desc, attrs) + rest implies name@ == name2 && t3@
            == enc_opt_str(desc) + (enc_opt_attrs(attrs) + rest) by {
            assert(t2@.skip(n2 as int) =~= enc_opt_str(desc) + (enc_opt_attrs(attrs) + rest));
            assert(t3@ =~= t2@.skip(n2 as int));
        }
    }
    let (desc, n3) = match d_opt_string(t3) {
        None => {
            return None;
        },
        Some(p) => p,
    };
    let t4 = &b[n1 + n2 + n3..blen];
    proof {
        assert(t4@ == b@.skip(n1 as int + n2 + n3));
        assert(b@.take(n1 as int + n2 + n3) =~= b@.take(n1 as int + n2) + t3@.take(n3 as int));
        assert forall|tag2: Seq<char>, name2: Seq<char>, desc2: Option<Seq<char>>, attrs: Option<
            AttrsV,
        >, rest: Seq<u8>|
            str_ok(tag2) && str_ok(name2) && opt_str_ok(desc2) && opt_attrs_ok(attrs) && b@
                == enc_obj_head(tag2, name2, desc2, attrs) + rest implies opt_string_view(&desc)
            == desc2 && t4@ == enc_opt_attrs(attrs) + rest by {
            assert(t3@.skip(n3 as int) =~= enc_opt_attrs(attrs) + rest);
            assert(t4@ =~= t3@.skip(n3 as int));
        }
    }
    let (attrs, n4) = match d_opt_attrs(t4) {
        None => {
            return None;
        },
        Some(p) => p,
    };
    let n = n1 + n2 + n3 + n4;
    proof {
        assert(b@.take(n as int) =~= b@.take(n1 as int + n2 + n3) + t4@.take(n4 as int));
        assert(b@.take(n as int) =~= enc_obj_head(
            tag@,
            name@,
            opt_string_view(&desc),
            opt_attrs_view(&attrs),
        ));
    }
    Some(((tag, name, desc, attrs), n))
}

/// The description field, as its characters.
pub open spec fn opt_string_view(o: &Option<String>) -> Option<Seq<char>> {
    match o {
        Some(s) => Some(s@),
        None => None,
    }
}

/// The attribute field, as its pairs.
pub open spec fn opt_attrs_view(o: &Option<Attrs>) -> Option<AttrsV> {
    match o {
        Some(a) => Some(a@),
        None => None,
    }
}

#[verifier::rlimit(100)]
pub fn decode_obj_record(b: &[u8]) -> (r: Option<(ObjRecord, usize)>)
    ensures
        r matches Some(p) ==> p.1 <= b@.len() && b@.take(p.1 as int) == enc_obj_record(p.0@)
            && obj_record_ok(p.0@),
        forall|v: ObjRecV, rest: Seq<u8>|
            obj_record_ok(v) && b@ == enc_obj_record(v) + rest ==> (r matches Some(p) && p.0@ == v
                && p.1 as int == enc_obj_record(v).len()),
{
    let blen = b.len();
    proof {
        lemma_obj_tags_distinct();
        assert forall|v: ObjRecV, rest: Seq<u8>|
            obj_record_ok(v) && b@ == enc_obj_record(v) + rest implies str_ok(obj_payload_tag(
            v.payload,
        )) && b@ == enc_obj_head(obj_payload_tag(v.payload), v.name, v.desc, v.attrs) + (
        enc_obj_payload_body(v.payload) + rest) by {
            assert(b@ =~= enc_obj_head(obj_payload_tag(v.payload), v.name, v.desc, v.attrs) + (
            enc_obj_payload_body(v.payload) + rest));
            lemma_tag_strs_ok();
        }
    }
    let (head, hn) = match d_obj_head(b) {
        None => {
            return None;
        },
        Some(p) => p,
    };
    let (tag, name, desc, attrs) = head;
    let t5 = &b[hn..blen];
    proof {
        assert(t5@ == b@.skip(hn as int));
        assert forall|v: ObjRecV, rest: Seq<u8>|
            obj_record_ok(v) && b@ == enc_obj_record(v) + rest implies tag@ == obj_payload_tag(
            v.payload,
        ) && name@ == v.name && opt_string_view(&desc) == v.desc && opt_attrs_view(&attrs)
            == v.attrs && t5@ == enc_obj_payload_body(v.payload) + rest by {
            assert(b@.skip(hn as int) =~= enc_obj_payload_body(v.payload) + rest);
        }
    }
    let (payload, n5) = if str_eq(tag.as_str(), "sys.state") {
        match d_state_body(t5) {
            None => {
                return None;
            },
            Some((x, n5)) => (ObjPayload::State(x), n5),
        }
    } else if str_eq(tag.as_str(), "event") {
        match d_event_body(t5) {
            None => {
                return None;
            },
            Some((x, n5)) => (ObjPayload::Event(x), n5),
        }
    } else if str_eq(tag.as_str(), "task") {
        match d_task_body(t5) {
            None => {
                return None;
            },
            Some((x, n5)) => (ObjPayload::Task(x), n5),
        }
    } else if str_eq(tag.as_str(), "task.sub") {
        match d_subtask_body(t5) {
            None => {
                return None;
            },
            Some((x, n5)) => (ObjPayload::SubTask(x), n5),
        }
    } else {
        proof {
            assert forall|v: ObjRecV, rest: Seq<u8>|
                obj_record_ok(v) && b@ == enc_obj_record(v) + rest implies false by {
                match v.payload {
                    ObjPayloadV::State(_) => {},
                    ObjPayloadV::Event(_) => {},
                    ObjPayloadV::Task(_) => {},
                    ObjPayloadV::SubTask(_) => {},
                }
            }
        }
        return None;
    };
    let rec = ObjRecord { name, desc, attrs, payload };
    let n = hn + n5;
    proof {
        assert(b@.take(n as int) =~= b@.take(hn as int) + t5@.take(n5 as int));
        assert(tag@ == obj_payload_tag(rec@.payload));
        assert(b@.take(n as int) =~= enc_obj_record(rec@));
        assert forall|v: ObjRecV, rest: Seq<u8>|
            obj_record_ok(v) && b@ == enc_obj_record(v) + rest implies rec@ == v && n as int
            == enc_obj_record(v).len() by {
            assert(rec@.payload == v.payload);
            assert(rec@ =~= v);
        }
    }
    Some((rec, n))
}

/// The four object tags and four log tags fit the length prefix.
pub proof fn lemma_tag_strs_ok()
    ensures
        str_ok("sys.state"@),
        str_ok("event"@),
        str_ok("task"@),
        str_ok("task.sub"@),
        str_ok("obj.create"@),
        str_ok("obj.set_desc"@),
        str_ok("obj.set_attr"@),
        str_ok("task.finish"@),
{
    broadcast use vstd::string::group_string_axioms, vstd::utf8::is_ascii_chars_encode_utf8;

    reveal_strlit("sys.state");
    reveal_strlit("event");
    reveal_strlit("task");
    reveal_strlit("task.sub");
    reveal_strlit("obj.create");
    reveal_strlit("obj.set_desc");
    reveal_strlit("obj.set_attr");
    reveal_strlit("task.finish");
    assert(vstd::utf8::is_ascii_chars("sys.state"@));
    assert(vstd::utf8::is_ascii_chars("event"@));
    assert(vstd::utf8::is_ascii_chars("task"@));
    assert(vstd::utf8::is_ascii_chars("task.sub"@));
    assert(vstd::utf8::is_ascii_chars("obj.create"@));
    assert(vstd::utf8::is_ascii_chars("obj.set_desc"@));
    assert(vstd::utf8::is_ascii_chars("obj.set_attr"@));
    assert(vstd::utf8::is_ascii_chars("task.finish"@));
}

#[verifier::rlimit(100)]
fn d_log_head(b: &[u8]) -> (r: Option<((String, DateTime, Option<Attrs>), usize)>)
    ensures
        r matches Some(p) ==> p.1 <= b@.len() && b@.take(p.1 as int) == enc_log_head(
            p.0.0@,
            p.0.1.secs,
            opt_attrs_view(&p.0.2),
        ) && str_ok(p.0.0@) && opt_attrs_ok(opt_attrs_view(&p.0.2)),
        forall|tag: Seq<char>, time: i64, attrs: Option<AttrsV>, rest: Seq<u8>|
            str_ok(tag) && opt_attrs_ok(attrs) && b@ == enc_log_head(tag, time, attrs) + rest ==> (
            r matches Some(p) && p.0.0@ == tag && p.0.1.secs == time && opt_attrs_view(&p.0.2)
                == attrs && p.1 as int == enc_log_head(tag, time, attrs).len()),
{
    let blen = b.len();
    proof {
        assert forall|tag: Seq<char>, time: i64, attrs: Option<AttrsV>, rest: Seq<u8>|
            str_ok(tag) && opt_attrs_ok(attrs) && b@ == enc_log_head(tag, time, attrs)
                + rest implies b@ == enc_str(tag) + (enc_i64(time) + (enc_opt_attrs(attrs)
            + rest)) by {
            assert(b@ =~= enc_str(tag) + (enc_i64(time) + (enc_opt_attrs(attrs) + rest)));
        }
    }
    let (tag, n1) = match d_str(b) {
        None => {
            return None;
        },
        Some(p) => p,
    };
    let t2 = &b[n1..blen];
    proof {
        assert(t2@ == b@.skip(n1 as int));
        assert forall|tag2: Seq<char>, time: i64, attrs: Option<AttrsV>, rest: Seq<u8>|
            str_ok(tag2) && opt_attrs_ok(attrs) && b@ == enc_log_head(tag2, time, attrs)
                + rest implies tag@ == tag2 && t2@ == enc_i64(time) + (enc_opt_attrs(attrs)
            + rest) by {
            assert(b@ =~= enc_str(tag2) + (enc_i64(time) + (enc_opt_attrs(attrs) + rest)));
            assert(b@.skip(n1 as int) =~= enc_i64(time) + (enc_opt_attrs(attrs) + rest));
        }
    }
    let (time, n2) = match d_i64(t2) {
        None => {
            return None;
        },
        Some(p) => p,
    };
    let t3 = &b[n1 + n2..blen];
    proof {
        assert(t3@ == b@.skip(n1 as int + n2));
        assert(b@.take(n1 as int + n2) =~= b@.take(n1 as int) + t2@.take(n2 as int));
        assert forall|tag2: Seq<char>, time2: i64, attrs: Option<AttrsV>, rest: Seq<u8>|
            str_ok(tag2) && opt_attrs_ok(attrs) && b@ == enc_log_head(tag2, time2, attrs)
                + rest implies time == time2 && t3@ == enc_opt_attrs(attrs) + rest by {
            assert(t2@.skip(n2 as int) =~= enc_opt_attrs(attrs) + rest);
            assert(t3@ =~= t2@.skip(n2 as int));
        }
    }
    let (attrs, n3) = match d_opt_attrs(t3) {
        None => {
            return None;
        },
        Some(p) => p,
    };
    let n = n1 + n2 + n3;
    proof {
        assert(b@.take(n as int) =~= b@.take(n1 as int + n2) + t3@.take(n3 as int));
        assert(b@.take(n as int) =~= enc_log_head(tag@, time, opt_attrs_view(&attrs)));
    }
    Some(((tag, DateTime { secs: time }, attrs), n))
}

fn d_create_body(b: &[u8]) -> (r: Option<(CreateObj, usize)>)
    ensures
        r matches Some(p) ==> p.1 <= b@.len() && b@.take(p.1 as int) == enc_log_payload_body(p.0@)
            && log_payload_ok(p.0@),
        forall|id: u32, typ: Seq<char>, rest: Seq<u8>|
            str_ok(typ) && b@ == enc_log_payload_body(LogPayloadV::CreateObj { id, typ })
                + rest ==> (r matches Some(p) && p.0@ == LogPayloadV::CreateObj { id, typ }
                && p.1 as int == enc_log_payload_body(LogPayloadV::CreateObj { id, typ }).len()),
{
    let blen = b.len();
    proof {
        assert forall|id: u32, typ: Seq<char>, rest: Seq<u8>|
            str_ok(typ) && b@ == enc_log_payload_body(LogPayloadV::CreateObj { id, typ })
                + rest implies b@ == enc_u32(id) + (enc_str(typ) + rest) by {
            assert(b@ =~= enc_u32(id) + (enc_str(typ) + rest));
        }
    }
    let (id, n1) = match d_u32(b) {
        None => {
            return None;
        },
        Some(p) => p,
    };
    let t2 = &b[n1..blen];
    proof {
        assert(t2@ == b@.skip(n1 as int));
        assert forall|id2: u32, typ: Seq<char>, rest: Seq<u8>|
            str_ok(typ) && b@ == enc_log_payload_body(LogPayloadV::CreateObj { id: id2, typ })
                + rest implies id == id2 && t2@ == enc_str(typ) + rest by {
            assert(b@ =~= enc_u32(id2) + (enc_str(typ) + rest));
            assert(b@.skip(n1 as int) =~= enc_str(typ) + rest);
        }
    }
    match d_str(t2) {
        None => None,
        Some((typ, n2)) => {
            let x = CreateObj { id: ObjId(id), typ };
            proof {
                assert(b@.take(n1 as int + n2 as int) =~= b@.take(n1 as int) + t2@.take(n2 as int));
                assert(b@.take(n1 as int + n2 as int) =~= enc_log_payload_body(x@));
            }
            Some((x, n1 + n2))
        },
    }
}

fn d_setdesc_body(b: &[u8]) -> (r: Option<(ObjSetDesc, usize)>)
    ensures
        r matches Some(p) ==> p.1 <= b@.len() && b@.take(p.1 as int) == enc_log_payload_body(p.0@)
            && log_payload_ok(p.0@),
        forall|id: u32, diff: DiffV<Seq<char>>, rest: Seq<u8>|
            diff_str_ok(diff) && b@ == enc_log_payload_body(LogPayloadV::ObjSetDesc { id, diff })
                + rest ==> (r matches Some(p) && p.0@ == LogPayloadV::ObjSetDesc { id, diff }
                && p.1 as int == enc_log_payload_body(LogPayloadV::ObjSetDesc { id, diff }).len()),
{
    let blen = b.len();
    proof {
        assert forall|id: u32, diff: DiffV<Seq<char>>, rest: Seq<u8>|
            diff_str_ok(diff) && b@ == enc_log_payload_body(LogPayloadV::ObjSetDesc { id, diff })
                + rest implies b@ == enc_u32(id) + (enc_diff_str(diff) + rest) by {
            assert(b@ =~= enc_u32(id) + (enc_diff_str(diff) + rest));
        }
    }
    let (id, n1) = match d_u32(b) {
        None => {
            return None;
        },
        Some(p) => p,
    };
    let t2 = &b[n1..blen];
    proof {
        assert(t2@ == b@.skip(n1 as int));
        assert forall|id2: u32, diff: DiffV<Seq<char>>, rest: Seq<u8>|
            diff_str_ok(diff) && b@ == enc_log_payload_body(
                LogPayloadV::ObjSetDesc { id: id2, diff },
            ) + rest implies id == id2 && t2@ == enc_diff_str(diff) + rest by {
            assert(b@ =~= enc_u32(id2) + (enc_diff_str(diff) + rest));
            assert(b@.skip(n1 as int) =~= enc_diff_str(diff) + rest);
        }
    }
    match d_diff_str(t2) {
        None => None,
        Some((diff, n2)) => {
            let x = ObjSetDesc { id: ObjId(id), diff };
            proof {
                assert(b@.take(n1 as int + n2 as int) =~= b@.take(n1 as int) + t2@.take(n2 as int));
                assert(b@.take(n1 as int + n2 as int) =~= enc_log_payload_body(x@));
            }
            Some((x, n1 + n2))
        },
    }
}

#[verifier::rlimit(100)]
fn d_setattr_body(b: &[u8]) -> (r: Option<(ObjSetAttr, usize)>)
    ensures
        r matches Some(p) ==> p.1 <= b@.len() && b@.take(p.1 as int) == enc_log_payload_body(p.0@)
            && log_payload_ok(p.0@),
        forall|id: u32, attr: Seq<char>, diff: DiffV<AttrValueV>, rest: Seq<u8>|
            str_ok(attr) && diff_attr_ok(diff) && b@ == enc_log_payload_body(
                LogPayloadV::ObjSetAttr { id, attr, diff },
            ) + rest ==> (r matches Some(p) && p.0@ == LogPayloadV::ObjSetAttr { id, attr, diff }
                && p.1 as int == enc_log_payload_body(
                LogPayloadV::ObjSetAttr { id, attr, diff },
            ).len()),
{
    let blen = b.len();
    proof {
        assert forall|id: u32, attr: Seq<char>, diff: DiffV<AttrValueV>, rest: Seq<u8>|
            str_ok(attr) && diff_attr_ok(diff) && b@ == enc_log_payload_body(
                LogPayloadV::ObjSetAttr { id, attr, diff },
            ) + rest implies b@ == enc_u32(id) + (enc_str(attr) + (enc_diff_attr(diff)
            + rest)) by {
            assert(b@ =~= enc_u32(id) + (enc_str(attr) + (enc_diff_attr(diff) + rest)));
        }
    }
    let (id, n1) = match d_u32(b) {
        None => {
            return None;
        },
        Some(p) => p,
    };
    let t2 = &b[n1..blen];
    proof {
        assert(t2@ == b@.skip(n1 as int));
        assert forall|id2: u32, attr: Seq<char>, diff: DiffV<AttrValueV>, rest: Seq<u8>|
            str_ok(attr) && diff_attr_ok(diff) && b@ == enc_log_payload_body(
                LogPayloadV::ObjSetAttr { id: id2, attr, diff },
            ) + rest implies id == id2 && t2@ == enc_str(attr) + (enc_diff_attr(diff) + rest) by {
            assert(b@ =~= enc_u32(id2) + (enc_str(attr) + (enc_diff_attr(diff) + rest)));
            assert(b@.skip(n1 as int) =~= enc_str(attr) + (enc_diff_attr(diff) + rest));
        }
    }
    let (attr, n2) = match d_str(t2) {
        None => {
            return None;
        },
        Some(p) => p,
    };
    let t3 = &b[n1 + n2..blen];
    proof {
        assert(t3@ == b@.skip(n1 as int + n2));
        assert(b@.take(n1 as int + n2) =~= b@.take(n1 as int) + t2@.take(n2 as int));
        assert forall|id2: u32, attr2: Seq<char>, diff: DiffV<AttrValueV>, rest: Seq<u8>|
            str_ok(attr2) && diff_attr_ok(diff) && b@ == enc_log_payload_body(
                LogPayloadV::ObjSetAttr { id: id2, attr: attr2, diff },
            ) + rest implies attr@ == attr2 && t3@ == enc_diff_attr(diff) + rest by {
            assert(t2@.skip(n2 as int) =~= enc_diff_attr(diff) + rest);
            assert(t3@ =~= t2@.skip(n2 as int));
        }
    }
    match d_diff_attr(t3) {
        None => None,
        Some((diff, n3)) => {
            let x = ObjSetAttr { id: ObjId(id), attr, diff };
            proof {
                assert(b@.take(n1 as int + n2 + n3 as int) =~= b@.take(n1 as int + n2) + t3@.take(
                    n3 as int,
                ));
                assert(b@.take(n1 as int + n2 + n3 as int) =~= enc_log_payload_body(x@));
            }
            Some((x, n1 + n2 + n3))
        },
    }
}

fn d_finish_body(b: &[u8]) -> (r: Option<(TaskFinish, usize)>)
    ensures
        r matches Some(p) ==> p.1 <= b@.len() && b@.take(p.1 as int) == enc_log_payload_body(p.0@)
            && log_payload_ok(p.0@),
        forall|id: u32, rest: Seq<u8>|
            b@ == enc_log_payload_body(LogPayloadV::TaskFinish { id }) + rest ==> (r matches Some(
                p,
            ) && p.0@ == LogPayloadV::TaskFinish { id } && p.1 as int == enc_log_payload_body(
                LogPayloadV::TaskFinish { id },
            ).len()),
{
    match d_u32(b) {
        None => None,
        Some((id, n)) => Some((TaskFinish { id: ObjId(id) }, n)),
    }
}

#[verifier::rlimit(100)]
pub fn decode_log_record(b: &[u8]) -> (r: Option<(LogRecord, usize)>)
    ensures
        r matches Some(p) ==> p.1 <= b@.len() && b@.take(p.1 as int) == enc_log_record(p.0@)
            && log_record_ok(p.0@),
        forall|v: LogRecV, rest: Seq<u8>|
            log_record_ok(v) && b@ == enc_log_record(v) + rest ==> (r matches Some(p) && p.0@ == v
                && p.1 as int == enc_log_record(v).len()),
{
    let blen = b.len();
    proof {
        lemma_log_tags_distinct();
        assert forall|v: LogRecV, rest: Seq<u8>|
            log_record_ok(v) && b@ == enc_log_record(v) + rest implies str_ok(log_payload_tag(
            v.payload,
        )) && b@ == enc_log_head(log_payload_tag(v.payload), v.time, v.attrs) + (
        enc_log_payload_body(v.payload) + rest) by {
            assert(b@ =~= enc_log_head(log_payload_tag(v.payload), v.time, v.attrs) + (
            enc_log_payload_body(v.payload) + rest));
            lemma_tag_strs_ok();
        }
    }
    let (head, hn) = match d_log_head(b) {
        None => {
            return None;
        },
        Some(p) => p,
    };
    let (tag, time, attrs) = head;
    let t5 = &b[hn..blen];
    proof {
        assert(t5@ == b@.skip(hn as int));
        assert forall|v: LogRecV, rest: Seq<u8>|
            log_record_ok(v) && b@ == enc_log_record(v) + rest implies tag@ == log_payload_tag(
            v.payload,
        ) && time.secs == v.time && opt_attrs_view(&attrs) == v.attrs && t5@
            == enc_log_payload_body(v.payload) + rest by {
            assert(b@.skip(hn as int) =~= enc_log_payload_body(v.payload) + rest);
        }
    }
    let (payload, n5) = if str_eq(tag.as_str(), "obj.create") {
        match d_create_body(t5) {
            None => {
                return None;
            },
            Some((x, n5)) => (LogPayload::CreateObj(x), n5),
        }
    } else if str_eq(tag.as_str(), "obj.set_desc") {
        match d_setdesc_body(t5) {
            None => {
                return None;
            },
            Some((x, n5)) => (LogPayload::ObjSetDesc(x), n5),
        }
    } else if str_eq(tag.as_str(), "obj.set_attr") {
        match d_setattr_body(t5) {
            None => {
                return None;
            },
            Some((x, n5)) => (LogPayload::ObjSetAttr(x), n5),
        }
    } else if str_eq(tag.as_str(), "task.finish") {
        match d_finish_body(t5) {
            None => {
                return None;
            },
            Some((x, n5)) => (LogPayload::TaskFinish(x), n5),
        }
    } else {
        proof {
            assert forall|v: LogRecV, rest: Seq<u8>|
                log_record_ok(v) && b@ == enc_log_record(v) + rest implies false by {
                match v.payload {
                    LogPayloadV::CreateObj { .. } => {},
                    LogPayloadV::ObjSetDesc { .. } => {},
                    LogPayloadV::ObjSetAttr { .. } => {},
                    LogPayloadV::TaskFinish { .. } => {},
                }
            }
        }
        return None;
    };
    let rec = LogRecord { time, attrs, payload };
    let n = hn + n5;
    proof {
        assert(b@.take(n as int) =~= b@.take(hn as int) + t5@.take(n5 as int));
        assert(tag@ == log_payload_tag(rec@.payload));
        assert(b@.take(n as int) =~= enc_log_record(rec@));
        assert forall|v: LogRecV, rest: Seq<u8>|
            log_record_ok(v) && b@ == enc_log_record(v) + rest implies rec@ == v && n as int
            == enc_log_record(v).len() by {
            assert(rec@.payload == v.payload);
            assert(rec@ =~= v);
        }
    }
    Some((rec, n))
}

// ------------------------------------------------------------------
// Tag-checked decoding and identifier keys
// ------------------------------------------------------------------

/// Read only an object record's type tag, from its fixed position at the
/// front; nothing behind it is touched.
#[verifier::rlimit(100)]
pub fn decode_obj_tag(b: &[u8]) -> (r: Option<String>)
    ensures
        forall|v: ObjRecV, rest: Seq<u8>|
            obj_record_ok(v) && b@ == enc_obj_record(v) + rest ==> (r matches Some(t) && t@
                == obj_payload_tag(v.payload)),
{
    proof {
        assert forall|v: ObjRecV, rest: Seq<u8>|
            obj_record_ok(v) && b@ == enc_obj_record(v) + rest implies str_ok(obj_payload_tag(
            v.payload,
        )) && b@ == enc_str(obj_payload_tag(v.payload)) + (enc_str(v.name) + enc_opt_str(v.desc)
            + enc_opt_attrs(v.attrs) + enc_obj_payload_body(v.payload) + rest) by {
            let tail = enc_str(v.name) + enc_opt_str(v.desc) + enc_opt_attrs(v.attrs)
                + enc_obj_payload_body(v.payload) + rest;
            assert(b@ =~= enc_str(obj_payload_tag(v.payload)) + tail);
            lemma_tag_strs_ok();
        }
    }
    match d_str(b) {
        None => None,
        Some((tag, _)) => Some(tag),
    }
}

/// Decode an object record only if its tag is the expected one.  On a
/// mismatch the two tags are reported and the fields behind the tag are
/// never decoded.
pub fn decode_obj_expecting(b: &[u8], expected: &str) -> (r: Result<(ObjRecord, usize), Error>)
    ensures
        r matches Ok(p) ==> p.1 <= b@.len() && b@.take(p.1 as int) == enc_obj_record(p.0@)
            && obj_record_ok(p.0@) && obj_payload_tag(p.0@.payload) == expected@,
        forall|v: ObjRecV, rest: Seq<u8>|
            obj_record_ok(v) && b@ == enc_obj_record(v) + rest ==> (if obj_payload_tag(v.payload)
                == expected@ {
                r matches Ok(p) && p.0@ == v && p.1 as int == enc_obj_record(v).len()
            } else {
                r matches Err(e) && (e matches Error::TypeMismatch { expected: xe, actual: xa }
                    && xe@ == expected@ && xa@ == obj_payload_tag(v.payload))
            }),
{
    let tag = match decode_obj_tag(b) {
        None => {
            return Err(Error::Serde("malformed object record".to_owned()));
        },
        Some(t) => t,
    };
    if !str_eq(tag.as_str(), expected) {
        return Err(Error::TypeMismatch { expected: expected.to_owned(), actual: tag });
    }
    match decode_obj_record(b) {
        None => Err(Error::Serde("malformed object record".to_owned())),
        Some((rec, n)) => {
            proof {
                assert(b@ =~= b@.take(n as int) + b@.skip(n as int));
                assert(obj_record_ok(rec@) && b@ == enc_obj_record(rec@) + b@.skip(n as int));
                assert(tag@ == obj_payload_tag(rec@.payload));
            }
            Ok((rec, n))
        },
    }
}

/// An object id as its durable key: four big-endian bytes.
pub fn ser_obj_id(id: ObjId) -> (r: Vec<u8>)
    ensures
        r@ == enc_u32(id.0),
{
    let mut out: Vec<u8> = Vec::new();
    w_u32(&mut out, id.0);
    proof {
        assert(out@ =~= enc_u32(id.0));
    }
    out
}

/// A log id as its durable key: four big-endian bytes.
pub fn ser_log_id(id: LogId) -> (r: Vec<u8>)
    ensures
        r@ == enc_u32(id.0),
{
    let mut out: Vec<u8> = Vec::new();
    w_u32(&mut out, id.0);
    proof {
        assert(out@ =~= enc_u32(id.0));
    }
    out
}

/// A durable key back to its object id; exactly four bytes are accepted.
pub fn deser_obj_id(bytes: &[u8]) -> (r: Option<ObjId>)
    ensures
        r matches Some(id) ==> bytes@ == enc_u32(id.0),
        r is None <==> bytes@.len() != 4,
{
    if bytes.len() != 4 {
        return None;
    }
    match d_u32(bytes) {
        None => None,
        Some((x, _)) => {
            proof {
                assert(bytes@.take(4) =~= bytes@);
            }
            Some(ObjId(x))
        },
    }
}

/// A durable key back to its log id; exactly four bytes are accepted.
pub fn deser_log_id(bytes: &[u8]) -> (r: Option<LogId>)
    ensures
        r matches Some(id) ==> bytes@ == enc_u32(id.0),
        r is None <==> bytes@.len() != 4,
{
    if bytes.len() != 4 {
        return None;
    }
    match d_u32(bytes) {
        None => None,
        Some((x, _)) => {
            proof {
                assert(bytes@.take(4) =~= bytes@);
            }
            Some(LogId(x))
        },
    }
}

// ------------------------------------------------------------------
// Bulk interchange: all records, logs then objects
// ------------------------------------------------------------------

/// The records of a log list, by view.
pub open spec fn log_recs_view(s: Seq<LogRecord>) -> Seq<LogRecV> {
    Seq::new(s.len(), |i: int| s[i]@)
}

/// The records of an object list, by view.
pub open spec fn obj_recs_view(s: Seq<ObjRecord>) -> Seq<ObjRecV> {
    Seq::new(s.len(), |i: int| s[i]@)
}

pub open spec fn enc_log_recs_body(s: Seq<LogRecV>) -> Seq<u8>
    decreases s.len(),
{
    if s.len() == 0 {
        Seq::empty()
    } else {
        enc_log_record(s[0]) + enc_log_recs_body(s.drop_first())
    }
}

pub open spec fn enc_obj_recs_body(s: Seq<ObjRecV>) -> Seq<u8>
    decreases s.len(),
{
    if s.len() == 0 {
        Seq::empty()
    } else {
        enc_obj_record(s[0]) + enc_obj_recs_body(s.drop_first())
    }
}

pub open spec fn log_recs_ok(s: Seq<LogRecV>) -> bool
    decreases s.len(),
{
    if s.len() == 0 {
        true
    } else {
        log_record_ok(s[0]) && log_recs_ok(s.drop_first())
    }
}

pub open spec fn obj_recs_ok(s: Seq<ObjRecV>) -> bool
    decreases s.len(),
{
    if s.len() == 0 {
        true
    } else {
        obj_record_ok(s[0]) && obj_recs_ok(s.drop_first())
    }
}

/// The whole store as bytes: the log records in id order, then the object
/// records in id order, each list with its count first.
pub open spec fn enc_export(logs: Seq<LogRecV>, objs: Seq<ObjRecV>) -> Seq<u8> {
    enc_u64(logs.len() as u64) + enc_log_recs_body(logs) + enc_u64(objs.len() as u64)
        + enc_obj_recs_body(objs)
}

pub open spec fn export_ok(logs: Seq<LogRecV>, objs: Seq<ObjRecV>) -> bool {
    list_ok(logs) && log_recs_ok(logs) && list_ok(objs) && obj_recs_ok(objs)
}

pub proof fn lemma_enc_log_recs_snoc(s: Seq<LogRecV>, x: LogRecV)
    ensures
        enc_log_recs_body(s.push(x)) =~= enc_log_recs_body(s) + enc_log_record(x),
        log_recs_ok(s.push(x)) == (log_recs_ok(s) && log_record_ok(x)),
    decreases s.len(),
{
    let t = s.push(x);
    assert(enc_log_recs_body(t) == enc_log_record(t[0]) + enc_log_recs_body(t.drop_first()));
    assert(log_recs_ok(t) == (log_record_ok(t[0]) && log_recs_ok(t.drop_first())));
    if s.len() == 0 {
        assert(t[0] == x);
        assert(t.drop_first() =~= Seq::<LogRecV>::empty());
        assert(enc_log_recs_body(s) == Seq::<u8>::empty());
        assert(enc_log_recs_body(t) =~= enc_log_recs_body(s) + enc_log_record(x));
    } else {
        assert(t[0] == s[0]);
        assert(t.drop_first() =~= s.drop_first().push(x));
        lemma_enc_log_recs_snoc(s.drop_first(), x);
        assert(enc_log_recs_body(s) == enc_log_record(s[0]) + enc_log_recs_body(s.drop_first()));
        assert(enc_log_recs_body(t) =~= enc_log_recs_body(s) + enc_log_record(x));
    }
}

pub proof fn lemma_enc_obj_recs_snoc(s: Seq<ObjRecV>, x: ObjRecV)
    ensures
        enc_obj_recs_body(s.push(x)) =~= enc_obj_recs_body(s) + enc_obj_record(x),
        obj_recs_ok(s.push(x)) == (obj_recs_ok(s) && obj_record_ok(x)),
    decreases s.len(),
{
    let t = s.push(x);
    assert(enc_obj_recs_body(t) == enc_obj_record(t[0]) + enc_obj_recs_body(t.drop_first()));
    assert(obj_recs_ok(t) == (obj_record_ok(t[0]) && obj_recs_ok(t.drop_first())));
    if s.len() == 0 {
        assert(t[0] == x);
        assert(t.drop_first() =~= Seq::<ObjRecV>::empty());
        assert(enc_obj_recs_body(s) == Seq::<u8>::empty());
        assert(enc_obj_recs_body(t) =~= enc_obj_recs_body(s) + enc_obj_record(x));
    } else {
        assert(t[0] == s[0]);
        assert(t.drop_first() =~= s.drop_first().push(x));
        lemma_enc_obj_recs_snoc(s.drop_first(), x);
        assert(enc_obj_recs_body(s) == enc_obj_record(s[0]) + enc_obj_recs_body(s.drop_first()));
        assert(enc_obj_recs_body(t) =~= enc_obj_recs_body(s) + enc_obj_record(x));
    }
}

pub proof fn lemma_enc_log_recs_split(v: Seq<LogRecV>, i: int)
    requires
        0 <= i <= v.len(),
    ensures
        enc_log_recs_body(v) =~= enc_log_recs_body(v.take(i)) + enc_log_recs_body(v.skip(i)),
        log_recs_ok(v) ==> log_recs_ok(v.take(i)) && log_recs_ok(v.skip(i)),
    decreases i,
{
    if i == 0 {
        assert(v.take(0) =~= Seq::<LogRecV>::empty());
        assert(v.skip(0) =~= v);
    } else {
        lemma_enc_log_recs_split(v, i - 1);
        assert(v.take(i) =~= v.take(i - 1).push(v[i - 1]));
        lemma_enc_log_recs_snoc(v.take(i - 1), v[i - 1]);
        assert(v.skip(i - 1).drop_first() =~= v.skip(i));
        assert(v.skip(i - 1)[0] == v[i - 1]);
        assert(enc_log_recs_body(v.skip(i - 1)) == enc_log_record(v[i - 1]) + enc_log_recs_body(
            v.skip(i),
        ));
        assert(log_recs_ok(v.skip(i - 1)) == (log_record_ok(v[i - 1]) && log_recs_ok(v.skip(i))));
        assert(enc_log_recs_body(v) =~= enc_log_recs_body(v.take(i)) + enc_log_recs_body(v.skip(i)));
    }
}

pub proof fn lemma_enc_obj_recs_split(v: Seq<ObjRecV>, i: int)
    requires
        0 <= i <= v.len(),
    ensures
        enc_obj_recs_body(v) =~= enc_obj_recs_body(v.take(i)) + enc_obj_recs_body(v.skip(i)),
        obj_recs_ok(v) ==> obj_recs_ok(v.take(i)) && obj_recs_ok(v.skip(i)),
    decreases i,
{
    if i == 0 {
        assert(v.take(0) =~= Seq::<ObjRecV>::empty());
        assert(v.skip(0) =~= v);
    } else {
        lemma_enc_obj_recs_split(v, i - 1);
        assert(v.take(i) =~= v.take(i - 1).push(v[i - 1]));
        lemma_enc_obj_recs_snoc(v.take(i - 1), v[i - 1]);
        assert(v.skip(i - 1).drop_first() =~= v.skip(i));
        assert(v.skip(i - 1)[0] == v[i - 1]);
        assert(enc_obj_recs_body(v.skip(i - 1)) == enc_obj_record(v[i - 1]) + enc_obj_recs_body(
            v.skip(i),
        ));
        assert(obj_recs_ok(v.skip(i - 1)) == (obj_record_ok(v[i - 1]) && obj_recs_ok(v.skip(i))));
        assert(enc_obj_recs_body(v) =~= enc_obj_recs_body(v.take(i)) + enc_obj_recs_body(v.skip(i)));
    }
}

/// Encode a whole store: log records then object records.
pub fn encode_export(logs: &Vec<LogRecord>, objs: &Vec<ObjRecord>) -> (r: Vec<u8>)
    ensures
        r@ == enc_export(log_recs_view(logs@), obj_recs_view(objs@)),
        export_ok(log_recs_view(logs@), obj_recs_view(objs@)),
{
    let mut out: Vec<u8> = Vec::new();
    let nl = logs.len();
    w_u64(&mut out, nl as u64);
    let ghost lv = log_recs_view(logs@);
    let mut i: usize = 0;
    while i < nl
        invariant
            0 <= i <= nl,
            nl == logs@.len(),
            lv == log_recs_view(logs@),
            lv.len() == nl,
            forall|j: int| 0 <= j < nl ==> lv[j] == logs@[j]@,
            out@ == enc_u64(nl as u64) + enc_log_recs_body(lv.take(i as int)),
            log_recs_ok(lv.take(i as int)),
        decreases nl - i,
    {
        let rb = encode_log_record(&logs[i]);
        let mut k: usize = 0;
        let m = rb.len();
        while k < m
            invariant
                0 <= k <= m,
                m == rb@.len(),
                out@ == enc_u64(nl as u64) + enc_log_recs_body(lv.take(i as int)) + rb@.take(
                    k as int,
                ),
            decreases m - k,
        {
            out.push(rb[k]);
            proof {
                assert(rb@.take(k + 1) =~= rb@.take(k as int).push(rb@[k as int]));
                assert(out@ =~= enc_u64(nl as u64) + enc_log_recs_body(lv.take(i as int))
                    + rb@.take(k + 1));
            }
            k = k + 1;
        }
        proof {
            assert(rb@.take(m as int) =~= rb@);
            assert(lv.take(i + 1) =~= lv.take(i as int).push(lv[i as int]));
            lemma_enc_log_recs_snoc(lv.take(i as int), lv[i as int]);
            assert(out@ =~= enc_u64(nl as u64) + enc_log_recs_body(lv.take(i + 1)));
        }
        i = i + 1;
    }
    proof {
        assert(lv.take(nl as int) =~= lv);
    }
    let no = objs.len();
    w_u64(&mut out, no as u64);
    let ghost ov = obj_recs_view(objs@);
    let ghost head = enc_u64(nl as u64) + enc_log_recs_body(lv) + enc_u64(no as u64);
    proof {
        assert(out@ =~= head + enc_obj_recs_body(ov.take(0)));
    }
    let mut i2: usize = 0;
    while i2 < no
        invariant
            0 <= i2 <= no,
            no == objs@.len(),
            ov == obj_recs_view(objs@),
            ov.len() == no,
            forall|j: int| 0 <= j < no ==> ov[j] == objs@[j]@,
            head == enc_u64(nl as u64) + enc_log_recs_body(lv) + enc_u64(no as u64),
            out@ == head + enc_obj_recs_body(ov.take(i2 as int)),
            obj_recs_ok(ov.take(i2 as int)),
        decreases no - i2,
    {
        let rb = encode_obj_record(&objs[i2]);
        let mut k: usize = 0;
        let m = rb.len();
        while k < m
            invariant
                0 <= k <= m,
                m == rb@.len(),
                out@ == head + enc_obj_recs_body(ov.take(i2 as int)) + rb@.take(k as int),
            decreases m - k,
        {
            out.push(rb[k]);
            proof {
                assert(rb@.take(k + 1) =~= rb@.take(k as int).push(rb@[k as int]));
                assert(out@ =~= head + enc_obj_recs_body(ov.take(i2 as int)) + rb@.take(k + 1));
            }
            k = k + 1;
        }
        proof {
            assert(rb@.take(m as int) =~= rb@);
            assert(ov.take(i2 + 1) =~= ov.take(i2 as int).push(ov[i2 as int]));
            lemma_enc_obj_recs_snoc(ov.take(i2 as int), ov[i2 as int]);
            assert(out@ =~= head + enc_obj_recs_body(ov.take(i2 + 1)));
        }
        i2 = i2 + 1;
    }
    proof {
        assert(ov.take(no as int) =~= ov);
        assert(out@ =~= enc_export(lv, ov));
    }
    out
}

/// A list of log records with its count first.
pub open spec fn enc_log_recs(s: Seq<LogRecV>) -> Seq<u8> {
    enc_u64(s.len() as u64) + enc_log_recs_body(s)
}

/// A list of object records with its count first.
pub open spec fn enc_obj_recs(s: Seq<ObjRecV>) -> Seq<u8> {
    enc_u64(s.len() as u64) + enc_obj_recs_body(s)
}


proof fn lemma_log_list_elem(b: Seq<u8>, pos: int, i: int, cnt: u64)
    requires
        0 <= pos <= b.len(),
        0 <= i < cnt,
        forall|v: Seq<LogRecV>, rest: Seq<u8>|
            list_ok(v) && log_recs_ok(v) && b == enc_log_recs(v) + rest ==> v.len() == cnt
                && pos == 8 + enc_log_recs_body(v.take(i)).len(),
    ensures
        forall|v: Seq<LogRecV>, rest: Seq<u8>|
            list_ok(v) && log_recs_ok(v) && b == enc_log_recs(v) + rest ==> log_record_ok(v[i])
                && b.skip(pos) == enc_log_record(v[i]) + (enc_log_recs_body(v.skip(i + 1)) + rest),
{
    assert forall|v: Seq<LogRecV>, rest: Seq<u8>|
        list_ok(v) && log_recs_ok(v) && b == enc_log_recs(v) + rest implies log_record_ok(v[i])
        && b.skip(pos) == enc_log_record(v[i]) + (enc_log_recs_body(v.skip(i + 1)) + rest) by {
        lemma_enc_log_recs_split(v, i);
        assert(v.skip(i)[0] == v[i]);
        assert(v.skip(i).drop_first() =~= v.skip(i + 1));
        assert(enc_log_recs_body(v.skip(i)) == enc_log_record(v[i]) + enc_log_recs_body(
            v.skip(i + 1),
        ));
        assert(log_recs_ok(v.skip(i)));
        assert(b =~= (enc_u64(cnt) + enc_log_recs_body(v.take(i))) + (enc_log_recs_body(v.skip(i))
            + rest));
        assert(b.skip(pos) =~= enc_log_recs_body(v.skip(i)) + rest);
        assert(enc_log_recs_body(v.skip(i)) + rest =~= enc_log_record(v[i]) + (enc_log_recs_body(
            v.skip(i + 1),
        ) + rest));
    }
}

proof fn lemma_log_list_advance(b: Seq<u8>, pos: int, i: int, cnt: u64, rv: LogRecV, n: int)
    requires
        0 <= pos,
        0 <= i < cnt,
        0 <= n,
        forall|v: Seq<LogRecV>, rest: Seq<u8>|
            list_ok(v) && log_recs_ok(v) && b == enc_log_recs(v) + rest ==> v.len() == cnt
                && pos == 8 + enc_log_recs_body(v.take(i)).len() && rv == v[i] && n
                == enc_log_record(v[i]).len(),
    ensures
        forall|v: Seq<LogRecV>, rest: Seq<u8>|
            list_ok(v) && log_recs_ok(v) && b == enc_log_recs(v) + rest ==> v.take(i + 1)
                == v.take(i).push(rv) && pos + n == 8 + enc_log_recs_body(v.take(i + 1)).len(),
{
    assert forall|v: Seq<LogRecV>, rest: Seq<u8>|
        list_ok(v) && log_recs_ok(v) && b == enc_log_recs(v) + rest implies v.take(i + 1)
        == v.take(i).push(rv) && pos + n == 8 + enc_log_recs_body(v.take(i + 1)).len() by {
        assert(v.take(i + 1) =~= v.take(i).push(v[i]));
        lemma_enc_log_recs_snoc(v.take(i), v[i]);
    }
}

#[verifier::rlimit(100)]
fn d_log_list(b: &[u8]) -> (r: Option<(Vec<LogRecord>, usize)>)
    ensures
        r matches Some(p) ==> p.1 <= b@.len() && b@.take(p.1 as int) == enc_log_recs(
            log_recs_view(p.0@),
        ) && list_ok(log_recs_view(p.0@)) && log_recs_ok(log_recs_view(p.0@)),
        forall|v: Seq<LogRecV>, rest: Seq<u8>|
            list_ok(v) && log_recs_ok(v) && b@ == enc_log_recs(v) + rest ==> (r matches Some(p)
                && log_recs_view(p.0@) == v && p.1 as int == enc_log_recs(v).len()),
{
    let blen = b.len();
    proof {
        assert forall|v: Seq<LogRecV>, rest: Seq<u8>|
            list_ok(v) && log_recs_ok(v) && b@ == enc_log_recs(v) + rest implies b@ == enc_u64(
            v.len() as u64,
        ) + (enc_log_recs_body(v) + rest) by {
            assert(b@ =~= enc_u64(v.len() as u64) + (enc_log_recs_body(v) + rest));
        }
    }
    let (cnt, _) = match d_u64(b) {
        None => {
            return None;
        },
        Some(p) => p,
    };
    let mut out: Vec<LogRecord> = Vec::new();
    let mut pos: usize = 8;
    let mut i: u64 = 0;
    proof {
        assert(log_recs_view(out@) =~= Seq::<LogRecV>::empty());
    }
    while i < cnt
        invariant
            blen == b@.len(),
            8 <= pos <= blen,
            i <= cnt,
            out@.len() == i,
            b@.take(pos as int) == enc_u64(cnt) + enc_log_recs_body(log_recs_view(out@)),
            log_recs_ok(log_recs_view(out@)),
            forall|v: Seq<LogRecV>, rest: Seq<u8>|
                list_ok(v) && log_recs_ok(v) && b@ == enc_log_recs(v) + rest ==> v.len() == cnt
                    && log_recs_view(out@) == v.take(i as int) && pos as int == 8
                    + enc_log_recs_body(v.take(i as int)).len(),
        decreases cnt - i,
    {
        let tl = &b[pos..blen];
        proof {
            assert(tl@ == b@.skip(pos as int));
            lemma_log_list_elem(b@, pos as int, i as int, cnt);
        }
        match decode_log_record(tl) {
            None => {
                return None;
            },
            Some((rec, n)) => {
                let ghost pre = out@;
                let ghost rv = rec@;
                out.push(rec);
                proof {
                    assert(out@ == pre.push(out@[i as int]));
                    assert(log_recs_view(out@) =~= log_recs_view(pre).push(rv));
                    lemma_enc_log_recs_snoc(log_recs_view(pre), rv);
                    assert(b@.take(pos as int + n as int) =~= b@.take(pos as int) + tl@.take(
                        n as int,
                    ));
                    lemma_log_list_advance(b@, pos as int, i as int, cnt, rv, n as int);
                    assert(forall|v: Seq<LogRecV>, rest: Seq<u8>|
                        list_ok(v) && log_recs_ok(v) && b@ == enc_log_recs(v) + rest
                            ==> log_recs_view(out@) == v.take(i as int + 1));
                }
                pos = pos + n;
                i = i + 1;
            },
        }
    }
    proof {
        assert(b@.take(pos as int) =~= enc_log_recs(log_recs_view(out@)));
        assert forall|v: Seq<LogRecV>, rest: Seq<u8>|
            list_ok(v) && log_recs_ok(v) && b@ == enc_log_recs(v) + rest implies log_recs_view(out@)
            == v && pos as int == enc_log_recs(v).len() by {
            assert(v.take(i as int) =~= v);
        }
    }
    Some((out, pos))
}

#[verifier::rlimit(100)]

#[verifier::spinoff_prover]
proof fn lemma_obj_list_elem(b: Seq<u8>, pos: int, i: int, cnt: u64)
    requires
        0 <= pos <= b.len(),
        0 <= i < cnt,
        forall|v: Seq<ObjRecV>, rest: Seq<u8>|
            list_ok(v) && obj_recs_ok(v) && b == enc_obj_recs(v) + rest ==> v.len() == cnt
                && pos == 8 + enc_obj_recs_body(v.take(i)).len(),
    ensures
        forall|v: Seq<ObjRecV>, rest: Seq<u8>|
            list_ok(v) && obj_recs_ok(v) && b == enc_obj_recs(v) + rest ==> obj_record_ok(v[i])
                && b.skip(pos) == enc_obj_record(v[i]) + (enc_obj_recs_body(v.skip(i + 1)) + rest),
{
    assert forall|v: Seq<ObjRecV>, rest: Seq<u8>|
        list_ok(v) && obj_recs_ok(v) && b == enc_obj_recs(v) + rest implies obj_record_ok(v[i])
        && b.skip(pos) == enc_obj_record(v[i]) + (enc_obj_recs_body(v.skip(i + 1)) + rest) by {
        lemma_enc_obj_recs_split(v, i);
        assert(v.skip(i)[0] == v[i]);
        assert(v.skip(i).drop_first() =~= v.skip(i + 1));
        assert(enc_obj_recs_body(v.skip(i)) == enc_obj_record(v[i]) + enc_obj_recs_body(
            v.skip(i + 1),
        ));
        assert(obj_recs_ok(v.skip(i)));
        assert(b =~= (enc_u64(cnt) + enc_obj_recs_body(v.take(i))) + (enc_obj_recs_body(v.skip(i))
            + rest));
        assert(b.skip(pos) =~= enc_obj_recs_body(v.skip(i)) + rest);
        assert(enc_obj_recs_body(v.skip(i)) + rest =~= enc_obj_record(v[i]) + (enc_obj_recs_body(
            v.skip(i + 1),
        ) + rest));
    }
}

proof fn lemma_obj_list_advance(b: Seq<u8>, pos: int, i: int, cnt: u64, rv: ObjRecV, n: int)
    requires
        0 <= pos,
        0 <= i < cnt,
        0 <= n,
        forall|v: Seq<ObjRecV>, rest: Seq<u8>|
            list_ok(v) && obj_recs_ok(v) && b == enc_obj_recs(v) + rest ==> v.len() == cnt
                && pos == 8 + enc_obj_recs_body(v.take(i)).len() && rv == v[i] && n
                == enc_obj_record(v[i]).len(),
    ensures
        forall|v: Seq<ObjRecV>, rest: Seq<u8>|
            list_ok(v) && obj_recs_ok(v) && b == enc_obj_recs(v) + rest ==> v.take(i + 1)
                == v.take(i).push(rv) && pos + n == 8 + enc_obj_recs_body(v.take(i + 1)).len(),
{
    assert forall|v: Seq<ObjRecV>, rest: Seq<u8>|
        list_ok(v) && obj_recs_ok(v) && b == enc_obj_recs(v) + rest implies v.take(i + 1)
        == v.take(i).push(rv) && pos + n == 8 + enc_obj_recs_body(v.take(i + 1)).len() by {
        assert(v.take(i + 1) =~= v.take(i).push(v[i]));
        lemma_enc_obj_recs_snoc(v.take(i), v[i]);
    }
}

fn d_obj_list(b: &[u8]) -> (r: Option<(Vec<ObjRecord>, usize)>)
    ensures
        r matches Some(p) ==> p.1 <= b@.len() && b@.take(p.1 as int) == enc_obj_recs(
            obj_recs_view(p.0@),
        ) && list_ok(obj_recs_view(p.0@)) && obj_recs_ok(obj_recs_view(p.0@)),
        forall|v: Seq<ObjRecV>, rest: Seq<u8>|
            list_ok(v) && obj_recs_ok(v) && b@ == enc_obj_recs(v) + rest ==> (r matches Some(p)
                && obj_recs_view(p.0@) == v && p.1 as int == enc_obj_recs(v).len()),
{
    let blen = b.len();
    proof {
        assert forall|v: Seq<ObjRecV>, rest: Seq<u8>|
            list_ok(v) && obj_recs_ok(v) && b@ == enc_obj_recs(v) + rest implies b@ == enc_u64(
            v.len() as u64,
        ) + (enc_obj_recs_body(v) + rest) by {
            assert(b@ =~= enc_u64(v.len() as u64) + (enc_obj_recs_body(v) + rest));
        }
    }
    let (cnt, _) = match d_u64(b) {
        None => {
            return None;
        },
        Some(p) => p,
    };
    let mut out: Vec<ObjRecord> = Vec::new();
    let mut pos: usize = 8;
    let mut i: u64 = 0;
    proof {
        assert(obj_recs_view(out@) =~= Seq::<ObjRecV>::empty());
    }
    while i < cnt
        invariant
            blen == b@.len(),
            8 <= pos <= blen,
            i <= cnt,
            out@.len() == i,
            b@.take(pos as int) == enc_u64(cnt) + enc_obj_recs_body(obj_recs_view(out@)),
            obj_recs_ok(obj_recs_view(out@)),
            forall|v: Seq<ObjRecV>, rest: Seq<u8>|
                list_ok(v) && obj_recs_ok(v) && b@ == enc_obj_recs(v) + rest ==> v.len() == cnt
                    && obj_recs_view(out@) == v.take(i as int) && pos as int == 8
                    + enc_obj_recs_body(v.take(i as int)).len(),
        decreases cnt - i,
    {
        let tl = &b[pos..blen];
        proof {
            assert(tl@ == b@.skip(pos as int));
            lemma_obj_list_elem(b@, pos as int, i as int, cnt);
        }
        match decode_obj_record(tl) {
            None => {
                return None;
            },
            Some((rec, n)) => {
                let ghost pre = out@;
                let ghost rv = rec@;
                out.push(rec);
                proof {
                    assert(out@ == pre.push(out@[i as int]));
                    assert(obj_recs_view(out@) =~= obj_recs_view(pre).push(rv));
                    lemma_enc_obj_recs_snoc(obj_recs_view(pre), rv);
                    assert(b@.take(pos as int + n as int) =~= b@.take(pos as int) + tl@.take(
                        n as int,
                    ));
                    lemma_obj_list_advance(b@, pos as int, i as int, cnt, rv, n as int);
                    assert(forall|v: Seq<ObjRecV>, rest: Seq<u8>|
                        list_ok(v) && obj_recs_ok(v) && b@ == enc_obj_recs(v) + rest
                            ==> obj_recs_view(out@) == v.take(i as int + 1));
                }
                pos = pos + n;
                i = i + 1;
            },
        }
    }
    proof {
        assert(b@.take(pos as int) =~= enc_obj_recs(obj_recs_view(out@)));
        assert forall|v: Seq<ObjRecV>, rest: Seq<u8>|
            list_ok(v) && obj_recs_ok(v) && b@ == enc_obj_recs(v) + rest implies obj_recs_view(out@)
            == v && pos as int == enc_obj_recs(v).len() by {
            assert(v.take(i as int) =~= v);
        }
    }
    Some((out, pos))
}

/// Decode a whole store: the log records, then the object records.
#[verifier::rlimit(100)]
pub fn decode_export(b: &[u8]) -> (r: Option<(Vec<LogRecord>, Vec<ObjRecord>, usize)>)
    ensures
        r matches Some(p) ==> p.2 <= b@.len() && b@.take(p.2 as int) == enc_export(
            log_recs_view(p.0@),
            obj_recs_view(p.1@),
        ) && export_ok(log_recs_view(p.0@), obj_recs_view(p.1@)),
        forall|lv: Seq<LogRecV>, ov: Seq<ObjRecV>, rest: Seq<u8>|
            export_ok(lv, ov) && b@ == enc_export(lv, ov) + rest ==> (r matches Some(p)
                && log_recs_view(p.0@) == lv && obj_recs_view(p.1@) == ov && p.2 as int
                == enc_export(lv, ov).len()),
{
    let blen = b.len();
    proof {
        assert forall|lv: Seq<LogRecV>, ov: Seq<ObjRecV>, rest: Seq<u8>|
            export_ok(lv, ov) && b@ == enc_export(lv, ov) + rest implies b@ == enc_log_recs(lv) + (
        enc_obj_recs(ov) + rest) by {
            assert(b@ =~= enc_log_recs(lv) + (enc_obj_recs(ov) + rest));
        }
    }
    let (logs, n1) = match d_log_list(b) {
        None => {
            return None;
        },
        Some(p) => p,
    };
    let t2 = &b[n1..blen];
    proof {
        assert(t2@ == b@.skip(n1 as int));
        assert forall|lv: Seq<LogRecV>, ov: Seq<ObjRecV>, rest: Seq<u8>|
            export_ok(lv, ov) && b@ == enc_export(lv, ov) + rest implies log_recs_view(logs@) == lv
            && t2@ == enc_obj_recs(ov) + rest by {
            assert(b@.skip(n1 as int) =~= enc_obj_recs(ov) + rest);
        }
    }
    let (objs, n2) = match d_obj_list(t2) {
        None => {
            return None;
        },
        Some(p) => p,
    };
    let n = n1 + n2;
    proof {
        assert(b@.take(n as int) =~= b@.take(n1 as int) + t2@.take(n2 as int));
        assert(b@.take(n as int) =~= enc_export(log_recs_view(logs@), obj_recs_view(objs@)));
        assert forall|lv: Seq<LogRecV>, ov: Seq<ObjRecV>, rest: Seq<u8>|
            export_ok(lv, ov) && b@ == enc_export(lv, ov) + rest implies obj_recs_view(objs@) == ov
            && n as int == enc_export(lv, ov).len() by {}
    }
    Some((logs, objs, n))
}

} // verus!
