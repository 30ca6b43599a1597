//! Deterministic, self-describing binary codec.
//!
//! Values are encoded in canonical CBOR: every length and integer uses the
//! shortest possible header, map entries are sorted strictly ascending by the
//! byte encoding of their keys, and no indefinite-length or floating-point
//! items exist.  The decoder accepts only canonical encodings: a byte string
//! it accepts is exactly the canonical encoding of the decoded value
//! ([`lemma_decode_canonical`]), so every byte string has at most one
//! reading.

use vstd::prelude::*;
use vstd::utf8::{decode_utf8, encode_utf8, valid_utf8};

verus! {

broadcast use {vstd::std_specs::vec::group_vec_axioms, vstd::seq::group_seq_axioms};

/// A structured value as carried on the wire.
#[derive(Debug)]
pub enum Value {
    /// Unsigned integer.
    Unsigned(u64),
    /// Negative integer; `Negative(n)` stands for `-1 - n`.
    Negative(u64),
    /// Byte string.
    Bytes(Vec<u8>),
    /// Text string (UTF-8).
    Text(String),
    /// Array of values.
    Array(Vec<Value>),
    /// Map of key/value pairs; canonical form keeps keys strictly ascending
    /// in the byte order of their encodings.
    Mapping(Vec<(Value, Value)>),
    /// Boolean.
    Bool(bool),
    /// Null.
    Null,
}

/// The mathematical model of a [`Value`].
#[verifier::ext_equal]
pub enum ValueView {
    Unsigned(u64),
    Negative(u64),
    Bytes(Seq<u8>),
    Text(Seq<char>),
    Array(Seq<ValueView>),
    Mapping(Seq<(ValueView, ValueView)>),
    Bool(bool),
    Null,
}

pub open spec fn value_view(v: Value) -> ValueView
    decreases v, 1int, 0int,
        via value_view_decreases
{
    match v {
        Value::Unsigned(n) => ValueView::Unsigned(n),
        Value::Negative(n) => ValueView::Negative(n),
        Value::Bytes(b) => ValueView::Bytes(b@),
        Value::Text(s) => ValueView::Text(s@),
        Value::Array(vs) => ValueView::Array(value_views(vs@)),
        Value::Mapping(es) => ValueView::Mapping(entry_views(es@)),
        Value::Bool(b) => ValueView::Bool(b),
        Value::Null => ValueView::Null,
    }
}

#[via_fn]
proof fn value_view_decreases(v: Value) {
    match v {
        Value::Array(vs) => {
            assert(decreases_to!(v => vs));
            assert(decreases_to!(vs => vs@));
        },
        Value::Mapping(es) => {
            assert(decreases_to!(v => es));
            assert(decreases_to!(es => es@));
        },
        _ => {},
    }
}

pub open spec fn value_views(vs: Seq<Value>) -> Seq<ValueView>
    decreases vs, 0int, vs.len(),
{
    if vs.len() == 0 {
        Seq::empty()
    } else {
        seq![value_view(vs[0])] + value_views(vs.drop_first())
    }
}

pub open spec fn entry_views(es: Seq<(Value, Value)>) -> Seq<(ValueView, ValueView)>
    decreases es, 0int, es.len(),
{
    if es.len() == 0 {
        Seq::empty()
    } else {
        seq![(value_view(es[0].0), value_view(es[0].1))] + entry_views(es.drop_first())
    }
}

pub proof fn lemma_value_views_is_map(vs: Seq<Value>)
    ensures
        value_views(vs) =~= vs.map_values(|v: Value| value_view(v)),
    decreases vs.len(),
{
    if vs.len() > 0 {
        lemma_value_views_is_map(vs.drop_first());
    }
}

pub proof fn lemma_entry_views_is_map(es: Seq<(Value, Value)>)
    ensures
        entry_views(es) =~= es.map_values(|e: (Value, Value)| (value_view(e.0), value_view(e.1))),
    decreases es.len(),
{
    if es.len() > 0 {
        lemma_entry_views_is_map(es.drop_first());
    }
}

impl View for Value {
    type V = ValueView;

    open spec fn view(&self) -> ValueView {
        value_view(*self)
    }
}

/// The canonical header for an item of major type `major` carrying the
/// length or integer argument `arg`: the shortest of the five forms.
pub open spec fn header_spec(major: u8, arg: u64) -> Seq<u8> {
    if arg < 24 {
        seq![(major * 32 + arg) as u8]
    } else if arg < 256 {
        seq![(major * 32 + 24) as u8, arg as u8]
    } else if arg < 65536 {
        seq![(major * 32 + 25) as u8, (arg / 256) as u8, (arg % 256) as u8]
    } else if arg < 4294967296 {
        seq![
            (major * 32 + 26) as u8,
            (arg / 16777216) as u8,
            ((arg / 65536) % 256) as u8,
            ((arg / 256) % 256) as u8,
            (arg % 256) as u8,
        ]
    } else {
        seq![
            (major * 32 + 27) as u8,
            (arg / 72057594037927936) as u8,
            ((arg / 281474976710656) % 256) as u8,
            ((arg / 1099511627776) % 256) as u8,
            ((arg / 4294967296) % 256) as u8,
            ((arg / 16777216) % 256) as u8,
            ((arg / 65536) % 256) as u8,
            ((arg / 256) % 256) as u8,
            (arg % 256) as u8,
        ]
    }
}

/// The canonical encoding of a value.
pub open spec fn encode_spec(v: ValueView) -> Seq<u8>
    decreases v, 1int, 0int,
{
    match v {
        ValueView::Unsigned(n) => header_spec(0, n),
        ValueView::Negative(n) => header_spec(1, n),
        ValueView::Bytes(b) => header_spec(2, b.len() as u64) + b,
        ValueView::Text(s) => header_spec(3, encode_utf8(s).len() as u64) + encode_utf8(s),
        ValueView::Array(vs) => header_spec(4, vs.len() as u64) + encode_list_spec(vs),
        ValueView::Mapping(es) => header_spec(5, es.len() as u64) + encode_pairs_spec(es),
        ValueView::Bool(b) => if b { seq![245u8] } else { seq![244u8] },
        ValueView::Null => seq![246u8],
    }
}

pub open spec fn encode_list_spec(vs: Seq<ValueView>) -> Seq<u8>
    decreases vs, 0int, vs.len(),
{
    if vs.len() == 0 {
        Seq::empty()
    } else {
        encode_spec(vs[0]) + encode_list_spec(vs.drop_first())
    }
}

pub open spec fn encode_pairs_spec(es: Seq<(ValueView, ValueView)>) -> Seq<u8>
    decreases es, 0int, es.len(),
{
    if es.len() == 0 {
        Seq::empty()
    } else {
        encode_spec(es[0].0) + encode_spec(es[0].1) + encode_pairs_spec(es.drop_first())
    }
}

/// Appends the canonical header for (`major`, `arg`) to `out`.
fn push_header(major: u8, arg: u64, out: &mut Vec<u8>)
    requires
        major <= 5,
    ensures
        final(out)@ == old(out)@ + header_spec(major, arg),
{
    if arg < 24 {
        out.push((major * 32) + (arg as u8));
    } else if arg < 256 {
        out.push(major * 32 + 24);
        out.push(arg as u8);
    } else if arg < 65536 {
        out.push(major * 32 + 25);
        out.push((arg / 256) as u8);
        out.push((arg % 256) as u8);
    } else if arg < 4294967296 {
        out.push(major * 32 + 26);
        out.push((arg / 16777216) as u8);
        out.push(((arg / 65536) % 256) as u8);
        out.push(((arg / 256) % 256) as u8);
        out.push((arg % 256) as u8);
    } else {
        out.push(major * 32 + 27);
        out.push((arg / 72057594037927936) as u8);
        out.push(((arg / 281474976710656) % 256) as u8);
        out.push(((arg / 1099511627776) % 256) as u8);
        out.push(((arg / 4294967296) % 256) as u8);
        out.push(((arg / 16777216) % 256) as u8);
        out.push(((arg / 65536) % 256) as u8);
        out.push(((arg / 256) % 256) as u8);
        out.push((arg % 256) as u8);
    }
    proof {
        assert(out@ =~= old(out)@ + header_spec(major, arg));
    }
}

proof fn lemma_encode_list_split(vs: Seq<ValueView>, i: int)
    requires
        0 <= i < vs.len(),
    ensures
        encode_list_spec(vs.take(i + 1)) == encode_list_spec(vs.take(i)) + encode_spec(vs[i]),
    decreases i,
{
    if i == 0 {
        assert(vs.take(1).drop_first() =~= Seq::<ValueView>::empty());
        assert(vs.take(1)[0] == vs[0]);
        assert(vs.take(0) =~= Seq::<ValueView>::empty());
        assert(encode_list_spec(Seq::<ValueView>::empty()) == Seq::<u8>::empty());
        assert(encode_list_spec(vs.take(1)) == encode_spec(vs[0]) + Seq::<u8>::empty());
        assert(encode_spec(vs[0]) + Seq::<u8>::empty() =~= encode_spec(vs[0]));
        assert(Seq::<u8>::empty() + encode_spec(vs[0]) =~= encode_spec(vs[0]));
    } else {
        lemma_encode_list_split(vs.drop_first(), i - 1);
        assert(vs.take(i + 1).drop_first() =~= vs.drop_first().take(i));
        assert(vs.take(i).drop_first() =~= vs.drop_first().take(i - 1));
        assert(vs.take(i + 1)[0] == vs[0]);
        assert(vs.take(i)[0] == vs[0]);
        assert(vs.drop_first()[i - 1] == vs[i]);
        assert(encode_list_spec(vs.take(i + 1)) == encode_spec(vs[0]) + encode_list_spec(
            vs.drop_first().take(i),
        ));
        assert(encode_list_spec(vs.take(i)) == encode_spec(vs[0]) + encode_list_spec(
            vs.drop_first().take(i - 1),
        ));
    }
}

proof fn lemma_encode_pairs_split(es: Seq<(ValueView, ValueView)>, i: int)
    requires
        0 <= i < es.len(),
    ensures
        encode_pairs_spec(es.take(i + 1)) == encode_pairs_spec(es.take(i)) + encode_spec(es[i].0)
            + encode_spec(es[i].1),
    decreases i,
{
    if i == 0 {
        assert(es.take(1).drop_first() =~= Seq::<(ValueView, ValueView)>::empty());
        assert(es.take(1)[0] == es[0]);
        assert(es.take(0) =~= Seq::<(ValueView, ValueView)>::empty());
        assert(encode_pairs_spec(Seq::<(ValueView, ValueView)>::empty()) == Seq::<u8>::empty());
        assert(encode_pairs_spec(es.take(1)) == encode_spec(es[0].0) + encode_spec(es[0].1)
            + Seq::<u8>::empty());
        assert(encode_spec(es[0].0) + encode_spec(es[0].1) + Seq::<u8>::empty() =~= encode_spec(
            es[0].0,
        ) + encode_spec(es[0].1));
        assert(Seq::<u8>::empty() + (encode_spec(es[0].0) + encode_spec(es[0].1)) =~= encode_spec(
            es[0].0,
        ) + encode_spec(es[0].1));
    } else {
        lemma_encode_pairs_split(es.drop_first(), i - 1);
        assert(es.take(i + 1).drop_first() =~= es.drop_first().take(i));
        assert(es.take(i).drop_first() =~= es.drop_first().take(i - 1));
        assert(es.take(i + 1)[0] == es[0]);
        assert(es.take(i)[0] == es[0]);
        assert(es.drop_first()[i - 1] == es[i]);
        assert(encode_pairs_spec(es.take(i + 1)) == encode_spec(es[0].0) + encode_spec(es[0].1)
            + encode_pairs_spec(es.drop_first().take(i)));
        assert(encode_pairs_spec(es.take(i)) == encode_spec(es[0].0) + encode_spec(es[0].1)
            + encode_pairs_spec(es.drop_first().take(i - 1)));
    }
}

/// Appends the canonical encoding of `v` to `out`.
fn encode_into(v: &Value, out: &mut Vec<u8>)
    ensures
        final(out)@ == old(out)@ + encode_spec(v@),
    decreases *v,
{
    match v {
        Value::Unsigned(n) => push_header(0, *n, out),
        Value::Negative(n) => push_header(1, *n, out),
        Value::Bytes(b) => {
            push_header(2, b.len() as u64, out);
            let mut i: usize = 0;
            while i < b.len()
                invariant
                    i <= b.len(),
                    out@ == old(out)@ + header_spec(2, b@.len() as u64) + b@.take(i as int),
                decreases b.len() - i,
            {
                out.push(b[i]);
                proof {
                    assert(b@.take(i + 1) =~= b@.take(i as int) + seq![b@[i as int]]);
                    assert(out@ =~= old(out)@ + header_spec(2, b@.len() as u64) + b@.take(i + 1));
                }
                i = i + 1;
            }
            proof {
                assert(b@.take(b@.len() as int) =~= b@);
            }
        },
        Value::Text(s) => {
            let bytes: &[u8] = s.as_str().as_bytes();
            push_header(3, bytes.len() as u64, out);
            let mut i: usize = 0;
            while i < bytes.len()
                invariant
                    i <= bytes.len(),
                    bytes@ == encode_utf8(s@),
                    out@ == old(out)@ + header_spec(3, bytes@.len() as u64) + bytes@.take(i as int),
                decreases bytes.len() - i,
            {
                out.push(bytes[i]);
                proof {
                    assert(bytes@.take(i + 1) =~= bytes@.take(i as int) + seq![bytes@[i as int]]);
                    assert(out@ =~= old(out)@ + header_spec(3, bytes@.len() as u64) + bytes@.take(
                        i + 1,
                    ));
                }
                i = i + 1;
            }
            proof {
                assert(bytes@.take(bytes@.len() as int) =~= bytes@);
            }
        },
        Value::Array(vs) => {
            push_header(4, vs.len() as u64, out);
            let ghost views = Seq::new(vs@.len(), |i: int| value_view(vs@[i]));
            let mut i: usize = 0;
            while i < vs.len()
                invariant
                    *v == Value::Array(*vs),
                    i <= vs.len(),
                    views == Seq::new(vs@.len(), |j: int| value_view(vs@[j])),
                    out@ == old(out)@ + header_spec(4, vs@.len() as u64) + encode_list_spec(
                        views.take(i as int),
                    ),
                decreases vs.len() - i,
            {
                proof {
                    let gv = *v;
                    assert(decreases_to!(gv => gv->Array_0));
                    assert(gv->Array_0 == *vs);
                    assert(decreases_to!(*vs => vs@));
                    assert(decreases_to!(vs@ => vs@[i as int]));
                }
                encode_into(&vs[i], out);
                proof {
                    lemma_encode_list_split(views, i as int);
                }
                i = i + 1;
            }
            proof {
                assert(views.take(views.len() as int) =~= views);
                lemma_value_views_is_map(vs@);
                assert(views =~= value_views(vs@));
            }
        },
        Value::Mapping(es) => {
            push_header(5, es.len() as u64, out);
            let ghost views = Seq::new(
                es@.len(),
                |i: int| (value_view(es@[i].0), value_view(es@[i].1)),
            );
            let mut i: usize = 0;
            while i < es.len()
                invariant
                    *v == Value::Mapping(*es),
                    i <= es.len(),
                    views == Seq::new(es@.len(), |j: int| (value_view(es@[j].0), value_view(es@[j].1))),
                    out@ == old(out)@ + header_spec(5, es@.len() as u64) + encode_pairs_spec(
                        views.take(i as int),
                    ),
                decreases es.len() - i,
            {
                proof {
                    let gv = *v;
                    assert(decreases_to!(gv => gv->Mapping_0));
                    assert(gv->Mapping_0 == *es);
                    assert(decreases_to!(*es => es@));
                    assert(decreases_to!(es@ => es@[i as int]));
                    assert(decreases_to!(es@[i as int] => es@[i as int].0));
                    assert(decreases_to!(es@[i as int] => es@[i as int].1));
                }
                encode_into(&es[i].0, out);
                encode_into(&es[i].1, out);
                proof {
                    lemma_encode_pairs_split(views, i as int);
                }
                i = i + 1;
            }
            proof {
                assert(views.take(views.len() as int) =~= views);
                lemma_entry_views_is_map(es@);
                assert(views =~= entry_views(es@));
            }
        },
        Value::Bool(b) => {
            if *b {
                out.push(245);
            } else {
                out.push(244);
            }
            proof {
                assert(out@ =~= old(out)@ + encode_spec(v@));
            }
        },
        Value::Null => {
            out.push(246);
            proof {
                assert(out@ =~= old(out)@ + encode_spec(v@));
            }
        },
    }
}

/// Encodes `v` canonically.  The result is a pure function of the value, so
/// encoding the same value twice yields byte-identical output.
pub fn encode(v: &Value) -> (r: Vec<u8>)
    ensures
        r@ == encode_spec(v@),
{
    let mut out: Vec<u8> = Vec::new();
    encode_into(v, &mut out);
    out
}

/// Determinism of the codec: the encoding is a function of the value alone,
/// so encoding the same logical value twice yields byte-identical output.
pub proof fn lemma_encode_deterministic(a: Value, b: Value)
    requires
        a@ == b@,
    ensures
        encode_spec(a@) == encode_spec(b@),
{
}

/// Decoding failed: the input is not the canonical encoding of any value.
#[derive(Clone, Copy, Debug, PartialEq, Eq, Structural)]
pub struct DecodeError;

/// Decodes the single value canonically encoded by `bytes`, rejecting
/// anything else.
pub fn decode(bytes: &[u8]) -> (r: Result<Value, DecodeError>)
    ensures
        match r {
            Ok(v) => decode_spec(bytes@) == Some(v@),
            Err(_) => decode_spec(bytes@) is None,
        },
{
    match decode_value(bytes, 0, MAX_NESTING) {
        Ok((v, end)) => {
            if end == bytes.len() {
                Ok(v)
            } else {
                Err(DecodeError)
            }
        },
        Err(e) => Err(e),
    }
}

/// What [`decode`] returns: the value whose canonical encoding is exactly
/// `bytes`, if there is one within the nesting limit.
pub open spec fn decode_spec(bytes: Seq<u8>) -> Option<ValueView> {
    match decode_value_spec(bytes, 0, MAX_NESTING as int) {
        Some((v, end)) => if end == bytes.len() {
            Some(v)
        } else {
            None
        },
        None => None,
    }
}

/// Nesting limit for decoded containers; bounds recursion on adversarial
/// input.
pub const MAX_NESTING: u8 = 64;

/// Reads the canonical header at `pos`: `Some((major, argument, end))`, or
/// `None` if truncated or not minimally encoded.
pub open spec fn read_header_spec(b: Seq<u8>, pos: int) -> Option<(u8, u64, int)> {
    if pos < 0 || pos >= b.len() {
        None
    } else {
        let major = b[pos] / 32;
        let ai = b[pos] % 32;
        if ai < 24 {
            Some((major, ai as u64, pos + 1))
        } else if ai == 24 {
            if pos + 1 < b.len() && b[pos + 1] >= 24 {
                Some((major, b[pos + 1] as u64, pos + 2))
            } else {
                None
            }
        } else if ai == 25 {
            if pos + 2 < b.len() {
                let arg = ((b[pos + 1] as u64) * 256 + (b[pos + 2] as u64)) as u64;
                if arg >= 256 {
                    Some((major, arg, pos + 3))
                } else {
                    None
                }
            } else {
                None
            }
        } else if ai == 26 {
            if pos + 4 < b.len() {
                let arg = ((b[pos + 1] as u64) * 16777216 + (b[pos + 2] as u64) * 65536 + (b[pos
                    + 3] as u64) * 256 + (b[pos + 4] as u64)) as u64;
                if arg >= 65536 {
                    Some((major, arg, pos + 5))
                } else {
                    None
                }
            } else {
                None
            }
        } else if ai == 27 {
            if pos + 8 < b.len() {
                let arg = ((b[pos + 1] as u64) * 72057594037927936 + (b[pos + 2] as u64)
                    * 281474976710656 + (b[pos + 3] as u64) * 1099511627776 + (b[pos
                    + 4] as u64) * 4294967296 + (b[pos + 5] as u64) * 16777216 + (b[pos
                    + 6] as u64) * 65536 + (b[pos + 7] as u64) * 256 + (b[pos + 8] as u64)) as u64;
                if arg >= 4294967296 {
                    Some((major, arg, pos + 9))
                } else {
                    None
                }
            } else {
                None
            }
        } else {
            None
        }
    }
}

/// Reads the canonical header at `pos`.
fn read_header(b: &[u8], pos: usize) -> (r: Result<(u8, u64, usize), DecodeError>)
    ensures
        match r {
            Ok((major, arg, end)) => {
                &&& read_header_spec(b@, pos as int) == Some((major, arg, end as int))
                &&& pos < end <= b@.len()
                &&& major <= 7
            },
            Err(_) => read_header_spec(b@, pos as int) is None,
        },
{
    if pos >= b.len() {
        return Err(DecodeError);
    }
    let major = b[pos] / 32;
    let ai = b[pos] % 32;
    if ai < 24 {
        Ok((major, ai as u64, pos + 1))
    } else if ai == 24 {
        if b.len() - pos > 1 && b[pos + 1] >= 24 {
            Ok((major, b[pos + 1] as u64, pos + 2))
        } else {
            Err(DecodeError)
        }
    } else if ai == 25 {
        if b.len() - pos > 2 {
            let arg = (b[pos + 1] as u64) * 256 + (b[pos + 2] as u64);
            if arg >= 256 {
                Ok((major, arg, pos + 3))
            } else {
                Err(DecodeError)
            }
        } else {
            Err(DecodeError)
        }
    } else if ai == 26 {
        if b.len() - pos > 4 {
            let arg = (b[pos + 1] as u64) * 16777216 + (b[pos + 2] as u64) * 65536 + (b[pos
                + 3] as u64) * 256 + (b[pos + 4] as u64);
            if arg >= 65536 {
                Ok((major, arg, pos + 5))
            } else {
                Err(DecodeError)
            }
        } else {
            Err(DecodeError)
        }
    } else if ai == 27 {
        if b.len() - pos > 8 {
            let arg = (b[pos + 1] as u64) * 72057594037927936 + (b[pos + 2] as u64)
                * 281474976710656 + (b[pos + 3] as u64) * 1099511627776 + (b[pos + 4] as u64)
                * 4294967296 + (b[pos + 5] as u64) * 16777216 + (b[pos + 6] as u64) * 65536 + (
            b[pos + 7] as u64) * 256 + (b[pos + 8] as u64);
            if arg >= 4294967296 {
                Ok((major, arg, pos + 9))
            } else {
                Err(DecodeError)
            }
        } else {
            Err(DecodeError)
        }
    } else {
        Err(DecodeError)
    }
}

/// A header the reader accepts is exactly the canonical header for what it
/// read.
proof fn lemma_header_roundtrip(b: Seq<u8>, pos: int)
    requires
        read_header_spec(b, pos) is Some,
    ensures
        ({
            let (major, arg, end) = read_header_spec(b, pos)->Some_0;
            &&& 0 <= pos < end <= b.len()
            &&& major <= 7
            &&& b.subrange(pos, end) =~= header_spec(major, arg)
        }),
{
    let (major, arg, end) = read_header_spec(b, pos)->Some_0;
    let x = b[pos];
    let ai = x % 32;
    assert(x == 32 * (x / 32) + x % 32);
    if ai < 24 {
        assert(b.subrange(pos, end) =~= seq![b[pos]]);
    } else if ai == 24 {
        assert(b.subrange(pos, end) =~= seq![b[pos], b[pos + 1]]);
    } else if ai == 25 {
        let d1 = b[pos + 1] as int;
        let d2 = b[pos + 2] as int;
        let a = d1 * 256 + d2;
        assert(a / 256 == d1 && a % 256 == d2) by (nonlinear_arith)
            requires
                0 <= d1 < 256,
                0 <= d2 < 256,
                a == d1 * 256 + d2,
        ;
        assert(b.subrange(pos, end) =~= seq![b[pos], b[pos + 1], b[pos + 2]]);
        assert(header_spec(major, arg) =~= seq![b[pos], b[pos + 1], b[pos + 2]]);
    } else if ai == 26 {
        let d1 = b[pos + 1] as int;
        let d2 = b[pos + 2] as int;
        let d3 = b[pos + 3] as int;
        let d4 = b[pos + 4] as int;
        let a = d1 * 16777216 + d2 * 65536 + d3 * 256 + d4;
        assert(a / 16777216 == d1 && (a / 65536) % 256 == d2 && (a / 256) % 256 == d3 && a % 256
            == d4) by (nonlinear_arith)
            requires
                0 <= d1 < 256,
                0 <= d2 < 256,
                0 <= d3 < 256,
                0 <= d4 < 256,
                a == d1 * 16777216 + d2 * 65536 + d3 * 256 + d4,
        ;
        assert(b.subrange(pos, end) =~= seq![b[pos], b[pos + 1], b[pos + 2], b[pos + 3], b[pos + 4]]);
        assert(header_spec(major, arg) =~= seq![
            b[pos],
            b[pos + 1],
            b[pos + 2],
            b[pos + 3],
            b[pos + 4],
        ]);
    } else {
        let d1 = b[pos + 1] as int;
        let d2 = b[pos + 2] as int;
        let d3 = b[pos + 3] as int;
        let d4 = b[pos + 4] as int;
        let d5 = b[pos + 5] as int;
        let d6 = b[pos + 6] as int;
        let d7 = b[pos + 7] as int;
        let d8 = b[pos + 8] as int;
        let a = d1 * 72057594037927936 + d2 * 281474976710656 + d3 * 1099511627776 + d4
            * 4294967296 + d5 * 16777216 + d6 * 65536 + d7 * 256 + d8;
        let p1 = d1;
        let p2 = d1 * 256 + d2;
        let p3 = p2 * 256 + d3;
        let p4 = p3 * 256 + d4;
        let p5 = p4 * 256 + d5;
        let p6 = p5 * 256 + d6;
        let p7 = p6 * 256 + d7;
        assert(a == p7 * 256 + d8) by (nonlinear_arith)
            requires
                a == d1 * 72057594037927936 + d2 * 281474976710656 + d3 * 1099511627776 + d4
                    * 4294967296 + d5 * 16777216 + d6 * 65536 + d7 * 256 + d8,
                p2 == d1 * 256 + d2,
                p3 == p2 * 256 + d3,
                p4 == p3 * 256 + d4,
                p5 == p4 * 256 + d5,
                p6 == p5 * 256 + d6,
                p7 == p6 * 256 + d7,
        ;
        assert(a / 256 == p7 && a % 256 == d8) by (nonlinear_arith)
            requires
                a == p7 * 256 + d8,
                0 <= d8 < 256,
        ;
        assert(p7 / 256 == p6 && p7 % 256 == d7) by (nonlinear_arith)
            requires
                p7 == p6 * 256 + d7,
                0 <= d7 < 256,
        ;
        assert(p6 / 256 == p5 && p6 % 256 == d6) by (nonlinear_arith)
            requires
                p6 == p5 * 256 + d6,
                0 <= d6 < 256,
        ;
        assert(p5 / 256 == p4 && p5 % 256 == d5) by (nonlinear_arith)
            requires
                p5 == p4 * 256 + d5,
                0 <= d5 < 256,
        ;
        assert(p4 / 256 == p3 && p4 % 256 == d4) by (nonlinear_arith)
            requires
                p4 == p3 * 256 + d4,
                0 <= d4 < 256,
        ;
        assert(p3 / 256 == p2 && p3 % 256 == d3) by (nonlinear_arith)
            requires
                p3 == p2 * 256 + d3,
                0 <= d3 < 256,
        ;
        assert(p2 / 256 == p1 && p2 % 256 == d2) by (nonlinear_arith)
            requires
                p2 == p1 * 256 + d2,
                0 <= d2 < 256,
        ;
        assert(a / 65536 == p6) by (nonlinear_arith)
            requires
                a / 256 == p7,
                p7 / 256 == p6,
                a >= 0,
                p7 >= 0,
        ;
        assert(a / 16777216 == p5) by (nonlinear_arith)
            requires
                a / 65536 == p6,
                p6 / 256 == p5,
                a >= 0,
                p6 >= 0,
        ;
        assert(a / 4294967296 == p4) by (nonlinear_arith)
            requires
                a / 16777216 == p5,
                p5 / 256 == p4,
                a >= 0,
                p5 >= 0,
        ;
        assert(a / 1099511627776 == p3) by (nonlinear_arith)
            requires
                a / 4294967296 == p4,
                p4 / 256 == p3,
                a >= 0,
                p4 >= 0,
        ;
        assert(a / 281474976710656 == p2) by (nonlinear_arith)
            requires
                a / 1099511627776 == p3,
                p3 / 256 == p2,
                a >= 0,
                p3 >= 0,
        ;
        assert(a / 72057594037927936 == p1) by (nonlinear_arith)
            requires
                a / 281474976710656 == p2,
                p2 / 256 == p1,
                a >= 0,
                p2 >= 0,
        ;
        assert(b.subrange(pos, end) =~= seq![
            b[pos],
            b[pos + 1],
            b[pos + 2],
            b[pos + 3],
            b[pos + 4],
            b[pos + 5],
            b[pos + 6],
            b[pos + 7],
            b[pos + 8],
        ]);
        assert(header_spec(major, arg) =~= seq![
            b[pos],
            b[pos + 1],
            b[pos + 2],
            b[pos + 3],
            b[pos + 4],
            b[pos + 5],
            b[pos + 6],
            b[pos + 7],
            b[pos + 8],
        ]);
    }
}

/// Strict lexicographic byte order; a proper prefix sorts first.
pub open spec fn lex_lt(a: Seq<u8>, b: Seq<u8>) -> bool
    decreases a.len(),
{
    if b.len() == 0 {
        false
    } else if a.len() == 0 {
        true
    } else if a[0] < b[0] {
        true
    } else if a[0] > b[0] {
        false
    } else {
        lex_lt(a.drop_first(), b.drop_first())
    }
}

proof fn lemma_lex_lt_common_prefix(a: Seq<u8>, b: Seq<u8>, i: int)
    requires
        0 <= i <= a.len(),
        i <= b.len(),
        forall|j: int| 0 <= j < i ==> a[j] == b[j],
    ensures
        lex_lt(a, b) == lex_lt(a.skip(i), b.skip(i)),
    decreases i,
{
    if i > 0 {
        assert(a.len() > 0 && b.len() > 0);
        assert(a[0] == b[0]);
        lemma_lex_lt_common_prefix(a.drop_first(), b.drop_first(), i - 1);
        assert(a.drop_first().skip(i - 1) =~= a.skip(i));
        assert(b.drop_first().skip(i - 1) =~= b.skip(i));
    } else {
        assert(a.skip(0) =~= a);
        assert(b.skip(0) =~= b);
    }
}

/// Compares `b[xs..xe]` with `b[ys..ye]` in lexicographic byte order.
fn lex_lt_ranges(b: &[u8], xs: usize, xe: usize, ys: usize, ye: usize) -> (r: bool)
    requires
        xs <= xe <= b@.len(),
        ys <= ye <= b@.len(),
    ensures
        r == lex_lt(b@.subrange(xs as int, xe as int), b@.subrange(ys as int, ye as int)),
{
    let ghost x = b@.subrange(xs as int, xe as int);
    let ghost y = b@.subrange(ys as int, ye as int);
    let mut i: usize = 0;
    while xs + i < xe && ys + i < ye
        invariant
            xs <= xe <= b@.len(),
            ys <= ye <= b@.len(),
            i <= xe - xs,
            i <= ye - ys,
            x == b@.subrange(xs as int, xe as int),
            y == b@.subrange(ys as int, ye as int),
            forall|j: int| 0 <= j < i ==> x[j] == y[j],
        decreases xe - xs - i,
    {
        let cx = b[xs + i];
        let cy = b[ys + i];
        if cx < cy {
            proof {
                lemma_lex_lt_common_prefix(x, y, i as int);
                assert(x.skip(i as int)[0] == cx);
                assert(y.skip(i as int)[0] == cy);
            }
            return true;
        }
        if cx > cy {
            proof {
                lemma_lex_lt_common_prefix(x, y, i as int);
                assert(x.skip(i as int)[0] == cx);
                assert(y.skip(i as int)[0] == cy);
            }
            return false;
        }
        proof {
            assert(x[i as int] == cx && y[i as int] == cy);
        }
        i = i + 1;
    }
    proof {
        lemma_lex_lt_common_prefix(x, y, i as int);
    }
    (xe - xs) < (ye - ys)
}

/// Reads the value whose canonical encoding starts at `pos`, descending into
/// at most `depth` nested containers.
pub open spec fn decode_value_spec(b: Seq<u8>, pos: int, depth: int) -> Option<(ValueView, int)>
    decreases depth, 0int,
{
    match read_header_spec(b, pos) {
        None => None,
        Some((major, arg, end)) => {
            if major == 0 {
                Some((ValueView::Unsigned(arg), end))
            } else if major == 1 {
                Some((ValueView::Negative(arg), end))
            } else if major == 2 {
                if end + arg <= b.len() {
                    Some((ValueView::Bytes(b.subrange(end, end + arg)), end + arg))
                } else {
                    None
                }
            } else if major == 3 {
                if end + arg <= b.len() && valid_utf8(b.subrange(end, end + arg)) {
                    Some((ValueView::Text(decode_utf8(b.subrange(end, end + arg))), end + arg))
                } else {
                    None
                }
            } else if major == 4 {
                if depth > 0 {
                    match decode_list_spec(b, end, arg, depth - 1) {
                        Some((items, p)) => Some((ValueView::Array(items), p)),
                        None => None,
                    }
                } else {
                    None
                }
            } else if major == 5 {
                if depth > 0 {
                    match decode_pairs_spec(b, end, arg, depth - 1, None) {
                        Some((entries, p)) => Some((ValueView::Mapping(entries), p)),
                        None => None,
                    }
                } else {
                    None
                }
            } else if major == 7 {
                if end == pos + 1 && arg == 20 {
                    Some((ValueView::Bool(false), end))
                } else if end == pos + 1 && arg == 21 {
                    Some((ValueView::Bool(true), end))
                } else if end == pos + 1 && arg == 22 {
                    Some((ValueView::Null, end))
                } else {
                    None
                }
            } else {
                None
            }
        },
    }
}

/// Reads `n` consecutive canonically encoded values starting at `pos`.
pub open spec fn decode_list_spec(b: Seq<u8>, pos: int, n: u64, depth: int) -> Option<
    (Seq<ValueView>, int),
>
    decreases depth, n + 1,
{
    if n == 0 {
        Some((Seq::empty(), pos))
    } else {
        match decode_value_spec(b, pos, depth) {
            None => None,
            Some((v, p)) => match decode_list_spec(b, p, (n - 1) as u64, depth) {
                None => None,
                Some((rest, q)) => Some((seq![v] + rest, q)),
            },
        }
    }
}

/// Reads `n` consecutive key/value pairs starting at `pos`, requiring the
/// byte encoding of each key to be strictly above `prev` (and each later key
/// above the one before it), so that the map is canonical.
pub open spec fn decode_pairs_spec(
    b: Seq<u8>,
    pos: int,
    n: u64,
    depth: int,
    prev: Option<Seq<u8>>,
) -> Option<(Seq<(ValueView, ValueView)>, int)>
    decreases depth, n + 1,
{
    if n == 0 {
        Some((Seq::empty(), pos))
    } else {
        match decode_value_spec(b, pos, depth) {
            None => None,
            Some((k, p1)) => {
                let key_bytes = b.subrange(pos, p1);
                let ordered = match prev {
                    Some(pb) => lex_lt(pb, key_bytes),
                    None => true,
                };
                if !ordered {
                    None
                } else {
                    match decode_value_spec(b, p1, depth) {
                        None => None,
                        Some((v, p2)) => match decode_pairs_spec(
                            b,
                            p2,
                            (n - 1) as u64,
                            depth,
                            Some(key_bytes),
                        ) {
                            None => None,
                            Some((rest, q)) => Some((seq![(k, v)] + rest, q)),
                        },
                    }
                }
            },
        }
    }
}

proof fn lemma_decode_value_sound(b: Seq<u8>, pos: int, depth: int)
    requires
        decode_value_spec(b, pos, depth) is Some,
    ensures
        ({
            let (v, end) = decode_value_spec(b, pos, depth)->Some_0;
            &&& 0 <= pos < end <= b.len()
            &&& encode_spec(v) =~= b.subrange(pos, end)
        }),
    decreases depth, 0int,
{
    let (v, end) = decode_value_spec(b, pos, depth)->Some_0;
    let (major, arg, hend) = read_header_spec(b, pos)->Some_0;
    lemma_header_roundtrip(b, pos);
    if major == 0 || major == 1 {
    } else if major == 2 {
        let payload = b.subrange(hend, hend + arg);
        assert(b.subrange(pos, end) =~= b.subrange(pos, hend) + payload);
    } else if major == 3 {
        let payload = b.subrange(hend, hend + arg);
        vstd::utf8::decode_utf8_encode_utf8(payload);
        assert(encode_utf8(decode_utf8(payload)) == payload);
        assert(b.subrange(pos, end) =~= b.subrange(pos, hend) + payload);
    } else if major == 4 {
        let (items, p) = decode_list_spec(b, hend, arg, depth - 1)->Some_0;
        lemma_decode_list_sound(b, hend, arg, depth - 1);
        assert(b.subrange(pos, end) =~= b.subrange(pos, hend) + b.subrange(hend, end));
    } else if major == 5 {
        let (entries, p) = decode_pairs_spec(b, hend, arg, depth - 1, None)->Some_0;
        lemma_decode_pairs_sound(b, hend, arg, depth - 1, None);
        assert(b.subrange(pos, end) =~= b.subrange(pos, hend) + b.subrange(hend, end));
    } else {
        // simple values: the one-byte header is the whole encoding
        assert(b.subrange(pos, end) =~= header_spec(7, arg));
    }
}

proof fn lemma_decode_list_sound(b: Seq<u8>, pos: int, n: u64, depth: int)
    requires
        0 <= pos <= b.len(),
        decode_list_spec(b, pos, n, depth) is Some,
    ensures
        ({
            let (items, end) = decode_list_spec(b, pos, n, depth)->Some_0;
            &&& 0 <= pos <= end <= b.len()
            &&& items.len() == n
            &&& encode_list_spec(items) =~= b.subrange(pos, end)
        }),
    decreases depth, n + 1,
{
    if n == 0 {
        assert(b.subrange(pos, pos) =~= Seq::<u8>::empty());
    } else {
        let (v, p) = decode_value_spec(b, pos, depth)->Some_0;
        let (rest, end) = decode_list_spec(b, p, (n - 1) as u64, depth)->Some_0;
        lemma_decode_value_sound(b, pos, depth);
        lemma_decode_list_sound(b, p, (n - 1) as u64, depth);
        let items = seq![v] + rest;
        assert(items[0] == v);
        assert(items.drop_first() =~= rest);
        assert(encode_list_spec(items) == encode_spec(v) + encode_list_spec(rest));
        assert(b.subrange(pos, end) =~= b.subrange(pos, p) + b.subrange(p, end));
    }
}

proof fn lemma_decode_pairs_sound(b: Seq<u8>, pos: int, n: u64, depth: int, prev: Option<Seq<u8>>)
    requires
        0 <= pos <= b.len(),
        decode_pairs_spec(b, pos, n, depth, prev) is Some,
    ensures
        ({
            let (entries, end) = decode_pairs_spec(b, pos, n, depth, prev)->Some_0;
            &&& 0 <= pos <= end <= b.len()
            &&& entries.len() == n
            &&& encode_pairs_spec(entries) =~= b.subrange(pos, end)
        }),
    decreases depth, n + 1,
{
    if n == 0 {
        assert(b.subrange(pos, pos) =~= Seq::<u8>::empty());
    } else {
        let (k, p1) = decode_value_spec(b, pos, depth)->Some_0;
        let key_bytes = b.subrange(pos, p1);
        let (v, p2) = decode_value_spec(b, p1, depth)->Some_0;
        let (rest, end) = decode_pairs_spec(b, p2, (n - 1) as u64, depth, Some(key_bytes))->Some_0;
        lemma_decode_value_sound(b, pos, depth);
        lemma_decode_value_sound(b, p1, depth);
        lemma_decode_pairs_sound(b, p2, (n - 1) as u64, depth, Some(key_bytes));
        let entries = seq![(k, v)] + rest;
        assert(entries[0] == (k, v));
        assert(entries.drop_first() =~= rest);
        assert(encode_pairs_spec(entries) == encode_spec(k) + encode_spec(v) + encode_pairs_spec(
            rest,
        ));
        assert(b.subrange(pos, end) =~= b.subrange(pos, p1) + b.subrange(p1, p2) + b.subrange(
            p2,
            end,
        ));
    }
}

/// Canonicity of the decoder: a byte string it accepts is exactly the
/// canonical encoding of the decoded value.  So every byte string has at
/// most one reading, and on accepted input decoding is inverse to encoding.
pub proof fn lemma_decode_canonical(bytes: Seq<u8>)
    requires
        decode_spec(bytes) is Some,
    ensures
        encode_spec(decode_spec(bytes)->Some_0) == bytes,
{
    lemma_decode_value_sound(bytes, 0, MAX_NESTING as int);
    assert(bytes.subrange(0, bytes.len() as int) =~= bytes);
}

/// Relies on `String::from_utf8` from std: it returns the string made of
/// exactly the given bytes when they are valid UTF-8, and an error otherwise.
#[verifier::external_body]
fn bytes_to_string(v: Vec<u8>) -> (r: Option<String>)
    ensures
        r is Some <==> valid_utf8(v@),
        r matches Some(s) ==> s@ == decode_utf8(v@),
{
    String::from_utf8(v).ok()
}

/// Copies `b[start..end]` into a fresh vector.
fn copy_range(b: &[u8], start: usize, end: usize) -> (r: Vec<u8>)
    requires
        start <= end <= b@.len(),
    ensures
        r@ == b@.subrange(start as int, end as int),
{
    let mut out: Vec<u8> = Vec::new();
    let mut i: usize = start;
    while i < end
        invariant
            start <= i <= end <= b@.len(),
            out@ == b@.subrange(start as int, i as int),
        decreases end - i,
    {
        out.push(b[i]);
        proof {
            assert(b@.subrange(start as int, i + 1) =~= b@.subrange(start as int, i as int)
                + seq![b@[i as int]]);
        }
        i = i + 1;
    }
    out
}

/// The result of reading a list, with `prefix` prepended to its items.
pub open spec fn with_items_prefix(
    prefix: Seq<ValueView>,
    r: Option<(Seq<ValueView>, int)>,
) -> Option<(Seq<ValueView>, int)> {
    match r {
        None => None,
        Some((rest, q)) => Some((prefix + rest, q)),
    }
}

/// The result of reading a pair list, with `prefix` prepended to its entries.
pub open spec fn with_pairs_prefix(
    prefix: Seq<(ValueView, ValueView)>,
    r: Option<(Seq<(ValueView, ValueView)>, int)>,
) -> Option<(Seq<(ValueView, ValueView)>, int)> {
    match r {
        None => None,
        Some((rest, q)) => Some((prefix + rest, q)),
    }
}

fn decode_value(b: &[u8], pos: usize, depth: u8) -> (r: Result<(Value, usize), DecodeError>)
    ensures
        match r {
            Ok((v, end)) => {
                &&& decode_value_spec(b@, pos as int, depth as int) == Some((v@, end as int))
                &&& pos < end <= b@.len()
            },
            Err(_) => decode_value_spec(b@, pos as int, depth as int) is None,
        },
    decreases depth,
{
    let (major, arg, end) = match read_header(b, pos) {
        Ok(h) => h,
        Err(e) => {
            return Err(e);
        },
    };
    if major == 0 {
        Ok((Value::Unsigned(arg), end))
    } else if major == 1 {
        Ok((Value::Negative(arg), end))
    } else if major == 2 {
        if arg <= (b.len() - end) as u64 {
            let stop = end + (arg as usize);
            let bytes = copy_range(b, end, stop);
            Ok((Value::Bytes(bytes), stop))
        } else {
            Err(DecodeError)
        }
    } else if major == 3 {
        if arg <= (b.len() - end) as u64 {
            let stop = end + (arg as usize);
            let bytes = copy_range(b, end, stop);
            match bytes_to_string(bytes) {
                Some(s) => Ok((Value::Text(s), stop)),
                None => Err(DecodeError),
            }
        } else {
            Err(DecodeError)
        }
    } else if major == 4 {
        if depth == 0 {
            return Err(DecodeError);
        }
        let mut items: Vec<Value> = Vec::new();
        let mut p: usize = end;
        let mut remaining: u64 = arg;
        while remaining > 0
            invariant
                1 <= depth,
                end <= p <= b@.len(),
                pos < end,
                read_header_spec(b@, pos as int) == Some((4u8, arg, end as int)),
                decode_list_spec(b@, end as int, arg, depth - 1) == with_items_prefix(
                    items@.map_values(|vv: Value| vv@),
                    decode_list_spec(b@, p as int, remaining, depth - 1),
                ),
            decreases remaining,
        {
            match decode_value(b, p, depth - 1) {
                Ok((v, p2)) => {
                    proof {
                        let pre = items@.map_values(|vv: Value| vv@);
                        let tail = decode_list_spec(b@, p2 as int, (remaining - 1) as u64, depth - 1);
                        assert(decode_list_spec(b@, p as int, remaining, depth - 1)
                            == with_items_prefix(seq![v@], tail));
                        match tail {
                            Some((rest, q)) => {
                                assert(pre + (seq![v@] + rest) =~= (pre + seq![v@]) + rest);
                            },
                            None => {},
                        }
                    }
                    let ghost old_items = items@;
                    items.push(v);
                    proof {
                        assert(items@.map_values(|vv: Value| vv@) =~= old_items.map_values(
                            |vv: Value| vv@,
                        ) + seq![v@]);
                    }
                    p = p2;
                    remaining = remaining - 1;
                },
                Err(_) => {
                    return Err(DecodeError);
                },
            }
        }
        proof {
            let pre = items@.map_values(|vv: Value| vv@);
            assert(decode_list_spec(b@, p as int, 0, depth - 1) == Some(
                (Seq::<ValueView>::empty(), p as int),
            ));
            assert(pre + Seq::<ValueView>::empty() =~= pre);
            lemma_value_views_is_map(items@);
            assert(value_views(items@) =~= pre);
        }
        Ok((Value::Array(items), p))
    } else if major == 5 {
        if depth == 0 {
            return Err(DecodeError);
        }
        let mut entries: Vec<(Value, Value)> = Vec::new();
        let mut p: usize = end;
        let mut remaining: u64 = arg;
        // byte range of the previous key in `b`, if any
        let mut prev: Option<(usize, usize)> = None;
        while remaining > 0
            invariant
                1 <= depth,
                end <= p <= b@.len(),
                pos < end,
                read_header_spec(b@, pos as int) == Some((5u8, arg, end as int)),
                match prev {
                    Some((ks, ke)) => ks <= ke <= b@.len(),
                    None => true,
                },
                decode_pairs_spec(b@, end as int, arg, depth - 1, None) == with_pairs_prefix(
                    entries@.map_values(|e: (Value, Value)| (e.0@, e.1@)),
                    decode_pairs_spec(
                        b@,
                        p as int,
                        remaining,
                        depth - 1,
                        match prev {
                            Some((ks, ke)) => Some(b@.subrange(ks as int, ke as int)),
                            None => None,
                        },
                    ),
                ),
            decreases remaining,
        {
            let (k, p1) = match decode_value(b, p, depth - 1) {
                Ok(kv) => kv,
                Err(_) => {
                    return Err(DecodeError);
                },
            };
            let ordered = match prev {
                Some((ks, ke)) => lex_lt_ranges(b, ks, ke, p, p1),
                None => true,
            };
            if !ordered {
                return Err(DecodeError);
            }
            let (v, p2) = match decode_value(b, p1, depth - 1) {
                Ok(vv) => vv,
                Err(_) => {
                    return Err(DecodeError);
                },
            };
            proof {
                let pre = entries@.map_values(|e: (Value, Value)| (e.0@, e.1@));
                let tail = decode_pairs_spec(
                    b@,
                    p2 as int,
                    (remaining - 1) as u64,
                    depth - 1,
                    Some(b@.subrange(p as int, p1 as int)),
                );
                match tail {
                    Some((rest, q)) => {
                        assert(pre + (seq![(k@, v@)] + rest) =~= (pre + seq![(k@, v@)]) + rest);
                    },
                    None => {},
                }
            }
            let ghost old_entries = entries@;
            entries.push((k, v));
            proof {
                assert(entries@.map_values(|e: (Value, Value)| (e.0@, e.1@)) =~= old_entries
                    .map_values(|e: (Value, Value)| (e.0@, e.1@)) + seq![(k@, v@)]);
            }
            prev = Some((p, p1));
            p = p2;
            remaining = remaining - 1;
        }
        proof {
            let pre = entries@.map_values(|e: (Value, Value)| (e.0@, e.1@));
            assert(pre + Seq::<(ValueView, ValueView)>::empty() =~= pre);
            lemma_entry_views_is_map(entries@);
            assert(entry_views(entries@) =~= pre);
        }
        Ok((Value::Mapping(entries), p))
    } else if major == 7 {
        if end == pos + 1 && arg == 20 {
            Ok((Value::Bool(false), end))
        } else if end == pos + 1 && arg == 21 {
            Ok((Value::Bool(true), end))
        } else if end == pos + 1 && arg == 22 {
            Ok((Value::Null, end))
        } else {
            Err(DecodeError)
        }
    } else {
        Err(DecodeError)
    }
}

} // verus!

