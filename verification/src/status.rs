//! Parsing of the structured detail a transport status carries.
//!
//! A failed call may carry, in its status detail side channel, a serialized
//! protobuf `Status` message whose repeated third field holds `Any` wrappers;
//! the coded on-chain error rides in the `value` field of the first wrapper.
//! The parser below reads exactly those pieces and skips everything else,
//! never failing the process on malformed input.

use vstd::prelude::*;

verus! {

/// Reads a base-128 varint at `pos`, least significant group first, at most
/// `budget` bytes, rejecting values that do not fit 64 bits.
pub open spec fn read_varint_spec(b: Seq<u8>, pos: int, budget: int) -> Option<(u64, int)>
    decreases budget,
{
    if budget <= 0 || pos < 0 || pos >= b.len() {
        None
    } else {
        let x = b[pos];
        if x < 128 {
            Some((x as u64, pos + 1))
        } else {
            match read_varint_spec(b, pos + 1, budget - 1) {
                None => None,
                Some((v, end)) => {
                    let val = (x - 128) + 128 * (v as int);
                    if val < 18446744073709551616 {
                        Some((val as u64, end))
                    } else {
                        None
                    }
                },
            }
        }
    }
}

/// Reads a varint, with the standard ten-byte limit.
fn read_varint(b: &[u8], pos: usize, budget: u8) -> (r: Result<(u64, usize), ()>)
    ensures
        match r {
            Ok((v, end)) => {
                &&& read_varint_spec(b@, pos as int, budget as int) == Some((v, end as int))
                &&& pos < end <= b@.len()
            },
            Err(_) => read_varint_spec(b@, pos as int, budget as int) is None,
        },
    decreases budget,
{
    if budget == 0 || pos >= b.len() {
        return Err(());
    }
    let x = b[pos];
    if x < 128 {
        Ok((x as u64, pos + 1))
    } else {
        match read_varint(b, pos + 1, budget - 1) {
            Err(_) => Err(()),
            Ok((v, end)) => {
                let val: u128 = ((x - 128) as u128) + 128 * (v as u128);
                if val < 18446744073709551616 {
                    Ok((val as u64, end))
                } else {
                    Err(())
                }
            },
        }
    }
}

/// The payloads of the repeated length-delimited field number 3 (the `Any`
/// details) of the message encoded in `b` from `pos` on, in order; `None` if
/// the message cannot be walked field by field.
pub open spec fn status_details_spec(b: Seq<u8>, pos: int) -> Option<Seq<Seq<u8>>>
    decreases b.len() - pos,
{
    if pos < 0 || pos > b.len() {
        None
    } else if pos == b.len() {
        Some(Seq::empty())
    } else {
        match read_varint_spec(b, pos, 10) {
            None => None,
            Some((tag, p1)) => {
                if !(pos < p1 <= b.len()) {
                    None
                } else {
                    let field = tag / 8;
                    let wire = tag % 8;
                    if wire == 0 {
                        match read_varint_spec(b, p1, 10) {
                            None => None,
                            Some((_, p2)) => {
                                if p1 < p2 <= b.len() {
                                    status_details_spec(b, p2)
                                } else {
                                    None
                                }
                            },
                        }
                    } else if wire == 1 {
                        if b.len() - p1 >= 8 {
                            status_details_spec(b, p1 + 8)
                        } else {
                            None
                        }
                    } else if wire == 5 {
                        if b.len() - p1 >= 4 {
                            status_details_spec(b, p1 + 4)
                        } else {
                            None
                        }
                    } else if wire == 2 {
                        match read_varint_spec(b, p1, 10) {
                            None => None,
                            Some((len, p2)) => {
                                if p1 < p2 <= b.len() && len <= b.len() - p2 {
                                    let p3 = p2 + len;
                                    match status_details_spec(b, p3) {
                                        None => None,
                                        Some(rest) => {
                                            if field == 3 {
                                                Some(seq![b.subrange(p2, p3)] + rest)
                                            } else {
                                                Some(rest)
                                            }
                                        },
                                    }
                                } else {
                                    None
                                }
                            },
                        }
                    } else {
                        None
                    }
                }
            },
        }
    }
}

/// The last length-delimited field number 2 (`value`) of the `Any` message in
/// `b`, or the empty byte string if the field is absent; `None` if the
/// message cannot be walked.
pub open spec fn any_value_spec(b: Seq<u8>, pos: int) -> Option<Seq<u8>>
    decreases b.len() - pos,
{
    if pos < 0 || pos > b.len() {
        None
    } else if pos == b.len() {
        Some(Seq::empty())
    } else {
        match read_varint_spec(b, pos, 10) {
            None => None,
            Some((tag, p1)) => {
                if !(pos < p1 <= b.len()) {
                    None
                } else {
                    let field = tag / 8;
                    let wire = tag % 8;
                    if wire == 0 {
                        match read_varint_spec(b, p1, 10) {
                            None => None,
                            Some((_, p2)) => {
                                if p1 < p2 <= b.len() {
                                    any_value_spec(b, p2)
                                } else {
                                    None
                                }
                            },
                        }
                    } else if wire == 1 {
                        if b.len() - p1 >= 8 {
                            any_value_spec(b, p1 + 8)
                        } else {
                            None
                        }
                    } else if wire == 5 {
                        if b.len() - p1 >= 4 {
                            any_value_spec(b, p1 + 4)
                        } else {
                            None
                        }
                    } else if wire == 2 {
                        match read_varint_spec(b, p1, 10) {
                            None => None,
                            Some((len, p2)) => {
                                if p1 < p2 <= b.len() && len <= b.len() - p2 {
                                    let p3 = p2 + len;
                                    match any_value_spec(b, p3) {
                                        None => None,
                                        Some(rest_value) => {
                                            if field == 2 && rest_value == Seq::<u8>::empty() {
                                                Some(b.subrange(p2, p3))
                                            } else {
                                                Some(rest_value)
                                            }
                                        },
                                    }
                                } else {
                                    None
                                }
                            },
                        }
                    } else {
                        None
                    }
                }
            },
        }
    }
}

/// Copies `b[start..end]` into a fresh vector.
fn copy_range(b: &[u8], start: usize, end: usize) -> (r: Vec<u8>)
    requires
        start <= end <= b@.len(),
    ensures
        r@ == b@.subrange(start as int, end as int),
{
    let mut out: Vec<u8> = Vec::new();
    let mut i: usize = start;
    while i < end
        invariant
            start <= i <= end <= b@.len(),
            out@ == b@.subrange(start as int, i as int),
        decreases end - i,
    {
        out.push(b[i]);
        proof {
            assert(b@.subrange(start as int, i + 1) =~= b@.subrange(start as int, i as int)
                + seq![b@[i as int]]);
        }
        i = i + 1;
    }
    out
}

/// Extracts the `Any` detail payloads of the status message in `b`.
pub fn status_details(b: &[u8]) -> (r: Result<Vec<Vec<u8>>, ()>)
    ensures
        match r {
            Ok(ds) => status_details_spec(b@, 0) == Some(ds@.map_values(|d: Vec<u8>| d@)),
            Err(_) => status_details_spec(b@, 0) is None,
        },
{
    let mut out: Vec<Vec<u8>> = Vec::new();
    let mut pos: usize = 0;
    while pos < b.len()
        invariant
            pos <= b@.len(),
            match status_details_spec(b@, pos as int) {
                Some(rest) => status_details_spec(b@, 0) == Some(
                    out@.map_values(|d: Vec<u8>| d@) + rest,
                ),
                None => status_details_spec(b@, 0) is None,
            },
        decreases b@.len() - pos,
    {
        let (tag, p1) = match read_varint(b, pos, 10) {
            Ok(t) => t,
            Err(_) => {
                return Err(());
            },
        };
        let field = tag / 8;
        let wire = tag % 8;
        if wire == 0 {
            match read_varint(b, p1, 10) {
                Ok((_, p2)) => {
                    pos = p2;
                },
                Err(_) => {
                    return Err(());
                },
            }
        } else if wire == 1 {
            if b.len() - p1 >= 8 {
                pos = p1 + 8;
            } else {
                return Err(());
            }
        } else if wire == 5 {
            if b.len() - p1 >= 4 {
                pos = p1 + 4;
            } else {
                return Err(());
            }
        } else if wire == 2 {
            let (len, p2) = match read_varint(b, p1, 10) {
                Ok(t) => t,
                Err(_) => {
                    return Err(());
                },
            };
            if len <= (b.len() - p2) as u64 {
                let p3 = p2 + (len as usize);
                if field == 3 {
                    let ghost prev_out = out@;
                    out.push(copy_range(b, p2, p3));
                    proof {
                        assert(out@.map_values(|d: Vec<u8>| d@) =~= prev_out.map_values(
                            |d: Vec<u8>| d@,
                        ) + seq![b@.subrange(p2 as int, p3 as int)]);
                        let ghost tail = status_details_spec(b@, p3 as int);
                        match tail {
                            Some(rest) => {
                                assert(prev_out.map_values(|d: Vec<u8>| d@) + (seq![
                                    b@.subrange(p2 as int, p3 as int),
                                ] + rest) =~= out@.map_values(|d: Vec<u8>| d@) + rest);
                            },
                            None => {},
                        }
                    }
                }
                pos = p3;
            } else {
                return Err(());
            }
        } else {
            return Err(());
        }
    }
    proof {
        assert(out@.map_values(|d: Vec<u8>| d@) + Seq::<Seq<u8>>::empty() =~= out@.map_values(
            |d: Vec<u8>| d@,
        ));
    }
    Ok(out)
}

/// Extracts the `value` payload of the `Any` message in `b` (empty if the
/// field is absent).
pub fn any_value(b: &[u8]) -> (r: Result<Vec<u8>, ()>)
    ensures
        match r {
            Ok(v) => any_value_spec(b@, 0) == Some(v@),
            Err(_) => any_value_spec(b@, 0) is None,
        },
{
    let mut found: Vec<u8> = Vec::new();
    let mut pos: usize = 0;
    while pos < b.len()
        invariant
            pos <= b@.len(),
            match any_value_spec(b@, pos as int) {
                Some(rest_value) => any_value_spec(b@, 0) == Some(
                    if rest_value == Seq::<u8>::empty() {
                        found@
                    } else {
                        rest_value
                    },
                ),
                None => any_value_spec(b@, 0) is None,
            },
        decreases b@.len() - pos,
    {
        let (tag, p1) = match read_varint(b, pos, 10) {
            Ok(t) => t,
            Err(_) => {
                return Err(());
            },
        };
        let field = tag / 8;
        let wire = tag % 8;
        if wire == 0 {
            match read_varint(b, p1, 10) {
                Ok((_, p2)) => {
                    pos = p2;
                },
                Err(_) => {
                    return Err(());
                },
            }
        } else if wire == 1 {
            if b.len() - p1 >= 8 {
                pos = p1 + 8;
            } else {
                return Err(());
            }
        } else if wire == 5 {
            if b.len() - p1 >= 4 {
                pos = p1 + 4;
            } else {
                return Err(());
            }
        } else if wire == 2 {
            let (len, p2) = match read_varint(b, p1, 10) {
                Ok(t) => t,
                Err(_) => {
                    return Err(());
                },
            };
            if len <= (b.len() - p2) as u64 {
                let p3 = p2 + (len as usize);
                if field == 2 && p3 > p2 {
                    found = copy_range(b, p2, p3);
                }
                proof {
                    if p3 == p2 {
                        assert(b@.subrange(p2 as int, p3 as int) =~= Seq::<u8>::empty());
                    }
                }
                pos = p3;
            } else {
                return Err(());
            }
        } else {
            return Err(());
        }
    }
    Ok(found)
}

} // verus!
