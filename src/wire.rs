//! Protocol-buffer wire primitives: base-128 varints and field keys.
use vstd::prelude::*;

verus! {

/// Most bytes a varint may take.
pub const MAX_VARINT_LEN: usize = 10;

/// Largest value (exclusive) that a varint of at most `d` bytes can carry,
/// given that the last of ten bytes may only hold the top bit of a `u64`.
pub open spec fn varint_bound(d: nat) -> nat
    decreases d,
{
    if d <= 1 {
        2
    } else {
        128 * varint_bound((d - 1) as nat)
    }
}

/// The canonical varint encoding of `v`: seven bits per byte, low group first,
/// the top bit set on every byte but the last.
pub open spec fn encode_varint_spec(v: nat) -> Seq<u8>
    decreases v,
{
    if v < 128 {
        seq![v as u8]
    } else {
        seq![((v % 128) + 128) as u8] + encode_varint_spec(v / 128)
    }
}

/// Reads a varint from `b` at `pos`, with at most `d` bytes left to use.
/// Gives the value and the position just after it. Non-canonical forms
/// (redundant continuation bytes) are read; a tenth byte above 1 is rejected.
pub open spec fn varint_at(b: Seq<u8>, pos: int, d: nat) -> Option<(nat, int)>
    decreases d,
{
    if pos < 0 || pos >= b.len() || d == 0 {
        None
    } else if b[pos] < 128 {
        if d == 1 && b[pos] >= 2 {
            None
        } else {
            Some((b[pos] as nat, pos + 1))
        }
    } else if d == 1 {
        None
    } else {
        match varint_at(b, pos + 1, (d - 1) as nat) {
            Some((v, end)) => Some(((b[pos] - 128) as nat + 128 * v, end)),
            None => None,
        }
    }
}

/// A varint read with the full allowance of ten bytes.
pub open spec fn read_varint(b: Seq<u8>, pos: int) -> Option<(nat, int)> {
    varint_at(b, pos, MAX_VARINT_LEN as nat)
}

pub proof fn lemma_varint_bound_64()
    ensures
        varint_bound(MAX_VARINT_LEN as nat) == 0x1_0000_0000_0000_0000nat,
{
    reveal_with_fuel(varint_bound, 11);
}

proof fn lemma_varint_bound_pos(d: nat)
    ensures
        varint_bound(d) >= 2,
    decreases d,
{
    if d > 1 {
        lemma_varint_bound_pos((d - 1) as nat);
    }
}

/// A value read from at most `d` bytes is below `varint_bound(d)`, and the
/// read moves forward.
pub proof fn lemma_varint_at_bounded(b: Seq<u8>, pos: int, d: nat)
    ensures
        varint_at(b, pos, d) matches Some((v, end)) ==> v < varint_bound(d) && pos < end
            <= b.len() && end <= pos + d,
    decreases d,
{
    lemma_varint_bound_pos(d);
    if pos >= 0 && pos < b.len() && d > 1 && b[pos] >= 128 {
        lemma_varint_at_bounded(b, pos + 1, (d - 1) as nat);
    }
}

/// Reading back the encoding of `v`, wherever it stands in a byte sequence,
/// gives `v` and the position just after it.
pub proof fn lemma_varint_round_trip(v: nat, b: Seq<u8>, pos: int, d: nat)
    requires
        v < varint_bound(d),
        d >= 1,
        0 <= pos,
        pos + encode_varint_spec(v).len() <= b.len(),
        b.subrange(pos, pos + encode_varint_spec(v).len()) == encode_varint_spec(v),
    ensures
        varint_at(b, pos, d) == Some((v, pos + encode_varint_spec(v).len())),
    decreases v,
{
    let e = encode_varint_spec(v);
    assert(b[pos] == b.subrange(pos, pos + e.len())[0]);
    if v >= 128 {
        let rest = encode_varint_spec(v / 128);
        assert(e == seq![((v % 128) + 128) as u8] + rest);
        if d == 1 {
            assert(false);
        }
        assert(v / 128 < varint_bound((d - 1) as nat));
        assert(b.subrange(pos + 1, pos + 1 + rest.len()) == rest) by {
            assert(b.subrange(pos + 1, pos + 1 + rest.len()) =~= b.subrange(pos, pos + e.len()).subrange(1, e.len() as int));
            assert(e.subrange(1, e.len() as int) =~= rest);
        }
        lemma_varint_round_trip(v / 128, b, pos + 1, (d - 1) as nat);
    }
}

/// Appends the varint encoding of `v` to `out`.
pub fn encode_varint(v: u64, out: &mut Vec<u8>)
    ensures
        final(out)@ == old(out)@ + encode_varint_spec(v as nat),
{
    let mut x: u64 = v;
    while x >= 128
        invariant
            out@ + encode_varint_spec(x as nat) == old(out)@ + encode_varint_spec(v as nat),
        decreases x,
    {
        let byte: u8 = ((x % 128) + 128) as u8;
        proof {
            let ghost pre = out@;
            assert(encode_varint_spec(x as nat) == seq![byte] + encode_varint_spec((x / 128) as nat));
            assert(pre.push(byte) + encode_varint_spec((x / 128) as nat) =~= pre + (seq![byte] + encode_varint_spec((x / 128) as nat)));
        }
        out.push(byte);
        x = x / 128;
    }
    proof {
        assert(out@.push(x as u8) =~= out@ + encode_varint_spec(x as nat));
    }
    out.push(x as u8);
}

/// Reads a varint from `b` at `pos` with at most `d` bytes: the executable
/// form of `varint_at`.
fn decode_varint_from(b: &[u8], pos: usize, d: usize) -> (r: Option<(u64, usize)>)
    requires
        d <= MAX_VARINT_LEN,
    ensures
        match varint_at(b@, pos as int, d as nat) {
            Some((v, end)) => r == Some((v as u64, end as usize)),
            None => r is None,
        },
    decreases d,
{
    if pos >= b.len() || d == 0 {
        return None;
    }
    let byte = b[pos];
    if byte < 128 {
        if d == 1 && byte >= 2 {
            None
        } else {
            Some((byte as u64, pos + 1))
        }
    } else if d == 1 {
        None
    } else {
        match decode_varint_from(b, pos + 1, d - 1) {
            Some((v, end)) => {
                proof {
                    lemma_varint_at_bounded(b@, pos + 1, (d - 1) as nat);
                    lemma_varint_bound_monotone((d - 1) as nat, 9);
                    lemma_varint_bound_64();
                    reveal_with_fuel(varint_bound, 2);
                    assert(varint_bound(d as nat) == 128 * varint_bound((d - 1) as nat));
                    assert(v < varint_bound((d - 1) as nat));
                    assert(128 * v + 127 < 128 * varint_bound((d - 1) as nat)) by (nonlinear_arith)
                        requires v < varint_bound((d - 1) as nat);
                    lemma_varint_bound_monotone(d as nat, 10);
                }
                Some(((byte - 128) as u64 + 128 * v, end))
            },
            None => None,
        }
    }
}

proof fn lemma_varint_bound_monotone(d: nat, e: nat)
    requires
        d <= e,
    ensures
        varint_bound(d) <= varint_bound(e),
    decreases e,
{
    if d < e {
        lemma_varint_bound_monotone(d, (e - 1) as nat);
        lemma_varint_bound_pos((e - 1) as nat);
        if e > 1 {
            assert(varint_bound(e) == 128 * varint_bound((e - 1) as nat));
        }
    }
}

/// Reads a varint from `b` at `pos`.
pub fn decode_varint(b: &[u8], pos: usize) -> (r: Option<(u64, usize)>)
    ensures
        match read_varint(b@, pos as int) {
            Some((v, end)) => r == Some((v as u64, end as usize)),
            None => r is None,
        },
{
    decode_varint_from(b, pos, MAX_VARINT_LEN)
}


/// One field of a message as it stands on the wire. Fixed-width fields are
/// only ever skipped, so their contents are not kept.
pub ghost enum WireField {
    Varint { tag: nat, value: nat },
    Delimited { tag: nat, bytes: Seq<u8> },
    Fixed { tag: nat },
}

/// Reads a field key at `pos`: its tag, its wire type and the position after
/// it. The key must fit in 32 bits and the tag must be at least 1.
pub open spec fn key_at(b: Seq<u8>, pos: int) -> Option<(nat, nat, int)> {
    match read_varint(b, pos) {
        Some((k, end)) => if k <= 0xffff_ffff && k / 8 >= 1 {
            Some((k / 8, k % 8, end))
        } else {
            None
        },
        None => None,
    }
}

/// Reads one field at `pos`: varint (wire type 0), 64-bit (1),
/// length-delimited (2) or 32-bit (5). Groups and unknown wire types are
/// rejected, as is a field that runs past the end.
pub open spec fn field_at(b: Seq<u8>, pos: int) -> Option<(WireField, int)> {
    match key_at(b, pos) {
        None => None,
        Some((tag, wire, p)) => if wire == 0 {
            match read_varint(b, p) {
                Some((v, end)) => Some((WireField::Varint { tag, value: v }, end)),
                None => None,
            }
        } else if wire == 2 {
            match read_varint(b, p) {
                Some((n, q)) => if q + n <= b.len() {
                    Some((WireField::Delimited { tag, bytes: b.subrange(q, q + n) }, q + n))
                } else {
                    None
                },
                None => None,
            }
        } else if wire == 1 {
            if p + 8 <= b.len() {
                Some((WireField::Fixed { tag }, p + 8))
            } else {
                None
            }
        } else if wire == 5 {
            if p + 4 <= b.len() {
                Some((WireField::Fixed { tag }, p + 4))
            } else {
                None
            }
        } else {
            None
        },
    }
}

/// A field read moves forward and stays within the bytes.
pub proof fn lemma_field_at_advances(b: Seq<u8>, pos: int)
    ensures
        field_at(b, pos) matches Some((f, end)) ==> pos < end <= b.len(),
{
    lemma_varint_at_bounded(b, pos, MAX_VARINT_LEN as nat);
    if let Some((k, p)) = read_varint(b, pos) {
        lemma_varint_at_bounded(b, p, MAX_VARINT_LEN as nat);
    }
}

/// A field as the reader returns it; a length-delimited one is given as the
/// range of its contents.
pub enum Field {
    Varint { tag: u64, value: u64 },
    Delimited { tag: u64, start: usize, end: usize },
    Fixed { tag: u64 },
}

impl Field {
    /// The field that this one stands for within `b`.
    pub open spec fn within(self, b: Seq<u8>) -> WireField {
        match self {
            Field::Varint { tag, value } => WireField::Varint { tag: tag as nat, value: value as nat },
            Field::Delimited { tag, start, end } => WireField::Delimited {
                tag: tag as nat,
                bytes: b.subrange(start as int, end as int),
            },
            Field::Fixed { tag } => WireField::Fixed { tag: tag as nat },
        }
    }

    pub open spec fn range_ok(self, len: int) -> bool {
        match self {
            Field::Delimited { start, end, .. } => start <= end <= len,
            _ => true,
        }
    }
}

/// Reads one field of `b` at `pos`: the executable form of `field_at`.
pub fn read_field(b: &[u8], pos: usize) -> (r: Option<(Field, usize)>)
    ensures
        match field_at(b@, pos as int) {
            Some((f, end)) => r matches Some((g, e)) && g.within(b@) == f && e == end && g.range_ok(
                b@.len() as int,
            ),
            None => r is None,
        },
{
    let blen = b.len();
    let (k, p) = match decode_varint(b, pos) {
        Some(x) => x,
        None => return None,
    };
    if k > 0xffff_ffff || k / 8 < 1 {
        return None;
    }
    let tag = k / 8;
    let wire = k % 8;
    proof {
        lemma_varint_at_bounded(b@, pos as int, MAX_VARINT_LEN as nat);
        lemma_varint_at_bounded(b@, p as int, MAX_VARINT_LEN as nat);
        lemma_varint_bound_64();
    }
    if wire == 0 {
        match decode_varint(b, p) {
            Some((v, e)) => Some((Field::Varint { tag, value: v }, e)),
            None => None,
        }
    } else if wire == 2 {
        match decode_varint(b, p) {
            Some((n, q)) => {
                proof {
                    lemma_varint_at_bounded(b@, p as int, MAX_VARINT_LEN as nat);
                }
                if n <= (b.len() - q) as u64 {
                    Some((Field::Delimited { tag, start: q, end: q + n as usize }, q + n as usize))
                } else {
                    None
                }
            },
            None => None,
        }
    } else if wire == 1 {
        if p <= b.len() && b.len() - p >= 8 {
            Some((Field::Fixed { tag }, p + 8))
        } else {
            None
        }
    } else if wire == 5 {
        if p <= b.len() && b.len() - p >= 4 {
            Some((Field::Fixed { tag }, p + 4))
        } else {
            None
        }
    } else {
        None
    }
}


/// Appends `bytes[start..end]` to `out`.
pub fn append_range(out: &mut Vec<u8>, bytes: &[u8], start: usize, end: usize)
    requires
        start <= end <= bytes@.len(),
    ensures
        final(out)@ == old(out)@ + bytes@.subrange(start as int, end as int),
{
    let mut i: usize = start;
    while i < end
        invariant
            start <= i <= end <= bytes@.len(),
            out@ == old(out)@ + bytes@.subrange(start as int, i as int),
        decreases end - i,
    {
        proof {
            assert(bytes@.subrange(start as int, i + 1) =~= bytes@.subrange(start as int, i as int).push(bytes@[i as int]));
        }
        out.push(bytes[i]);
        i = i + 1;
    }
}

} // verus!
