//! The two messages of the protocol, a quote broadcast and a broadcast
//! request, with their field-tagged binary encoding.
use vstd::prelude::*;
use vstd::utf8::*;
use vstd::string::StringSliceAdditionalSpecFns;
use crate::wire::{
    encode_varint, encode_varint_spec, field_at, lemma_field_at_advances, lemma_varint_bound_64,
    lemma_varint_round_trip, read_field, append_range, key_at, Field, WireField,
    MAX_VARINT_LEN,
};

verus! {

broadcast use vstd::utf8::group_utf8_lib;

/// Tag of the timestamp field, in both messages.
pub const TIMESTAMP_TAG: u64 = 1;
/// Tag of the author field of a broadcast.
pub const AUTHOR_TAG: u64 = 2;
/// Tag of the content field of a broadcast.
pub const CONTENT_TAG: u64 = 3;

/// A field was malformed, of the wrong wire type, or not valid UTF-8 where
/// text was expected.
#[derive(Debug, Clone, Copy, PartialEq, Eq)]
pub struct DecodeError;

/// What a broadcast holds.
pub ghost struct StoicView {
    pub timestamp: u64,
    pub author: Seq<char>,
    pub content: Seq<u8>,
}

/// A quote broadcast: when it was made, who said it, and the text as bytes.
#[derive(Clone, Debug)]
pub struct DailyStoic {
    timestamp: u64,
    author: String,
    content: Vec<u8>,
}

/// A request for a broadcast; the timestamp is informational.
#[derive(Clone, Copy, Debug, PartialEq, Eq)]
pub struct DailyStoicRequest {
    timestamp: u64,
}

impl View for DailyStoic {
    type V = StoicView;

    closed spec fn view(&self) -> StoicView {
        StoicView { timestamp: self.timestamp, author: self.author@, content: self.content@ }
    }
}

impl View for DailyStoicRequest {
    type V = u64;

    closed spec fn view(&self) -> u64 {
        self.timestamp
    }
}

/// The bytes of a varint field.
pub open spec fn varint_field(tag: nat, v: nat) -> Seq<u8> {
    encode_varint_spec(tag * 8) + encode_varint_spec(v)
}

/// The bytes of a length-delimited field.
pub open spec fn delimited_field(tag: nat, bytes: Seq<u8>) -> Seq<u8> {
    encode_varint_spec(tag * 8 + 2) + encode_varint_spec(bytes.len()) + bytes
}

/// The encoding of a broadcast: fields in tag order, each left out when it
/// holds its default (zero, or empty).
pub open spec fn encode_stoic_spec(m: StoicView) -> Seq<u8> {
    (if m.timestamp != 0 {
        varint_field(1, m.timestamp as nat)
    } else {
        Seq::empty()
    }) + (if m.author.len() != 0 {
        delimited_field(2, encode_utf8(m.author))
    } else {
        Seq::empty()
    }) + (if m.content.len() != 0 {
        delimited_field(3, m.content)
    } else {
        Seq::empty()
    })
}

/// The encoding of a request.
pub open spec fn encode_request_spec(timestamp: u64) -> Seq<u8> {
    if timestamp != 0 {
        varint_field(1, timestamp as nat)
    } else {
        Seq::empty()
    }
}

pub open spec fn empty_stoic() -> StoicView {
    StoicView { timestamp: 0, author: Seq::empty(), content: Seq::empty() }
}

/// The effect of one field on a broadcast being decoded. A later field
/// replaces an earlier one of the same tag; unknown tags are skipped; a
/// known tag of the wrong wire type, or author bytes that are not UTF-8,
/// fail.
pub open spec fn apply_stoic_field(acc: StoicView, f: WireField) -> Option<StoicView> {
    match f {
        WireField::Varint { tag, value } => if tag == 1 {
            Some(StoicView { timestamp: value as u64, ..acc })
        } else if tag == 2 || tag == 3 {
            None
        } else {
            Some(acc)
        },
        WireField::Delimited { tag, bytes } => if tag == 1 {
            None
        } else if tag == 2 {
            if valid_utf8(bytes) {
                Some(StoicView { author: decode_utf8(bytes), ..acc })
            } else {
                None
            }
        } else if tag == 3 {
            Some(StoicView { content: bytes, ..acc })
        } else {
            Some(acc)
        },
        WireField::Fixed { tag } => if 1 <= tag <= 3 {
            None
        } else {
            Some(acc)
        },
    }
}

/// The effect of one field on a request being decoded.
pub open spec fn apply_request_field(acc: u64, f: WireField) -> Option<u64> {
    match f {
        WireField::Varint { tag, value } => if tag == 1 {
            Some(value as u64)
        } else {
            Some(acc)
        },
        WireField::Delimited { tag, .. } => if tag == 1 {
            None
        } else {
            Some(acc)
        },
        WireField::Fixed { tag } => if tag == 1 {
            None
        } else {
            Some(acc)
        },
    }
}

/// Decodes the fields of a broadcast from `pos` to the end, starting from `acc`.
pub open spec fn stoic_from(b: Seq<u8>, pos: int, acc: StoicView) -> Option<StoicView>
    decreases b.len() - pos,
{
    if pos >= b.len() {
        Some(acc)
    } else {
        match field_at(b, pos) {
            Some((f, end)) => if pos < end <= b.len() {
                match apply_stoic_field(acc, f) {
                    Some(next) => stoic_from(b, end, next),
                    None => None,
                }
            } else {
                None
            },
            None => None,
        }
    }
}

/// Decodes the fields of a request from `pos` to the end, starting from `acc`.
pub open spec fn request_from(b: Seq<u8>, pos: int, acc: u64) -> Option<u64>
    decreases b.len() - pos,
{
    if pos >= b.len() {
        Some(acc)
    } else {
        match field_at(b, pos) {
            Some((f, end)) => if pos < end <= b.len() {
                match apply_request_field(acc, f) {
                    Some(next) => request_from(b, end, next),
                    None => None,
                }
            } else {
                None
            },
            None => None,
        }
    }
}

/// The broadcast that `b` decodes to, if it is one.
pub open spec fn decode_stoic_spec(b: Seq<u8>) -> Option<StoicView> {
    stoic_from(b, 0, empty_stoic())
}

/// The request timestamp that `b` decodes to, if it is a request.
pub open spec fn decode_request_spec(b: Seq<u8>) -> Option<u64> {
    request_from(b, 0, 0)
}

/// Relies on `String::from_utf8`: it accepts exactly the valid UTF-8 byte
/// sequences, and the string it returns holds the characters they encode.
#[verifier::external_body]
fn string_from_utf8(bytes: Vec<u8>) -> (r: Option<String>)
    ensures
        r is Some <==> valid_utf8(bytes@),
        r matches Some(s) ==> s@ == decode_utf8(bytes@),
{
    String::from_utf8(bytes).ok()
}


proof fn lemma_small_key(k: nat)
    requires
        k < 128,
    ensures
        encode_varint_spec(k) == seq![k as u8],
{
}

/// A varint field, wherever it stands in `b`, reads back as its tag and value.
pub proof fn lemma_varint_field_at(b: Seq<u8>, pos: int, tag: nat, v: nat)
    requires
        1 <= tag < 16,
        v < 0x1_0000_0000_0000_0000,
        0 <= pos,
        pos + varint_field(tag, v).len() <= b.len(),
        b.subrange(pos, pos + varint_field(tag, v).len()) == varint_field(tag, v),
    ensures
        field_at(b, pos) == Some((WireField::Varint { tag, value: v }, pos + varint_field(tag, v).len())),
{
    let f = varint_field(tag, v);
    let ev = encode_varint_spec(v);
    lemma_small_key(tag * 8);
    lemma_varint_bound_64();
    assert(b.subrange(pos, pos + 1) =~= f.subrange(0, 1));
    assert(f.subrange(0, 1) =~= encode_varint_spec(tag * 8));
    assert(f.subrange(1, f.len() as int) =~= ev);
    lemma_varint_round_trip(tag * 8, b, pos, MAX_VARINT_LEN as nat);
    assert(b.subrange(pos + 1, pos + 1 + ev.len()) =~= f.subrange(1, f.len() as int));
    lemma_varint_round_trip(v, b, pos + 1, MAX_VARINT_LEN as nat);
    assert(key_at(b, pos) == Some((tag, 0nat, pos + 1)));
}

/// A length-delimited field, wherever it stands in `b`, reads back as its tag
/// and contents.
pub proof fn lemma_delimited_field_at(b: Seq<u8>, pos: int, tag: nat, bytes: Seq<u8>)
    requires
        1 <= tag < 16,
        bytes.len() < 0x1_0000_0000_0000_0000,
        0 <= pos,
        pos + delimited_field(tag, bytes).len() <= b.len(),
        b.subrange(pos, pos + delimited_field(tag, bytes).len()) == delimited_field(tag, bytes),
    ensures
        field_at(b, pos) == Some(
            (WireField::Delimited { tag, bytes }, pos + delimited_field(tag, bytes).len()),
        ),
{
    let f = delimited_field(tag, bytes);
    let el = encode_varint_spec(bytes.len());
    lemma_small_key(tag * 8 + 2);
    lemma_varint_bound_64();
    assert(b.subrange(pos, pos + 1) =~= f.subrange(0, 1));
    assert(f.subrange(0, 1) =~= encode_varint_spec(tag * 8 + 2));
    assert(f.subrange(1, 1 + el.len() as int) =~= el);
    assert(f.subrange(1 + el.len() as int, f.len() as int) =~= bytes);
    lemma_varint_round_trip(tag * 8 + 2, b, pos, MAX_VARINT_LEN as nat);
    assert(b.subrange(pos + 1, pos + 1 + el.len()) =~= f.subrange(1, 1 + el.len() as int));
    lemma_varint_round_trip(bytes.len(), b, pos + 1, MAX_VARINT_LEN as nat);
    assert(key_at(b, pos) == Some((tag, 2nat, pos + 1)));
    let q: int = pos + 1 + el.len();
    assert(b.subrange(q, q + bytes.len()) =~= f.subrange(1 + el.len() as int, f.len() as int));
}

/// Decoding the encoding of a broadcast gives it back, for every broadcast
/// whose byte lengths fit in 64 bits.
pub proof fn lemma_stoic_round_trip(m: StoicView)
    requires
        encode_utf8(m.author).len() < 0x1_0000_0000_0000_0000,
        m.content.len() < 0x1_0000_0000_0000_0000,
    ensures
        decode_stoic_spec(encode_stoic_spec(m)) == Some(m),
{
    let f1 = if m.timestamp != 0 { varint_field(1, m.timestamp as nat) } else { Seq::<u8>::empty() };
    let f2 = if m.author.len() != 0 { delimited_field(2, encode_utf8(m.author)) } else { Seq::<u8>::empty() };
    let f3 = if m.content.len() != 0 { delimited_field(3, m.content) } else { Seq::<u8>::empty() };
    let b = f1 + f2 + f3;
    assert(encode_stoic_spec(m) == b);
    let a0 = empty_stoic();
    let a1 = if m.timestamp != 0 { StoicView { timestamp: m.timestamp, ..a0 } } else { a0 };
    let a2 = if m.author.len() != 0 { StoicView { author: m.author, ..a1 } } else { a1 };
    let a3 = if m.content.len() != 0 { StoicView { content: m.content, ..a2 } } else { a2 };
    let p1 = f1.len() as int;
    let p2 = p1 + f2.len();
    if m.timestamp != 0 {
        assert(b.subrange(0, p1) =~= f1);
        lemma_varint_field_at(b, 0, 1, m.timestamp as nat);
    }
    assert(stoic_from(b, 0, a0) == stoic_from(b, p1, a1));
    if m.author.len() != 0 {
        assert(b.subrange(p1, p2) =~= f2);
        lemma_delimited_field_at(b, p1, 2, encode_utf8(m.author));
    }
    assert(stoic_from(b, p1, a1) == stoic_from(b, p2, a2));
    if m.content.len() != 0 {
        assert(b.subrange(p2, b.len() as int) =~= f3);
        lemma_delimited_field_at(b, p2, 3, m.content);
    }
    assert(stoic_from(b, p2, a2) == stoic_from(b, b.len() as int, a3));
    assert(a3.author =~= m.author);
    assert(a3.content =~= m.content);
}

/// Decoding the encoding of a request gives its timestamp back.
pub proof fn lemma_request_round_trip(timestamp: u64)
    ensures
        decode_request_spec(encode_request_spec(timestamp)) == Some(timestamp),
{
    let b = encode_request_spec(timestamp);
    if timestamp != 0 {
        assert(b.subrange(0, b.len() as int) =~= b);
        lemma_varint_field_at(b, 0, 1, timestamp as nat);
        assert(request_from(b, 0, 0) == request_from(b, b.len() as int, timestamp));
    }
}


/// Relies on `chrono::Utc::now`: the current wall-clock time in whole seconds
/// since the Unix epoch, cast to `u64` as the message field holds it.
#[verifier::external_body]
fn unix_time_now() -> (r: u64) {
    chrono::Utc::now().timestamp() as u64
}

/// A copy of `b[start..end]`.
fn copy_range(b: &[u8], start: usize, end: usize) -> (r: Vec<u8>)
    requires
        start <= end <= b@.len(),
    ensures
        r@ == b@.subrange(start as int, end as int),
{
    let mut out: Vec<u8> = Vec::new();
    append_range(&mut out, b, start, end);
    proof {
        assert(out@ =~= b@.subrange(start as int, end as int));
    }
    out
}

impl DailyStoic {
    /// A broadcast of `content` by `author`, stamped with the current time.
    pub fn new(author: &str, content: String) -> (r: Self)
        ensures
            r@.author == author@,
            r@.content == encode_utf8(content@),
    {
        let now = unix_time_now();
        Self::with_timestamp(author, content.as_str(), now)
    }

    /// A broadcast of `content` by `author`, stamped with `timestamp`.
    pub fn with_timestamp(author: &str, content: &str, timestamp: u64) -> (r: Self)
        ensures
            r@ == (StoicView { timestamp, author: author@, content: encode_utf8(content@) }),
    {
        let bytes = content.as_bytes();
        let text = copy_range(bytes, 0, bytes.len());
        proof {
            assert(bytes@.subrange(0, bytes@.len() as int) =~= bytes@);
        }
        Self { timestamp, author: author.to_owned(), content: text }
    }

    /// The text of the quote.
    pub fn content(&self) -> (r: String)
        requires
            valid_utf8(self@.content),
        ensures
            r@ == decode_utf8(self@.content),
    {
        let bytes = copy_range(self.content.as_slice(), 0, self.content.len());
        proof {
            assert(self.content@.subrange(0, self.content@.len() as int) =~= self.content@);
        }
        match string_from_utf8(bytes) {
            Some(s) => s,
            None => String::new(),
        }
    }

    /// Who the quote is by.
    pub fn author(&self) -> (r: &str)
        ensures
            r@ == self@.author,
    {
        self.author.as_str()
    }

    /// When the broadcast was made, in seconds since the Unix epoch.
    pub fn timestamp(&self) -> (r: u64)
        ensures
            r == self@.timestamp,
    {
        self.timestamp
    }

    /// The wire form of this broadcast.
    pub fn encode(&self) -> (r: Vec<u8>)
        ensures
            r@ == encode_stoic_spec(self@),
    {
        let mut out: Vec<u8> = Vec::new();
        if self.timestamp != 0 {
            encode_varint(TIMESTAMP_TAG * 8, &mut out);
            encode_varint(self.timestamp, &mut out);
        }
        let ghost part1 = out@;
        let author = self.author.as_str();
        if !author.is_empty() {
            let bytes = author.as_bytes();
            encode_varint(AUTHOR_TAG * 8 + 2, &mut out);
            encode_varint(bytes.len() as u64, &mut out);
            append_range(&mut out, bytes, 0, bytes.len());
            proof {
                assert(bytes@.subrange(0, bytes@.len() as int) =~= bytes@);
                assert(out@ =~= part1 + delimited_field(2, encode_utf8(self.author@)));
            }
        } else {
            proof {
                assert(out@ =~= part1 + Seq::<u8>::empty());
            }
        }
        let ghost part2 = out@;
        if self.content.len() != 0 {
            let bytes = self.content.as_slice();
            encode_varint(CONTENT_TAG * 8 + 2, &mut out);
            encode_varint(bytes.len() as u64, &mut out);
            append_range(&mut out, bytes, 0, bytes.len());
            proof {
                assert(bytes@.subrange(0, bytes@.len() as int) =~= bytes@);
                assert(out@ =~= part2 + delimited_field(3, self.content@));
            }
        } else {
            proof {
                assert(out@ =~= part2 + Seq::<u8>::empty());
            }
        }
        proof {
            assert(part1 =~= (if self.timestamp != 0 {
                varint_field(1, self.timestamp as nat)
            } else {
                Seq::<u8>::empty()
            }));
            assert(out@ =~= encode_stoic_spec(self@));
        }
        out
    }

    /// Reads a broadcast from its wire form. Fails exactly where
    /// `decode_stoic_spec` has no message.
    pub fn decode(b: &[u8]) -> (r: Result<Self, DecodeError>)
        ensures
            match decode_stoic_spec(b@) {
                Some(m) => r matches Ok(d) && d@ == m,
                None => r is Err,
            },
    {
        let mut timestamp: u64 = 0;
        let mut author = String::new();
        let mut content: Vec<u8> = Vec::new();
        let mut pos: usize = 0;
        proof {
            assert(content@ =~= Seq::<u8>::empty());
        }
        while pos < b.len()
            invariant
                pos <= b@.len(),
                decode_stoic_spec(b@) == stoic_from(
                    b@,
                    pos as int,
                    StoicView { timestamp, author: author@, content: content@ },
                ),
            decreases b@.len() - pos,
        {
            let ghost acc = StoicView { timestamp, author: author@, content: content@ };
            proof {
                lemma_field_at_advances(b@, pos as int);
            }
            let (f, end) = match read_field(b, pos) {
                Some(x) => x,
                None => return Err(DecodeError),
            };
            match f {
                Field::Varint { tag, value } => {
                    if tag == TIMESTAMP_TAG {
                        timestamp = value;
                    } else if tag == AUTHOR_TAG || tag == CONTENT_TAG {
                        return Err(DecodeError);
                    }
                },
                Field::Delimited { tag, start, end } => {
                    if tag == TIMESTAMP_TAG {
                        return Err(DecodeError);
                    } else if tag == AUTHOR_TAG {
                        match string_from_utf8(copy_range(b, start, end)) {
                            Some(s) => {
                                author = s;
                            },
                            None => return Err(DecodeError),
                        }
                    } else if tag == CONTENT_TAG {
                        content = copy_range(b, start, end);
                    }
                },
                Field::Fixed { tag } => {
                    if TIMESTAMP_TAG <= tag && tag <= CONTENT_TAG {
                        return Err(DecodeError);
                    }
                },
            }
            proof {
                assert(apply_stoic_field(acc, f.within(b@)) == Some(
                    StoicView { timestamp, author: author@, content: content@ },
                ));
            }
            pos = end;
        }
        Ok(Self { timestamp, author, content })
    }
}

impl DailyStoicRequest {
    /// A request stamped with `timestamp`.
    pub fn new(timestamp: u64) -> (r: Self)
        ensures
            r@ == timestamp,
    {
        Self { timestamp }
    }

    /// When the request was made, in seconds since the Unix epoch.
    pub fn timestamp(&self) -> (r: u64)
        ensures
            r == self@,
    {
        self.timestamp
    }

    /// The wire form of this request.
    pub fn encode(&self) -> (r: Vec<u8>)
        ensures
            r@ == encode_request_spec(self@),
    {
        let mut out: Vec<u8> = Vec::new();
        if self.timestamp != 0 {
            encode_varint(TIMESTAMP_TAG * 8, &mut out);
            encode_varint(self.timestamp, &mut out);
        }
        proof {
            assert(out@ =~= encode_request_spec(self@));
        }
        out
    }

    /// Reads a request from its wire form. Fails exactly where
    /// `decode_request_spec` has no request.
    pub fn decode(b: &[u8]) -> (r: Result<Self, DecodeError>)
        ensures
            match decode_request_spec(b@) {
                Some(t) => r matches Ok(d) && d@ == t,
                None => r is Err,
            },
    {
        let mut timestamp: u64 = 0;
        let mut pos: usize = 0;
        while pos < b.len()
            invariant
                pos <= b@.len(),
                decode_request_spec(b@) == request_from(b@, pos as int, timestamp),
            decreases b@.len() - pos,
        {
            proof {
                lemma_field_at_advances(b@, pos as int);
            }
            let (f, end) = match read_field(b, pos) {
                Some(x) => x,
                None => return Err(DecodeError),
            };
            match f {
                Field::Varint { tag, value } => {
                    if tag == TIMESTAMP_TAG {
                        timestamp = value;
                    }
                },
                Field::Delimited { tag, .. } => {
                    if tag == TIMESTAMP_TAG {
                        return Err(DecodeError);
                    }
                },
                Field::Fixed { tag } => {
                    if tag == TIMESTAMP_TAG {
                        return Err(DecodeError);
                    }
                },
            }
            pos = end;
        }
        Ok(Self { timestamp })
    }
}

} // verus!
