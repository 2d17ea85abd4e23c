//! TLV8 codec: the tag-length-value encoding used by the pairing protocol.
//!
//! One logical item is a (tag, value) pair. On the wire an item becomes one
//! record of at most 255 value bytes, or several consecutive records with the
//! same tag when the value is longer. The reader reassembles consecutive
//! same-tag records into one logical item.

use vstd::prelude::*;

verus! {

/// The tag of one TLV8 item, drawn from the fixed set the pairing protocol
/// defines.
#[derive(Debug, Clone, Copy, PartialEq, Eq, Structural)]
pub enum TlvType {
    Method,
    Identifier,
    Salt,
    PublicKey,
    Proof,
    EncryptedData,
    State,
    Error,
    RetryDelay,
    Certificate,
    Signature,
    Permissions,
    FragmentData,
    FragmentLast,
    Separator,
}

/// The wire byte for a tag.
pub open spec fn spec_type_code(t: TlvType) -> u8 {
    match t {
        TlvType::Method => 0x00,
        TlvType::Identifier => 0x01,
        TlvType::Salt => 0x02,
        TlvType::PublicKey => 0x03,
        TlvType::Proof => 0x04,
        TlvType::EncryptedData => 0x05,
        TlvType::State => 0x06,
        TlvType::Error => 0x07,
        TlvType::RetryDelay => 0x08,
        TlvType::Certificate => 0x09,
        TlvType::Signature => 0x0A,
        TlvType::Permissions => 0x0B,
        TlvType::FragmentData => 0x0C,
        TlvType::FragmentLast => 0x0D,
        TlvType::Separator => 0xFF,
    }
}

/// The tag a wire byte stands for, if any.
pub open spec fn spec_code_type(b: u8) -> Option<TlvType> {
    match b {
        0x00 => Some(TlvType::Method),
        0x01 => Some(TlvType::Identifier),
        0x02 => Some(TlvType::Salt),
        0x03 => Some(TlvType::PublicKey),
        0x04 => Some(TlvType::Proof),
        0x05 => Some(TlvType::EncryptedData),
        0x06 => Some(TlvType::State),
        0x07 => Some(TlvType::Error),
        0x08 => Some(TlvType::RetryDelay),
        0x09 => Some(TlvType::Certificate),
        0x0A => Some(TlvType::Signature),
        0x0B => Some(TlvType::Permissions),
        0x0C => Some(TlvType::FragmentData),
        0x0D => Some(TlvType::FragmentLast),
        0xFF => Some(TlvType::Separator),
        _ => None,
    }
}

impl TlvType {
    /// The wire byte for this tag.
    pub fn to_code(self) -> (r: u8)
        ensures
            r == spec_type_code(self),
    {
        match self {
            TlvType::Method => 0x00,
            TlvType::Identifier => 0x01,
            TlvType::Salt => 0x02,
            TlvType::PublicKey => 0x03,
            TlvType::Proof => 0x04,
            TlvType::EncryptedData => 0x05,
            TlvType::State => 0x06,
            TlvType::Error => 0x07,
            TlvType::RetryDelay => 0x08,
            TlvType::Certificate => 0x09,
            TlvType::Signature => 0x0A,
            TlvType::Permissions => 0x0B,
            TlvType::FragmentData => 0x0C,
            TlvType::FragmentLast => 0x0D,
            TlvType::Separator => 0xFF,
        }
    }

    /// The tag a wire byte stands for; `None` for a byte outside the
    /// enumeration.
    pub fn from_code(b: u8) -> (r: Option<TlvType>)
        ensures
            r == spec_code_type(b),
    {
        match b {
            0x00 => Some(TlvType::Method),
            0x01 => Some(TlvType::Identifier),
            0x02 => Some(TlvType::Salt),
            0x03 => Some(TlvType::PublicKey),
            0x04 => Some(TlvType::Proof),
            0x05 => Some(TlvType::EncryptedData),
            0x06 => Some(TlvType::State),
            0x07 => Some(TlvType::Error),
            0x08 => Some(TlvType::RetryDelay),
            0x09 => Some(TlvType::Certificate),
            0x0A => Some(TlvType::Signature),
            0x0B => Some(TlvType::Permissions),
            0x0C => Some(TlvType::FragmentData),
            0x0D => Some(TlvType::FragmentLast),
            0xFF => Some(TlvType::Separator),
            _ => None,
        }
    }
}

/// Why a byte sequence failed to decode.
#[derive(Debug, Clone, Copy, PartialEq, Eq, Structural)]
pub enum CodecError {
    /// Fewer than two bytes remain where a record header is expected, or a
    /// record announces value bytes and the buffer ends at its header.
    Truncated,
    /// A tag byte outside the enumeration.
    InvalidTag,
    /// A record declares more value bytes than the buffer holds.
    LengthOverrun,
}

/// The wire bytes of one logical item: the value split into records of at
/// most 255 bytes, each prefixed by the tag byte and the record length.
pub open spec fn chunk_bytes(t: TlvType, v: Seq<u8>) -> Seq<u8>
    decreases v.len(),
{
    if v.len() <= 255 {
        seq![spec_type_code(t), v.len() as u8] + v
    } else {
        seq![spec_type_code(t), 255u8] + v.take(255) + chunk_bytes(t, v.skip(255))
    }
}

/// The wire records of one logical item, before flattening to bytes.
pub open spec fn chunk_list(t: TlvType, v: Seq<u8>) -> Seq<(TlvType, Seq<u8>)>
    decreases v.len(),
{
    if v.len() <= 255 {
        seq![(t, v)]
    } else {
        seq![(t, v.take(255))] + chunk_list(t, v.skip(255))
    }
}

/// The encoding of an ordered list of logical items, in input order.
pub open spec fn spec_encode(items: Seq<(TlvType, Seq<u8>)>) -> Seq<u8>
    decreases items.len(),
{
    if items.len() == 0 {
        Seq::empty()
    } else {
        chunk_bytes(items[0].0, items[0].1) + spec_encode(items.skip(1))
    }
}

/// The raw records held in a byte sequence, or the error the scan stops at:
/// each record is one tag byte, one length byte, and that many value bytes.
pub open spec fn parse_records(b: Seq<u8>) -> Result<Seq<(TlvType, Seq<u8>)>, CodecError>
    decreases b.len(),
{
    if b.len() == 0 {
        Ok(Seq::empty())
    } else if b.len() < 2 {
        Err(CodecError::Truncated)
    } else if b.len() == 2 && b[1] as int > 0 {
        Err(CodecError::Truncated)
    } else if b.len() < 2 + b[1] as int {
        Err(CodecError::LengthOverrun)
    } else {
        match spec_code_type(b[0]) {
            None => Err(CodecError::InvalidTag),
            Some(t) => match parse_records(b.skip(2 + b[1] as int)) {
                Ok(rest) => Ok(seq![(t, b.subrange(2, 2 + b[1] as int))] + rest),
                Err(e) => Err(e),
            },
        }
    }
}

/// Merges each maximal run of consecutive same-tag records into one logical
/// item, concatenating the values in order.
pub open spec fn merge_records(rs: Seq<(TlvType, Seq<u8>)>) -> Seq<(TlvType, Seq<u8>)>
    decreases rs.len(),
{
    if rs.len() == 0 {
        Seq::empty()
    } else {
        let m = merge_records(rs.drop_last());
        let r = rs.last();
        if rs.len() > 1 && rs[rs.len() - 2].0 == r.0 {
            m.drop_last().push((r.0, m.last().1 + r.1))
        } else {
            m.push(r)
        }
    }
}

/// A nonempty record list merges to a nonempty item list whose last item
/// carries the last record's tag.
pub proof fn lemma_merge_last(rs: Seq<(TlvType, Seq<u8>)>)
    requires
        rs.len() > 0,
    ensures
        merge_records(rs).len() > 0,
        merge_records(rs).last().0 == rs.last().0,
    decreases rs.len(),
{
    if rs.len() > 1 {
        lemma_merge_last(rs.drop_last());
    }
}

/// What decoding a byte sequence yields: the merged logical items, or the
/// error the record scan stops at.
pub open spec fn spec_decode(b: Seq<u8>) -> Result<Seq<(TlvType, Seq<u8>)>, CodecError> {
    match parse_records(b) {
        Ok(rs) => Ok(merge_records(rs)),
        Err(e) => Err(e),
    }
}

/// The wire records of a whole item list, in order.
pub open spec fn records_of(items: Seq<(TlvType, Seq<u8>)>) -> Seq<(TlvType, Seq<u8>)>
    decreases items.len(),
{
    if items.len() == 0 {
        Seq::empty()
    } else {
        records_of(items.drop_last()) + chunk_list(items.last().0, items.last().1)
    }
}

/// The concatenation of the values of a record list, in order.
pub open spec fn concat_values(rs: Seq<(TlvType, Seq<u8>)>) -> Seq<u8>
    decreases rs.len(),
{
    if rs.len() == 0 {
        Seq::empty()
    } else {
        rs[0].1 + concat_values(rs.skip(1))
    }
}

/// The logical view of a decoded item list.
pub open spec fn items_view(v: Seq<(TlvType, Vec<u8>)>) -> Seq<(TlvType, Seq<u8>)> {
    v.map_values(|p: (TlvType, Vec<u8>)| (p.0, p.1@))
}

/// Builds a TLV8 byte sequence item by item.
pub struct Tlv8Writer {
    buffer: Vec<u8>,
}

impl View for Tlv8Writer {
    type V = Seq<u8>;

    closed spec fn view(&self) -> Seq<u8> {
        self.buffer@
    }
}

impl Tlv8Writer {
    /// An empty writer.
    pub fn new() -> (r: Self)
        ensures
            r@ == Seq::<u8>::empty(),
    {
        Tlv8Writer { buffer: Vec::new() }
    }

    /// Appends one logical item, split into records of at most 255 value
    /// bytes; an empty value becomes a single zero-length record.
    pub fn add(&mut self, tlv_type: TlvType, value: &[u8])
        ensures
            final(self)@ == old(self)@ + chunk_bytes(tlv_type, value@),
    {
        let t = tlv_type.to_code();
        if value.len() == 0 {
            self.buffer.push(t);
            self.buffer.push(0);
            proof {
                assert(chunk_bytes(tlv_type, value@) =~= seq![spec_type_code(tlv_type), 0u8]);
                assert(self.buffer@ =~= old(self)@ + chunk_bytes(tlv_type, value@));
            }
            return;
        }
        let mut offset: usize = 0;
        proof {
            assert(value@.skip(0) =~= value@);
        }
        while offset < value.len()
            invariant
                t == spec_type_code(tlv_type),
                offset <= value@.len(),
                value@.len() <= usize::MAX,
                offset < value@.len() ==> self.buffer@ + chunk_bytes(
                    tlv_type,
                    value@.skip(offset as int),
                ) == old(self)@ + chunk_bytes(tlv_type, value@),
                offset == value@.len() ==> self.buffer@ == old(self)@ + chunk_bytes(
                    tlv_type,
                    value@,
                ),
            decreases value@.len() - offset,
        {
            let remaining = value.len() - offset;
            let chunk_size = if remaining < 255 {
                remaining
            } else {
                255
            };
            let ghost pre = self.buffer@;
            let ghost rest = value@.skip(offset as int);
            self.buffer.push(t);
            self.buffer.push(chunk_size as u8);
            let end = offset + chunk_size;
            let ghost pre2 = self.buffer@;
            proof {
                assert(pre2 + value@.subrange(offset as int, offset as int) =~= pre2);
            }
            let mut j: usize = offset;
            while j < end
                invariant
                    offset <= j <= end,
                    end <= value@.len(),
                    self.buffer@ == pre2 + value@.subrange(offset as int, j as int),
                decreases end - j,
            {
                self.buffer.push(value[j]);
                proof {
                    assert(pre2 + value@.subrange(offset as int, j as int) + seq![value@[j as int]]
                        =~= pre2 + value@.subrange(offset as int, j + 1));
                }
                j = j + 1;
            }
            proof {
                let head = seq![spec_type_code(tlv_type), chunk_size as u8] + value@.subrange(
                    offset as int,
                    end as int,
                );
                assert(self.buffer@ =~= pre + head);
                if rest.len() <= 255 {
                    assert(value@.subrange(offset as int, end as int) =~= rest);
                    assert(chunk_bytes(tlv_type, rest) =~= head);
                } else {
                    assert(value@.subrange(offset as int, end as int) =~= rest.take(255));
                    assert(value@.skip(end as int) =~= rest.skip(255));
                    assert(chunk_bytes(tlv_type, rest) =~= head + chunk_bytes(
                        tlv_type,
                        value@.skip(end as int),
                    ));
                }
            }
            offset = end;
        }
    }

    /// Drops everything added so far.
    pub fn clear(&mut self)
        ensures
            final(self)@ == Seq::<u8>::empty(),
    {
        self.buffer.clear();
    }

    /// The accumulated wire bytes.
    pub fn to_vec(self) -> (r: Vec<u8>)
        ensures
            r@ == self@,
    {
        self.buffer
    }
}

/// Appends `src[from..to]` to `dst`.
pub(crate) fn push_range(dst: &mut Vec<u8>, src: &[u8], from: usize, to: usize)
    requires
        from <= to <= src@.len(),
    ensures
        final(dst)@ == old(dst)@ + src@.subrange(from as int, to as int),
{
    proof {
        assert(old(dst)@ + src@.subrange(from as int, from as int) =~= old(dst)@);
    }
    let mut j: usize = from;
    while j < to
        invariant
            from <= j <= to,
            to <= src@.len(),
            dst@ == old(dst)@ + src@.subrange(from as int, j as int),
        decreases to - j,
    {
        dst.push(src[j]);
        proof {
            assert(old(dst)@ + src@.subrange(from as int, j as int) + seq![src@[j as int]] =~= old(
                dst,
            )@ + src@.subrange(from as int, j + 1));
        }
        j = j + 1;
    }
}

proof fn lemma_items_view_push(s: Seq<(TlvType, Vec<u8>)>, x: (TlvType, Vec<u8>))
    ensures
        items_view(s.push(x)) =~= items_view(s).push((x.0, x.1@)),
{
}

/// Reads logical TLV8 items out of a borrowed byte buffer.
pub struct Tlv8Reader<'a> {
    input: &'a [u8],
}

impl<'a> View for Tlv8Reader<'a> {
    type V = Seq<u8>;

    closed spec fn view(&self) -> Seq<u8> {
        self.input@
    }
}

impl<'a> Tlv8Reader<'a> {
    /// A reader over the given wire bytes.
    pub fn new(input: &'a [u8]) -> (r: Self)
        ensures
            r@ == input@,
    {
        Tlv8Reader { input }
    }

    /// Decodes the buffer into logical items: scans the records in order,
    /// merging each run of consecutive same-tag records into one item, and
    /// reports the first malformed record as an error.
    pub fn read(&self) -> (r: Result<Vec<(TlvType, Vec<u8>)>, CodecError>)
        ensures
            (match r {
                Ok(v) => spec_decode(self@) == Ok::<Seq<(TlvType, Seq<u8>)>, CodecError>(
                    items_view(v@),
                ),
                Err(e) => spec_decode(self@) == Err::<Seq<(TlvType, Seq<u8>)>, CodecError>(e),
            }),
    {
        let mut decoded: Vec<(TlvType, Vec<u8>)> = Vec::new();
        let mut current_type: Option<TlvType> = None;
        let mut current_value: Vec<u8> = Vec::new();
        let mut p: usize = 0;
        let n = self.input.len();
        let ghost mut processed: Seq<(TlvType, Seq<u8>)> = Seq::empty();
        proof {
            assert(self@.skip(0) =~= self@);
            match parse_records(self@) {
                Ok(rest) => {
                    assert(processed + rest =~= rest);
                },
                Err(_) => {},
            }
        }
        while p < n
            invariant
                n == self@.len(),
                p <= n,
                parse_records(self@) == (match parse_records(self@.skip(p as int)) {
                    Ok(rest) => Ok::<Seq<(TlvType, Seq<u8>)>, CodecError>(processed + rest),
                    Err(e) => Err::<Seq<(TlvType, Seq<u8>)>, CodecError>(e),
                }),
                (match current_type {
                    None => processed.len() == 0 && decoded@.len() == 0 && current_value@.len()
                        == 0,
                    Some(ct) => processed.len() > 0 && processed.last().0 == ct && merge_records(
                        processed,
                    ) == items_view(decoded@).push((ct, current_value@)),
                }),
            decreases n - p,
        {
            let ghost b = self@.skip(p as int);
            if n - p < 2 {
                proof {
                    assert(b.len() == 1);
                    assert(parse_records(b) == Err::<Seq<(TlvType, Seq<u8>)>, CodecError>(
                        CodecError::Truncated,
                    ));
                }
                return Err(CodecError::Truncated);
            }
            let t = self.input[p];
            let l = self.input[p + 1] as usize;
            proof {
                assert(b.len() == n - p >= 2);
                assert(b[0] == self@[p as int]);
                assert(b[1] == self@[p as int + 1]);
            }
            if l > 0 && n - p == 2 {
                proof {
                    assert(parse_records(b) == Err::<Seq<(TlvType, Seq<u8>)>, CodecError>(
                        CodecError::Truncated,
                    ));
                }
                return Err(CodecError::Truncated);
            }
            if l > n - p - 2 {
                proof {
                    assert(b.len() < 2 + b[1] as int);
                    assert(parse_records(b) == Err::<Seq<(TlvType, Seq<u8>)>, CodecError>(
                        CodecError::LengthOverrun,
                    ));
                }
                return Err(CodecError::LengthOverrun);
            }
            let tlv_type = match TlvType::from_code(t) {
                None => {
                    proof {
                        assert(parse_records(b) == Err::<Seq<(TlvType, Seq<u8>)>, CodecError>(
                            CodecError::InvalidTag,
                        ));
                    }
                    return Err(CodecError::InvalidTag);
                },
                Some(tt) => tt,
            };
            let start = p + 2;
            let end = start + l;
            let ghost rec = (tlv_type, self@.subrange(start as int, end as int));
            proof {
                assert(b.subrange(2, 2 + b[1] as int) =~= self@.subrange(
                    start as int,
                    end as int,
                ));
                assert(b.skip(2 + b[1] as int) =~= self@.skip(end as int));
                match parse_records(self@.skip(end as int)) {
                    Ok(rest) => {
                        assert(parse_records(b) == Ok::<Seq<(TlvType, Seq<u8>)>, CodecError>(
                            seq![rec] + rest,
                        ));
                        assert(processed + (seq![rec] + rest) =~= processed.push(rec) + rest);
                    },
                    Err(_) => {},
                }
            }
            let is_same: bool = match current_type {
                Some(ct) => ct == tlv_type,
                None => false,
            };
            if is_same {
                let ghost old_cv = current_value@;
                push_range(&mut current_value, self.input, start, end);
                proof {
                    assert(current_type == Some(tlv_type));
                    let newp = processed.push(rec);
                    assert(newp.drop_last() =~= processed);
                    assert(newp[newp.len() - 2] == processed.last());
                    assert(merge_records(newp) == merge_records(processed).drop_last().push(
                        (rec.0, merge_records(processed).last().1 + rec.1),
                    ));
                    assert(items_view(decoded@).push((tlv_type, old_cv)).drop_last()
                        =~= items_view(decoded@));
                    assert(merge_records(newp) == items_view(decoded@).push(
                        (tlv_type, current_value@),
                    ));
                    processed = newp;
                }
            } else {
                if let Some(ct) = current_type {
                    let ghost dv0 = decoded@;
                    let finished = current_value;
                    current_value = Vec::new();
                    decoded.push((ct, finished));
                    proof {
                        lemma_items_view_push(dv0, (ct, finished));
                        assert(items_view(decoded@) == merge_records(processed));
                    }
                }
                current_type = Some(tlv_type);
                push_range(&mut current_value, self.input, start, end);
                proof {
                    let newp = processed.push(rec);
                    assert(current_value@ =~= rec.1);
                    if processed.len() == 0 {
                        assert(newp.drop_last() =~= Seq::<(TlvType, Seq<u8>)>::empty());
                        assert(merge_records(Seq::<(TlvType, Seq<u8>)>::empty()) =~= Seq::<
                            (TlvType, Seq<u8>),
                        >::empty());
                        assert(merge_records(newp) =~= seq![rec]);
                        assert(items_view(decoded@) =~= Seq::<(TlvType, Seq<u8>)>::empty());
                    } else {
                        assert(newp.drop_last() =~= processed);
                        assert(newp[newp.len() - 2] == processed.last());
                        assert(merge_records(newp) == merge_records(processed).push(rec));
                    }
                    assert(merge_records(newp) == items_view(decoded@).push(
                        (tlv_type, current_value@),
                    ));
                    processed = newp;
                }
            }
            p = end;
        }
        proof {
            assert(self@.skip(n as int) =~= Seq::<u8>::empty());
            assert(parse_records(Seq::<u8>::empty()) == Ok::<Seq<(TlvType, Seq<u8>)>, CodecError>(
                Seq::empty(),
            ));
            assert(processed + Seq::<(TlvType, Seq<u8>)>::empty() =~= processed);
            assert(parse_records(self@) == Ok::<Seq<(TlvType, Seq<u8>)>, CodecError>(processed));
        }
        if let Some(ct) = current_type {
            let ghost dv0 = decoded@;
            let finished = current_value;
            decoded.push((ct, finished));
            proof {
                lemma_items_view_push(dv0, (ct, finished));
                assert(items_view(decoded@) == merge_records(processed));
            }
        } else {
            proof {
                assert(items_view(decoded@) =~= Seq::<(TlvType, Seq<u8>)>::empty());
            }
        }
        Ok(decoded)
    }
}

proof fn lemma_type_code_roundtrip(t: TlvType)
    ensures
        spec_code_type(spec_type_code(t)) == Some(t),
{
}

/// Parsing the wire bytes of one item followed by anything else yields the
/// item's records followed by whatever the remainder parses to.
proof fn lemma_parse_chunk(t: TlvType, v: Seq<u8>, rest: Seq<u8>)
    ensures
        parse_records(chunk_bytes(t, v) + rest) == (match parse_records(rest) {
            Ok(rs) => Ok::<Seq<(TlvType, Seq<u8>)>, CodecError>(chunk_list(t, v) + rs),
            Err(e) => Err::<Seq<(TlvType, Seq<u8>)>, CodecError>(e),
        }),
    decreases v.len(),
{
    lemma_type_code_roundtrip(t);
    if v.len() <= 255 {
        let b = chunk_bytes(t, v) + rest;
        assert(b.len() == 2 + v.len() + rest.len());
        assert(b[0] == spec_type_code(t));
        assert(b[1] == v.len() as u8);
        assert(b[1] as int == v.len());
        assert(b.subrange(2, 2 + v.len() as int) =~= v);
        assert(b.skip(2 + v.len() as int) =~= rest);
        match parse_records(rest) {
            Ok(rs) => {
                assert(parse_records(b) == Ok::<Seq<(TlvType, Seq<u8>)>, CodecError>(
                    seq![(t, v)] + rs,
                ));
                assert(seq![(t, v)] + rs =~= chunk_list(t, v) + rs);
            },
            Err(_) => {},
        }
    } else {
        let b = chunk_bytes(t, v) + rest;
        let tail = chunk_bytes(t, v.skip(255)) + rest;
        assert(b =~= (seq![spec_type_code(t), 255u8] + v.take(255)) + tail);
        assert(b.len() >= 257);
        assert(b[0] == spec_type_code(t));
        assert(b[1] == 255u8);
        assert(b.subrange(2, 257) =~= v.take(255));
        assert(b.skip(257) =~= tail);
        lemma_parse_chunk(t, v.skip(255), rest);
        match parse_records(rest) {
            Ok(rs) => {
                assert(parse_records(tail) == Ok::<Seq<(TlvType, Seq<u8>)>, CodecError>(
                    chunk_list(t, v.skip(255)) + rs,
                ));
                assert(parse_records(b) == Ok::<Seq<(TlvType, Seq<u8>)>, CodecError>(
                    seq![(t, v.take(255))] + (chunk_list(t, v.skip(255)) + rs),
                ));
                assert(seq![(t, v.take(255))] + (chunk_list(t, v.skip(255)) + rs) =~= chunk_list(
                    t,
                    v,
                ) + rs);
            },
            Err(e) => {
                assert(parse_records(tail) == Err::<Seq<(TlvType, Seq<u8>)>, CodecError>(e));
                assert(parse_records(b) == Err::<Seq<(TlvType, Seq<u8>)>, CodecError>(e));
            },
        }
    }
}

proof fn lemma_records_of_left(items: Seq<(TlvType, Seq<u8>)>)
    requires
        items.len() > 0,
    ensures
        records_of(items) == chunk_list(items[0].0, items[0].1) + records_of(items.skip(1)),
    decreases items.len(),
{
    if items.len() == 1 {
        assert(items.drop_last() =~= Seq::<(TlvType, Seq<u8>)>::empty());
        assert(items.skip(1) =~= Seq::<(TlvType, Seq<u8>)>::empty());
        assert(records_of(Seq::<(TlvType, Seq<u8>)>::empty()) == Seq::<
            (TlvType, Seq<u8>),
        >::empty());
        assert(items.last() == items[0]);
        assert(Seq::<(TlvType, Seq<u8>)>::empty() + chunk_list(items[0].0, items[0].1)
            =~= chunk_list(items[0].0, items[0].1) + Seq::<(TlvType, Seq<u8>)>::empty());
    } else {
        let init = items.drop_last();
        lemma_records_of_left(init);
        assert(init.skip(1) =~= items.skip(1).drop_last());
        assert(items.skip(1).last() == items.last());
        assert(items.skip(1).len() > 0);
        assert(records_of(items.skip(1)) == records_of(items.skip(1).drop_last()) + chunk_list(
            items.last().0,
            items.last().1,
        ));
        assert((chunk_list(items[0].0, items[0].1) + records_of(init.skip(1))) + chunk_list(
            items.last().0,
            items.last().1,
        ) =~= chunk_list(items[0].0, items[0].1) + (records_of(init.skip(1)) + chunk_list(
            items.last().0,
            items.last().1,
        )));
    }
}

/// Parsing an encoding recovers exactly the items' wire records.
proof fn lemma_parse_encode(items: Seq<(TlvType, Seq<u8>)>)
    ensures
        parse_records(spec_encode(items)) == Ok::<Seq<(TlvType, Seq<u8>)>, CodecError>(
            records_of(items),
        ),
    decreases items.len(),
{
    if items.len() == 0 {
        assert(spec_encode(items) == Seq::<u8>::empty());
        assert(parse_records(Seq::<u8>::empty()) == Ok::<Seq<(TlvType, Seq<u8>)>, CodecError>(
            Seq::empty(),
        ));
    } else {
        lemma_parse_encode(items.skip(1));
        lemma_parse_chunk(items[0].0, items[0].1, spec_encode(items.skip(1)));
        lemma_records_of_left(items);
    }
}

proof fn lemma_chunk_list_last(t: TlvType, v: Seq<u8>)
    ensures
        chunk_list(t, v).len() > 0,
        chunk_list(t, v).last().0 == t,
    decreases v.len(),
{
    if v.len() > 255 {
        lemma_chunk_list_last(t, v.skip(255));
        assert((seq![(t, v.take(255))] + chunk_list(t, v.skip(255))).last() == chunk_list(
            t,
            v.skip(255),
        ).last());
    }
}

proof fn lemma_records_of_last(items: Seq<(TlvType, Seq<u8>)>)
    requires
        items.len() > 0,
    ensures
        records_of(items).len() > 0,
        records_of(items).last().0 == items.last().0,
{
    lemma_chunk_list_last(items.last().0, items.last().1);
}

/// Appending one item's records to a record list that ends with the same tag
/// extends the last merged item by the new value.
proof fn lemma_merge_run(y: Seq<(TlvType, Seq<u8>)>, t: TlvType, w: Seq<u8>)
    requires
        y.len() > 0,
        y.last().0 == t,
    ensures
        merge_records(y + chunk_list(t, w)) == merge_records(y).drop_last().push(
            (t, merge_records(y).last().1 + w),
        ),
    decreases w.len(),
{
    lemma_merge_last(y);
    if w.len() <= 255 {
        let s = y + chunk_list(t, w);
        assert(s.drop_last() =~= y);
        assert(s.last() == (t, w));
        assert(s.len() > 1);
        assert(s[s.len() - 2] == y.last());
        assert(merge_records(s) == merge_records(y).drop_last().push(
            (t, merge_records(y).last().1 + w),
        ));
    } else {
        let y2 = y.push((t, w.take(255)));
        assert(y + chunk_list(t, w) =~= y2 + chunk_list(t, w.skip(255)));
        assert(y2.drop_last() =~= y);
        assert(y2[y2.len() - 2] == y.last());
        let m = merge_records(y);
        let m2 = merge_records(y2);
        assert(m2 == m.drop_last().push((t, m.last().1 + w.take(255))));
        lemma_merge_run(y2, t, w.skip(255));
        assert(m2.drop_last() =~= m.drop_last());
        assert(m2.last() == (t, m.last().1 + w.take(255)));
        assert((m.last().1 + w.take(255)) + w.skip(255) =~= m.last().1 + w);
        assert(merge_records(y + chunk_list(t, w)) == m.drop_last().push((t, m.last().1 + w)));
    }
}

/// Appending one item's records to a record list that is empty or ends with
/// a different tag appends one merged item carrying the whole value.
proof fn lemma_merge_append_run(x: Seq<(TlvType, Seq<u8>)>, t: TlvType, v: Seq<u8>)
    requires
        x.len() == 0 || x.last().0 != t,
    ensures
        merge_records(x + chunk_list(t, v)) == merge_records(x).push((t, v)),
    decreases v.len(),
{
    if v.len() <= 255 {
        let s = x + chunk_list(t, v);
        assert(s.drop_last() =~= x);
        assert(s.last() == (t, v));
        if x.len() == 0 {
            assert(merge_records(s) == merge_records(x).push((t, v)));
        } else {
            assert(s[s.len() - 2] == x.last());
            assert(merge_records(s) == merge_records(x).push((t, v)));
        }
    } else {
        let x2 = x.push((t, v.take(255)));
        assert(x + chunk_list(t, v) =~= x2 + chunk_list(t, v.skip(255)));
        assert(x2.drop_last() =~= x);
        if x.len() > 0 {
            assert(x2[x2.len() - 2] == x.last());
        }
        let m = merge_records(x);
        let m2 = merge_records(x2);
        assert(m2 == m.push((t, v.take(255))));
        lemma_merge_run(x2, t, v.skip(255));
        assert(m2.drop_last() =~= m);
        assert(m2.last() == (t, v.take(255)));
        assert(v.take(255) + v.skip(255) =~= v);
        assert(merge_records(x + chunk_list(t, v)) == m.push((t, v)));
    }
}

/// Merging the wire records of an item list whose adjacent items carry
/// distinct tags recovers the item list.
proof fn lemma_merge_records_of(items: Seq<(TlvType, Seq<u8>)>)
    requires
        forall|i: int| 0 <= i < items.len() - 1 ==> (#[trigger] items[i]).0 != items[i + 1].0,
    ensures
        merge_records(records_of(items)) == items,
    decreases items.len(),
{
    if items.len() == 0 {
        assert(merge_records(records_of(items)) =~= items);
    } else {
        let init = items.drop_last();
        assert(forall|i: int| 0 <= i < init.len() - 1 ==> (#[trigger] init[i]).0 != init[i + 1].0);
        lemma_merge_records_of(init);
        if init.len() == 0 {
            lemma_merge_append_run(records_of(init), items.last().0, items.last().1);
            assert((items.last().0, items.last().1) == items.last());
            assert(merge_records(records_of(items)) =~= items);
        } else {
            lemma_records_of_last(init);
            assert(records_of(init).last().0 == init.last().0);
            assert(init.last() == items[items.len() - 2]);
            assert(init.last().0 != items.last().0);
            lemma_merge_append_run(records_of(init), items.last().0, items.last().1);
            assert((items.last().0, items.last().1) == items.last());
            assert(init.push(items.last()) =~= items);
        }
    }
}

/// Round trip: decoding an encoding returns the original logical items, for
/// any item list in which no two adjacent items share a tag. (The reader
/// merges adjacent same-tag runs, so two adjacent same-tag items are not
/// distinguishable on the wire from one item carrying both values.)
pub proof fn lemma_round_trip(items: Seq<(TlvType, Seq<u8>)>)
    requires
        forall|i: int| 0 <= i < items.len() - 1 ==> (#[trigger] items[i]).0 != items[i + 1].0,
    ensures
        spec_decode(spec_encode(items)) == Ok::<Seq<(TlvType, Seq<u8>)>, CodecError>(items),
{
    lemma_parse_encode(items);
    lemma_merge_records_of(items);
}

/// Chunk count law: a value of length `L` becomes exactly
/// `max(1, ceil(L / 255))` wire records, all carrying the item's tag, each
/// holding at most 255 value bytes, whose values concatenate, in order, to
/// the value; and those records are exactly what the item's wire bytes parse
/// back to.
pub proof fn lemma_chunk_count(t: TlvType, v: Seq<u8>)
    ensures
        chunk_list(t, v).len() == if v.len() == 0 {
            1int
        } else {
            ((v.len() + 254) / 255) as int
        },
        forall|i: int|
            0 <= i < chunk_list(t, v).len() ==> #[trigger] chunk_list(t, v)[i].0 == t
                && chunk_list(t, v)[i].1.len() <= 255,
        concat_values(chunk_list(t, v)) == v,
        parse_records(chunk_bytes(t, v)) == Ok::<Seq<(TlvType, Seq<u8>)>, CodecError>(
            chunk_list(t, v),
        ),
    decreases v.len(),
{
    lemma_parse_chunk(t, v, Seq::empty());
    assert(chunk_bytes(t, v) + Seq::<u8>::empty() =~= chunk_bytes(t, v));
    assert(parse_records(Seq::<u8>::empty()) == Ok::<Seq<(TlvType, Seq<u8>)>, CodecError>(
        Seq::empty(),
    ));
    assert(chunk_list(t, v) + Seq::<(TlvType, Seq<u8>)>::empty() =~= chunk_list(t, v));
    if v.len() <= 255 {
        if v.len() > 0 {
            assert((v.len() + 254) / 255 == 1) by {
                assert(255 <= v.len() + 254 < 510);
            };
        }
        let cl = chunk_list(t, v);
        assert(cl == seq![(t, v)]);
        assert(cl.skip(1) =~= Seq::<(TlvType, Seq<u8>)>::empty());
        assert(concat_values(Seq::<(TlvType, Seq<u8>)>::empty()) == Seq::<u8>::empty());
        assert(concat_values(cl) == v + Seq::<u8>::empty());
        assert(v + Seq::<u8>::empty() =~= v);
    } else {
        lemma_chunk_count(t, v.skip(255));
        let l = v.len() as int;
        vstd::arithmetic::div_mod::lemma_hoist_over_denominator(l - 1, 1, 255);
        assert((l - 1) / 255 + 1 == (l + 254) / 255);
        assert(chunk_list(t, v).skip(1) =~= chunk_list(t, v.skip(255)));
        assert(concat_values(chunk_list(t, v)) == v.take(255) + concat_values(
            chunk_list(t, v.skip(255)),
        ));
        assert(v.take(255) + v.skip(255) =~= v);
    }
}

/// Encoding one more item appends that item's wire bytes.
pub proof fn lemma_encode_push(items: Seq<(TlvType, Seq<u8>)>, it: (TlvType, Seq<u8>))
    ensures
        spec_encode(items.push(it)) == spec_encode(items) + chunk_bytes(it.0, it.1),
    decreases items.len(),
{
    if items.len() == 0 {
        assert(items.push(it)[0] == it);
        assert(items.push(it).skip(1) =~= Seq::<(TlvType, Seq<u8>)>::empty());
        assert(spec_encode(Seq::<(TlvType, Seq<u8>)>::empty()) == Seq::<u8>::empty());
        assert(chunk_bytes(it.0, it.1) + Seq::<u8>::empty() =~= chunk_bytes(it.0, it.1));
        assert(Seq::<u8>::empty() + chunk_bytes(it.0, it.1) =~= chunk_bytes(it.0, it.1));
        assert((it.0, it.1) == it);
    } else {
        lemma_encode_push(items.skip(1), it);
        assert(items.push(it).skip(1) =~= items.skip(1).push(it));
        assert(items.push(it)[0] == items[0]);
        assert(chunk_bytes(items[0].0, items[0].1) + (spec_encode(items.skip(1)) + chunk_bytes(
            it.0,
            it.1,
        )) =~= (chunk_bytes(items[0].0, items[0].1) + spec_encode(items.skip(1))) + chunk_bytes(
            it.0,
            it.1,
        ));
    }
}

} // verus!
