//! Messages relayed by the gateway, and the scanner that splits a radio
//! advertisement into its length-prefixed structures.

use vstd::prelude::*;
use vstd::slice::{slice_subrange, slice_to_vec};
use vstd::utf8::encode_utf8;

verus! {

/// One advertisement structure: a type code and its payload.
#[derive(Debug, Clone, PartialEq, Eq)]
pub struct AdMessage {
    pub ad_type: u8,
    pub payload: Vec<u8>,
}

/// A structure whose length byte runs past the end of the buffer.
#[derive(Debug, Clone, Copy, PartialEq, Eq)]
pub struct AdMessageParseError;

/// A structure as its type code and payload, or `Err(())` for a framing failure.
pub type StructureView = Result<(u8, Seq<u8>), ()>;

pub open spec fn structure_view(r: Result<AdMessage, AdMessageParseError>) -> StructureView {
    match r {
        Ok(m) => Ok((m.ad_type, m.payload@)),
        Err(_) => Err(()),
    }
}

/// Whether the first structure of a non-empty buffer is complete: its length
/// byte is at least one and no more bytes than follow it.
pub open spec fn first_fits(s: Seq<u8>) -> bool {
    s.len() > 0 && s[0] >= 1 && s[0] <= s.len() - 1
}

/// The first structure of a non-empty buffer.
pub open spec fn first_structure(s: Seq<u8>) -> StructureView {
    if first_fits(s) {
        Ok((s[1], s.subrange(2, 1 + s[0])))
    } else {
        Err(())
    }
}

/// What remains of a non-empty buffer after its first structure: nothing after
/// a framing failure.
pub open spec fn rest_after_first(s: Seq<u8>) -> Seq<u8> {
    if first_fits(s) {
        s.subrange(1 + s[0], s.len() as int)
    } else {
        Seq::<u8>::empty()
    }
}

/// All structures of a buffer, in order; a framing failure is the last item.
pub open spec fn structures(s: Seq<u8>) -> Seq<StructureView>
    decreases s.len(),
{
    if s.len() == 0 {
        Seq::<StructureView>::empty()
    } else if first_fits(s) {
        seq![first_structure(s)] + structures(s.subrange(1 + s[0], s.len() as int))
    } else {
        seq![Err(())]
    }
}

/// The bytes that a sequence of complete structures occupies: a length byte, a
/// type byte and the payload for each.
pub open spec fn framed_len(items: Seq<StructureView>) -> int
    decreases items.len(),
{
    if items.len() == 0 {
        0
    } else {
        let n = match items[0] {
            Ok(m) => m.1.len() + 2,
            Err(_) => 0,
        };
        n + framed_len(items.drop_first())
    }
}

/// An iterator over the structures of a buffer. After a framing failure it
/// is exhausted.
#[derive(Debug)]
pub struct AdMessageIter<'d>(pub &'d [u8]);

impl<'d> AdMessageIter<'d> {
    /// The next structure, `None` once the buffer is consumed.
    pub fn next(&mut self) -> (r: Option<Result<AdMessage, AdMessageParseError>>)
        ensures
            old(self).0@.len() == 0 ==> r is None && final(self).0@.len() == 0,
            old(self).0@.len() > 0 ==> r is Some && structure_view(r->0) == first_structure(
                old(self).0@,
            ) && final(self).0@ == rest_after_first(old(self).0@),
    {
        let data = self.0;
        let n = data.len();
        if n == 0 {
            return None;
        }
        let len = data[0] as usize;
        if len == 0 || len > n - 1 {
            self.0 = slice_subrange(data, n, n);
            return Some(Err(AdMessageParseError));
        }
        let ad_type = data[1];
        let payload = slice_to_vec(slice_subrange(data, 2, 1 + len));
        self.0 = slice_subrange(data, 1 + len, n);
        Some(Ok(AdMessage { ad_type, payload }))
    }
}

/// Every structure of the buffer, in order.
pub fn scan(data: &[u8]) -> (r: Vec<Result<AdMessage, AdMessageParseError>>)
    ensures
        r@.map_values(|m| structure_view(m)) == structures(data@),
{
    let mut iter = AdMessageIter(data);
    let mut out: Vec<Result<AdMessage, AdMessageParseError>> = Vec::new();
    while iter.0.len() > 0
        invariant
            out@.map_values(|m| structure_view(m)) + structures(iter.0@) == structures(data@),
        decreases iter.0@.len(),
    {
        let ghost before = iter.0@;
        let ghost done = out@;
        let item = iter.next();
        if let Some(m) = item {
            out.push(m);
        }
        proof {
            assert(structures(before) =~= seq![first_structure(before)] + structures(iter.0@));
            assert(out@.map_values(|m| structure_view(m)) =~= done.map_values(
                |m| structure_view(m),
            ).push(first_structure(before)));
        }
    }
    assert(structures(iter.0@) =~= Seq::<StructureView>::empty());
    assert(out@.map_values(|m| structure_view(m)) + structures(iter.0@) =~= out@.map_values(
        |m| structure_view(m),
    ));
    out
}

/// A buffer made of complete structures is consumed exactly: the payloads
/// with one length byte and one type byte each add up to its length; an empty
/// buffer holds no structure.
pub proof fn lemma_structures_cover_buffer(s: Seq<u8>)
    requires
        forall|i: int| 0 <= i < structures(s).len() ==> structures(s)[i] is Ok,
    ensures
        framed_len(structures(s)) == s.len(),
        s.len() == 0 ==> structures(s).len() == 0,
    decreases s.len(),
{
    if s.len() > 0 {
        if first_fits(s) {
            let rest = s.subrange(1 + s[0], s.len() as int);
            let items = structures(s);
            assert(items.drop_first() =~= structures(rest));
            assert forall|i: int| 0 <= i < structures(rest).len() implies structures(rest)[i] is Ok by {
                assert(structures(rest)[i] == items[i + 1]);
            }
            lemma_structures_cover_buffer(rest);
        } else {
            assert(structures(s)[0] is Err);
        }
    }
}

/// A length byte that runs past the end of the buffer gives one failure and
/// nothing after it.
pub proof fn lemma_truncated_structure(s: Seq<u8>)
    requires
        s.len() > 0,
        s[0] > s.len() - 1,
    ensures
        structures(s) == seq![Err::<(u8, Seq<u8>), ()>(())],
{
}

/// A failure can only be the last item of a scan.
pub proof fn lemma_failure_is_last(s: Seq<u8>, i: int)
    requires
        0 <= i < structures(s).len(),
        structures(s)[i] is Err,
    ensures
        i == structures(s).len() - 1,
    decreases s.len(),
{
    if s.len() > 0 && first_fits(s) {
        let rest = s.subrange(1 + s[0], s.len() as int);
        assert(structures(s)[0] is Ok);
        assert(structures(s)[i] == structures(rest)[i - 1]);
        lemma_failure_is_last(rest, i - 1);
    }
}

/// One sensor's message as the gateway sends it: the advertisement in hex,
/// the capture time in seconds since the Unix epoch and the signal strength.
#[derive(Debug, Clone, PartialEq, Eq)]
pub struct RawTagMessage {
    pub data: String,
    pub timestamp: u64,
    pub rssi: i32,
}

/// The gateway's message as it arrives: coordinates, time, nonce, the
/// gateway's identifier, and each sensor's message under its identifier.
#[derive(Debug, Clone, PartialEq, Eq)]
pub struct RawGwMessage {
    pub coordinates: String,
    pub timestamp: u64,
    pub nonce: u64,
    pub gw_mac: String,
    pub tags: Vec<(String, RawTagMessage)>,
}

/// One sensor's message with the advertisement as bytes.
#[derive(Debug, Clone, PartialEq, Eq)]
pub struct TagMessage {
    pub name: String,
    pub data: Vec<u8>,
    pub timestamp: u64,
    pub rssi: i32,
}

/// The gateway's message with every advertisement as bytes.
#[derive(Debug, Clone, PartialEq, Eq)]
pub struct GwMessage {
    pub coordinates: String,
    pub timestamp: u64,
    pub nonce: u64,
    pub gw_mac: String,
    pub tags: Vec<TagMessage>,
}

/// An advertisement that is not a hex string of whole bytes.
#[derive(Debug, Clone, Copy, PartialEq, Eq)]
pub struct InvalidHex;

/// The value of an ASCII hex digit, either case.
pub open spec fn hex_value(c: u8) -> Option<u8> {
    if 48 <= c <= 57 {
        Some((c - 48) as u8)
    } else if 97 <= c <= 102 {
        Some((c - 87) as u8)
    } else if 65 <= c <= 70 {
        Some((c - 55) as u8)
    } else {
        None
    }
}

/// An even number of hex digits.
pub open spec fn hex_valid(b: Seq<u8>) -> bool {
    b.len() % 2 == 0 && forall|i: int| 0 <= i < b.len() ==> (#[trigger] hex_value(b[i])) is Some
}

/// The bytes that pairs of hex digits stand for, high digit first.
pub open spec fn hex_bytes(b: Seq<u8>) -> Seq<u8> {
    Seq::new(
        (b.len() / 2) as nat,
        |i: int| (hex_value(b[2 * i])->0 * 16 + hex_value(b[2 * i + 1])->0) as u8,
    )
}

#[verifier::external_type_specification]
#[verifier::external_body]
pub struct ExFromHexError(hex::FromHexError);

/// Relies on `hex::decode`: an odd length or a byte that is no hex digit is
/// an error; otherwise each pair of digits gives one byte, high digit first.
#[verifier::external_body]
fn decode_hex(text: &[u8]) -> (r: Result<Vec<u8>, hex::FromHexError>)
    ensures
        r is Ok <==> hex_valid(text@),
        r is Ok ==> r->Ok_0@ == hex_bytes(text@),
{
    hex::decode(text)
}

impl TagMessage {
    /// Decodes the hex advertisement of one sensor's message.
    pub fn from_raw(name: &str, raw: &RawTagMessage) -> (r: Result<TagMessage, InvalidHex>)
        ensures
            r is Ok <==> hex_valid(encode_utf8(raw.data@)),
            r is Ok ==> r->Ok_0.name@ == name@ && r->Ok_0.data@ == hex_bytes(encode_utf8(raw.data@))
                && r->Ok_0.timestamp == raw.timestamp && r->Ok_0.rssi == raw.rssi,
    {
        match decode_hex(raw.data.as_str().as_bytes()) {
            Ok(data) => Ok(TagMessage { name: name.to_owned(), data, timestamp: raw.timestamp, rssi: raw.rssi }),
            Err(_) => Err(InvalidHex),
        }
    }
}

impl GwMessage {
    /// Decodes every sensor's advertisement, in order; fails if any of them is
    /// not valid hex.
    pub fn from_raw(raw: &RawGwMessage) -> (r: Result<GwMessage, InvalidHex>)
        ensures
            r is Ok <==> forall|i: int| 0 <= i < raw.tags@.len() ==> hex_valid(
                encode_utf8((#[trigger] raw.tags@[i]).1.data@),
            ),
            r is Ok ==> {
                let m = r->Ok_0;
                &&& m.coordinates@ == raw.coordinates@
                &&& m.timestamp == raw.timestamp
                &&& m.nonce == raw.nonce
                &&& m.gw_mac@ == raw.gw_mac@
                &&& m.tags@.len() == raw.tags@.len()
                &&& forall|i: int| 0 <= i < raw.tags@.len() ==> {
                    let t = #[trigger] m.tags@[i];
                    let s = raw.tags@[i];
                    &&& t.name@ == s.0@
                    &&& t.data@ == hex_bytes(encode_utf8(s.1.data@))
                    &&& t.timestamp == s.1.timestamp
                    &&& t.rssi == s.1.rssi
                }
            },
    {
        let mut tags: Vec<TagMessage> = Vec::new();
        let mut i: usize = 0;
        while i < raw.tags.len()
            invariant
                i <= raw.tags@.len(),
                tags@.len() == i,
                forall|j: int| 0 <= j < i ==> hex_valid(encode_utf8((#[trigger] raw.tags@[j]).1.data@)),
                forall|j: int| 0 <= j < i ==> {
                    let t = #[trigger] tags@[j];
                    let s = raw.tags@[j];
                    &&& t.name@ == s.0@
                    &&& t.data@ == hex_bytes(encode_utf8(s.1.data@))
                    &&& t.timestamp == s.1.timestamp
                    &&& t.rssi == s.1.rssi
                },
            decreases raw.tags@.len() - i,
        {
            let (name, msg) = &raw.tags[i];
            match TagMessage::from_raw(name.as_str(), msg) {
                Ok(t) => tags.push(t),
                Err(e) => {
                    return Err(e);
                },
            }
            i = i + 1;
        }
        Ok(GwMessage {
            coordinates: raw.coordinates.clone(),
            timestamp: raw.timestamp,
            nonce: raw.nonce,
            gw_mac: raw.gw_mac.clone(),
            tags,
        })
    }
}

} // verus!
