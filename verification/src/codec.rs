//! The payload codec: serializes one stored dictionary record to a
//! self-describing byte string ("binary v1") and restores it.
//!
//! Wire layout: a 4-byte magic, the record's popularity as a little-endian
//! 64-bit integer, a 32-bit item count, then each content item as a 32-bit
//! byte length followed by that many bytes of UTF-8 JSON text, then four
//! optional strings (definition tags, term tags, reading, headword), where
//! the length `0xFFFF_FFFF` encodes absence.

use vstd::prelude::*;
use vstd::bytes::{
    lemma_auto_spec_u32_to_from_le_bytes, lemma_auto_spec_u64_to_from_le_bytes,
    spec_u32_from_le_bytes, spec_u32_to_le_bytes, spec_u64_from_le_bytes, spec_u64_to_le_bytes,
    u32_from_le_bytes, u32_to_le_bytes, u64_from_le_bytes, u64_to_le_bytes,
};
use vstd::utf8::{decode_utf8, encode_utf8, encode_utf8_decode_utf8, encode_utf8_valid_utf8,
    valid_utf8};
use vstd::slice::{axiom_spec_len, slice_subrange, slice_to_vec};
use crate::{has_magic, magic_bytes, starts_with_magic};
use crate::textio::string_from_utf8;
use crate::jsonval::{j_field, Jval};
use crate::jsonio::{json_doc, parse_json};
use crate::snappy::{compress, decompress, snap_of, snappy_input_ok, unsnap_of};

verus! {

/// The sentinel length that encodes an absent optional string.
pub const ABSENT: u32 = 0xFFFF_FFFF;

/// One decoded payload: the logical fields of a stored record.
/// `content` holds the raw JSON text of each glossary block;
/// `definition_tags` and `term_tags` carry the raw space-separated tag
/// strings of the wire format, which [`crate::text::tag_names`] turns
/// into the deduplicated tag-name lists of the decoded record.
pub struct Payload {
    pub popularity: i64,
    pub content: Vec<String>,
    pub definition_tags: Option<String>,
    pub term_tags: Option<String>,
    pub reading: Option<String>,
    pub headword: Option<String>,
}

/// The mathematical model of a payload.
pub ghost struct PayloadM {
    pub popularity: i64,
    pub content: Seq<Seq<char>>,
    pub definition_tags: Option<Seq<char>>,
    pub term_tags: Option<Seq<char>>,
    pub reading: Option<Seq<char>>,
    pub headword: Option<Seq<char>>,
}

pub open spec fn opt_view(o: Option<String>) -> Option<Seq<char>> {
    match o {
        Option::Some(s) => Option::Some(s@),
        Option::None => Option::None,
    }
}

impl View for Payload {
    type V = PayloadM;

    open spec fn view(&self) -> PayloadM {
        PayloadM {
            popularity: self.popularity,
            content: self.content@.map_values(|s: String| s@),
            definition_tags: opt_view(self.definition_tags),
            term_tags: opt_view(self.term_tags),
            reading: opt_view(self.reading),
            headword: opt_view(self.headword),
        }
    }
}

/// A string is encodable when its UTF-8 byte length stays below the
/// absence sentinel, so that its length field never collides with it.
pub open spec fn wf_str(s: Seq<char>) -> bool {
    encode_utf8(s).len() < ABSENT
}

pub open spec fn wf_opt(o: Option<Seq<char>>) -> bool {
    match o {
        Option::Some(s) => wf_str(s),
        Option::None => true,
    }
}

/// A payload is encodable when every length field fits its 32-bit slot.
pub open spec fn wf(p: PayloadM) -> bool {
    &&& p.content.len() < ABSENT
    &&& forall|i: int| 0 <= i < p.content.len() ==> wf_str(#[trigger] p.content[i])
    &&& wf_opt(p.definition_tags)
    &&& wf_opt(p.term_tags)
    &&& wf_opt(p.reading)
    &&& wf_opt(p.headword)
}

/// Wire form of one string: 32-bit byte length, then the UTF-8 bytes.
pub open spec fn enc_str(s: Seq<char>) -> Seq<u8> {
    spec_u32_to_le_bytes(encode_utf8(s).len() as u32) + encode_utf8(s)
}

/// Wire form of an optional string: the sentinel alone when absent.
pub open spec fn enc_opt(o: Option<Seq<char>>) -> Seq<u8> {
    match o {
        Option::Some(s) => enc_str(s),
        Option::None => spec_u32_to_le_bytes(ABSENT),
    }
}

/// Wire form of the content items, in order.
pub open spec fn enc_items(ss: Seq<Seq<char>>) -> Seq<u8>
    decreases ss.len(),
{
    if ss.len() == 0 {
        Seq::empty()
    } else {
        enc_str(ss[0]) + enc_items(ss.drop_first())
    }
}

/// Wire form of a whole payload.
pub open spec fn enc(p: PayloadM) -> Seq<u8> {
    magic_bytes() + spec_u64_to_le_bytes(p.popularity as u64) + spec_u32_to_le_bytes(
        p.content.len() as u32,
    ) + enc_items(p.content) + enc_opt(p.definition_tags) + enc_opt(p.term_tags) + enc_opt(
        p.reading,
    ) + enc_opt(p.headword)
}

/// The 32-bit little-endian integer standing at `pos`.
pub open spec fn rd_u32(b: Seq<u8>, pos: int) -> u32 {
    spec_u32_from_le_bytes(b.subrange(pos, pos + 4))
}

/// The 64-bit little-endian integer standing at `pos`.
pub open spec fn rd_u64(b: Seq<u8>, pos: int) -> u64 {
    spec_u64_from_le_bytes(b.subrange(pos, pos + 8))
}

/// Reads one optional string at `pos`: the new position on success,
/// or `None` when the declared length runs past the end of `b` or the
/// bytes are not UTF-8.
pub open spec fn dec_opt(b: Seq<u8>, pos: int) -> Option<(Option<Seq<char>>, int)> {
    if pos + 4 > b.len() {
        Option::None
    } else {
        let n = rd_u32(b, pos);
        if n == ABSENT {
            Option::Some((Option::None, pos + 4))
        } else if pos + 4 + n > b.len() {
            Option::None
        } else {
            let bs = b.subrange(pos + 4, pos + 4 + n);
            if valid_utf8(bs) {
                Option::Some((Option::Some(decode_utf8(bs)), pos + 4 + n))
            } else {
                Option::None
            }
        }
    }
}

/// Reads `n` content items starting at `pos`.
pub open spec fn dec_items(b: Seq<u8>, pos: int, n: nat) -> Option<(Seq<Seq<char>>, int)>
    decreases n,
{
    if n == 0 {
        Option::Some((Seq::empty(), pos))
    } else if pos + 4 > b.len() {
        Option::None
    } else {
        let len = rd_u32(b, pos);
        if pos + 4 + len > b.len() {
            Option::None
        } else {
            let bs = b.subrange(pos + 4, pos + 4 + len);
            if valid_utf8(bs) {
                match dec_items(b, pos + 4 + len, (n - 1) as nat) {
                    Option::None => Option::None,
                    Option::Some((rest, end)) => Option::Some(
                        (seq![decode_utf8(bs)] + rest, end),
                    ),
                }
            } else {
                Option::None
            }
        }
    }
}

/// Decodes a binary-v1 payload. Fails (`None`) when the magic is missing
/// or a declared length exceeds the remaining bytes; trailing bytes after
/// the last field are tolerated.
pub open spec fn dec(b: Seq<u8>) -> Option<PayloadM> {
    if !has_magic(b) || b.len() < 16 {
        Option::None
    } else {
        let pop = rd_u64(b, 4) as i64;
        let count = rd_u32(b, 12);
        match dec_items(b, 16, count as nat) {
            Option::None => Option::None,
            Option::Some((content, p1)) => match dec_opt(b, p1) {
                Option::None => Option::None,
                Option::Some((dt, p2)) => match dec_opt(b, p2) {
                    Option::None => Option::None,
                    Option::Some((tt, p3)) => match dec_opt(b, p3) {
                        Option::None => Option::None,
                        Option::Some((rg, p4)) => match dec_opt(b, p4) {
                            Option::None => Option::None,
                            Option::Some((hw, _p5)) => Option::Some(
                                PayloadM {
                                    popularity: pop,
                                    content,
                                    definition_tags: dt,
                                    term_tags: tt,
                                    reading: rg,
                                    headword: hw,
                                },
                            ),
                        },
                    },
                },
            },
        }
    }
}

// ------------------------------------------------------------------
// Concatenation helpers
// ------------------------------------------------------------------

/// When `x + y` stands in `b` at `pos`, each part stands at its offset.
proof fn lemma_split_at(b: Seq<u8>, pos: int, x: Seq<u8>, y: Seq<u8>)
    requires
        0 <= pos,
        pos + x.len() + y.len() <= b.len(),
        b.subrange(pos, pos + x.len() + y.len()) == x + y,
    ensures
        b.subrange(pos, pos + x.len() as int) == x,
        b.subrange(pos + x.len() as int, pos + x.len() + y.len()) == y,
{
    let e = x + y;
    assert forall|k: int| 0 <= k < x.len() implies b[pos + k] == x[k] by {
        assert(b.subrange(pos, pos + e.len() as int)[k] == b[pos + k]);
        assert(e[k] == x[k]);
    }
    assert(b.subrange(pos, pos + x.len() as int) =~= x);
    assert forall|k: int| 0 <= k < y.len() implies b[pos + x.len() + k] == y[k] by {
        assert(b.subrange(pos, pos + e.len() as int)[x.len() + k] == b[pos + x.len() + k]);
        assert(e[x.len() + k] == y[k]);
    }
    assert(b.subrange(pos + x.len() as int, pos + x.len() + y.len()) =~= y);
}

// ------------------------------------------------------------------
// Encoding (executable)
// ------------------------------------------------------------------

/// Appends the wire form of one string.
fn push_str_bytes(out: &mut Vec<u8>, s: &String)
    requires
        wf_str(s@),
    ensures
        final(out)@ == old(out)@ + enc_str(s@),
{
    proof {
        lemma_auto_spec_u32_to_from_le_bytes();
    }
    let mut bytes = s.as_str().as_bytes_vec();
    let blen: u32 = bytes.len() as u32;
    let mut lb = u32_to_le_bytes(blen);
    out.append(&mut lb);
    out.append(&mut bytes);
    proof {
        assert(out@ =~= old(out)@ + enc_str(s@));
    }
}

/// Appends the wire form of one optional string.
fn push_opt_bytes(out: &mut Vec<u8>, o: &Option<String>)
    requires
        wf_opt(opt_view(*o)),
    ensures
        final(out)@ == old(out)@ + enc_opt(opt_view(*o)),
{
    match o {
        Option::Some(s) => push_str_bytes(out, s),
        Option::None => {
            let mut lb = u32_to_le_bytes(ABSENT);
            out.append(&mut lb);
        },
    }
}

proof fn lemma_enc_items_push(ss: Seq<Seq<char>>, s: Seq<char>)
    ensures
        enc_items(ss.push(s)) == enc_items(ss) + enc_str(s),
    decreases ss.len(),
{
    if ss.len() == 0 {
        assert(ss.push(s)[0] == s);
        assert(ss.push(s).drop_first() =~= Seq::<Seq<char>>::empty());
        assert(enc_items(ss.push(s)) == enc_str(s) + enc_items(Seq::<Seq<char>>::empty()));
        assert(enc_items(ss.push(s)) =~= enc_items(ss) + enc_str(s));
    } else {
        assert(ss.push(s).drop_first() =~= ss.drop_first().push(s));
        lemma_enc_items_push(ss.drop_first(), s);
        assert(ss.push(s)[0] == ss[0]);
        assert(enc_items(ss.push(s)) == enc_str(ss[0]) + (enc_items(ss.drop_first()) + enc_str(
            s,
        )));
        assert(enc_items(ss.push(s)) =~= enc_items(ss) + enc_str(s));
    }
}

/// Serializes a payload to its binary-v1 wire form.
pub fn encode(p: &Payload) -> (r: Vec<u8>)
    requires
        wf(p@),
    ensures
        r@ == enc(p@),
{
    proof {
        lemma_auto_spec_u32_to_from_le_bytes();
        lemma_auto_spec_u64_to_from_le_bytes();
        assert(p@.content.len() == p.content@.len());
    }
    let mut out: Vec<u8> = Vec::new();
    out.push(0x4D);
    out.push(0x47);
    out.push(0x42);
    out.push(0x31);
    proof {
        assert(out@ =~= magic_bytes());
    }
    let mut popb = u64_to_le_bytes(p.popularity as u64);
    out.append(&mut popb);
    let count: u32 = p.content.len() as u32;
    let mut cb = u32_to_le_bytes(count);
    out.append(&mut cb);
    let ghost header: Seq<u8> = magic_bytes() + spec_u64_to_le_bytes(p@.popularity as u64)
        + spec_u32_to_le_bytes(p@.content.len() as u32);
    proof {
        assert(out@ == header);
        assert(out@ =~= header + enc_items(p@.content.take(0)));
    }
    let n = p.content.len();
    let mut i: usize = 0;
    while i < n
        invariant
            wf(p@),
            n == p.content.len(),
            p@.content.len() == p.content@.len(),
            i <= n,
            out@ == header + enc_items(p@.content.take(i as int)),
        decreases n - i,
    {
        proof {
            assert(p@.content[i as int] == p.content[i as int]@);
            assert(0 <= i < p@.content.len());
            assert(wf_str(p@.content[i as int]));
            lemma_enc_items_push(p@.content.take(i as int), p@.content[i as int]);
            assert(p@.content.take(i as int).push(p@.content[i as int]) =~= p@.content.take(
                i as int + 1,
            ));
        }
        push_str_bytes(&mut out, &p.content[i]);
        proof {
            assert(out@ =~= header + enc_items(p@.content.take(i as int + 1)));
        }
        i += 1;
    }
    proof {
        assert(p@.content.take(n as int) =~= p@.content);
    }
    push_opt_bytes(&mut out, &p.definition_tags);
    push_opt_bytes(&mut out, &p.term_tags);
    push_opt_bytes(&mut out, &p.reading);
    push_opt_bytes(&mut out, &p.headword);
    proof {
        assert(out@ =~= enc(p@));
    }
    out
}

// ------------------------------------------------------------------
// Decoding (executable)
// ------------------------------------------------------------------

fn rd_u32_exec(b: &[u8], pos: usize) -> (r: u32)
    requires
        pos + 4 <= b@.len(),
    ensures
        r == rd_u32(b@, pos as int),
{
    proof {
        axiom_spec_len(b);
    }
    let s = slice_subrange(b, pos, pos + 4);
    u32_from_le_bytes(s)
}

fn rd_u64_exec(b: &[u8], pos: usize) -> (r: u64)
    requires
        pos + 8 <= b@.len(),
    ensures
        r == rd_u64(b@, pos as int),
{
    proof {
        axiom_spec_len(b);
    }
    let s = slice_subrange(b, pos, pos + 8);
    u64_from_le_bytes(s)
}

/// Reads one length-prefixed string whose length field was already read.
fn rd_str_body(b: &[u8], pos: usize, len: u32) -> (r: Option<(String, usize)>)
    requires
        pos + 4 <= b@.len(),
        len == rd_u32(b@, pos as int),
    ensures
        match r {
            Option::Some((s, p2)) => {
                &&& pos + 4 + len <= b@.len()
                &&& p2 == pos + 4 + len
                &&& valid_utf8(b@.subrange(pos + 4, pos + 4 + len as int))
                &&& s@ == decode_utf8(b@.subrange(pos + 4, pos + 4 + len as int))
            },
            Option::None => {
                pos + 4 + len > b@.len() || !valid_utf8(
                    b@.subrange(pos + 4, pos + 4 + len as int),
                )
            },
        },
{
    proof {
        axiom_spec_len(b);
    }
    let remaining: usize = b.len() - (pos + 4);
    if (len as u64) > (remaining as u64) {
        return None;
    }
    let sub = slice_subrange(b, pos + 4, pos + 4 + (len as usize));
    let v = slice_to_vec(sub);
    match string_from_utf8(v) {
        Option::Some(s) => Some((s, pos + 4 + (len as usize))),
        Option::None => None,
    }
}

/// Reads one optional string at `pos`, mirroring [`dec_opt`].
fn rd_opt_exec(b: &[u8], pos: usize) -> (r: Option<(Option<String>, usize)>)
    requires
        pos <= b@.len(),
    ensures
        match r {
            Option::None => dec_opt(b@, pos as int) is None,
            Option::Some((o, p2)) => {
                &&& dec_opt(b@, pos as int) == Option::Some((opt_view(o), p2 as int))
                &&& pos <= p2 <= b@.len()
            },
        },
{
    proof {
        axiom_spec_len(b);
    }
    if b.len() - pos < 4 {
        return None;
    }
    let n = rd_u32_exec(b, pos);
    if n == ABSENT {
        return Some((None, pos + 4));
    }
    match rd_str_body(b, pos, n) {
        Option::Some((s, p2)) => Some((Some(s), p2)),
        Option::None => None,
    }
}

pub open spec fn opt_payload_view(r: Option<Payload>) -> Option<PayloadM> {
    match r {
        Option::Some(p) => Option::Some(p@),
        Option::None => Option::None,
    }
}

/// Parses a binary-v1 payload; returns `None` ("skip") on any malformed
/// input, never panicking.
pub fn decode_binary(b: &[u8]) -> (r: Option<Payload>)
    ensures
        opt_payload_view(r) == dec(b@),
{
    proof {
        axiom_spec_len(b);
    }
    if !starts_with_magic(b) {
        return None;
    }
    if b.len() < 16 {
        return None;
    }
    let pop_u = rd_u64_exec(b, 4);
    let popularity: i64 = #[verifier::truncate] (pop_u as i64);
    let count = rd_u32_exec(b, 12);
    let mut content: Vec<String> = Vec::new();
    let mut pos: usize = 16;
    let mut i: u32 = 0;
    proof {
        assert(content@.map_values(|s: String| s@) =~= Seq::<Seq<char>>::empty());
        assert(dec_items(b@, 16, count as nat) matches Option::Some((rest, end)) ==> Seq::<
            Seq<char>,
        >::empty() + rest =~= rest);
    }
    while i < count
        invariant
            b@.len() >= 16,
            has_magic(b@),
            count == rd_u32(b@, 12),
            i <= count,
            16 <= pos <= b@.len(),
            dec_items(b@, 16, count as nat) == (match dec_items(
                b@,
                pos as int,
                (count - i) as nat,
            ) {
                Option::None => Option::None::<(Seq<Seq<char>>, int)>,
                Option::Some((rest, end)) => Option::Some(
                    (content@.map_values(|s: String| s@) + rest, end),
                ),
            }),
        decreases count - i,
    {
        proof {
            axiom_spec_len(b);
        }
        let ghost m = (count - i) as nat;
        if b.len() - pos < 4 {
            proof {
                assert(dec_items(b@, pos as int, m) is None);
            }
            return None;
        }
        let len = rd_u32_exec(b, pos);
        match rd_str_body(b, pos, len) {
            Option::Some((s, p2)) => {
                proof {
                    let bs = b@.subrange(pos as int + 4, pos as int + 4 + len as int);
                    assert(dec_items(b@, pos as int, m) == (match dec_items(
                        b@,
                        p2 as int,
                        (m - 1) as nat,
                    ) {
                        Option::None => Option::None::<(Seq<Seq<char>>, int)>,
                        Option::Some((rest, end)) => Option::Some(
                            (seq![decode_utf8(bs)] + rest, end),
                        ),
                    }));
                }
                let ghost old_content = content@;
                let ghost s_chars = s@;
                content.push(s);
                pos = p2;
                i += 1;
                proof {
                    let bs = b@.subrange(pos as int - len as int, pos as int);
                    assert(content@.map_values(|s2: String| s2@) =~= old_content.map_values(
                        |s2: String| s2@,
                    ).push(s_chars));
                    if dec_items(b@, pos as int, (count - i) as nat) is Some {
                        let pair = dec_items(b@, pos as int, (count - i) as nat)->Some_0;
                        assert(old_content.map_values(|s2: String| s2@) + (seq![s_chars]
                            + pair.0) =~= content@.map_values(|s2: String| s2@) + pair.0);
                    }
                }
            },
            Option::None => {
                proof {
                    assert(dec_items(b@, pos as int, m) is None);
                }
                return None;
            },
        }
    }
    proof {
        assert(dec_items(b@, pos as int, 0) == Option::Some(
            (Seq::<Seq<char>>::empty(), pos as int),
        ));
        assert(content@.map_values(|s: String| s@) + Seq::<Seq<char>>::empty()
            =~= content@.map_values(|s: String| s@));
        assert(dec_items(b@, 16, count as nat) == Option::Some(
            (content@.map_values(|s: String| s@), pos as int),
        ));
    }
    let r1 = rd_opt_exec(b, pos);
    let (definition_tags, pos) = match r1 {
        Option::Some(v) => v,
        Option::None => {
            return None;
        },
    };
    let r2 = rd_opt_exec(b, pos);
    let (term_tags, pos) = match r2 {
        Option::Some(v) => v,
        Option::None => {
            return None;
        },
    };
    let r3 = rd_opt_exec(b, pos);
    let (reading, pos) = match r3 {
        Option::Some(v) => v,
        Option::None => {
            return None;
        },
    };
    let r4 = rd_opt_exec(b, pos);
    let (headword, _pos) = match r4 {
        Option::Some(v) => v,
        Option::None => {
            return None;
        },
    };
    Some(
        Payload {
            popularity,
            content,
            definition_tags,
            term_tags,
            reading,
            headword,
        },
    )
}

// ------------------------------------------------------------------
// The round trip: decoding an encoded payload restores it
// ------------------------------------------------------------------

proof fn lemma_dec_opt_at(b: Seq<u8>, pos: int, o: Option<Seq<char>>)
    requires
        wf_opt(o),
        0 <= pos,
        pos + enc_opt(o).len() <= b.len(),
        b.subrange(pos, pos + enc_opt(o).len() as int) == enc_opt(o),
    ensures
        dec_opt(b, pos) == Option::Some((o, pos + enc_opt(o).len() as int)),
{
    lemma_auto_spec_u32_to_from_le_bytes();
    broadcast use encode_utf8_valid_utf8, encode_utf8_decode_utf8;

    match o {
        Option::Some(s) => {
            let u = encode_utf8(s);
            let lb = spec_u32_to_le_bytes(u.len() as u32);
            assert(enc_opt(o) == lb + u);
            lemma_split_at(b, pos, lb, u);
            assert(rd_u32(b, pos) == u.len() as u32);
            assert(u.len() as u32 != ABSENT);
        },
        Option::None => {
            assert(b.subrange(pos, pos + 4) =~= enc_opt(o));
            assert(rd_u32(b, pos) == ABSENT);
        },
    }
}

proof fn lemma_dec_items_at(b: Seq<u8>, pos: int, ss: Seq<Seq<char>>)
    requires
        forall|i: int| 0 <= i < ss.len() ==> wf_str(#[trigger] ss[i]),
        0 <= pos,
        pos + enc_items(ss).len() <= b.len(),
        b.subrange(pos, pos + enc_items(ss).len() as int) == enc_items(ss),
    ensures
        dec_items(b, pos, ss.len()) == Option::Some((ss, pos + enc_items(ss).len() as int)),
    decreases ss.len(),
{
    lemma_auto_spec_u32_to_from_le_bytes();
    broadcast use encode_utf8_valid_utf8, encode_utf8_decode_utf8;

    if ss.len() == 0 {
        assert(dec_items(b, pos, 0) == Option::Some((Seq::<Seq<char>>::empty(), pos)));
        assert(ss =~= Seq::<Seq<char>>::empty());
    } else {
        let s = ss[0];
        let u = encode_utf8(s);
        let lb = spec_u32_to_le_bytes(u.len() as u32);
        let head = enc_str(s);
        let tail = enc_items(ss.drop_first());
        assert(enc_items(ss) == head + tail);
        lemma_split_at(b, pos, head, tail);
        assert(head == lb + u);
        lemma_split_at(b, pos, lb, u);
        assert(rd_u32(b, pos) == u.len() as u32);
        let pos2 = pos + head.len() as int;
        lemma_dec_items_at(b, pos2, ss.drop_first());
        assert(seq![decode_utf8(u)] + ss.drop_first() =~= ss);
    }
}

/// The codec round trip: every encodable payload decodes back to itself.
#[verifier::spinoff_prover]
#[verifier::rlimit(100)]
pub proof fn lemma_dec_enc(p: PayloadM)
    requires
        wf(p),
    ensures
        dec(enc(p)) == Option::Some(p),
        has_magic(enc(p)),
{
    lemma_auto_spec_u32_to_from_le_bytes();
    lemma_auto_spec_u64_to_from_le_bytes();
    let b = enc(p);
    let popb = spec_u64_to_le_bytes(p.popularity as u64);
    let cb = spec_u32_to_le_bytes(p.content.len() as u32);
    let items = enc_items(p.content);
    let e1 = enc_opt(p.definition_tags);
    let e2 = enc_opt(p.term_tags);
    let e3 = enc_opt(p.reading);
    let e4 = enc_opt(p.headword);
    let r7 = e3 + e4;
    let r6 = e2 + r7;
    let r5 = e1 + r6;
    let r4 = items + r5;
    let r3 = cb + r4;
    let r2 = popb + r3;
    let r1 = magic_bytes() + r2;
    assert(b =~= r1);
    assert(b.subrange(0, b.len() as int) =~= b);
    lemma_split_at(b, 0, magic_bytes(), r2);
    assert(has_magic(b));
    lemma_split_at(b, 4, popb, r3);
    assert(rd_u64(b, 4) == p.popularity as u64);
    let ghost pop = p.popularity;
    assert((pop as u64) as i64 == pop) by (bit_vector);
    lemma_split_at(b, 12, cb, r4);
    assert(rd_u32(b, 12) == p.content.len() as u32);
    assert((p.content.len() as u32) as nat == p.content.len());
    let p1 = 16 + items.len() as int;
    lemma_split_at(b, 16, items, r5);
    lemma_dec_items_at(b, 16, p.content);
    let p2 = p1 + e1.len() as int;
    lemma_split_at(b, p1, e1, r6);
    lemma_dec_opt_at(b, p1, p.definition_tags);
    let p3 = p2 + e2.len() as int;
    lemma_split_at(b, p2, e2, r7);
    lemma_dec_opt_at(b, p2, p.term_tags);
    let p4 = p3 + e3.len() as int;
    lemma_split_at(b, p3, e3, e4);
    lemma_dec_opt_at(b, p3, p.reading);
    let p5 = p4 + e4.len() as int;
    lemma_dec_opt_at(b, p4, p.headword);
}

// ------------------------------------------------------------------
// The legacy JSON read format
// ------------------------------------------------------------------

/// The string items of a legacy `content_raw` array; other items are
/// dropped.
pub open spec fn legacy_content(items: Seq<Jval>) -> Seq<Seq<char>>
    decreases items.len(),
{
    if items.len() == 0 {
        Seq::empty()
    } else {
        match items[0] {
            Jval::Str(s) => seq![s@] + legacy_content(items.drop_first()),
            _ => legacy_content(items.drop_first()),
        }
    }
}

pub open spec fn legacy_opt_str(o: Option<Jval>) -> Option<Seq<char>> {
    match o {
        Option::Some(Jval::Str(s)) => Option::Some(s@),
        _ => Option::None,
    }
}

/// The payload a legacy JSON document denotes: an object with the same
/// logical fields, each read tolerantly.
pub open spec fn legacy_of(j: Jval) -> Option<PayloadM> {
    match j {
        Jval::Obj(fields) => Option::Some(
            PayloadM {
                popularity: match j_field(fields@, "popularity"@) {
                    Option::Some(Jval::Int(v)) => v,
                    _ => 0,
                },
                content: match j_field(fields@, "content_raw"@) {
                    Option::Some(Jval::Arr(a)) => legacy_content(a@),
                    _ => Seq::empty(),
                },
                definition_tags: legacy_opt_str(j_field(fields@, "definition_tags_raw"@)),
                term_tags: legacy_opt_str(j_field(fields@, "term_tags_raw"@)),
                reading: legacy_opt_str(j_field(fields@, "reading"@)),
                headword: legacy_opt_str(j_field(fields@, "headword"@)),
            },
        ),
        _ => Option::None,
    }
}

/// The four magic bytes of the legacy JSON payload format, kept
/// read-only: what follows them is parsed as a JSON object.
pub open spec fn legacy_magic() -> Seq<u8> {
    seq![0x4Du8, 0x47u8, 0x43u8, 0x31u8]
}

pub open spec fn has_legacy_magic(b: Seq<u8>) -> bool {
    b.len() >= 4 && b.subrange(0, 4) == legacy_magic()
}

/// Reading uncompressed bytes: binary v1 when its magic is present,
/// legacy JSON otherwise (with the legacy magic stripped when it opens
/// the buffer).
pub open spec fn dec_any(b: Seq<u8>) -> Option<PayloadM> {
    if has_magic(b) {
        dec(b)
    } else {
        let body = if has_legacy_magic(b) {
            b.subrange(4, b.len() as int)
        } else {
            b
        };
        match json_doc(body) {
            Option::Some(j) => legacy_of(j),
            Option::None => Option::None,
        }
    }
}

/// The whole read path: decompression is attempted first, and the bytes
/// are read as they stand when it fails.
pub open spec fn full_dec(b: Seq<u8>) -> Option<PayloadM> {
    match unsnap_of(b) {
        Option::Some(d) => dec_any(d),
        Option::None => dec_any(b),
    }
}

proof fn lemma_legacy_content_push(items: Seq<Jval>, x: Jval)
    ensures
        legacy_content(items.push(x)) == legacy_content(items) + (match x {
            Jval::Str(s) => seq![s@],
            _ => Seq::<Seq<char>>::empty(),
        }),
    decreases items.len(),
{
    let tail = (match x {
        Jval::Str(s) => seq![s@],
        _ => Seq::<Seq<char>>::empty(),
    });
    if items.len() == 0 {
        assert(items.push(x)[0] == x);
        assert(items.push(x).drop_first() =~= Seq::<Jval>::empty());
        match x {
            Jval::Str(s) => {
                assert(legacy_content(items.push(x)) == seq![s@] + legacy_content(
                    Seq::<Jval>::empty(),
                ));
                assert(legacy_content(items.push(x)) =~= legacy_content(items) + tail);
            },
            _ => {
                assert(legacy_content(items.push(x)) == legacy_content(Seq::<Jval>::empty()));
                assert(legacy_content(items.push(x)) =~= legacy_content(items) + tail);
            },
        }
    } else {
        assert(items.push(x).drop_first() =~= items.drop_first().push(x));
        lemma_legacy_content_push(items.drop_first(), x);
        assert(items.push(x)[0] == items[0]);
        assert(legacy_content(items.push(x)) =~= legacy_content(items) + tail);
    }
}

/// Reads a legacy `content_raw` array.
fn legacy_content_exec(a: &Vec<Jval>) -> (r: Vec<String>)
    ensures
        r@.map_values(|s: String| s@) == legacy_content(a@),
{
    let n = a.len();
    let mut out: Vec<String> = Vec::new();
    proof {
        assert(out@.map_values(|s: String| s@) =~= legacy_content(a@.take(0)));
    }
    let mut i: usize = 0;
    while i < n
        invariant
            n == a@.len(),
            i <= n,
            out@.map_values(|s: String| s@) == legacy_content(a@.take(i as int)),
        decreases n - i,
    {
        let ghost pre = out@;
        proof {
            lemma_legacy_content_push(a@.take(i as int), a@[i as int]);
            assert(a@.take(i as int).push(a@[i as int]) =~= a@.take(i as int + 1));
        }
        match &a[i] {
            Jval::Str(s) => {
                out.push(s.clone());
                proof {
                    assert(out@.map_values(|s2: String| s2@) =~= pre.map_values(
                        |s2: String| s2@,
                    ).push(s@));
                }
            },
            _ => {},
        }
        proof {
            assert(out@.map_values(|s2: String| s2@) =~= legacy_content(a@.take(i as int + 1)));
        }
        i += 1;
    }
    proof {
        assert(a@.take(n as int) =~= a@);
    }
    out
}

/// Reads an optional string field.
fn legacy_opt_exec(fields: &Vec<(String, Jval)>, name: &str) -> (r: Option<String>)
    ensures
        opt_view(r) == legacy_opt_str(j_field(fields@, name@)),
{
    match crate::jsonval::get_field(fields, name) {
        Option::Some(j) => match j {
            Jval::Str(s) => Some(s.clone()),
            _ => None,
        },
        Option::None => None,
    }
}

/// Parses a legacy JSON payload.
fn decode_legacy(b: &[u8]) -> (r: Option<Payload>)
    ensures
        opt_payload_view(r) == (match json_doc(b@) {
            Option::Some(j) => legacy_of(j),
            Option::None => Option::None,
        }),
{
    let parsed = parse_json(b);
    match parsed {
        Option::Some(j) => match j {
            Jval::Obj(fields) => {
                let popularity: i64 = match crate::jsonval::get_field(&fields, "popularity") {
                    Option::Some(pj) => match pj {
                        Jval::Int(v) => *v,
                        _ => 0,
                    },
                    Option::None => 0,
                };
                let content: Vec<String> = match crate::jsonval::get_field(&fields, "content_raw")
                    {
                    Option::Some(cj) => match cj {
                        Jval::Arr(a) => legacy_content_exec(a),
                        _ => Vec::new(),
                    },
                    Option::None => Vec::new(),
                };
                proof {
                    assert(Seq::<String>::empty().map_values(|s: String| s@) =~= Seq::<
                        Seq<char>,
                    >::empty());
                }
                let definition_tags = legacy_opt_exec(&fields, "definition_tags_raw");
                let term_tags = legacy_opt_exec(&fields, "term_tags_raw");
                let reading = legacy_opt_exec(&fields, "reading");
                let headword = legacy_opt_exec(&fields, "headword");
                Some(
                    Payload {
                        popularity,
                        content,
                        definition_tags,
                        term_tags,
                        reading,
                        headword,
                    },
                )
            },
            _ => None,
        },
        Option::None => None,
    }
}

/// Whether a byte sequence opens with the legacy JSON magic.
fn starts_with_legacy_magic(b: &[u8]) -> (r: bool)
    ensures
        r == has_legacy_magic(b@),
{
    proof {
        axiom_spec_len(b);
    }
    if b.len() < 4 {
        assert(!has_legacy_magic(b@));
        return false;
    }
    let r = b[0] == 0x4D && b[1] == 0x47 && b[2] == 0x43 && b[3] == 0x31;
    proof {
        assert(b@.subrange(0, 4) =~= seq![b@[0], b@[1], b@[2], b@[3]]);
        if r {
            assert(b@.subrange(0, 4) =~= legacy_magic());
        } else {
            assert(b@.subrange(0, 4) != legacy_magic());
        }
    }
    r
}

/// Reads uncompressed bytes: binary v1 when its magic is present, legacy
/// JSON otherwise.
fn decode_any(b: &[u8]) -> (r: Option<Payload>)
    ensures
        opt_payload_view(r) == dec_any(b@),
{
    proof {
        axiom_spec_len(b);
    }
    if starts_with_magic(b) {
        decode_binary(b)
    } else if starts_with_legacy_magic(b) {
        let body = slice_subrange(b, 4, b.len());
        decode_legacy(body)
    } else {
        decode_legacy(b)
    }
}

/// The whole read path: tries Snappy decompression first and falls back
/// to reading the bytes as they stand; returns `None` ("skip") on any
/// malformed input.
pub fn decode_payload(b: &[u8]) -> (r: Option<Payload>)
    ensures
        opt_payload_view(r) == full_dec(b@),
{
    match decompress(b) {
        Option::Some(d) => decode_any(d.as_slice()),
        Option::None => decode_any(b),
    }
}

/// The whole write path. With compression off the binary-v1 bytes are
/// returned as they stand; with compression on they are Snappy-compressed
/// whenever they fit the encoder's input cap.
///
/// Read-back is part of the contract: a compressed payload always
/// decodes back to `p`; an uncompressed one does whenever its bytes do
/// not themselves form a valid Snappy block (the read path's sniffing
/// accepts that ambiguity by design).
pub fn encode_payload(p: &Payload, compress_enabled: bool) -> (r: Vec<u8>)
    requires
        wf(p@),
    ensures
        compress_enabled && snappy_input_ok(enc(p@).len() as int) ==> r@ == snap_of(enc(p@))
            && unsnap_of(r@) == Option::Some(enc(p@)) && full_dec(r@) == Option::Some(p@),
        !(compress_enabled && snappy_input_ok(enc(p@).len() as int)) ==> r@ == enc(p@),
        r@ == enc(p@) && unsnap_of(enc(p@)) is None ==> full_dec(r@) == Option::Some(p@),
{
    proof {
        lemma_dec_enc(p@);
    }
    let raw = encode(p);
    let worst: u128 = 32 + (raw.len() as u128) + (raw.len() as u128) / 6;
    if compress_enabled && worst <= 0xFFFF_FFFFu128 {
        let out = compress(raw.as_slice());
        out
    } else {
        raw
    }
}

} // verus!
