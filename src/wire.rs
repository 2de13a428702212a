use vstd::prelude::*;
use crate::chunk::{chunks_bounded, views};
use base64::Engine;
use trust_dns_proto::op::{Message, Query};
use trust_dns_proto::rr::rdata::TXT;
use trust_dns_proto::rr::{Name, RData, Record, RecordType};

verus! {

/// The base64 symbol for a six-bit value: `A`-`Z`, `a`-`z`, `0`-`9`, then
/// `+` and `/` in the standard alphabet or `-` and `_` in the URL-safe one.
pub open spec fn symbol(v: int, url: bool) -> u8 {
    if v < 26 {
        (65 + v) as u8
    } else if v < 52 {
        (97 + v - 26) as u8
    } else if v < 62 {
        (48 + v - 52) as u8
    } else if v == 62 {
        if url { 45u8 } else { 43u8 }
    } else {
        if url { 95u8 } else { 47u8 }
    }
}

/// The base64 text of `b`: each group of three bytes becomes four symbols
/// of six bits each; a last group of one or two bytes becomes two or three
/// symbols, followed by `=` up to four where `pad` holds.
pub open spec fn base64_text(b: Seq<u8>, url: bool, pad: bool) -> Seq<u8>
    decreases b.len(),
{
    if b.len() == 0 {
        seq![]
    } else if b.len() == 1 {
        seq![symbol((b[0] as int) / 4, url), symbol(((b[0] as int) % 4) * 16, url)]
            + if pad { seq![61u8, 61u8] } else { seq![] }
    } else if b.len() == 2 {
        seq![
            symbol((b[0] as int) / 4, url),
            symbol(((b[0] as int) % 4) * 16 + (b[1] as int) / 16, url),
            symbol(((b[1] as int) % 16) * 4, url),
        ] + if pad { seq![61u8] } else { seq![] }
    } else {
        seq![
            symbol((b[0] as int) / 4, url),
            symbol(((b[0] as int) % 4) * 16 + (b[1] as int) / 16, url),
            symbol(((b[1] as int) % 16) * 4 + (b[2] as int) / 64, url),
            symbol((b[2] as int) % 64, url),
        ] + base64_text(b.skip(3), url, pad)
    }
}

/// The text that base64 writes for `b` in the standard alphabet, padded.
pub open spec fn base64_standard(b: Seq<u8>) -> Seq<u8> {
    base64_text(b, false, true)
}

/// The text that base64 writes for `b` in the URL-safe alphabet, unpadded.
pub open spec fn base64_url(b: Seq<u8>) -> Seq<u8> {
    base64_text(b, true, false)
}

/// Four symbols for each started group of three bytes, padded; without
/// padding, two or three for a last, shorter group.
pub proof fn lemma_base64_len(b: Seq<u8>)
    ensures
        base64_standard(b).len() == 4 * ((b.len() + 2) / 3),
        base64_url(b).len() == (4 * b.len() + 2) / 3,
    decreases b.len(),
{
    if b.len() >= 3 {
        lemma_base64_len(b.skip(3));
        let n = b.len() as int;
        assert(4 * ((n + 2) / 3) == 4 + 4 * ((n - 3 + 2) / 3)) by (nonlinear_arith)
            requires n >= 3;
        assert((4 * n + 2) / 3 == 4 + (4 * (n - 3) + 2) / 3) by (nonlinear_arith)
            requires n >= 3;
    }
}

/// What base64 reads back from `s` in the standard alphabet, padded.
pub uninterp spec fn base64_standard_decoded(s: Seq<u8>) -> Option<Seq<u8>>;

/// What base64 reads back from `s` in the URL-safe alphabet, unpadded.
pub uninterp spec fn base64_url_decoded(s: Seq<u8>) -> Option<Seq<u8>>;

/// The wire form of a DNS message with identifier `id` and one TXT answer
/// record per text, each text the record's single string, where the
/// message fits the serializer's limit.
pub uninterp spec fn answer_wire(id: u16, texts: Seq<Seq<u8>>) -> Seq<u8>;

/// The wire form of a DNS message with identifier `id` and one TXT query per
/// label, each query's name made of that single label, where the message
/// fits the serializer's limit.
pub uninterp spec fn query_wire(id: u16, labels: Seq<Seq<u8>>) -> Seq<u8>;

/// The strings of each answer record of the DNS message in `raw`, in order;
/// `None` where `raw` does not parse or an answer record is not TXT.
pub uninterp spec fn parsed_answer_strings(raw: Seq<u8>) -> Option<Seq<Seq<Seq<u8>>>>;

/// The labels of each query name of the DNS message in `raw`, in order;
/// `None` where `raw` does not parse.
pub uninterp spec fn parsed_query_labels(raw: Seq<u8>) -> Option<Seq<Seq<Seq<u8>>>>;

/// Bytes of a DNS message header.
pub const HEADER_BYTES: u64 = 12;

/// Bytes on the wire of one TXT answer record besides its string: root
/// name, type, class, ttl, data length and the string's length byte.
pub const ANSWER_OVERHEAD: u64 = 12;

/// Bytes on the wire of one single-label query besides its label: the
/// label's length byte, the root label, type and class.
pub const QUERY_OVERHEAD: u64 = 6;

/// The largest DNS message that the serializer writes whole.
pub const MAX_MESSAGE: u64 = 65535;

/// Bytes that `items` take on the wire, each with `overhead` bytes besides itself.
pub open spec fn items_size(items: Seq<Seq<u8>>, overhead: int) -> int
    decreases items.len(),
{
    if items.len() == 0 {
        0
    } else {
        items_size(items.drop_last(), overhead) + overhead + items.last().len()
    }
}

/// Whether a message with one TXT answer record per text fits the serializer's limit.
pub open spec fn answer_fits(texts: Seq<Seq<u8>>) -> bool {
    HEADER_BYTES + items_size(texts, ANSWER_OVERHEAD as int) <= MAX_MESSAGE
}

/// Whether a message with one single-label query per label fits the serializer's limit.
pub open spec fn query_fits(labels: Seq<Seq<u8>>) -> bool {
    HEADER_BYTES + items_size(labels, QUERY_OVERHEAD as int) <= MAX_MESSAGE
}

pub open spec fn opt_view(o: Option<Vec<u8>>) -> Option<Seq<u8>> {
    match o {
        Some(v) => Some(v@),
        None => None,
    }
}

pub open spec fn nested_views(v: Seq<Vec<Vec<u8>>>) -> Seq<Seq<Seq<u8>>> {
    v.map_values(|r: Vec<Vec<u8>>| views(r@))
}

pub open spec fn opt_nested(o: Option<Vec<Vec<Vec<u8>>>>) -> Option<Seq<Seq<Seq<u8>>>> {
    match o {
        Some(v) => Some(nested_views(v@)),
        None => None,
    }
}

/// Each text as a record of one string.
pub open spec fn singletons(texts: Seq<Seq<u8>>) -> Seq<Seq<Seq<u8>>> {
    texts.map_values(|t: Seq<u8>| seq![t])
}

/// Relies on base64's `STANDARD` engine `encode`, which writes standard
/// base64 with padding. It panics where the text's length overflows `usize`.
#[verifier::external_body]
pub(crate) fn encode_standard(b: &[u8]) -> (r: Vec<u8>)
    requires
        b@.len() <= usize::MAX / 2,
    ensures
        r@ == base64_standard(b@),
{
    base64::engine::general_purpose::STANDARD.encode(b).into_bytes()
}

/// Relies on base64's `URL_SAFE_NO_PAD` engine `encode`, which writes
/// URL-safe base64 without padding. It panics where the text's length
/// overflows `usize`.
#[verifier::external_body]
pub(crate) fn encode_url(b: &[u8]) -> (r: Vec<u8>)
    requires
        b@.len() <= usize::MAX / 2,
    ensures
        r@ == base64_url(b@),
{
    base64::engine::general_purpose::URL_SAFE_NO_PAD.encode(b).into_bytes()
}

/// Relies on base64's `STANDARD` engine `decode`: it reads back the bytes
/// from the text that `encode` of the same engine wrote for them.
#[verifier::external_body]
pub(crate) fn decode_standard(s: &[u8]) -> (r: Option<Vec<u8>>)
    ensures
        opt_view(r) == base64_standard_decoded(s@),
        forall|b: Seq<u8>| s@ == #[trigger] base64_standard(b) ==> opt_view(r) == Some(b),
{
    base64::engine::general_purpose::STANDARD.decode(s).ok()
}

/// Relies on base64's `URL_SAFE_NO_PAD` engine `decode`: it reads back the
/// bytes from the text that `encode` of the same engine wrote for them.
#[verifier::external_body]
pub(crate) fn decode_url(s: &[u8]) -> (r: Option<Vec<u8>>)
    ensures
        opt_view(r) == base64_url_decoded(s@),
        forall|b: Seq<u8>| s@ == #[trigger] base64_url(b) ==> opt_view(r) == Some(b),
{
    base64::engine::general_purpose::URL_SAFE_NO_PAD.decode(s).ok()
}

/// Relies on trust_dns_proto's `Message` and `Message::to_vec`: builds the
/// message with one TXT record (root name, ttl 0) per text and serializes
/// it. Strings of at most 255 bytes in a message within 65535 bytes are
/// written whole and without error.
#[verifier::external_body]
pub(crate) fn answer_message_bytes(id: u16, texts: &Vec<Vec<u8>>) -> (r: Option<Vec<u8>>)
    requires
        chunks_bounded(views(texts@), 255),
        answer_fits(views(texts@)),
    ensures
        r is Some,
        r matches Some(w) ==> w@ == answer_wire(id, views(texts@)),
{
    let mut msg = Message::new();
    msg.set_id(id);
    msg.add_answers(texts.iter().map(|t| {
        Record::from_rdata(Name::root(), 0, RData::TXT(TXT::from_bytes(vec![t.as_slice()])))
    }));
    msg.to_vec().ok()
}

/// Relies on trust_dns_proto's `Message`, `Name::from_labels` and
/// `Message::to_vec`: builds the message with one TXT query per label, whose
/// name is that label, and serializes it. Labels of 1 to 63 bytes in a
/// message within 65535 bytes are accepted and written whole.
#[verifier::external_body]
pub(crate) fn query_message_bytes(id: u16, labels: &Vec<Vec<u8>>) -> (r: Option<Vec<u8>>)
    requires
        chunks_bounded(views(labels@), 63),
        query_fits(views(labels@)),
    ensures
        r is Some,
        r matches Some(w) ==> w@ == query_wire(id, views(labels@)),
{
    let names: Option<Vec<Name>> =
        labels.iter().map(|l| Name::from_labels(vec![l.as_slice()]).ok()).collect();
    let mut msg = Message::new();
    msg.set_id(id);
    msg.add_queries(names?.into_iter().map(|n| Query::query(n, RecordType::TXT)));
    msg.to_vec().ok()
}

/// Relies on trust_dns_proto's `Message::from_vec` and `TXT::txt_data`: the
/// parser reads back the records that `to_vec` wrote, each TXT string of at
/// most 255 bytes as it was, in a message within 65535 bytes.
#[verifier::external_body]
pub(crate) fn answer_strings(raw: &[u8]) -> (r: Option<Vec<Vec<Vec<u8>>>>)
    ensures
        opt_nested(r) == parsed_answer_strings(raw@),
        forall|id: u16, texts: Seq<Seq<u8>>|
            raw@ == #[trigger] answer_wire(id, texts) && chunks_bounded(texts, 255) && answer_fits(texts)
                ==> opt_nested(r) == Some(singletons(texts)),
{
    let msg = Message::from_vec(raw).ok()?;
    msg.answers().iter().map(|rec| match rec.data() {
        Some(RData::TXT(txt)) => Some(txt.txt_data().iter().map(|s| s.to_vec()).collect()),
        _ => None,
    }).collect()
}

/// Relies on trust_dns_proto's `Message::from_vec` and `Name::iter`: the
/// parser reads back the query names that `to_vec` wrote, each label of 1 to
/// 63 bytes as it was, in a message within 65535 bytes.
#[verifier::external_body]
pub(crate) fn query_labels(raw: &[u8]) -> (r: Option<Vec<Vec<Vec<u8>>>>)
    ensures
        opt_nested(r) == parsed_query_labels(raw@),
        forall|id: u16, labels: Seq<Seq<u8>>|
            raw@ == #[trigger] query_wire(id, labels) && chunks_bounded(labels, 63) && query_fits(labels)
                ==> opt_nested(r) == Some(singletons(labels)),
{
    let msg = Message::from_vec(raw).ok()?;
    Some(msg.queries().iter().map(|q| q.name().iter().map(|l| l.to_vec()).collect()).collect())
}

/// Relies on rand's `random`: a message identifier, of no use but variety.
#[verifier::external_body]
pub(crate) fn random_id() -> (r: u16) {
    rand::random()
}

} // verus!
