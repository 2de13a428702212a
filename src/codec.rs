use vstd::prelude::*;
use crate::chunk::{
    chunks_bounded, chunks_of, concat_chunks, flatten, lemma_chunks_of, lemma_flatten_push,
    split_chunks, views,
};
use crate::wire::{
    answer_message_bytes, answer_strings, answer_wire, base64_standard, base64_standard_decoded,
    base64_url, base64_url_decoded, decode_standard, decode_url, encode_standard, encode_url,
    nested_views, opt_view, parsed_answer_strings, parsed_query_labels, query_labels,
    query_message_bytes, query_wire, random_id, singletons, answer_fits, query_fits, items_size,
    ANSWER_OVERHEAD, HEADER_BYTES, MAX_MESSAGE, QUERY_OVERHEAD, lemma_base64_len,
};

verus! {

/// Capacity of one DNS TXT string.
pub const TXT_CHUNK: usize = 255;

/// Capacity of one DNS label.
pub const LABEL_CHUNK: usize = 63;

/// The TXT strings that carry `payload` in an answer, one per record.
pub open spec fn answer_texts(payload: Seq<u8>) -> Seq<Seq<u8>> {
    chunks_of(base64_standard(payload), TXT_CHUNK as nat)
}

/// The labels that carry `payload` in a query, one per query name.
pub open spec fn query_chunks(payload: Seq<u8>) -> Seq<Seq<u8>> {
    chunks_of(base64_url(payload), LABEL_CHUNK as nat)
}

/// The text of all answer records: the strings of each record joined, and
/// the records joined in order.
pub open spec fn answer_text(records: Seq<Seq<Seq<u8>>>) -> Seq<u8> {
    flatten(records.map_values(|r: Seq<Seq<u8>>| flatten(r)))
}

/// A name written out with dots between its labels and no final root dot.
pub open spec fn dotted(labels: Seq<Seq<u8>>) -> Seq<u8>
    decreases labels.len(),
{
    if labels.len() == 0 {
        seq![]
    } else if labels.len() == 1 {
        labels[0]
    } else {
        dotted(labels.drop_last()) + seq![46u8] + labels.last()
    }
}

/// The text of all query names, each written out without its root dot, joined in order.
pub open spec fn query_text(names: Seq<Seq<Seq<u8>>>) -> Seq<u8> {
    flatten(names.map_values(|n: Seq<Seq<u8>>| dotted(n)))
}

proof fn lemma_flatten_single(x: Seq<u8>)
    ensures
        flatten(seq![x]) == x,
{
    assert(seq![x].drop_first() =~= Seq::<Seq<u8>>::empty());
    assert(flatten(Seq::<Seq<u8>>::empty()) == Seq::<u8>::empty());
    assert(x + Seq::<u8>::empty() =~= x);
}

proof fn lemma_answer_text_singletons(texts: Seq<Seq<u8>>)
    ensures
        answer_text(singletons(texts)) == flatten(texts),
{
    assert forall|i: int| 0 <= i < texts.len() implies flatten(#[trigger] singletons(texts)[i]) == texts[i] by {
        lemma_flatten_single(texts[i]);
    }
    assert(singletons(texts).map_values(|r: Seq<Seq<u8>>| flatten(r)) =~= texts);
}

proof fn lemma_query_text_singletons(labels: Seq<Seq<u8>>)
    ensures
        query_text(singletons(labels)) == flatten(labels),
{
    assert forall|i: int| 0 <= i < labels.len() implies dotted(#[trigger] singletons(labels)[i]) == labels[i] by {
        assert(singletons(labels)[i] =~= seq![labels[i]]);
    }
    assert(singletons(labels).map_values(|n: Seq<Seq<u8>>| dotted(n)) =~= labels);
}

/// Joins the strings of each record, then the records, in order.
fn join_records(records: &Vec<Vec<Vec<u8>>>) -> (r: Vec<u8>)
    ensures
        r@ == answer_text(nested_views(records@)),
{
    let mut r: Vec<u8> = Vec::new();
    let mut i: usize = 0;
    while i < records.len()
        invariant
            i <= records@.len(),
            r@ == flatten(nested_views(records@.take(i as int)).map_values(|x: Seq<Seq<u8>>| flatten(x))),
        decreases records@.len() - i,
    {
        let piece = concat_chunks(&records[i]);
        proof {
            let f = |x: Seq<Seq<u8>>| flatten(x);
            assert(nested_views(records@.take(i as int + 1)).map_values(f)
                =~= nested_views(records@.take(i as int)).map_values(f).push(piece@));
            lemma_flatten_push(nested_views(records@.take(i as int)).map_values(f), piece@);
        }
        r.extend_from_slice(piece.as_slice());
        i = i + 1;
    }
    assert(records@.take(i as int) =~= records@);
    r
}

/// Writes out a name's labels with dots between them.
fn join_labels(labels: &Vec<Vec<u8>>) -> (r: Vec<u8>)
    ensures
        r@ == dotted(views(labels@)),
{
    let mut r: Vec<u8> = Vec::new();
    let mut i: usize = 0;
    while i < labels.len()
        invariant
            i <= labels@.len(),
            r@ == dotted(views(labels@.take(i as int))),
        decreases labels@.len() - i,
    {
        let ghost before = r@;
        if i > 0 {
            r.push(46u8);
        }
        r.extend_from_slice(labels[i].as_slice());
        proof {
            let t = views(labels@.take(i as int + 1));
            assert(t.drop_last() =~= views(labels@.take(i as int)));
            assert(t.last() == labels@[i as int]@);
            if i == 0 {
                assert(r@ =~= t[0]);
            } else {
                assert(r@ =~= before + seq![46u8] + t.last());
            }
        }
        i = i + 1;
    }
    assert(labels@.take(i as int) =~= labels@);
    r
}

/// Joins the query names, each written out without its root dot, in order.
fn join_names(names: &Vec<Vec<Vec<u8>>>) -> (r: Vec<u8>)
    ensures
        r@ == query_text(nested_views(names@)),
{
    let mut r: Vec<u8> = Vec::new();
    let mut i: usize = 0;
    while i < names.len()
        invariant
            i <= names@.len(),
            r@ == flatten(nested_views(names@.take(i as int)).map_values(|x: Seq<Seq<u8>>| dotted(x))),
        decreases names@.len() - i,
    {
        let piece = join_labels(&names[i]);
        proof {
            let f = |x: Seq<Seq<u8>>| dotted(x);
            assert(nested_views(names@.take(i as int + 1)).map_values(f)
                =~= nested_views(names@.take(i as int)).map_values(f).push(piece@));
            lemma_flatten_push(nested_views(names@.take(i as int)).map_values(f), piece@);
        }
        r.extend_from_slice(piece.as_slice());
        i = i + 1;
    }
    assert(names@.take(i as int) =~= names@);
    r
}

proof fn lemma_items_size_prefix(s: Seq<Seq<u8>>, j: int, overhead: int)
    requires
        0 <= j <= s.len(),
        overhead >= 0,
    ensures
        items_size(s.take(j), overhead) <= items_size(s, overhead),
    decreases s.len(),
{
    if j < s.len() {
        lemma_items_size_prefix(s.drop_last(), j, overhead);
        assert(s.drop_last().take(j) =~= s.take(j));
    } else {
        assert(s.take(j) =~= s);
    }
}

proof fn lemma_items_size_flatten(s: Seq<Seq<u8>>, overhead: int)
    ensures
        items_size(s, overhead) == overhead * s.len() + flatten(s).len(),
    decreases s.len(),
{
    if s.len() > 0 {
        lemma_items_size_flatten(s.drop_last(), overhead);
        lemma_flatten_push(s.drop_last(), s.last());
        assert(s.drop_last().push(s.last()) =~= s);
        assert(overhead * s.len() == overhead * (s.len() - 1) + overhead) by (nonlinear_arith);
    }
}

/// Whether a message of a header and `items`, each with `overhead` bytes
/// besides itself, fits the serializer's limit.
fn fits_on_wire(items: &Vec<Vec<u8>>, overhead: u64) -> (r: bool)
    requires
        overhead <= 12,
    ensures
        r == (HEADER_BYTES + items_size(views(items@), overhead as int) <= MAX_MESSAGE),
{
    let mut total: u64 = HEADER_BYTES;
    let mut i: usize = 0;
    assert(views(items@.take(0)) =~= Seq::<Seq<u8>>::empty());
    while i < items.len()
        invariant
            i <= items@.len(),
            overhead <= 12,
            total == HEADER_BYTES + items_size(views(items@.take(i as int)), overhead as int),
            total <= MAX_MESSAGE,
        decreases items@.len() - i,
    {
        let len = items[i].len();
        proof {
            let t = views(items@.take(i as int + 1));
            assert(t.drop_last() =~= views(items@.take(i as int)));
            assert(views(items@).take(i as int + 1) =~= t);
            lemma_items_size_prefix(views(items@), i as int + 1, overhead as int);
        }
        if len as u64 > MAX_MESSAGE {
            return false;
        }
        total = total + overhead + len as u64;
        if total > MAX_MESSAGE {
            return false;
        }
        i = i + 1;
    }
    assert(items@.take(i as int) =~= items@);
    true
}

/// A payload of at most 4096 bytes always fits in an answer.
proof fn lemma_small_answer_fits(p: Seq<u8>)
    requires
        p.len() <= 4096,
    ensures
        answer_fits(answer_texts(p)),
{
    lemma_base64_len(p);
    lemma_chunks_of(base64_standard(p), TXT_CHUNK as nat);
    lemma_items_size_flatten(answer_texts(p), 12);
    let n = p.len() as int;
    let a = base64_standard(p).len() as int;
    assert(a <= 5464) by (nonlinear_arith)
        requires a == 4 * ((n + 2) / 3), 0 <= n <= 4096;
    assert((a + 254) / 255 <= 22) by (nonlinear_arith)
        requires 0 <= a <= 5464;
}

/// A payload of at most 4096 bytes always fits in a query.
proof fn lemma_small_query_fits(p: Seq<u8>)
    requires
        p.len() <= 4096,
    ensures
        query_fits(query_chunks(p)),
{
    lemma_base64_len(p);
    lemma_chunks_of(base64_url(p), LABEL_CHUNK as nat);
    lemma_items_size_flatten(query_chunks(p), 6);
    let n = p.len() as int;
    let q = base64_url(p).len() as int;
    assert(q <= 5462) by (nonlinear_arith)
        requires q == (4 * n + 2) / 3, 0 <= n <= 4096;
    assert((q + 62) / 63 <= 87) by (nonlinear_arith)
        requires 0 <= q <= 5462;
}

/// The DNS answer message, with identifier `id`, that carries `payload`:
/// its standard base64 text cut into TXT records of at most 255 bytes.
/// `None` exactly where that message would pass the serializer's limit of
/// 65535 bytes (or the payload is too long for base64 to size its text);
/// never for a payload of at most 4096 bytes.
pub fn encode_answer_with_id(payload: &[u8], id: u16) -> (r: Option<Vec<u8>>)
    ensures
        r is Some <==> payload@.len() <= usize::MAX / 2 && answer_fits(answer_texts(payload@)),
        r matches Some(w) ==> w@ == answer_wire(id, answer_texts(payload@)),
        payload@.len() <= 4096 ==> r is Some,
{
    if payload.len() > usize::MAX / 2 {
        return None;
    }
    let text = encode_standard(payload);
    let texts = split_chunks(text.as_slice(), TXT_CHUNK);
    proof {
        lemma_chunks_of(text@, TXT_CHUNK as nat);
        if payload@.len() <= 4096 {
            lemma_small_answer_fits(payload@);
        }
    }
    if !fits_on_wire(&texts, ANSWER_OVERHEAD) {
        return None;
    }
    answer_message_bytes(id, &texts)
}

/// The DNS answer message that carries `payload`, under a random
/// identifier; `None` exactly where `encode_answer_with_id` gives `None`.
pub fn encode_as_answer(payload: &[u8]) -> (r: Option<Vec<u8>>)
    ensures
        r is Some <==> payload@.len() <= usize::MAX / 2 && answer_fits(answer_texts(payload@)),
        r matches Some(w) ==> exists|id: u16| w@ == answer_wire(id, answer_texts(payload@)),
        payload@.len() <= 4096 ==> r is Some,
{
    encode_answer_with_id(payload, random_id())
}

/// The DNS query message, with identifier `id`, that carries `payload`: its
/// unpadded URL-safe base64 text cut into labels of at most 63 bytes, one
/// query per label. `None` exactly where that message would pass the
/// serializer's limit of 65535 bytes (or the payload is too long for base64
/// to size its text); never for a payload of at most 4096 bytes.
pub fn encode_query_with_id(payload: &[u8], id: u16) -> (r: Option<Vec<u8>>)
    ensures
        r is Some <==> payload@.len() <= usize::MAX / 2 && query_fits(query_chunks(payload@)),
        r matches Some(w) ==> w@ == query_wire(id, query_chunks(payload@)),
        payload@.len() <= 4096 ==> r is Some,
{
    if payload.len() > usize::MAX / 2 {
        return None;
    }
    let text = encode_url(payload);
    let labels = split_chunks(text.as_slice(), LABEL_CHUNK);
    proof {
        lemma_chunks_of(text@, LABEL_CHUNK as nat);
        if payload@.len() <= 4096 {
            lemma_small_query_fits(payload@);
        }
    }
    if !fits_on_wire(&labels, QUERY_OVERHEAD) {
        return None;
    }
    query_message_bytes(id, &labels)
}

/// The DNS query message that carries `payload`, under a random
/// identifier; `None` exactly where `encode_query_with_id` gives `None`.
pub fn encode_as_query(payload: &[u8]) -> (r: Option<Vec<u8>>)
    ensures
        r is Some <==> payload@.len() <= usize::MAX / 2 && query_fits(query_chunks(payload@)),
        r matches Some(w) ==> exists|id: u16| w@ == query_wire(id, query_chunks(payload@)),
        payload@.len() <= 4096 ==> r is Some,
{
    encode_query_with_id(payload, random_id())
}

/// The payload carried by parsed answer records: their text joined in
/// order and read as standard base64.
pub fn answer_records_payload(records: &Vec<Vec<Vec<u8>>>) -> (r: Option<Vec<u8>>)
    ensures
        opt_view(r) == base64_standard_decoded(answer_text(nested_views(records@))),
        forall|b: Seq<u8>|
            answer_text(nested_views(records@)) == #[trigger] base64_standard(b) ==> opt_view(r) == Some(b),
{
    let text = join_records(records);
    decode_standard(text.as_slice())
}

/// The payload carried by parsed query names: their text joined in order
/// and read as unpadded URL-safe base64.
pub fn query_names_payload(names: &Vec<Vec<Vec<u8>>>) -> (r: Option<Vec<u8>>)
    ensures
        opt_view(r) == base64_url_decoded(query_text(nested_views(names@))),
        forall|b: Seq<u8>|
            query_text(nested_views(names@)) == #[trigger] base64_url(b) ==> opt_view(r) == Some(b),
{
    let text = join_names(names);
    decode_url(text.as_slice())
}

/// What `decode_answer` gives for the DNS answer message `raw`.
pub open spec fn answer_payload(raw: Seq<u8>) -> Option<Seq<u8>> {
    match parsed_answer_strings(raw) {
        Some(records) => base64_standard_decoded(answer_text(records)),
        None => None,
    }
}

/// The payload carried by the DNS answer message `raw`; `None` where `raw`
/// does not parse, holds an answer record that is not TXT, or its text is
/// not standard base64. Whatever message `encode_as_answer` made of a
/// payload decodes to that payload.
pub fn decode_answer(raw: &[u8]) -> (r: Option<Vec<u8>>)
    ensures
        opt_view(r) == answer_payload(raw@),
        forall|id: u16, p: Seq<u8>|
            raw@ == #[trigger] answer_wire(id, answer_texts(p)) && answer_fits(answer_texts(p))
                ==> opt_view(r) == Some(p),
{
    let records = answer_strings(raw);
    let r = match records {
        Some(rs) => answer_records_payload(&rs),
        None => None,
    };
    assert forall|id: u16, p: Seq<u8>|
        raw@ == #[trigger] answer_wire(id, answer_texts(p)) && answer_fits(answer_texts(p))
        implies opt_view(r) == Some(p) by {
        lemma_chunks_of(base64_standard(p), TXT_CHUNK as nat);
        lemma_answer_text_singletons(answer_texts(p));
        assert(chunks_bounded(answer_texts(p), 255));
    }
    r
}

/// The payload carried by the DNS query message `raw`; `None` where `raw`
/// does not parse or its text is not unpadded URL-safe base64. Whatever
/// `encode_as_query` made of a payload decodes to that payload.
pub fn decode_query(raw: &[u8]) -> (r: Option<Vec<u8>>)
    ensures
        opt_view(r) == match parsed_query_labels(raw@) {
            Some(names) => base64_url_decoded(query_text(names)),
            None => None,
        },
        forall|id: u16, p: Seq<u8>|
            raw@ == #[trigger] query_wire(id, query_chunks(p)) && query_fits(query_chunks(p))
                ==> opt_view(r) == Some(p),
{
    let names = query_labels(raw);
    let r = match names {
        Some(ns) => query_names_payload(&ns),
        None => None,
    };
    assert forall|id: u16, p: Seq<u8>|
        raw@ == #[trigger] query_wire(id, query_chunks(p)) && query_fits(query_chunks(p))
        implies opt_view(r) == Some(p) by {
        lemma_chunks_of(base64_url(p), LABEL_CHUNK as nat);
        lemma_query_text_singletons(query_chunks(p));
        assert(chunks_bounded(query_chunks(p), 63));
    }
    r
}

/// Every TXT string of an answer holds at most 255 bytes and every label of
/// a query at most 63, whatever the payload; cutting loses nothing.
pub proof fn lemma_chunk_bounds(payload: Seq<u8>)
    ensures
        chunks_bounded(answer_texts(payload), 255),
        chunks_bounded(query_chunks(payload), 63),
        flatten(answer_texts(payload)) == base64_standard(payload),
        flatten(query_chunks(payload)) == base64_url(payload),
{
    lemma_chunks_of(base64_standard(payload), TXT_CHUNK as nat);
    lemma_chunks_of(base64_url(payload), LABEL_CHUNK as nat);
}

} // verus!
