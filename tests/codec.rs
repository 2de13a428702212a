use dns_udp_tunnel::{
    answer_records_payload, concat_chunks, decode_answer, decode_query, encode_answer_with_id,
    encode_as_answer, encode_as_query, encode_query_with_id, query_names_payload, split_chunks,
};
use trust_dns_proto::op::Message;
use trust_dns_proto::rr::RData;

fn payload(n: usize) -> Vec<u8> {
    (0..n).map(|i| (i * 31 + 7) as u8).collect()
}

fn txt_strings(wire: &[u8]) -> Vec<Vec<u8>> {
    let msg = Message::from_vec(wire).unwrap();
    msg.answers()
        .iter()
        .map(|r| match r.data() {
            Some(RData::TXT(t)) => t.txt_data().concat(),
            _ => panic!("not a TXT record"),
        })
        .collect()
}

fn query_names(wire: &[u8]) -> Vec<Vec<Vec<u8>>> {
    let msg = Message::from_vec(wire).unwrap();
    msg.queries()
        .iter()
        .map(|q| q.name().iter().map(|l| l.to_vec()).collect())
        .collect()
}

#[test]
fn round_trip_answer_all_sizes() {
    let mut n = 0;
    while n <= 4096 {
        let p = payload(n);
        let wire = encode_as_answer(&p).unwrap();
        assert_eq!(decode_answer(&wire), Some(p));
        n += if n < 300 { 1 } else { 17 };
    }
    let p = payload(4096);
    assert_eq!(decode_answer(&encode_as_answer(&p).unwrap()), Some(p));
}

#[test]
fn round_trip_query_all_sizes() {
    let mut n = 0;
    while n <= 4096 {
        let p = payload(n);
        let wire = encode_as_query(&p).unwrap();
        assert_eq!(decode_query(&wire), Some(p));
        n += if n < 300 { 1 } else { 17 };
    }
    let p = payload(4096);
    assert_eq!(decode_query(&encode_as_query(&p).unwrap()), Some(p));
}

#[test]
fn chunks_respect_limits() {
    for n in [0usize, 1, 2, 3, 46, 47, 48, 189, 190, 191, 600, 4096] {
        let p = payload(n);
        for s in txt_strings(&encode_as_answer(&p).unwrap()) {
            assert!(!s.is_empty() && s.len() <= 255);
        }
        for name in query_names(&encode_as_query(&p).unwrap()) {
            assert_eq!(name.len(), 1);
            assert!(!name[0].is_empty() && name[0].len() <= 63);
        }
    }
}

#[test]
fn scenario_ping_query() {
    let wire = encode_as_query(b"ping").unwrap();
    let names = query_names(&wire);
    assert_eq!(names, vec![vec![b"cGluZw".to_vec()]]);
    assert_eq!(names[0][0].len(), 6);
    assert_eq!(decode_query(&wire), Some(b"ping".to_vec()));
}

#[test]
fn scenario_600_byte_answer() {
    let p = payload(600);
    let wire = encode_as_answer(&p).unwrap();
    let strings = txt_strings(&wire);
    let lens: Vec<usize> = strings.iter().map(|s| s.len()).collect();
    // 600 bytes make 800 base64 characters
    assert_eq!(lens, vec![255, 255, 255, 35]);
    assert_eq!(strings.concat().len(), 800);
    assert_eq!(decode_answer(&wire), Some(p));
}

#[test]
fn answer_text_is_standard_base64() {
    let wire = encode_answer_with_id(b"hi?>", 7).unwrap();
    assert_eq!(Message::from_vec(&wire).unwrap().id(), 7);
    assert_eq!(txt_strings(&wire), vec![b"aGk/Pg==".to_vec()]);
}

#[test]
fn query_text_is_url_safe_unpadded() {
    let wire = encode_query_with_id(b"hi?>", 9).unwrap();
    assert_eq!(Message::from_vec(&wire).unwrap().id(), 9);
    assert_eq!(query_names(&wire), vec![vec![b"aGk_Pg".to_vec()]]);
}

#[test]
fn empty_payload_has_no_records() {
    let wire = encode_as_answer(b"").unwrap();
    assert!(txt_strings(&wire).is_empty());
    assert_eq!(decode_answer(&wire), Some(vec![]));
    let wire = encode_as_query(b"").unwrap();
    assert!(query_names(&wire).is_empty());
    assert_eq!(decode_query(&wire), Some(vec![]));
}

#[test]
fn decode_rejects_garbage() {
    assert_eq!(decode_answer(b"\x01\x02"), None);
    assert_eq!(decode_query(b"\x01\x02"), None);
}

#[test]
fn decode_rejects_bad_base64() {
    let records = vec![vec![b"aGk".to_vec()]];
    assert_eq!(answer_records_payload(&records), None);
    let names = vec![vec![b"aG".to_vec(), b"k".to_vec()]];
    assert_eq!(query_names_payload(&names), None);
}

#[test]
fn records_are_joined_in_order() {
    let records = vec![vec![b"aG".to_vec(), b"k/".to_vec()], vec![b"Pg==".to_vec()]];
    assert_eq!(answer_records_payload(&records), Some(b"hi?>".to_vec()));
    let names = vec![vec![b"aGk".to_vec()], vec![b"_Pg".to_vec()]];
    assert_eq!(query_names_payload(&names), Some(b"hi?>".to_vec()));
}

#[test]
fn split_and_concat() {
    let s: Vec<u8> = (0..10).collect();
    let c = split_chunks(&s, 4);
    assert_eq!(c, vec![vec![0, 1, 2, 3], vec![4, 5, 6, 7], vec![8, 9]]);
    assert_eq!(concat_chunks(&c), s);
    assert!(split_chunks(&[], 4).is_empty());
    assert_eq!(split_chunks(&s, 10), vec![s.clone()]);
}

#[test]
fn scenario_600_character_answer() {
    // 450 bytes make 600 base64 characters
    let p = vec![0u8; 450];
    let wire = encode_as_answer(&p).unwrap();
    let lens: Vec<usize> = txt_strings(&wire).iter().map(|s| s.len()).collect();
    assert_eq!(lens, vec![255, 255, 90]);
    assert_eq!(decode_answer(&wire), Some(p));
}

#[test]
fn ping_answer_is_one_record() {
    let wire = encode_as_answer(b"ping").unwrap();
    assert_eq!(txt_strings(&wire), vec![b"cGluZw==".to_vec()]);
    assert_eq!(decode_answer(&wire), Some(b"ping".to_vec()));
}

#[test]
fn answers_differ_only_in_id() {
    let p = payload(700);
    let mut a = Message::from_vec(&encode_as_answer(&p).unwrap()).unwrap();
    let b = Message::from_vec(&encode_as_answer(&p).unwrap()).unwrap();
    a.set_id(b.id());
    assert_eq!(a.to_vec().unwrap(), b.to_vec().unwrap());
}

#[test]
fn answer_near_size_limit() {
    let p = payload(46000);
    let wire = encode_as_answer(&p).unwrap();
    assert!(wire.len() <= 65535);
    assert_eq!(txt_strings(&wire).len(), 241);
    assert_eq!(decode_answer(&wire), Some(p));
    assert_eq!(encode_as_answer(&payload(47000)), None);
}

#[test]
fn query_near_size_limit() {
    let p = payload(44000);
    let wire = encode_as_query(&p).unwrap();
    assert!(wire.len() <= 65535);
    assert_eq!(query_names(&wire).len(), 932);
    assert_eq!(decode_query(&wire), Some(p));
    assert_eq!(encode_as_query(&payload(46000)), None);
}
