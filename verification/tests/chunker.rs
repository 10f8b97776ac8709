use regex_chunker::adapter::{utf8_chunk, Adapter, StringAdapter};
use regex_chunker::chunk::{chunk_all, chunk_pushes};
use regex_chunker::decoder::ByteDecoder;
use regex_chunker::disposition::MatchDisposition;
use regex_chunker::err::RcErr;

const TEXT: &[u8] = b"One, two, three four. Can I have a little more?";
const PAT: &str = "[ .,?]+";

fn expect(words: &[&[u8]]) -> Vec<Vec<u8>> {
    words.iter().map(|w| w.to_vec()).collect()
}

#[test]
fn drop_scenario() {
    let chunks = chunk_all(PAT, TEXT, MatchDisposition::Drop).unwrap();
    let wanted = expect(&[
        b"One", b"two", b"three", b"four", b"Can", b"I", b"have", b"a", b"little", b"more",
    ]);
    assert_eq!(chunks, wanted);
}

#[test]
fn append_scenario() {
    let chunks = chunk_all(PAT, TEXT, MatchDisposition::Append).unwrap();
    let wanted = expect(&[
        b"One, ", b"two, ", b"three ", b"four. ", b"Can ", b"I ", b"have ", b"a ", b"little ",
        b"more?",
    ]);
    assert_eq!(chunks, wanted);
}

#[test]
fn prepend_scenario() {
    let chunks = chunk_all(PAT, TEXT, MatchDisposition::Prepend).unwrap();
    let wanted = expect(&[
        b"One", b", two", b", three", b" four", b". Can", b" I", b" have", b" a", b" little",
        b" more", b"?",
    ]);
    assert_eq!(chunks, wanted);
}

#[test]
fn empty_input() {
    let chunks = chunk_all(PAT, b"", MatchDisposition::Drop).unwrap();
    assert_eq!(chunks, Vec::<Vec<u8>>::new());
}

#[test]
fn no_match_anywhere() {
    let chunks = chunk_all("xyz", b"abcabc", MatchDisposition::Drop).unwrap();
    assert_eq!(chunks, expect(&[b"abcabc"]));
}

#[test]
fn granularity_independent_for_stable_pattern() {
    let whole: &[u8] = b"alpha.beta.gamma";
    let one_push = vec![whole.to_vec()];
    let byte_pushes: Vec<Vec<u8>> = whole.iter().map(|b| vec![*b]).collect();
    let all = chunk_all("\\.", whole, MatchDisposition::Drop).unwrap();
    let coarse = chunk_pushes("\\.", &one_push, MatchDisposition::Drop).unwrap();
    let fine = chunk_pushes("\\.", &byte_pushes, MatchDisposition::Drop).unwrap();
    let wanted = expect(&[b"alpha", b"beta", b"gamma"]);
    assert_eq!(all, wanted);
    assert_eq!(coarse, wanted);
    assert_eq!(fine, wanted);
}

#[test]
fn run_pattern_is_not_extension_stable() {
    // A match of this pattern ending at the buffer tail grows when the
    // next push begins with another delimiter byte, so byte-wise delivery
    // cuts an extra empty chunk after "One".
    let whole: &[u8] = b"One, two";
    let byte_pushes: Vec<Vec<u8>> = whole.iter().map(|b| vec![*b]).collect();
    let fine = chunk_pushes(PAT, &byte_pushes, MatchDisposition::Drop).unwrap();
    assert_eq!(fine, expect(&[b"One", b"", b"two"]));
    let coarse = chunk_all(PAT, whole, MatchDisposition::Drop).unwrap();
    assert_eq!(coarse, expect(&[b"One", b"two"]));
}

#[test]
fn eof_flush_law() {
    let mut dec = ByteDecoder::new(",").unwrap();
    let mut buf = b"abc".to_vec();
    assert_eq!(dec.decode(&mut buf), None);
    assert_eq!(dec.decode_eof(&mut buf), Some(b"abc".to_vec()));
    assert!(buf.is_empty());
    assert_eq!(dec.decode_eof(&mut buf), None);
}

#[test]
fn eof_on_empty_buffer() {
    let mut dec = ByteDecoder::new(",").unwrap();
    let mut buf = Vec::new();
    assert_eq!(dec.decode_eof(&mut buf), None);
}

#[test]
fn fence_at_the_tail() {
    let mut dec = ByteDecoder::new(",").unwrap();
    let mut buf = b"ab,".to_vec();
    assert_eq!(dec.decode(&mut buf), Some(b"ab".to_vec()));
    assert_eq!(dec.decode(&mut buf), None);
    assert_eq!(dec.decode_eof(&mut buf), None);
}

#[test]
fn prepend_does_not_rematch_retained_bytes() {
    let mut dec = ByteDecoder::new("-+").unwrap().with_match(MatchDisposition::Prepend);
    let mut buf = b"x--y--z".to_vec();
    assert_eq!(dec.decode(&mut buf), Some(b"x".to_vec()));
    assert_eq!(buf, b"--y--z".to_vec());
    assert_eq!(dec.scan_offset(), 2);
    assert_eq!(dec.decode(&mut buf), Some(b"--y".to_vec()));
    assert_eq!(dec.decode(&mut buf), None);
    assert_eq!(dec.decode_eof(&mut buf), Some(b"--z".to_vec()));
}

#[test]
fn disposition_change_resets_cursor() {
    let mut dec = ByteDecoder::new("-+").unwrap().with_match(MatchDisposition::Prepend);
    let mut buf = b"a--b".to_vec();
    assert_eq!(dec.decode(&mut buf), Some(b"a".to_vec()));
    assert_eq!(dec.scan_offset(), 2);
    dec.set_match(MatchDisposition::Prepend);
    assert_eq!(dec.scan_offset(), 2);
    dec.set_match(MatchDisposition::Drop);
    assert_eq!(dec.scan_offset(), 0);
}

#[test]
fn default_disposition_is_drop() {
    assert_eq!(MatchDisposition::default(), MatchDisposition::Drop);
    let dec = ByteDecoder::new(",").unwrap();
    assert_eq!(dec.scan_offset(), 0);
}

#[test]
fn invalid_pattern_is_refused() {
    assert!(matches!(ByteDecoder::new("["), Err(RcErr::Regex(_))));
    assert!(matches!(
        chunk_all("[", b"abc", MatchDisposition::Drop),
        Err(RcErr::Regex(_))
    ));
}

#[test]
fn utf8_chunk_decodes_text() {
    assert_eq!(utf8_chunk(b"hello".to_vec()).unwrap(), "hello".to_string());
}

#[test]
fn utf8_chunk_refuses_bad_bytes() {
    assert!(matches!(utf8_chunk(vec![0xff, 0xfe]), Err(RcErr::Utf8(_))));
}

#[test]
fn string_adapter_maps_chunks() {
    let mut a = StringAdapter::default();
    let out = a.adapt(Some(Ok(b"word".to_vec())));
    assert_eq!(out.unwrap().unwrap(), "word".to_string());
    assert!(a.adapt(None).is_none());
    let kind = std::io::ErrorKind::UnexpectedEof;
    let passed = a.adapt(Some(Err(RcErr::Read(std::io::Error::new(kind, "gone")))));
    assert!(matches!(passed, Some(Err(RcErr::Read(_)))));
}

#[test]
fn read_errors_wrap_verbatim() {
    let e = std::io::Error::new(std::io::ErrorKind::Other, "boom");
    assert!(matches!(RcErr::from(e), RcErr::Read(_)));
}
