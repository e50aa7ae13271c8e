use better_deep_wiki::batch::{
    make_batches, prepare_chunk, select_embed_inputs, total_tokens_with_special,
    validate_question, MAX_BATCH_SIZE,
};
use better_deep_wiki::codec::{encode_frame, read_frame};
use better_deep_wiki::payload::{
    chunk_from_fields, chunk_from_point, chunk_type_name, chunk_type_of_name, PayloadError,
    PayloadFields,
};
use qdrant_client::qdrant::value::Kind;
use qdrant_client::qdrant::{ScoredPoint, Value};
use std::collections::HashMap;
use better_deep_wiki::tokenizer::Tokenizer;
use better_deep_wiki::types::{Chunk, ChunkType, Config};

fn full_fields() -> PayloadFields {
    PayloadFields {
        path: Some("src/lib.rs".to_string()),
        chunk_index: Some("3-1".to_string()),
        chunk_start_line: Some(10),
        chunk_end_line: Some(20),
        chunk_text: Some("fn x() {}".to_string()),
        function_name: Some("x".to_string()),
        chunk_type: Some("Method".to_string()),
    }
}

#[test]
fn payload_with_all_fields_reads_back() {
    let c = chunk_from_fields(full_fields()).unwrap();
    assert_eq!(c.path, "src/lib.rs");
    assert_eq!(c.chunk_index, "3-1");
    assert_eq!(c.chunk_start_line, 10);
    assert_eq!(c.chunk_end_line, 20);
    assert_eq!(c.text, "fn x() {}");
    assert_eq!(c.function_name.as_deref(), Some("x"));
    assert_eq!(c.chunk_type, ChunkType::Method);
}

#[test]
fn each_missing_field_gives_its_error() {
    let mut f = full_fields();
    f.path = None;
    assert_eq!(chunk_from_fields(f).unwrap_err(), PayloadError::MissingPath);

    let mut f = full_fields();
    f.chunk_index = None;
    assert_eq!(chunk_from_fields(f).unwrap_err(), PayloadError::MissingChunkIndex);

    let mut f = full_fields();
    f.chunk_start_line = None;
    assert_eq!(chunk_from_fields(f).unwrap_err(), PayloadError::MissingStartLine);

    let mut f = full_fields();
    f.chunk_start_line = Some(-4);
    assert_eq!(chunk_from_fields(f).unwrap_err(), PayloadError::MissingStartLine);

    let mut f = full_fields();
    f.chunk_end_line = None;
    assert_eq!(chunk_from_fields(f).unwrap_err(), PayloadError::MissingEndLine);

    let mut f = full_fields();
    f.chunk_text = None;
    assert_eq!(chunk_from_fields(f).unwrap_err(), PayloadError::MissingText);
}

#[test]
fn optional_payload_fields_have_defaults() {
    let mut f = full_fields();
    f.function_name = Some("".to_string());
    f.chunk_type = Some("Nonsense".to_string());
    let c = chunk_from_fields(f).unwrap();
    assert!(c.function_name.is_none());
    assert_eq!(c.chunk_type, ChunkType::LineChunk);

    let mut f = full_fields();
    f.function_name = None;
    f.chunk_type = None;
    let c = chunk_from_fields(f).unwrap();
    assert!(c.function_name.is_none());
    assert_eq!(c.chunk_type, ChunkType::LineChunk);
}

#[test]
fn payload_error_messages_name_the_field() {
    assert_eq!(PayloadError::MissingPath.message(), "Missing or invalid 'path' in payload");
    assert_eq!(
        PayloadError::MissingChunkIndex.message(),
        "Missing or invalid 'chunk_index' in payload"
    );
}

#[test]
fn chunk_type_names_round_trip() {
    for t in [
        ChunkType::Function,
        ChunkType::Class,
        ChunkType::Method,
        ChunkType::Interface,
        ChunkType::Struct,
        ChunkType::Impl,
        ChunkType::LineChunk,
    ] {
        assert_eq!(chunk_type_of_name(chunk_type_name(t)), t);
    }
    assert_eq!(chunk_type_of_name("anything else"), ChunkType::LineChunk);
}

#[test]
fn frames_round_trip() {
    let payload = vec![1u8, 2, 3, 4, 5];
    let mut log = encode_frame(&payload);
    let second = vec![9u8; 300];
    log.extend(encode_frame(&second));
    let (p1, next) = read_frame(&log, 0).unwrap();
    assert_eq!(p1, payload);
    let (p2, end) = read_frame(&log, next).unwrap();
    assert_eq!(p2, second);
    assert_eq!(end, log.len());
    assert!(read_frame(&log, end).is_none());
}

#[test]
fn truncated_trailing_record_reads_as_end_of_stream() {
    let payload = vec![7u8; 40];
    let mut log = encode_frame(&payload);
    // Chop the last byte off: the trailing record is incomplete.
    log.pop();
    assert!(read_frame(&log, 0).is_none());
    // A bare, partial length prefix is end-of-stream too.
    assert!(read_frame(&vec![1u8, 0], 0).is_none());
    // An empty payload still frames and reads.
    let empty = encode_frame(&Vec::new());
    let (p, next) = read_frame(&empty, 0).unwrap();
    assert!(p.is_empty());
    assert_eq!(next, 4);
}

#[test]
fn settings_resolve_with_defaults() {
    let cfg = Config::from_settings(&None, &None, &None, &None);
    assert_eq!(cfg.chunk_size, 350);
    assert_eq!(cfg.chunk_overlap, 100);
    assert_eq!(cfg.vector_dimension, 1536);
    assert_eq!(cfg.top_k, 10);

    let cfg = Config::from_settings(
        &Some("512".to_string()),
        &Some("+64".to_string()),
        &Some("not a number".to_string()),
        &Some("99999999999999999999999999".to_string()),
    );
    assert_eq!(cfg.chunk_size, 512);
    assert_eq!(cfg.chunk_overlap, 64);
    assert_eq!(cfg.vector_dimension, 1536);
    assert_eq!(cfg.top_k, 10);
}

#[test]
fn prepare_chunk_prefixes_provenance() {
    let chunk = Chunk {
        path: "clone/src/main.rs".to_string(),
        chunk_index: "3".to_string(),
        chunk_start_line: 5,
        chunk_end_line: 9,
        text: "  fn main() {}  \n".to_string(),
        function_name: Some("main".to_string()),
        chunk_type: ChunkType::Function,
    };
    let prepared = prepare_chunk(chunk);
    assert_eq!(prepared.text, "[Function] main @ src/main.rs:5-9\nfn main() {}");
    assert_eq!(prepared.path, "clone/src/main.rs");
    assert_eq!(prepared.chunk_index, "3");
}

#[test]
fn prepare_chunk_without_name_says_anonymous() {
    let chunk = Chunk {
        path: "a.py".to_string(),
        chunk_index: "0".to_string(),
        chunk_start_line: 0,
        chunk_end_line: 1,
        text: "print".to_string(),
        function_name: None,
        chunk_type: ChunkType::LineChunk,
    };
    let prepared = prepare_chunk(chunk);
    assert_eq!(prepared.text, "[LineChunk] anonymous @ a.py:0-1\nprint");
}

fn tiny_chunk(i: usize) -> Chunk {
    Chunk {
        path: "p".to_string(),
        chunk_index: format!("{}", i),
        chunk_start_line: 0,
        chunk_end_line: 1,
        text: "x".to_string(),
        function_name: None,
        chunk_type: ChunkType::LineChunk,
    }
}

#[test]
fn batches_respect_the_batch_size() {
    let tok = Tokenizer::new().unwrap();
    let chunks: Vec<Chunk> = (0..MAX_BATCH_SIZE + 1).map(tiny_chunk).collect();
    let batches = make_batches(chunks, &tok);
    assert_eq!(batches.len(), 2);
    assert_eq!(batches[0].len(), MAX_BATCH_SIZE);
    assert_eq!(batches[1].len(), 1);
    let total: usize = batches.iter().map(|b| b.len()).sum();
    assert_eq!(total, MAX_BATCH_SIZE + 1);
}

#[test]
fn no_chunks_make_no_batches() {
    let tok = Tokenizer::new().unwrap();
    let batches = make_batches(Vec::new(), &tok);
    assert!(batches.is_empty());
}

#[test]
fn embed_inputs_reject_an_all_blank_batch() {
    let mut c1 = tiny_chunk(0);
    c1.text = "   ".to_string();
    c1.path = "path_one".to_string();
    let mut c2 = tiny_chunk(1);
    c2.text = "".to_string();
    c2.path = "path_two".to_string();
    let err = select_embed_inputs(&vec![c1, c2]).unwrap_err();
    assert_eq!(err, vec!["path_one".to_string(), "path_two".to_string()]);

    let mut c3 = tiny_chunk(2);
    c3.text = "real text".to_string();
    let mut c4 = tiny_chunk(3);
    c4.text = " ".to_string();
    let ok = select_embed_inputs(&vec![c3, c4]).unwrap();
    assert_eq!(ok, vec!["real text".to_string()]);
}

#[test]
fn question_validation_checks_blank_and_length() {
    assert!(validate_question("how does parsing work?"));
    assert!(!validate_question(""));
    assert!(!validate_question("   \t  "));
    let long = "q".repeat(9000);
    assert!(!validate_question(&long));
}

#[test]
fn oversized_text_is_truncated_at_the_token_level() {
    let tok = Tokenizer::new().unwrap();
    let mut text = String::new();
    for _ in 0..9000 {
        text.push_str("word ");
    }
    assert!(tok.count(&text) > 8192);
    let mut big = tiny_chunk(0);
    big.text = text.clone();
    let batches = make_batches(vec![big], &tok);
    assert_eq!(batches.len(), 1);
    assert_eq!(batches[0].len(), 1);
    let capped = &batches[0][0].text;
    assert!(capped.len() < text.len());
    assert!(tok.count(capped) <= 8192);
}

#[test]
fn stored_point_reads_back_as_chunk() {
    let mut payload: HashMap<String, Value> = HashMap::new();
    let s = |v: &str| Value { kind: Some(Kind::StringValue(v.to_string())) };
    let n = |v: i64| Value { kind: Some(Kind::IntegerValue(v)) };
    payload.insert("path".to_string(), s("src/a.rs"));
    payload.insert("chunk_index".to_string(), s("7"));
    payload.insert("chunk_start_line".to_string(), n(3));
    payload.insert("chunk_end_line".to_string(), n(8));
    payload.insert("chunk_text".to_string(), s("fn a() {}"));
    payload.insert("function_name".to_string(), s("a"));
    payload.insert("chunk_type".to_string(), s("Function"));
    let point = ScoredPoint { payload, ..Default::default() };
    let c = chunk_from_point(&point).unwrap();
    assert_eq!(c.path, "src/a.rs");
    assert_eq!(c.chunk_index, "7");
    assert_eq!(c.chunk_start_line, 3);
    assert_eq!(c.chunk_end_line, 8);
    assert_eq!(c.text, "fn a() {}");
    assert_eq!(c.function_name.as_deref(), Some("a"));
    assert_eq!(c.chunk_type, ChunkType::Function);

    // A payload whose path is an integer is invalid.
    let mut bad: HashMap<String, Value> = HashMap::new();
    bad.insert("path".to_string(), n(1));
    let point = ScoredPoint { payload: bad, ..Default::default() };
    assert_eq!(chunk_from_point(&point).unwrap_err(), PayloadError::MissingPath);
}

#[test]
fn token_totals_add_up() {
    let tok = Tokenizer::new().unwrap();
    let chunks = vec![tiny_chunk(0), tiny_chunk(1)];
    let each = tok.count_with_special("x") as u128;
    assert_eq!(total_tokens_with_special(&chunks, &tok), 2 * each);
    assert_eq!(total_tokens_with_special(&Vec::new(), &tok), 0);
}
