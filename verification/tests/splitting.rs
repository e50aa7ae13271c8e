use better_deep_wiki::splitter::TextSplitter;
use better_deep_wiki::tokenizer::Tokenizer;
use better_deep_wiki::types::ChunkType;

fn tok() -> Tokenizer {
    Tokenizer::new().expect("tokenizer")
}

#[test]
fn five_single_token_lines_with_overlap_one() {
    let tok = tok();
    let splitter = TextSplitter { chunk_size: 2, chunk_overlap: 1 };
    let text = "a\nb\nc\nd\ne";
    let chunks = splitter.split_text(text, "f".to_string(), &tok).unwrap();
    let spans: Vec<(usize, usize)> = chunks
        .iter()
        .map(|c| (c.chunk_start_line, c.chunk_end_line))
        .collect();
    assert_eq!(spans, vec![(0, 2), (1, 3), (2, 4), (3, 5)]);
    let texts: Vec<&str> = chunks.iter().map(|c| c.text.as_str()).collect();
    assert_eq!(texts, vec!["a b", "b c", "c d", "d e"]);
    let indices: Vec<&str> = chunks.iter().map(|c| c.chunk_index.as_str()).collect();
    assert_eq!(indices, vec!["0", "1", "2", "3"]);
    for c in &chunks {
        assert_eq!(c.chunk_type, ChunkType::LineChunk);
        assert!(c.function_name.is_none());
        assert_eq!(c.path, "f");
    }
}

#[test]
fn every_line_is_covered() {
    let tok = tok();
    let splitter = TextSplitter { chunk_size: 5, chunk_overlap: 2 };
    let text = "alpha beta\ngamma\ndelta epsilon zeta\neta\ntheta iota kappa\nlambda";
    let n_lines = text.split('\n').count();
    let chunks = splitter.split_text(text, "f".to_string(), &tok).unwrap();
    for line in 0..n_lines {
        assert!(
            chunks
                .iter()
                .any(|c| c.chunk_start_line <= line && line < c.chunk_end_line),
            "line {} not covered",
            line
        );
    }
}

#[test]
fn overlap_region_reaches_the_overlap_budget() {
    let tok = tok();
    let splitter = TextSplitter { chunk_size: 4, chunk_overlap: 2 };
    let text = "a b\nc d\ne f\ng h\ni j";
    let chunks = splitter.split_text(text, "f".to_string(), &tok).unwrap();
    assert!(chunks.len() >= 2);
    let counts: Vec<usize> = text
        .split('\n')
        .map(|l| tok.count(l))
        .collect();
    for w in chunks.windows(2) {
        let (prev, next) = (&w[0], &w[1]);
        let overlap_tokens: usize = (next.chunk_start_line..prev.chunk_end_line)
            .map(|i| counts[i])
            .sum();
        assert!(overlap_tokens >= 2 || next.chunk_start_line == prev.chunk_start_line + 1);
    }
}

#[test]
fn oversized_line_becomes_its_own_chunk() {
    let tok = tok();
    let splitter = TextSplitter { chunk_size: 2, chunk_overlap: 0 };
    let text = "alpha beta gamma delta epsilon\nx";
    let chunks = splitter.split_text(text, "f".to_string(), &tok).unwrap();
    assert_eq!(chunks[0].chunk_start_line, 0);
    assert_eq!(chunks[0].chunk_end_line, 1);
    assert_eq!(chunks[0].text, "alpha beta gamma delta epsilon");
}

#[test]
fn empty_text_yields_one_empty_chunk() {
    let tok = tok();
    let splitter = TextSplitter { chunk_size: 10, chunk_overlap: 2 };
    let chunks = splitter.split_text("", "f".to_string(), &tok).unwrap();
    assert_eq!(chunks.len(), 1);
    assert_eq!(chunks[0].text, "");
    assert_eq!(chunks[0].chunk_start_line, 0);
    assert_eq!(chunks[0].chunk_end_line, 1);
}

#[test]
fn splitting_is_deterministic() {
    let tok = tok();
    let splitter = TextSplitter { chunk_size: 3, chunk_overlap: 1 };
    let text = "one two three\nfour\nfive six\nseven eight nine ten";
    let a = splitter.split_text(text, "p".to_string(), &tok).unwrap();
    let b = splitter.split_text(text, "p".to_string(), &tok).unwrap();
    assert_eq!(a.len(), b.len());
    for (x, y) in a.iter().zip(b.iter()) {
        assert_eq!(x.path, y.path);
        assert_eq!(x.chunk_index, y.chunk_index);
        assert_eq!(x.chunk_start_line, y.chunk_start_line);
        assert_eq!(x.chunk_end_line, y.chunk_end_line);
        assert_eq!(x.text, y.text);
    }
}

#[test]
fn token_counter_counts_tokens() {
    let tok = tok();
    assert_eq!(tok.count(""), 0);
    assert!(tok.count("hello world") >= 2);
    // A counter that echoed its input's length in characters would differ
    // here: many characters, few tokens.
    assert!(tok.count("aaaaaaaaaaaaaaaaaaaaaaaaaaaaaaaa") < 32);
}
