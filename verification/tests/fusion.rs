use better_deep_wiki::payload::extract_terms;
use better_deep_wiki::rrf::reciprocal_rank_fusion;
use better_deep_wiki::types::{Chunk, ChunkType};

fn chunk(path: &str, index: &str) -> Chunk {
    Chunk {
        path: path.to_string(),
        chunk_index: index.to_string(),
        chunk_start_line: 1,
        chunk_end_line: 2,
        text: format!("text of {}:{}", path, index),
        function_name: None,
        chunk_type: ChunkType::Function,
    }
}

#[test]
fn fusion_of_two_ranked_lists_is_exact() {
    // Semantic list [A, B, C]; lexical list [C, A]; k = 60.
    // Fused scores: A = 1/61 + 1/62 = 123/3782, C = 1/63 + 1/61 = 124/3843,
    // B = 1/62.  Exact arithmetic orders them A > C > B.
    let sem = vec![chunk("f", "A"), chunk("f", "B"), chunk("f", "C")];
    let lex = vec![chunk("f", "C"), chunk("f", "A")];
    let fused = reciprocal_rank_fusion(sem, lex, 60, 10);
    let order: Vec<&str> = fused.iter().map(|c| c.chunk_index.as_str()).collect();
    assert_eq!(order, vec!["A", "C", "B"]);
}

#[test]
fn top_hit_in_both_lists_comes_first() {
    let sem = vec![chunk("f", "A"), chunk("f", "B"), chunk("f", "C")];
    let lex = vec![chunk("f", "A"), chunk("f", "D")];
    let fused = reciprocal_rank_fusion(sem, lex, 60, 10);
    assert_eq!(fused[0].chunk_index, "A");
}

#[test]
fn empty_lexical_list_degrades_to_semantic_order() {
    let sem = vec![chunk("f", "A"), chunk("f", "B"), chunk("f", "C")];
    let fused = reciprocal_rank_fusion(sem, Vec::new(), 60, 10);
    let order: Vec<&str> = fused.iter().map(|c| c.chunk_index.as_str()).collect();
    assert_eq!(order, vec!["A", "B", "C"]);
}

#[test]
fn result_is_truncated_to_top_k() {
    let sem = vec![chunk("f", "A"), chunk("f", "B"), chunk("f", "C")];
    let lex = vec![chunk("f", "D")];
    let fused = reciprocal_rank_fusion(sem, lex, 60, 2);
    assert_eq!(fused.len(), 2);
}

#[test]
fn identity_is_path_and_index_together() {
    // Same index, different paths: distinct entities.
    let sem = vec![chunk("p1", "A"), chunk("p2", "A")];
    let lex = vec![chunk("p2", "A")];
    let fused = reciprocal_rank_fusion(sem, lex, 60, 10);
    assert_eq!(fused.len(), 2);
    // p2:A appears in both lists, so it outranks p1:A.
    assert_eq!(fused[0].path, "p2");
    assert_eq!(fused[1].path, "p1");
}

#[test]
fn lexical_terms_are_lowercased_and_length_filtered() {
    let terms = extract_terms("Find the URL Parser of DB");
    let got: Vec<&str> = terms.iter().map(|t| t.as_str()).collect();
    // Words of three bytes or more survive, lowercased; "of" and "DB" fall out.
    assert_eq!(got, vec!["find", "the", "url", "parser"]);
}

#[test]
fn short_query_yields_no_lexical_terms() {
    let terms = extract_terms("a bb c");
    assert!(terms.is_empty());
    let none = extract_terms("");
    assert!(none.is_empty());
}
