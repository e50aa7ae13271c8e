use better_deep_wiki::segmenter::{
    chunk_java, chunk_javascript, chunk_rust, chunk_tsx, determine_chunk_type,
};
use better_deep_wiki::splitter::TextSplitter;
use better_deep_wiki::tokenizer::Tokenizer;
use better_deep_wiki::types::ChunkType;

fn tok() -> Tokenizer {
    Tokenizer::new().expect("tokenizer")
}

fn splitter() -> TextSplitter {
    TextSplitter { chunk_size: 350, chunk_overlap: 100 }
}

#[test]
fn determine_chunk_type_maps_patterns() {
    assert_eq!(
        determine_chunk_type("(class_declaration name: (identifier) @name) @item"),
        ChunkType::Class
    );
    assert_eq!(
        determine_chunk_type("(interface_declaration x) @item"),
        ChunkType::Interface
    );
    assert_eq!(determine_chunk_type("(struct_item x) @item"), ChunkType::Struct);
    assert_eq!(determine_chunk_type("(impl_item x) @item"), ChunkType::Impl);
    assert_eq!(determine_chunk_type("(method_definition x) @item"), ChunkType::Method);
    assert_eq!(determine_chunk_type("(method_declaration x) @item"), ChunkType::Method);
    assert_eq!(determine_chunk_type("(function_item x) @item"), ChunkType::Function);
}

#[test]
fn rust_function_is_extracted() {
    let tok = tok();
    let sp = splitter();
    let content = "fn add(a: i32, b: i32) -> i32 {\n    a + b\n}\n";
    let chunks = chunk_rust(content, "src/lib.rs", 350, &sp, &tok).unwrap();
    assert_eq!(chunks.len(), 1);
    let c = &chunks[0];
    assert_eq!(c.chunk_type, ChunkType::Function);
    assert_eq!(c.function_name.as_deref(), Some("add"));
    assert_eq!(c.chunk_index, "0");
    assert_eq!(c.chunk_start_line, 1);
    assert_eq!(c.chunk_end_line, 3);
    assert_eq!(c.text, "fn add(a: i32, b: i32) -> i32 {\n    a + b\n}");
    assert_eq!(c.path, "src/lib.rs");
}

#[test]
fn rust_struct_and_impl_follow_pattern_order() {
    let tok = tok();
    let sp = splitter();
    let content = "struct P {\n    x: u8,\n}\n\nimpl P {\n    fn get(&self) -> u8 {\n        self.x\n    }\n}\n";
    let chunks = chunk_rust(content, "p.rs", 350, &sp, &tok).unwrap();
    // Patterns run in order: functions first, then structs, then impls.
    let kinds: Vec<ChunkType> = chunks.iter().map(|c| c.chunk_type).collect();
    assert_eq!(
        kinds,
        vec![ChunkType::Function, ChunkType::Struct, ChunkType::Impl]
    );
    let names: Vec<Option<&str>> = chunks.iter().map(|c| c.function_name.as_deref()).collect();
    assert_eq!(names, vec![Some("get"), Some("P"), Some("P")]);
    let indices: Vec<&str> = chunks.iter().map(|c| c.chunk_index.as_str()).collect();
    assert_eq!(indices, vec!["0", "1", "2"]);
}

#[test]
fn javascript_class_and_method() {
    let tok = tok();
    let sp = splitter();
    let content = "class Greeter {\n  greet() {\n    return 1;\n  }\n}\n";
    let chunks = chunk_javascript(content, "a.js", 350, &sp, &tok).unwrap();
    assert!(chunks.iter().any(|c| c.chunk_type == ChunkType::Class
        && c.function_name.as_deref() == Some("Greeter")));
    assert!(chunks.iter().any(|c| c.chunk_type == ChunkType::Method
        && c.function_name.as_deref() == Some("greet")));
}

#[test]
fn tsx_interface_is_extracted() {
    let tok = tok();
    let sp = splitter();
    let content = "interface Shape {\n  area: number;\n}\n";
    let chunks = chunk_tsx(content, "a.tsx", 350, &sp, &tok).unwrap();
    assert_eq!(chunks.len(), 1);
    assert_eq!(chunks[0].chunk_type, ChunkType::Interface);
    assert_eq!(chunks[0].function_name.as_deref(), Some("Shape"));
}

#[test]
fn java_class_and_method() {
    let tok = tok();
    let sp = splitter();
    let content = "class Box {\n    int get() {\n        return 1;\n    }\n}\n";
    let chunks = chunk_java(content, "Box.java", 350, &sp, &tok).unwrap();
    assert!(chunks.iter().any(|c| c.chunk_type == ChunkType::Class
        && c.function_name.as_deref() == Some("Box")));
    assert!(chunks.iter().any(|c| c.chunk_type == ChunkType::Method
        && c.function_name.as_deref() == Some("get")));
}

#[test]
fn oversized_unit_gets_composite_indices_within_its_span() {
    let tok = tok();
    // Make the sub-splitter emit small windows.
    let sp = TextSplitter { chunk_size: 8, chunk_overlap: 2 };
    let mut body = String::new();
    for i in 0..12 {
        body.push_str(&format!("    let v{} = {};\n", i, i));
    }
    let content = format!("// header\n// header\nfn big() {{\n{}}}\n", body);
    // The unit spans lines 3..16 of the file (1-based).
    let chunks = chunk_rust(&content, "big.rs", 8, &sp, &tok).unwrap();
    assert!(chunks.len() > 1);
    let unit_start = 3;
    let unit_end = 16;
    for (j, c) in chunks.iter().enumerate() {
        assert_eq!(c.chunk_index, format!("0-{}", j));
        assert_eq!(c.chunk_type, ChunkType::Function);
        assert_eq!(c.function_name.as_deref(), Some("big"));
        // Sub-chunk spans are 1-based inclusive and stay inside the unit's span.
        assert!(c.chunk_start_line >= unit_start);
        assert!(c.chunk_start_line <= c.chunk_end_line);
        assert!(c.chunk_end_line <= unit_end);
    }
}

#[test]
fn no_match_falls_back_to_line_chunks() {
    let tok = tok();
    let sp = TextSplitter { chunk_size: 5, chunk_overlap: 1 };
    // Valid Rust, but nothing any pattern captures.
    let content = "const X: u8 = 1;\nconst Y: u8 = 2;\n";
    let direct = chunk_rust(content, "c.rs", 5, &sp, &tok).unwrap();
    assert!(direct.is_empty());
    let via_engine = sp.split_content(content, "c.rs", &tok).unwrap();
    let plain = sp.split_text(content, "c.rs".to_string(), &tok).unwrap();
    assert_eq!(via_engine.len(), plain.len());
    for (a, b) in via_engine.iter().zip(plain.iter()) {
        assert_eq!(a.text, b.text);
        assert_eq!(a.chunk_index, b.chunk_index);
        assert_eq!(a.chunk_start_line, b.chunk_start_line);
        assert_eq!(a.chunk_end_line, b.chunk_end_line);
        assert_eq!(a.chunk_type, ChunkType::LineChunk);
    }
}

#[test]
fn unsupported_extension_uses_line_chunks() {
    let tok = tok();
    let sp = TextSplitter { chunk_size: 4, chunk_overlap: 1 };
    let content = "print('hi')\nprint('ho')\n";
    let via_engine = sp.split_content(content, "script.py", &tok).unwrap();
    let plain = sp.split_text(content, "script.py".to_string(), &tok).unwrap();
    assert_eq!(via_engine.len(), plain.len());
    for (a, b) in via_engine.iter().zip(plain.iter()) {
        assert_eq!(a.text, b.text);
        assert_eq!(a.chunk_type, ChunkType::LineChunk);
    }
}

#[test]
fn segmentation_is_deterministic() {
    let tok = tok();
    let sp = splitter();
    let content = "fn a() {\n    1;\n}\nfn b() {\n    2;\n}\n";
    let x = chunk_rust(content, "d.rs", 350, &sp, &tok).unwrap();
    let y = chunk_rust(content, "d.rs", 350, &sp, &tok).unwrap();
    assert_eq!(x.len(), y.len());
    for (a, b) in x.iter().zip(y.iter()) {
        assert_eq!(a.chunk_index, b.chunk_index);
        assert_eq!(a.text, b.text);
        assert_eq!(a.chunk_start_line, b.chunk_start_line);
        assert_eq!(a.chunk_end_line, b.chunk_end_line);
    }
}
