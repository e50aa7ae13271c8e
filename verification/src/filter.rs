//! File discovery policy: extension classification and the optional
//! include/exclude filter over regular-expression patterns.

use vstd::prelude::*;
use vstd::string::StrSliceExecFns;
use vstd::string::StringExecFns;

use crate::strutil::str_eq;
use crate::types::{FileMeta, FileType, FilterConfig};

verus! {

/// The last index at or before `i` holding `c`, or `-1`.
pub open spec fn rfind(s: Seq<char>, c: char, i: int) -> int
    decreases i + 1,
    when i < s.len()
{
    if i < 0 {
        -1
    } else if s[i] == c {
        i
    } else {
        rfind(s, c, i - 1)
    }
}

pub proof fn lemma_rfind_bounds(s: Seq<char>, c: char, i: int)
    requires
        -1 <= i < s.len(),
    ensures
        -1 <= rfind(s, c, i) <= i,
        rfind(s, c, i) >= 0 ==> s[rfind(s, c, i)] == c,
        forall|j: int| rfind(s, c, i) < j <= i ==> s[j] != c,
    decreases i + 1,
{
    if i >= 0 && s[i] != c {
        lemma_rfind_bounds(s, c, i - 1);
    }
}

/// The path's extension: what follows the final `'.'` of the last path
/// component, when that dot is not the component's first character.
pub open spec fn ext_of(path: Seq<char>) -> Seq<char> {
    let sl = rfind(path, '/', path.len() - 1);
    let dot = rfind(path, '.', path.len() - 1);
    if dot > sl + 1 {
        path.subrange(dot + 1, path.len() as int)
    } else {
        Seq::empty()
    }
}

/// Find the last occurrence of `c` in `s`, as `rfind` describes.
fn rfind_exec(s: &str, c: char) -> (r: Option<usize>)
    ensures
        match r {
            Some(i) => rfind(s@, c, s@.len() - 1) == i as int && (i as int) < s@.len(),
            None => rfind(s@, c, s@.len() - 1) == -1,
        },
{
    let n: usize = s.unicode_len();
    let mut i: usize = n;
    while i > 0
        invariant
            n == s@.len(),
            0 <= i <= n,
            rfind(s@, c, n - 1) == rfind(s@, c, i - 1),
        decreases i,
    {
        i = i - 1;
        if s.get_char(i) == c {
            return Some(i);
        }
    }
    None
}

/// Extract the path's extension.
pub fn path_extension(path: &str) -> (r: String)
    ensures
        r@ == ext_of(path@),
{
    let n: usize = path.unicode_len();
    let sl: Option<usize> = rfind_exec(path, '/');
    let dot: Option<usize> = rfind_exec(path, '.');
    let sl_i: usize = match sl {
        Some(i) => i + 1,
        None => 0,
    };
    match dot {
        Some(d) => {
            proof {
                lemma_rfind_bounds(path@, '.', path@.len() - 1);
            }
            if d >= 1 && d > sl_i {
                path.substring_char(d + 1, n).to_owned()
            } else {
                String::new()
            }
        },
        None => String::new(),
    }
}

/// The extensions treated as source code.
pub open spec fn is_code_ext(e: Seq<char>) -> bool {
    ||| e == "rs"@
    ||| e == "py"@
    ||| e == "js"@
    ||| e == "ts"@
    ||| e == "tsx"@
    ||| e == "jsx"@
    ||| e == "java"@
    ||| e == "cpp"@
    ||| e == "c"@
    ||| e == "go"@
    ||| e == "rb"@
    ||| e == "php"@
    ||| e == "cs"@
}

/// The extensions treated as documentation.
pub open spec fn is_doc_ext(e: Seq<char>) -> bool {
    ||| e == "md"@
    ||| e == "markdown"@
    ||| e == "rst"@
    ||| e == "txt"@
    ||| e == "adoc"@
    ||| e == "org"@
}

/// How a path is classified by its extension.
pub open spec fn spec_file_type(path: Seq<char>) -> FileType {
    if is_code_ext(ext_of(path)) {
        FileType::Code
    } else if is_doc_ext(ext_of(path)) {
        FileType::Doc
    } else {
        FileType::Other
    }
}

/// Classify a file by its extension.
pub fn detect_file_type(path: &str) -> (r: FileType)
    ensures
        r == spec_file_type(path@),
{
    let ext: String = path_extension(path);
    let e: &str = ext.as_str();
    if str_eq(e, "rs") || str_eq(e, "py") || str_eq(e, "js") || str_eq(e, "ts") || str_eq(e, "tsx")
        || str_eq(e, "jsx") || str_eq(e, "java") || str_eq(e, "cpp") || str_eq(e, "c") || str_eq(
        e,
        "go",
    ) || str_eq(e, "rb") || str_eq(e, "php") || str_eq(e, "cs") {
        FileType::Code
    } else if str_eq(e, "md") || str_eq(e, "markdown") || str_eq(e, "rst") || str_eq(e, "txt")
        || str_eq(e, "adoc") || str_eq(e, "org") {
        FileType::Doc
    } else {
        FileType::Other
    }
}

/// Whether a regular-expression pattern compiles.
pub uninterp spec fn regex_compiles(pat: Seq<char>) -> bool;

/// Whether a compiled pattern matches somewhere in a text.
pub uninterp spec fn regex_match(pat: Seq<char>, text: Seq<char>) -> bool;

/// Relies on `regex::Regex::new` and `regex::Regex::is_match`: whether a
/// pattern compiles depends on the pattern alone, and whether it matches
/// depends on the pattern and the text alone.
#[verifier::external_body]
fn regex_is_match(pattern: &str, text: &str) -> (r: Option<bool>)
    ensures
        r == (if regex_compiles(pattern@) {
            Some(regex_match(pattern@, text@))
        } else {
            None::<bool>
        }),
{
    match regex::Regex::new(pattern) {
        Ok(re) => Some(re.is_match(text)),
        Err(_) => None,
    }
}

/// A path is matched when the pattern compiles and matches it; a pattern
/// that does not compile matches nothing.
pub open spec fn spec_path_matches(path: Seq<char>, pat: Seq<char>) -> bool {
    regex_compiles(pat) && regex_match(pat, path)
}

/// Test one pattern against one path; an invalid pattern is skipped.
pub fn path_matches_pattern(path: &str, pattern: &str) -> (r: bool)
    ensures
        r == spec_path_matches(path@, pattern@),
{
    match regex_is_match(pattern, path) {
        Some(b) => b,
        None => false,
    }
}

/// The view of a filter configuration.
pub struct FilterConfigView {
    pub mode: Seq<char>,
    pub paths: Seq<Seq<char>>,
}

impl View for FilterConfig {
    type V = FilterConfigView;

    open spec fn view(&self) -> FilterConfigView {
        FilterConfigView { mode: self.mode@, paths: self.paths@.map_values(|p: String| p@) }
    }
}

/// Any pattern of the list matches the path.
pub open spec fn spec_matches_any(path: Seq<char>, pats: Seq<Seq<char>>) -> bool {
    exists|i: int| 0 <= i < pats.len() && #[trigger] spec_path_matches(path, pats[i])
}

/// The filter policy: under `"include"` only matched paths survive, under
/// `"exclude"` only unmatched ones; any other mode includes everything.
pub open spec fn spec_should_include(path: Seq<char>, fc: Option<FilterConfigView>) -> bool {
    match fc {
        None => true,
        Some(c) => {
            let m = spec_matches_any(path, c.paths);
            if c.mode == "include"@ {
                m
            } else if c.mode == "exclude"@ {
                !m
            } else {
                true
            }
        },
    }
}

/// The view of an optional filter configuration.
pub open spec fn opt_fc_view(fc: &Option<FilterConfig>) -> Option<FilterConfigView> {
    match fc {
        Some(c) => Some(c@),
        None => None,
    }
}

/// Decide whether a discovered path survives the configured filter.
pub fn should_include_file(path: &str, filter_config: &Option<FilterConfig>) -> (r: bool)
    ensures
        r == spec_should_include(path@, opt_fc_view(filter_config)),
{
    match filter_config {
        None => true,
        Some(config) => {
            let ghost pats = config@.paths;
            let n: usize = config.paths.len();
            let mut matches_any: bool = false;
            let mut i: usize = 0;
            while i < n && !matches_any
                invariant
                    n == config.paths@.len(),
                    pats == config@.paths,
                    0 <= i <= n,
                    matches_any ==> spec_matches_any(path@, pats),
                    !matches_any ==> forall|j: int|
                        0 <= j < i ==> !#[trigger] spec_path_matches(path@, pats[j]),
                decreases n - i,
            {
                if path_matches_pattern(path, config.paths[i].as_str()) {
                    proof {
                        assert(spec_path_matches(path@, pats[i as int]));
                    }
                    matches_any = true;
                }
                i = i + 1;
            }
            proof {
                if !matches_any {
                    assert(forall|j: int|
                        0 <= j < pats.len() ==> !#[trigger] spec_path_matches(path@, pats[j]));
                }
            }
            let mode: &str = config.mode.as_str();
            if str_eq(mode, "include") {
                matches_any
            } else if str_eq(mode, "exclude") {
                !matches_any
            } else {
                true
            }
        },
    }
}

/// Which paths the policy keeps: code files that survive the filter.
pub open spec fn spec_kept(p: Seq<char>, fc: Option<FilterConfigView>) -> bool {
    spec_file_type(p) == FileType::Code && spec_should_include(p, fc)
}

/// The kept paths, in order.
pub open spec fn spec_filter_paths(ps: Seq<Seq<char>>, fc: Option<FilterConfigView>) -> Seq<
    Seq<char>,
>
    decreases ps.len(),
{
    if ps.len() == 0 {
        Seq::empty()
    } else {
        (if spec_kept(ps[0], fc) {
            seq![ps[0]]
        } else {
            Seq::empty()
        }) + spec_filter_paths(ps.drop_first(), fc)
    }
}

/// Keep the discovered paths that are code files and survive the filter,
/// in discovery order.
pub fn filter_paths(paths: &Vec<String>, filter_config: &Option<FilterConfig>) -> (r: Vec<FileMeta>)
    ensures
        r@.map_values(|f: FileMeta| f.path@) == spec_filter_paths(
            paths@.map_values(|p: String| p@),
            opt_fc_view(filter_config),
        ),
{
    let ghost ps = paths@.map_values(|p: String| p@);
    let ghost fc = opt_fc_view(filter_config);
    let n: usize = paths.len();
    let mut out: Vec<FileMeta> = Vec::new();
    let mut i: usize = 0;
    proof {
        assert(ps.skip(0) =~= ps);
    }
    while i < n
        invariant
            n == paths@.len(),
            ps == paths@.map_values(|p: String| p@),
            fc == opt_fc_view(filter_config),
            0 <= i <= n,
            out@.map_values(|f: FileMeta| f.path@) + spec_filter_paths(ps.skip(i as int), fc)
                == spec_filter_paths(ps, fc),
        decreases n - i,
    {
        proof {
            assert(ps.skip(i as int)[0] == ps[i as int]);
            assert(ps.skip(i as int).drop_first() =~= ps.skip(i + 1));
            assert(ps[i as int] == paths@[i as int]@);
        }
        let ft: FileType = detect_file_type(paths[i].as_str());
        let keep: bool = match ft {
            FileType::Code => should_include_file(paths[i].as_str(), filter_config),
            _ => false,
        };
        if keep {
            let ghost before = out@;
            out.push(FileMeta { path: paths[i].clone() });
            proof {
                assert(out@.map_values(|f: FileMeta| f.path@) =~= before.map_values(
                    |f: FileMeta| f.path@,
                ).push(ps[i as int]));
                assert(out@.map_values(|f: FileMeta| f.path@) + spec_filter_paths(
                    ps.skip(i + 1),
                    fc,
                ) =~= spec_filter_paths(ps, fc));
            }
        } else {
            proof {
                assert(out@.map_values(|f: FileMeta| f.path@) + spec_filter_paths(
                    ps.skip(i + 1),
                    fc,
                ) =~= spec_filter_paths(ps, fc));
            }
        }
        i = i + 1;
    }
    proof {
        assert(ps.skip(n as int) =~= Seq::<Seq<char>>::empty());
        assert(spec_filter_paths(ps.skip(n as int), fc) =~= Seq::<Seq<char>>::empty());
        assert(out@.map_values(|f: FileMeta| f.path@) =~= spec_filter_paths(ps, fc));
    }
    out
}

} // verus!
