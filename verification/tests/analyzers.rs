use repo_metrics::analysis::analyze_file;
use repo_metrics::analyzers::common::{count_lines, is_comment_line, CommonAnalyzer};
use repo_metrics::analyzers::javascript::{
    classify_file_type, count_list_items, file_extension, file_stem, is_known_config_file,
    public_name, JsAnalyzer,
};
use repo_metrics::analyzers::python::{self, PyAnalyzer};
use repo_metrics::analyzers::{Analyzer, FileStats};

fn chars(s: &str) -> Vec<char> {
    s.chars().collect()
}

#[test]
fn comment_lines_by_prefix() {
    assert!(is_comment_line(&chars("// note")));
    assert!(is_comment_line(&chars("# heading")));
    assert!(is_comment_line(&chars("* item")));
    assert!(is_comment_line(&chars("/* block")));
    assert!(is_comment_line(&chars("<!-- html")));
    assert!(is_comment_line(&chars("--> end")));
    assert!(is_comment_line(&chars("-- sql")));
    assert!(!is_comment_line(&chars("let x = 1; // trailing")));
    assert!(!is_comment_line(&chars("-x")));
}

#[test]
fn line_counts_skip_blank_and_comment_lines() {
    let content = "let a = 1;\n\n   \n  // comment\nlet b = 2; # not a comment line\n\t# hash\r\nend";
    assert_eq!(count_lines(content), (5, 3));
    assert_eq!(count_lines(""), (0, 0));
    assert_eq!(count_lines("\n\n"), (0, 0));
    assert_eq!(count_lines("x\r\ny\r\n"), (2, 2));
}

#[test]
fn common_analyzer_fills_line_counts_only() {
    let a = CommonAnalyzer;
    assert!(a.can_analyze("anything.bin"));
    let mut stats = FileStats::default();
    stats.file_type = Some("config".to_string());
    a.analyze("x.rs", "fn main() {}\n// c\n", &mut stats);
    assert_eq!(stats.sloc_nonblank, 2);
    assert_eq!(stats.sloc_noncomment, 1);
    assert_eq!(stats.file_type.as_deref(), Some("config"));
    assert_eq!(stats.js_exports_total, None);
}

#[test]
fn js_extension_and_stem() {
    assert_eq!(file_extension("src/Button.test.tsx"), "tsx");
    assert_eq!(file_extension("Makefile"), "Makefile");
    assert_eq!(file_extension("dir.v2/file"), "v2/file");
    assert_eq!(file_stem("src/getFoo.ts"), "getFoo");
    assert_eq!(file_stem("src/Button.stories.tsx"), "Button");
    assert_eq!(file_stem("index.tsx"), "index");
    assert_eq!(file_stem("src/.eslintrc.js"), "");
}

#[test]
fn js_file_types() {
    assert_eq!(classify_file_type("src/Button.test.tsx"), "test");
    assert_eq!(classify_file_type("src/Button.spec.ts"), "test");
    assert_eq!(classify_file_type("src/Button.stories.tsx"), "story");
    assert_eq!(classify_file_type("src/Button.story.jsx"), "story");
    assert_eq!(classify_file_type("app/vite.config.ts"), "config");
    assert_eq!(classify_file_type("custom.config.js"), "config");
    assert_eq!(classify_file_type(".eslintrc.cjs"), "config");
    assert_eq!(classify_file_type("src/__tests__/util.ts"), "test");
    assert_eq!(classify_file_type("__tests__/util.ts"), "test");
    assert_eq!(classify_file_type("x__tests__/util.ts"), "source");
    assert_eq!(classify_file_type("lib/tests/util.ts"), "test");
    assert_eq!(classify_file_type("lib/test/util.ts"), "test");
    assert_eq!(classify_file_type("tests/util.ts"), "test");
    assert_eq!(classify_file_type("test/util.ts"), "test");
    assert_eq!(classify_file_type("src/util.ts"), "source");
    assert_eq!(classify_file_type("src/testing/util.ts"), "source");
    // name patterns win over directory patterns
    assert_eq!(classify_file_type("tests/Button.stories.tsx"), "story");
}

#[test]
fn known_config_names() {
    assert!(is_known_config_file("jest.config.ts"));
    assert!(is_known_config_file("svelte.config.js"));
    assert!(is_known_config_file(".eslintrc.js"));
    assert!(!is_known_config_file("svelte.config.ts"));
    assert!(!is_known_config_file("src/jest.config.ts"));
}

#[test]
fn export_list_items_and_public_names() {
    assert_eq!(count_list_items("foo, bar as baz, "), 2);
    assert_eq!(count_list_items(" , ,"), 0);
    assert_eq!(count_list_items("a"), 1);
    assert_eq!(public_name("foo as bar"), "bar");
    assert_eq!(public_name("foo"), "foo");
    assert_eq!(public_name("a as  b "), "b");
}

#[test]
fn js_analyzer_counts_exports() {
    let js = JsAnalyzer::new().expect("patterns compile");
    assert!(js.can_analyze("a.tsx"));
    assert!(js.can_analyze("a.mjs"));
    assert!(!js.can_analyze("a.py"));
    assert!(!js.can_analyze("a.json"));
    let content = "import x from 'y';\n\
export const getFoo = 1;\n\
export async function load() {}\n\
export default function Bar() {}\n\
export { a, b as c, };\n\
export type { T };\n";
    let mut stats = FileStats::default();
    js.analyze("src/getFoo.ts", content, &mut stats);
    assert_eq!(stats.file_type.as_deref(), Some("source"));
    assert_eq!(stats.js_exports_default, Some(1));
    assert_eq!(stats.js_exports_named, Some(5));
    assert_eq!(stats.js_exports_total, Some(6));
    assert!(stats.js_export_matches_filename);
}

#[test]
fn export_matches_file_stem() {
    let js = JsAnalyzer::new().expect("patterns compile");
    let content = "export default function Bar() {}\nexport { inner as Qux };\nexport const getFoo = 1;\n";
    assert!(js.export_matches_stem("src/getfoo.ts", content));
    assert!(js.export_matches_stem("src/bar.ts", content));
    assert!(js.export_matches_stem("src/Qux.tsx", content));
    assert!(!js.export_matches_stem("src/inner.ts", content));
    assert!(!js.export_matches_stem("src/other.ts", content));
    assert!(!js.export_matches_stem("src/x.ts", "export default { a: 1 }\n"));
}

#[test]
fn python_file_types() {
    assert_eq!(python::classify_file_type("pkg/test_a.py"), "test");
    assert_eq!(python::classify_file_type("pkg/a_test.py"), "test");
    assert_eq!(python::classify_file_type("tests/conftest.py"), "test");
    assert_eq!(python::classify_file_type("pkg/test/helpers.py"), "test");
    assert_eq!(python::classify_file_type("pkg/a.py"), "source");
    let py = PyAnalyzer;
    assert!(py.can_analyze("x.py"));
    assert!(!py.can_analyze("x.pyc"));
    let mut stats = FileStats::default();
    py.analyze("app/main.py", "import os\n", &mut stats);
    assert_eq!(stats.file_type, None);
    assert_eq!((stats.sloc_nonblank, stats.sloc_noncomment), (0, 0));
    assert_eq!(stats.js_exports_total, None);
    assert!(!stats.js_export_matches_filename);
}

#[test]
fn analyze_file_runs_each_analyzer() {
    let js = JsAnalyzer::new().expect("patterns compile");
    let py = analyze_file(&js, "pkg/mod.py", "import os\n# comment\n\nx = 1\n");
    assert_eq!(py.sloc_nonblank, 3);
    assert_eq!(py.sloc_noncomment, 2);
    // file types are recorded for JS/TS files only
    assert_eq!(py.file_type, None);
    assert_eq!(py.js_exports_total, None);
    assert!(!py.js_export_matches_filename);

    let ts = analyze_file(&js, "src/Button.test.ts", "export const Button = 1;\n");
    assert_eq!(ts.file_type.as_deref(), Some("test"));
    assert_eq!(ts.js_exports_named, Some(1));
    assert_eq!(ts.js_exports_default, Some(0));
    assert!(ts.js_export_matches_filename);

    let md = analyze_file(&js, "README.md", "# Title\n\ntext\n");
    assert_eq!(md.sloc_nonblank, 2);
    assert_eq!(md.sloc_noncomment, 1);
    assert_eq!(md.file_type, None);
}
