//! JavaScript/TypeScript analyzer: file-type classification and export
//! counts, found with regular expressions over the file content.

use vstd::prelude::*;
use crate::analyzers::{low32, Analyzer, FileStats};
use crate::analyzers::patterns::{
    opt_strings_view, regex_compiles, regex_group_captures, regex_match_count, Pattern,
};
use crate::text::{
    after_first_seq, after_first_str, after_last, after_last_in, before_first, before_first_in,
    chars_of, contains_seq, contains_str, count_nonblank_pieces, is_blank, is_prefix,
    nonblank_count, pieces_view, slice_eq_str, split_on, split_pieces, starts_with_str,
    str_lowercase, string_from_chars, to_lowercase, trim, trimmed, lemma_after_last,
    lemma_before_first,
};

verus! {

/// `export const/let/var/function/class/type/interface/enum NAME`
pub const RE_NAMED_DECL: &'static str =
    r"(?m)^export\s+(?:async\s+)?(?:const|let|var|function\*?|class|type|interface|enum|abstract\s+class)\s+(\w+)";

/// `export default function NAME` / `export default class NAME` (named default)
pub const RE_DEFAULT_NAMED: &'static str =
    r"(?m)^export\s+default\s+(?:async\s+)?(?:function\*?|class)\s+(\w+)";

/// Any `export default`: covers both named and anonymous forms for counting
pub const RE_DEFAULT_ANY: &'static str = r"(?m)^export\s+default\b";

/// `export { ... }` or `export type { ... }`: captures the list contents
pub const RE_EXPORT_LIST: &'static str = r"(?ms)^export\s+(?:type\s+)?\{([^}]+)\}";

// ---------------------------------------------------------------------------
// Specifications
// ---------------------------------------------------------------------------

/// The extension: everything after the last dot, or the whole path when
/// there is no dot (`rsplit('.').next()`).
pub open spec fn extension_of(path: Seq<char>) -> Seq<char> {
    after_last(path, '.')
}

/// The stem: everything in the file name (no directory) up to the first dot.
pub open spec fn stem_of(path: Seq<char>) -> Seq<char> {
    before_first(after_last(path, '/'), '.')
}

/// Extensions handled by the JavaScript analyzer.
pub open spec fn is_js_extension(ext: Seq<char>) -> bool {
    ||| ext == "js"@
    ||| ext == "jsx"@
    ||| ext == "ts"@
    ||| ext == "tsx"@
    ||| ext == "mjs"@
    ||| ext == "cjs"@
    ||| ext == "mts"@
    ||| ext == "cts"@
}

/// Well-known tool configuration file names.
pub open spec fn is_known_config_name(name: Seq<char>) -> bool {
    ||| name == "jest.config.js"@
    ||| name == "jest.config.ts"@
    ||| name == "jest.config.mjs"@
    ||| name == "jest.config.cjs"@
    ||| name == "vite.config.js"@
    ||| name == "vite.config.ts"@
    ||| name == "vite.config.mts"@
    ||| name == "vitest.config.js"@
    ||| name == "vitest.config.ts"@
    ||| name == "vitest.config.mts"@
    ||| name == "webpack.config.js"@
    ||| name == "webpack.config.ts"@
    ||| name == "webpack.config.mjs"@
    ||| name == "babel.config.js"@
    ||| name == "babel.config.ts"@
    ||| name == "babel.config.json"@
    ||| name == "rollup.config.js"@
    ||| name == "rollup.config.ts"@
    ||| name == "rollup.config.mjs"@
    ||| name == "esbuild.config.js"@
    ||| name == "esbuild.config.ts"@
    ||| name == "eslint.config.js"@
    ||| name == "eslint.config.ts"@
    ||| name == "eslint.config.mjs"@
    ||| name == ".eslintrc.js"@
    ||| name == ".eslintrc.cjs"@
    ||| name == ".eslintrc.ts"@
    ||| name == "prettier.config.js"@
    ||| name == "prettier.config.ts"@
    ||| name == "prettier.config.mjs"@
    ||| name == "tailwind.config.js"@
    ||| name == "tailwind.config.ts"@
    ||| name == "tailwind.config.mjs"@
    ||| name == "postcss.config.js"@
    ||| name == "postcss.config.ts"@
    ||| name == "next.config.js"@
    ||| name == "next.config.ts"@
    ||| name == "next.config.mjs"@
    ||| name == "nuxt.config.js"@
    ||| name == "nuxt.config.ts"@
    ||| name == "svelte.config.js"@
}

/// The file type of a JS/TS file. Name-based patterns take precedence over
/// directory patterns: `*.test.*`/`*.spec.*` are tests, `*.stories.*`/`*.story.*`
/// stories, `*.config.*` and known config names configs; then files under
/// `__tests__/`, `tests/` or `test/` are tests; everything else is source.
pub open spec fn js_file_type(path: Seq<char>) -> Seq<char> {
    let name = after_last(path, '/');
    if contains_seq(name, ".test."@) || contains_seq(name, ".spec."@) {
        "test"@
    } else if contains_seq(name, ".stories."@) || contains_seq(name, ".story."@) {
        "story"@
    } else if contains_seq(name, ".config."@) || is_known_config_name(name) {
        "config"@
    } else if contains_seq(path, "/__tests__/"@) || contains_seq(path, "/tests/"@) || contains_seq(
        path,
        "/test/"@,
    ) || is_prefix("__tests__/"@, path) || is_prefix("tests/"@, path) || is_prefix("test/"@, path) {
        "test"@
    } else {
        "source"@
    }
}

/// Number of non-empty items in an export list (trailing commas allowed).
pub open spec fn list_item_count(list: Seq<char>) -> nat {
    nonblank_count(split_on(list, ','))
}

/// Total of the item counts of the captured export lists; a capture that
/// did not take part counts nothing.
pub open spec fn list_items_total(caps: Seq<Option<Seq<char>>>) -> nat
    decreases caps.len(),
{
    if caps.len() == 0 {
        0
    } else {
        list_items_total(caps.drop_last()) + match caps.last() {
            Some(l) => list_item_count(l),
            None => 0nat,
        }
    }
}

/// The public name of an export list item: for `"foo as bar"` it is `"bar"`,
/// for `"foo"` it is `"foo"`.
pub open spec fn public_name_of(item: Seq<char>) -> Seq<char> {
    match after_first_seq(item, " as "@) {
        Some(after) => trim(after),
        None => item,
    }
}

/// A captured name that lowercases to `stem`.
pub open spec fn name_matches(cap: Option<Seq<char>>, stem: Seq<char>) -> bool {
    cap matches Some(n) && str_lowercase(n) == stem
}

/// Some captured name lowercases to `stem`.
pub open spec fn some_name_matches(caps: Seq<Option<Seq<char>>>, stem: Seq<char>) -> bool {
    exists|i: int| 0 <= i < caps.len() && #[trigger] name_matches(caps[i], stem)
}

/// An export list item whose public name lowercases to `stem`.
pub open spec fn piece_matches(piece: Seq<char>, stem: Seq<char>) -> bool {
    !is_blank(piece) && str_lowercase(public_name_of(trim(piece))) == stem
}

/// Some item of the export list `list` matches `stem`.
pub open spec fn list_has_match(list: Seq<char>, stem: Seq<char>) -> bool {
    exists|j: int|
        0 <= j < split_on(list, ',').len() && #[trigger] piece_matches(split_on(list, ',')[j], stem)
}

/// A captured export list with an item that matches `stem`.
pub open spec fn list_matches(cap: Option<Seq<char>>, stem: Seq<char>) -> bool {
    match cap {
        Some(l) => list_has_match(l, stem),
        None => false,
    }
}

/// Some item of some captured export list matches `stem`.
pub open spec fn some_list_item_matches(caps: Seq<Option<Seq<char>>>, stem: Seq<char>) -> bool {
    exists|i: int| 0 <= i < caps.len() && #[trigger] list_matches(caps[i], stem)
}

/// Whether any export's public name matches the file stem (case-insensitive):
/// named declarations, named defaults, and names in export lists.
pub open spec fn export_matches(path: Seq<char>, content: Seq<char>) -> bool {
    let stem = str_lowercase(stem_of(path));
    ||| some_name_matches(regex_group_captures(RE_NAMED_DECL@, content, 1), stem)
    ||| some_name_matches(regex_group_captures(RE_DEFAULT_NAMED@, content, 1), stem)
    ||| some_list_item_matches(regex_group_captures(RE_EXPORT_LIST@, content, 1), stem)
}

/// `export default` count.
pub open spec fn default_export_count(content: Seq<char>) -> nat {
    regex_match_count(RE_DEFAULT_ANY@, content)
}

/// Named export count: named declarations plus export list items.
pub open spec fn named_export_count(content: Seq<char>) -> nat {
    regex_match_count(RE_NAMED_DECL@, content) + list_items_total(
        regex_group_captures(RE_EXPORT_LIST@, content, 1),
    )
}

/// Wrapped counts add as `wrapping_add` does.
pub proof fn lemma_low32_add(a: int, b: int)
    requires
        a >= 0,
        b >= 0,
    ensures
        low32(a + b) == (if low32(a) + low32(b) > u32::MAX {
            (low32(a) + low32(b) - 0x1_0000_0000) as u32
        } else {
            (low32(a) + low32(b)) as u32
        }),
{
    vstd::arithmetic::div_mod::lemma_add_mod_noop(a, b, 0x1_0000_0000);
}

/// A `usize` count reduced to `u32` as `as u32` does.
fn low32_of(n: usize) -> (r: u32)
    ensures
        r == low32(n as int),
{
    ((n as u64) % 0x1_0000_0000) as u32
}

// ---------------------------------------------------------------------------
// Executable functions
// ---------------------------------------------------------------------------

/// The extension of a path: everything after the last dot.
pub fn file_extension(file_name: &str) -> (r: String)
    ensures
        r@ == extension_of(file_name@),
{
    let path = chars_of(file_name);
    let ext = after_last_in(path.as_slice(), '.');
    string_from_chars(ext.as_slice())
}

/// Returns the stem: everything in the filename (no directory) up to the first dot.
/// `"getFoo.ts"` → `"getFoo"`, `"Button.stories.tsx"` → `"Button"`, `"index.tsx"` → `"index"`
pub fn file_stem(file_name: &str) -> (r: String)
    ensures
        r@ == stem_of(file_name@),
{
    let path = chars_of(file_name);
    let name = after_last_in(path.as_slice(), '/');
    let stem = before_first_in(name.as_slice(), '.');
    string_from_chars(stem.as_slice())
}

/// Whether `name` (a file name without directory) is a well-known config file.
pub fn is_known_config_file(name: &str) -> (r: bool)
    ensures
        r == is_known_config_name(name@),
{
    let n = chars_of(name);
    known_config_chars(n.as_slice())
}

fn known_config_chars(n: &[char]) -> (r: bool)
    ensures
        r == is_known_config_name(n@),
{
    slice_eq_str(n, "jest.config.js") || slice_eq_str(n, "jest.config.ts") || slice_eq_str(
        n,
        "jest.config.mjs",
    ) || slice_eq_str(n, "jest.config.cjs") || slice_eq_str(n, "vite.config.js") || slice_eq_str(
        n,
        "vite.config.ts",
    ) || slice_eq_str(n, "vite.config.mts") || slice_eq_str(n, "vitest.config.js")
        || slice_eq_str(n, "vitest.config.ts") || slice_eq_str(n, "vitest.config.mts")
        || slice_eq_str(n, "webpack.config.js") || slice_eq_str(n, "webpack.config.ts")
        || slice_eq_str(n, "webpack.config.mjs") || slice_eq_str(n, "babel.config.js")
        || slice_eq_str(n, "babel.config.ts") || slice_eq_str(n, "babel.config.json")
        || slice_eq_str(n, "rollup.config.js") || slice_eq_str(n, "rollup.config.ts")
        || slice_eq_str(n, "rollup.config.mjs") || slice_eq_str(n, "esbuild.config.js")
        || slice_eq_str(n, "esbuild.config.ts") || slice_eq_str(n, "eslint.config.js")
        || slice_eq_str(n, "eslint.config.ts") || slice_eq_str(n, "eslint.config.mjs")
        || slice_eq_str(n, ".eslintrc.js") || slice_eq_str(n, ".eslintrc.cjs") || slice_eq_str(
        n,
        ".eslintrc.ts",
    ) || slice_eq_str(n, "prettier.config.js") || slice_eq_str(n, "prettier.config.ts")
        || slice_eq_str(n, "prettier.config.mjs") || slice_eq_str(n, "tailwind.config.js")
        || slice_eq_str(n, "tailwind.config.ts") || slice_eq_str(n, "tailwind.config.mjs")
        || slice_eq_str(n, "postcss.config.js") || slice_eq_str(n, "postcss.config.ts")
        || slice_eq_str(n, "next.config.js") || slice_eq_str(n, "next.config.ts") || slice_eq_str(
        n,
        "next.config.mjs",
    ) || slice_eq_str(n, "nuxt.config.js") || slice_eq_str(n, "nuxt.config.ts") || slice_eq_str(
        n,
        "svelte.config.js",
    )
}

/// Classifies a JS/TS file as test, story, config or source.
pub fn classify_file_type(file_name: &str) -> (r: &'static str)
    ensures
        r@ == js_file_type(file_name@),
{
    let path = chars_of(file_name);
    let name = after_last_in(path.as_slice(), '/');
    // Name-based patterns take precedence over directory patterns
    if contains_str(name.as_slice(), ".test.") || contains_str(name.as_slice(), ".spec.") {
        return "test";
    }
    if contains_str(name.as_slice(), ".stories.") || contains_str(name.as_slice(), ".story.") {
        return "story";
    }
    if contains_str(name.as_slice(), ".config.") || known_config_chars(name.as_slice()) {
        return "config";
    }
    // Directory-based test detection
    if contains_str(path.as_slice(), "/__tests__/") || contains_str(path.as_slice(), "/tests/")
        || contains_str(path.as_slice(), "/test/") || starts_with_str(path.as_slice(), "__tests__/")
        || starts_with_str(path.as_slice(), "tests/")
        || starts_with_str(path.as_slice(), "test/") {
        return "test";
    }
    "source"
}

/// Count non-empty items in an export list, handling trailing commas.
/// `"foo, bar as baz, "` → 2
pub fn count_list_items(list: &str) -> (r: usize)
    ensures
        r == list_item_count(list@),
{
    let l = chars_of(list);
    count_nonblank_pieces(l.as_slice(), ',')
}

fn public_name_chars(item: &[char]) -> (r: Vec<char>)
    ensures
        r@ == public_name_of(item@),
{
    match after_first_str(item, " as ") {
        Some(after) => trimmed(after.as_slice()),
        None => {
            let mut out: Vec<char> = Vec::new();
            let mut k: usize = 0;
            while k < item.len()
                invariant
                    k <= item.len(),
                    out@ == item@.subrange(0, k as int),
                decreases item.len() - k,
            {
                out.push(item[k]);
                assert(out@ =~= item@.subrange(0, k + 1));
                k += 1;
            }
            assert(item@.subrange(0, item@.len() as int) =~= item@);
            out
        },
    }
}

/// For `"foo as bar"` returns `"bar"` (the public name); for `"foo"` returns `"foo"`.
pub fn public_name(item: &str) -> (r: String)
    ensures
        r@ == public_name_of(item@),
{
    let i = chars_of(item);
    let p = public_name_chars(i.as_slice());
    string_from_chars(p.as_slice())
}

/// Whether some captured name lowercases to `stem`.
fn any_name_matches(caps: &Vec<Option<String>>, stem: &String) -> (r: bool)
    ensures
        r == some_name_matches(opt_strings_view(caps@), stem@),
{
    let ghost view = opt_strings_view(caps@);
    let mut k: usize = 0;
    while k < caps.len()
        invariant
            k <= caps.len(),
            view == opt_strings_view(caps@),
            forall|i: int| 0 <= i < k ==> !#[trigger] name_matches(view[i], stem@),
        decreases caps.len() - k,
    {
        match &caps[k] {
            Some(name) => {
                let lower = to_lowercase(name.as_str());
                if lower == *stem {
                    assert(view[k as int] == Some(name@));
                    assert(name_matches(view[k as int], stem@));
                    return true;
                }
            },
            None => {},
        }
        assert(view[k as int] == match caps@[k as int] {
            Some(s) => Some(s@),
            None => None::<Seq<char>>,
        });
        k += 1;
    }
    false
}

/// Whether some item of the export list `list` has a public name that
/// lowercases to `stem`.
fn list_item_matches(list: &String, stem: &String) -> (r: bool)
    ensures
        r == list_has_match(list@, stem@),
{
    let l = chars_of(list.as_str());
    let pieces = split_pieces(l.as_slice(), ',');
    let ghost parts = split_on(list@, ',');
    assert(pieces_view(pieces@) == parts);
    let mut k: usize = 0;
    while k < pieces.len()
        invariant
            k <= pieces.len(),
            pieces_view(pieces@) == parts,
            parts == split_on(list@, ','),
            forall|j: int| 0 <= j < k ==> !piece_matches(#[trigger] parts[j], stem@),
        decreases pieces.len() - k,
    {
        assert(parts[k as int] == pieces@[k as int]@);
        let t = trimmed(pieces[k].as_slice());
        if t.len() > 0 {
            let name = public_name_chars(t.as_slice());
            let name_str = string_from_chars(name.as_slice());
            let lower = to_lowercase(name_str.as_str());
            if lower == *stem {
                assert(piece_matches(parts[k as int], stem@));
                assert(pieces_view(pieces@).len() == pieces@.len());
                assert(0 <= k < split_on(list@, ',').len());
                return true;
            }
        }
        k += 1;
    }
    false
}

/// Whether some item of some captured export list matches `stem`.
fn any_list_item_matches(caps: &Vec<Option<String>>, stem: &String) -> (r: bool)
    ensures
        r == some_list_item_matches(opt_strings_view(caps@), stem@),
{
    let ghost view = opt_strings_view(caps@);
    let mut k: usize = 0;
    while k < caps.len()
        invariant
            k <= caps.len(),
            view == opt_strings_view(caps@),
            forall|i: int| 0 <= i < k ==> !#[trigger] list_matches(view[i], stem@),
        decreases caps.len() - k,
    {
        assert(view[k as int] == match caps@[k as int] {
            Some(s) => Some(s@),
            None => None::<Seq<char>>,
        });
        match &caps[k] {
            Some(list) => {
                if list_item_matches(list, stem) {
                    assert(list_matches(view[k as int], stem@));
                    return true;
                }
            },
            None => {},
        }
        k += 1;
    }
    false
}

/// Analyzer for JavaScript and TypeScript files. Holds the compiled export
/// patterns.
pub struct JsAnalyzer {
    named_decl: Pattern,
    default_named: Pattern,
    default_any: Pattern,
    export_list: Pattern,
}

impl JsAnalyzer {
    /// Each pattern was compiled from its pattern text.
    #[verifier::type_invariant]
    spec fn patterns_match_sources(self) -> bool {
        &&& self.named_decl.source() == RE_NAMED_DECL@
        &&& self.default_named.source() == RE_DEFAULT_NAMED@
        &&& self.default_any.source() == RE_DEFAULT_ANY@
        &&& self.export_list.source() == RE_EXPORT_LIST@
    }

    /// Compiles the export patterns; `None` when the regex crate refuses one.
    pub fn new() -> (r: Option<JsAnalyzer>)
        ensures
            r is Some <==> (regex_compiles(RE_NAMED_DECL@) && regex_compiles(RE_DEFAULT_NAMED@)
                && regex_compiles(RE_DEFAULT_ANY@) && regex_compiles(RE_EXPORT_LIST@)),
    {
        let named_decl = match Pattern::new(RE_NAMED_DECL) {
            Some(p) => p,
            None => return None,
        };
        let default_named = match Pattern::new(RE_DEFAULT_NAMED) {
            Some(p) => p,
            None => return None,
        };
        let default_any = match Pattern::new(RE_DEFAULT_ANY) {
            Some(p) => p,
            None => return None,
        };
        let export_list = match Pattern::new(RE_EXPORT_LIST) {
            Some(p) => p,
            None => return None,
        };
        Some(JsAnalyzer { named_decl, default_named, default_any, export_list })
    }

    /// Returns true if any export's public name matches the file stem (case-insensitive).
    ///
    /// Matched cases:
    /// - Named declarations:  `export const getFoo = ...`
    /// - Named list exports:  `export { internalName as getFoo }`
    /// - Named default:       `export default function getFoo()`
    ///
    /// Anonymous defaults (`export default { ... }`, `export default 42`) never match.
    pub fn export_matches_stem(&self, file_name: &str, content: &str) -> (r: bool)
        ensures
            r == export_matches(file_name@, content@),
    {
        proof {
            use_type_invariant(self);
        }
        let stem_raw = file_stem(file_name);
        let stem = to_lowercase(stem_raw.as_str());
        let decls = self.named_decl.group_captures(content, 1);
        if any_name_matches(&decls, &stem) {
            return true;
        }
        let defaults = self.default_named.group_captures(content, 1);
        if any_name_matches(&defaults, &stem) {
            return true;
        }
        let lists = self.export_list.group_captures(content, 1);
        any_list_item_matches(&lists, &stem)
    }

    /// Sum of the item counts of the captured export lists, wrapping at 2^32.
    fn list_items_sum(caps: &Vec<Option<String>>) -> (r: u32)
        ensures
            r == low32(list_items_total(opt_strings_view(caps@)) as int),
    {
        let ghost view = opt_strings_view(caps@);
        let mut sum: u32 = 0;
        let mut k: usize = 0;
        while k < caps.len()
            invariant
                k <= caps.len(),
                view == opt_strings_view(caps@),
                sum == low32(list_items_total(view.take(k as int)) as int),
            decreases caps.len() - k,
        {
            assert(view.take(k + 1).drop_last() =~= view.take(k as int));
            assert(view.take(k + 1).last() == view[k as int]);
            assert(view[k as int] == match caps@[k as int] {
                Some(s) => Some(s@),
                None => None::<Seq<char>>,
            });
            match &caps[k] {
                Some(list) => {
                    let n = count_list_items(list.as_str());
                    proof {
                        lemma_low32_add(list_items_total(view.take(k as int)) as int, n as int);
                    }
                    sum = sum.wrapping_add(low32_of(n));
                },
                None => {},
            }
            k += 1;
        }
        assert(view.take(caps.len() as int) =~= view);
        sum
    }
}

impl Analyzer for JsAnalyzer {
    fn can_analyze(&self, file_name: &str) -> (r: bool)
        ensures
            r == is_js_extension(extension_of(file_name@)),
    {
        let path = chars_of(file_name);
        let e = after_last_in(path.as_slice(), '.');
        let ext = e.as_slice();
        slice_eq_str(ext, "js") || slice_eq_str(ext, "jsx") || slice_eq_str(ext, "ts")
            || slice_eq_str(ext, "tsx") || slice_eq_str(ext, "mjs") || slice_eq_str(ext, "cjs")
            || slice_eq_str(ext, "mts") || slice_eq_str(ext, "cts")
    }

    fn analyze(&self, file_name: &str, content: &str, stats: &mut FileStats)
        ensures
            final(stats).file_type matches Some(t) && t@ == js_file_type(file_name@),
            final(stats).js_exports_default == Some(low32(default_export_count(content@) as int)),
            final(stats).js_exports_named == Some(low32(named_export_count(content@) as int)),
            final(stats).js_exports_total == Some(
                low32((default_export_count(content@) + named_export_count(content@)) as int),
            ),
            final(stats).js_export_matches_filename == export_matches(file_name@, content@),
            final(stats).sloc_nonblank == old(stats).sloc_nonblank,
            final(stats).sloc_noncomment == old(stats).sloc_noncomment,
    {
        proof {
            use_type_invariant(self);
        }
        stats.file_type = Some(classify_file_type(file_name).to_owned());

        let default_n = self.default_any.count_matches(content);
        let default_count = low32_of(default_n);

        let decl_n = self.named_decl.count_matches(content);
        let named_decl_count = low32_of(decl_n);

        let lists = self.export_list.group_captures(content, 1);
        let named_list_count = Self::list_items_sum(&lists);

        let ghost list_total = list_items_total(opt_strings_view(lists@));
        proof {
            lemma_low32_add(decl_n as int, list_total as int);
        }
        let named_total = named_decl_count.wrapping_add(named_list_count);
        proof {
            lemma_low32_add(default_n as int, decl_n + list_total);
        }
        stats.js_exports_default = Some(default_count);
        stats.js_exports_named = Some(named_total);
        stats.js_exports_total = Some(default_count.wrapping_add(named_total));
        stats.js_export_matches_filename = self.export_matches_stem(file_name, content);
    }
}

/// The file name's own patterns decide a JS/TS file's type before its
/// directory does. A name with `.test.` or `.spec.` is a test, else one with
/// `.stories.` or `.story.` a story, else one with `.config.` or a known
/// configuration name a config, wherever the file stands; and two paths
/// with the same file name matching one of these patterns get the same
/// type.
pub proof fn law_name_patterns_decide_before_directories(p1: Seq<char>, p2: Seq<char>)
    ensures
        ({
            let n = after_last(p1, '/');
            let test_name = contains_seq(n, ".test."@) || contains_seq(n, ".spec."@);
            let story_name = contains_seq(n, ".stories."@) || contains_seq(n, ".story."@);
            let config_name = contains_seq(n, ".config."@) || is_known_config_name(n);
            &&& test_name ==> js_file_type(p1) == "test"@
            &&& !test_name && story_name ==> js_file_type(p1) == "story"@
            &&& !test_name && !story_name && config_name ==> js_file_type(p1) == "config"@
            &&& (after_last(p2, '/') == n && (test_name || story_name || config_name)) ==> js_file_type(p1)
                == js_file_type(p2)
        }),
{
}

/// A JS/TS file whose name matches none of the name patterns is a test
/// exactly when it stands under a `__tests__`, `tests` or `test` directory
/// (at the start of the path or after a `/`), and source otherwise.
pub proof fn law_directory_tests(p: Seq<char>)
    ensures
        ({
            let n = after_last(p, '/');
            let named = contains_seq(n, ".test."@) || contains_seq(n, ".spec."@) || contains_seq(
                n,
                ".stories."@,
            ) || contains_seq(n, ".story."@) || contains_seq(n, ".config."@) || is_known_config_name(n);
            let in_test_dir = contains_seq(p, "/__tests__/"@) || contains_seq(p, "/tests/"@)
                || contains_seq(p, "/test/"@) || is_prefix("__tests__/"@, p) || is_prefix("tests/"@, p)
                || is_prefix("test/"@, p);
            !named ==> js_file_type(p) == if in_test_dir { "test"@ } else { "source"@ }
        }),
{
}

/// The extension of a path is the text after its last `.`: it holds no
/// `.`, ends the path, and is the whole path when the path holds no `.`;
/// otherwise a `.` stands just before it.
pub proof fn law_extension_is_text_after_last_dot(path: Seq<char>)
    ensures
        ({
            let e = extension_of(path);
            &&& forall|j: int| 0 <= j < e.len() ==> e[j] != '.'
            &&& path.subrange(path.len() - e.len(), path.len() as int) == e
            &&& (e.len() == path.len()) == (forall|j: int| 0 <= j < path.len() ==> path[j] != '.')
            &&& e.len() < path.len() ==> path[path.len() - e.len() - 1] == '.'
        }),
{
    lemma_after_last(path, '.');
}

/// The stem of a path is the start of its file name (the text after its
/// last `/`) up to the first `.`: it holds no `.`, begins the file name,
/// and is the whole name when the name holds no `.`; otherwise a `.`
/// follows it.
pub proof fn law_stem_is_file_name_up_to_first_dot(path: Seq<char>)
    ensures
        ({
            let n = after_last(path, '/');
            let st = stem_of(path);
            &&& forall|j: int| 0 <= j < n.len() ==> n[j] != '/'
            &&& path.subrange(path.len() - n.len(), path.len() as int) == n
            &&& n.len() < path.len() ==> path[path.len() - n.len() - 1] == '/'
            &&& forall|j: int| 0 <= j < st.len() ==> st[j] != '.'
            &&& n.subrange(0, st.len() as int) == st
            &&& (st.len() == n.len()) == (forall|j: int| 0 <= j < n.len() ==> n[j] != '.')
            &&& st.len() < n.len() ==> n[st.len() as int] == '.'
        }),
{
    lemma_after_last(path, '/');
    lemma_before_first(after_last(path, '/'), '.');
}

} // verus!
