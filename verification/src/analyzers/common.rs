//! Line counts that apply to every file: non-blank lines and non-blank
//! lines that are not comment lines.

use vstd::prelude::*;
use crate::analyzers::{low32, lemma_low32_succ, Analyzer, FileStats};
use crate::text::{
    is_blank, is_prefix, lemma_split_on_len, line_segments, nonblank_count, split_on, starts_with_str,
    trim, trim_end,
    trim_start, trimmed,
};

verus! {

/// Heuristic check for common single-line comment styles across languages,
/// applied to an already trimmed line: JS/TS/Rust/Go (`//`),
/// Python/Shell/YAML (`#`), block comment lines (`*`, `/*`, `*/`),
/// HTML (`<!--`, `-->`), SQL/Lua (`--`).
pub open spec fn is_comment_text(t: Seq<char>) -> bool {
    ||| is_prefix("//"@, t)
    ||| is_prefix("#"@, t)
    ||| is_prefix("*"@, t)
    ||| is_prefix("/*"@, t)
    ||| is_prefix("<!--"@, t)
    ||| is_prefix("-->"@, t)
    ||| is_prefix("--"@, t)
}

/// A non-blank line that is not a comment line.
pub open spec fn is_code(line: Seq<char>) -> bool {
    !is_blank(line) && !is_comment_text(trim(line))
}

/// Number of non-blank, non-comment lines.
pub open spec fn code_count(lines: Seq<Seq<char>>) -> nat
    decreases lines.len(),
{
    if lines.len() == 0 {
        0
    } else {
        code_count(lines.drop_last()) + if is_code(lines.last()) {
            1nat
        } else {
            0nat
        }
    }
}

/// Whether a trimmed line is a comment line.
pub fn is_comment_line(trimmed: &[char]) -> (r: bool)
    ensures
        r == is_comment_text(trimmed@),
{
    starts_with_str(trimmed, "//") || starts_with_str(trimmed, "#") || starts_with_str(trimmed, "*")
        || starts_with_str(trimmed, "/*") || starts_with_str(trimmed, "<!--") || starts_with_str(
        trimmed,
        "-->",
    ) || starts_with_str(trimmed, "--")
}

/// Counts lines of `content`: `.0` the non-blank lines, `.1` those that are
/// also not comment lines; each count wraps around at 2^32.
pub fn count_lines(content: &str) -> (r: (u32, u32))
    ensures
        r.0 == low32(nonblank_count(line_segments(content@)) as int),
        r.1 == low32(code_count(line_segments(content@)) as int),
{
    let mut nonblank: u32 = 0;
    let mut noncomment: u32 = 0;
    let mut cur: Vec<char> = Vec::new();
    assert(content@.take(0) =~= Seq::<char>::empty());
    for c in it: content.chars()
        invariant
            it.seq() == content@,
            0 <= it.index() <= content@.len(),
            cur@ == split_on(content@.take(it.index() as int), '\n').last(),
            split_on(content@.take(it.index() as int), '\n').len() >= 1,
            nonblank == low32(
                nonblank_count(split_on(content@.take(it.index() as int), '\n').drop_last()) as int,
            ),
            noncomment == low32(
                code_count(split_on(content@.take(it.index() as int), '\n').drop_last()) as int,
            ),
    {
        let ghost i = it.index() as int;
        let ghost before = split_on(content@.take(i), '\n');
        assert(content@.take(i + 1).drop_last() =~= content@.take(i));
        assert(content@.take(i + 1).last() == c);
        if c == '\n' {
            let t = trimmed(cur.as_slice());
            if t.len() > 0 {
                proof {
                    lemma_low32_succ(nonblank_count(before.drop_last()) as int);
                }
                nonblank = nonblank.wrapping_add(1);
                if !is_comment_line(t.as_slice()) {
                    proof {
                        lemma_low32_succ(code_count(before.drop_last()) as int);
                    }
                    noncomment = noncomment.wrapping_add(1);
                }
            }
            cur = Vec::new();
            proof {
                let after = split_on(content@.take(i + 1), '\n');
                assert(after == before.push(Seq::<char>::empty()));
                assert(after.drop_last() =~= before);
                assert(before.drop_last().push(before.last()) =~= before);
            }
        } else {
            cur.push(c);
            proof {
                let after = split_on(content@.take(i + 1), '\n');
                assert(after.drop_last() =~= before.drop_last());
            }
        }
    }
    assert(content@.take(content@.len() as int) =~= content@);
    let ghost parts = split_on(content@, '\n');
    assert(parts.drop_last().push(parts.last()) =~= parts);
    let t = trimmed(cur.as_slice());
    if t.len() > 0 {
        proof {
            lemma_low32_succ(nonblank_count(parts.drop_last()) as int);
        }
        nonblank = nonblank.wrapping_add(1);
        if !is_comment_line(t.as_slice()) {
            proof {
                lemma_low32_succ(code_count(parts.drop_last()) as int);
            }
            noncomment = noncomment.wrapping_add(1);
        }
    }
    (nonblank, noncomment)
}

/// Analyzer for every file: non-blank and non-comment line counts.
pub struct CommonAnalyzer;

impl Analyzer for CommonAnalyzer {
    fn can_analyze(&self, _file_name: &str) -> (r: bool)
        ensures
            r,
    {
        true
    }

    fn analyze(&self, _file_name: &str, content: &str, stats: &mut FileStats)
        ensures
            final(stats).sloc_nonblank == low32(nonblank_count(line_segments(content@)) as int),
            final(stats).sloc_noncomment == low32(code_count(line_segments(content@)) as int),
            final(stats).file_type == old(stats).file_type,
            final(stats).js_exports_default == old(stats).js_exports_default,
            final(stats).js_exports_named == old(stats).js_exports_named,
            final(stats).js_exports_total == old(stats).js_exports_total,
            final(stats).js_export_matches_filename == old(stats).js_export_matches_filename,
    {
        let (nonblank, noncomment) = count_lines(content);
        stats.sloc_nonblank = nonblank;
        stats.sloc_noncomment = noncomment;
    }
}

/// A text without a line break is one piece when split at line breaks.
proof fn lemma_split_without_break(l: Seq<char>)
    requires
        forall|j: int| 0 <= j < l.len() ==> l[j] != '\n',
    ensures
        split_on(l, '\n') == seq![l],
    decreases l.len(),
{
    if l.len() > 0 {
        let d = l.drop_last();
        assert forall|j: int| 0 <= j < d.len() implies d[j] != '\n' by {
            assert(d[j] == l[j]);
        }
        lemma_split_without_break(d);
        assert(l.last() == l[l.len() - 1]);
        assert(seq![d].update(0, d.push(l.last())) =~= seq![l]) by {
            assert(d.push(l.last()) =~= l);
        }
    } else {
        assert(l =~= Seq::<char>::empty());
    }
}

/// Line counts of one line (text without a line break): it counts as a
/// non-blank line unless it holds only white space, and as a code line
/// unless it is blank or its trimmed text starts with one of the comment
/// markers `//`, `#`, `*`, `/*`, `<!--`, `-->`, `--`. Any other line counts
/// as code, markup such as `<div>` included.
pub proof fn law_line_counts_of_one_line(l: Seq<char>)
    requires
        forall|j: int| 0 <= j < l.len() ==> l[j] != '\n',
    ensures
        nonblank_count(line_segments(l)) == if trim(l).len() == 0 { 0nat } else { 1nat },
        code_count(line_segments(l)) == if trim(l).len() == 0 || is_prefix("//"@, trim(l)) || is_prefix(
            "#"@,
            trim(l),
        ) || is_prefix("*"@, trim(l)) || is_prefix("/*"@, trim(l)) || is_prefix("<!--"@, trim(l))
            || is_prefix("-->"@, trim(l)) || is_prefix("--"@, trim(l)) {
            0nat
        } else {
            1nat
        },
{
    lemma_split_without_break(l);
    let segs = line_segments(l);
    if l.len() == 0 {
        assert(segs =~= Seq::<Seq<char>>::empty());
        assert(nonblank_count(segs) == 0);
        assert(code_count(segs) == 0);
        assert(trim(l).len() == 0) by {
            assert(trim_start(l) =~= l);
            assert(trim_end(l) =~= l);
        }
    } else {
        assert(segs == seq![l]);
        let e = Seq::<Seq<char>>::empty();
        assert(segs.drop_last() =~= e);
        assert(segs.last() == l);
        assert(nonblank_count(e) == 0);
        assert(code_count(e) == 0);
        assert(nonblank_count(segs) == nonblank_count(e) + if is_blank(l) { 0nat } else { 1nat });
        assert(code_count(segs) == code_count(e) + if is_code(l) { 1nat } else { 0nat });
    }
}

/// Appending text without a line break extends the last piece of a split.
proof fn lemma_split_extend(s: Seq<char>, l: Seq<char>)
    requires
        forall|j: int| 0 <= j < l.len() ==> l[j] != '\n',
    ensures
        split_on(s + l, '\n') == split_on(s, '\n').update(
            split_on(s, '\n').len() - 1,
            split_on(s, '\n').last() + l,
        ),
        split_on(s, '\n').len() >= 1,
    decreases l.len(),
{
    lemma_split_on_len(s, '\n');
    if l.len() == 0 {
        assert(s + l =~= s);
        assert(split_on(s, '\n').last() + l =~= split_on(s, '\n').last());
        assert(split_on(s, '\n').update(split_on(s, '\n').len() - 1, split_on(s, '\n').last())
            =~= split_on(s, '\n'));
    } else {
        let d = l.drop_last();
        assert forall|j: int| 0 <= j < d.len() implies d[j] != '\n' by {
            assert(d[j] == l[j]);
        }
        lemma_split_extend(s, d);
        assert((s + l).drop_last() =~= s + d);
        assert((s + l).last() == l[l.len() - 1]);
        let p = split_on(s, '\n');
        let q = split_on(s + d, '\n');
        assert(q.last() == p.last() + d);
        assert((p.last() + d).push(l.last()) =~= p.last() + l);
        assert(q.update(q.len() - 1, q.last().push(l.last())) =~= p.update(p.len() - 1, p.last() + l));
    }
}

/// The lines of text that ends a line (or is empty), followed by one more
/// line `l` and its line break, are its lines followed by `l`.
proof fn lemma_line_segments_next_line(s: Seq<char>, l: Seq<char>)
    requires
        s.len() == 0 || s.last() == '\n',
        forall|j: int| 0 <= j < l.len() ==> l[j] != '\n',
    ensures
        line_segments(s + l + seq!['\n']) == line_segments(s).push(l),
{
    let p = split_on(s, '\n');
    lemma_split_on_len(s, '\n');
    assert(p.last().len() == 0) by {
        if s.len() > 0 {
            assert(p == split_on(s.drop_last(), '\n').push(Seq::<char>::empty()));
        }
    }
    lemma_split_extend(s, l);
    let t = s + l + seq!['\n'];
    assert(t.drop_last() =~= s + l);
    assert(t.last() == '\n');
    let q = split_on(s + l, '\n');
    assert(split_on(t, '\n') == q.push(Seq::<char>::empty()));
    assert(q =~= p.drop_last().push(l)) by {
        assert(p.last() + l =~= l);
    }
    assert(line_segments(s) == p.drop_last());
}

/// Line counts grow line by line: after text that ends a line (or is
/// empty), one more line `l` with its line break adds one non-blank line
/// unless `l` holds only white space, and one code line unless it is blank
/// or its trimmed text starts with one of the comment markers `//`, `#`,
/// `*`, `/*`, `<!--`, `-->`, `--`.
pub proof fn law_line_counts_of_next_line(s: Seq<char>, l: Seq<char>)
    requires
        s.len() == 0 || s.last() == '\n',
        forall|j: int| 0 <= j < l.len() ==> l[j] != '\n',
    ensures
        nonblank_count(line_segments(s + l + seq!['\n'])) == nonblank_count(line_segments(s)) + if trim(
            l,
        ).len() == 0 {
            0nat
        } else {
            1nat
        },
        code_count(line_segments(s + l + seq!['\n'])) == code_count(line_segments(s)) + if trim(l).len()
            == 0 || is_prefix("//"@, trim(l)) || is_prefix("#"@, trim(l)) || is_prefix("*"@, trim(l))
            || is_prefix("/*"@, trim(l)) || is_prefix("<!--"@, trim(l)) || is_prefix("-->"@, trim(l))
            || is_prefix("--"@, trim(l)) {
            0nat
        } else {
            1nat
        },
{
    lemma_line_segments_next_line(s, l);
    let segs = line_segments(s).push(l);
    assert(segs.drop_last() =~= line_segments(s));
    assert(segs.last() == l);
}

} // verus!
