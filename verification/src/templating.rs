//! The generation engine: resolves destination paths against the render
//! context, detects the skip-templating directive, strips the template
//! marker extension, and renders or copies each file of a template tree.

use crate::context::{render_of, RenderContext};
use crate::error::Error;
use crate::strutil::{ascii_eq_ignore_case, str_eq, str_eq_ignore_ascii_case};
use vstd::prelude::*;
use vstd::string::*;
use vstd::utf8::{decode_utf8, encode_utf8, valid_utf8};

verus! {

// ---------------------------------------------------------------------------
// Path segments
// ---------------------------------------------------------------------------

/// Index of the first `/`, or the length when there is none.
pub open spec fn first_slash(p: Seq<char>) -> int
    decreases p.len(),
{
    if p.len() == 0 {
        0
    } else if p[0] == '/' {
        0
    } else {
        1 + first_slash(p.drop_first())
    }
}

pub proof fn lemma_first_slash(p: Seq<char>)
    ensures
        0 <= first_slash(p) <= p.len(),
        forall|j: int| 0 <= j < first_slash(p) ==> p[j] != '/',
        first_slash(p) < p.len() ==> p[first_slash(p)] == '/',
    decreases p.len(),
{
    if p.len() > 0 && p[0] != '/' {
        lemma_first_slash(p.drop_first());
        let q = p.drop_first();
        assert(first_slash(p) == 1 + first_slash(q));
        assert forall|j: int| 0 <= j < first_slash(p) implies p[j] != '/' by {
            if j > 0 {
                assert(q[j - 1] != '/');
            }
        }
        if first_slash(p) < p.len() {
            assert(p[first_slash(p)] == q[first_slash(q)]);
        }
    }
}

/// The first slash stands exactly where the characterization says.
pub proof fn lemma_first_slash_at(p: Seq<char>, i: int)
    requires
        0 <= i <= p.len(),
        forall|j: int| 0 <= j < i ==> p[j] != '/',
        i < p.len() ==> p[i] == '/',
    ensures
        first_slash(p) == i,
    decreases p.len(),
{
    if p.len() > 0 && p[0] != '/' {
        assert(i > 0);
        lemma_first_slash_at(p.drop_first(), i - 1);
    }
}

/// The segments of a path: the pieces between `/` separators. Always at
/// least one segment; empty segments are kept.
pub open spec fn split_slash(p: Seq<char>) -> Seq<Seq<char>>
    decreases p.len(),
{
    let i = first_slash(p);
    if 0 <= i < p.len() {
        seq![p.take(i)] + split_slash(p.skip(i + 1))
    } else {
        seq![p]
    }
}

pub proof fn lemma_split_slash_len(p: Seq<char>)
    ensures
        split_slash(p).len() >= 1,
{
    lemma_first_slash(p);
}

/// The segments joined back with `/` separators.
pub open spec fn join_slash(segs: Seq<Seq<char>>) -> Seq<char>
    decreases segs.len(),
{
    if segs.len() == 0 {
        Seq::empty()
    } else if segs.len() == 1 {
        segs[0]
    } else {
        join_slash(segs.drop_last()) + seq!['/'] + segs.last()
    }
}

/// One path segment resolved against the context: a segment of the exact
/// form `[name]` becomes the value of `name` when one is bound; otherwise
/// the segment stands as it is.
pub open spec fn subst_segment(seg: Seq<char>, m: Map<Seq<char>, Seq<char>>) -> Seq<char> {
    if seg.len() >= 2 && seg[0] == '[' && seg.last() == ']' {
        let name = seg.subrange(1, seg.len() - 1);
        if m.contains_key(name) {
            m[name]
        } else {
            seg
        }
    } else {
        seg
    }
}

/// Each segment resolved against the context.
pub open spec fn subst_views(segs: Seq<Seq<char>>, m: Map<Seq<char>, Seq<char>>) -> Seq<
    Seq<char>,
> {
    segs.map_values(|s: Seq<char>| subst_segment(s, m))
}

/// A destination path resolved against the context, segment by segment.
pub open spec fn dest_path_spec(p: Seq<char>, m: Map<Seq<char>, Seq<char>>) -> Seq<char> {
    join_slash(subst_views(split_slash(p), m))
}

/// The views of a sequence of strings.
pub open spec fn seg_views(s: Seq<String>) -> Seq<Seq<char>> {
    s.map_values(|x: String| x@)
}

/// Splits a path into its segments.
#[verifier::loop_isolation(false)]
pub fn split_path(p: &str) -> (r: Vec<String>)
    ensures
        seg_views(r@) == split_slash(p@),
{
    let n = p.unicode_len();
    let mut segs: Vec<String> = Vec::new();
    let mut start: usize = 0;
    let mut i: usize = 0;
    proof {
        assert(p@.skip(0) =~= p@);
        assert(seg_views(segs@) =~= Seq::<Seq<char>>::empty());
        assert(seg_views(segs@) + split_slash(p@) =~= split_slash(p@));
    }
    while i < n
        invariant
            start <= i <= n,
            n == p@.len(),
            forall|j: int| start <= j < i ==> p@[j] != '/',
            split_slash(p@) == seg_views(segs@) + split_slash(p@.skip(start as int)),
        decreases n - i,
    {
        if p.get_char(i) == '/' {
            let seg = p.substring_char(start, i);
            segs.push(seg.to_owned());
            proof {
                let rest = p@.skip(start as int);
                assert forall|j: int| 0 <= j < i - start implies rest[j] != '/' by {
                    assert(rest[j] == p@[start + j]);
                }
                assert(rest[i - start] == p@[i as int]);
                lemma_first_slash_at(rest, i - start);
                assert(split_slash(rest) == seq![rest.take(i - start)] + split_slash(
                    rest.skip(i - start + 1),
                ));
                assert(rest.take(i - start) =~= p@.subrange(start as int, i as int));
                assert(rest.skip(i - start + 1) =~= p@.skip(i + 1));
                assert(seg_views(segs@) =~= seg_views(segs@.drop_last()) + seq![seg@]);
            }
            start = i + 1;
        }
        i = i + 1;
    }
    let seg = p.substring_char(start, n);
    segs.push(seg.to_owned());
    proof {
        let rest = p@.skip(start as int);
        assert forall|j: int| 0 <= j < rest.len() implies rest[j] != '/' by {
            assert(rest[j] == p@[start + j]);
        }
        lemma_first_slash_at(rest, rest.len() as int);
        assert(split_slash(rest) == seq![rest]);
        assert(rest =~= p@.subrange(start as int, n as int));
        assert(seg_views(segs@) =~= seg_views(segs@.drop_last()) + seq![seg@]);
        assert(seg_views(segs@) =~= seg_views(segs@.drop_last()) + split_slash(rest));
    }
    segs
}

/// Joins segments with `/` separators.
#[verifier::loop_isolation(false)]
pub fn join_path(segs: &Vec<String>) -> (r: String)
    requires
        segs@.len() >= 1,
    ensures
        r@ == join_slash(seg_views(segs@)),
{
    proof {
        reveal_strlit("/");
    }
    let mut out: String = segs[0].clone();
    let n = segs.len();
    let mut i: usize = 1;
    while i < n
        invariant
            1 <= i <= n,
            n == segs@.len(),
            out@ == join_slash(seg_views(segs@).take(i as int)),
        decreases n - i,
    {
        out.append("/");
        out.append(segs[i].as_str());
        proof {
            let sv = seg_views(segs@);
            assert(sv.take(i as int + 1).drop_last() =~= sv.take(i as int));
            assert(sv.take(i as int + 1).last() == sv[i as int]);
            assert("/"@ =~= seq!['/']);
            assert(out@ == join_slash(sv.take(i as int + 1)));
        }
        i = i + 1;
    }
    proof {
        assert(seg_views(segs@).take(n as int) =~= seg_views(segs@));
    }
    out
}

/// One segment resolved against the context.
pub fn subst_segment_exec(seg: &String, context: &RenderContext) -> (r: String)
    requires
        context.wf(),
    ensures
        r@ == subst_segment(seg@, context@),
{
    let n = seg.as_str().unicode_len();
    if n >= 2 && seg.as_str().get_char(0) == '[' && seg.as_str().get_char(n - 1) == ']' {
        proof {
            assert(seg@.last() == seg@[n - 1]);
        }
        let name = seg.as_str().substring_char(1, n - 1);
        proof {
            assert(name@ =~= seg@.subrange(1, seg@.len() - 1));
        }
        match context.get(name) {
            Some(v) => v.clone(),
            None => seg.clone(),
        }
    } else {
        seg.clone()
    }
}

/// Resolves a destination-relative path against the context: every
/// bracketed segment of the form `[name]` is replaced by the value bound
/// to `name`; an unresolved name is left as literal text.
#[verifier::loop_isolation(false)]
pub fn process_dest_path(dest_path: &str, context: &RenderContext) -> (r: String)
    requires
        context.wf(),
    ensures
        r@ == dest_path_spec(dest_path@, context@),
{
    let segs = split_path(dest_path);
    let n = segs.len();
    let mut resolved: Vec<String> = Vec::new();
    let mut i: usize = 0;
    proof {
        assert(seg_views(resolved@) =~= subst_views(seg_views(segs@).take(0), context@));
    }
    while i < n
        invariant
            i <= n,
            n == segs@.len(),
            context.wf(),
            seg_views(resolved@) == subst_views(seg_views(segs@).take(i as int), context@),
        decreases n - i,
    {
        let s = subst_segment_exec(&segs[i], context);
        resolved.push(s);
        proof {
            let sv = seg_views(segs@);
            assert(seg_views(resolved@) =~= subst_views(sv.take(i as int + 1), context@)) by {
                assert(seg_views(resolved@).len() == i + 1);
                assert(s@ == subst_segment(sv[i as int], context@));
                assert(forall|j: int|
                    0 <= j < i ==> (#[trigger] seg_views(resolved@)[j]) == subst_views(
                        sv.take(i as int),
                        context@,
                    )[j]);
                assert(forall|j: int|
                    0 <= j <= i ==> (#[trigger] subst_views(sv.take(i as int + 1), context@)[j])
                        == subst_segment(sv[j], context@));
            }
        }
        i = i + 1;
    }
    proof {
        assert(seg_views(segs@).take(n as int) =~= seg_views(segs@));
        lemma_split_slash_len(dest_path@);
    }
    join_path(&resolved)
}

// ---------------------------------------------------------------------------
// Skip-templating directive
// ---------------------------------------------------------------------------

/// Index of the first line feed, or the length when there is none.
pub open spec fn first_nl(b: Seq<u8>) -> int
    decreases b.len(),
{
    if b.len() == 0 {
        0
    } else if b[0] == 0x0a {
        0
    } else {
        1 + first_nl(b.drop_first())
    }
}

pub proof fn lemma_first_nl_at(b: Seq<u8>, i: int)
    requires
        0 <= i <= b.len(),
        forall|j: int| 0 <= j < i ==> b[j] != 0x0a,
        i < b.len() ==> b[i] == 0x0a,
    ensures
        first_nl(b) == i,
    decreases b.len(),
{
    if b.len() > 0 && b[0] != 0x0a {
        assert(i > 0);
        lemma_first_nl_at(b.drop_first(), i - 1);
    }
}

/// The first line of the bytes: everything before the first line feed.
pub open spec fn first_line(b: Seq<u8>) -> Seq<u8> {
    let i = first_nl(b);
    if 0 <= i <= b.len() {
        b.take(i)
    } else {
        b
    }
}

/// The line with one trailing carriage return removed.
pub open spec fn strip_cr(l: Seq<u8>) -> Seq<u8> {
    if l.len() > 0 && l.last() == 0x0d {
        l.drop_last()
    } else {
        l
    }
}

/// The sentinel line that marks a file as exempt from templating.
pub open spec fn skip_sentinel() -> Seq<u8> {
    encode_utf8("// hayaku: skip-templating"@)
}

/// The file's first line, ignoring one trailing carriage return, is
/// exactly the sentinel.
pub open spec fn is_skip_directive(b: Seq<u8>) -> bool {
    strip_cr(first_line(b)) == skip_sentinel()
}

/// Decides `is_skip_directive(bytes@)`.
#[verifier::loop_isolation(false)]
pub fn has_skip_directive(bytes: &Vec<u8>) -> (r: bool)
    ensures
        r == is_skip_directive(bytes@),
{
    let n = bytes.len();
    let mut i: usize = 0;
    while i < n && bytes[i] != 0x0a
        invariant
            i <= n,
            forall|j: int| 0 <= j < i ==> bytes@[j] != 0x0a,
        decreases n - i,
    {
        i = i + 1;
    }
    proof {
        lemma_first_nl_at(bytes@, i as int);
        assert(first_line(bytes@) =~= bytes@.take(i as int));
    }
    let mut end: usize = i;
    if end > 0 && bytes[end - 1] == 0x0d {
        end = end - 1;
        proof {
            assert(strip_cr(first_line(bytes@)) =~= bytes@.take(end as int));
        }
    } else {
        proof {
            assert(strip_cr(first_line(bytes@)) =~= bytes@.take(end as int));
        }
    }
    let sentinel = "// hayaku: skip-templating";
    let sb = sentinel.as_bytes();
    let m = sb.len();
    if end != m {
        proof {
            assert(bytes@.take(end as int).len() != skip_sentinel().len());
        }
        return false;
    }
    let mut j: usize = 0;
    while j < m
        invariant
            j <= m,
            m == end,
            end <= bytes@.len(),
            sb@ == skip_sentinel(),
            forall|k: int| 0 <= k < j ==> bytes@[k] == sb@[k],
        decreases m - j,
    {
        if bytes[j] != *vstd::slice::slice_index_get(sb, j) {
            proof {
                assert(bytes@.take(end as int)[j as int] != skip_sentinel()[j as int]);
            }
            return false;
        }
        j = j + 1;
    }
    proof {
        assert(bytes@.take(end as int) =~= skip_sentinel());
    }
    true
}

// ---------------------------------------------------------------------------
// The template marker extension
// ---------------------------------------------------------------------------

/// Index of the last `.` in a file name, or -1 when there is none.
pub open spec fn last_dot(name: Seq<char>) -> int
    decreases name.len(),
{
    if name.len() == 0 {
        -1
    } else if name.last() == '.' {
        name.len() - 1
    } else {
        last_dot(name.drop_last())
    }
}

pub proof fn lemma_last_dot_at(name: Seq<char>, i: int)
    requires
        0 <= i < name.len(),
        name[i] == '.',
        forall|j: int| i < j < name.len() ==> name[j] != '.',
    ensures
        last_dot(name) == i,
    decreases name.len(),
{
    if i < name.len() - 1 {
        assert(name.last() != '.');
        lemma_last_dot_at(name.drop_last(), i);
    }
}

pub proof fn lemma_last_dot_none(name: Seq<char>)
    requires
        forall|j: int| 0 <= j < name.len() ==> name[j] != '.',
    ensures
        last_dot(name) == -1,
    decreases name.len(),
{
    if name.len() > 0 {
        lemma_last_dot_none(name.drop_last());
    }
}

/// The path's final segment carries the template marker extension: an
/// extension that equals `tera` up to ASCII case, not counting a leading
/// dot of a hidden file name.
pub open spec fn has_marker_ext(path: Seq<char>) -> bool {
    let name = split_slash(path).last();
    let d = last_dot(name);
    d >= 1 && ascii_eq_ignore_case(name.skip(d + 1), "tera"@)
}

/// The path with the marker extension removed from its final segment.
pub open spec fn strip_marker(path: Seq<char>) -> Seq<char> {
    if has_marker_ext(path) {
        let segs = split_slash(path);
        let name = segs.last();
        join_slash(segs.update(segs.len() - 1, name.take(last_dot(name))))
    } else {
        path
    }
}

/// Removes the marker extension from the path's final segment, if it
/// carries one; says whether it did.
#[verifier::loop_isolation(false)]
pub fn strip_marker_extension(path: &str) -> (r: (String, bool))
    ensures
        r.0@ == strip_marker(path@),
        r.1 == has_marker_ext(path@),
{
    let mut segs = split_path(path);
    proof {
        lemma_split_slash_len(path@);
    }
    let last_ix = segs.len() - 1;
    let name_len = segs[last_ix].as_str().unicode_len();
    let ghost name = seg_views(segs@).last();

    // Scan backwards for the last dot.
    let mut d: usize = name_len;
    while d > 0 && segs[last_ix].as_str().get_char(d - 1) != '.'
        invariant
            d <= name_len,
            name_len == name.len(),
            name == segs@[last_ix as int]@,
            last_ix == segs@.len() - 1,
            forall|j: int| d <= j < name_len ==> name[j] != '.',
        decreases d,
    {
        d = d - 1;
    }
    if d == 0 {
        proof {
            lemma_last_dot_none(name);
        }
        return (path.to_owned(), false);
    }
    proof {
        assert(name[d - 1] == '.');
        lemma_last_dot_at(name, d - 1);
    }
    let ext = segs[last_ix].as_str().substring_char(d, name_len);
    proof {
        assert(ext@ =~= name.skip(d as int));
    }
    if d >= 2 && str_eq_ignore_ascii_case(ext, "tera") {
        let stem = segs[last_ix].as_str().substring_char(0, d - 1);
        let stem_string = stem.to_owned();
        segs[last_ix] = stem_string;
        proof {
            assert(seg_views(segs@) =~= split_slash(path@).update(
                split_slash(path@).len() - 1,
                name.take(last_dot(name)),
            ));
        }
        let joined = join_path(&segs);
        (joined, true)
    } else {
        proof {
            if d < 2 {
                assert(last_dot(name) == d - 1);
                assert(!has_marker_ext(path@));
            }
        }
        (path.to_owned(), false)
    }
}

// ---------------------------------------------------------------------------
// The per-file pipeline
// ---------------------------------------------------------------------------

/// One file of the template tree, by its path relative to the template
/// root (with `/` separators) and its raw content.
#[derive(Debug)]
pub struct TemplateFile {
    pub path: String,
    pub contents: Vec<u8>,
}

/// One file of the generated tree, by its destination-relative path and
/// the bytes to write.
#[derive(Debug)]
pub struct OutputFile {
    pub path: String,
    pub contents: Vec<u8>,
}

/// The engine's hard exclusions: files under a version-control metadata
/// directory, ignore-definition files, and the template's own metadata
/// file are never emitted, whatever the walk produced.
pub open spec fn file_excluded(path: Seq<char>) -> bool {
    let segs = split_slash(path);
    ||| segs.contains(".git"@)
    ||| segs.last() == "hayaku.toml"@
    ||| segs.last() == ".gitignore"@
}

/// What one file contributes to the destination tree: the resolved (and,
/// for rendered files, marker-stripped) destination path and the bytes to
/// write; nothing when rendering fails.
pub open spec fn file_output(
    path: Seq<char>,
    bytes: Seq<u8>,
    m: Map<Seq<char>, Seq<char>>,
) -> Option<(Seq<char>, Seq<u8>)> {
    let dest0 = dest_path_spec(path, m);
    if is_skip_directive(bytes) {
        Some((dest0, bytes))
    } else {
        let dest1 = strip_marker(dest0);
        if !valid_utf8(bytes) {
            Some((dest1, bytes))
        } else {
            match render_of(decode_utf8(bytes), m) {
                Some(t) => Some((dest1, encode_utf8(t))),
                None => None,
            }
        }
    }
}

/// What a whole run produces: the outputs of the non-excluded files in
/// walk order, or the path of the first file whose rendering fails.
pub open spec fn generate_spec(
    files: Seq<(Seq<char>, Seq<u8>)>,
    m: Map<Seq<char>, Seq<char>>,
) -> Result<Seq<(Seq<char>, Seq<u8>)>, Seq<char>>
    decreases files.len(),
{
    if files.len() == 0 {
        Ok(Seq::empty())
    } else {
        let f = files[0];
        if file_excluded(f.0) {
            generate_spec(files.drop_first(), m)
        } else {
            match file_output(f.0, f.1, m) {
                Option::None => Err(f.0),
                Option::Some(out) => match generate_spec(files.drop_first(), m) {
                    Ok(outs) => Ok(seq![out] + outs),
                    Err(p) => Err(p),
                },
            }
        }
    }
}

/// The views of template files.
pub open spec fn file_views(s: Seq<TemplateFile>) -> Seq<(Seq<char>, Seq<u8>)> {
    s.map_values(|f: TemplateFile| (f.path@, f.contents@))
}

/// The views of output files.
pub open spec fn output_views(s: Seq<OutputFile>) -> Seq<(Seq<char>, Seq<u8>)> {
    s.map_values(|f: OutputFile| (f.path@, f.contents@))
}

/// Decides `file_excluded(path@)`.
#[verifier::loop_isolation(false)]
pub fn is_excluded_path(path: &str) -> (r: bool)
    ensures
        r == file_excluded(path@),
{
    let segs = split_path(path);
    proof {
        lemma_split_slash_len(path@);
    }
    let n = segs.len();
    let mut i: usize = 0;
    while i < n
        invariant
            i <= n,
            n == segs@.len(),
            seg_views(segs@) == split_slash(path@),
            forall|j: int| 0 <= j < i ==> (#[trigger] segs@[j])@ != ".git"@,
        decreases n - i,
    {
        if str_eq(segs[i].as_str(), ".git") {
            proof {
                assert(split_slash(path@).contains(".git"@)) by {
                    assert(seg_views(segs@)[i as int] == ".git"@);
                }
            }
            return true;
        }
        i = i + 1;
    }
    proof {
        assert(!split_slash(path@).contains(".git"@)) by {
            if split_slash(path@).contains(".git"@) {
                let k = choose|k: int|
                    0 <= k < seg_views(segs@).len() && seg_views(segs@)[k] == ".git"@;
                assert(segs@[k]@ == ".git"@);
            }
        }
    }
    let last = segs[n - 1].as_str();
    proof {
        assert(last@ == split_slash(path@).last());
    }
    str_eq(last, "hayaku.toml") || str_eq(last, ".gitignore")
}

/// Processes one non-excluded file of the template tree: resolves its
/// destination path, copies it verbatim under the skip-templating
/// directive, passes non-UTF-8 content through unchanged, and renders
/// UTF-8 text against the context, stripping the marker extension from
/// the destination of rendered files. A render failure names the source
/// file.
pub fn process_file(path: &str, contents: &Vec<u8>, context: &RenderContext) -> (r: Result<
    OutputFile,
    Error,
>)
    requires
        context.wf(),
    ensures
        (match file_output(path@, contents@, context@) {
            Option::Some(out) => r matches Ok(o) && o.path@ == out.0 && o.contents@ == out.1,
            Option::None => r matches Err(e) && (e matches Error::RenderError { path: p, .. }
                && p@ == path@),
        }),
{
    let dest0 = process_dest_path(path, context);
    if has_skip_directive(contents) {
        return Ok(OutputFile { path: dest0, contents: contents.clone() });
    }
    let (dest1, _was_marker) = strip_marker_extension(dest0.as_str());
    match crate::strutil::try_str_from_utf8(contents.as_slice()) {
        Option::None => Ok(OutputFile { path: dest1, contents: contents.clone() }),
        Option::Some(text) => {
            match crate::context::render_text(text, context) {
                Ok(rendered) => {
                    let out_bytes = rendered.as_str().as_bytes_vec();
                    Ok(OutputFile { path: dest1, contents: out_bytes })
                },
                Err(detail) => Err(Error::RenderError { path: path.to_owned(), detail }),
            }
        },
    }
}

/// Generates the destination tree for a template tree: each non-excluded
/// file, in walk order, contributes its output; the first render failure
/// aborts the run, naming the offending source file.
#[verifier::loop_isolation(false)]
pub fn create_project(files: &Vec<TemplateFile>, context: &RenderContext) -> (r: Result<
    Vec<OutputFile>,
    Error,
>)
    requires
        context.wf(),
    ensures
        (match generate_spec(file_views(files@), context@) {
            Ok(outs) => r matches Ok(v) && output_views(v@) == outs,
            Err(p) => r matches Err(e) && (e matches Error::RenderError { path: q, .. } && q@
                == p),
        }),
{
    let n = files.len();
    let mut outs: Vec<OutputFile> = Vec::new();
    let mut i: usize = 0;
    let ghost fv = file_views(files@);
    proof {
        assert(fv.skip(0) =~= fv);
        assert(output_views(outs@) =~= Seq::<(Seq<char>, Seq<u8>)>::empty());
    }
    while i < n
        invariant
            i <= n,
            n == files@.len(),
            (match generate_spec(fv.skip(i as int), context@) {
                Ok(o2) => generate_spec(fv, context@) == Ok::<_, Seq<char>>(
                    output_views(outs@) + o2,
                ),
                Err(p) => generate_spec(fv, context@) == Err::<Seq<(Seq<char>, Seq<u8>)>, _>(p),
            }),
        decreases n - i,
    {
        proof {
            assert(fv.skip(i as int)[0] == fv[i as int]);
            assert(fv.skip(i as int).drop_first() =~= fv.skip(i as int + 1));
            assert(fv[i as int] == (files@[i as int].path@, files@[i as int].contents@));
        }
        if !is_excluded_path(files[i].path.as_str()) {
            match process_file(files[i].path.as_str(), &files[i].contents, context) {
                Ok(o) => {
                    let ghost out = (o.path@, o.contents@);
                    let ghost ov_old = output_views(outs@);
                    proof {
                        assert(file_output(fv[i as int].0, fv[i as int].1, context@) == Some(out));
                    }
                    outs.push(o);
                    proof {
                        assert(output_views(outs@) =~= ov_old.push(out));
                        assert forall|o2: Seq<(Seq<char>, Seq<u8>)>|
                            ov_old + (seq![out] + o2) =~= output_views(outs@) + o2 by {
                            assert(output_views(outs@) =~= ov_old.push(out));
                        }
                        assert(match generate_spec(fv.skip(i as int + 1), context@) {
                            Ok(o2) => generate_spec(fv.skip(i as int), context@) == Ok::<
                                _,
                                Seq<char>,
                            >(seq![out] + o2),
                            Err(p) => generate_spec(fv.skip(i as int), context@) == Err::<
                                Seq<(Seq<char>, Seq<u8>)>,
                                _,
                            >(p),
                        });
                        assert(match generate_spec(fv.skip(i as int + 1), context@) {
                            Ok(o2) => generate_spec(fv, context@) == Ok::<_, Seq<char>>(
                                output_views(outs@) + o2,
                            ),
                            Err(p) => generate_spec(fv, context@) == Err::<
                                Seq<(Seq<char>, Seq<u8>)>,
                                _,
                            >(p),
                        });
                    }
                },
                Err(e) => {
                    return Err(e);
                },
            }
        } else {
            proof {
                assert(file_excluded(fv[i as int].0));
                assert(generate_spec(fv.skip(i as int), context@) == generate_spec(
                    fv.skip(i as int + 1),
                    context@,
                ));
            }
        }
        i = i + 1;
    }
    proof {
        assert(fv.skip(n as int).len() == 0);
        assert(output_views(outs@) + Seq::<(Seq<char>, Seq<u8>)>::empty() =~= output_views(outs@));
    }
    Ok(outs)
}

// ---------------------------------------------------------------------------
// Laws of the engine
// ---------------------------------------------------------------------------

/// The walk with the hard-excluded files removed.
pub open spec fn kept_files(files: Seq<(Seq<char>, Seq<u8>)>) -> Seq<(Seq<char>, Seq<u8>)>
    decreases files.len(),
{
    if files.len() == 0 {
        Seq::empty()
    } else if file_excluded(files[0].0) {
        kept_files(files.drop_first())
    } else {
        seq![files[0]] + kept_files(files.drop_first())
    }
}

/// Files under a `.git` directory, ignore-definition files, and the
/// template's metadata file contribute nothing, wherever they stand in
/// the walk: a run produces exactly what it produces with them removed.
pub proof fn lemma_excluded_files_ignored(
    files: Seq<(Seq<char>, Seq<u8>)>,
    m: Map<Seq<char>, Seq<char>>,
)
    ensures
        generate_spec(files, m) == generate_spec(kept_files(files), m),
    decreases files.len(),
{
    if files.len() > 0 {
        lemma_excluded_files_ignored(files.drop_first(), m);
        if !file_excluded(files[0].0) {
            let kf = kept_files(files);
            assert(kf[0] == files[0]);
            assert(kf.drop_first() =~= kept_files(files.drop_first()));
        }
    }
}

/// A file whose first line is the skip-templating directive is copied
/// byte for byte, that first line included, with no substitution applied
/// to its content; only its destination path is resolved.
pub proof fn lemma_skip_directive_copies(
    path: Seq<char>,
    bytes: Seq<u8>,
    m: Map<Seq<char>, Seq<char>>,
)
    requires
        is_skip_directive(bytes),
    ensures
        file_output(path, bytes, m) == Some((dest_path_spec(path, m), bytes)),
{
}

/// A rendered text file is written under its resolved destination path
/// with the marker extension stripped, and its content is exactly the
/// engine's rendering of its text.
pub proof fn lemma_rendered_file_destination(
    path: Seq<char>,
    bytes: Seq<u8>,
    m: Map<Seq<char>, Seq<char>>,
)
    requires
        !is_skip_directive(bytes),
        valid_utf8(bytes),
        render_of(decode_utf8(bytes), m) is Some,
    ensures
        file_output(path, bytes, m) == Some(
            (
                strip_marker(dest_path_spec(path, m)),
                encode_utf8(render_of(decode_utf8(bytes), m).unwrap()),
            ),
        ),
{
}

/// Content that is not UTF-8 passes through byte for byte, marker
/// extension or not; only its destination path is resolved and stripped.
pub proof fn lemma_binary_pass_through(
    path: Seq<char>,
    bytes: Seq<u8>,
    m: Map<Seq<char>, Seq<char>>,
)
    requires
        !is_skip_directive(bytes),
        !valid_utf8(bytes),
    ensures
        file_output(path, bytes, m) == Some((strip_marker(dest_path_spec(path, m)), bytes)),
{
}

/// A path segment of the exact form `[name]` resolves to the value bound
/// to `name`; an unresolved name stays literal, brackets included.
pub proof fn lemma_bracket_segment(seg: Seq<char>, m: Map<Seq<char>, Seq<char>>)
    requires
        seg.len() >= 2,
        seg[0] == '[',
        seg.last() == ']',
    ensures
        m.contains_key(seg.subrange(1, seg.len() - 1)) ==> subst_segment(seg, m) == m[seg.subrange(
            1,
            seg.len() - 1,
        )],
        !m.contains_key(seg.subrange(1, seg.len() - 1)) ==> subst_segment(seg, m) == seg,
{
}

/// A segment not of the bracketed form stands as it is.
pub proof fn lemma_plain_segment(seg: Seq<char>, m: Map<Seq<char>, Seq<char>>)
    requires
        seg.len() < 2 || seg[0] != '[' || seg.last() != ']',
    ensures
        subst_segment(seg, m) == seg,
{
}

} // verus!
