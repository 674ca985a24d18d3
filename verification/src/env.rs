//! Variable keys and values: canonical key form, the project name derived
//! from a destination path, and validation of prompted variable values.

use crate::config::{EnvEntry, EnvVarConfig, TemplateConfig};
use crate::context::{pair_views, RenderContext};
use crate::error::Error;
use crate::strutil::{
    lemma_char_u8_roundtrip, lemma_insert_multiset, lemma_lex_le_total, lemma_lex_le_trans,
    lex_le, str_eq, str_le, string_from_ascii,
};
use crate::templating::{seg_views, split_path, split_slash};
use vstd::prelude::*;
use vstd::string::*;

verus! {

// ---------------------------------------------------------------------------
// Canonical keys
// ---------------------------------------------------------------------------

/// Canonical form of a single key character: ASCII letters are upper-cased,
/// ASCII digits kept, and every other character becomes an underscore.
pub open spec fn canonical_char(c: char) -> char {
    if 'a' <= c && c <= 'z' {
        ((c as u8) - 0x20) as char
    } else if ('A' <= c && c <= 'Z') || ('0' <= c && c <= '9') {
        c
    } else {
        '_'
    }
}

/// Canonical form of a raw variable key.
pub open spec fn canonical_key(raw: Seq<char>) -> Seq<char> {
    raw.map_values(|c: char| canonical_char(c))
}

pub proof fn lemma_canonical_char_ascii(c: char)
    ensures
        (canonical_char(c) as u32) < 0x80,
        canonical_char(canonical_char(c)) == canonical_char(c),
{
    if 'a' <= c && c <= 'z' {
        let d = ((c as u8) - 0x20) as char;
        assert(d as u32 == (c as u32) - 0x20);
        assert('A' <= d && d <= 'Z');
    }
}

/// Canonicalization is idempotent: a canonical key is its own canonical form.
pub proof fn lemma_canonical_idempotent(raw: Seq<char>)
    ensures
        canonical_key(canonical_key(raw)) == canonical_key(raw),
{
    assert forall|j: int| 0 <= j < raw.len() implies canonical_char(
        #[trigger] canonical_key(raw)[j],
    ) == canonical_key(raw)[j] by {
        lemma_canonical_char_ascii(raw[j]);
    }
    assert(canonical_key(canonical_key(raw)) =~= canonical_key(raw));
}

/// Canonical form of a raw variable key: each ASCII alphanumeric character
/// upper-cased, every other character replaced by `_`.
pub fn canonical_env_key(raw: &str) -> (r: String)
    ensures
        r@ == canonical_key(raw@),
{
    let n = raw.unicode_len();
    let mut out: Vec<u8> = Vec::new();
    let mut i: usize = 0;
    while i < n
        invariant
            i <= n,
            n == raw@.len(),
            out@.len() == i,
            forall|j: int| 0 <= j < i ==> out@[j] == (canonical_char(raw@[j]) as u8),
            forall|j: int| 0 <= j < i ==> out@[j] < 0x80,
        decreases n - i,
    {
        let c = raw.get_char(i);
        let u = c as u32;
        let b: u8 = if 0x61 <= u && u <= 0x7a {
            assert('a' <= c && c <= 'z');
            (u - 0x20) as u8
        } else if (0x41 <= u && u <= 0x5a) || (0x30 <= u && u <= 0x39) {
            assert(!('a' <= c && c <= 'z'));
            assert(('A' <= c && c <= 'Z') || ('0' <= c && c <= '9'));
            u as u8
        } else {
            assert(!('a' <= c && c <= 'z'));
            assert(!(('A' <= c && c <= 'Z') || ('0' <= c && c <= '9')));
            assert(canonical_char(c) == '_');
            0x5f
        };
        proof {
            lemma_canonical_char_ascii(c);
            assert(b == canonical_char(c) as u8);
        }
        out.push(b);
        i = i + 1;
    }
    let r = string_from_ascii(&out);
    proof {
        assert forall|j: int| 0 <= j < r@.len() implies r@[j] == canonical_key(raw@)[j] by {
            assert(r@[j] == out@[j] as char);
            lemma_canonical_char_ascii(raw@[j]);
            lemma_char_u8_roundtrip(canonical_char(raw@[j]));
        }
        assert(r@ =~= canonical_key(raw@));
    }
    r
}

// ---------------------------------------------------------------------------
// Project name from a destination path
// ---------------------------------------------------------------------------

/// The path's segments with trailing empty and `.` segments removed: what
/// remains of a path once trailing slashes and trailing `.` components
/// are ignored, as a filesystem path's final component ignores them.
pub open spec fn trim_name_segments(segs: Seq<Seq<char>>) -> Seq<Seq<char>>
    decreases segs.len(),
{
    if segs.len() == 0 {
        segs
    } else if segs.last() == Seq::<char>::empty() || segs.last() == seq!['.'] {
        trim_name_segments(segs.drop_last())
    } else {
        segs
    }
}

/// The project name a destination path determines: its final path
/// component, ignoring trailing slashes and trailing `.` components;
/// nothing when no component remains or the final one is `..`.
pub open spec fn project_name_spec(p: Seq<char>) -> Option<Seq<char>> {
    let t = trim_name_segments(split_slash(p));
    if t.len() == 0 {
        None
    } else if t.last() == seq!['.', '.'] {
        None
    } else {
        Some(t.last())
    }
}

/// The segment is ignored at the end of a path: empty or a lone `.`.
fn is_trim_segment(s: &str) -> (r: bool)
    ensures
        r == (s@ == Seq::<char>::empty() || s@ == seq!['.']),
{
    let n = s.unicode_len();
    if n == 0 {
        assert(s@ =~= Seq::<char>::empty());
        true
    } else if n == 1 && s.get_char(0) == '.' {
        assert(s@ =~= seq!['.']);
        true
    } else {
        proof {
            if s@ == seq!['.'] {
                assert(s@.len() == 1 && s@[0] == '.');
            }
        }
        false
    }
}

/// Derives the project name from the destination path: its final path
/// component. Fails when the path has no usable final component.
#[verifier::loop_isolation(false)]
pub fn project_name_from_path(dest_path: &str) -> (r: Result<String, Error>)
    ensures
        (match project_name_spec(dest_path@) {
            Some(name) => r matches Ok(s) && s@ == name,
            None => r matches Err(e) && e matches Error::IoError { .. },
        }),
{
    let mut segs = split_path(dest_path);
    while segs.len() > 0 && is_trim_segment(segs[segs.len() - 1].as_str())
        invariant
            trim_name_segments(seg_views(segs@)) == trim_name_segments(split_slash(dest_path@)),
        decreases segs@.len(),
    {
        let ghost sv = seg_views(segs@);
        segs.pop();
        proof {
            assert(seg_views(segs@) =~= sv.drop_last());
            assert(trim_name_segments(sv) == trim_name_segments(sv.drop_last()));
        }
    }
    let ghost t = trim_name_segments(split_slash(dest_path@));
    if segs.len() == 0 {
        proof {
            assert(seg_views(segs@) =~= Seq::<Seq<char>>::empty());
            assert(t.len() == 0);
        }
        let mut m = String::new();
        m.append("Unable to determine project name from destination ");
        m.append(dest_path);
        return Err(Error::IoError { detail: m });
    }
    proof {
        let sv = seg_views(segs@);
        assert(sv.last() == segs@[segs@.len() - 1]@);
        assert(trim_name_segments(sv) == sv);
        assert(t == sv);
    }
    let li = segs.len() - 1;
    let last = segs[li].as_str();
    let n = last.unicode_len();
    let dotdot = n == 2 && last.get_char(0) == '.' && last.get_char(1) == '.';
    proof {
        if dotdot {
            assert(last@ =~= seq!['.', '.']);
        } else if t.last() == seq!['.', '.'] {
            assert(last@.len() == 2 && last@[0] == '.' && last@[1] == '.');
        }
    }
    if dotdot {
        let mut m = String::new();
        m.append("Unable to determine project name from destination ");
        m.append(dest_path);
        Err(Error::IoError { detail: m })
    } else {
        Ok(segs[li].clone())
    }
}

// ---------------------------------------------------------------------------
// Variable values
// ---------------------------------------------------------------------------

/// The string a yes/no value contributes to the context.
pub fn bool_env_value(b: bool) -> (r: String)
    ensures
        r@ == (if b {
            "true"@
        } else {
            "false"@
        }),
{
    if b {
        "true".to_owned()
    } else {
        "false".to_owned()
    }
}

/// The value appears in the list of choices.
pub open spec fn choice_listed(choices: Seq<String>, value: Seq<char>) -> bool {
    exists|i: int| 0 <= i < choices.len() && (#[trigger] choices[i])@ == value
}

/// Validates one obtained value against its variable specification:
/// a string value must be non-empty, a choice value must be listed, and a
/// yes/no value must be one of `true`/`false`.
#[verifier::loop_isolation(false)]
pub fn resolve_env_value(key: &str, var: &EnvVarConfig, value: &str) -> (r: Result<String, Error>)
    ensures
        (match var {
            EnvVarConfig::StringVar { .. } => {
                &&& (r is Ok <==> value@.len() > 0)
                &&& (r matches Err(e) ==> (e matches Error::RequiredValueMissing { key: k } && k@
                    == key@))
            },
            EnvVarConfig::ChoiceVar { choices, .. } => {
                &&& (r is Ok <==> choice_listed(choices@, value@))
                &&& (r matches Err(e) ==> (e matches Error::InvalidChoice { key: k, value: w }
                    && k@ == key@ && w@ == value@))
            },
            EnvVarConfig::BoolVar { .. } => {
                &&& (r is Ok <==> (value@ == "true"@ || value@ == "false"@))
                &&& (r matches Err(e) ==> (e matches Error::InvalidChoice { key: k, value: w }
                    && k@ == key@ && w@ == value@))
            },
        }),
        r matches Ok(v) ==> v@ == value@,
{
    match var {
        EnvVarConfig::StringVar { .. } => {
            if value.unicode_len() == 0 {
                Err(Error::RequiredValueMissing { key: key.to_owned() })
            } else {
                Ok(value.to_owned())
            }
        },
        EnvVarConfig::ChoiceVar { choices, .. } => {
            let n = choices.len();
            let mut i: usize = 0;
            while i < n
                invariant
                    i <= n,
                    n == choices@.len(),
                    forall|j: int| 0 <= j < i ==> (#[trigger] choices@[j])@ != value@,
                decreases n - i,
            {
                if str_eq(choices[i].as_str(), value) {
                    proof {
                        assert(choice_listed(choices@, value@)) by {
                            assert((#[trigger] choices@[i as int])@ == value@);
                        }
                    }
                    return Ok(value.to_owned());
                }
                i = i + 1;
            }
            Err(Error::InvalidChoice { key: key.to_owned(), value: value.to_owned() })
        },
        EnvVarConfig::BoolVar { .. } => {
            if str_eq(value, "true") || str_eq(value, "false") {
                Ok(value.to_owned())
            } else {
                Err(Error::InvalidChoice { key: key.to_owned(), value: value.to_owned() })
            }
        },
    }
}

// ---------------------------------------------------------------------------
// Deterministic prompting order
// ---------------------------------------------------------------------------

/// The views of a sequence of strings.
pub open spec fn str_views(s: Seq<String>) -> Seq<Seq<char>> {
    s.map_values(|x: String| x@)
}

/// The raw keys of declared variables, in declaration order.
pub open spec fn key_views(s: Seq<EnvEntry>) -> Seq<Seq<char>> {
    s.map_values(|e: EnvEntry| e.key@)
}

/// The sequence is sorted lexicographically.
pub open spec fn keys_sorted(s: Seq<Seq<char>>) -> bool {
    forall|i: int, j: int| 0 <= i < j < s.len() ==> lex_le(#[trigger] s[i], #[trigger] s[j])
}

/// Sorts strings lexicographically, keeping the multiset of values.
#[verifier::loop_isolation(false)]
pub fn sort_strings(v: &Vec<String>) -> (r: Vec<String>)
    ensures
        str_views(r@).to_multiset() == str_views(v@).to_multiset(),
        keys_sorted(str_views(r@)),
{
    broadcast use vstd::seq_lib::group_to_multiset_ensures;

    let n = v.len();
    let mut r: Vec<String> = Vec::new();
    let mut i: usize = 0;
    proof {
        assert(str_views(r@) =~= Seq::<Seq<char>>::empty());
        assert(str_views(v@.take(0)) =~= Seq::<Seq<char>>::empty());
    }
    while i < n
        invariant
            i <= n,
            str_views(r@).to_multiset() == str_views(v@.take(i as int)).to_multiset(),
            keys_sorted(str_views(r@)),
        decreases n - i,
    {
        let x = v[i].clone();
        let ghost rv0 = str_views(r@);
        let rlen = r.len();
        let mut p: usize = 0;
        while p < rlen && str_le(r[p].as_str(), x.as_str())
            invariant
                p <= rlen,
                rlen == r@.len(),
                r@.len() == rv0.len(),
                str_views(r@) == rv0,
                forall|j: int| 0 <= j < p ==> lex_le(#[trigger] rv0[j], x@),
            decreases rlen - p,
        {
            assert(rv0[p as int] == r@[p as int]@);
            p = p + 1;
        }
        proof {
            if p < rlen {
                assert(rv0[p as int] == r@[p as int]@);
                assert(!lex_le(rv0[p as int], x@));
                lemma_lex_le_total(rv0[p as int], x@);
                assert(lex_le(x@, rv0[p as int]));
            }
        }
        r.insert(p, x);
        i = i + 1;
        proof {
            let rv1 = str_views(r@);
            assert(rv1 =~= rv0.insert(p as int, x@));
            lemma_insert_multiset(rv0, p as int, x@);
            assert(str_views(v@.take(i as int)) =~= str_views(v@.take(i - 1)).push(v@[i - 1]@));
            assert(keys_sorted(rv1)) by {
                assert forall|a: int, b: int| 0 <= a < b < rv1.len() implies lex_le(
                    #[trigger] rv1[a],
                    #[trigger] rv1[b],
                ) by {
                    let pi = p as int;
                    if a < pi && b == pi {
                    } else if a == pi && b > pi {
                        if pi < rv0.len() {
                            assert(rv1[b] == rv0[b - 1]);
                            if b - 1 == pi {
                            } else {
                                assert(lex_le(rv0[pi], rv0[b - 1]));
                                lemma_lex_le_trans(x@, rv0[pi], rv0[b - 1]);
                            }
                        }
                    } else if a < pi && b > pi {
                        assert(rv1[a] == rv0[a]);
                        assert(rv1[b] == rv0[b - 1]);
                        if b - 1 == a {
                        } else {
                            assert(lex_le(rv0[a], rv0[b - 1]));
                        }
                    } else if a > pi && b > pi {
                        assert(rv1[a] == rv0[a - 1]);
                        assert(rv1[b] == rv0[b - 1]);
                    } else if a < pi && b < pi {
                        assert(rv1[a] == rv0[a]);
                        assert(rv1[b] == rv0[b]);
                    }
                }
            }
        }
    }
    proof {
        assert(v@.take(n as int) =~= v@);
    }
    r
}

/// The declared variable keys in sorted order: the order in which values
/// are prompted for, the same on every run.
#[verifier::loop_isolation(false)]
pub fn sorted_env_keys(config: &TemplateConfig) -> (r: Vec<String>)
    ensures
        str_views(r@).to_multiset() == key_views(config.env@).to_multiset(),
        keys_sorted(str_views(r@)),
{
    let n = config.env.len();
    let mut keys: Vec<String> = Vec::new();
    let mut i: usize = 0;
    proof {
        assert(str_views(keys@) =~= key_views(config.env@.take(0)));
    }
    while i < n
        invariant
            i <= n,
            n == config.env@.len(),
            str_views(keys@) == key_views(config.env@.take(i as int)),
        decreases n - i,
    {
        let k = config.env[i].key.clone();
        proof {
            assert(k@ == config.env@[i as int].key@);
        }
        keys.push(k);
        proof {
            let ce = config.env@;
            assert(keys@.len() == i + 1);
            assert forall|j: int|
                0 <= j < i as int + 1 implies str_views(keys@)[j] == key_views(
                ce.take(i as int + 1),
            )[j] by {
                assert(ce.take(i as int + 1)[j] == ce[j]);
                if j < i as int {
                    assert(str_views(keys@)[j] == keys@[j]@);
                    assert(key_views(ce.take(i as int))[j] == ce.take(i as int)[j].key@);
                    assert(ce.take(i as int)[j] == ce[j]);
                }
            }
            assert(str_views(keys@) =~= key_views(ce.take(i as int + 1)));
        }
        i = i + 1;
    }
    proof {
        assert(config.env@.take(n as int) =~= config.env@);
    }
    sort_strings(&keys)
}

// ---------------------------------------------------------------------------
// Building the render context
// ---------------------------------------------------------------------------

/// The four keys the project and template names are bound to. They are
/// written first and never overwritten by later insertions.
pub open spec fn reserved_key(k: Seq<char>) -> bool {
    ||| k == "project_name"@
    ||| k == "PROJECT_NAME"@
    ||| k == "template_name"@
    ||| k == "TEMPLATE_NAME"@
}

/// Folds key/value pairs into the mapping: each key is canonicalized, a
/// reserved canonical key is skipped, and a later pair overwrites an
/// earlier binding of the same canonical key.
pub open spec fn fold_env(
    m: Map<Seq<char>, Seq<char>>,
    pairs: Seq<(Seq<char>, Seq<char>)>,
) -> Map<Seq<char>, Seq<char>>
    decreases pairs.len(),
{
    if pairs.len() == 0 {
        m
    } else {
        let k = canonical_key(pairs[0].0);
        let m1 = if reserved_key(k) {
            m
        } else {
            m.insert(k, pairs[0].1)
        };
        fold_env(m1, pairs.drop_first())
    }
}

proof fn lemma_fold_env_push(
    m: Map<Seq<char>, Seq<char>>,
    pairs: Seq<(Seq<char>, Seq<char>)>,
    p: (Seq<char>, Seq<char>),
)
    ensures
        fold_env(m, pairs.push(p)) == (if reserved_key(canonical_key(p.0)) {
            fold_env(m, pairs)
        } else {
            fold_env(m, pairs).insert(canonical_key(p.0), p.1)
        }),
    decreases pairs.len(),
{
    if pairs.len() == 0 {
        assert(pairs.push(p)[0] == p);
        let e = pairs.push(p).drop_first();
        assert(e =~= Seq::<(Seq<char>, Seq<char>)>::empty());
        let k = canonical_key(p.0);
        let m1 = if reserved_key(k) {
            m
        } else {
            m.insert(k, p.1)
        };
        assert(fold_env(m1, e) == m1);
        assert(fold_env(m, pairs.push(p)) == fold_env(m1, e));
    } else {
        assert(pairs.push(p)[0] == pairs[0]);
        let k = canonical_key(pairs[0].0);
        let m1 = if reserved_key(k) {
            m
        } else {
            m.insert(k, pairs[0].1)
        };
        assert(fold_env(m, pairs.push(p)) == fold_env(m1, pairs.push(p).drop_first()));
        assert(pairs.push(p).drop_first() =~= pairs.drop_first().push(p));
        assert(fold_env(m, pairs) == fold_env(m1, pairs.drop_first()));
        lemma_fold_env_push(m1, pairs.drop_first(), p);
    }
}

/// The mapping a generation run renders against: the project and template
/// names under their reserved keys, then the global settings, then the
/// template's variables, each under its canonical key, later insertions
/// overwriting earlier ones of the same canonical key.
pub open spec fn context_spec(
    project_name: Seq<char>,
    template_name: Seq<char>,
    globals: Seq<(Seq<char>, Seq<char>)>,
    vars: Seq<(Seq<char>, Seq<char>)>,
) -> Map<Seq<char>, Seq<char>> {
    let m0 = Map::<Seq<char>, Seq<char>>::empty().insert("project_name"@, project_name).insert(
        "PROJECT_NAME"@,
        project_name,
    ).insert("template_name"@, template_name).insert("TEMPLATE_NAME"@, template_name);
    fold_env(fold_env(m0, globals), vars)
}

/// Decides whether a canonical key is reserved.
fn is_reserved(k: &str) -> (r: bool)
    ensures
        r == reserved_key(k@),
{
    str_eq(k, "project_name") || str_eq(k, "PROJECT_NAME") || str_eq(k, "template_name") || str_eq(
        k,
        "TEMPLATE_NAME",
    )
}

/// Folds pairs into the context under their canonical keys, skipping
/// reserved keys.
#[verifier::loop_isolation(false)]
fn insert_env_pairs(ctx: &mut RenderContext, pairs: &Vec<(String, String)>)
    requires
        old(ctx).wf(),
    ensures
        final(ctx)@ == fold_env(old(ctx)@, pair_views(pairs@)),
        final(ctx).wf(),
{
    let n = pairs.len();
    let mut i: usize = 0;
    proof {
        assert(pair_views(pairs@).take(0) =~= Seq::<(Seq<char>, Seq<char>)>::empty());
    }
    while i < n
        invariant
            i <= n,
            ctx@ == fold_env(old(ctx)@, pair_views(pairs@).take(i as int)),
            ctx.wf(),
        decreases n - i,
    {
        let k = canonical_env_key(pairs[i].0.as_str());
        if !is_reserved(k.as_str()) {
            ctx.insert(k.as_str(), pairs[i].1.as_str());
        }
        proof {
            let pv = pair_views(pairs@);
            assert(pv.take(i + 1) =~= pv.take(i as int).push(pv[i as int]));
            lemma_fold_env_push(old(ctx)@, pv.take(i as int), pv[i as int]);
            assert(pv[i as int].0 == pairs@[i as int].0@);
        }
        i = i + 1;
    }
    proof {
        assert(pair_views(pairs@).take(n as int) =~= pair_views(pairs@));
    }
}

/// Builds the render context for one generation run from the project name,
/// the template's descriptor, the global settings values, and the obtained
/// variable values.
pub fn build_context(
    project_name: &str,
    config: &TemplateConfig,
    global_env: &Vec<(String, String)>,
    env_values: &Vec<(String, String)>,
) -> (r: RenderContext)
    ensures
        r@ == context_spec(
            project_name@,
            config.name@,
            pair_views(global_env@),
            pair_views(env_values@),
        ),
        r.wf(),
{
    let mut ctx = RenderContext::new();
    ctx.insert("project_name", project_name);
    ctx.insert("PROJECT_NAME", project_name);
    ctx.insert("template_name", config.name.as_str());
    ctx.insert("TEMPLATE_NAME", config.name.as_str());
    insert_env_pairs(&mut ctx, global_env);
    insert_env_pairs(&mut ctx, env_values);
    ctx
}

} // verus!

