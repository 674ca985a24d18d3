//! The template catalog: local and built-in template entries indexed by
//! identifier, the merged and deterministically ordered view with local
//! entries overriding built-in ones, and the persisted global settings.

use crate::config::{desc_matches, desc_node_ok, doc_name, lemma_desc_name, TemplateConfig};
use crate::env::bool_env_value;
use crate::error::Error;
use crate::strutil::{
    i64_to_string, int_rep, lemma_insert_multiset, lemma_lex_le_total, lemma_lex_le_trans, lex_le,
    str_eq, str_le,
};
use crate::toml_data::{node_table_get, parse_toml_node, table_get, toml_doc_of, TomlNode};
use vstd::prelude::*;
use vstd::string::*;

verus! {

/// Where a template entry came from.
#[derive(Clone, Copy, Debug, PartialEq, Eq, Structural)]
pub enum TemplateOrigin {
    Local,
    BuiltIn,
}

/// A located template: its descriptor, the path of its directory, and its
/// origin.
#[derive(Clone, Debug, PartialEq, Eq)]
pub struct TemplateEntry {
    pub config: TemplateConfig,
    pub path: String,
    pub origin: TemplateOrigin,
}

/// One immediate subdirectory of a template root, as the filesystem listed
/// it: its name and its metadata file's text, when one exists.
pub struct SubdirListing {
    pub name: String,
    pub metadata: Option<String>,
}

// ---------------------------------------------------------------------------
// Indexing entries by identifier
// ---------------------------------------------------------------------------

/// The entry's identifier is `id`.
pub open spec fn has_name(e: TemplateEntry, id: Seq<char>) -> bool {
    e.config.name@ == id
}

/// Some entry carries the identifier.
pub open spec fn contains_name(s: Seq<TemplateEntry>, id: Seq<char>) -> bool {
    exists|i: int| 0 <= i < s.len() && has_name(#[trigger] s[i], id)
}

/// No two entries share an identifier.
pub open spec fn unique_entry_names(s: Seq<TemplateEntry>) -> bool {
    forall|i: int, j: int|
        0 <= i < j < s.len() ==> (#[trigger] s[i]).config.name@ != (#[trigger] s[j]).config.name@
}

/// The entry describes one listed subdirectory of `dir`: its path is the
/// subdirectory's, and its descriptor is the one the subdirectory's
/// metadata document determines — the synthesized default where no
/// metadata file exists, the extracted descriptor of the parsed document
/// otherwise.
pub open spec fn entry_from_subdir(e: TemplateEntry, dir: Seq<char>, d: SubdirListing) -> bool {
    &&& e.path@ == dir + seq!['/'] + d.name@
    &&& (match d.metadata {
        Option::None => e.config.name@ == d.name@ && e.config.display_name is None
            && e.config.description is None && e.config.author is None && e.config.env@.len()
            == 0,
        Option::Some(t) => toml_doc_of(t@) matches Some(n) && desc_matches(e.config, n),
    })
}

/// The subdirectory's metadata, when it has any, parses to a well-formed
/// metadata document.
pub open spec fn subdir_ok(d: SubdirListing) -> bool {
    match d.metadata {
        Option::None => true,
        Option::Some(t) => toml_doc_of(t@) matches Some(n) && desc_node_ok(n),
    }
}

/// The identifier the subdirectory's descriptor carries: the declared name
/// of its parsed metadata document, or the directory name when there is no
/// metadata file.
pub open spec fn subdir_id(d: SubdirListing) -> Seq<char> {
    match d.metadata {
        Option::None => d.name@,
        Option::Some(t) => match toml_doc_of(t@) {
            Option::Some(n) => doc_name(n),
            Option::None => Seq::empty(),
        },
    }
}

/// What a successfully loaded per-origin catalog looks like: identifiers
/// unique, every entry of the given origin, every entry carrying the path
/// and descriptor of one listed subdirectory, at most one entry per
/// subdirectory, and every subdirectory's identifier present — so each
/// subdirectory yields exactly one entry, the later one winning an
/// identifier collision.
pub open spec fn listing_ok(
    s: Seq<TemplateEntry>,
    dir: Seq<char>,
    subdirs: Seq<SubdirListing>,
    origin: TemplateOrigin,
) -> bool {
    &&& unique_entry_names(s)
    &&& s.len() <= subdirs.len()
    &&& (subdirs.len() > 0 ==> s.len() > 0)
    &&& forall|i: int| 0 <= i < s.len() ==> (#[trigger] s[i]).origin == origin
    &&& forall|i: int|
        0 <= i < s.len() ==> exists|j: int|
            0 <= j < subdirs.len() && entry_from_subdir(#[trigger] s[i], dir, subdirs[j])
    &&& forall|j: int|
        0 <= j < subdirs.len() ==> contains_name(s, subdir_id(#[trigger] subdirs[j]))
}

/// Inserts an entry, replacing an existing entry of the same identifier
/// (the later entry wins), else appending it.
#[verifier::loop_isolation(false)]
fn insert_entry(v: &mut Vec<TemplateEntry>, e: TemplateEntry)
    requires
        unique_entry_names(old(v)@),
    ensures
        unique_entry_names(final(v)@),
        old(v)@.len() <= final(v)@.len() <= old(v)@.len() + 1,
        forall|k: int|
            0 <= k < final(v)@.len() ==> ((#[trigger] final(v)@[k]) == e || (old(v)@.contains(
                final(v)@[k],
            ) && final(v)@[k].config.name@ != e.config.name@)),
        contains_name(final(v)@, e.config.name@),
        forall|id: Seq<char>|
            #[trigger] contains_name(final(v)@, id) <==> (contains_name(old(v)@, id) || id
                == e.config.name@),
{
    let n = v.len();
    let mut i: usize = 0;
    while i < n
        invariant
            i <= n,
            n == v@.len(),
            v@ == old(v)@,
            forall|j: int| 0 <= j < i ==> (#[trigger] v@[j]).config.name@ != e.config.name@,
        decreases n - i,
    {
        if str_eq(v[i].config.name.as_str(), e.config.name.as_str()) {
            let ghost ix = i as int;
            v[i] = e;
            proof {
                assert(v@ =~= old(v)@.update(ix, e));
                assert(v@[ix] == e);
                assert forall|k: int|
                    0 <= k < v@.len() implies ((#[trigger] v@[k]) == e || (old(v)@.contains(v@[k])
                    && v@[k].config.name@ != e.config.name@)) by {
                    if k != ix {
                        assert(v@[k] == old(v)@[k]);
                    }
                }
                assert forall|id: Seq<char>| #[trigger]
                    contains_name(v@, id) implies (contains_name(old(v)@, id) || id
                    == e.config.name@) by {
                    let w = choose|w: int| 0 <= w < v@.len() && has_name(v@[w], id);
                    if w != ix {
                        assert(has_name(old(v)@[w], id));
                    }
                }
                assert forall|id: Seq<char>|
                    (contains_name(old(v)@, id) || id == e.config.name@) implies #[trigger]
                    contains_name(v@, id) by {
                    if id == e.config.name@ {
                        assert(has_name(v@[ix], id));
                    } else if contains_name(old(v)@, id) {
                        let w = choose|w: int| 0 <= w < old(v)@.len() && has_name(old(v)@[w], id);
                        assert(w != ix);
                        assert(has_name(v@[w], id));
                    }
                }
            }
            return ;
        }
        i = i + 1;
    }
    v.push(e);
    proof {
        let m = v@.len() - 1;
        assert(v@[m] == e);
        assert(v@.drop_last() =~= old(v)@);
        assert(unique_entry_names(v@)) by {
            assert(forall|j: int| 0 <= j < m ==> (#[trigger] v@[j]) == old(v)@[j]);
        }
        assert forall|k: int|
            0 <= k < v@.len() implies ((#[trigger] v@[k]) == e || (old(v)@.contains(v@[k])
            && v@[k].config.name@ != e.config.name@)) by {
            if k < m {
                assert(v@[k] == old(v)@[k]);
            }
        }
        assert(has_name(v@[m], e.config.name@));
        assert forall|id: Seq<char>| #[trigger]
            contains_name(v@, id) implies (contains_name(old(v)@, id) || id == e.config.name@) by {
            let w = choose|w: int| 0 <= w < v@.len() && has_name(v@[w], id);
            if w < m {
                assert(has_name(old(v)@[w], id));
            }
        }
        assert forall|id: Seq<char>|
            (contains_name(old(v)@, id) || id == e.config.name@) implies #[trigger] contains_name(
            v@,
            id,
        ) by {
            if id == e.config.name@ {
                assert(has_name(v@[m], id));
            } else if contains_name(old(v)@, id) {
                let w = choose|w: int| 0 <= w < old(v)@.len() && has_name(old(v)@[w], id);
                assert(has_name(v@[w], id));
            }
        }
    }
}

/// Loads one per-origin catalog from a directory listing: each
/// subdirectory's descriptor is read from its metadata text, or
/// synthesized from its name, and indexed by its identifier; a later
/// subdirectory wins an identifier collision. The load succeeds exactly
/// when every listed subdirectory's metadata parses to a well-formed
/// metadata document.
#[verifier::loop_isolation(false)]
#[verifier::rlimit(60)]
pub fn load_templates_from_listing(
    template_dir: &str,
    subdirs: &Vec<SubdirListing>,
    origin: TemplateOrigin,
) -> (r: Result<Vec<TemplateEntry>, Error>)
    ensures
        r is Ok <==> (forall|j: int|
            0 <= j < subdirs@.len() ==> subdir_ok(#[trigger] subdirs@[j])),
        (r matches Ok(v) ==> listing_ok(
            v@,
            template_dir@,
            subdirs@,
            origin,
        )),
        (r matches Err(e) ==> e matches Error::ConfigParse { .. }),
{
    let n = subdirs.len();
    let mut v: Vec<TemplateEntry> = Vec::new();
    let mut i: usize = 0;
    proof {
        assert(subdirs@.take(0) =~= Seq::<SubdirListing>::empty());
    }
    while i < n
        invariant
            i <= n,
            n == subdirs@.len(),
            listing_ok(v@, template_dir@, subdirs@.take(i as int), origin),
            forall|j: int| 0 <= j < i ==> subdir_ok(#[trigger] subdirs@[j]),
        decreases n - i,
    {
        proof {
            assert(subdirs@.take(i as int + 1).drop_last() =~= subdirs@.take(i as int));
            assert(subdirs@.take(i as int + 1)[i as int] == subdirs@[i as int]);
            assert(forall|j: int|
                0 <= j < i ==> (#[trigger] subdirs@.take(i as int + 1)[j]) == subdirs@.take(
                    i as int,
                )[j]);
        }
        let d = &subdirs[i];
        let mut path = template_dir.to_owned();
        path.append("/");
        path.append(d.name.as_str());
        proof {
            reveal_strlit("/");
            assert(path@ == template_dir@ + seq!['/'] + d.name@);
        }
        let mut label = path.clone();
        label.append("/hayaku.toml");
        let config = match TemplateConfig::from_dir_listing(
            d.name.as_str(),
            match &d.metadata {
                Option::Some(t) => Option::Some(t.as_str()),
                Option::None => Option::None,
            },
            label.as_str(),
        ) {
            Ok(c) => c,
            Err(e) => {
                proof {
                    assert(!subdir_ok(subdirs@[i as int]));
                }
                return Err(e);
            },
        };
        let entry = TemplateEntry { config, path, origin };
        proof {
            assert(subdir_ok(subdirs@[i as int]));
            assert(entry_from_subdir(entry, template_dir@, subdirs@[i as int]));
            assert(entry.config.name@ == subdir_id(subdirs@[i as int])) by {
                match subdirs@[i as int].metadata {
                    Option::Some(t) => {
                        lemma_desc_name(entry.config, toml_doc_of(t@).unwrap());
                    },
                    Option::None => {},
                }
            }
        }
        let ghost v0 = v@;
        insert_entry(&mut v, entry);
        proof {
            let pre = subdirs@.take(i as int);
            let cur = subdirs@.take(i as int + 1);
            assert forall|k: int|
                0 <= k < v@.len() implies exists|j: int|
                0 <= j < cur.len() && entry_from_subdir(#[trigger] v@[k], template_dir@, cur[j]) by {
                if v@[k] == entry {
                    assert(entry_from_subdir(v@[k], template_dir@, cur[i as int]));
                } else {
                    assert(v0.contains(v@[k]));
                    let w = choose|w: int| 0 <= w < v0.len() && v0[w] == v@[k];
                    let j = choose|j: int|
                        0 <= j < pre.len() && entry_from_subdir(v0[w], template_dir@, pre[j]);
                    assert(cur[j] == pre[j]);
                    assert(entry_from_subdir(v@[k], template_dir@, cur[j]));
                }
            }
            assert forall|k: int| 0 <= k < v@.len() implies (#[trigger] v@[k]).origin
                == origin by {
                if v@[k] != entry {
                    assert(v0.contains(v@[k]));
                    let w = choose|w: int| 0 <= w < v0.len() && v0[w] == v@[k];
                    assert(v0[w].origin == origin);
                }
            }
            assert(contains_name(v@, entry.config.name@));
            assert(v@.len() > 0) by {
                let w = choose|w: int| 0 <= w < v@.len() && has_name(v@[w], entry.config.name@);
            }
            assert forall|j: int|
                0 <= j < cur.len() implies contains_name(v@, subdir_id(#[trigger] cur[j])) by {
                if j == i as int {
                    assert(entry.config.name@ == subdir_id(cur[j]));
                } else {
                    assert(cur[j] == pre[j]);
                    assert(contains_name(v0, subdir_id(pre[j])));
                }
            }
        }
        i = i + 1;
    }
    proof {
        assert(subdirs@.take(n as int) =~= subdirs@);
    }
    Ok(v)
}

// ---------------------------------------------------------------------------
// The merged view
// ---------------------------------------------------------------------------

/// The built-in entries that survive the merge: those whose identifier no
/// local entry claims, in their original order.
pub open spec fn kept_entries(bi: Seq<TemplateEntry>, loc: Seq<TemplateEntry>) -> Seq<
    TemplateEntry,
>
    decreases bi.len(),
{
    if bi.len() == 0 {
        Seq::empty()
    } else {
        let rest = kept_entries(bi.drop_last(), loc);
        if contains_name(loc, bi.last().config.name@) {
            rest
        } else {
            rest.push(bi.last())
        }
    }
}

/// The merged catalog before ordering: surviving built-in entries, then
/// every local entry. A local entry replaces a built-in entry of the same
/// identifier entirely.
pub open spec fn merged_seq(bi: Seq<TemplateEntry>, loc: Seq<TemplateEntry>) -> Seq<
    TemplateEntry,
> {
    kept_entries(bi, loc) + loc
}

/// Built-in entries order before local ones.
pub open spec fn origin_rank(o: TemplateOrigin) -> int {
    match o {
        TemplateOrigin::BuiltIn => 0,
        TemplateOrigin::Local => 1,
    }
}

/// The listing key of an entry: its display name when it has one, else
/// its identifier.
pub open spec fn sort_key(e: TemplateEntry) -> Seq<char> {
    match e.config.display_name {
        Option::Some(d) => d@,
        Option::None => e.config.name@,
    }
}

/// The listing order: by origin group, then lexicographically by key.
pub open spec fn entry_le(a: TemplateEntry, b: TemplateEntry) -> bool {
    ||| origin_rank(a.origin) < origin_rank(b.origin)
    ||| (origin_rank(a.origin) == origin_rank(b.origin) && lex_le(sort_key(a), sort_key(b)))
}

/// The sequence is in listing order.
pub open spec fn entries_sorted(s: Seq<TemplateEntry>) -> bool {
    forall|i: int, j: int| 0 <= i < j < s.len() ==> entry_le(#[trigger] s[i], #[trigger] s[j])
}

/// The entries a sequence of references points at.
pub open spec fn entry_derefs(s: Seq<&TemplateEntry>) -> Seq<TemplateEntry> {
    s.map_values(|e: &TemplateEntry| *e)
}

pub proof fn lemma_entry_le_total(a: TemplateEntry, b: TemplateEntry)
    ensures
        entry_le(a, b) || entry_le(b, a),
{
    lemma_lex_le_total(sort_key(a), sort_key(b));
}

pub proof fn lemma_entry_le_trans(a: TemplateEntry, b: TemplateEntry, c: TemplateEntry)
    requires
        entry_le(a, b),
        entry_le(b, c),
    ensures
        entry_le(a, c),
{
    if origin_rank(a.origin) == origin_rank(b.origin) && origin_rank(b.origin) == origin_rank(
        c.origin,
    ) {
        lemma_lex_le_trans(sort_key(a), sort_key(b), sort_key(c));
    }
}

/// How many entries carry the identifier.
pub open spec fn name_count(s: Seq<TemplateEntry>, id: Seq<char>) -> int
    decreases s.len(),
{
    if s.len() == 0 {
        0
    } else {
        name_count(s.drop_last(), id) + (if has_name(s.last(), id) {
            1int
        } else {
            0int
        })
    }
}

/// How many built-in entries share their identifier with a local entry.
/// With identifiers unique within each origin, this counts the shared
/// identifiers.
pub open spec fn shared_name_count(bi: Seq<TemplateEntry>, loc: Seq<TemplateEntry>) -> int
    decreases bi.len(),
{
    if bi.len() == 0 {
        0
    } else {
        shared_name_count(bi.drop_last(), loc) + (if contains_name(loc, bi.last().config.name@) {
            1int
        } else {
            0int
        })
    }
}

proof fn lemma_kept_entries_props(bi: Seq<TemplateEntry>, loc: Seq<TemplateEntry>)
    ensures
        kept_entries(bi, loc).len() == bi.len() - shared_name_count(bi, loc),
        0 <= shared_name_count(bi, loc) <= bi.len(),
        forall|k: int|
            0 <= k < kept_entries(bi, loc).len() ==> bi.contains(
                #[trigger] kept_entries(bi, loc)[k],
            ) && !contains_name(loc, kept_entries(bi, loc)[k].config.name@),
    decreases bi.len(),
{
    if bi.len() > 0 {
        let t = bi.drop_last();
        lemma_kept_entries_props(t, loc);
        assert forall|k: int|
            0 <= k < kept_entries(bi, loc).len() implies bi.contains(
            #[trigger] kept_entries(bi, loc)[k],
        ) && !contains_name(loc, kept_entries(bi, loc)[k].config.name@) by {
            let ke = kept_entries(bi, loc);
            if k < kept_entries(t, loc).len() {
                assert(ke[k] == kept_entries(t, loc)[k]);
                let w = choose|w: int| 0 <= w < t.len() && t[w] == kept_entries(t, loc)[k];
                assert(bi[w] == ke[k]);
            } else {
                assert(ke[k] == bi.last());
                assert(bi[bi.len() - 1] == ke[k]);
            }
        }
    }
}

proof fn lemma_name_count_concat(a: Seq<TemplateEntry>, b: Seq<TemplateEntry>, id: Seq<char>)
    ensures
        name_count(a + b, id) == name_count(a, id) + name_count(b, id),
    decreases b.len(),
{
    if b.len() == 0 {
        assert(a + b =~= a);
    } else {
        lemma_name_count_concat(a, b.drop_last(), id);
        assert((a + b).drop_last() =~= a + b.drop_last());
        assert((a + b).last() == b.last());
    }
}

proof fn lemma_name_count_zero(s: Seq<TemplateEntry>, id: Seq<char>)
    ensures
        (name_count(s, id) == 0) <==> !contains_name(s, id),
        name_count(s, id) >= 0,
    decreases s.len(),
{
    if s.len() > 0 {
        let t = s.drop_last();
        lemma_name_count_zero(t, id);
        if contains_name(t, id) {
            let w = choose|w: int| 0 <= w < t.len() && has_name(t[w], id);
            assert(has_name(s[w], id));
        }
        if has_name(s.last(), id) {
            assert(has_name(s[s.len() - 1], id));
        }
        if !has_name(s.last(), id) && !contains_name(t, id) {
            assert forall|w: int| 0 <= w < s.len() implies !has_name(s[w], id) by {
                if w < s.len() - 1 {
                    assert(s[w] == t[w]);
                }
            }
        }
    }
}

proof fn lemma_name_count_unique(s: Seq<TemplateEntry>, id: Seq<char>)
    requires
        unique_entry_names(s),
        contains_name(s, id),
    ensures
        name_count(s, id) == 1,
    decreases s.len(),
{
    let t = s.drop_last();
    assert(unique_entry_names(t)) by {
        assert(forall|x: int, y: int|
            0 <= x < y < t.len() ==> (#[trigger] t[x]) == s[x] && (#[trigger] t[y]) == s[y]);
    }
    lemma_name_count_zero(t, id);
    if has_name(s.last(), id) {
        assert(!contains_name(t, id)) by {
            if contains_name(t, id) {
                let w = choose|w: int| 0 <= w < t.len() && has_name(t[w], id);
                assert(s[w].config.name@ == s[s.len() - 1].config.name@);
            }
        }
    } else {
        assert(contains_name(t, id)) by {
            let w = choose|w: int| 0 <= w < s.len() && has_name(s[w], id);
            assert(w < s.len() - 1);
            assert(has_name(t[w], id));
        }
        lemma_name_count_unique(t, id);
    }
}

/// Merging is union-with-override: the merged catalog holds one entry per
/// surviving identifier, and its size is the two catalog sizes less the
/// number of built-in entries whose identifier a local entry claims.
pub proof fn lemma_merged_count(bi: Seq<TemplateEntry>, loc: Seq<TemplateEntry>)
    ensures
        merged_seq(bi, loc).len() == bi.len() + loc.len() - shared_name_count(bi, loc),
        0 <= shared_name_count(bi, loc) <= bi.len(),
{
    lemma_kept_entries_props(bi, loc);
}

/// Catalog override: when a local entry claims an identifier, the merged
/// catalog holds exactly one entry with that identifier, and every entry
/// with it is a local entry, carrying the local entry's path.
pub proof fn lemma_merge_local_overrides(
    bi: Seq<TemplateEntry>,
    loc: Seq<TemplateEntry>,
    id: Seq<char>,
)
    requires
        unique_entry_names(loc),
        contains_name(loc, id),
    ensures
        name_count(merged_seq(bi, loc), id) == 1,
        forall|i: int|
            0 <= i < merged_seq(bi, loc).len() && has_name(
                #[trigger] merged_seq(bi, loc)[i],
                id,
            ) ==> loc.contains(merged_seq(bi, loc)[i]),
{
    let ke = kept_entries(bi, loc);
    lemma_kept_entries_props(bi, loc);
    lemma_name_count_concat(ke, loc, id);
    lemma_name_count_zero(ke, id);
    assert(!contains_name(ke, id)) by {
        if contains_name(ke, id) {
            let w = choose|w: int| 0 <= w < ke.len() && has_name(ke[w], id);
            assert(!contains_name(loc, ke[w].config.name@));
        }
    }
    lemma_name_count_unique(loc, id);
    assert forall|i: int|
        0 <= i < merged_seq(bi, loc).len() && has_name(#[trigger] merged_seq(bi, loc)[i], id)
        implies loc.contains(merged_seq(bi, loc)[i]) by {
        let m = merged_seq(bi, loc);
        if i < ke.len() {
            assert(m[i] == ke[i]);
            assert(has_name(ke[i], id));
            assert(contains_name(ke, id));
        } else {
            assert(m[i] == loc[i - ke.len()]);
        }
    }
}

/// A merged catalog of two per-origin catalogs with unique identifiers
/// has unique identifiers itself.
pub proof fn lemma_merged_unique(bi: Seq<TemplateEntry>, loc: Seq<TemplateEntry>)
    requires
        unique_entry_names(bi),
        unique_entry_names(loc),
    ensures
        unique_entry_names(merged_seq(bi, loc)),
{
    let ke = kept_entries(bi, loc);
    let m = merged_seq(bi, loc);
    lemma_kept_entries_props(bi, loc);
    assert forall|i: int, j: int|
        0 <= i < j < m.len() implies (#[trigger] m[i]).config.name@ != (
    #[trigger] m[j]).config.name@ by {
        if j < ke.len() {
            // both survive from the built-in catalog
            let wi = choose|w: int| 0 <= w < bi.len() && bi[w] == ke[i];
            let wj = choose|w: int| 0 <= w < bi.len() && bi[w] == ke[j];
            assert(bi.contains(ke[i]) && bi.contains(ke[j]));
            if wi == wj {
                lemma_kept_no_dup_index(bi, loc, i, j);
            } else if wi < wj {
                assert(bi[wi].config.name@ != bi[wj].config.name@);
            } else {
                assert(bi[wj].config.name@ != bi[wi].config.name@);
            }
        } else if i < ke.len() {
            // a surviving built-in entry against a local entry
            assert(m[i] == ke[i]);
            assert(m[j] == loc[j - ke.len()]);
            assert(!contains_name(loc, ke[i].config.name@));
            if ke[i].config.name@ == m[j].config.name@ {
                assert(has_name(loc[j - ke.len()], ke[i].config.name@));
            }
        } else {
            assert(m[i] == loc[i - ke.len()]);
            assert(m[j] == loc[j - ke.len()]);
        }
    }
}

/// Two positions of the surviving built-in entries never hold the same
/// entry value.
proof fn lemma_kept_no_dup_index(
    bi: Seq<TemplateEntry>,
    loc: Seq<TemplateEntry>,
    i: int,
    j: int,
)
    requires
        unique_entry_names(bi),
        0 <= i < j < kept_entries(bi, loc).len(),
    ensures
        kept_entries(bi, loc)[i] != kept_entries(bi, loc)[j]
            || kept_entries(bi, loc)[i].config.name@ != kept_entries(bi, loc)[j].config.name@,
    decreases bi.len(),
{
    // kept entries keep the relative order of distinct positions of a
    // uniquely-named catalog, so equal values cannot repeat
    lemma_kept_unique_names(bi, loc);
}

/// The surviving built-in entries have unique identifiers.
proof fn lemma_kept_unique_names(bi: Seq<TemplateEntry>, loc: Seq<TemplateEntry>)
    requires
        unique_entry_names(bi),
    ensures
        unique_entry_names(kept_entries(bi, loc)),
    decreases bi.len(),
{
    if bi.len() > 0 {
        let t = bi.drop_last();
        assert(unique_entry_names(t)) by {
            assert(forall|x: int, y: int|
                0 <= x < y < t.len() ==> (#[trigger] t[x]) == bi[x] && (#[trigger] t[y]) == bi[y]);
        }
        lemma_kept_unique_names(t, loc);
        lemma_kept_entries_props(t, loc);
        let ke = kept_entries(bi, loc);
        let kt = kept_entries(t, loc);
        if !contains_name(loc, bi.last().config.name@) {
            assert forall|x: int, y: int|
                0 <= x < y < ke.len() implies (#[trigger] ke[x]).config.name@ != (
            #[trigger] ke[y]).config.name@ by {
                if y < kt.len() {
                    assert(ke[x] == kt[x] && ke[y] == kt[y]);
                } else {
                    assert(ke[y] == bi.last());
                    assert(ke[x] == kt[x]);
                    let w = choose|w: int| 0 <= w < t.len() && t[w] == kt[x];
                    assert(bi[w] == kt[x]);
                    assert(bi[w].config.name@ != bi[bi.len() - 1].config.name@);
                }
            }
        }
    }
}

// ---------------------------------------------------------------------------
// The catalog
// ---------------------------------------------------------------------------

/// Decides whether any entry carries the identifier.
#[verifier::loop_isolation(false)]
pub fn contains_name_exec(v: &Vec<TemplateEntry>, id: &str) -> (r: bool)
    ensures
        r == contains_name(v@, id@),
{
    let n = v.len();
    let mut i: usize = 0;
    while i < n
        invariant
            i <= n,
            n == v@.len(),
            forall|j: int| 0 <= j < i ==> !has_name(#[trigger] v@[j], id@),
        decreases n - i,
    {
        if str_eq(v[i].config.name.as_str(), id) {
            proof {
                assert(has_name(v@[i as int], id@));
            }
            return true;
        }
        i = i + 1;
    }
    proof {
        if contains_name(v@, id@) {
            let w = choose|w: int| 0 <= w < v@.len() && has_name(v@[w], id@);
            assert(!has_name(v@[w], id@));
        }
    }
    false
}

/// Decides the listing order between two entries.
pub fn entry_le_exec(a: &TemplateEntry, b: &TemplateEntry) -> (r: bool)
    ensures
        r == entry_le(*a, *b),
{
    let ra: u8 = match a.origin {
        TemplateOrigin::BuiltIn => 0,
        TemplateOrigin::Local => 1,
    };
    let rb: u8 = match b.origin {
        TemplateOrigin::BuiltIn => 0,
        TemplateOrigin::Local => 1,
    };
    if ra < rb {
        true
    } else if ra > rb {
        false
    } else {
        let ka = match &a.config.display_name {
            Option::Some(d) => d.as_str(),
            Option::None => a.config.name.as_str(),
        };
        let kb = match &b.config.display_name {
            Option::Some(d) => d.as_str(),
            Option::None => b.config.name.as_str(),
        };
        str_le(ka, kb)
    }
}

/// The catalog of one invocation: where the template roots stand, and the
/// local and built-in entries discovered under them.
#[derive(Debug)]
pub struct Hayaku {
    hayaku_dir: String,
    local_template_dir: String,
    built_in_template_dir: String,
    settings_config_path: String,
    local_templates: Vec<TemplateEntry>,
    built_in_templates: Vec<TemplateEntry>,
}

impl Hayaku {
    /// The local entries.
    pub closed spec fn local_view(&self) -> Seq<TemplateEntry> {
        self.local_templates@
    }

    /// The built-in entries.
    pub closed spec fn built_in_view(&self) -> Seq<TemplateEntry> {
        self.built_in_templates@
    }

    pub closed spec fn hayaku_dir_view(&self) -> Seq<char> {
        self.hayaku_dir@
    }

    pub closed spec fn local_template_dir_view(&self) -> Seq<char> {
        self.local_template_dir@
    }

    pub closed spec fn built_in_template_dir_view(&self) -> Seq<char> {
        self.built_in_template_dir@
    }

    pub closed spec fn settings_config_path_view(&self) -> Seq<char> {
        self.settings_config_path@
    }

    /// Identifiers are unique within each origin.
    pub open spec fn wf(&self) -> bool {
        unique_entry_names(self.local_view()) && unique_entry_names(self.built_in_view())
    }

    /// Builds the catalog from the two directory listings. The local
    /// template root is `<hayaku_dir>/templates` and the settings file is
    /// `<hayaku_dir>/hayaku.settings.toml`. Discovery succeeds exactly
    /// when every listed subdirectory's metadata parses to a well-formed
    /// metadata document; one failure fails the whole discovery.
    pub fn try_new_from_dir(
        hayaku_dir: &str,
        built_in_template_dir: &str,
        local_subdirs: &Vec<SubdirListing>,
        built_in_subdirs: &Vec<SubdirListing>,
    ) -> (r: Result<Hayaku, Error>)
        ensures
            (r matches Ok(h) ==> {
                &&& h.wf()
                &&& h.hayaku_dir_view() == hayaku_dir@
                &&& h.local_template_dir_view() == hayaku_dir@ + "/templates"@
                &&& h.built_in_template_dir_view() == built_in_template_dir@
                &&& h.settings_config_path_view() == hayaku_dir@ + "/hayaku.settings.toml"@
                &&& listing_ok(
                    h.local_view(),
                    h.local_template_dir_view(),
                    local_subdirs@,
                    TemplateOrigin::Local,
                )
                &&& listing_ok(
                    h.built_in_view(),
                    built_in_template_dir@,
                    built_in_subdirs@,
                    TemplateOrigin::BuiltIn,
                )
            }),
            r is Ok <==> ((forall|j: int|
                0 <= j < local_subdirs@.len() ==> subdir_ok(#[trigger] local_subdirs@[j])) && (
            forall|j: int|
                0 <= j < built_in_subdirs@.len() ==> subdir_ok(#[trigger] built_in_subdirs@[j]))),
            (r matches Err(e) ==> e matches Error::ConfigParse { .. }),
    {
        let mut local_template_dir = hayaku_dir.to_owned();
        local_template_dir.append("/templates");
        let mut settings_config_path = hayaku_dir.to_owned();
        settings_config_path.append("/hayaku.settings.toml");
        let local_templates = match load_templates_from_listing(
            local_template_dir.as_str(),
            local_subdirs,
            TemplateOrigin::Local,
        ) {
            Ok(v) => v,
            Err(e) => {
                return Err(e);
            },
        };
        let built_in_templates = match load_templates_from_listing(
            built_in_template_dir,
            built_in_subdirs,
            TemplateOrigin::BuiltIn,
        ) {
            Ok(v) => v,
            Err(e) => {
                return Err(e);
            },
        };
        Ok(
            Hayaku {
                hayaku_dir: hayaku_dir.to_owned(),
                local_template_dir,
                built_in_template_dir: built_in_template_dir.to_owned(),
                settings_config_path,
                local_templates,
                built_in_templates,
            },
        )
    }

    /// The catalog's root directory.
    pub fn hayaku_dir(&self) -> (r: &str)
        ensures
            r@ == self.hayaku_dir_view(),
    {
        self.hayaku_dir.as_str()
    }

    /// Where local templates live.
    pub fn local_template_dir(&self) -> (r: &str)
        ensures
            r@ == self.local_template_dir_view(),
    {
        self.local_template_dir.as_str()
    }

    /// Where built-in templates live.
    pub fn built_in_template_dir(&self) -> (r: &str)
        ensures
            r@ == self.built_in_template_dir_view(),
    {
        self.built_in_template_dir.as_str()
    }

    /// Where the global settings file lives.
    pub fn settings_config_path(&self) -> (r: &str)
        ensures
            r@ == self.settings_config_path_view(),
    {
        self.settings_config_path.as_str()
    }

    /// The local entries.
    pub fn templates(&self) -> (r: &Vec<TemplateEntry>)
        ensures
            r@ == self.local_view(),
    {
        &self.local_templates
    }

    /// The built-in entries.
    pub fn built_in_templates(&self) -> (r: &Vec<TemplateEntry>)
        ensures
            r@ == self.built_in_view(),
    {
        &self.built_in_templates
    }

    /// No local template exists.
    pub fn no_local_templates(&self) -> (r: bool)
        ensures
            r == (self.local_view().len() == 0),
    {
        self.local_templates.len() == 0
    }

    /// Looks an identifier up: the local catalog takes priority over the
    /// built-in one.
    #[verifier::loop_isolation(false)]
    pub fn get(&self, id: &str) -> (r: Option<&TemplateEntry>)
        requires
            self.wf(),
        ensures
            (match r {
                Some(e) => has_name(*e, id@) && (if contains_name(self.local_view(), id@) {
                    self.local_view().contains(*e)
                } else {
                    self.built_in_view().contains(*e)
                }),
                None => !contains_name(self.local_view(), id@) && !contains_name(
                    self.built_in_view(),
                    id@,
                ),
            }),
    {
        let nl = self.local_templates.len();
        let mut i: usize = 0;
        while i < nl
            invariant
                i <= nl,
                nl == self.local_view().len(),
                forall|j: int| 0 <= j < i ==> !has_name(#[trigger] self.local_view()[j], id@),
            decreases nl - i,
        {
            if str_eq(self.local_templates[i].config.name.as_str(), id) {
                proof {
                    assert(has_name(self.local_view()[i as int], id@));
                }
                return Some(&self.local_templates[i]);
            }
            i = i + 1;
        }
        proof {
            if contains_name(self.local_view(), id@) {
                let w = choose|w: int|
                    0 <= w < self.local_view().len() && has_name(self.local_view()[w], id@);
                assert(!has_name(self.local_view()[w], id@));
            }
        }
        let nb = self.built_in_templates.len();
        let mut k: usize = 0;
        while k < nb
            invariant
                k <= nb,
                nb == self.built_in_view().len(),
                forall|j: int| 0 <= j < k ==> !has_name(#[trigger] self.built_in_view()[j], id@),
            decreases nb - k,
        {
            if str_eq(self.built_in_templates[k].config.name.as_str(), id) {
                proof {
                    assert(has_name(self.built_in_view()[k as int], id@));
                }
                return Some(&self.built_in_templates[k]);
            }
            k = k + 1;
        }
        proof {
            if contains_name(self.built_in_view(), id@) {
                let w = choose|w: int|
                    0 <= w < self.built_in_view().len() && has_name(self.built_in_view()[w], id@);
                assert(!has_name(self.built_in_view()[w], id@));
            }
        }
        None
    }

    /// The merged, ordered catalog: every local entry, and every built-in
    /// entry no local entry overrides, built-in entries first, each origin
    /// group in lexicographic order of its listing keys.
    #[verifier::loop_isolation(false)]
    pub fn all_templates<'a>(&'a self) -> (r: Vec<&'a TemplateEntry>)
        requires
            self.wf(),
        ensures
            entry_derefs(r@).to_multiset() == merged_seq(
                self.built_in_view(),
                self.local_view(),
            ).to_multiset(),
            entries_sorted(entry_derefs(r@)),
            forall|x: TemplateEntry|
                #[trigger] entry_derefs(r@).contains(x) == merged_seq(
                    self.built_in_view(),
                    self.local_view(),
                ).contains(x),
            unique_entry_names(entry_derefs(r@)),
    {
        broadcast use vstd::seq_lib::group_to_multiset_ensures;

        let ghost bv = self.built_in_view();
        let ghost lv = self.local_view();
        let mut combined: Vec<&TemplateEntry> = Vec::new();
        let nb = self.built_in_templates.len();
        let mut i: usize = 0;
        proof {
            assert(entry_derefs(combined@) =~= kept_entries(bv.take(0), lv));
        }
        while i < nb
            invariant
                i <= nb,
                nb == bv.len(),
                entry_derefs(combined@) == kept_entries(bv.take(i as int), lv),
            decreases nb - i,
        {
            if !contains_name_exec(&self.local_templates, self.built_in_templates[i].config.name.as_str()) {
                combined.push(&self.built_in_templates[i]);
                proof {
                    assert(bv.take(i as int + 1).drop_last() =~= bv.take(i as int));
                    assert(bv.take(i as int + 1).last() == bv[i as int]);
                    assert(entry_derefs(combined@) =~= kept_entries(bv.take(i as int), lv).push(
                        bv[i as int],
                    ));
                }
            } else {
                proof {
                    assert(bv.take(i as int + 1).drop_last() =~= bv.take(i as int));
                    assert(bv.take(i as int + 1).last() == bv[i as int]);
                }
            }
            i = i + 1;
        }
        proof {
            assert(bv.take(nb as int) =~= bv);
        }
        let nl = self.local_templates.len();
        let mut j: usize = 0;
        proof {
            assert(kept_entries(bv, lv) + lv.take(0) =~= kept_entries(bv, lv));
        }
        while j < nl
            invariant
                j <= nl,
                nl == lv.len(),
                entry_derefs(combined@) == kept_entries(bv, lv) + lv.take(j as int),
            decreases nl - j,
        {
            combined.push(&self.local_templates[j]);
            proof {
                assert(entry_derefs(combined@) =~= kept_entries(bv, lv) + lv.take(j as int + 1))
                    by {
                    assert(lv.take(j as int + 1) =~= lv.take(j as int).push(lv[j as int]));
                    assert(entry_derefs(combined@) =~= (kept_entries(bv, lv) + lv.take(
                        j as int,
                    )).push(lv[j as int]));
                }
            }
            j = j + 1;
        }
        proof {
            assert(lv.take(nl as int) =~= lv);
            assert(entry_derefs(combined@) == merged_seq(bv, lv));
        }
        // Insertion sort into listing order.
        let m = combined.len();
        let mut sorted: Vec<&TemplateEntry> = Vec::new();
        let mut k: usize = 0;
        proof {
            assert(entry_derefs(sorted@) =~= Seq::<TemplateEntry>::empty());
            assert(entry_derefs(combined@).take(0) =~= Seq::<TemplateEntry>::empty());
        }
        while k < m
            invariant
                k <= m,
                m == combined@.len(),
                entry_derefs(sorted@).to_multiset() == entry_derefs(combined@).take(
                    k as int,
                ).to_multiset(),
                entries_sorted(entry_derefs(sorted@)),
            decreases m - k,
        {
            let x = combined[k];
            let ghost sv0 = entry_derefs(sorted@);
            let slen = sorted.len();
            let mut p: usize = 0;
            while p < slen && entry_le_exec(sorted[p], x)
                invariant
                    p <= slen,
                    slen == sorted@.len(),
                    sv0 == entry_derefs(sorted@),
                    sv0.len() == slen,
                    forall|q: int| 0 <= q < p ==> entry_le(#[trigger] sv0[q], *x),
                decreases slen - p,
            {
                assert(sv0[p as int] == *sorted@[p as int]);
                p = p + 1;
            }
            proof {
                if p < slen {
                    assert(sv0[p as int] == *sorted@[p as int]);
                    assert(!entry_le(sv0[p as int], *x));
                    lemma_entry_le_total(sv0[p as int], *x);
                }
            }
            sorted.insert(p, x);
            k = k + 1;
            proof {
                let sv1 = entry_derefs(sorted@);
                assert(sv1 =~= sv0.insert(p as int, *x));
                lemma_insert_multiset(sv0, p as int, *x);
                assert(entry_derefs(combined@).take(k as int) =~= entry_derefs(combined@).take(
                    k - 1,
                ).push(*combined@[k - 1]));
                assert(entries_sorted(sv1)) by {
                    assert forall|a: int, b: int| 0 <= a < b < sv1.len() implies entry_le(
                        #[trigger] sv1[a],
                        #[trigger] sv1[b],
                    ) by {
                        let pi = p as int;
                        if a < pi && b == pi {
                        } else if a == pi && b > pi {
                            if pi < sv0.len() {
                                assert(sv1[b] == sv0[b - 1]);
                                if b - 1 == pi {
                                } else {
                                    assert(entry_le(sv0[pi], sv0[b - 1]));
                                    lemma_entry_le_trans(*x, sv0[pi], sv0[b - 1]);
                                }
                            }
                        } else if a < pi && b > pi {
                            assert(sv1[a] == sv0[a]);
                            assert(sv1[b] == sv0[b - 1]);
                            if b - 1 == a {
                            } else {
                                assert(entry_le(sv0[a], sv0[b - 1]));
                            }
                        } else if a > pi && b > pi {
                            assert(sv1[a] == sv0[a - 1]);
                            assert(sv1[b] == sv0[b - 1]);
                        } else if a < pi && b < pi {
                            assert(sv1[a] == sv0[a]);
                            assert(sv1[b] == sv0[b]);
                        }
                    }
                }
            }
        }
        proof {
            assert(entry_derefs(combined@).take(m as int) =~= entry_derefs(combined@));
            let rv = entry_derefs(sorted@);
            let mg = merged_seq(bv, lv);
            assert(rv.to_multiset() == mg.to_multiset());
            assert forall|x: TemplateEntry| #[trigger] rv.contains(x) == mg.contains(x) by {
                assert(rv.contains(x) <==> rv.to_multiset().count(x) > 0);
                assert(mg.contains(x) <==> mg.to_multiset().count(x) > 0);
            }
            lemma_merged_unique(bv, lv);
            mg.lemma_multiset_has_no_duplicates();
            assert(mg.no_duplicates()) by {
                assert forall|a: int, b: int|
                    0 <= a < b < mg.len() implies mg[a] != mg[b] by {
                    assert(mg[a].config.name@ != mg[b].config.name@);
                }
            }
            rv.lemma_multiset_has_no_duplicates_conv();
            assert(unique_entry_names(rv)) by {
                assert forall|a: int, b: int|
                    0 <= a < b < rv.len() implies (#[trigger] rv[a]).config.name@ != (
                #[trigger] rv[b]).config.name@ by {
                    if rv[a] == rv[b] {
                        assert(!rv.no_duplicates());
                    } else if rv[a].config.name@ == rv[b].config.name@ {
                        assert(rv.contains(rv[a]));
                        assert(rv.contains(rv[b]));
                        assert(mg.contains(rv[a]));
                        assert(mg.contains(rv[b]));
                        let wa = choose|w: int| 0 <= w < mg.len() && mg[w] == rv[a];
                        let wb = choose|w: int| 0 <= w < mg.len() && mg[w] == rv[b];
                        assert(wa != wb);
                        if wa < wb {
                            assert(mg[wa].config.name@ != mg[wb].config.name@);
                        } else {
                            assert(mg[wb].config.name@ != mg[wa].config.name@);
                        }
                    }
                }
            }
        }
        sorted
    }
}

// ---------------------------------------------------------------------------
// The settings store
// ---------------------------------------------------------------------------

/// The node is a settings scalar.
pub open spec fn scalar_node(n: TomlNode) -> bool {
    n is Str || n is Int || n is Bool
}

/// The string a settings scalar contributes to the render context.
pub open spec fn scalar_string(n: TomlNode) -> Seq<char> {
    match n {
        TomlNode::Str(s) => s@,
        TomlNode::Int(i) => int_rep(i as int),
        TomlNode::Bool(b) => if b {
            "true"@
        } else {
            "false"@
        },
        _ => Seq::empty(),
    }
}

/// The persisted global settings: an optional mapping from raw key to a
/// scalar value, the single source of cross-project defaults.
#[derive(Debug)]
pub struct HayakuSettings {
    pub global_env: Option<Vec<(String, TomlNode)>>,
}

/// A well-formed settings document: a table whose optional `global_env`
/// table maps keys to scalars.
pub open spec fn settings_node_ok(n: TomlNode) -> bool {
    match n {
        TomlNode::Table(t0) => match table_get(t0@, "global_env"@) {
            Option::None => true,
            Option::Some(TomlNode::Table(g)) => forall|i: int|
                0 <= i < g@.len() ==> scalar_node((#[trigger] g@[i]).1),
            Option::Some(_) => false,
        },
        _ => false,
    }
}

/// The exact document the settings serialize to: an empty table for the
/// defaults, else a table with the one `global_env` entry holding every
/// stored key and scalar in order.
pub open spec fn settings_node_exact(s: HayakuSettings, n: TomlNode) -> bool {
    match s.global_env {
        Option::None => n matches TomlNode::Table(t) && t@.len() == 0,
        Option::Some(v) => n matches TomlNode::Table(t) && t@.len() == 1 && t@[0].0@
            == "global_env"@ && (t@[0].1 matches TomlNode::Table(g) && g@.len() == v@.len() && (
        forall|i: int|
            0 <= i < v@.len() ==> (#[trigger] g@[i]).0@ == v@[i].0@ && g@[i].1 == v@[i].1)),
    }
}

/// The settings value agrees with the document, key by key.
pub open spec fn settings_matches(s: HayakuSettings, n: TomlNode) -> bool {
    match n {
        TomlNode::Table(t0) => match table_get(t0@, "global_env"@) {
            Option::None => s.global_env is None,
            Option::Some(TomlNode::Table(g)) => s.global_env matches Some(v) && v@.len()
                == g@.len() && (forall|i: int|
                0 <= i < g@.len() ==> (#[trigger] v@[i]).0@ == g@[i].0@ && v@[i].1 == g@[i].1),
            Option::Some(_) => false,
        },
        _ => false,
    }
}

/// An equal copy of a scalar node; nothing for a non-scalar.
fn clone_scalar(n: &TomlNode) -> (r: Option<TomlNode>)
    ensures
        r matches Some(m) ==> m == *n,
        r is Some <==> scalar_node(*n),
{
    match n {
        TomlNode::Str(s) => Some(TomlNode::Str(s.clone())),
        TomlNode::Int(i) => Some(TomlNode::Int(*i)),
        TomlNode::Bool(b) => Some(TomlNode::Bool(*b)),
        _ => None,
    }
}

impl Default for HayakuSettings {
    /// The settings of a fresh installation: nothing set.
    fn default() -> (r: Self)
        ensures
            r.global_env is None,
    {
        HayakuSettings { global_env: None }
    }
}

impl HayakuSettings {
    /// Every stored value is a scalar.
    pub open spec fn wf(&self) -> bool {
        match self.global_env {
            Option::Some(v) => forall|i: int|
                0 <= i < v@.len() ==> scalar_node((#[trigger] v@[i]).1),
            Option::None => true,
        }
    }

    /// Extracts the settings from a parsed document. Succeeds exactly on
    /// well-formed settings documents.
    #[verifier::loop_isolation(false)]
    pub fn from_toml_node(node: &TomlNode, label: &str) -> (r: Result<HayakuSettings, Error>)
        ensures
            r is Ok <==> settings_node_ok(*node),
            r matches Ok(s) ==> settings_matches(s, *node) && s.wf(),
            r matches Err(e) ==> e matches Error::ConfigParse { path, .. } && path@ == label@,
    {
        let t0 = match node {
            TomlNode::Table(t) => t,
            _ => {
                return Err(
                    Error::ConfigParse {
                        path: label.to_owned(),
                        detail: "settings must be a table".to_owned(),
                    },
                );
            },
        };
        match node_table_get(t0, "global_env") {
            Option::None => Ok(HayakuSettings { global_env: None }),
            Option::Some(TomlNode::Table(g)) => {
                let n = g.len();
                let mut v: Vec<(String, TomlNode)> = Vec::new();
                let mut i: usize = 0;
                while i < n
                    invariant
                        i <= n,
                        n == g@.len(),
                        v@.len() == i,
                        forall|j: int|
                            0 <= j < i ==> (#[trigger] v@[j]).0@ == g@[j].0@ && v@[j].1 == g@[j].1
                                && scalar_node(v@[j].1),
                    decreases n - i,
                {
                    let m = match clone_scalar(&g[i].1) {
                        Option::Some(m) => m,
                        Option::None => {
                            proof {
                                assert(!scalar_node((g@[i as int]).1));
                            }
                            return Err(
                                Error::ConfigParse {
                                    path: label.to_owned(),
                                    detail: "global_env values must be scalars".to_owned(),
                                },
                            );
                        },
                    };
                    v.push((g[i].0.clone(), m));
                    i = i + 1;
                }
                proof {
                    assert forall|j: int|
                        0 <= j < g@.len() implies scalar_node((#[trigger] g@[j]).1) by {
                        assert(v@[j].1 == g@[j].1);
                        assert(scalar_node(v@[j].1));
                    }
                }
                Ok(HayakuSettings { global_env: Some(v) })
            },
            Option::Some(_) => Err(
                Error::ConfigParse {
                    path: label.to_owned(),
                    detail: "global_env must be a table".to_owned(),
                },
            ),
        }
    }

    /// Reads the settings from the settings file's text, or yields the
    /// defaults when no file exists: succeeds exactly when there is no
    /// text or the text parses to a well-formed settings document, and
    /// then agrees with that document key by key; a parse failure names
    /// the file.
    pub fn from_text(text: Option<&str>, label: &str) -> (r: Result<HayakuSettings, Error>)
        ensures
            text is None ==> (r matches Ok(s) && s.global_env is None),
            r matches Ok(s) ==> s.wf(),
            (match text {
                Option::Some(t) => {
                    &&& (r is Ok <==> (toml_doc_of(t@) matches Some(n) && settings_node_ok(n)))
                    &&& (r matches Ok(s) ==> (toml_doc_of(t@) matches Some(n)
                        && settings_matches(s, n)))
                },
                Option::None => r is Ok,
            }),
            r matches Err(e) ==> e matches Error::ConfigParse { path, .. } && path@ == label@,
    {
        match text {
            Option::None => Ok(HayakuSettings { global_env: None }),
            Option::Some(t) => {
                match parse_toml_node(t) {
                    Ok(node) => HayakuSettings::from_toml_node(&node, label),
                    Err(detail) => Err(Error::ConfigParse { path: label.to_owned(), detail }),
                }
            },
        }
    }

    /// Rebuilds the settings document the settings serialize to.
    #[verifier::loop_isolation(false)]
    pub fn to_toml_node(&self) -> (r: TomlNode)
        requires
            self.wf(),
        ensures
            settings_node_exact(*self, r),
            settings_node_ok(r),
            settings_matches(*self, r),
    {
        match &self.global_env {
            Option::None => TomlNode::Table(Vec::new()),
            Option::Some(v) => {
                let n = v.len();
                let mut g: Vec<(String, TomlNode)> = Vec::new();
                let mut i: usize = 0;
                while i < n
                    invariant
                        i <= n,
                        n == v@.len(),
                        g@.len() == i,
                        forall|j: int|
                            0 <= j < i ==> (#[trigger] g@[j]).0@ == v@[j].0@ && g@[j].1 == v@[j].1
                                && scalar_node(g@[j].1),
                    decreases n - i,
                {
                    let m = match clone_scalar(&v[i].1) {
                        Option::Some(m) => m,
                        Option::None => {
                            proof {
                                assert(false);
                            }
                            TomlNode::Bool(false)
                        },
                    };
                    g.push((v[i].0.clone(), m));
                    i = i + 1;
                }
                let mut entries: Vec<(String, TomlNode)> = Vec::new();
                entries.push(("global_env".to_owned(), TomlNode::Table(g)));
                let r = TomlNode::Table(entries);
                proof {
                    let t0 = entries@;
                    assert(t0[0].0@ == "global_env"@);
                    assert(table_get(t0, "global_env"@) matches Some(m) && m == t0[0].1);
                }
                r
            },
        }
    }

    /// The settings as key/value strings for the render context: each
    /// scalar serialized to its string form.
    #[verifier::loop_isolation(false)]
    pub fn global_env_values(&self) -> (r: Vec<(String, String)>)
        requires
            self.wf(),
        ensures
            (match self.global_env {
                Option::Some(v) => r@.len() == v@.len() && (forall|i: int|
                    0 <= i < v@.len() ==> (#[trigger] r@[i]).0@ == v@[i].0@ && r@[i].1@
                        == scalar_string(v@[i].1)),
                Option::None => r@.len() == 0,
            }),
    {
        match &self.global_env {
            Option::None => Vec::new(),
            Option::Some(v) => {
                let n = v.len();
                let mut r: Vec<(String, String)> = Vec::new();
                let mut i: usize = 0;
                while i < n
                    invariant
                        i <= n,
                        n == v@.len(),
                        r@.len() == i,
                        forall|j: int|
                            0 <= j < i ==> (#[trigger] r@[j]).0@ == v@[j].0@ && r@[j].1@
                                == scalar_string(v@[j].1),
                    decreases n - i,
                {
                    let value = match &v[i].1 {
                        TomlNode::Str(s) => s.clone(),
                        TomlNode::Int(x) => i64_to_string(*x),
                        TomlNode::Bool(b) => bool_env_value(*b),
                        _ => {
                            proof {
                                assert(false);
                            }
                            String::new()
                        },
                    };
                    r.push((v[i].0.clone(), value));
                    i = i + 1;
                }
                r
            },
        }
    }
}

} // verus!
