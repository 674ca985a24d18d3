//! The render context: the finished mapping from substitution keys to
//! string values, and the trusted call into the tera engine that renders
//! text against it.

use crate::strutil::str_eq;
use vstd::prelude::*;
use vstd::string::*;

verus! {

/// The views of a sequence of string pairs.
pub open spec fn pair_views(s: Seq<(String, String)>) -> Seq<(Seq<char>, Seq<char>)> {
    s.map_values(|p: (String, String)| (p.0@, p.1@))
}

/// The mapping a sequence of insertions denotes: later pairs win.
pub open spec fn pairs_to_map(s: Seq<(Seq<char>, Seq<char>)>) -> Map<Seq<char>, Seq<char>>
    decreases s.len(),
{
    if s.len() == 0 {
        Map::empty()
    } else {
        pairs_to_map(s.drop_last()).insert(s.last().0, s.last().1)
    }
}

/// No two pairs share a key.
pub open spec fn unique_keys(s: Seq<(Seq<char>, Seq<char>)>) -> bool {
    forall|i: int, j: int| 0 <= i < j < s.len() ==> (#[trigger] s[i]).0 != (#[trigger] s[j]).0
}

proof fn lemma_pairs_to_map_contains(s: Seq<(Seq<char>, Seq<char>)>, k: Seq<char>)
    ensures
        pairs_to_map(s).contains_key(k) <==> (exists|i: int| 0 <= i < s.len() && (#[trigger] s[i]).0 == k),
    decreases s.len(),
{
    if s.len() > 0 {
        lemma_pairs_to_map_contains(s.drop_last(), k);
        if s.last().0 == k {
            assert(s[s.len() - 1].0 == k);
        } else if pairs_to_map(s).contains_key(k) {
            let i = choose|i: int| 0 <= i < s.drop_last().len() && (#[trigger] s.drop_last()[i]).0 == k;
            assert(s[i].0 == k);
        } else {
            assert forall|i: int| 0 <= i < s.len() implies (#[trigger] s[i]).0 != k by {
                if i < s.len() - 1 {
                    assert(s.drop_last()[i] == s[i]);
                }
            }
        }
    }
}

proof fn lemma_pairs_to_map_at(s: Seq<(Seq<char>, Seq<char>)>, i: int)
    requires
        unique_keys(s),
        0 <= i < s.len(),
    ensures
        pairs_to_map(s).contains_key(s[i].0),
        pairs_to_map(s)[s[i].0] == s[i].1,
    decreases s.len(),
{
    if i == s.len() - 1 {
    } else {
        assert(unique_keys(s.drop_last())) by {
            assert(forall|x: int, y: int|
                0 <= x < y < s.drop_last().len() ==> (#[trigger] s.drop_last()[x]) == s[x]
                    && (#[trigger] s.drop_last()[y]) == s[y]);
        }
        lemma_pairs_to_map_at(s.drop_last(), i);
        assert(s.drop_last()[i] == s[i]);
        assert(s[i].0 != s.last().0);
    }
}

/// The mapping from substitution key to string value that a generation run
/// renders against.
pub struct RenderContext {
    entries: Vec<(String, String)>,
}

impl RenderContext {
    /// The mapping this context holds.
    pub closed spec fn view(&self) -> Map<Seq<char>, Seq<char>> {
        pairs_to_map(pair_views(self.entries@))
    }

    /// The entries hold each key at most once.
    pub closed spec fn wf(&self) -> bool {
        unique_keys(pair_views(self.entries@))
    }

    /// The empty context.
    pub fn new() -> (r: RenderContext)
        ensures
            r@ == Map::<Seq<char>, Seq<char>>::empty(),
            r.wf(),
    {
        let r = RenderContext { entries: Vec::new() };
        proof {
            assert(pair_views(r.entries@) =~= Seq::<(Seq<char>, Seq<char>)>::empty());
        }
        r
    }

    /// Binds `key` to `value`, replacing any earlier binding of `key`.
    #[verifier::loop_isolation(false)]
    pub fn insert(&mut self, key: &str, value: &str)
        requires
            old(self).wf(),
        ensures
            final(self)@ == old(self)@.insert(key@, value@),
            final(self).wf(),
    {
        let ghost s0 = pair_views(self.entries@);
        let n = self.entries.len();
        let mut i: usize = 0;
        while i < n
            invariant
                i <= n,
                n == self.entries@.len(),
                self.entries@ == old(self).entries@,
                forall|j: int| 0 <= j < i ==> (#[trigger] self.entries@[j]).0@ != key@,
            decreases n - i,
        {
            if str_eq(self.entries[i].0.as_str(), key) {
                let ghost ix = i as int;
                let pair = (key.to_owned(), value.to_owned());
                self.entries[i] = pair;
                proof {
                    let s1 = pair_views(self.entries@);
                    assert(s0[ix].0 == key@);
                    assert(s1 =~~= s0.update(ix, (key@, value@)));
                    lemma_ptm_update(s0, ix, value@);
                    assert(unique_keys(s1)) by {
                        assert(forall|j: int|
                            0 <= j < s1.len() ==> (#[trigger] s1[j]).0 == s0[j].0);
                    }
                }
                return ;
            }
            i = i + 1;
        }
        let pair = (key.to_owned(), value.to_owned());
        self.entries.push(pair);
        proof {
            let s1 = pair_views(self.entries@);
            assert(s1 =~~= s0.push((key@, value@)));
            assert(s1.drop_last() =~= s0);
            assert(unique_keys(s1)) by {
                assert(forall|j: int| 0 <= j < s0.len() ==> (#[trigger] s1[j]) == s0[j]);
                assert(forall|j: int| 0 <= j < s0.len() ==> (#[trigger] s0[j]).0 != key@);
            }
        }
    }

    /// The value bound to `key`, if any.
    #[verifier::loop_isolation(false)]
    pub fn get(&self, key: &str) -> (r: Option<&String>)
        requires
            self.wf(),
        ensures
            (match r {
                Some(v) => self@.contains_key(key@) && v@ == self@[key@],
                None => !self@.contains_key(key@),
            }),
    {
        let ghost s = pair_views(self.entries@);
        let n = self.entries.len();
        let mut i: usize = 0;
        while i < n
            invariant
                i <= n,
                n == self.entries@.len(),
                forall|j: int| 0 <= j < i ==> (#[trigger] self.entries@[j]).0@ != key@,
            decreases n - i,
        {
            if str_eq(self.entries[i].0.as_str(), key) {
                proof {
                    assert(s[i as int].0 == key@);
                    lemma_pairs_to_map_at(s, i as int);
                }
                return Some(&self.entries[i].1);
            }
            i = i + 1;
        }
        proof {
            lemma_pairs_to_map_contains(s, key@);
            assert(forall|j: int| 0 <= j < s.len() ==> (#[trigger] s[j]).0 != key@);
        }
        None
    }

    /// Whether `key` is bound.
    pub fn contains_key(&self, key: &str) -> (r: bool)
        requires
            self.wf(),
        ensures
            r == self@.contains_key(key@),
    {
        match self.get(key) {
            Some(_) => true,
            None => false,
        }
    }
}

proof fn lemma_ptm_update(s: Seq<(Seq<char>, Seq<char>)>, i: int, v: Seq<char>)
    requires
        unique_keys(s),
        0 <= i < s.len(),
    ensures
        pairs_to_map(s.update(i, (s[i].0, v))) =~= pairs_to_map(s).insert(s[i].0, v),
    decreases s.len(),
{
    let u = s.update(i, (s[i].0, v));
    if i == s.len() - 1 {
        assert(u.drop_last() =~= s.drop_last());
        assert(u.last() == (s[i].0, v));
        assert(pairs_to_map(u) == pairs_to_map(s.drop_last()).insert(s[i].0, v));
        assert(pairs_to_map(s.drop_last()).insert(s[i].0, s[i].1).insert(s[i].0, v)
            =~= pairs_to_map(s.drop_last()).insert(s[i].0, v));
    } else {
        let t = s.drop_last();
        assert(unique_keys(t)) by {
            assert(forall|x: int, y: int|
                0 <= x < y < t.len() ==> (#[trigger] t[x]) == s[x] && (#[trigger] t[y]) == s[y]);
        }
        assert(t[i] == s[i]);
        lemma_ptm_update(t, i, v);
        assert(u.drop_last() =~= t.update(i, (s[i].0, v)));
        assert(u.last() == s.last());
        assert(pairs_to_map(u) == pairs_to_map(t.update(i, (s[i].0, v))).insert(
            s.last().0,
            s.last().1,
        ));
        assert(s[i].0 != s.last().0) by {
            assert(s.last() == s[s.len() - 1]);
        }
        assert(pairs_to_map(t).insert(s[i].0, v).insert(s.last().0, s.last().1)
            =~= pairs_to_map(t).insert(s.last().0, s.last().1).insert(s[i].0, v));
    }
}

// ---------------------------------------------------------------------------
// Trusted boundary to the tera engine
// ---------------------------------------------------------------------------

/// What the tera engine renders a text to against a mapping: the output
/// text on success, nothing when the text has a syntax error or an
/// unresolved reference.
pub uninterp spec fn render_of(text: Seq<char>, ctx: Map<Seq<char>, Seq<char>>) -> Option<
    Seq<char>,
>;

/// Relies on tera's Tera::one_off: renders the text against the context,
/// with auto-escaping off. The result depends on the text and the
/// key-to-value mapping alone: the context holds string values in an
/// ordered map, the engine's maps are insertion-ordered (the crate's
/// `preserve_order` feature, which this library turns on, so template-side
/// map literals iterate deterministically), and its built-in functions,
/// filters and tests are pure. A failure carries the engine's diagnostic.
#[verifier::external_body]
pub fn render_text(text: &str, ctx: &RenderContext) -> (r: Result<String, String>)
    ensures
        r is Ok <==> render_of(text@, ctx@) is Some,
        r matches Ok(s) ==> render_of(text@, ctx@) == Some(s@),
{
    let mut c = tera::Context::new();
    for p in ctx.entries.iter() {
        c.insert(p.0.clone(), p.1.as_str());
    }
    match tera::Tera::one_off(text, &c, false) {
        Ok(s) => Ok(s),
        Err(e) => Err(e.to_string()),
    }
}

} // verus!
