//! The user's local template collection alone: discovery of the template
//! directories under the personal template root, indexed by identifier.

use crate::config::TemplateConfig;
use crate::error::Error;
use crate::hayaku_context::{
    contains_name, entry_from_subdir, has_name, listing_ok, load_templates_from_listing,
    subdir_id, subdir_ok, SubdirListing, TemplateEntry, TemplateOrigin,
};
use crate::strutil::str_eq;
use vstd::prelude::*;
use vstd::string::*;

verus! {

/// A located local template: its descriptor and the path of its directory.
#[derive(Debug, PartialEq, Eq)]
pub struct LocalTemplate {
    pub config: TemplateConfig,
    pub path: String,
}

/// The local template's identifier is `id`.
pub open spec fn local_has_name(e: LocalTemplate, id: Seq<char>) -> bool {
    e.config.name@ == id
}

/// Some local template carries the identifier.
pub open spec fn local_contains_name(s: Seq<LocalTemplate>, id: Seq<char>) -> bool {
    exists|i: int| 0 <= i < s.len() && local_has_name(#[trigger] s[i], id)
}

/// No two local templates share an identifier.
pub open spec fn local_unique_names(s: Seq<LocalTemplate>) -> bool {
    forall|i: int, j: int|
        0 <= i < j < s.len() ==> (#[trigger] s[i]).config.name@ != (#[trigger] s[j]).config.name@
}

/// The local collection of one invocation.
#[derive(Debug)]
pub struct LocalTemplates {
    hayaku_dir: String,
    local_template_dir: String,
    templates: Vec<LocalTemplate>,
}

impl LocalTemplates {
    pub closed spec fn hayaku_dir_view(&self) -> Seq<char> {
        self.hayaku_dir@
    }

    pub closed spec fn local_template_dir_view(&self) -> Seq<char> {
        self.local_template_dir@
    }

    /// The discovered templates.
    pub closed spec fn templates_view(&self) -> Seq<LocalTemplate> {
        self.templates@
    }

    /// Identifiers are unique.
    pub open spec fn wf(&self) -> bool {
        local_unique_names(self.templates_view())
    }

    /// Builds the collection from the personal template root's listing.
    /// The template root is `<hayaku_dir>/templates`; each subdirectory's
    /// descriptor comes from its metadata text, or is synthesized from
    /// its name; a later subdirectory wins an identifier collision.
    /// Discovery succeeds exactly when every subdirectory's metadata
    /// parses to a well-formed metadata document.
    #[verifier::loop_isolation(false)]
    pub fn try_new_from_dir(hayaku_dir: &str, subdirs: &Vec<SubdirListing>) -> (r: Result<
        LocalTemplates,
        Error,
    >)
        ensures
            (r matches Ok(lt) ==> {
                &&& lt.wf()
                &&& lt.hayaku_dir_view() == hayaku_dir@
                &&& lt.local_template_dir_view() == hayaku_dir@ + "/templates"@
                &&& lt.templates_view().len() <= subdirs@.len()
                &&& (subdirs@.len() > 0 ==> lt.templates_view().len() > 0)
                &&& forall|j: int|
                    0 <= j < subdirs@.len() ==> local_contains_name(
                        lt.templates_view(),
                        subdir_id(#[trigger] subdirs@[j]),
                    )
                &&& forall|i: int|
                    0 <= i < lt.templates_view().len() ==> exists|j: int|
                        0 <= j < subdirs@.len() && entry_from_subdir(
                            TemplateEntry {
                                config: (#[trigger] lt.templates_view()[i]).config,
                                path: lt.templates_view()[i].path,
                                origin: TemplateOrigin::Local,
                            },
                            lt.local_template_dir_view(),
                            subdirs@[j],
                        )
            }),
            r is Ok <==> (forall|j: int|
                0 <= j < subdirs@.len() ==> subdir_ok(#[trigger] subdirs@[j])),
            (r matches Err(e) ==> e matches Error::ConfigParse { .. }),
    {
        let mut local_template_dir = hayaku_dir.to_owned();
        local_template_dir.append("/templates");
        let mut entries = match load_templates_from_listing(
            local_template_dir.as_str(),
            subdirs,
            TemplateOrigin::Local,
        ) {
            Ok(v) => v,
            Err(e) => {
                return Err(e);
            },
        };
        let ghost orig = entries@;
        let mut templates: Vec<LocalTemplate> = Vec::new();
        proof {
            assert(entries@ =~= orig.skip(0));
        }
        while entries.len() > 0
            invariant
                templates@.len() + entries@.len() == orig.len(),
                entries@ == orig.skip(templates@.len() as int),
                forall|j: int|
                    0 <= j < templates@.len() ==> (#[trigger] templates@[j]).config
                        == orig[j].config && templates@[j].path == orig[j].path,
            decreases entries@.len(),
        {
            let ghost k = templates@.len() as int;
            let e = entries.remove(0);
            proof {
                assert(e == orig.skip(k)[0]);
                assert(e == orig[k]);
                assert(orig.skip(k).remove(0) =~= orig.skip(k + 1));
            }
            templates.push(LocalTemplate { config: e.config, path: e.path });
        }
        proof {
            assert(templates@.len() == orig.len());
            assert(local_unique_names(templates@)) by {
                assert(forall|x: int, y: int|
                    0 <= x < y < templates@.len() ==> (#[trigger] templates@[x]).config.name@
                        == orig[x].config.name@ && (#[trigger] templates@[y]).config.name@
                        == orig[y].config.name@);
            }
        }
        let r = LocalTemplates { hayaku_dir: hayaku_dir.to_owned(), local_template_dir, templates };
        proof {
            assert forall|j: int|
                0 <= j < subdirs@.len() implies local_contains_name(
                r.templates_view(),
                subdir_id(#[trigger] subdirs@[j]),
            ) by {
                assert(contains_name(orig, subdir_id(subdirs@[j])));
                let w = choose|w: int|
                    0 <= w < orig.len() && has_name(orig[w], subdir_id(subdirs@[j]));
                assert(local_has_name(r.templates_view()[w], subdir_id(subdirs@[j])));
            }
            assert forall|i: int|
                0 <= i < r.templates_view().len() implies exists|j: int|
                0 <= j < subdirs@.len() && entry_from_subdir(
                    TemplateEntry {
                        config: (#[trigger] r.templates_view()[i]).config,
                        path: r.templates_view()[i].path,
                        origin: TemplateOrigin::Local,
                    },
                    r.local_template_dir_view(),
                    subdirs@[j],
                ) by {
                let w = choose|w: int|
                    0 <= w < subdirs@.len() && entry_from_subdir(
                        orig[i],
                        r.local_template_dir_view(),
                        subdirs@[w],
                    );
                assert(entry_from_subdir(
                    TemplateEntry {
                        config: r.templates_view()[i].config,
                        path: r.templates_view()[i].path,
                        origin: TemplateOrigin::Local,
                    },
                    r.local_template_dir_view(),
                    subdirs@[w],
                ));
            }
        }
        Ok(r)
    }

    /// The collection's root directory.
    pub fn hayaku_dir(&self) -> (r: &str)
        ensures
            r@ == self.hayaku_dir_view(),
    {
        self.hayaku_dir.as_str()
    }

    /// Where the local templates live.
    pub fn local_template_dir(&self) -> (r: &str)
        ensures
            r@ == self.local_template_dir_view(),
    {
        self.local_template_dir.as_str()
    }

    /// The discovered templates.
    pub fn templates(&self) -> (r: &Vec<LocalTemplate>)
        ensures
            r@ == self.templates_view(),
    {
        &self.templates
    }

    /// Looks an identifier up.
    #[verifier::loop_isolation(false)]
    pub fn get(&self, id: &str) -> (r: Option<&LocalTemplate>)
        ensures
            (match r {
                Some(e) => local_has_name(*e, id@) && self.templates_view().contains(*e),
                None => !local_contains_name(self.templates_view(), id@),
            }),
    {
        let n = self.templates.len();
        let mut i: usize = 0;
        while i < n
            invariant
                i <= n,
                n == self.templates_view().len(),
                forall|j: int| 0 <= j < i ==> !local_has_name(#[trigger] self.templates_view()[j], id@),
            decreases n - i,
        {
            if str_eq(self.templates[i].config.name.as_str(), id) {
                proof {
                    assert(local_has_name(self.templates_view()[i as int], id@));
                }
                return Some(&self.templates[i]);
            }
            i = i + 1;
        }
        proof {
            if local_contains_name(self.templates_view(), id@) {
                let w = choose|w: int|
                    0 <= w < self.templates_view().len() && local_has_name(
                        self.templates_view()[w],
                        id@,
                    );
                assert(!local_has_name(self.templates_view()[w], id@));
            }
        }
        None
    }

    /// No local template exists.
    pub fn is_empty(&self) -> (r: bool)
        ensures
            r == (self.templates_view().len() == 0),
    {
        self.templates.len() == 0
    }
}

} // verus!
