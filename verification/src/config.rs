//! The typed descriptor of one template: its metadata fields and declared
//! variables, and the extraction of that descriptor from a parsed metadata
//! document.

use crate::error::Error;
use crate::strutil::str_eq;
use crate::toml_data::{node_table_get, parse_toml_node, table_get, toml_doc_of, TomlNode};
use vstd::prelude::*;
use vstd::string::*;

verus! {

/// How one declared variable obtains its value.
#[derive(Clone, Debug, PartialEq, Eq)]
pub enum EnvVarConfig {
    /// A free-text value; empty values are rejected.
    StringVar { prompt: String, default: Option<String> },
    /// One value out of a non-empty list of choices.
    ChoiceVar { prompt: String, choices: Vec<String>, default: Option<String> },
    /// A yes/no value, serialized as `true`/`false`.
    BoolVar { prompt: String, default: bool },
}

/// One declared variable: its raw key and its specification.
#[derive(Clone, Debug, PartialEq, Eq)]
pub struct EnvEntry {
    pub key: String,
    pub var: EnvVarConfig,
}

/// The `template` section of a metadata file.
#[derive(Clone, Debug, PartialEq, Eq)]
pub struct TemplateSection {
    pub name: String,
    pub display_name: Option<String>,
    pub description: Option<String>,
    pub author: Option<String>,
}

/// The whole metadata file: the `template` section and the `env` table.
#[derive(Clone, Debug, PartialEq, Eq)]
pub struct ConfigToml {
    pub template: TemplateSection,
    pub env: Vec<EnvEntry>,
}

/// The descriptor of one template.
#[derive(Clone, Debug, PartialEq, Eq)]
pub struct TemplateConfig {
    pub name: String,
    pub display_name: Option<String>,
    pub description: Option<String>,
    pub author: Option<String>,
    pub env: Vec<EnvEntry>,
}

impl TemplateConfig {
    /// The descriptor synthesized for a directory without a metadata file:
    /// the directory's name, no display fields, no variables.
    pub fn default(dir: &str) -> (r: Self)
        ensures
            r.name@ == dir@,
            r.display_name is None,
            r.description is None,
            r.author is None,
            r.env@.len() == 0,
    {
        TemplateConfig {
            name: dir.to_owned(),
            display_name: None,
            description: None,
            author: None,
            env: Vec::new(),
        }
    }

    /// Flattens the two-section file shape into the descriptor.
    pub fn from_config_toml(c: ConfigToml) -> (r: Self)
        ensures
            r == (TemplateConfig {
                name: c.template.name,
                display_name: c.template.display_name,
                description: c.template.description,
                author: c.template.author,
                env: c.env,
            }),
    {
        TemplateConfig {
            name: c.template.name,
            display_name: c.template.display_name,
            description: c.template.description,
            author: c.template.author,
            env: c.env,
        }
    }
}

// ---------------------------------------------------------------------------
// Shape of a metadata document
// ---------------------------------------------------------------------------

/// The field under `key`, if present, is a string.
pub open spec fn opt_str_field(t: Seq<(String, TomlNode)>, key: Seq<char>) -> bool {
    match table_get(t, key) {
        Option::None => true,
        Option::Some(n) => n is Str,
    }
}

/// The string under `key`, when the field is present.
pub open spec fn opt_str_value(t: Seq<(String, TomlNode)>, key: Seq<char>) -> Option<Seq<char>> {
    match table_get(t, key) {
        Option::Some(TomlNode::Str(s)) => Some(s@),
        _ => None,
    }
}

/// An optional string field of the descriptor agrees with the table.
pub open spec fn opt_field_matches(v: Option<String>, t: Seq<(String, TomlNode)>, key: Seq<char>) -> bool {
    match (v, opt_str_value(t, key)) {
        (Option::Some(s), Option::Some(q)) => s@ == q,
        (Option::None, Option::None) => true,
        _ => false,
    }
}

/// The declared type tag of a variable record.
pub open spec fn var_type(t: Seq<(String, TomlNode)>) -> Seq<char> {
    match table_get(t, "type"@) {
        Option::Some(TomlNode::Str(s)) => s@,
        _ => Seq::empty(),
    }
}

/// The record has a string `prompt` field.
pub open spec fn prompt_ok(t: Seq<(String, TomlNode)>) -> bool {
    table_get(t, "prompt"@) matches Some(TomlNode::Str(_))
}

/// The record's `default` field, if present, is a boolean.
pub open spec fn default_bool_ok(t: Seq<(String, TomlNode)>) -> bool {
    match table_get(t, "default"@) {
        Option::None => true,
        Option::Some(n) => n is Bool,
    }
}

/// The record's `choices` field is a non-empty array of strings.
pub open spec fn choices_ok(t: Seq<(String, TomlNode)>) -> bool {
    match table_get(t, "choices"@) {
        Option::Some(TomlNode::Arr(a)) => a@.len() > 0 && (forall|i: int|
            0 <= i < a@.len() ==> (#[trigger] a@[i]) is Str),
        _ => false,
    }
}

/// A well-formed variable record: a table with a known `type` tag and the
/// fields that tag requires.
pub open spec fn var_node_ok(n: TomlNode) -> bool {
    match n {
        TomlNode::Table(vt) => {
            let t = vt@;
            &&& table_get(t, "type"@) matches Some(TomlNode::Str(_))
            &&& {
                ||| (var_type(t) == "string"@ && prompt_ok(t) && opt_str_field(t, "default"@))
                ||| (var_type(t) == "choices"@ && prompt_ok(t) && choices_ok(t) && opt_str_field(
                    t,
                    "default"@,
                ))
                ||| (var_type(t) == "bool"@ && prompt_ok(t) && default_bool_ok(t))
            }
        },
        _ => false,
    }
}

/// The parsed variable specification agrees with its record.
pub open spec fn var_matches_node(v: EnvVarConfig, n: TomlNode) -> bool {
    match n {
        TomlNode::Table(vt) => {
            let t = vt@;
            if var_type(t) == "string"@ {
                v matches EnvVarConfig::StringVar { prompt, default } && Some(prompt@)
                    == opt_str_value(t, "prompt"@) && opt_field_matches(default, t, "default"@)
            } else if var_type(t) == "choices"@ {
                v matches EnvVarConfig::ChoiceVar { prompt, choices, default } && Some(prompt@)
                    == opt_str_value(t, "prompt"@) && opt_field_matches(default, t, "default"@)
                    && (match table_get(t, "choices"@) {
                    Option::Some(TomlNode::Arr(a)) => choices@.len() == a@.len() && (forall|i: int|
                        0 <= i < a@.len() ==> ((#[trigger] a@[i]) matches TomlNode::Str(s)
                            && choices@[i]@ == s@)),
                    _ => false,
                })
            } else if var_type(t) == "bool"@ {
                v matches EnvVarConfig::BoolVar { prompt, default } && Some(prompt@)
                    == opt_str_value(t, "prompt"@) && (match table_get(t, "default"@) {
                    Option::None => default == false,
                    Option::Some(TomlNode::Bool(b)) => default == b,
                    _ => false,
                })
            } else {
                false
            }
        },
        _ => false,
    }
}

/// The declared identifier of a metadata document: the `name` string of
/// its `template` table.
pub open spec fn doc_name(n: TomlNode) -> Seq<char> {
    match n {
        TomlNode::Table(t0) => match table_get(t0@, "template"@) {
            Option::Some(TomlNode::Table(ts)) => match opt_str_value(ts@, "name"@) {
                Option::Some(q) => q,
                Option::None => Seq::empty(),
            },
            _ => Seq::empty(),
        },
        _ => Seq::empty(),
    }
}

/// A descriptor extracted from a document carries the document's declared
/// identifier.
pub proof fn lemma_desc_name(cfg: TemplateConfig, n: TomlNode)
    requires
        desc_matches(cfg, n),
    ensures
        cfg.name@ == doc_name(n),
{
}

/// A well-formed metadata document: a `template` table with a string
/// `name`, optional string display fields, and an optional `env` table of
/// well-formed variable records.
pub open spec fn desc_node_ok(n: TomlNode) -> bool {
    match n {
        TomlNode::Table(t0) => {
            &&& (match table_get(t0@, "template"@) {
                Option::Some(TomlNode::Table(ts)) => {
                    &&& table_get(ts@, "name"@) matches Some(TomlNode::Str(_))
                    &&& opt_str_field(ts@, "display_name"@)
                    &&& opt_str_field(ts@, "description"@)
                    &&& opt_str_field(ts@, "author"@)
                },
                _ => false,
            })
            &&& (match table_get(t0@, "env"@) {
                Option::None => true,
                Option::Some(TomlNode::Table(g)) => forall|i: int|
                    0 <= i < g@.len() ==> var_node_ok(#[trigger] g@[i].1),
                Option::Some(_) => false,
            })
        },
        _ => false,
    }
}

/// The extracted descriptor agrees with the document, field by field and
/// variable by variable, in table order.
pub open spec fn desc_matches(cfg: TemplateConfig, n: TomlNode) -> bool {
    match n {
        TomlNode::Table(t0) => {
            &&& (match table_get(t0@, "template"@) {
                Option::Some(TomlNode::Table(ts)) => {
                    &&& Some(cfg.name@) == opt_str_value(ts@, "name"@)
                    &&& opt_field_matches(cfg.display_name, ts@, "display_name"@)
                    &&& opt_field_matches(cfg.description, ts@, "description"@)
                    &&& opt_field_matches(cfg.author, ts@, "author"@)
                },
                _ => false,
            })
            &&& (match table_get(t0@, "env"@) {
                Option::None => cfg.env@.len() == 0,
                Option::Some(TomlNode::Table(g)) => {
                    &&& cfg.env@.len() == g@.len()
                    &&& (forall|i: int|
                        0 <= i < g@.len() ==> (#[trigger] cfg.env@[i]).key@ == g@[i].0@
                            && var_matches_node(cfg.env@[i].var, g@[i].1))
                },
                Option::Some(_) => false,
            })
        },
        _ => false,
    }
}

// ---------------------------------------------------------------------------
// Extraction
// ---------------------------------------------------------------------------

/// A parse failure naming the metadata file.
fn config_parse_error(label: &str, what: &str) -> (e: Error)
    ensures
        e matches Error::ConfigParse { path, .. } && path@ == label@,
{
    Error::ConfigParse { path: label.to_owned(), detail: what.to_owned() }
}

/// Reads an optional string field out of a table.
fn opt_str_get(t: &Vec<(String, TomlNode)>, key: &str, label: &str) -> (r: Result<
    Option<String>,
    Error,
>)
    ensures
        r is Ok <==> opt_str_field(t@, key@),
        r matches Ok(v) ==> opt_field_matches(v, t@, key@),
        r matches Err(e) ==> e matches Error::ConfigParse { path, .. } && path@ == label@,
{
    match node_table_get(t, key) {
        Option::None => Ok(None),
        Option::Some(TomlNode::Str(s)) => Ok(Some(s.clone())),
        Option::Some(_) => Err(config_parse_error(label, "field must be a string")),
    }
}

/// The three type tags are pairwise distinct strings.
proof fn lemma_type_tags_distinct()
    ensures
        "string"@ != "choices"@,
        "string"@ != "bool"@,
        "choices"@ != "bool"@,
{
    reveal_strlit("string");
    reveal_strlit("choices");
    reveal_strlit("bool");
    assert("string"@.len() == 6);
    assert("choices"@.len() == 7);
    assert("bool"@.len() == 4);
}

/// Parses one variable record.
#[verifier::loop_isolation(false)]
fn parse_var_node(n: &TomlNode, label: &str) -> (r: Result<EnvVarConfig, Error>)
    ensures
        r is Ok <==> var_node_ok(*n),
        r matches Ok(v) ==> var_matches_node(v, *n),
        r matches Err(e) ==> e matches Error::ConfigParse { path, .. } && path@ == label@,
{
    proof {
        lemma_type_tags_distinct();
    }
    let vt = match n {
        TomlNode::Table(vt) => vt,
        _ => {
            return Err(config_parse_error(label, "variable record must be a table"));
        },
    };
    let ty = match node_table_get(vt, "type") {
        Option::Some(TomlNode::Str(s)) => s,
        _ => {
            return Err(config_parse_error(label, "variable record needs a string `type`"));
        },
    };
    let prompt = match node_table_get(vt, "prompt") {
        Option::Some(TomlNode::Str(s)) => s.clone(),
        _ => {
            return Err(config_parse_error(label, "variable record needs a string `prompt`"));
        },
    };
    if str_eq(ty.as_str(), "string") {
        let default = match node_table_get(vt, "default") {
            Option::None => None,
            Option::Some(TomlNode::Str(s)) => Some(s.clone()),
            Option::Some(_) => {
                return Err(config_parse_error(label, "`default` must be a string"));
            },
        };
        Ok(EnvVarConfig::StringVar { prompt, default })
    } else if str_eq(ty.as_str(), "choices") {
        let arr = match node_table_get(vt, "choices") {
            Option::Some(TomlNode::Arr(a)) => a,
            _ => {
                return Err(config_parse_error(label, "`choices` must be an array"));
            },
        };
        if arr.len() == 0 {
            return Err(config_parse_error(label, "`choices` must not be empty"));
        }
        let mut choices: Vec<String> = Vec::new();
        let m = arr.len();
        let mut i: usize = 0;
        while i < m
            invariant
                i <= m,
                m == arr@.len(),
                choices@.len() == i,
                forall|j: int|
                    0 <= j < i ==> ((#[trigger] arr@[j]) matches TomlNode::Str(s)
                        && choices@[j]@ == s@),
            decreases m - i,
        {
            match &arr[i] {
                TomlNode::Str(s) => {
                    choices.push(s.clone());
                },
                _ => {
                    return Err(config_parse_error(label, "`choices` must hold strings"));
                },
            }
            i = i + 1;
        }
        let default = match node_table_get(vt, "default") {
            Option::None => None,
            Option::Some(TomlNode::Str(s)) => Some(s.clone()),
            Option::Some(_) => {
                return Err(config_parse_error(label, "`default` must be a string"));
            },
        };
        Ok(EnvVarConfig::ChoiceVar { prompt, choices, default })
    } else if str_eq(ty.as_str(), "bool") {
        let default = match node_table_get(vt, "default") {
            Option::None => false,
            Option::Some(TomlNode::Bool(b)) => *b,
            Option::Some(_) => {
                return Err(config_parse_error(label, "`default` must be a boolean"));
            },
        };
        Ok(EnvVarConfig::BoolVar { prompt, default })
    } else {
        Err(config_parse_error(label, "`type` must be `string`, `choices` or `bool`"))
    }
}

impl TemplateConfig {
    /// Extracts the descriptor from a parsed metadata document. Succeeds
    /// exactly on well-formed documents, and then agrees with the document
    /// field by field.
    #[verifier::loop_isolation(false)]
    pub fn from_toml_node(node: &TomlNode, label: &str) -> (r: Result<TemplateConfig, Error>)
        ensures
            r is Ok <==> desc_node_ok(*node),
            r matches Ok(cfg) ==> desc_matches(cfg, *node),
            r matches Err(e) ==> e matches Error::ConfigParse { path, .. } && path@ == label@,
    {
        let t0 = match node {
            TomlNode::Table(t) => t,
            _ => {
                return Err(config_parse_error(label, "metadata must be a table"));
            },
        };
        let ts = match node_table_get(t0, "template") {
            Option::Some(TomlNode::Table(ts)) => ts,
            _ => {
                return Err(config_parse_error(label, "metadata needs a `template` table"));
            },
        };
        let name = match node_table_get(ts, "name") {
            Option::Some(TomlNode::Str(s)) => s.clone(),
            _ => {
                return Err(config_parse_error(label, "`template` needs a string `name`"));
            },
        };
        let display_name = opt_str_get(ts, "display_name", label)?;
        let description = opt_str_get(ts, "description", label)?;
        let author = opt_str_get(ts, "author", label)?;
        let env = match node_table_get(t0, "env") {
            Option::None => Vec::new(),
            Option::Some(TomlNode::Table(g)) => {
                let mut env: Vec<EnvEntry> = Vec::new();
                let m = g.len();
                let mut i: usize = 0;
                while i < m
                    invariant
                        i <= m,
                        m == g@.len(),
                        env@.len() == i,
                        forall|j: int| 0 <= j < i ==> var_node_ok(#[trigger] g@[j].1),
                        forall|j: int|
                            0 <= j < i ==> (#[trigger] env@[j]).key@ == g@[j].0@
                                && var_matches_node(env@[j].var, g@[j].1),
                    decreases m - i,
                {
                    let var = match parse_var_node(&g[i].1, label) {
                        Ok(v) => v,
                        Err(e) => {
                            proof {
                                assert(!var_node_ok(g@[i as int].1));
                            }
                            return Err(e);
                        },
                    };
                    env.push(EnvEntry { key: g[i].0.clone(), var });
                    i = i + 1;
                }
                env
            },
            Option::Some(_) => {
                return Err(config_parse_error(label, "`env` must be a table"));
            },
        };
        Ok(TemplateConfig { name, display_name, description, author, env })
    }

    /// Parses metadata text and extracts the descriptor: succeeds exactly
    /// when the text parses as TOML and the document is a well-formed
    /// metadata document, and then agrees with that document field by
    /// field; a failure is a parse error naming the file.
    pub fn from_metadata_text(text: &str, label: &str) -> (r: Result<TemplateConfig, Error>)
        ensures
            r is Ok <==> (toml_doc_of(text@) matches Some(n) && desc_node_ok(n)),
            r matches Ok(cfg) ==> (toml_doc_of(text@) matches Some(n) && desc_matches(cfg, n)),
            r matches Err(e) ==> e matches Error::ConfigParse { path, .. } && path@ == label@,
    {
        match parse_toml_node(text) {
            Ok(node) => TemplateConfig::from_toml_node(&node, label),
            Err(detail) => Err(Error::ConfigParse { path: label.to_owned(), detail }),
        }
    }

    /// The descriptor for one catalog subdirectory: parsed from its
    /// metadata text when one exists, synthesized from the directory name
    /// otherwise.
    pub fn from_dir_listing(dir_name: &str, metadata_text: Option<&str>, label: &str) -> (r:
        Result<TemplateConfig, Error>)
        ensures
            metadata_text is None ==> (r matches Ok(cfg) && cfg.name@ == dir_name@
                && cfg.display_name is None && cfg.description is None && cfg.author is None
                && cfg.env@.len() == 0),
            (match metadata_text {
                Option::Some(text) => {
                    &&& (r is Ok <==> (toml_doc_of(text@) matches Some(n) && desc_node_ok(n)))
                    &&& (r matches Ok(cfg) ==> (toml_doc_of(text@) matches Some(n)
                        && desc_matches(cfg, n)))
                },
                Option::None => r is Ok,
            }),
            r matches Err(e) ==> e matches Error::ConfigParse { path, .. } && path@ == label@,
    {
        match metadata_text {
            Option::None => Ok(TemplateConfig::default(dir_name)),
            Option::Some(text) => TemplateConfig::from_metadata_text(text, label),
        }
    }
}

} // verus!
