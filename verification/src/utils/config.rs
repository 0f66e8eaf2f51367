//! Configuration loading.
//!
//! The configuration is a line-oriented key/value text with two recognized
//! groups, `[models]` (keys `embedding_model`, `rag_model`) and
//! `[documents]` (keys `documents_dir`, `pdf1`, `pdf2`).  The grammar the
//! library accepts is deliberately small and fully specified here:
//!
//! - lines are separated by `'\n'`; leading and trailing whitespace
//!   (spaces, tabs, carriage returns) around a line is ignored;
//! - blank lines and lines starting with `#` are ignored;
//! - `[name]` switches the current group; groups other than the two
//!   recognized ones are read but their keys are ignored;
//! - `key = "value"` assigns a key of the current group; the value is a
//!   quoted string without escape sequences; keys not recognized in the
//!   current group are ignored;
//! - assigning a recognized key twice, an empty value for a recognized
//!   key, or any line that fits none of these forms is malformed;
//! - all five recognized keys must be assigned, each with a non-empty
//!   value.
//!
//! Reading the file itself is the caller's task: `parse_config` works on
//! the text.

use vstd::prelude::*;

use crate::text::find_at;
use crate::text::find_char;
use crate::text::str_eq;
use crate::text::str_trim;
use crate::text::trimmed;

verus! {

/// Model names for the two providers.
#[derive(Debug, Clone)]
pub struct Models {
    pub embedding_model: String,
    pub rag_model: String,
}

/// Location of the documents to ingest.
#[derive(Debug, Clone)]
pub struct Documents {
    pub documents_dir: String,
    pub pdf1: String,
    pub pdf2: String,
}

/// The whole configuration.  Invariant (established by `parse_config`):
/// every field is non-empty.
#[derive(Debug, Clone)]
pub struct Config {
    pub models: Models,
    pub documents: Documents,
}

/// Why a configuration could not be loaded.
#[derive(Debug, Clone, Copy, PartialEq, Eq, Structural)]
pub enum ConfigError {
    /// The configuration file does not exist (reported by the caller that
    /// reads the file).
    NotFound,
    /// A line fits no form of the grammar, a recognized key is assigned
    /// twice, or a recognized key has an empty value.
    Malformed,
    /// A recognized key is never assigned.
    MissingField,
}

/// The group a line belongs to while parsing.
#[derive(Debug, Clone, Copy, PartialEq, Eq, Structural)]
pub enum Group {
    Start,
    InModels,
    InDocuments,
    InOther,
}

/// What has been collected for the five recognized keys.
#[verifier::ext_equal]
pub struct FieldsV {
    pub embedding_model: Option<Seq<char>>,
    pub rag_model: Option<Seq<char>>,
    pub documents_dir: Option<Seq<char>>,
    pub pdf1: Option<Seq<char>>,
    pub pdf2: Option<Seq<char>>,
}

/// Parser state: the current group and the keys collected so far.
#[verifier::ext_equal]
pub struct StateV {
    pub group: Group,
    pub fields: FieldsV,
}

/// The form of one (already trimmed) line.
pub enum LineKind {
    Blank,
    Header(Seq<char>),
    KeyVal(Seq<char>, Seq<char>),
    Bad,
}

pub open spec fn is_key_char(c: char) -> bool {
    let u = c as u32;
    (97 <= u && u <= 122) || (65 <= u && u <= 90) || (48 <= u && u <= 57) || c == '_' || c == '-'
}

pub open spec fn key_chars(s: Seq<char>) -> bool {
    forall|i: int| 0 <= i < s.len() ==> is_key_char(s[i])
}

/// Characters allowed inside a quoted value: anything but a quote or a
/// backslash (the grammar has no escape sequences).
pub open spec fn is_value_char(c: char) -> bool {
    c != '"' && c != '\\'
}

pub open spec fn value_chars(s: Seq<char>) -> bool {
    forall|i: int| 0 <= i < s.len() ==> is_value_char(s[i])
}

/// Classification of one raw line of the configuration text.
pub open spec fn classify(l: Seq<char>) -> LineKind {
    let t = trimmed(l);
    if t.len() == 0 {
        LineKind::Blank
    } else if t[0] == '#' {
        LineKind::Blank
    } else if t[0] == '[' {
        if t.len() >= 2 && t[t.len() - 1] == ']' {
            let name = trimmed(t.subrange(1, t.len() - 1));
            if name.len() > 0 && key_chars(name) {
                LineKind::Header(name)
            } else {
                LineKind::Bad
            }
        } else {
            LineKind::Bad
        }
    } else {
        let e = find_at(t, '=', 0);
        if e == t.len() {
            LineKind::Bad
        } else {
            let k = trimmed(t.subrange(0, e));
            let v = trimmed(t.subrange(e + 1, t.len() as int));
            if k.len() > 0 && key_chars(k) && v.len() >= 2 && v[0] == '"' && v[v.len() - 1]
                == '"' && value_chars(v.subrange(1, v.len() - 1)) {
                LineKind::KeyVal(k, v.subrange(1, v.len() - 1))
            } else {
                LineKind::Bad
            }
        }
    }
}

pub open spec fn group_of(name: Seq<char>) -> Group {
    if name == "models"@ {
        Group::InModels
    } else if name == "documents"@ {
        Group::InDocuments
    } else {
        Group::InOther
    }
}

/// Effect of assigning `k = v` while in the state `st`.
pub open spec fn assign(st: StateV, k: Seq<char>, v: Seq<char>) -> Result<StateV, ConfigError> {
    match st.group {
        Group::InModels => {
            if k == "embedding_model"@ {
                if st.fields.embedding_model is Some || v.len() == 0 {
                    Err(ConfigError::Malformed)
                } else {
                    Ok(StateV { fields: FieldsV { embedding_model: Some(v), ..st.fields }, ..st })
                }
            } else if k == "rag_model"@ {
                if st.fields.rag_model is Some || v.len() == 0 {
                    Err(ConfigError::Malformed)
                } else {
                    Ok(StateV { fields: FieldsV { rag_model: Some(v), ..st.fields }, ..st })
                }
            } else {
                Ok(st)
            }
        },
        Group::InDocuments => {
            if k == "documents_dir"@ {
                if st.fields.documents_dir is Some || v.len() == 0 {
                    Err(ConfigError::Malformed)
                } else {
                    Ok(StateV { fields: FieldsV { documents_dir: Some(v), ..st.fields }, ..st })
                }
            } else if k == "pdf1"@ {
                if st.fields.pdf1 is Some || v.len() == 0 {
                    Err(ConfigError::Malformed)
                } else {
                    Ok(StateV { fields: FieldsV { pdf1: Some(v), ..st.fields }, ..st })
                }
            } else if k == "pdf2"@ {
                if st.fields.pdf2 is Some || v.len() == 0 {
                    Err(ConfigError::Malformed)
                } else {
                    Ok(StateV { fields: FieldsV { pdf2: Some(v), ..st.fields }, ..st })
                }
            } else {
                Ok(st)
            }
        },
        _ => Ok(st),
    }
}

/// Effect of one raw line on the parser state.
pub open spec fn step_line(st: StateV, l: Seq<char>) -> Result<StateV, ConfigError> {
    match classify(l) {
        LineKind::Blank => Ok(st),
        LineKind::Bad => Err(ConfigError::Malformed),
        LineKind::Header(name) => Ok(StateV { group: group_of(name), ..st }),
        LineKind::KeyVal(k, v) => assign(st, k, v),
    }
}

pub open spec fn init_state() -> StateV {
    StateV {
        group: Group::Start,
        fields: FieldsV {
            embedding_model: None,
            rag_model: None,
            documents_dir: None,
            pdf1: None,
            pdf2: None,
        },
    }
}

/// Running the parser over the lines of `s` from position `i` on, starting
/// in state `st`.  Lines are maximal `'\n'`-free runs.
pub open spec fn run_from(s: Seq<char>, i: int, st: StateV) -> Result<StateV, ConfigError>
    decreases s.len() - i
    via run_from_decreases
{
    let j = find_at(s, '\n', i);
    match step_line(st, s.subrange(i, j)) {
        Err(e) => Err(e),
        Ok(st2) => if j >= s.len() {
            Ok(st2)
        } else {
            run_from(s, j + 1, st2)
        },
    }
}

#[via_fn]
proof fn run_from_decreases(s: Seq<char>, i: int, st: StateV) {
    if 0 <= i <= s.len() {
        crate::text::lemma_find_at_bounds(s, '\n', i);
    }
}

pub open spec fn complete(f: FieldsV) -> bool {
    f.embedding_model is Some && f.rag_model is Some && f.documents_dir is Some && f.pdf1 is Some
        && f.pdf2 is Some
}

/// What parsing the whole text yields: the five collected keys, or the
/// first error.
pub open spec fn spec_parse(s: Seq<char>) -> Result<FieldsV, ConfigError> {
    match run_from(s, 0, init_state()) {
        Err(e) => Err(e),
        Ok(st) => if complete(st.fields) {
            Ok(st.fields)
        } else {
            Err(ConfigError::MissingField)
        },
    }
}

/// Every collected value is non-empty.
pub open spec fn fields_nonempty(f: FieldsV) -> bool {
    &&& match f.embedding_model {
        Some(v) => v.len() > 0,
        None => true,
    }
    &&& match f.rag_model {
        Some(v) => v.len() > 0,
        None => true,
    }
    &&& match f.documents_dir {
        Some(v) => v.len() > 0,
        None => true,
    }
    &&& match f.pdf1 {
        Some(v) => v.len() > 0,
        None => true,
    }
    &&& match f.pdf2 {
        Some(v) => v.len() > 0,
        None => true,
    }
}

proof fn lemma_step_nonempty(st: StateV, l: Seq<char>)
    requires
        fields_nonempty(st.fields),
    ensures
        match step_line(st, l) {
            Ok(st2) => fields_nonempty(st2.fields),
            Err(_) => true,
        },
{
}

struct ParserState {
    group: Group,
    embedding_model: Option<String>,
    rag_model: Option<String>,
    documents_dir: Option<String>,
    pdf1: Option<String>,
    pdf2: Option<String>,
}

pub open spec fn opt_seq(o: Option<String>) -> Option<Seq<char>> {
    match o {
        Some(s) => Some(s@),
        None => None,
    }
}

impl View for ParserState {
    type V = StateV;

    closed spec fn view(&self) -> StateV {
        StateV {
            group: self.group,
            fields: FieldsV {
                embedding_model: opt_seq(self.embedding_model),
                rag_model: opt_seq(self.rag_model),
                documents_dir: opt_seq(self.documents_dir),
                pdf1: opt_seq(self.pdf1),
                pdf2: opt_seq(self.pdf2),
            },
        }
    }
}

fn is_key_char_exec(c: char) -> (r: bool)
    ensures
        r == is_key_char(c),
{
    let u = c as u32;
    (97 <= u && u <= 122) || (65 <= u && u <= 90) || (48 <= u && u <= 57) || c == '_' || c == '-'
}

fn all_key_chars(s: &str) -> (r: bool)
    ensures
        r == key_chars(s@),
{
    let n = s.unicode_len();
    let mut i: usize = 0;
    while i < n
        invariant
            n == s@.len(),
            0 <= i <= n,
            forall|j: int| 0 <= j < i ==> is_key_char(s@[j]),
        decreases n - i,
    {
        if !is_key_char_exec(s.get_char(i)) {
            return false;
        }
        i = i + 1;
    }
    true
}

fn all_value_chars(s: &str) -> (r: bool)
    ensures
        r == value_chars(s@),
{
    let n = s.unicode_len();
    let mut i: usize = 0;
    while i < n
        invariant
            n == s@.len(),
            0 <= i <= n,
            forall|j: int| 0 <= j < i ==> is_value_char(s@[j]),
        decreases n - i,
    {
        let c = s.get_char(i);
        if c == '"' || c == '\\' {
            return false;
        }
        i = i + 1;
    }
    true
}

/// Applies one raw line to the parser state, as `step_line` says.
fn apply_line(st: &mut ParserState, line: &str) -> (r: Result<(), ConfigError>)
    ensures
        match r {
            Ok(_) => step_line(old(st)@, line@) == Ok::<StateV, ConfigError>(final(st)@),
            Err(e) => step_line(old(st)@, line@) == Err::<StateV, ConfigError>(e),
        },
{
    let t = str_trim(line);
    let n = t.unicode_len();
    if n == 0 {
        return Ok(());
    }
    let c0 = t.get_char(0);
    if c0 == '#' {
        return Ok(());
    }
    if c0 == '[' {
        if n >= 2 && t.get_char(n - 1) == ']' {
            let inner = t.substring_char(1, n - 1);
            let name = str_trim(inner);
            if name.unicode_len() > 0 && all_key_chars(name) {
                let g = if str_eq(name, "models") {
                    Group::InModels
                } else if str_eq(name, "documents") {
                    Group::InDocuments
                } else {
                    Group::InOther
                };
                st.group = g;
                return Ok(());
            }
        }
        return Err(ConfigError::Malformed);
    }
    let e = find_char(t, '=', 0);
    if e == n {
        return Err(ConfigError::Malformed);
    }
    let key = str_trim(t.substring_char(0, e));
    let vpart = str_trim(t.substring_char(e + 1, n));
    let vn = vpart.unicode_len();
    if !(key.unicode_len() > 0 && all_key_chars(key) && vn >= 2 && vpart.get_char(0) == '"'
        && vpart.get_char(vn - 1) == '"') {
        return Err(ConfigError::Malformed);
    }
    let value = vpart.substring_char(1, vn - 1);
    if !all_value_chars(value) {
        return Err(ConfigError::Malformed);
    }
    let value_len = value.unicode_len();
    match st.group {
        Group::InModels => {
            if str_eq(key, "embedding_model") {
                if st.embedding_model.is_some() || value_len == 0 {
                    return Err(ConfigError::Malformed);
                }
                st.embedding_model = Some(value.to_owned());
            } else if str_eq(key, "rag_model") {
                if st.rag_model.is_some() || value_len == 0 {
                    return Err(ConfigError::Malformed);
                }
                st.rag_model = Some(value.to_owned());
            }
            Ok(())
        },
        Group::InDocuments => {
            if str_eq(key, "documents_dir") {
                if st.documents_dir.is_some() || value_len == 0 {
                    return Err(ConfigError::Malformed);
                }
                st.documents_dir = Some(value.to_owned());
            } else if str_eq(key, "pdf1") {
                if st.pdf1.is_some() || value_len == 0 {
                    return Err(ConfigError::Malformed);
                }
                st.pdf1 = Some(value.to_owned());
            } else if str_eq(key, "pdf2") {
                if st.pdf2.is_some() || value_len == 0 {
                    return Err(ConfigError::Malformed);
                }
                st.pdf2 = Some(value.to_owned());
            }
            Ok(())
        },
        _ => Ok(()),
    }
}

/// Parses the configuration text.
///
/// Returns the configuration exactly when `spec_parse` accepts the text,
/// the five fields holding the five collected values (all non-empty), and
/// the error `spec_parse` gives otherwise.  `ConfigError::NotFound` is
/// never returned here: it is for callers that fail to read the file.
pub fn parse_config(text: &str) -> (r: Result<Config, ConfigError>)
    ensures
        match r {
            Ok(c) => spec_parse(text@) == Ok::<FieldsV, ConfigError>(
                FieldsV {
                    embedding_model: Some(c.models.embedding_model@),
                    rag_model: Some(c.models.rag_model@),
                    documents_dir: Some(c.documents.documents_dir@),
                    pdf1: Some(c.documents.pdf1@),
                    pdf2: Some(c.documents.pdf2@),
                },
            ) && c.models.embedding_model@.len() > 0 && c.models.rag_model@.len() > 0
                && c.documents.documents_dir@.len() > 0 && c.documents.pdf1@.len() > 0
                && c.documents.pdf2@.len() > 0,
            Err(e) => spec_parse(text@) == Err::<FieldsV, ConfigError>(e),
        },
{
    let n = text.unicode_len();
    let mut st = ParserState {
        group: Group::Start,
        embedding_model: None,
        rag_model: None,
        documents_dir: None,
        pdf1: None,
        pdf2: None,
    };
    let mut i: usize = 0;
    let mut finished = false;
    while !finished
        invariant
            n == text@.len(),
            0 <= i <= n,
            fields_nonempty(st@.fields),
            !finished ==> run_from(text@, 0, init_state()) == run_from(text@, i as int, st@),
            finished ==> run_from(text@, 0, init_state()) == Ok::<StateV, ConfigError>(st@),
        decreases n - i + (if finished { 0int } else { 1int }),
    {
        let ghost st_before = st@;
        let j = find_char(text, '\n', i);
        let line = text.substring_char(i, j);
        match apply_line(&mut st, line) {
            Err(e) => {
                return Err(e);
            },
            Ok(_) => {
                proof {
                    lemma_step_nonempty(st_before, text@.subrange(i as int, j as int));
                }
            },
        }
        if j >= n {
            finished = true;
        } else {
            i = j + 1;
        }
    }
    let ghost stv = st@;
    match (st.embedding_model, st.rag_model, st.documents_dir, st.pdf1, st.pdf2) {
        (Some(em), Some(rm), Some(dd), Some(p1), Some(p2)) => {
            let c = Config {
                models: Models { embedding_model: em, rag_model: rm },
                documents: Documents { documents_dir: dd, pdf1: p1, pdf2: p2 },
            };
            proof {
                assert(stv.fields =~= FieldsV {
                    embedding_model: Some(c.models.embedding_model@),
                    rag_model: Some(c.models.rag_model@),
                    documents_dir: Some(c.documents.documents_dir@),
                    pdf1: Some(c.documents.pdf1@),
                    pdf2: Some(c.documents.pdf2@),
                });
            }
            Ok(c)
        },
        _ => Err(ConfigError::MissingField),
    }
}

} // verus!
