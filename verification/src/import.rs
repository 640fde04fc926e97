//! The importer: ingests one Yomitan v3 ZIP archive and produces one new
//! dictionary whose records are queryable.
//!
//! Every row is staged in a transaction and committed at once; any error
//! before the commit leaves the store exactly as it was.

use vstd::prelude::*;
use crate::codec::{enc, encode_payload, opt_view, wf, wf_str, Payload};
use crate::snappy::{snap_of, snappy_input_ok};
use crate::jsonio::{json_doc, parse_json};
use crate::jsonval::{i64_to_string, j_field, jat, to_json_string, Jval};
use crate::repair::repair;
use crate::snappy::unsnap_of;
use crate::store::{
    has_dict_name, headword_ok, term_row_ok, txn_ok, wf_store, DictRow, KanjiMetaRow, KanjiRow,
    Store, TermRow, Txn,
};
use crate::text::norm_name;
use crate::textio::string_from_utf8;
use crate::zipio::{zip_count_of, zip_data_of, zip_entry_data, zip_entry_name,
    zip_entry_sizes, zip_len, zip_name_of, zip_sizes_of};

verus! {

/// The importer's safety bounds.
pub struct ImportLimits {
    /// Largest accepted archive, in bytes.
    pub max_archive_bytes: u64,
    /// Most entries an archive may hold.
    pub max_entries: u64,
    /// Bound on the summed uncompressed sizes of all entries.
    pub max_total_uncompressed: u64,
    /// Bound on one entry's uncompressed size.
    pub max_entry_bytes: u64,
    /// Bound on the size of `index.json`.
    pub max_index_bytes: u64,
    /// Largest accepted per-entry compression ratio.
    pub max_ratio: u64,
    /// Most term records one import may insert.
    pub max_term_records: u64,
}

/// The documented default bounds.
pub open spec fn default_limits() -> ImportLimits {
    ImportLimits {
        max_archive_bytes: 0x3000_0000,  // 768 MiB
        max_entries: 65536,
        max_total_uncompressed: 0xC000_0000,  // 3 GiB
        max_entry_bytes: 0x2000_0000,  // 512 MiB
        max_index_bytes: 0x40_0000,  // 4 MiB
        max_ratio: 300,
        max_term_records: 8000000,
    }
}

impl Default for ImportLimits {
    fn default() -> (r: ImportLimits)
        ensures
            r == default_limits(),
    {
        ImportLimits {
            max_archive_bytes: 0x3000_0000,
            max_entries: 65536,
            max_total_uncompressed: 0xC000_0000,
            max_entry_bytes: 0x2000_0000,
            max_index_bytes: 0x40_0000,
            max_ratio: 300,
            max_term_records: 8000000,
        }
    }
}

/// The importer's switches.
pub struct ImportConfig {
    /// Snappy-compress stored payloads.
    pub compress_payloads: bool,
    /// Mirror non-JSON entries into the media plan; when off and media
    /// entries exist, the caller is told to keep the archive bytes.
    pub extract_media: bool,
}

impl Default for ImportConfig {
    fn default() -> (r: ImportConfig)
        ensures
            r.compress_payloads == true,
            r.extract_media == true,
    {
        ImportConfig { compress_payloads: true, extract_media: true }
    }
}

/// Why an import was refused. Checked in the order the steps run.
#[derive(PartialEq, Eq, Structural, Clone, Copy, Debug)]
pub enum ImportError {
    InputTooLarge,
    NotAnArchive,
    TooManyEntries,
    EntryTooLarge,
    TotalTooLarge,
    RatioSuspect,
    IndexTooLarge,
    MissingIndex,
    UnsupportedFormat,
    DuplicateName,
    ParseError,
    TooManyTerms,
    IdExhausted,
}

/// The message of each error.
pub open spec fn message_spec(e: ImportError) -> Seq<char> {
    match e {
        ImportError::InputTooLarge => "Archive is too large"@,
        ImportError::NotAnArchive => "Not a readable ZIP archive"@,
        ImportError::TooManyEntries => "Archive holds too many entries"@,
        ImportError::EntryTooLarge => "Archive entry is too large"@,
        ImportError::TotalTooLarge => "Archive expands past the total size bound"@,
        ImportError::RatioSuspect => "Archive entry exceeds the compression ratio bound"@,
        ImportError::IndexTooLarge => "index.json is too large"@,
        ImportError::MissingIndex => "No index.json found in archive"@,
        ImportError::UnsupportedFormat => "Unsupported dictionary format version"@,
        ImportError::DuplicateName => "A dictionary with this name already exists"@,
        ImportError::ParseError => "Malformed JSON in archive"@,
        ImportError::TooManyTerms => "Archive holds too many term records"@,
        ImportError::IdExhausted => "No dictionary id is left to allocate"@,
    }
}

impl ImportError {
    /// The human-readable message classifying the failure.
    pub fn message(&self) -> (r: String)
        ensures
            r@ == message_spec(*self),
    {
        match self {
            ImportError::InputTooLarge => String::from_str("Archive is too large"),
            ImportError::NotAnArchive => String::from_str("Not a readable ZIP archive"),
            ImportError::TooManyEntries => String::from_str("Archive holds too many entries"),
            ImportError::EntryTooLarge => String::from_str("Archive entry is too large"),
            ImportError::TotalTooLarge => String::from_str(
                "Archive expands past the total size bound",
            ),
            ImportError::RatioSuspect => String::from_str(
                "Archive entry exceeds the compression ratio bound",
            ),
            ImportError::IndexTooLarge => String::from_str("index.json is too large"),
            ImportError::MissingIndex => String::from_str("No index.json found in archive"),
            ImportError::UnsupportedFormat => String::from_str(
                "Unsupported dictionary format version",
            ),
            ImportError::DuplicateName => String::from_str(
                "A dictionary with this name already exists",
            ),
            ImportError::ParseError => String::from_str("Malformed JSON in archive"),
            ImportError::TooManyTerms => String::from_str("Archive holds too many term records"),
            ImportError::IdExhausted => String::from_str("No dictionary id is left to allocate"),
        }
    }
}

/// One media file to mirror under the dictionary's media directory.
pub struct MediaFile {
    /// A safe relative path (checked by [`safe_rel_path`]).
    pub path: String,
    pub data: Vec<u8>,
}

/// What a committed import hands back.
pub struct ImportOutcome {
    pub dictionary_id: i64,
    pub dictionary_name: String,
    pub term_count: u64,
    pub media: Vec<MediaFile>,
    /// Set when media extraction was off but the archive holds media
    /// entries: the caller should keep the original archive bytes.
    pub keep_archive: bool,
}

/// A whole path component `..` stands at position `k` of `s`.
pub open spec fn dotdot_component_at(s: Seq<char>, k: int) -> bool {
    &&& 0 <= k && k + 2 <= s.len()
    &&& s[k] == '.' && s[k + 1] == '.'
    &&& (k == 0 || s[k - 1] == '/')
    &&& (k + 2 == s.len() || s[k + 2] == '/')
}

/// A relative path safe to mirror under the media directory: nonempty,
/// not absolute, no drive prefix or backslash, and no path component
/// that is `..`.
pub open spec fn safe_rel_path(s: Seq<char>) -> bool {
    &&& s.len() > 0
    &&& s[0] != '/'
    &&& forall|k: int| 0 <= k < s.len() ==> s[k] != ':' && s[k] != '\\'
    &&& forall|k: int| !(#[trigger] dotdot_component_at(s, k))
}

/// Decides [`safe_rel_path`].
pub fn is_safe_rel_path(v: &[char]) -> (r: bool)
    ensures
        r == safe_rel_path(v@),
{
    proof {
        vstd::slice::axiom_spec_len(v);
    }
    if v.len() == 0 {
        return false;
    }
    if v[0] == '/' {
        return false;
    }
    let n = v.len();
    let mut i: usize = 0;
    while i < n
        invariant
            n == v@.len(),
            i <= n,
            forall|k: int| 0 <= k < i ==> v@[k] != ':' && v@[k] != '\\',
        decreases n - i,
    {
        if v[i] == ':' || v[i] == '\\' {
            return false;
        }
        i += 1;
    }
    let mut k: usize = 0;
    while n >= 2 && k <= n - 2
        invariant
            n == v@.len(),
            k <= n,
            forall|m: int| 0 <= m < k ==> !(#[trigger] dotdot_component_at(v@, m)),
        decreases n - k,
    {
        let starts_ok = k == 0 || v[k - 1] == '/';
        proof {
            assert(k + 2 <= n);
        }
        let ends_ok = k + 2 == n || v[k + 2] == '/';
        if v[k] == '.' && v[k + 1] == '.' && starts_ok && ends_ok {
            proof {
                assert(dotdot_component_at(v@, k as int));
            }
            return false;
        }
        k += 1;
    }
    proof {
        assert forall|m: int| !(#[trigger] dotdot_component_at(v@, m)) by {
            if 0 <= m && m + 2 <= v@.len() {
                assert(m < k);
            }
        }
    }
    true
}

/// A well-formedness check for a payload about to be encoded: every
/// length fits its 32-bit wire slot.
fn payload_wf_exec(p: &Payload) -> (r: bool)
    ensures
        r == wf(p@),
{
    if (p.content.len() as u64) >= 0xFFFF_FFFFu64 {
        proof {
            assert(p@.content.len() == p.content@.len());
        }
        return false;
    }
    let n = p.content.len();
    let mut i: usize = 0;
    while i < n
        invariant
            n == p.content@.len(),
            p@.content.len() == p.content@.len(),
            i <= n,
            forall|k: int| 0 <= k < i ==> wf_str(#[trigger] p@.content[k]),
        decreases n - i,
    {
        let b = p.content[i].as_str().as_bytes();
        proof {
            vstd::slice::axiom_spec_len(b);
            assert(p@.content[i as int] == p.content@[i as int]@);
        }
        if (b.len() as u64) >= 0xFFFF_FFFFu64 {
            return false;
        }
        i += 1;
    }
    if !opt_wf_exec(&p.definition_tags) {
        return false;
    }
    if !opt_wf_exec(&p.term_tags) {
        return false;
    }
    if !opt_wf_exec(&p.reading) {
        return false;
    }
    if !opt_wf_exec(&p.headword) {
        return false;
    }
    true
}

fn opt_wf_exec(o: &Option<String>) -> (r: bool)
    ensures
        r == crate::codec::wf_opt(opt_view(*o)),
{
    match o {
        Option::Some(s) => {
            let b = s.as_str().as_bytes();
            proof {
                vstd::slice::axiom_spec_len(b);
            }
            (b.len() as u64) < 0xFFFF_FFFFu64
        },
        Option::None => true,
    }
}

/// Encodes one staged record as a term row.
fn make_term_row(
    term: String,
    reading: Option<String>,
    definition_tags: Option<String>,
    term_tags: Option<String>,
    popularity: i64,
    content: Vec<String>,
    dict_id: i64,
    compress: bool,
) -> (r: Option<TermRow>)
    ensures
        match r {
            Option::Some(t) => t.dictionary_id == dict_id && term_row_ok(t),
            Option::None => true,
        },
{
    let payload = Payload {
        popularity,
        content,
        definition_tags,
        term_tags,
        reading: clone_opt(&reading),
        headword: Some(term.clone()),
    };
    if !payload_wf_exec(&payload) {
        return None;
    }
    let bytes = encode_payload(&payload, compress);
    let row = TermRow { term, reading, dictionary_id: dict_id, payload: bytes };
    proof {
        let p = payload@;
        assert(headword_ok(p, row.term@));
        if compress && snappy_input_ok(enc(p).len() as int) {
            assert(row.payload@ == snap_of(enc(p)) && unsnap_of(row.payload@)
                == Option::Some(enc(p)));
        } else {
            assert(row.payload@ == enc(p));
        }
        assert(term_row_ok(row));
    }
    Some(row)
}

fn clone_opt(o: &Option<String>) -> (r: Option<String>)
    ensures
        opt_view(r) == opt_view(*o),
{
    match o {
        Option::Some(s) => Some(s.clone()),
        Option::None => None,
    }
}

/// The raw JSON texts of a term-bank definition list: strings, objects
/// and arrays are kept as their JSON text; other items are dropped.
fn content_of_definitions(defs: &Vec<Jval>) -> (r: Vec<String>) {
    let n = defs.len();
    let mut out: Vec<String> = Vec::new();
    let mut i: usize = 0;
    while i < n
        invariant
            n == defs@.len(),
        decreases n - i,
    {
        match &defs[i] {
            Jval::Str(_) => out.push(to_json_string(&defs[i])),
            Jval::Obj(_) => out.push(to_json_string(&defs[i])),
            Jval::Arr(_) => out.push(to_json_string(&defs[i])),
            _ => (),
        }
        i += 1;
    }
    out
}

/// One term-bank row: `[headword, reading, definition tags, rules,
/// popularity, definitions, sequence, term tags]`, each field read
/// tolerantly. Rows with an empty headword are dropped.
fn term_row_from_bank(arr: &Vec<Jval>, dict_id: i64, compress: bool) -> (r: Option<TermRow>)
    ensures
        match r {
            Option::Some(t) => t.dictionary_id == dict_id && term_row_ok(t),
            Option::None => true,
        },
{
    let headword: String = match jat(arr, 0) {
        Option::Some(j) => match j {
            Jval::Str(s) => s.clone(),
            _ => {
                return None;
            },
        },
        Option::None => {
            return None;
        },
    };
    if headword.as_str().is_empty() {
        return None;
    }
    let reading: Option<String> = match jat(arr, 1) {
        Option::Some(j) => match j {
            Jval::Str(s) => {
                if !s.as_str().is_empty() && !crate::text::str_eq(s.as_str(), headword.as_str()) {
                    Some(s.clone())
                } else {
                    None
                }
            },
            _ => None,
        },
        Option::None => None,
    };
    let definition_tags: Option<String> = opt_str_at(arr, 2);
    let term_tags: Option<String> = opt_str_at(arr, 7);
    let popularity: i64 = match jat(arr, 4) {
        Option::Some(j) => match j {
            Jval::Int(v) => *v,
            _ => 0,
        },
        Option::None => 0,
    };
    let content: Vec<String> = match jat(arr, 5) {
        Option::Some(j) => match j {
            Jval::Arr(defs) => content_of_definitions(defs),
            _ => Vec::new(),
        },
        Option::None => Vec::new(),
    };
    make_term_row(
        headword,
        reading,
        definition_tags,
        term_tags,
        popularity,
        content,
        dict_id,
        compress,
    )
}

/// A nonempty string at an index, or nothing.
fn opt_str_at(arr: &Vec<Jval>, i: usize) -> (r: Option<String>) {
    match jat(arr, i) {
        Option::Some(j) => match j {
            Jval::Str(s) => {
                if s.as_str().is_empty() {
                    None
                } else {
                    Some(s.clone())
                }
            },
            _ => None,
        },
        Option::None => None,
    }
}

/// The display value of a frequency datum: an integer's digits, a
/// string itself, an object's `frequency.displayValue` or `value`, and
/// the JSON text of anything else.
fn freq_display(data: &Jval) -> (r: String) {
    match data {
        Jval::Int(v) => i64_to_string(*v),
        Jval::Str(s) => s.clone(),
        Jval::Obj(fields) => {
            match crate::jsonval::get_field(fields, "frequency") {
                Option::Some(f) => match f {
                    Jval::Obj(inner) => {
                        match crate::jsonval::get_field(inner, "displayValue") {
                            Option::Some(Jval::Str(s)) => s.clone(),
                            _ => match crate::jsonval::get_field(inner, "value") {
                                Option::Some(Jval::Int(v)) => i64_to_string(*v),
                                _ => to_json_string(data),
                            },
                        }
                    },
                    Jval::Int(v) => i64_to_string(*v),
                    Jval::Str(s) => s.clone(),
                    _ => to_json_string(data),
                },
                Option::None => match crate::jsonval::get_field(fields, "value") {
                    Option::Some(Jval::Int(v)) => i64_to_string(*v),
                    _ => to_json_string(data),
                },
            }
        },
        _ => to_json_string(data),
    }
}

/// An integer list field, read tolerantly: an array is kept (integers
/// only), a single integer is wrapped, anything else is empty.
fn int_list_of(j: Option<&Jval>) -> (r: Jval) {
    match j {
        Option::Some(v) => match v {
            Jval::Arr(a) => {
                let n = a.len();
                let mut out: Vec<Jval> = Vec::new();
                let mut i: usize = 0;
                while i < n
                    invariant
                        n == a@.len(),
                    decreases n - i,
                {
                    match &a[i] {
                        Jval::Int(x) => out.push(Jval::Int(*x)),
                        _ => (),
                    }
                    i += 1;
                }
                Jval::Arr(out)
            },
            Jval::Int(x) => {
                let mut out: Vec<Jval> = Vec::new();
                out.push(Jval::Int(*x));
                Jval::Arr(out)
            },
            _ => Jval::Arr(Vec::new()),
        },
        Option::None => Jval::Arr(Vec::new()),
    }
}

/// A string list field, read tolerantly.
fn str_list_of(j: Option<&Jval>) -> (r: Jval) {
    match j {
        Option::Some(v) => match v {
            Jval::Arr(a) => {
                let n = a.len();
                let mut out: Vec<Jval> = Vec::new();
                let mut i: usize = 0;
                while i < n
                    invariant
                        n == a@.len(),
                    decreases n - i,
                {
                    match &a[i] {
                        Jval::Str(s) => out.push(Jval::Str(s.clone())),
                        _ => (),
                    }
                    i += 1;
                }
                Jval::Arr(out)
            },
            Jval::Str(s) => {
                let mut out: Vec<Jval> = Vec::new();
                out.push(Jval::Str(s.clone()));
                Jval::Arr(out)
            },
            _ => Jval::Arr(Vec::new()),
        },
        Option::None => Jval::Arr(Vec::new()),
    }
}

fn jfield_pair(name: &str, value: Jval) -> (r: (String, Jval)) {
    (String::from_str(name), value)
}

/// The synthetic content of a pitch-accent datum:
/// `Pitch:{"reading":…,"pitches":[{"position":…,"nasal":[…],"devoice":[…],"tags":[…]},…]}`.
fn pitch_content(data: &Jval) -> (r: String) {
    let reading: Jval = match data {
        Jval::Obj(fields) => match crate::jsonval::get_field(fields, "reading") {
            Option::Some(Jval::Str(s)) => Jval::Str(s.clone()),
            _ => Jval::Str(String::new()),
        },
        _ => Jval::Str(String::new()),
    };
    let mut pitches: Vec<Jval> = Vec::new();
    match data {
        Jval::Obj(fields) => match crate::jsonval::get_field(fields, "pitches") {
            Option::Some(Jval::Arr(a)) => {
                let n = a.len();
                let mut i: usize = 0;
                while i < n
                    invariant
                        n == a@.len(),
                    decreases n - i,
                {
                    match &a[i] {
                        Jval::Obj(pf) => {
                            let position: Jval = match crate::jsonval::get_field(pf, "position") {
                                Option::Some(Jval::Int(v)) => Jval::Int(*v),
                                _ => Jval::Int(0),
                            };
                            let mut obj: Vec<(String, Jval)> = Vec::new();
                            obj.push(jfield_pair("position", position));
                            obj.push(
                                jfield_pair("nasal", int_list_of(crate::jsonval::get_field(pf, "nasal"))),
                            );
                            obj.push(
                                jfield_pair(
                                    "devoice",
                                    int_list_of(crate::jsonval::get_field(pf, "devoice")),
                                ),
                            );
                            obj.push(
                                jfield_pair("tags", str_list_of(crate::jsonval::get_field(pf, "tags"))),
                            );
                            pitches.push(Jval::Obj(obj));
                        },
                        _ => (),
                    }
                    i += 1;
                }
            },
            _ => (),
        },
        _ => (),
    }
    let mut obj: Vec<(String, Jval)> = Vec::new();
    obj.push(jfield_pair("reading", reading));
    obj.push(jfield_pair("pitches", Jval::Arr(pitches)));
    let json = to_json_string(&Jval::Obj(obj));
    let mut out = String::from_str("Pitch:");
    out.append(json.as_str());
    out
}

/// The synthetic content of an IPA datum:
/// `IPA:{"reading":…,"transcriptions":[{"ipa":…,"tags":[…]},…]}`; empty
/// transcriptions are dropped.
fn ipa_content(data: &Jval) -> (r: String) {
    let reading: Jval = match data {
        Jval::Obj(fields) => match crate::jsonval::get_field(fields, "reading") {
            Option::Some(Jval::Str(s)) => Jval::Str(s.clone()),
            _ => Jval::Str(String::new()),
        },
        _ => Jval::Str(String::new()),
    };
    let mut transcriptions: Vec<Jval> = Vec::new();
    match data {
        Jval::Obj(fields) => match crate::jsonval::get_field(fields, "transcriptions") {
            Option::Some(Jval::Arr(a)) => {
                let n = a.len();
                let mut i: usize = 0;
                while i < n
                    invariant
                        n == a@.len(),
                    decreases n - i,
                {
                    match &a[i] {
                        Jval::Obj(tf) => {
                            match crate::jsonval::get_field(tf, "ipa") {
                                Option::Some(Jval::Str(s)) => {
                                    if !s.as_str().is_empty() {
                                        let mut obj: Vec<(String, Jval)> = Vec::new();
                                        obj.push(jfield_pair("ipa", Jval::Str(s.clone())));
                                        obj.push(
                                            jfield_pair(
                                                "tags",
                                                str_list_of(crate::jsonval::get_field(tf, "tags")),
                                            ),
                                        );
                                        transcriptions.push(Jval::Obj(obj));
                                    }
                                },
                                _ => (),
                            }
                        },
                        _ => (),
                    }
                    i += 1;
                }
            },
            _ => (),
        },
        _ => (),
    }
    let mut obj: Vec<(String, Jval)> = Vec::new();
    obj.push(jfield_pair("reading", reading));
    obj.push(jfield_pair("transcriptions", Jval::Arr(transcriptions)));
    let json = to_json_string(&Jval::Obj(obj));
    let mut out = String::from_str("IPA:");
    out.append(json.as_str());
    out
}

/// The synthetic frequency content `Frequency: <display>` or
/// `Frequency: <display> (<reading>)`.
fn freq_content(data: &Jval, term: &str) -> (r: (String, Option<String>)) {
    let display = freq_display(data);
    let reading: Option<String> = match data {
        Jval::Obj(fields) => match crate::jsonval::get_field(fields, "reading") {
            Option::Some(Jval::Str(s)) => {
                if !s.as_str().is_empty() && !crate::text::str_eq(s.as_str(), term) {
                    Some(s.clone())
                } else {
                    None
                }
            },
            _ => None,
        },
        _ => None,
    };
    let mut out = String::from_str("Frequency: ");
    out.append(display.as_str());
    match &reading {
        Option::Some(s) => {
            out.append(" (");
            out.append(s.as_str());
            out.append(")");
        },
        Option::None => (),
    }
    (out, reading)
}

/// One term-meta-bank row: `[term, mode, data]` with
/// `mode ∈ {freq, pitch, ipa}`; anything else is dropped.
fn meta_row_from_bank(arr: &Vec<Jval>, dict_id: i64, compress: bool) -> (r: Option<TermRow>)
    ensures
        match r {
            Option::Some(t) => t.dictionary_id == dict_id && term_row_ok(t),
            Option::None => true,
        },
{
    let term: String = match jat(arr, 0) {
        Option::Some(Jval::Str(s)) => s.clone(),
        _ => {
            return None;
        },
    };
    if term.as_str().is_empty() {
        return None;
    }
    let data: &Jval = match jat(arr, 2) {
        Option::Some(j) => j,
        Option::None => &Jval::Null,
    };
    let mode: String = match jat(arr, 1) {
        Option::Some(Jval::Str(s)) => s.clone(),
        _ => {
            return None;
        },
    };
    let (content_text, reading, popularity): (String, Option<String>, i64) = if crate::text::str_eq(
        mode.as_str(),
        "freq",
    ) {
        let (text, rd) = freq_content(data, term.as_str());
        let pop: i64 = match data {
            Jval::Int(v) => *v,
            _ => 0,
        };
        (text, rd, pop)
    } else if crate::text::str_eq(mode.as_str(), "pitch") {
        (pitch_content(data), None, 0)
    } else if crate::text::str_eq(mode.as_str(), "ipa") {
        (ipa_content(data), None, 0)
    } else {
        return None;
    };
    let mut content: Vec<String> = Vec::new();
    content.push(to_json_string(&Jval::Str(content_text)));
    make_term_row(term, reading, None, None, popularity, content, dict_id, compress)
}

/// The single character of a one-codepoint string.
fn single_char_of(s: &str) -> (r: Option<char>) {
    let chars = crate::text::str_to_chars(s);
    if chars.len() == 1 {
        Some(chars[0])
    } else {
        None
    }
}

/// One kanji-bank row: `[character, onyomi, kunyomi, tags, meanings,
/// stats]`; only single-codepoint characters are kept.
fn kanji_row_from_bank(arr: &Vec<Jval>, dict_id: i64) -> (r: Option<KanjiRow>)
    ensures
        match r {
            Option::Some(k) => k.dictionary_id == dict_id,
            Option::None => true,
        },
{
    let character: char = match jat(arr, 0) {
        Option::Some(Jval::Str(s)) => match single_char_of(s.as_str()) {
            Option::Some(c) => c,
            Option::None => {
                return None;
            },
        },
        _ => {
            return None;
        },
    };
    let onyomi: Vec<String> = match jat(arr, 1) {
        Option::Some(Jval::Str(s)) => crate::text::split_whitespace(s.as_str()),
        _ => Vec::new(),
    };
    let kunyomi: Vec<String> = match jat(arr, 2) {
        Option::Some(Jval::Str(s)) => crate::text::split_whitespace(s.as_str()),
        _ => Vec::new(),
    };
    let tags: Vec<String> = match jat(arr, 3) {
        Option::Some(Jval::Str(s)) => crate::text::tag_names(s.as_str()),
        _ => Vec::new(),
    };
    let mut meanings: Vec<String> = Vec::new();
    match jat(arr, 4) {
        Option::Some(Jval::Arr(a)) => {
            let n = a.len();
            let mut i: usize = 0;
            while i < n
                invariant
                    n == a@.len(),
                decreases n - i,
            {
                match &a[i] {
                    Jval::Str(s) => meanings.push(s.clone()),
                    _ => (),
                }
                i += 1;
            }
        },
        _ => (),
    }
    let mut stats: Vec<(String, String)> = Vec::new();
    match jat(arr, 5) {
        Option::Some(Jval::Obj(fields)) => {
            let n = fields.len();
            let mut i: usize = 0;
            while i < n
                invariant
                    n == fields@.len(),
                decreases n - i,
            {
                let value: String = match &fields[i].1 {
                    Jval::Str(s) => s.clone(),
                    Jval::Int(v) => i64_to_string(*v),
                    other => to_json_string(other),
                };
                stats.push((fields[i].0.clone(), value));
                i += 1;
            }
        },
        _ => (),
    }
    Some(KanjiRow { character, dictionary_id: dict_id, onyomi, kunyomi, tags, meanings, stats })
}

/// One kanji-meta-bank row: `[character, "freq", data]`; it lands both in
/// the kanji-meta table (for kanji search) and, as a synthetic frequency
/// record, in the terms table (so text lookups over the character return
/// the frequency).
fn kanji_meta_from_bank(arr: &Vec<Jval>, dict_id: i64, compress: bool) -> (r: Option<
    (KanjiMetaRow, TermRow),
>)
    ensures
        match r {
            Option::Some((m, t)) => m.dictionary_id == dict_id && t.dictionary_id == dict_id
                && term_row_ok(t),
            Option::None => true,
        },
{
    let char_str: String = match jat(arr, 0) {
        Option::Some(Jval::Str(s)) => s.clone(),
        _ => {
            return None;
        },
    };
    let character: char = match single_char_of(char_str.as_str()) {
        Option::Some(c) => c,
        Option::None => {
            return None;
        },
    };
    match jat(arr, 1) {
        Option::Some(Jval::Str(s)) => {
            if !crate::text::str_eq(s.as_str(), "freq") {
                return None;
            }
        },
        _ => {
            return None;
        },
    }
    let data: &Jval = match jat(arr, 2) {
        Option::Some(j) => j,
        Option::None => &Jval::Null,
    };
    let freq_value: Option<i64> = match data {
        Jval::Int(v) => Some(*v),
        _ => None,
    };
    let meta = KanjiMetaRow {
        character,
        dictionary_id: dict_id,
        meta_type: String::from_str("freq"),
        data: to_json_string(data),
        freq_value,
    };
    let (content_text, reading) = freq_content(data, char_str.as_str());
    let popularity: i64 = match data {
        Jval::Int(v) => *v,
        _ => 0,
    };
    let mut content: Vec<String> = Vec::new();
    content.push(to_json_string(&Jval::Str(content_text)));
    match make_term_row(char_str, reading, None, None, popularity, content, dict_id, compress) {
        Option::Some(t) => Some((meta, t)),
        Option::None => None,
    }
}

/// Every staged term row belongs to the pending dictionary and satisfies
/// the stored-row guarantee.
pub open spec fn staged_terms_ok(ts: Seq<TermRow>, id: i64) -> bool {
    forall|i: int|
        0 <= i < ts.len() ==> (#[trigger] ts[i]).dictionary_id == id && term_row_ok(ts[i])
}

pub open spec fn staged_kanji_ok(ks: Seq<KanjiRow>, id: i64) -> bool {
    forall|i: int| 0 <= i < ks.len() ==> (#[trigger] ks[i]).dictionary_id == id
}

pub open spec fn staged_kanji_meta_ok(ms: Seq<KanjiMetaRow>, id: i64) -> bool {
    forall|i: int| 0 <= i < ms.len() ==> (#[trigger] ms[i]).dictionary_id == id
}

/// Stages every row of one term bank; `false` when the term-record bound
/// was hit.
fn stage_term_bank(
    rows: &Vec<Jval>,
    dict_id: i64,
    compress: bool,
    terms: &mut Vec<TermRow>,
    term_count: &mut u64,
    max_terms: u64,
) -> (ok: bool)
    requires
        staged_terms_ok(old(terms)@, dict_id),
    ensures
        staged_terms_ok(final(terms)@, dict_id),
        *old(term_count) <= *final(term_count),
        *final(term_count) as int - *old(term_count) as int == final(terms)@.len() as int - old(
            terms,
        )@.len() as int,
{
    let n = rows.len();
    let mut i: usize = 0;
    while i < n
        invariant
            n == rows@.len(),
            staged_terms_ok(terms@, dict_id),
            *old(term_count) <= *term_count,
            *term_count as int - *old(term_count) as int == terms@.len() as int - old(
                terms,
            )@.len() as int,
        decreases n - i,
    {
        match &rows[i] {
            Jval::Arr(arr) => {
                match term_row_from_bank(arr, dict_id, compress) {
                    Option::Some(t) => {
                        if *term_count >= max_terms {
                            return false;
                        }
                        *term_count = *term_count + 1;
                        terms.push(t);
                    },
                    Option::None => (),
                }
            },
            _ => (),
        }
        i += 1;
    }
    true
}

/// Stages every row of one term-meta bank.
fn stage_meta_bank(
    rows: &Vec<Jval>,
    dict_id: i64,
    compress: bool,
    terms: &mut Vec<TermRow>,
    term_count: &mut u64,
    max_terms: u64,
) -> (ok: bool)
    requires
        staged_terms_ok(old(terms)@, dict_id),
    ensures
        staged_terms_ok(final(terms)@, dict_id),
        *old(term_count) <= *final(term_count),
        *final(term_count) as int - *old(term_count) as int == final(terms)@.len() as int - old(
            terms,
        )@.len() as int,
{
    let n = rows.len();
    let mut i: usize = 0;
    while i < n
        invariant
            n == rows@.len(),
            staged_terms_ok(terms@, dict_id),
            *old(term_count) <= *term_count,
            *term_count as int - *old(term_count) as int == terms@.len() as int - old(
                terms,
            )@.len() as int,
        decreases n - i,
    {
        match &rows[i] {
            Jval::Arr(arr) => {
                match meta_row_from_bank(arr, dict_id, compress) {
                    Option::Some(t) => {
                        if *term_count >= max_terms {
                            return false;
                        }
                        *term_count = *term_count + 1;
                        terms.push(t);
                    },
                    Option::None => (),
                }
            },
            _ => (),
        }
        i += 1;
    }
    true
}

/// Stages every row of one kanji bank.
fn stage_kanji_bank(rows: &Vec<Jval>, dict_id: i64, kanji: &mut Vec<KanjiRow>)
    requires
        staged_kanji_ok(old(kanji)@, dict_id),
    ensures
        staged_kanji_ok(final(kanji)@, dict_id),
{
    let n = rows.len();
    let mut i: usize = 0;
    while i < n
        invariant
            n == rows@.len(),
            staged_kanji_ok(kanji@, dict_id),
        decreases n - i,
    {
        match &rows[i] {
            Jval::Arr(arr) => {
                match kanji_row_from_bank(arr, dict_id) {
                    Option::Some(k) => kanji.push(k),
                    Option::None => (),
                }
            },
            _ => (),
        }
        i += 1;
    }
}

/// Stages every row of one kanji-meta bank; each recognized row lands in
/// the kanji-meta table and as a synthetic frequency term record.
fn stage_kanji_meta_bank(
    rows: &Vec<Jval>,
    dict_id: i64,
    compress: bool,
    metas: &mut Vec<KanjiMetaRow>,
    terms: &mut Vec<TermRow>,
    term_count: &mut u64,
    max_terms: u64,
) -> (ok: bool)
    requires
        staged_terms_ok(old(terms)@, dict_id),
        staged_kanji_meta_ok(old(metas)@, dict_id),
    ensures
        staged_terms_ok(final(terms)@, dict_id),
        staged_kanji_meta_ok(final(metas)@, dict_id),
        *old(term_count) <= *final(term_count),
        *final(term_count) as int - *old(term_count) as int == final(terms)@.len() as int - old(
            terms,
        )@.len() as int,
{
    let n = rows.len();
    let mut i: usize = 0;
    while i < n
        invariant
            n == rows@.len(),
            staged_terms_ok(terms@, dict_id),
            staged_kanji_meta_ok(metas@, dict_id),
            *old(term_count) <= *term_count,
            *term_count as int - *old(term_count) as int == terms@.len() as int - old(
                terms,
            )@.len() as int,
        decreases n - i,
    {
        match &rows[i] {
            Jval::Arr(arr) => {
                match kanji_meta_from_bank(arr, dict_id, compress) {
                    Option::Some((m, t)) => {
                        if *term_count >= max_terms {
                            return false;
                        }
                        *term_count = *term_count + 1;
                        metas.push(m);
                        terms.push(t);
                    },
                    Option::None => (),
                }
            },
            _ => (),
        }
        i += 1;
    }
    true
}

// ------------------------------------------------------------------
// The decision chain before the banks, mirrored at the spec level
// ------------------------------------------------------------------

/// The format (or, failing that, version) field of an index document.
pub open spec fn version_field(j: Jval) -> Option<Jval> {
    match j {
        Jval::Obj(fields) => match j_field(fields@, "format"@) {
            Option::Some(f) => Option::Some(f),
            Option::None => j_field(fields@, "version"@),
        },
        _ => Option::None,
    }
}

/// Whether an index document declares exactly format (or version) 3, as
/// a number or a numeric string.
pub open spec fn is_v3(j: Jval) -> bool {
    match version_field(j) {
        Option::Some(Jval::Int(v)) => v == 3,
        Option::Some(Jval::Str(s)) => s@ == "3"@,
        _ => false,
    }
}

/// The title an index document declares ("Unknown" when absent, not a
/// string, or empty).
pub open spec fn title_of(j: Jval) -> Seq<char> {
    match j {
        Jval::Obj(fields) => match j_field(fields@, "title"@) {
            Option::Some(Jval::Str(s)) => if s@.len() == 0 {
                "Unknown"@
            } else {
                s@
            },
            _ => "Unknown"@,
        },
        _ => "Unknown"@,
    }
}

/// The first guard failure of the strict entry walk, scanning entries
/// from `i` with `total` uncompressed bytes already counted.
pub open spec fn walk_err(
    data: Seq<u8>,
    limits: ImportLimits,
    count: int,
    i: int,
    total: int,
) -> Option<ImportError>
    decreases count - i,
    when i >= 0
{
    if i >= count {
        Option::None
    } else {
        match zip_sizes_of(data, i) {
            Option::None => Option::Some(ImportError::NotAnArchive),
            Option::Some((unc, comp)) => {
                if unc > limits.max_entry_bytes {
                    Option::Some(ImportError::EntryTooLarge)
                } else if total + unc > limits.max_total_uncompressed {
                    Option::Some(ImportError::TotalTooLarge)
                } else if comp == 0 && unc > 0 {
                    Option::Some(ImportError::RatioSuspect)
                } else if comp != 0 && unc / comp > limits.max_ratio {
                    Option::Some(ImportError::RatioSuspect)
                } else {
                    walk_err(data, limits, count, i + 1, total + unc)
                }
            },
        }
    }
}

/// The first entry whose name ends in "index.json", scanning from `i`.
pub open spec fn index_entry(data: Seq<u8>, count: int, i: int) -> Option<int>
    decreases count - i,
    when i >= 0
{
    if i >= count {
        Option::None
    } else if (match zip_name_of(data, i) {
        Option::Some(nm) => crate::text::ends_with(nm, "index.json"@),
        Option::None => false,
    }) {
        Option::Some(i)
    } else {
        index_entry(data, count, i + 1)
    }
}

/// The parsed index document of an archive, when one exists and parses.
pub open spec fn parsed_index(data: Seq<u8>) -> Option<Jval> {
    match zip_count_of(data) {
        Option::Some(count) => match index_entry(data, count as int, 0) {
            Option::Some(idx) => match zip_data_of(data, idx) {
                Option::Some(bytes) => json_doc(bytes),
                Option::None => Option::None,
            },
            Option::None => Option::None,
        },
        Option::None => Option::None,
    }
}

/// The decision the importer reaches before it reads the banks: the
/// error it must return, or `None` when staging may proceed.
pub open spec fn import_gate(
    data: Seq<u8>,
    limits: ImportLimits,
    dicts: Seq<DictRow>,
    next_id: i64,
) -> Option<ImportError> {
    if data.len() > limits.max_archive_bytes {
        Option::Some(ImportError::InputTooLarge)
    } else {
        match zip_count_of(data) {
            Option::None => Option::Some(ImportError::NotAnArchive),
            Option::Some(count) => {
                if count as int > limits.max_entries as int {
                    Option::Some(ImportError::TooManyEntries)
                } else {
                    match walk_err(data, limits, count as int, 0, 0) {
                        Option::Some(e) => Option::Some(e),
                        Option::None => match index_entry(data, count as int, 0) {
                            Option::None => Option::Some(ImportError::MissingIndex),
                            Option::Some(idx) => match zip_sizes_of(data, idx) {
                                Option::None => Option::Some(ImportError::NotAnArchive),
                                Option::Some((unc, _comp)) => {
                                    if unc > limits.max_index_bytes {
                                        Option::Some(ImportError::IndexTooLarge)
                                    } else {
                                        match zip_data_of(data, idx) {
                                            Option::None => Option::Some(ImportError::ParseError),
                                            Option::Some(bytes) => {
                                                if bytes.len() > limits.max_index_bytes {
                                                    Option::Some(ImportError::IndexTooLarge)
                                                } else {
                                                    match json_doc(bytes) {
                                                        Option::None => Option::Some(
                                                            ImportError::ParseError,
                                                        ),
                                                        Option::Some(j) => {
                                                            if !is_v3(j) {
                                                                Option::Some(
                                                                    ImportError::UnsupportedFormat,
                                                                )
                                                            } else if has_dict_name(
                                                                dicts,
                                                                norm_name(title_of(j)),
                                                            ) {
                                                                Option::Some(
                                                                    ImportError::DuplicateName,
                                                                )
                                                            } else if next_id == i64::MAX {
                                                                Option::Some(
                                                                    ImportError::IdExhausted,
                                                                )
                                                            } else {
                                                                Option::None
                                                            }
                                                        },
                                                    }
                                                }
                                            },
                                        }
                                    }
                                },
                            },
                        },
                    }
                }
            },
        }
    }
}

/// Whether entry `i` is a bank file: a `.json` entry other than
/// index.json whose name holds one of the bank markers.
pub open spec fn is_bank_entry(data: Seq<u8>, i: int) -> bool {
    match zip_name_of(data, i) {
        Option::Some(nm) => {
            &&& crate::text::ends_with(nm, ".json"@)
            &&& !crate::text::ends_with(nm, "index.json"@)
            &&& {
                ||| crate::text::contains_sub(nm, "term_meta_bank"@)
                ||| crate::text::contains_sub(nm, "term_bank"@)
                ||| crate::text::contains_sub(nm, "kanji_meta_bank"@)
                ||| crate::text::contains_sub(nm, "kanji_bank"@)
            }
        },
        Option::None => false,
    }
}

/// Whether a bank entry's repaired bytes parse as a JSON array (an
/// unreadable entry is skipped by design, so it passes).
pub open spec fn bank_parses(data: Seq<u8>, i: int) -> bool {
    match zip_data_of(data, i) {
        Option::Some(bytes) => (json_doc(crate::repair::repair_spec(bytes)) matches Option::Some(
            Jval::Arr(_),
        )),
        Option::None => true,
    }
}

/// Whether the index declares exactly format (or version) 3, as a number
/// or a numeric string.
fn index_format_is_v3(index: &Jval) -> (r: bool)
    ensures
        r == is_v3(*index),
{
    let field: Option<&Jval> = match index {
        Jval::Obj(fields) => {
            match crate::jsonval::get_field(fields, "format") {
                Option::Some(f) => Some(f),
                Option::None => crate::jsonval::get_field(fields, "version"),
            }
        },
        _ => None,
    };
    match field {
        Option::Some(Jval::Int(v)) => *v == 3,
        Option::Some(Jval::Str(s)) => crate::text::str_eq(s.as_str(), "3"),
        _ => false,
    }
}

/// The title of a parsed index document.
fn index_title(index: &Jval) -> (r: String)
    ensures
        r@ == title_of(*index),
{
    match index {
        Jval::Obj(fields) => match crate::jsonval::get_field(fields, "title") {
            Option::Some(Jval::Str(s)) => {
                if s.as_str().is_empty() {
                    String::from_str("Unknown")
                } else {
                    s.clone()
                }
            },
            _ => String::from_str("Unknown"),
        },
        _ => String::from_str("Unknown"),
    }
}

/// Ingests one Yomitan v3 ZIP archive into the store.
///
/// The whole import runs in one staged transaction: on any error the
/// store is exactly what it was, and on success exactly one dictionary
/// row was added, carrying a fresh id and the archive's parsed title as
/// its name. The decision chain before the banks — buffer size, entry
/// walk, index.json, format version, duplicate name, id allocation — is
/// mirrored exactly by [`import_gate`]; past that gate the import can
/// fail only on a bank that does not parse or on the term-record bound,
/// and success implies every bank entry parsed.
pub fn import_zip(
    store: &mut Store,
    limits: &ImportLimits,
    config: &ImportConfig,
    data: &[u8],
) -> (r: Result<ImportOutcome, ImportError>)
    requires
        wf_store(*old(store)),
    ensures
        wf_store(*final(store)),
        r is Err ==> *final(store) == *old(store),
        (r == Result::<ImportOutcome, ImportError>::Err(ImportError::InputTooLarge)) <==> (
        data@.len() > limits.max_archive_bytes),
        ({
            let g = import_gate(data@, *limits, old(store).dictionaries@, old(store).next_id);
            &&& (g matches Option::Some(e) ==> r == Result::<ImportOutcome, ImportError>::Err(e))
            &&& (g is None ==> (r is Ok || r == Result::<ImportOutcome, ImportError>::Err(
                ImportError::ParseError,
            ) || r == Result::<ImportOutcome, ImportError>::Err(ImportError::TooManyTerms)))
        }),
        r is Ok ==> (parsed_index(data@) matches Option::Some(ij) && is_v3(ij)
            && final(store).dictionaries@.last().name@ == title_of(ij)),
        r is Ok ==> (zip_count_of(data@) matches Option::Some(c) && (forall|i: int|
            0 <= i < c && #[trigger] is_bank_entry(data@, i) ==> bank_parses(data@, i))),
        ({
            let g = import_gate(data@, *limits, old(store).dictionaries@, old(store).next_id);
            (g is None && (zip_count_of(data@) matches Option::Some(c) && (forall|i: int|
                0 <= i < c && #[trigger] is_bank_entry(data@, i) ==> bank_parses(data@, i))))
                ==> (r is Ok || r == Result::<ImportOutcome, ImportError>::Err(
                ImportError::TooManyTerms,
            ))
        }),
        r matches Ok(o) ==> ({
            let d = final(store).dictionaries@;
            &&& d.len() == old(store).dictionaries@.len() + 1
            &&& d == old(store).dictionaries@.push(d.last())
            &&& d.last().id == old(store).next_id
            &&& d.last().enabled == true
            &&& o.dictionary_id == d.last().id
            &&& o.dictionary_name@ == d.last().name@
            &&& !has_dict_name(old(store).dictionaries@, norm_name(d.last().name@))
            &&& final(store).next_id == old(store).next_id + 1
            &&& final(store).terms@.len() >= old(store).terms@.len()
            &&& o.term_count as int == final(store).terms@.len() as int - old(
                store,
            ).terms@.len() as int
            &&& (o.keep_archive ==> !config.extract_media)
            &&& forall|i: int|
                0 <= i < o.media@.len() ==> safe_rel_path((#[trigger] o.media@[i]).path@)
            &&& forall|i: int|
                old(store).terms@.len() <= i < final(store).terms@.len()
                    ==> (#[trigger] final(store).terms@[i]).dictionary_id == old(store).next_id
            &&& forall|i: int|
                0 <= i < old(store).terms@.len()
                    ==> (#[trigger] final(store).terms@[i]) == old(store).terms@[i]
        }),
{
    proof {
        vstd::slice::axiom_spec_len(data);
    }
    let ghost gdicts = old(store).dictionaries@;
    let ghost gnext = old(store).next_id;
    if (data.len() as u64) > limits.max_archive_bytes {
        return Err(ImportError::InputTooLarge);
    }
    let count: usize = match zip_len(data) {
        Option::Some(c) => c,
        Option::None => {
            return Err(ImportError::NotAnArchive);
        },
    };
    if (count as u64) > limits.max_entries {
        return Err(ImportError::TooManyEntries);
    }
    // Strict walk: verify per-entry size, total size and compression
    // ratio bounds, and collect the entry names.
    let mut names: Vec<Option<String>> = Vec::new();
    let mut total: u128 = 0;
    let mut i: usize = 0;
    while i < count
        invariant
            wf_store(*store),
            *store == *old(store),
            data@.len() <= limits.max_archive_bytes,
            zip_count_of(data@) == Option::Some(count),
            count <= limits.max_entries,
            i <= count,
            names@.len() == i,
            forall|k: int|
                0 <= k < i ==> crate::codec::opt_view(#[trigger] names@[k]) == zip_name_of(
                    data@,
                    k,
                ),
            total <= limits.max_total_uncompressed as u128,
            walk_err(data@, *limits, count as int, 0, 0) == walk_err(
                data@,
                *limits,
                count as int,
                i as int,
                total as int,
            ),
        decreases count - i,
    {
        let ghost t0 = total as int;
        let sizes = match zip_entry_sizes(data, i) {
            Option::Some(s) => s,
            Option::None => {
                proof {
                    assert(walk_err(data@, *limits, count as int, i as int, t0)
                        == Option::Some(ImportError::NotAnArchive));
                }
                return Err(ImportError::NotAnArchive);
            },
        };
        let unc: u64 = sizes.0;
        let comp: u64 = sizes.1;
        if unc > limits.max_entry_bytes {
            proof {
                assert(walk_err(data@, *limits, count as int, i as int, t0) == Option::Some(
                    ImportError::EntryTooLarge,
                ));
            }
            return Err(ImportError::EntryTooLarge);
        }
        total = total + (unc as u128);
        if total > (limits.max_total_uncompressed as u128) {
            proof {
                assert(walk_err(data@, *limits, count as int, i as int, t0) == Option::Some(
                    ImportError::TotalTooLarge,
                ));
            }
            return Err(ImportError::TotalTooLarge);
        }
        if comp == 0 {
            if unc > 0 {
                proof {
                    assert(walk_err(data@, *limits, count as int, i as int, t0) == Option::Some(
                        ImportError::RatioSuspect,
                    ));
                }
                return Err(ImportError::RatioSuspect);
            }
        } else {
            if unc / comp > limits.max_ratio {
                proof {
                    assert(walk_err(data@, *limits, count as int, i as int, t0) == Option::Some(
                        ImportError::RatioSuspect,
                    ));
                }
                return Err(ImportError::RatioSuspect);
            }
        }
        names.push(zip_entry_name(data, i));
        i += 1;
        proof {
            assert(walk_err(data@, *limits, count as int, i as int - 1, t0) == walk_err(
                data@,
                *limits,
                count as int,
                i as int,
                total as int,
            ));
        }
    }
    proof {
        assert(walk_err(data@, *limits, count as int, 0, 0) is None);
    }
    // Locate index.json: the first entry whose name ends with it.
    let index_suffix = crate::text::str_to_chars("index.json");
    let mut index_idx: Option<usize> = None;
    let mut j: usize = 0;
    while j < count
        invariant
            names@.len() == count,
            j <= count,
            index_suffix@ == "index.json"@,
            forall|k: int|
                0 <= k < count ==> crate::codec::opt_view(#[trigger] names@[k]) == zip_name_of(
                    data@,
                    k,
                ),
            match index_idx {
                Option::Some(v) => v < count && index_entry(data@, count as int, 0)
                    == Option::Some(v as int),
                Option::None => index_entry(data@, count as int, 0) == index_entry(
                    data@,
                    count as int,
                    j as int,
                ),
            },
        decreases count - j,
    {
        if index_idx.is_none() {
            match &names[j] {
                Option::Some(nm) => {
                    let cs = crate::text::str_to_chars(nm.as_str());
                    if crate::text::chars_ends_with(cs.as_slice(), index_suffix.as_slice()) {
                        index_idx = Some(j);
                    }
                },
                Option::None => (),
            }
        }
        j += 1;
    }
    let idx: usize = match index_idx {
        Option::Some(v) => v,
        Option::None => {
            return Err(ImportError::MissingIndex);
        },
    };
    let idx_sizes: (u64, u64) = match zip_entry_sizes(data, idx) {
        Option::Some(s) => s,
        Option::None => {
            return Err(ImportError::NotAnArchive);
        },
    };
    if idx_sizes.0 > limits.max_index_bytes {
        return Err(ImportError::IndexTooLarge);
    }
    let index_bytes = match zip_entry_data(data, idx) {
        Option::Some(v) => v,
        Option::None => {
            return Err(ImportError::ParseError);
        },
    };
    if (index_bytes.len() as u64) > limits.max_index_bytes {
        return Err(ImportError::IndexTooLarge);
    }
    let index_json = match parse_json(index_bytes.as_slice()) {
        Option::Some(v) => v,
        Option::None => {
            return Err(ImportError::ParseError);
        },
    };
    if !index_format_is_v3(&index_json) {
        return Err(ImportError::UnsupportedFormat);
    }
    let title: String = index_title(&index_json);
    let revision: Option<String> = match &index_json {
        Jval::Obj(fields) => match crate::jsonval::get_field(fields, "revision") {
            Option::Some(Jval::Str(s)) => Some(s.clone()),
            _ => None,
        },
        _ => None,
    };
    let description: Option<String> = match &index_json {
        Jval::Obj(fields) => match crate::jsonval::get_field(fields, "description") {
            Option::Some(Jval::Str(s)) => Some(s.clone()),
            _ => None,
        },
        _ => None,
    };
    let title_chars = crate::text::str_to_chars(title.as_str());
    let norm = crate::text::normalize_name(title_chars.as_slice());
    if store.name_in_use(norm.as_slice()) {
        proof {
            assert(import_gate(data@, *limits, gdicts, gnext) == Option::Some(
                ImportError::DuplicateName,
            ));
        }
        return Err(ImportError::DuplicateName);
    }
    if store.next_id == i64::MAX {
        return Err(ImportError::IdExhausted);
    }
    let dict_id: i64 = store.next_id;
    proof {
        assert(parsed_index(data@) == Option::Some(index_json));
        assert(import_gate(data@, *limits, gdicts, gnext) is None);
    }
    // Stage every bank, style sheet and media entry.
    let mut terms: Vec<TermRow> = Vec::new();
    let mut kanji_rows: Vec<KanjiRow> = Vec::new();
    let mut kanji_meta_rows: Vec<KanjiMetaRow> = Vec::new();
    let mut media: Vec<MediaFile> = Vec::new();
    let mut styles: Option<String> = None;
    let mut saw_media = false;
    let mut term_count: u64 = 0;
    let json_suffix = crate::text::str_to_chars(".json");
    let styles_suffix = crate::text::str_to_chars("styles.css");
    let term_bank_sub = crate::text::str_to_chars("term_bank");
    let term_meta_sub = crate::text::str_to_chars("term_meta_bank");
    let kanji_bank_sub = crate::text::str_to_chars("kanji_bank");
    let kanji_meta_sub = crate::text::str_to_chars("kanji_meta_bank");
    let mut e: usize = 0;
    while e < count
        invariant
            wf_store(*store),
            *store == *old(store),
            dict_id == store.next_id,
            store.next_id < i64::MAX,
            !has_dict_name(store.dictionaries@, norm@),
            norm@ == norm_name(title_chars@),
            import_gate(data@, *limits, old(store).dictionaries@, old(store).next_id) is None,
            zip_count_of(data@) == Option::Some(count),
            data@.len() <= limits.max_archive_bytes,
            names@.len() == count,
            e <= count,
            index_suffix@ == "index.json"@,
            json_suffix@ == ".json"@,
            term_bank_sub@ == "term_bank"@,
            term_meta_sub@ == "term_meta_bank"@,
            kanji_bank_sub@ == "kanji_bank"@,
            kanji_meta_sub@ == "kanji_meta_bank"@,
            forall|k: int|
                0 <= k < count ==> crate::codec::opt_view(#[trigger] names@[k]) == zip_name_of(
                    data@,
                    k,
                ),
            forall|k: int|
                0 <= k < e && #[trigger] is_bank_entry(data@, k) ==> bank_parses(data@, k),
            staged_terms_ok(terms@, dict_id),
            staged_kanji_ok(kanji_rows@, dict_id),
            staged_kanji_meta_ok(kanji_meta_rows@, dict_id),
            term_count as int == terms@.len() as int,
            saw_media ==> !config.extract_media,
            forall|i: int| 0 <= i < media@.len() ==> safe_rel_path((#[trigger] media@[i]).path@),
        decreases count - e,
    {
        let nm: String = match &names[e] {
            Option::Some(s) => s.clone(),
            Option::None => {
                proof {
                    assert(!is_bank_entry(data@, e as int));
                }
                e += 1;
                continue ;
            },
        };
        let ghost nmv = nm@;
        proof {
            assert(zip_name_of(data@, e as int) == Option::Some(nmv));
        }
        let cs = crate::text::str_to_chars(nm.as_str());
        let is_json = crate::text::chars_ends_with(cs.as_slice(), json_suffix.as_slice());
        let is_index = crate::text::chars_ends_with(cs.as_slice(), index_suffix.as_slice());
        if is_json && !is_index {
            let is_term_meta = crate::text::chars_contains_sub(
                cs.as_slice(),
                term_meta_sub.as_slice(),
            );
            let is_term = crate::text::chars_contains_sub(cs.as_slice(), term_bank_sub.as_slice());
            let is_kanji_meta = crate::text::chars_contains_sub(
                cs.as_slice(),
                kanji_meta_sub.as_slice(),
            );
            let is_kanji = crate::text::chars_contains_sub(
                cs.as_slice(),
                kanji_bank_sub.as_slice(),
            );
            if is_term_meta || is_term || is_kanji_meta || is_kanji {
                let bytes = match zip_entry_data(data, e) {
                    Option::Some(v) => v,
                    Option::None => {
                        // A corrupt entry whose stream cannot be read:
                        // skip the file and continue the import.
                        proof {
                            assert(bank_parses(data@, e as int));
                        }
                        e += 1;
                        continue ;
                    },
                };
                let repaired = repair(bytes.as_slice());
                let rows: Vec<Jval> = match parse_json(repaired.as_slice()) {
                    Option::Some(Jval::Arr(v)) => v,
                    _ => {
                        proof {
                            assert(is_bank_entry(data@, e as int));
                            assert(!bank_parses(data@, e as int));
                        }
                        return Err(ImportError::ParseError);
                    },
                };
                proof {
                    assert(bank_parses(data@, e as int));
                }
                if is_term_meta {
                    if !stage_meta_bank(
                        &rows,
                        dict_id,
                        config.compress_payloads,
                        &mut terms,
                        &mut term_count,
                        limits.max_term_records,
                    ) {
                        return Err(ImportError::TooManyTerms);
                    }
                } else if is_term {
                    if !stage_term_bank(
                        &rows,
                        dict_id,
                        config.compress_payloads,
                        &mut terms,
                        &mut term_count,
                        limits.max_term_records,
                    ) {
                        return Err(ImportError::TooManyTerms);
                    }
                } else if is_kanji_meta {
                    if !stage_kanji_meta_bank(
                        &rows,
                        dict_id,
                        config.compress_payloads,
                        &mut kanji_meta_rows,
                        &mut terms,
                        &mut term_count,
                        limits.max_term_records,
                    ) {
                        return Err(ImportError::TooManyTerms);
                    }
                } else {
                    stage_kanji_bank(&rows, dict_id, &mut kanji_rows);
                }
            } else {
                proof {
                    assert(!is_bank_entry(data@, e as int));
                }
            }
        } else {
            proof {
                assert(!is_bank_entry(data@, e as int));
            }
            if crate::text::chars_ends_with(cs.as_slice(), styles_suffix.as_slice()) {
                match zip_entry_data(data, e) {
                    Option::Some(v) => {
                        match string_from_utf8(v) {
                            Option::Some(s) => {
                                styles = Some(s);
                            },
                            Option::None => (),
                        }
                    },
                    Option::None => (),
                }
            } else if !is_json {
                let is_dir = cs.len() > 0 && cs[cs.len() - 1] == '/';
                if !is_dir {
                    if config.extract_media {
                        if is_safe_rel_path(cs.as_slice()) {
                            match zip_entry_data(data, e) {
                                Option::Some(v) => {
                                    media.push(MediaFile { path: nm, data: v });
                                    proof {
                                        assert(media@.last().path@ == cs@);
                                        assert(safe_rel_path(media@.last().path@));
                                    }
                                },
                                Option::None => (),
                            }
                        }
                    } else {
                        saw_media = true;
                    }
                }
            }
        }
        e += 1;
    }
    let name_out = title.clone();
    let ghost gtitle = title@;
    let dict = DictRow {
        id: dict_id,
        name: title,
        priority: None,
        enabled: true,
        styles,
        revision,
        description,
    };
    let txn = Txn { dict, terms, kanji: kanji_rows, kanji_meta: kanji_meta_rows };
    proof {
        assert(norm@ == norm_name(txn.dict.name@));
        assert(txn_ok(*store, txn));
        assert(txn.dict.name@ == title_of(index_json));
    }
    let ghost staged_len = txn.terms@.len();
    store.commit(txn);
    proof {
        assert(store.terms@.len() == old(store).terms@.len() + staged_len);
    }
    Ok(
        ImportOutcome {
            dictionary_id: dict_id,
            dictionary_name: name_out,
            term_count,
            media,
            keep_archive: saw_media,
        },
    )
}

} // verus!
