//! The store: the dictionary registry and the term, kanji and kanji-meta
//! tables, with their invariants.
//!
//! An import stages every row in a [`Txn`] and makes them visible in one
//! [`Store::commit`]; a failed import simply drops its transaction, so no
//! partial rows ever reach readers.

use vstd::prelude::*;
use crate::codec::{dec_any, enc, full_dec, lemma_dec_enc, opt_view, wf, PayloadM};
use crate::snappy::{snap_of, unsnap_of};
use crate::text::norm_name;

verus! {

/// One dictionary row.
pub struct DictRow {
    pub id: i64,
    pub name: String,
    pub priority: Option<i64>,
    pub enabled: bool,
    pub styles: Option<String>,
    pub revision: Option<String>,
    pub description: Option<String>,
}

/// One term row: a surface form mapped to an encoded payload.
pub struct TermRow {
    pub term: String,
    pub reading: Option<String>,
    pub dictionary_id: i64,
    pub payload: Vec<u8>,
}

/// One kanji row.
pub struct KanjiRow {
    pub character: char,
    pub dictionary_id: i64,
    pub onyomi: Vec<String>,
    pub kunyomi: Vec<String>,
    pub tags: Vec<String>,
    pub meanings: Vec<String>,
    pub stats: Vec<(String, String)>,
}

/// One kanji-meta row; `data` is JSON text, and `freq_value` carries the
/// numeric frequency when the datum was a plain integer.
pub struct KanjiMetaRow {
    pub character: char,
    pub dictionary_id: i64,
    pub meta_type: String,
    pub data: String,
    pub freq_value: Option<i64>,
}

/// The store.
pub struct Store {
    pub dictionaries: Vec<DictRow>,
    pub terms: Vec<TermRow>,
    pub kanji: Vec<KanjiRow>,
    pub kanji_meta: Vec<KanjiMetaRow>,
    pub next_id: i64,
}

/// Whether some dictionary row carries the given id.
pub open spec fn has_dict_id(dicts: Seq<DictRow>, id: i64) -> bool {
    exists|i: int| 0 <= i < dicts.len() && dicts[i].id == id
}

/// Whether some dictionary row carries the given normalized name.
pub open spec fn has_dict_name(dicts: Seq<DictRow>, name: Seq<char>) -> bool {
    exists|i: int| 0 <= i < dicts.len() && norm_name(dicts[i].name@) == name
}

/// A record's headword, if present, equals the given term.
pub open spec fn headword_ok(p: PayloadM, term: Seq<char>) -> bool {
    match p.headword {
        Option::Some(h) => h == term,
        Option::None => true,
    }
}

/// What every stored term row guarantees: its payload is the encoding —
/// plain or Snappy-compressed — of one well-formed record whose headword,
/// if present, equals the row's term column.
pub open spec fn term_row_ok(t: TermRow) -> bool {
    exists|p: PayloadM|
        #![auto]
        wf(p) && headword_ok(p, t.term@) && (t.payload@ == enc(p) || (t.payload@ == snap_of(
            enc(p),
        ) && unsnap_of(t.payload@) == Option::Some(enc(p))))
}

/// What [`term_row_ok`] gives the read path: decoding the row's payload
/// either yields a record whose headword, if present, equals the row's
/// term, or yields nothing — except possibly for an uncompressed payload
/// whose bytes happen to also form a valid Snappy block, which the read
/// path's compression sniffing cannot tell apart by design.
pub proof fn lemma_term_row_decode(t: TermRow)
    requires
        term_row_ok(t),
    ensures
        ({
            ||| match full_dec(t.payload@) {
                Option::Some(p) => headword_ok(p, t.term@),
                Option::None => true,
            }
            ||| (unsnap_of(t.payload@) is Some && exists|p: PayloadM|
                #![auto]
                wf(p) && t.payload@ == enc(p))
        }),
{
    let p = choose|p: PayloadM|
        #![auto]
        wf(p) && headword_ok(p, t.term@) && (t.payload@ == enc(p) || (t.payload@ == snap_of(
            enc(p),
        ) && unsnap_of(t.payload@) == Option::Some(enc(p))));
    lemma_dec_enc(p);
    if t.payload@ == enc(p) {
        if unsnap_of(t.payload@) is None {
            assert(full_dec(t.payload@) == dec_any(enc(p)));
            assert(dec_any(enc(p)) == Option::Some(p));
        }
    } else {
        assert(unsnap_of(t.payload@) == Option::Some(enc(p)));
        assert(full_dec(t.payload@) == dec_any(enc(p)));
        assert(dec_any(enc(p)) == Option::Some(p));
    }
}

/// The store invariant: unique ids below the allocation counter, unique
/// names under case-insensitive trim comparison, every record owned by an
/// existing dictionary, and every payload decodable per [`term_row_ok`].
pub open spec fn wf_store(s: Store) -> bool {
    &&& forall|i: int, j: int|
        0 <= i < j < s.dictionaries@.len() ==> s.dictionaries@[i].id != s.dictionaries@[j].id
    &&& forall|i: int, j: int|
        0 <= i < j < s.dictionaries@.len() ==> norm_name(s.dictionaries@[i].name@) != norm_name(
            s.dictionaries@[j].name@,
        )
    &&& forall|i: int|
        0 <= i < s.dictionaries@.len() ==> 0 <= #[trigger] s.dictionaries@[i].id < s.next_id
    &&& 0 <= s.next_id
    &&& forall|i: int|
        0 <= i < s.terms@.len() ==> has_dict_id(
            s.dictionaries@,
            #[trigger] s.terms@[i].dictionary_id,
        )
    &&& forall|i: int| 0 <= i < s.terms@.len() ==> term_row_ok(#[trigger] s.terms@[i])
    &&& forall|i: int|
        0 <= i < s.kanji@.len() ==> has_dict_id(
            s.dictionaries@,
            #[trigger] s.kanji@[i].dictionary_id,
        )
    &&& forall|i: int|
        0 <= i < s.kanji_meta@.len() ==> has_dict_id(
            s.dictionaries@,
            #[trigger] s.kanji_meta@[i].dictionary_id,
        )
}

/// One pending import: a reserved dictionary row and the record rows that
/// will become visible with it, all at once, on commit.
pub struct Txn {
    pub dict: DictRow,
    pub terms: Vec<TermRow>,
    pub kanji: Vec<KanjiRow>,
    pub kanji_meta: Vec<KanjiMetaRow>,
}

/// What a transaction must satisfy to commit against a store.
pub open spec fn txn_ok(s: Store, t: Txn) -> bool {
    &&& t.dict.id == s.next_id
    &&& s.next_id < i64::MAX
    &&& !has_dict_name(s.dictionaries@, norm_name(t.dict.name@))
    &&& forall|i: int| 0 <= i < t.terms@.len() ==> #[trigger] t.terms@[i].dictionary_id == t.dict.id
    &&& forall|i: int| 0 <= i < t.terms@.len() ==> term_row_ok(#[trigger] t.terms@[i])
    &&& forall|i: int| 0 <= i < t.kanji@.len() ==> #[trigger] t.kanji@[i].dictionary_id == t.dict.id
    &&& forall|i: int|
        0 <= i < t.kanji_meta@.len() ==> #[trigger] t.kanji_meta@[i].dictionary_id == t.dict.id
}

/// The fields of two dictionary rows agree, except possibly `enabled`
/// and `priority`.
pub open spec fn dict_core_eq(d: DictRow, o: DictRow) -> bool {
    &&& d.id == o.id
    &&& d.name@ == o.name@
    &&& opt_view(d.styles) == opt_view(o.styles)
    &&& opt_view(d.revision) == opt_view(o.revision)
    &&& opt_view(d.description) == opt_view(o.description)
}

impl Store {
    /// An empty store.
    pub fn new() -> (r: Store)
        ensures
            wf_store(r),
            r.dictionaries@.len() == 0,
            r.terms@.len() == 0,
            r.kanji@.len() == 0,
            r.kanji_meta@.len() == 0,
            r.next_id == 0,
    {
        Store {
            dictionaries: Vec::new(),
            terms: Vec::new(),
            kanji: Vec::new(),
            kanji_meta: Vec::new(),
            next_id: 0,
        }
    }

    /// Whether a dictionary with this normalized name exists.
    pub fn name_in_use(&self, norm: &[char]) -> (r: bool)
        ensures
            r == has_dict_name(self.dictionaries@, norm@),
    {
        proof {
            vstd::slice::axiom_spec_len(norm);
        }
        let n = self.dictionaries.len();
        let mut i: usize = 0;
        while i < n
            invariant
                n == self.dictionaries@.len(),
                i <= n,
                forall|k: int| 0 <= k < i ==> norm_name(self.dictionaries@[k].name@) != norm@,
            decreases n - i,
        {
            let chars = crate::text::str_to_chars(self.dictionaries[i].name.as_str());
            let row_norm = crate::text::normalize_name(chars.as_slice());
            if crate::text::chars_eq(row_norm.as_slice(), norm) {
                return true;
            }
            i += 1;
        }
        false
    }

    /// Whether a dictionary with this id exists.
    pub fn id_in_use(&self, id: i64) -> (r: bool)
        ensures
            r == has_dict_id(self.dictionaries@, id),
    {
        let n = self.dictionaries.len();
        let mut i: usize = 0;
        while i < n
            invariant
                n == self.dictionaries@.len(),
                i <= n,
                forall|k: int| 0 <= k < i ==> self.dictionaries@[k].id != id,
            decreases n - i,
        {
            if self.dictionaries[i].id == id {
                return true;
            }
            i += 1;
        }
        false
    }

    /// Makes a whole pending import visible at once: the one new
    /// dictionary row and every staged record.
    pub fn commit(&mut self, t: Txn)
        requires
            wf_store(*old(self)),
            txn_ok(*old(self), t),
        ensures
            wf_store(*final(self)),
            final(self).dictionaries@ == old(self).dictionaries@.push(t.dict),
            final(self).terms@ == old(self).terms@ + t.terms@,
            final(self).kanji@ == old(self).kanji@ + t.kanji@,
            final(self).kanji_meta@ == old(self).kanji_meta@ + t.kanji_meta@,
            final(self).next_id == old(self).next_id + 1,
    {
        let ghost g = t;
        let Txn { dict, mut terms, mut kanji, mut kanji_meta } = t;
        self.dictionaries.push(dict);
        self.terms.append(&mut terms);
        self.kanji.append(&mut kanji);
        self.kanji_meta.append(&mut kanji_meta);
        self.next_id = self.next_id + 1;
        proof {
            let d = self.dictionaries@;
            let od = old(self).dictionaries@;
            assert(d == od.push(g.dict));
            assert(d[d.len() - 1] == g.dict);
            assert forall|i: int| 0 <= i < self.terms@.len() implies has_dict_id(
                d,
                #[trigger] self.terms@[i].dictionary_id,
            ) by {
                if i < old(self).terms@.len() {
                    assert(self.terms@[i] == old(self).terms@[i]);
                    let w = choose|k: int|
                        0 <= k < od.len() && od[k].id == old(self).terms@[i].dictionary_id;
                    assert(d[w].id == self.terms@[i].dictionary_id);
                } else {
                    assert(self.terms@[i] == g.terms@[i - old(self).terms@.len()]);
                    assert(d[d.len() - 1].id == g.dict.id);
                }
            }
            assert forall|i: int| 0 <= i < self.kanji@.len() implies has_dict_id(
                d,
                #[trigger] self.kanji@[i].dictionary_id,
            ) by {
                if i < old(self).kanji@.len() {
                    assert(self.kanji@[i] == old(self).kanji@[i]);
                    let w = choose|k: int|
                        0 <= k < od.len() && od[k].id == old(self).kanji@[i].dictionary_id;
                    assert(d[w].id == self.kanji@[i].dictionary_id);
                } else {
                    assert(self.kanji@[i] == g.kanji@[i - old(self).kanji@.len()]);
                    assert(d[d.len() - 1].id == g.dict.id);
                }
            }
            assert forall|i: int| 0 <= i < self.kanji_meta@.len() implies has_dict_id(
                d,
                #[trigger] self.kanji_meta@[i].dictionary_id,
            ) by {
                if i < old(self).kanji_meta@.len() {
                    assert(self.kanji_meta@[i] == old(self).kanji_meta@[i]);
                    let w = choose|k: int|
                        0 <= k < od.len() && od[k].id == old(self).kanji_meta@[i].dictionary_id;
                    assert(d[w].id == self.kanji_meta@[i].dictionary_id);
                } else {
                    assert(self.kanji_meta@[i] == g.kanji_meta@[i - old(self).kanji_meta@.len()]);
                    assert(d[d.len() - 1].id == g.dict.id);
                }
            }
            assert forall|i: int| 0 <= i < self.terms@.len() implies term_row_ok(
                #[trigger] self.terms@[i],
            ) by {
                if i < old(self).terms@.len() {
                    assert(self.terms@[i] == old(self).terms@[i]);
                } else {
                    assert(self.terms@[i] == g.terms@[i - old(self).terms@.len()]);
                }
            }
        }
    }

    /// The row index of the dictionary with the given id.
    pub fn find_dict(&self, id: i64) -> (r: Option<usize>)
        ensures
            match r {
                Option::Some(i) => i < self.dictionaries@.len() && self.dictionaries@[
                    i as int
                ].id == id,
                Option::None => !has_dict_id(self.dictionaries@, id),
            },
    {
        let n = self.dictionaries.len();
        let mut i: usize = 0;
        while i < n
            invariant
                n == self.dictionaries@.len(),
                i <= n,
                forall|k: int| 0 <= k < i ==> self.dictionaries@[k].id != id,
            decreases n - i,
        {
            if self.dictionaries[i].id == id {
                return Some(i);
            }
            i += 1;
        }
        None
    }

    /// Flips the `enabled` flag of the dictionary with the given id;
    /// returns whether such a dictionary exists. No other row changes.
    pub fn set_dictionary_enabled(&mut self, id: i64, enabled: bool) -> (r: bool)
        requires
            wf_store(*old(self)),
        ensures
            wf_store(*final(self)),
            r == has_dict_id(old(self).dictionaries@, id),
            final(self).terms@ == old(self).terms@,
            final(self).kanji@ == old(self).kanji@,
            final(self).kanji_meta@ == old(self).kanji_meta@,
            final(self).next_id == old(self).next_id,
            final(self).dictionaries@.len() == old(self).dictionaries@.len(),
            forall|i: int|
                0 <= i < final(self).dictionaries@.len() && old(self).dictionaries@[i].id != id
                    ==> #[trigger] final(self).dictionaries@[i] == old(self).dictionaries@[i],
            forall|i: int|
                0 <= i < final(self).dictionaries@.len() && old(self).dictionaries@[i].id == id
                    ==> {
                    &&& dict_core_eq(
                        #[trigger] final(self).dictionaries@[i],
                        old(self).dictionaries@[i],
                    )
                    &&& final(self).dictionaries@[i].priority == old(self).dictionaries@[
                        i
                    ].priority
                    &&& final(self).dictionaries@[i].enabled == enabled
                },
    {
        match self.find_dict(id) {
            Option::Some(i) => {
                let row = &self.dictionaries[i];
                let updated = DictRow {
                    id: row.id,
                    name: row.name.clone(),
                    priority: row.priority,
                    enabled,
                    styles: row.styles.clone(),
                    revision: row.revision.clone(),
                    description: row.description.clone(),
                };
                self.dictionaries[i] = updated;
                proof {
                    self.lemma_dict_update_wf(*old(self), i as int, id);
                }
                true
            },
            Option::None => false,
        }
    }

    /// Sets the priority of the dictionary with the given id; returns
    /// whether such a dictionary exists. No other row changes.
    pub fn set_dictionary_priority(&mut self, id: i64, priority: i64) -> (r: bool)
        requires
            wf_store(*old(self)),
        ensures
            wf_store(*final(self)),
            r == has_dict_id(old(self).dictionaries@, id),
            final(self).terms@ == old(self).terms@,
            final(self).kanji@ == old(self).kanji@,
            final(self).kanji_meta@ == old(self).kanji_meta@,
            final(self).next_id == old(self).next_id,
            final(self).dictionaries@.len() == old(self).dictionaries@.len(),
            forall|i: int|
                0 <= i < final(self).dictionaries@.len() && old(self).dictionaries@[i].id != id
                    ==> #[trigger] final(self).dictionaries@[i] == old(self).dictionaries@[i],
            forall|i: int|
                0 <= i < final(self).dictionaries@.len() && old(self).dictionaries@[i].id == id
                    ==> {
                    &&& dict_core_eq(
                        #[trigger] final(self).dictionaries@[i],
                        old(self).dictionaries@[i],
                    )
                    &&& final(self).dictionaries@[i].priority == Option::Some(priority)
                    &&& final(self).dictionaries@[i].enabled == old(self).dictionaries@[i].enabled
                },
    {
        match self.find_dict(id) {
            Option::Some(i) => {
                let row = &self.dictionaries[i];
                let updated = DictRow {
                    id: row.id,
                    name: row.name.clone(),
                    priority: Some(priority),
                    enabled: row.enabled,
                    styles: row.styles.clone(),
                    revision: row.revision.clone(),
                    description: row.description.clone(),
                };
                self.dictionaries[i] = updated;
                proof {
                    self.lemma_dict_update_wf(*old(self), i as int, id);
                }
                true
            },
            Option::None => false,
        }
    }

    /// After one dictionary row is replaced by a row with the same id and
    /// name, the store invariant still holds.
    proof fn lemma_dict_update_wf(&self, pre: Store, i: int, id: i64)
        requires
            wf_store(pre),
            self.terms@ == pre.terms@,
            self.kanji@ == pre.kanji@,
            self.kanji_meta@ == pre.kanji_meta@,
            self.next_id == pre.next_id,
            0 <= i < pre.dictionaries@.len(),
            self.dictionaries@.len() == pre.dictionaries@.len(),
            forall|k: int|
                0 <= k < pre.dictionaries@.len() && k != i ==> #[trigger] self.dictionaries@[k]
                    == pre.dictionaries@[k],
            self.dictionaries@[i].id == pre.dictionaries@[i].id,
            self.dictionaries@[i].name@ == pre.dictionaries@[i].name@,
        ensures
            wf_store(*self),
    {
        let d = self.dictionaries@;
        let od = pre.dictionaries@;
        assert forall|a: int, b: int| 0 <= a < b < d.len() implies d[a].id != d[b].id by {
            assert(od[a].id != od[b].id);
            assert(d[a].id == od[a].id && d[b].id == od[b].id);
        }
        assert forall|a: int, b: int| 0 <= a < b < d.len() implies norm_name(d[a].name@)
            != norm_name(d[b].name@) by {
            assert(norm_name(od[a].name@) != norm_name(od[b].name@));
            assert(d[a].name@ == od[a].name@ && d[b].name@ == od[b].name@);
        }
        assert forall|a: int| 0 <= a < d.len() implies 0 <= #[trigger] d[a].id < self.next_id by {
            assert(d[a].id == od[a].id);
        }
        assert forall|k: int| 0 <= k < self.terms@.len() implies has_dict_id(
            d,
            #[trigger] self.terms@[k].dictionary_id,
        ) by {
            let w = choose|m: int| 0 <= m < od.len() && od[m].id == self.terms@[k].dictionary_id;
            assert(d[w].id == self.terms@[k].dictionary_id);
        }
        assert forall|k: int| 0 <= k < self.kanji@.len() implies has_dict_id(
            d,
            #[trigger] self.kanji@[k].dictionary_id,
        ) by {
            let w = choose|m: int| 0 <= m < od.len() && od[m].id == self.kanji@[k].dictionary_id;
            assert(d[w].id == self.kanji@[k].dictionary_id);
        }
        assert forall|k: int| 0 <= k < self.kanji_meta@.len() implies has_dict_id(
            d,
            #[trigger] self.kanji_meta@[k].dictionary_id,
        ) by {
            let w = choose|m: int|
                0 <= m < od.len() && od[m].id == self.kanji_meta@[k].dictionary_id;
            assert(d[w].id == self.kanji_meta@[k].dictionary_id);
        }
    }

    /// The dictionary rows, in registration order.
    pub fn list_dictionaries(&self) -> (r: &Vec<DictRow>)
        ensures
            r@ == self.dictionaries@,
    {
        &self.dictionaries
    }

    /// The CSS attached to the dictionary with the given id: `None`
    /// exactly when no dictionary with that id carries styles.
    pub fn styles_for(&self, id: i64) -> (r: Option<&String>)
        requires
            wf_store(*self),
        ensures
            match r {
                Option::Some(s) => exists|i: int|
                    0 <= i < self.dictionaries@.len() && (#[trigger] self.dictionaries@[i]).id
                        == id && self.dictionaries@[i].styles == Option::Some(*s),
                Option::None => forall|i: int|
                    0 <= i < self.dictionaries@.len() && (#[trigger] self.dictionaries@[i]).id
                        == id ==> self.dictionaries@[i].styles is None,
            },
    {
        match self.find_dict(id) {
            Option::Some(i) => {
                match &self.dictionaries[i].styles {
                    Option::Some(s) => Some(s),
                    Option::None => {
                        proof {
                            assert forall|k: int|
                                0 <= k < self.dictionaries@.len() && (
                                #[trigger] self.dictionaries@[k]).id == id implies self.dictionaries@[
                                k
                            ].styles is None by {
                                assert(k == i as int);
                            }
                        }
                        None
                    },
                }
            },
            Option::None => None,
        }
    }

    /// The row indexes of every term row whose term equals the key, in
    /// row order.
    pub fn query_terms(&self, key: &str) -> (r: Vec<usize>)
        ensures
            forall|k: int|
                0 <= k < r@.len() ==> (#[trigger] r@[k]) < self.terms@.len() && self.terms@[
                    r@[k] as int
                ].term@ == key@,
            forall|k1: int, k2: int| 0 <= k1 < k2 < r@.len() ==> r@[k1] < r@[k2],
            forall|j: int|
                0 <= j < self.terms@.len() && (#[trigger] self.terms@[j]).term@ == key@
                    ==> r@.contains(j as usize),
    {
        let n = self.terms.len();
        let mut out: Vec<usize> = Vec::new();
        let mut i: usize = 0;
        while i < n
            invariant
                n == self.terms@.len(),
                i <= n,
                forall|k: int|
                    0 <= k < out@.len() ==> (#[trigger] out@[k]) < i && self.terms@[
                        out@[k] as int
                    ].term@ == key@,
                forall|k1: int, k2: int| 0 <= k1 < k2 < out@.len() ==> out@[k1] < out@[k2],
                forall|j: int|
                    0 <= j < i && (#[trigger] self.terms@[j]).term@ == key@ ==> out@.contains(
                        j as usize,
                    ),
            decreases n - i,
        {
            if crate::text::str_eq(self.terms[i].term.as_str(), key) {
                let ghost pre = out@;
                out.push(i);
                proof {
                    assert(out@[out@.len() - 1] == i as usize);
                    assert forall|j: int|
                        0 <= j < i + 1 && (#[trigger] self.terms@[j]).term@ == key@
                        implies out@.contains(j as usize) by {
                        if j < i {
                            let w = choose|w: int| 0 <= w < pre.len() && pre[w] == j as usize;
                            assert(out@[w] == j as usize);
                        } else {
                            assert(out@[out@.len() - 1] == j as usize);
                        }
                    }
                }
            }
            i += 1;
        }
        out
    }

    /// The row indexes of every kanji row for the given character.
    pub fn query_kanji(&self, c: char) -> (r: Vec<usize>)
        ensures
            forall|k: int|
                0 <= k < r@.len() ==> (#[trigger] r@[k]) < self.kanji@.len() && self.kanji@[
                    r@[k] as int
                ].character == c,
            forall|j: int|
                0 <= j < self.kanji@.len() && (#[trigger] self.kanji@[j]).character == c
                    ==> r@.contains(j as usize),
    {
        let n = self.kanji.len();
        let mut out: Vec<usize> = Vec::new();
        let mut i: usize = 0;
        while i < n
            invariant
                n == self.kanji@.len(),
                i <= n,
                forall|k: int|
                    0 <= k < out@.len() ==> (#[trigger] out@[k]) < i && self.kanji@[
                        out@[k] as int
                    ].character == c,
                forall|j: int|
                    0 <= j < i && (#[trigger] self.kanji@[j]).character == c ==> out@.contains(
                        j as usize,
                    ),
            decreases n - i,
        {
            if self.kanji[i].character == c {
                let ghost pre = out@;
                out.push(i);
                proof {
                    assert(out@[out@.len() - 1] == i as usize);
                    assert forall|j: int|
                        0 <= j < i + 1 && (#[trigger] self.kanji@[j]).character == c
                        implies out@.contains(j as usize) by {
                        if j < i {
                            let w = choose|w: int| 0 <= w < pre.len() && pre[w] == j as usize;
                            assert(out@[w] == j as usize);
                        } else {
                            assert(out@[out@.len() - 1] == j as usize);
                        }
                    }
                }
            }
            i += 1;
        }
        out
    }

    /// The row indexes of every kanji-meta row for the given character.
    pub fn query_kanji_meta(&self, c: char) -> (r: Vec<usize>)
        ensures
            forall|k: int|
                0 <= k < r@.len() ==> (#[trigger] r@[k]) < self.kanji_meta@.len()
                    && self.kanji_meta@[r@[k] as int].character == c,
            forall|j: int|
                0 <= j < self.kanji_meta@.len() && (#[trigger] self.kanji_meta@[j]).character == c
                    ==> r@.contains(j as usize),
    {
        let n = self.kanji_meta.len();
        let mut out: Vec<usize> = Vec::new();
        let mut i: usize = 0;
        while i < n
            invariant
                n == self.kanji_meta@.len(),
                i <= n,
                forall|k: int|
                    0 <= k < out@.len() ==> (#[trigger] out@[k]) < i && self.kanji_meta@[
                        out@[k] as int
                    ].character == c,
                forall|j: int|
                    0 <= j < i && (#[trigger] self.kanji_meta@[j]).character == c
                        ==> out@.contains(j as usize),
            decreases n - i,
        {
            if self.kanji_meta[i].character == c {
                let ghost pre = out@;
                out.push(i);
                proof {
                    assert(out@[out@.len() - 1] == i as usize);
                    assert forall|j: int|
                        0 <= j < i + 1 && (#[trigger] self.kanji_meta@[j]).character == c
                        implies out@.contains(j as usize) by {
                        if j < i {
                            let w = choose|w: int| 0 <= w < pre.len() && pre[w] == j as usize;
                            assert(out@[w] == j as usize);
                        } else {
                            assert(out@[out@.len() - 1] == j as usize);
                        }
                    }
                }
            }
            i += 1;
        }
        out
    }
}

} // verus!
