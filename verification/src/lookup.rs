//! The lookup: ranked dictionary entries for the word at a cursor
//! position. Candidate surface forms are tried longest prefix first,
//! deinflected per language, probed against the store, decoded, and
//! sorted by span, dictionary priority and frequency.

use vstd::prelude::*;
use vstd::assert_multisets_equal;
use vstd::multiset::Multiset;
use vstd::string::StringSliceAdditionalSpecFns;
use vstd::slice::slice_subrange;
use vstd::utf8::{decode_utf8, encode_utf8, encode_utf8_decode_utf8, encode_utf8_valid_utf8,
    is_char_boundary};
use crate::codec::{decode_payload, full_dec, Payload};
use crate::deinflect::{is_latin_script, latin_script, Deinflector, Language};
use crate::store::{wf_store, Store};
use crate::text::{chars_to_string, contains_view, lemma_contains_view_extend, str_eq,
    str_to_chars};
use crate::textio::{char_from_u32, lowercase};

verus! {

/// The span of the search window, in characters.
pub const WINDOW_CHARS: usize = 24;

/// The span of the kanji search window, in characters.
pub const KANJI_WINDOW_CHARS: usize = 10;

/// The priority of a dictionary that has none set.
pub const DEFAULT_PRIORITY: i64 = 999;

/// The frequency sort key of a kanji entry with no numeric frequency.
pub const DEFAULT_KANJI_FREQ: i64 = 999999;

// ------------------------------------------------------------------
// Cursor snapping
// ------------------------------------------------------------------

/// The position a byte offset snaps down to: the offset itself on a
/// boundary, else the nearest boundary below it, and the text's length
/// for an offset at or past the end.
pub open spec fn snap_down(b: Seq<u8>, index: int) -> int
    decreases index,
    when 0 <= index
{
    if index >= b.len() {
        b.len() as int
    } else if is_char_boundary(b, index) {
        index
    } else if index == 0 {
        0
    } else {
        snap_down(b, index - 1)
    }
}

/// Snaps a byte offset down to the nearest UTF-8 character boundary:
/// the result is the greatest boundary at or below the offset, and the
/// text's length for an offset at or past the end.
pub fn snap_to_char_boundary(text: &str, index: usize) -> (r: usize)
    ensures
        r == snap_down(text.spec_bytes(), index as int),
        index >= text.spec_bytes().len() ==> r == text.spec_bytes().len(),
        index < text.spec_bytes().len() ==> {
            &&& r <= index
            &&& is_char_boundary(text.spec_bytes(), r as int)
            &&& forall|k: int|
                r < k <= index ==> !is_char_boundary(text.spec_bytes(), k)
        },
{
    proof {
        broadcast use encode_utf8_valid_utf8;

    }
    let b = text.as_bytes();
    proof {
        vstd::slice::axiom_spec_len(b);
    }
    if index >= b.len() {
        return b.len();
    }
    let mut i: usize = index;
    while !text.is_char_boundary(i)
        invariant
            i <= index < text.spec_bytes().len(),
            snap_down(text.spec_bytes(), index as int) == snap_down(text.spec_bytes(), i as int),
            forall|k: int| i < k <= index ==> !is_char_boundary(text.spec_bytes(), k),
        decreases i,
    {
        proof {
            broadcast use encode_utf8_valid_utf8;

            assert(is_char_boundary(text.spec_bytes(), 0));
            assert(i != 0);
        }
        i -= 1;
    }
    i
}

// ------------------------------------------------------------------
// Japanese character helpers
// ------------------------------------------------------------------

/// An ideograph of the CJK unified block.
pub open spec fn is_kanji_char(c: char) -> bool {
    0x4E00 <= c as u32 && c as u32 <= 0x9FFF
}

pub fn is_kanji(c: char) -> (r: bool)
    ensures
        r == is_kanji_char(c),
{
    0x4E00 <= c as u32 && c as u32 <= 0x9FFF
}

/// The hiragana vowel row of a kana character, used to expand the
/// prolonged sound mark.
pub open spec fn kana_vowel(c: char) -> Option<char> {
    if c == 'あ' || c == 'ぁ' || c == 'か' || c == 'が' || c == 'さ' || c == 'ざ' || c == 'た'
        || c == 'だ' || c == 'な' || c == 'は' || c == 'ば' || c == 'ぱ' || c == 'ま' || c == 'ゃ'
        || c == 'や' || c == 'ら' || c == 'わ' {
        Option::Some('あ')
    } else if c == 'い' || c == 'ぃ' || c == 'き' || c == 'ぎ' || c == 'し' || c == 'じ' || c == 'ち'
        || c == 'ぢ' || c == 'に' || c == 'ひ' || c == 'び' || c == 'ぴ' || c == 'み' || c == 'り' {
        Option::Some('い')
    } else if c == 'う' || c == 'ぅ' || c == 'ゔ' || c == 'く' || c == 'ぐ' || c == 'す' || c == 'ず'
        || c == 'つ' || c == 'づ' || c == 'っ' || c == 'ぬ' || c == 'ふ' || c == 'ぶ' || c == 'ぷ'
        || c == 'む' || c == 'ゅ' || c == 'ゆ' || c == 'る' {
        Option::Some('う')
    } else if c == 'え' || c == 'ぇ' || c == 'け' || c == 'げ' || c == 'せ' || c == 'ぜ' || c == 'て'
        || c == 'で' || c == 'ね' || c == 'へ' || c == 'べ' || c == 'ぺ' || c == 'め' || c == 'れ' {
        Option::Some('え')
    } else if c == 'お' || c == 'ぉ' || c == 'こ' || c == 'ご' || c == 'そ' || c == 'ぞ' || c == 'と'
        || c == 'ど' || c == 'の' || c == 'ほ' || c == 'ぼ' || c == 'ぽ' || c == 'も' || c == 'ょ'
        || c == 'よ' || c == 'ろ' || c == 'を' {
        Option::Some('お')
    } else {
        Option::None
    }
}

fn kana_vowel_exec(c: char) -> (r: Option<char>)
    ensures
        r == kana_vowel(c),
{
    if c == 'あ' || c == 'ぁ' || c == 'か' || c == 'が' || c == 'さ' || c == 'ざ' || c == 'た'
        || c == 'だ' || c == 'な' || c == 'は' || c == 'ば' || c == 'ぱ' || c == 'ま' || c == 'ゃ'
        || c == 'や' || c == 'ら' || c == 'わ' {
        Some('あ')
    } else if c == 'い' || c == 'ぃ' || c == 'き' || c == 'ぎ' || c == 'し' || c == 'じ' || c == 'ち'
        || c == 'ぢ' || c == 'に' || c == 'ひ' || c == 'び' || c == 'ぴ' || c == 'み' || c == 'り' {
        Some('い')
    } else if c == 'う' || c == 'ぅ' || c == 'ゔ' || c == 'く' || c == 'ぐ' || c == 'す' || c == 'ず'
        || c == 'つ' || c == 'づ' || c == 'っ' || c == 'ぬ' || c == 'ふ' || c == 'ぶ' || c == 'ぷ'
        || c == 'む' || c == 'ゅ' || c == 'ゆ' || c == 'る' {
        Some('う')
    } else if c == 'え' || c == 'ぇ' || c == 'け' || c == 'げ' || c == 'せ' || c == 'ぜ' || c == 'て'
        || c == 'で' || c == 'ね' || c == 'へ' || c == 'べ' || c == 'ぺ' || c == 'め' || c == 'れ' {
        Some('え')
    } else if c == 'お' || c == 'ぉ' || c == 'こ' || c == 'ご' || c == 'そ' || c == 'ぞ' || c == 'と'
        || c == 'ど' || c == 'の' || c == 'ほ' || c == 'ぼ' || c == 'ぽ' || c == 'も' || c == 'ょ'
        || c == 'よ' || c == 'ろ' || c == 'を' {
        Some('お')
    } else {
        None
    }
}

/// The hiragana counterpart of a katakana character.
pub open spec fn kata_to_hira_char(c: char) -> char {
    if 0x30A1 <= c as u32 && c as u32 <= 0x30F6 {
        ((c as u32) - 0x60) as char
    } else {
        c
    }
}

/// The katakana-to-hiragana variant of a word.
pub open spec fn hira_variant_spec(s: Seq<char>) -> Seq<char> {
    s.map_values(|c: char| kata_to_hira_char(c))
}

/// The word with each prolonged sound mark replaced by the vowel of the
/// kana before it.
pub open spec fn expand_prolonged_spec(s: Seq<char>) -> Seq<char>
    decreases s.len(),
{
    if s.len() == 0 {
        Seq::empty()
    } else {
        let rest = expand_prolonged_spec(s.drop_last());
        let c = s.last();
        if c as u32 == 0x30FC && rest.len() > 0 {
            match kana_vowel(rest.last()) {
                Option::Some(v) => rest.push(v),
                Option::None => rest.push(c),
            }
        } else {
            rest.push(c)
        }
    }
}

/// The word with the Arabic diacritics (the harakat block) dropped.
pub open spec fn strip_diacritics_spec(s: Seq<char>) -> Seq<char>
    decreases s.len(),
{
    if s.len() == 0 {
        Seq::empty()
    } else {
        let rest = strip_diacritics_spec(s.drop_last());
        let c = s.last();
        if 0x64B <= c as u32 && c as u32 <= 0x65F {
            rest
        } else {
            rest.push(c)
        }
    }
}

/// Maps one katakana character to its hiragana counterpart.
fn kata_to_hira(c: char) -> (r: char)
    ensures
        r == kata_to_hira_char(c),
{
    let v = c as u32;
    if 0x30A1 <= v && v <= 0x30F6 {
        match char_from_u32(v - 0x60) {
            Option::Some(h) => {
                proof {
                    vstd::utf8::char_u32_cast(h, (v - 0x60) as u32);
                }
                h
            },
            Option::None => {
                proof {
                    assert(vstd::utf8::is_scalar((v - 0x60) as u32));
                }
                c
            },
        }
    } else {
        c
    }
}

/// The katakana-to-hiragana variant of a word.
fn hira_variant(w: &[char]) -> (r: Vec<char>)
    ensures
        r@ == hira_variant_spec(w@),
{
    proof {
        vstd::slice::axiom_spec_len(w);
    }
    let n = w.len();
    let mut out: Vec<char> = Vec::new();
    let mut i: usize = 0;
    proof {
        assert(out@ =~= w@.take(0).map_values(|c: char| kata_to_hira_char(c)));
    }
    while i < n
        invariant
            n == w@.len(),
            i <= n,
            out@ == w@.take(i as int).map_values(|c: char| kata_to_hira_char(c)),
        decreases n - i,
    {
        out.push(kata_to_hira(w[i]));
        proof {
            assert(out@ =~= w@.take(i as int + 1).map_values(|c: char| kata_to_hira_char(c)));
        }
        i += 1;
    }
    proof {
        assert(w@.take(n as int) =~= w@);
    }
    out
}

/// Replaces each prolonged sound mark with the vowel of the kana before
/// it.
fn expand_prolonged(w: &[char]) -> (r: Vec<char>)
    ensures
        r@ == expand_prolonged_spec(w@),
{
    proof {
        vstd::slice::axiom_spec_len(w);
    }
    let n = w.len();
    let mut out: Vec<char> = Vec::new();
    let mut i: usize = 0;
    while i < n
        invariant
            n == w@.len(),
            i <= n,
            out@.len() == i,
            out@ == expand_prolonged_spec(w@.take(i as int)),
        decreases n - i,
    {
        let c = w[i];
        proof {
            assert(w@.take(i as int + 1).drop_last() =~= w@.take(i as int));
            assert(w@.take(i as int + 1).last() == w@[i as int]);
        }
        if c as u32 == 0x30FC && i > 0 {
            match kana_vowel_exec(out[i - 1]) {
                Option::Some(v) => out.push(v),
                Option::None => out.push(c),
            }
        } else {
            out.push(c);
        }
        i += 1;
    }
    proof {
        assert(w@.take(n as int) =~= w@);
    }
    out
}

/// Drops Arabic diacritics (the harakat block).
fn strip_diacritics(w: &[char]) -> (r: Vec<char>)
    ensures
        r@ == strip_diacritics_spec(w@),
{
    proof {
        vstd::slice::axiom_spec_len(w);
    }
    let n = w.len();
    let mut out: Vec<char> = Vec::new();
    let mut i: usize = 0;
    while i < n
        invariant
            n == w@.len(),
            i <= n,
            out@ == strip_diacritics_spec(w@.take(i as int)),
        decreases n - i,
    {
        proof {
            assert(w@.take(i as int + 1).drop_last() =~= w@.take(i as int));
            assert(w@.take(i as int + 1).last() == w@[i as int]);
        }
        let v = w[i] as u32;
        if !(0x64B <= v && v <= 0x65F) {
            out.push(w[i]);
        }
        i += 1;
    }
    proof {
        assert(w@.take(n as int) =~= w@);
    }
    out
}

/// The per-language variant facts survive appending more candidates.
proof fn variant_facts_extend(lang: Language, sub: Seq<char>, pre: Seq<String>, post: Seq<String>)
    requires
        pre.len() <= post.len(),
        forall|i: int| 0 <= i < pre.len() ==> #[trigger] post[i] == pre[i],
        lang == Language::Japanese ==> contains_view(pre, hira_variant_spec(sub)) && contains_view(
            pre,
            expand_prolonged_spec(hira_variant_spec(sub)),
        ),
        lang == Language::Arabic ==> contains_view(pre, strip_diacritics_spec(sub)),
        is_latin_script(lang) ==> contains_view(pre, crate::textio::lower_of(sub)),
    ensures
        lang == Language::Japanese ==> contains_view(post, hira_variant_spec(sub))
            && contains_view(post, expand_prolonged_spec(hira_variant_spec(sub))),
        lang == Language::Arabic ==> contains_view(post, strip_diacritics_spec(sub)),
        is_latin_script(lang) ==> contains_view(post, crate::textio::lower_of(sub)),
{
    if lang == Language::Japanese {
        lemma_contains_view_extend(pre, post, hira_variant_spec(sub));
        lemma_contains_view_extend(pre, post, expand_prolonged_spec(hira_variant_spec(sub)));
    }
    if lang == Language::Arabic {
        lemma_contains_view_extend(pre, post, strip_diacritics_spec(sub));
    }
    if is_latin_script(lang) {
        lemma_contains_view_extend(pre, post, crate::textio::lower_of(sub));
    }
}

// ------------------------------------------------------------------
// Candidate generation and filtering
// ------------------------------------------------------------------

/// Whether a list of strings holds one with this view.
pub fn strings_contain(v: &Vec<String>, s: &str) -> (r: bool)
    ensures
        r == v@.map_values(|t: String| t@).contains(s@),
{
    let n = v.len();
    let mut i: usize = 0;
    while i < n
        invariant
            n == v@.len(),
            i <= n,
            forall|k: int| 0 <= k < i ==> (#[trigger] v@[k])@ != s@,
        decreases n - i,
    {
        if str_eq(v[i].as_str(), s) {
            proof {
                assert(v@.map_values(|t: String| t@)[i as int] == s@);
            }
            return true;
        }
        i += 1;
    }
    false
}

/// The validity filter: a deinflected candidate is accepted when it
/// equals its source, or — for the ideograph-aware languages — when
/// every ideograph it holds also stands in the source.
pub open spec fn valid_candidate(lang: Language, src: Seq<char>, cand: Seq<char>) -> bool {
    ||| src == cand
    ||| if lang == Language::Japanese || lang == Language::Chinese {
        forall|i: int| 0 <= i < cand.len() && is_kanji_char(#[trigger] cand[i]) ==> src.contains(
            cand[i],
        )
    } else {
        true
    }
}

pub fn is_valid_candidate(lang: Language, src: &[char], cand: &[char]) -> (r: bool)
    ensures
        r == valid_candidate(lang, src@, cand@),
{
    proof {
        vstd::slice::axiom_spec_len(src);
        vstd::slice::axiom_spec_len(cand);
    }
    if crate::text::chars_eq(src, cand) {
        return true;
    }
    if !(matches!(lang, Language::Japanese) || matches!(lang, Language::Chinese)) {
        return true;
    }
    let n = cand.len();
    let mut i: usize = 0;
    while i < n
        invariant
            n == cand@.len(),
            i <= n,
            src@ != cand@,
            lang == Language::Japanese || lang == Language::Chinese,
            forall|k: int|
                0 <= k < i && is_kanji_char(#[trigger] cand@[k]) ==> src@.contains(cand@[k]),
        decreases n - i,
    {
        if is_kanji(cand[i]) {
            let mut found = false;
            let m = src.len();
            let mut j: usize = 0;
            while j < m
                invariant
                    m == src@.len(),
                    j <= m,
                    found ==> src@.contains(cand@[i as int]),
                    !found ==> forall|k: int| 0 <= k < j ==> src@[k] != cand@[i as int],
                    i < n == cand@.len(),
                decreases m - j,
            {
                if src[j] == cand[i] {
                    found = true;
                    proof {
                        assert(src@[j as int] == cand@[i as int]);
                    }
                }
                j += 1;
            }
            if !found {
                proof {
                    assert(!src@.contains(cand@[i as int]));
                    assert(!valid_candidate(lang, src@, cand@)) by {
                        assert(is_kanji_char(cand@[i as int]));
                        assert(src@ != cand@);
                    }
                }
                return false;
            }
        }
        i += 1;
    }
    true
}

// ------------------------------------------------------------------
// Entries and their order
// ------------------------------------------------------------------

/// One ranked lookup result.
pub struct Entry {
    /// The matched surface form.
    pub term: String,
    /// Characters of the original substring this entry consumed.
    pub span_chars_end: u64,
    /// UTF-8 length of the matched word.
    pub span_bytes_end: u64,
    /// The owning dictionary's id.
    pub source: i64,
    /// The owning dictionary's priority (999 when unset).
    pub priority: i64,
    /// The record's popularity.
    pub frequency: i64,
    /// The decoded record.
    pub record: Payload,
}

/// The result order: larger consumed span first, then lower dictionary
/// priority, then larger frequency.
pub open spec fn entry_le(a: Entry, b: Entry) -> bool {
    if a.span_chars_end != b.span_chars_end {
        a.span_chars_end > b.span_chars_end
    } else if a.priority != b.priority {
        a.priority < b.priority
    } else {
        a.frequency >= b.frequency
    }
}

fn entry_le_exec(a: &Entry, b: &Entry) -> (r: bool)
    ensures
        r == entry_le(*a, *b),
{
    if a.span_chars_end != b.span_chars_end {
        a.span_chars_end > b.span_chars_end
    } else if a.priority != b.priority {
        a.priority < b.priority
    } else {
        a.frequency >= b.frequency
    }
}

/// Strictly before in the result order: the keys differ.
pub open spec fn entry_lt(a: Entry, b: Entry) -> bool {
    entry_le(a, b) && !entry_le(b, a)
}

fn entry_lt_exec(a: &Entry, b: &Entry) -> (r: bool)
    ensures
        r == entry_lt(*a, *b),
{
    entry_le_exec(a, b) && !entry_le_exec(b, a)
}

pub open spec fn entries_sorted(s: Seq<Entry>) -> bool {
    forall|i: int, j: int| 0 <= i < j < s.len() ==> entry_le(s[i], s[j])
}

proof fn lemma_insert_to_multiset<T>(s: Seq<T>, i: int, x: T)
    requires
        0 <= i <= s.len(),
    ensures
        s.insert(i, x).to_multiset() == s.to_multiset().insert(x),
{
    let a = s.take(i);
    let b = s.skip(i);
    assert(s.insert(i, x) =~= a + (seq![x] + b));
    assert(s =~= a + b);
    vstd::seq_lib::lemma_multiset_commutative(a, seq![x] + b);
    vstd::seq_lib::lemma_multiset_commutative(seq![x], b);
    vstd::seq_lib::lemma_multiset_commutative(a, b);
    broadcast use vstd::seq_lib::group_to_multiset_ensures;

    assert(seq![x] =~= Seq::<T>::empty().push(x));
    assert_multisets_equal!(Seq::<T>::empty().to_multiset(), Multiset::<T>::empty());
    assert(seq![x].to_multiset() =~= Multiset::<T>::empty().insert(x));
    assert(s.insert(i, x).to_multiset() =~= s.to_multiset().insert(x)) by {
        assert_multisets_equal!(
            a.to_multiset().add(seq![x].to_multiset().add(b.to_multiset())),
            a.to_multiset().add(b.to_multiset()).insert(x)
        );
    }
}

/// Sorts entries by [`entry_le`], keeping exactly the given entries.
pub fn sort_entries(input: Vec<Entry>) -> (r: Vec<Entry>)
    ensures
        entries_sorted(r@),
        r@.to_multiset() == input@.to_multiset(),
{
    let ghost input_view = input@;
    let mut input = input;
    let mut out: Vec<Entry> = Vec::new();
    proof {
        broadcast use vstd::seq_lib::group_to_multiset_ensures;

        assert(out@.to_multiset() =~= Multiset::<Entry>::empty());
        assert(out@.to_multiset().add(input@.to_multiset()) =~= input_view.to_multiset());
    }
    while input.len() > 0
        invariant
            entries_sorted(out@),
            out@.to_multiset().add(input@.to_multiset()) == input_view.to_multiset(),
        decreases input@.len(),
    {
        let ghost pre_input = input@;
        let e = input.pop().unwrap();
        let ghost ge = e;
        let mut pos: usize = 0;
        let olen = out.len();
        while pos < olen && entry_lt_exec(&out[pos], &e)
            invariant
                olen == out@.len(),
                pos <= olen,
                forall|k: int| 0 <= k < pos ==> entry_le(#[trigger] out@[k], ge),
                e == ge,
            decreases olen - pos,
        {
            pos += 1;
        }
        let ghost pre = out@;
        proof {
            lemma_insert_to_multiset(out@, pos as int, ge);
        }
        out.insert(pos, e);
        proof {
            assert(entries_sorted(out@)) by {
                assert forall|x: int, y: int| 0 <= x < y < out@.len() implies entry_le(
                    out@[x],
                    out@[y],
                ) by {
                    if y < pos {
                        assert(out@[x] == pre[x] && out@[y] == pre[y]);
                    } else if x < pos && y == pos {
                        assert(out@[x] == pre[x]);
                        assert(entry_le(pre[x], ge));
                    } else if x < pos && y > pos {
                        assert(out@[x] == pre[x] && out@[y] == pre[y - 1]);
                    } else if x == pos {
                        assert(out@[x] == ge && out@[y] == pre[y - 1]);
                        assert(!entry_lt(pre[pos as int], ge));
                        assert(entry_le(ge, pre[pos as int]));
                        if y - 1 > pos {
                            assert(entry_le(pre[pos as int], pre[y - 1]));
                        }
                    } else {
                        assert(out@[x] == pre[x - 1] && out@[y] == pre[y - 1]);
                    }
                }
            }
            broadcast use vstd::seq_lib::group_to_multiset_ensures;

            assert(pre_input.drop_last().push(ge) =~= pre_input);
            assert(pre_input.to_multiset() =~= pre_input.drop_last().to_multiset().insert(ge));
            assert_multisets_equal!(
                pre.to_multiset().insert(ge).add(input@.to_multiset()),
                pre.to_multiset().add(pre_input.to_multiset())
            );
        }
    }
    proof {
        broadcast use vstd::seq_lib::group_to_multiset_ensures;

        assert_multisets_equal!(input@.to_multiset(), Multiset::<Entry>::empty());
        assert_multisets_equal!(
            out@.to_multiset().add(input@.to_multiset()),
            out@.to_multiset()
        );
    }
    out
}

/// Where a lookup entry comes from: an enabled dictionary row and a
/// term row of the store, whose payload decodes to the entry's record,
/// with the entry's priority and frequency read off them; its character
/// span covers one to [`WINDOW_CHARS`] characters of the window and its
/// byte span is the matched word's UTF-8 length.
pub open spec fn entry_from_store(s: Store, e: Entry) -> bool {
    &&& 1 <= e.span_chars_end && e.span_chars_end <= WINDOW_CHARS as u64
    &&& e.span_bytes_end == encode_utf8(e.term@).len()
    &&& exists|di: int, ti: int|
        #![trigger s.dictionaries@[di], s.terms@[ti]]
        0 <= di < s.dictionaries@.len() && 0 <= ti < s.terms@.len() && {
            let d = s.dictionaries@[di];
            let t = s.terms@[ti];
            &&& d.enabled
            &&& d.id == e.source
            &&& t.dictionary_id == e.source
            &&& e.priority == (match d.priority {
                Option::Some(p) => p,
                Option::None => DEFAULT_PRIORITY as i64,
            })
            &&& full_dec(t.payload@) == Option::Some(e.record@)
            &&& e.frequency == e.record@.popularity
            &&& e.term@ == t.term@
        }
}

/// The characters the lookup examines: up to [`WINDOW_CHARS`] characters
/// from the snapped cursor position.
pub open spec fn window_of(b: Seq<u8>, cursor: int) -> Seq<char> {
    let start = snap_down(b, cursor);
    let tail = decode_utf8(b.subrange(start, b.len() as int));
    if tail.len() <= WINDOW_CHARS {
        tail
    } else {
        tail.take(WINDOW_CHARS as int)
    }
}

/// The skip policy: single-character prefixes of Latin-script languages
/// are not probed unless they are `a` or `i`, case-insensitively.
pub open spec fn skipped_prefix(lang: Language, win: Seq<char>, l: int) -> bool {
    l == 1 && is_latin_script(lang) && !(win[0] == 'a' || win[0] == 'A' || win[0] == 'i'
        || win[0] == 'I')
}

/// Whether an enabled dictionary with this id exists.
pub open spec fn dict_enabled(s: Store, id: i64) -> bool {
    exists|di: int|
        0 <= di < s.dictionaries@.len() && (#[trigger] s.dictionaries@[di]).id == id
            && s.dictionaries@[di].enabled
}

/// Some entry carries this term row's term and decoded record, spanning
/// at least `lp` characters.
pub open spec fn row_covered(s: Store, entries: Seq<Entry>, ti: int, lp: int) -> bool {
    exists|ei: int|
        0 <= ei < entries.len() && (#[trigger] entries[ei]).term@ == s.terms@[ti].term@
            && entries[ei].record@ == full_dec(s.terms@[ti].payload@).unwrap()
            && entries[ei].span_chars_end >= lp
}

/// Completeness over the window prefixes of lengths in `(lo, hi]`: every
/// enabled, decodable term row whose term equals such a prefix — unless
/// the skip policy suppresses it — is covered with at least that span.
pub open spec fn covered_for(
    s: Store,
    lang: Language,
    win: Seq<char>,
    entries: Seq<Entry>,
    lo: int,
    hi: int,
) -> bool {
    forall|lp: int, ti: int|
        #![trigger win.take(lp), s.terms@[ti]]
        lo < lp <= hi && 0 <= ti < s.terms@.len() && !skipped_prefix(lang, win, lp)
            && s.terms@[ti].term@ == win.take(lp) && dict_enabled(s, s.terms@[ti].dictionary_id)
            && full_dec(s.terms@[ti].payload@) is Some ==> row_covered(s, entries, ti, lp)
}

/// Every enabled, decodable row matching a processed word is covered
/// with a span of at least `lbound`.
pub open spec fn processed_covered(
    s: Store,
    processed: Seq<String>,
    entries: Seq<Entry>,
    lbound: int,
) -> bool {
    forall|w: int, ti: int|
        #![trigger processed[w], s.terms@[ti]]
        0 <= w < processed.len() && 0 <= ti < s.terms@.len() && s.terms@[ti].term@
            == processed[w]@ && dict_enabled(s, s.terms@[ti].dictionary_id) && full_dec(
            s.terms@[ti].payload@,
        ) is Some ==> row_covered(s, entries, ti, lbound)
}

proof fn lemma_row_covered_extend(s: Store, pre: Seq<Entry>, post: Seq<Entry>, ti: int, lp: int)
    requires
        row_covered(s, pre, ti, lp),
        pre.len() <= post.len(),
        forall|i: int| 0 <= i < pre.len() ==> #[trigger] post[i] == pre[i],
    ensures
        row_covered(s, post, ti, lp),
{
    let ei = choose|ei: int|
        0 <= ei < pre.len() && (#[trigger] pre[ei]).term@ == s.terms@[ti].term@ && pre[ei].record@
            == full_dec(s.terms@[ti].payload@).unwrap() && pre[ei].span_chars_end >= lp;
    assert(post[ei] == pre[ei]);
}

proof fn lemma_processed_covered_extend(
    s: Store,
    processed: Seq<String>,
    pre: Seq<Entry>,
    post: Seq<Entry>,
    lbound: int,
)
    requires
        processed_covered(s, processed, pre, lbound),
        pre.len() <= post.len(),
        forall|i: int| 0 <= i < pre.len() ==> #[trigger] post[i] == pre[i],
    ensures
        processed_covered(s, processed, post, lbound),
{
    assert forall|w: int, ti: int|
        #![trigger processed[w], s.terms@[ti]]
        0 <= w < processed.len() && 0 <= ti < s.terms@.len() && s.terms@[ti].term@
            == processed[w]@ && dict_enabled(s, s.terms@[ti].dictionary_id) && full_dec(
        s.terms@[ti].payload@,
    ) is Some implies row_covered(s, post, ti, lbound) by {
        lemma_row_covered_extend(s, pre, post, ti, lbound);
    }
}

proof fn lemma_covered_for_extend(
    s: Store,
    lang: Language,
    win: Seq<char>,
    pre: Seq<Entry>,
    post: Seq<Entry>,
    lo: int,
    hi: int,
)
    requires
        covered_for(s, lang, win, pre, lo, hi),
        pre.len() <= post.len(),
        forall|i: int| 0 <= i < pre.len() ==> #[trigger] post[i] == pre[i],
    ensures
        covered_for(s, lang, win, post, lo, hi),
{
    assert forall|lp: int, ti: int|
        #![trigger win.take(lp), s.terms@[ti]]
        lo < lp <= hi && 0 <= ti < s.terms@.len() && !skipped_prefix(lang, win, lp)
            && s.terms@[ti].term@ == win.take(lp) && dict_enabled(s, s.terms@[ti].dictionary_id)
            && full_dec(s.terms@[ti].payload@) is Some implies row_covered(
        s,
        post,
        ti,
        lp,
    ) by {
        lemma_row_covered_extend(s, pre, post, ti, lp);
    }
}

/// Coverage survives any reordering that keeps the multiset of entries.
proof fn lemma_covered_for_multiset(
    s: Store,
    lang: Language,
    win: Seq<char>,
    pre: Seq<Entry>,
    post: Seq<Entry>,
    lo: int,
    hi: int,
)
    requires
        covered_for(s, lang, win, pre, lo, hi),
        pre.to_multiset() == post.to_multiset(),
    ensures
        covered_for(s, lang, win, post, lo, hi),
{
    broadcast use vstd::seq_lib::group_to_multiset_ensures;

    assert forall|lp: int, ti: int|
        #![trigger win.take(lp), s.terms@[ti]]
        lo < lp <= hi && 0 <= ti < s.terms@.len() && !skipped_prefix(lang, win, lp)
            && s.terms@[ti].term@ == win.take(lp) && dict_enabled(s, s.terms@[ti].dictionary_id)
            && full_dec(s.terms@[ti].payload@) is Some implies row_covered(
        s,
        post,
        ti,
        lp,
    ) by {
        let ei = choose|ei: int|
            0 <= ei < pre.len() && (#[trigger] pre[ei]).term@ == s.terms@[ti].term@
                && pre[ei].record@ == full_dec(s.terms@[ti].payload@).unwrap()
                && pre[ei].span_chars_end >= lp;
        let v = pre[ei];
        assert(pre.contains(v));
        assert(pre.to_multiset().count(v) > 0);
        assert(post.to_multiset().count(v) > 0);
        assert(post.contains(v));
        let ej = choose|ej: int| 0 <= ej < post.len() && post[ej] == v;
        assert((#[trigger] post[ej]).term@ == s.terms@[ti].term@);
    }
}

/// A property of every element survives any reordering that keeps the
/// multiset of elements.
proof fn lemma_multiset_forall<T>(a: Seq<T>, b: Seq<T>, p: spec_fn(T) -> bool)
    requires
        a.to_multiset() == b.to_multiset(),
        forall|i: int| 0 <= i < a.len() ==> p(#[trigger] a[i]),
    ensures
        forall|i: int| 0 <= i < b.len() ==> p(#[trigger] b[i]),
{
    broadcast use vstd::seq_lib::group_to_multiset_ensures;

    assert forall|i: int| 0 <= i < b.len() implies p(#[trigger] b[i]) by {
        assert(b.contains(b[i]));
        assert(b.to_multiset().count(b[i]) > 0);
        assert(a.to_multiset().count(b[i]) > 0);
        assert(a.contains(b[i]));
        let j = choose|j: int| 0 <= j < a.len() && a[j] == b[i];
        assert(p(a[j]));
    }
}

// ------------------------------------------------------------------
// The lookup service
// ------------------------------------------------------------------

/// The lookup service: a language and its deinflection rule table.
pub struct LookupService {
    pub language: Language,
    pub deinflector: Deinflector,
}

impl LookupService {
    /// A lookup service for one language.
    pub fn new(language: Language, deinflector: Deinflector) -> (r: LookupService)
        ensures
            r.language == language,
            r.deinflector.rules@ == deinflector.rules@,
    {
        LookupService { language, deinflector }
    }

    /// Candidate words for one substring: the substring itself always
    /// comes first; language-specific variants and their deinflections
    /// follow.
    pub fn generate_candidates(&self, sub: &[char]) -> (r: Vec<String>)
        ensures
            r@.len() >= 1,
            r@[0]@ == sub@,
            self.language == Language::Japanese ==> contains_view(r@, hira_variant_spec(sub@))
                && contains_view(r@, expand_prolonged_spec(hira_variant_spec(sub@))),
            self.language == Language::Arabic ==> contains_view(r@, strip_diacritics_spec(sub@)),
            is_latin_script(self.language) ==> contains_view(r@, crate::textio::lower_of(sub@)),
    {
        proof {
            vstd::slice::axiom_spec_len(sub);
        }
        let original = chars_to_string(sub);
        let mut out: Vec<String> = Vec::new();
        let mut variants: Vec<String> = Vec::new();
        out.push(original);
        match self.language {
            Language::Japanese => {
                let hira = hira_variant(sub);
                let hira_s = chars_to_string(hira.as_slice());
                if !str_eq(hira_s.as_str(), out[0].as_str()) {
                    out.push(hira_s.clone());
                }
                proof {
                    if hira_s@ == out@[0]@ {
                        assert(out@[0]@ == hira_variant_spec(sub@));
                    } else {
                        assert(out@.last()@ == hira_variant_spec(sub@));
                    }
                    assert(contains_view(out@, hira_variant_spec(sub@)));
                }
                variants.push(hira_s);
                let expanded = expand_prolonged(hira.as_slice());
                let exp_s = chars_to_string(expanded.as_slice());
                let ghost pre_exp = out@;
                let present = strings_contain(&out, exp_s.as_str());
                if !present {
                    out.push(exp_s.clone());
                }
                proof {
                    if present {
                        let mapped = pre_exp.map_values(|t: String| t@);
                        let w = choose|w: int| 0 <= w < mapped.len() && mapped[w] == exp_s@;
                        assert(out@[w]@ == expand_prolonged_spec(hira_variant_spec(sub@)));
                    } else {
                        assert(out@.last()@ == expand_prolonged_spec(hira_variant_spec(sub@)));
                    }
                    assert(contains_view(out@, expand_prolonged_spec(hira_variant_spec(sub@))));
                    lemma_contains_view_extend(pre_exp, out@, hira_variant_spec(sub@));
                }
                variants.push(exp_s);
            },
            Language::Arabic => {
                let stripped = strip_diacritics(sub);
                let st_s = chars_to_string(stripped.as_slice());
                if !str_eq(st_s.as_str(), out[0].as_str()) {
                    out.push(st_s.clone());
                }
                proof {
                    if st_s@ == out@[0]@ {
                        assert(out@[0]@ == strip_diacritics_spec(sub@));
                    } else {
                        assert(out@.last()@ == strip_diacritics_spec(sub@));
                    }
                    assert(contains_view(out@, strip_diacritics_spec(sub@)));
                }
                variants.push(st_s);
            },
            _ => {
                if latin_script(self.language) {
                    let lower = lowercase(out[0].as_str());
                    if !str_eq(lower.as_str(), out[0].as_str()) {
                        out.push(lower.clone());
                    }
                    proof {
                        if lower@ == out@[0]@ {
                            assert(out@[0]@ == crate::textio::lower_of(sub@));
                        } else {
                            assert(out@.last()@ == crate::textio::lower_of(sub@));
                        }
                        assert(contains_view(out@, crate::textio::lower_of(sub@)));
                    }
                    variants.push(lower);
                }
            },
        }
        let base = out[0].clone();
        let mut deinflected = self.deinflector.deinflect(base.as_str());
        let ghost pre_base = out@;
        out.append(&mut deinflected);
        proof {
            variant_facts_extend(self.language, sub@, pre_base, out@);
        }
        let vn = variants.len();
        let mut vi: usize = 0;
        while vi < vn
            invariant
                vn == variants@.len(),
                out@.len() >= 1,
                out@[0]@ == sub@,
                self.language == Language::Japanese ==> contains_view(
                    out@,
                    hira_variant_spec(sub@),
                ) && contains_view(out@, expand_prolonged_spec(hira_variant_spec(sub@))),
                self.language == Language::Arabic ==> contains_view(
                    out@,
                    strip_diacritics_spec(sub@),
                ),
                is_latin_script(self.language) ==> contains_view(
                    out@,
                    crate::textio::lower_of(sub@),
                ),
            decreases vn - vi,
        {
            let mut more = self.deinflector.deinflect(variants[vi].as_str());
            let ghost pre = out@;
            out.append(&mut more);
            proof {
                variant_facts_extend(self.language, sub@, pre, out@);
            }
            vi += 1;
        }
        out
    }

    /// Ranked entries for the word at a byte offset of the text. The
    /// result is sorted by (consumed span descending, dictionary
    /// priority ascending, frequency descending); every entry is traced
    /// to an enabled store row; and the probe of the window's own
    /// prefixes is complete: every enabled, decodable term row whose
    /// term equals a non-skipped window prefix is represented, spanning
    /// at least that prefix.
    #[verifier::spinoff_prover]
    #[verifier::rlimit(100)]
    pub fn search(&self, store: &Store, text: &str, cursor: usize) -> (r: Vec<Entry>)
        requires
            wf_store(*store),
        ensures
            entries_sorted(r@),
            forall|i: int| 0 <= i < r@.len() ==> entry_from_store(*store, #[trigger] r@[i]),
            cursor >= text.spec_bytes().len() ==> r@.len() == 0,
            cursor < text.spec_bytes().len() ==> covered_for(
                *store,
                self.language,
                window_of(text.spec_bytes(), cursor as int),
                r@,
                0,
                window_of(text.spec_bytes(), cursor as int).len() as int,
            ),
    {
        proof {
            broadcast use encode_utf8_valid_utf8, encode_utf8_decode_utf8;

        }
        let b0 = text.as_bytes();
        proof {
            vstd::slice::axiom_spec_len(b0);
        }
        let ghost gb = text.spec_bytes();
        let start = snap_to_char_boundary(text, cursor);
        if start >= text.len() {
            let empty: Vec<Entry> = Vec::new();
            return empty;
        }
        let parts = text.split_at(start);
        let rest_chars = str_to_chars(parts.1);
        proof {
            assert(parts.1.spec_bytes() == encode_utf8(parts.1@));
            assert(rest_chars@ == decode_utf8(gb.subrange(start as int, gb.len() as int)));
        }
        let wn = if rest_chars.len() < WINDOW_CHARS {
            rest_chars.len()
        } else {
            WINDOW_CHARS
        };
        let window = slice_subrange(rest_chars.as_slice(), 0, wn);
        let ghost win = window_of(gb, cursor as int);
        proof {
            assert(window@ =~= win);
        }
        let terms_n = store.terms.len();
        let mut entries: Vec<Entry> = Vec::new();
        let mut processed: Vec<String> = Vec::new();
        let mut l: usize = wn;
        while l >= 1
            invariant
                wn == window@.len(),
                wn <= WINDOW_CHARS,
                l <= wn,
                window@ == win,
                terms_n == store.terms@.len(),
                wf_store(*store),
                forall|k: int|
                    0 <= k < entries@.len() ==> entry_from_store(*store, #[trigger] entries@[k]),
                processed_covered(*store, processed@, entries@, l as int),
                covered_for(*store, self.language, win, entries@, l as int, wn as int),
            decreases l,
        {
            let sub = slice_subrange(window, 0, l);
            proof {
                assert(sub@ =~= win.take(l as int));
            }
            let mut skip = false;
            if l == 1 && latin_script(self.language) {
                let c = sub[0];
                if !(c == 'a' || c == 'A' || c == 'i' || c == 'I') {
                    skip = true;
                }
            }
            proof {
                assert(skip == skipped_prefix(self.language, win, l as int));
            }
            if !skip {
                let cands = self.generate_candidates(sub);
                let cn = cands.len();
                let mut ci: usize = 0;
                while ci < cn
                    invariant
                        cn == cands@.len(),
                        cands@[0]@ == sub@,
                        terms_n == store.terms@.len(),
                        wf_store(*store),
                        l <= wn == window@.len(),
                        wn <= WINDOW_CHARS,
                        1 <= l,
                        window@ == win,
                        sub@ == win.take(l as int),
                        forall|k: int|
                            0 <= k < entries@.len() ==> entry_from_store(
                                *store,
                                #[trigger] entries@[k],
                            ),
                        processed_covered(*store, processed@, entries@, l as int),
                        covered_for(*store, self.language, win, entries@, l as int, wn as int),
                        ci >= 1 ==> contains_view(processed@, sub@),
                    decreases cn - ci,
                {
                    let cand = &cands[ci];
                    let cand_chars = str_to_chars(cand.as_str());
                    let valid = is_valid_candidate(self.language, sub, cand_chars.as_slice());
                    let already = strings_contain(&processed, cand.as_str());
                    if valid && !already {
                        let idxs = store.query_terms(cand.as_str());
                        let in_ = idxs.len();
                        let mut ii: usize = 0;
                        while ii < in_
                            invariant
                                in_ == idxs@.len(),
                                wf_store(*store),
                                forall|k: int|
                                    0 <= k < idxs@.len() ==> (#[trigger] idxs@[k])
                                        < store.terms@.len() && store.terms@[
                                        idxs@[k] as int
                                    ].term@ == cand@,
                                l <= wn,
                                wn <= WINDOW_CHARS,
                                1 <= l,
                                window@ == win,
                                forall|k: int|
                                    0 <= k < entries@.len() ==> entry_from_store(
                                        *store,
                                        #[trigger] entries@[k],
                                    ),
                                processed_covered(*store, processed@, entries@, l as int),
                                covered_for(
                                    *store,
                                    self.language,
                                    win,
                                    entries@,
                                    l as int,
                                    wn as int,
                                ),
                                forall|j: int|
                                    0 <= j < ii ==> ((dict_enabled(
                                        *store,
                                        store.terms@[(#[trigger] idxs@[j]) as int].dictionary_id,
                                    ) && full_dec(
                                        store.terms@[idxs@[j] as int].payload@,
                                    ) is Some) ==> row_covered(
                                        *store,
                                        entries@,
                                        idxs@[j] as int,
                                        l as int,
                                    )),
                            decreases in_ - ii,
                        {
                            let ghost ti = idxs@[ii as int] as int;
                            let row = &store.terms[idxs[ii]];
                            match store.find_dict(row.dictionary_id) {
                                Option::Some(di) => {
                                    let d = &store.dictionaries[di];
                                    if d.enabled {
                                        let prio: i64 = match d.priority {
                                            Option::Some(p) => p,
                                            Option::None => DEFAULT_PRIORITY,
                                        };
                                        match decode_payload(row.payload.as_slice()) {
                                            Option::Some(p) => {
                                                let freq = p.popularity;
                                                let ghost pr = p@;
                                                let cand_bytes = cand.as_str().as_bytes();
                                                proof {
                                                    vstd::slice::axiom_spec_len(cand_bytes);
                                                }
                                                let ghost pre_e = entries@;
                                                entries.push(
                                                    Entry {
                                                        term: cand.clone(),
                                                        span_chars_end: l as u64,
                                                        span_bytes_end: cand_bytes.len() as u64,
                                                        source: row.dictionary_id,
                                                        priority: prio,
                                                        frequency: freq,
                                                        record: p,
                                                    },
                                                );
                                                proof {
                                                    let e = entries@.last();
                                                    assert(e.record@ == pr);
                                                    assert(store.dictionaries@[di as int].enabled);
                                                    assert(store.terms@[ti].term@ == cand@);
                                                    assert(entry_from_store(*store, e));
                                                    assert(row_covered(
                                                        *store,
                                                        entries@,
                                                        ti,
                                                        l as int,
                                                    ));
                                                    lemma_processed_covered_extend(
                                                        *store,
                                                        processed@,
                                                        pre_e,
                                                        entries@,
                                                        l as int,
                                                    );
                                                    lemma_covered_for_extend(
                                                        *store,
                                                        self.language,
                                                        win,
                                                        pre_e,
                                                        entries@,
                                                        l as int,
                                                        wn as int,
                                                    );
                                                    assert forall|j: int| 0 <= j < ii + 1 implies (
                                                    (dict_enabled(
                                                        *store,
                                                        store.terms@[(
                                                        #[trigger] idxs@[j]) as int].dictionary_id,
                                                    ) && full_dec(
                                                        store.terms@[idxs@[j] as int].payload@,
                                                    ) is Some) ==> row_covered(
                                                        *store,
                                                        entries@,
                                                        idxs@[j] as int,
                                                        l as int,
                                                    )) by {
                                                        if j < ii && dict_enabled(
                                                            *store,
                                                            store.terms@[
                                                                idxs@[j] as int
                                                            ].dictionary_id,
                                                        ) && full_dec(
                                                            store.terms@[idxs@[j] as int].payload@,
                                                        ) is Some {
                                                            lemma_row_covered_extend(
                                                                *store,
                                                                pre_e,
                                                                entries@,
                                                                idxs@[j] as int,
                                                                l as int,
                                                            );
                                                        }
                                                    }
                                                }
                                            },
                                            Option::None => {
                                                proof {
                                                    assert(full_dec(
                                                        store.terms@[ti].payload@,
                                                    ) is None);
                                                }
                                            },
                                        }
                                    } else {
                                        proof {
                                            assert(!dict_enabled(
                                                *store,
                                                store.terms@[ti].dictionary_id,
                                            )) by {
                                                if dict_enabled(
                                                    *store,
                                                    store.terms@[ti].dictionary_id,
                                                ) {
                                                    let di2 = choose|di2: int|
                                                        0 <= di2 < store.dictionaries@.len() && (
                                                        #[trigger] store.dictionaries@[di2]).id
                                                            == store.terms@[ti].dictionary_id
                                                            && store.dictionaries@[di2].enabled;
                                                    assert(di2 == di as int);
                                                }
                                            }
                                        }
                                    }
                                },
                                Option::None => {
                                    proof {
                                        assert(!dict_enabled(
                                            *store,
                                            store.terms@[ti].dictionary_id,
                                        )) by {
                                            if dict_enabled(*store, store.terms@[ti].dictionary_id) {
                                                let di2 = choose|di2: int|
                                                    0 <= di2 < store.dictionaries@.len() && (
                                                    #[trigger] store.dictionaries@[di2]).id
                                                        == store.terms@[ti].dictionary_id
                                                        && store.dictionaries@[di2].enabled;
                                                assert(crate::store::has_dict_id(
                                                    store.dictionaries@,
                                                    store.terms@[ti].dictionary_id,
                                                ));
                                            }
                                        }
                                    }
                                },
                            }
                            ii += 1;
                        }
                        let ghost pre_p = processed@;
                        processed.push(cand.clone());
                        proof {
                            assert forall|w: int, ti2: int|
                                #![trigger processed@[w], store.terms@[ti2]]
                                0 <= w < processed@.len() && 0 <= ti2 < store.terms@.len()
                                    && store.terms@[ti2].term@ == processed@[w]@ && dict_enabled(
                                *store,
                                store.terms@[ti2].dictionary_id,
                            ) && full_dec(store.terms@[ti2].payload@) is Some implies row_covered(
                                *store,
                                entries@,
                                ti2,
                                l as int,
                            ) by {
                                if w < pre_p.len() {
                                    assert(processed@[w] == pre_p[w]);
                                } else {
                                    assert(processed@[w]@ == cand@);
                                    assert(store.terms@[ti2].term@ == cand@);
                                    assert(idxs@.contains(ti2 as usize));
                                    let j = choose|j: int|
                                        0 <= j < idxs@.len() && (#[trigger] idxs@[j]) == ti2
                                            as usize;
                                    assert(0 <= ti2 <= usize::MAX);
                                    assert(idxs@[j] as int == ti2);
                                    assert(dict_enabled(
                                        *store,
                                        store.terms@[idxs@[j] as int].dictionary_id,
                                    ));
                                    assert(full_dec(
                                        store.terms@[idxs@[j] as int].payload@,
                                    ) is Some);
                                    assert(row_covered(*store, entries@, idxs@[j] as int, l as int));
                                    assert(row_covered(*store, entries@, ti2, l as int));
                                }
                            }
                            assert(processed_covered(*store, processed@, entries@, l as int));
                            if ci == 0 {
                                assert(processed@.last()@ == sub@);
                                assert(contains_view(processed@, sub@));
                            } else {
                                if contains_view(pre_p, sub@) {
                                    crate::text::lemma_contains_view_extend(
                                        pre_p,
                                        processed@,
                                        sub@,
                                    );
                                }
                            }
                        }
                    } else {
                        proof {
                            if ci == 0 {
                                assert(valid_candidate(self.language, sub@, cand@));
                                assert(already);
                                let mapped = processed@.map_values(|t: String| t@);
                                let w = choose|w: int|
                                    0 <= w < mapped.len() && mapped[w] == cand@;
                                assert(processed@[w]@ == sub@);
                                assert(contains_view(processed@, sub@));
                            }
                        }
                    }
                    ci += 1;
                }
                proof {
                    assert(contains_view(processed@, win.take(l as int)));
                }
            }
            proof {
                assert forall|lp: int, ti: int|
                    #![trigger win.take(lp), store.terms@[ti]]
                    l - 1 < lp <= wn && 0 <= ti < store.terms@.len() && !skipped_prefix(
                        self.language,
                        win,
                        lp,
                    ) && store.terms@[ti].term@ == win.take(lp) && dict_enabled(
                    *store,
                    store.terms@[ti].dictionary_id,
                ) && full_dec(store.terms@[ti].payload@) is Some implies row_covered(
                    *store,
                    entries@,
                    ti,
                    lp,
                ) by {
                    if lp == l {
                        let w = choose|w: int|
                            0 <= w < processed@.len() && (#[trigger] processed@[w])@ == win.take(
                                l as int,
                            );
                        assert(store.terms@[ti].term@ == processed@[w]@);
                        assert(row_covered(*store, entries@, ti, l as int));
                    }
                }
                assert(covered_for(
                    *store,
                    self.language,
                    win,
                    entries@,
                    l as int - 1,
                    wn as int,
                ));
                assert forall|w: int, ti: int|
                    #![trigger processed@[w], store.terms@[ti]]
                    0 <= w < processed@.len() && 0 <= ti < store.terms@.len()
                        && store.terms@[ti].term@ == processed@[w]@ && dict_enabled(
                    *store,
                    store.terms@[ti].dictionary_id,
                ) && full_dec(store.terms@[ti].payload@) is Some implies row_covered(
                    *store,
                    entries@,
                    ti,
                    l as int - 1,
                ) by {
                    let ei = choose|ei: int|
                        0 <= ei < entries@.len() && (#[trigger] entries@[ei]).term@
                            == store.terms@[ti].term@ && entries@[ei].record@ == full_dec(
                            store.terms@[ti].payload@,
                        ).unwrap() && entries@[ei].span_chars_end >= l;
                    assert(entries@[ei].span_chars_end >= l as int - 1);
                }
            }
            l -= 1;
        }
        proof {
            assert(covered_for(*store, self.language, win, entries@, 0, wn as int));
        }
        let ghost pre_sort = entries@;
        let sorted = sort_entries(entries);
        proof {
            lemma_multiset_forall(pre_sort, sorted@, |e: Entry| entry_from_store(*store, e));
            lemma_covered_for_multiset(
                *store,
                self.language,
                win,
                pre_sort,
                sorted@,
                0,
                wn as int,
            );
            assert(win.len() == wn);
        }
        sorted
    }
}

// ------------------------------------------------------------------
// Kanji search
// ------------------------------------------------------------------

/// One kanji search result.
pub struct KanjiEntry {
    pub character: char,
    pub dictionary_id: i64,
    pub dictionary_name: String,
    pub onyomi: Vec<String>,
    pub kunyomi: Vec<String>,
    pub tags: Vec<String>,
    pub meanings: Vec<String>,
    pub stats: Vec<(String, String)>,
    /// The JSON texts of the frequency data attached to this character.
    pub frequencies: Vec<String>,
    /// The first numeric frequency, or the default when none exists.
    pub freq_key: i64,
}

/// Where a kanji entry comes from: an enabled dictionary row and a
/// kanji row of the store carrying exactly the entry's readings, tags,
/// meanings and stats; the frequency key and every frequency datum come
/// from kanji-meta rows of the same character and dictionary.
pub open spec fn kanji_from_store(s: Store, e: KanjiEntry) -> bool {
    &&& exists|di: int, ki: int|
        #![trigger s.dictionaries@[di], s.kanji@[ki]]
        0 <= di < s.dictionaries@.len() && 0 <= ki < s.kanji@.len() && {
            let d = s.dictionaries@[di];
            let k = s.kanji@[ki];
            &&& d.enabled
            &&& d.id == e.dictionary_id
            &&& k.dictionary_id == e.dictionary_id
            &&& k.character == e.character
            &&& e.dictionary_name@ == d.name@
            &&& e.onyomi@.map_values(|t: String| t@) == k.onyomi@.map_values(|t: String| t@)
            &&& e.kunyomi@.map_values(|t: String| t@) == k.kunyomi@.map_values(|t: String| t@)
            &&& e.tags@.map_values(|t: String| t@) == k.tags@.map_values(|t: String| t@)
            &&& e.meanings@.map_values(|t: String| t@) == k.meanings@.map_values(|t: String| t@)
            &&& e.stats@.len() == k.stats@.len()
            &&& forall|si: int|
                0 <= si < k.stats@.len() ==> (#[trigger] e.stats@[si]).0@ == k.stats@[si].0@
                    && e.stats@[si].1@ == k.stats@[si].1@
        }
    &&& kanji_freq_ok(s, e)
    &&& kanji_freqs_sound(s, e)
}

/// Some kanji-meta row of this character and dictionary carries exactly
/// this JSON datum.
pub open spec fn freq_row_exists(s: Store, ch: char, id: i64, d: Seq<char>) -> bool {
    exists|mi: int|
        0 <= mi < s.kanji_meta@.len() && (#[trigger] s.kanji_meta@[mi]).character == ch
            && s.kanji_meta@[mi].dictionary_id == id && s.kanji_meta@[mi].data@ == d
}

/// Some kanji-meta row of this character and dictionary carries exactly
/// this numeric frequency.
pub open spec fn key_row_exists(s: Store, ch: char, id: i64, key: i64) -> bool {
    exists|mi: int|
        0 <= mi < s.kanji_meta@.len() && (#[trigger] s.kanji_meta@[mi]).character == ch
            && s.kanji_meta@[mi].dictionary_id == id && s.kanji_meta@[mi].freq_value
            == Option::Some(key)
}

/// The frequency key is the default, or some kanji-meta row of this
/// character and dictionary carries it.
pub open spec fn kanji_freq_ok(s: Store, e: KanjiEntry) -> bool {
    ||| e.freq_key == DEFAULT_KANJI_FREQ
    ||| key_row_exists(s, e.character, e.dictionary_id, e.freq_key)
}

/// Every listed frequency datum is the data of some kanji-meta row of
/// this character and dictionary.
pub open spec fn kanji_freqs_sound(s: Store, e: KanjiEntry) -> bool {
    forall|fi: int|
        0 <= fi < e.frequencies@.len() ==> freq_row_exists(
            s,
            e.character,
            e.dictionary_id,
            (#[trigger] e.frequencies@[fi])@,
        )
}

/// Kanji results come in ascending order of their first numeric
/// frequency.
pub open spec fn kanji_le(a: KanjiEntry, b: KanjiEntry) -> bool {
    a.freq_key <= b.freq_key
}

pub open spec fn kanji_sorted(s: Seq<KanjiEntry>) -> bool {
    forall|i: int, j: int| 0 <= i < j < s.len() ==> kanji_le(s[i], s[j])
}

fn clone_strings(v: &Vec<String>) -> (r: Vec<String>)
    ensures
        r@.map_values(|t: String| t@) == v@.map_values(|t: String| t@),
{
    let n = v.len();
    let mut out: Vec<String> = Vec::new();
    let mut i: usize = 0;
    proof {
        assert(out@.map_values(|t: String| t@) =~= v@.take(0).map_values(|t: String| t@));
    }
    while i < n
        invariant
            n == v@.len(),
            i <= n,
            out@.map_values(|t: String| t@) == v@.take(i as int).map_values(|t: String| t@),
        decreases n - i,
    {
        let ghost pre = out@;
        out.push(v[i].clone());
        proof {
            assert(out@.map_values(|t: String| t@) =~= pre.map_values(|t: String| t@).push(
                v@[i as int]@,
            ));
            assert(v@.take(i as int + 1).map_values(|t: String| t@) =~= v@.take(
                i as int,
            ).map_values(|t: String| t@).push(v@[i as int]@));
        }
        i += 1;
    }
    proof {
        assert(v@.take(n as int) =~= v@);
    }
    out
}

fn clone_pairs(v: &Vec<(String, String)>) -> (r: Vec<(String, String)>)
    ensures
        r@.len() == v@.len(),
        forall|i: int|
            0 <= i < v@.len() ==> (#[trigger] r@[i]).0@ == v@[i].0@ && r@[i].1@ == v@[i].1@,
{
    let n = v.len();
    let mut out: Vec<(String, String)> = Vec::new();
    let mut i: usize = 0;
    while i < n
        invariant
            n == v@.len(),
            i <= n,
            out@.len() == i,
            forall|k: int|
                0 <= k < i ==> (#[trigger] out@[k]).0@ == v@[k].0@ && out@[k].1@ == v@[k].1@,
        decreases n - i,
    {
        out.push((v[i].0.clone(), v[i].1.clone()));
        i += 1;
    }
    out
}

/// The characters the kanji search examines: up to
/// [`KANJI_WINDOW_CHARS`] characters from the snapped cursor position.
pub open spec fn kanji_window_of(b: Seq<u8>, cursor: int) -> Seq<char> {
    let start = snap_down(b, cursor);
    let tail = decode_utf8(b.subrange(start, b.len() as int));
    if tail.len() <= KANJI_WINDOW_CHARS {
        tail
    } else {
        tail.take(KANJI_WINDOW_CHARS as int)
    }
}

/// Some entry stands for this kanji row (same character, same
/// dictionary).
pub open spec fn kanji_row_covered(s: Store, entries: Seq<KanjiEntry>, ki: int) -> bool {
    exists|ei: int|
        0 <= ei < entries.len() && (#[trigger] entries[ei]).character == s.kanji@[ki].character
            && entries[ei].dictionary_id == s.kanji@[ki].dictionary_id
}

/// Completeness over the first `hi` window characters: every kanji row
/// of an enabled dictionary whose character stands there is represented.
pub open spec fn kanji_covered_for(
    s: Store,
    kw: Seq<char>,
    entries: Seq<KanjiEntry>,
    hi: int,
) -> bool {
    forall|c: int, ki: int|
        #![trigger kw[c], s.kanji@[ki]]
        0 <= c < hi && 0 <= ki < s.kanji@.len() && s.kanji@[ki].character == kw[c]
            && dict_enabled(s, s.kanji@[ki].dictionary_id) ==> kanji_row_covered(s, entries, ki)
}

/// Every kanji row of an enabled dictionary whose character was already
/// examined is represented.
pub open spec fn kanji_seen_covered(s: Store, seen: Seq<char>, entries: Seq<KanjiEntry>) -> bool {
    forall|w: int, ki: int|
        #![trigger seen[w], s.kanji@[ki]]
        0 <= w < seen.len() && 0 <= ki < s.kanji@.len() && s.kanji@[ki].character == seen[w]
            && dict_enabled(s, s.kanji@[ki].dictionary_id) ==> kanji_row_covered(s, entries, ki)
}

proof fn lemma_kanji_row_covered_extend(
    s: Store,
    pre: Seq<KanjiEntry>,
    post: Seq<KanjiEntry>,
    ki: int,
)
    requires
        kanji_row_covered(s, pre, ki),
        pre.len() <= post.len(),
        forall|i: int| 0 <= i < pre.len() ==> #[trigger] post[i] == pre[i],
    ensures
        kanji_row_covered(s, post, ki),
{
    let ei = choose|ei: int|
        0 <= ei < pre.len() && (#[trigger] pre[ei]).character == s.kanji@[ki].character
            && pre[ei].dictionary_id == s.kanji@[ki].dictionary_id;
    assert(post[ei] == pre[ei]);
}

proof fn lemma_kanji_coverage_extend(
    s: Store,
    kw: Seq<char>,
    seen: Seq<char>,
    pre: Seq<KanjiEntry>,
    post: Seq<KanjiEntry>,
    hi: int,
)
    requires
        kanji_covered_for(s, kw, pre, hi),
        kanji_seen_covered(s, seen, pre),
        pre.len() <= post.len(),
        forall|i: int| 0 <= i < pre.len() ==> #[trigger] post[i] == pre[i],
    ensures
        kanji_covered_for(s, kw, post, hi),
        kanji_seen_covered(s, seen, post),
{
    assert forall|c: int, ki: int|
        #![trigger kw[c], s.kanji@[ki]]
        0 <= c < hi && 0 <= ki < s.kanji@.len() && s.kanji@[ki].character == kw[c]
            && dict_enabled(s, s.kanji@[ki].dictionary_id) implies kanji_row_covered(
        s,
        post,
        ki,
    ) by {
        lemma_kanji_row_covered_extend(s, pre, post, ki);
    }
    assert forall|w: int, ki: int|
        #![trigger seen[w], s.kanji@[ki]]
        0 <= w < seen.len() && 0 <= ki < s.kanji@.len() && s.kanji@[ki].character == seen[w]
            && dict_enabled(s, s.kanji@[ki].dictionary_id) implies kanji_row_covered(
        s,
        post,
        ki,
    ) by {
        lemma_kanji_row_covered_extend(s, pre, post, ki);
    }
}

/// Coverage survives any reordering that keeps the multiset of entries.
proof fn lemma_kanji_covered_multiset(
    s: Store,
    kw: Seq<char>,
    pre: Seq<KanjiEntry>,
    post: Seq<KanjiEntry>,
    hi: int,
)
    requires
        kanji_covered_for(s, kw, pre, hi),
        pre.to_multiset() == post.to_multiset(),
    ensures
        kanji_covered_for(s, kw, post, hi),
{
    broadcast use vstd::seq_lib::group_to_multiset_ensures;

    assert forall|c: int, ki: int|
        #![trigger kw[c], s.kanji@[ki]]
        0 <= c < hi && 0 <= ki < s.kanji@.len() && s.kanji@[ki].character == kw[c]
            && dict_enabled(s, s.kanji@[ki].dictionary_id) implies kanji_row_covered(
        s,
        post,
        ki,
    ) by {
        let ei = choose|ei: int|
            0 <= ei < pre.len() && (#[trigger] pre[ei]).character == s.kanji@[ki].character
                && pre[ei].dictionary_id == s.kanji@[ki].dictionary_id;
        let v = pre[ei];
        assert(pre.contains(v));
        assert(pre.to_multiset().count(v) > 0);
        assert(post.to_multiset().count(v) > 0);
        assert(post.contains(v));
        let ej = choose|ej: int| 0 <= ej < post.len() && post[ej] == v;
        assert((#[trigger] post[ej]).character == s.kanji@[ki].character);
    }
}

/// Sorts kanji entries by [`kanji_le`], keeping exactly the given
/// entries.
pub fn sort_kanji_entries(input: Vec<KanjiEntry>) -> (r: Vec<KanjiEntry>)
    ensures
        kanji_sorted(r@),
        r@.to_multiset() == input@.to_multiset(),
{
    let ghost input_view = input@;
    let mut input = input;
    let mut out: Vec<KanjiEntry> = Vec::new();
    proof {
        broadcast use vstd::seq_lib::group_to_multiset_ensures;

        assert(out@.to_multiset() =~= Multiset::<KanjiEntry>::empty());
        assert(out@.to_multiset().add(input@.to_multiset()) =~= input_view.to_multiset());
    }
    while input.len() > 0
        invariant
            kanji_sorted(out@),
            out@.to_multiset().add(input@.to_multiset()) == input_view.to_multiset(),
        decreases input@.len(),
    {
        let ghost pre_input = input@;
        let e = input.pop().unwrap();
        let ghost ge = e;
        let mut pos: usize = 0;
        let olen = out.len();
        while pos < olen && out[pos].freq_key < e.freq_key
            invariant
                olen == out@.len(),
                pos <= olen,
                forall|k: int| 0 <= k < pos ==> kanji_le(#[trigger] out@[k], ge),
                e == ge,
            decreases olen - pos,
        {
            pos += 1;
        }
        let ghost pre = out@;
        proof {
            lemma_insert_to_multiset(out@, pos as int, ge);
        }
        out.insert(pos, e);
        proof {
            assert(kanji_sorted(out@)) by {
                assert forall|x: int, y: int| 0 <= x < y < out@.len() implies kanji_le(
                    out@[x],
                    out@[y],
                ) by {
                    if y < pos {
                        assert(out@[x] == pre[x] && out@[y] == pre[y]);
                    } else if x < pos && y == pos {
                        assert(out@[x] == pre[x]);
                        assert(kanji_le(pre[x], ge));
                    } else if x < pos && y > pos {
                        assert(out@[x] == pre[x] && out@[y] == pre[y - 1]);
                    } else if x == pos {
                        assert(out@[x] == ge && out@[y] == pre[y - 1]);
                        assert(kanji_le(ge, pre[pos as int]));
                        if y - 1 > pos {
                            assert(kanji_le(pre[pos as int], pre[y - 1]));
                        }
                    } else {
                        assert(out@[x] == pre[x - 1] && out@[y] == pre[y - 1]);
                    }
                }
            }
            broadcast use vstd::seq_lib::group_to_multiset_ensures;

            assert(pre_input.drop_last().push(ge) =~= pre_input);
            assert(pre_input.to_multiset() =~= pre_input.drop_last().to_multiset().insert(ge));
            assert_multisets_equal!(
                pre.to_multiset().insert(ge).add(input@.to_multiset()),
                pre.to_multiset().add(pre_input.to_multiset())
            );
        }
    }
    proof {
        broadcast use vstd::seq_lib::group_to_multiset_ensures;

        assert_multisets_equal!(input@.to_multiset(), Multiset::<KanjiEntry>::empty());
        assert_multisets_equal!(
            out@.to_multiset().add(input@.to_multiset()),
            out@.to_multiset()
        );
    }
    out
}

/// Kanji entries for the characters at a byte offset of the text: each
/// character of the (up to ten character) window is looked up in the
/// kanji tables of the enabled dictionaries, joined with its frequency
/// data, and the results come sorted by ascending numeric frequency.
#[verifier::spinoff_prover]
#[verifier::rlimit(100)]
pub fn lookup_kanji(store: &Store, text: &str, cursor: usize) -> (r: Vec<KanjiEntry>)
    requires
        wf_store(*store),
    ensures
        kanji_sorted(r@),
        forall|i: int| 0 <= i < r@.len() ==> kanji_from_store(*store, #[trigger] r@[i]),
        cursor >= text.spec_bytes().len() ==> r@.len() == 0,
        cursor < text.spec_bytes().len() ==> kanji_covered_for(
            *store,
            kanji_window_of(text.spec_bytes(), cursor as int),
            r@,
            kanji_window_of(text.spec_bytes(), cursor as int).len() as int,
        ),
{
    proof {
        broadcast use encode_utf8_valid_utf8, encode_utf8_decode_utf8;

    }
    let ghost gb = text.spec_bytes();
    let start = snap_to_char_boundary(text, cursor);
    let b = text.as_bytes();
    proof {
        vstd::slice::axiom_spec_len(b);
    }
    if start >= b.len() {
        let empty: Vec<KanjiEntry> = Vec::new();
        return empty;
    }
    let parts = text.split_at(start);
    let rest_chars = str_to_chars(parts.1);
    proof {
        assert(parts.1.spec_bytes() == encode_utf8(parts.1@));
        assert(rest_chars@ == decode_utf8(gb.subrange(start as int, gb.len() as int)));
    }
    let wn = if rest_chars.len() < KANJI_WINDOW_CHARS {
        rest_chars.len()
    } else {
        KANJI_WINDOW_CHARS
    };
    let ghost kw = kanji_window_of(gb, cursor as int);
    proof {
        assert(kw =~= rest_chars@.take(wn as int));
    }
    let kanji_n = store.kanji.len();
    let mut entries: Vec<KanjiEntry> = Vec::new();
    let mut seen: Vec<char> = Vec::new();
    let mut ci: usize = 0;
    while ci < wn
        invariant
            wn <= rest_chars@.len(),
            kw == rest_chars@.take(wn as int),
            kw.len() == wn,
            kanji_n == store.kanji@.len(),
            wf_store(*store),
            forall|k: int|
                0 <= k < entries@.len() ==> kanji_from_store(*store, #[trigger] entries@[k]),
            kanji_seen_covered(*store, seen@, entries@),
            kanji_covered_for(*store, kw, entries@, ci as int),
        decreases wn - ci,
    {
        let c = rest_chars[ci];
        proof {
            assert(kw[ci as int] == c);
        }
        let mut already = false;
        let sn = seen.len();
        let mut si: usize = 0;
        while si < sn
            invariant
                sn == seen@.len(),
                already ==> seen@.contains(c),
            decreases sn - si,
        {
            if seen[si] == c {
                proof {
                    assert(seen@[si as int] == c);
                }
                already = true;
            }
            si += 1;
        }
        if !already {
            let idxs = store.query_kanji(c);
            let kn = idxs.len();
            let mut ki: usize = 0;
            while ki < kn
                invariant
                    kn == idxs@.len(),
                    kanji_n == store.kanji@.len(),
                    wf_store(*store),
                    forall|k: int|
                        0 <= k < idxs@.len() ==> (#[trigger] idxs@[k]) < store.kanji@.len()
                            && store.kanji@[idxs@[k] as int].character == c,
                    forall|k: int|
                        0 <= k < entries@.len() ==> kanji_from_store(
                            *store,
                            #[trigger] entries@[k],
                        ),
                    kanji_seen_covered(*store, seen@, entries@),
                    kanji_covered_for(*store, kw, entries@, ci as int),
                    forall|j: int|
                        0 <= j < ki ==> (dict_enabled(
                            *store,
                            store.kanji@[(#[trigger] idxs@[j]) as int].dictionary_id,
                        ) ==> kanji_row_covered(*store, entries@, idxs@[j] as int)),
                decreases kn - ki,
            {
                let ghost gki = idxs@[ki as int] as int;
                let row = &store.kanji[idxs[ki]];
                match store.find_dict(row.dictionary_id) {
                    Option::Some(di) => {
                        let d = &store.dictionaries[di];
                        if !d.enabled {
                            proof {
                                assert(!dict_enabled(*store, store.kanji@[gki].dictionary_id))
                                    by {
                                    if dict_enabled(*store, store.kanji@[gki].dictionary_id) {
                                        let di2 = choose|di2: int|
                                            0 <= di2 < store.dictionaries@.len() && (
                                            #[trigger] store.dictionaries@[di2]).id
                                                == store.kanji@[gki].dictionary_id
                                                && store.dictionaries@[di2].enabled;
                                        assert(di2 == di as int);
                                    }
                                }
                            }
                        }
                        if d.enabled {
                            let rch: char = row.character;
                            let rid: i64 = row.dictionary_id;
                            let midxs = store.query_kanji_meta(rch);
                            let mut frequencies: Vec<String> = Vec::new();
                            let mut freq_key: i64 = DEFAULT_KANJI_FREQ;
                            let mut have_key = false;
                            let mn = midxs.len();
                            let mut mi: usize = 0;
                            while mi < mn
                                invariant
                                    mn == midxs@.len(),
                                    wf_store(*store),
                                    forall|k: int|
                                        0 <= k < midxs@.len() ==> (#[trigger] midxs@[k])
                                            < store.kanji_meta@.len() && store.kanji_meta@[
                                            midxs@[k] as int
                                        ].character == rch,
                                    !have_key ==> freq_key == DEFAULT_KANJI_FREQ,
                                    have_key ==> key_row_exists(*store, rch, rid, freq_key),
                                    forall|fi: int|
                                        0 <= fi < frequencies@.len() ==> freq_row_exists(
                                            *store,
                                            rch,
                                            rid,
                                            (#[trigger] frequencies@[fi])@,
                                        ),
                                decreases mn - mi,
                            {
                                let m = &store.kanji_meta[midxs[mi]];
                                if m.dictionary_id == rid {
                                    let ghost w = midxs@[mi as int] as int;
                                    let ghost pre_f = frequencies@;
                                    let ghost md = m.data@;
                                    frequencies.push(m.data.clone());
                                    proof {
                                        assert(store.kanji_meta@[w].character == rch
                                            && store.kanji_meta@[w].dictionary_id == rid);
                                        assert(freq_row_exists(
                                            *store,
                                            rch,
                                            rid,
                                            store.kanji_meta@[w].data@,
                                        ));
                                        assert forall|fi: int|
                                            0 <= fi < frequencies@.len() implies freq_row_exists(
                                            *store,
                                            rch,
                                            rid,
                                            (#[trigger] frequencies@[fi])@,
                                        ) by {
                                            if fi < pre_f.len() {
                                                assert(frequencies@[fi] == pre_f[fi]);
                                            } else {
                                                assert(frequencies@[fi]@ == store.kanji_meta@[
                                                    w
                                                ].data@);
                                            }
                                        }
                                    }
                                    if !have_key {
                                        match m.freq_value {
                                            Option::Some(v) => {
                                                freq_key = v;
                                                have_key = true;
                                                proof {
                                                    assert(store.kanji_meta@[w].freq_value
                                                        == Option::Some(freq_key));
                                                    assert(key_row_exists(
                                                        *store,
                                                        rch,
                                                        rid,
                                                        freq_key,
                                                    ));
                                                }
                                            },
                                            Option::None => (),
                                        }
                                    }
                                }
                                mi += 1;
                            }
                            let ghost gfreq = frequencies@;
                            let ghost gkey = freq_key;
                            let ghost pre_e = entries@;
                            entries.push(
                                KanjiEntry {
                                    character: rch,
                                    dictionary_id: rid,
                                    dictionary_name: d.name.clone(),
                                    onyomi: clone_strings(&row.onyomi),
                                    kunyomi: clone_strings(&row.kunyomi),
                                    tags: clone_strings(&row.tags),
                                    meanings: clone_strings(&row.meanings),
                                    stats: clone_pairs(&row.stats),
                                    frequencies,
                                    freq_key,
                                },
                            );
                            proof {
                                let e = entries@.last();
                                let gdi = di as int;
                                let gki = idxs@[ki as int] as int;
                                let dd = store.dictionaries@[gdi];
                                let kk = store.kanji@[gki];
                                assert(dd.enabled && dd.id == e.dictionary_id);
                                assert(kk.character == e.character && kk.dictionary_id
                                    == e.dictionary_id);
                                assert(e.dictionary_name@ == dd.name@);
                                assert(e.onyomi@.map_values(|t: String| t@)
                                    == kk.onyomi@.map_values(|t: String| t@));
                                assert(e.kunyomi@.map_values(|t: String| t@)
                                    == kk.kunyomi@.map_values(|t: String| t@));
                                assert(e.tags@.map_values(|t: String| t@) == kk.tags@.map_values(
                                    |t: String| t@,
                                ));
                                assert(e.meanings@.map_values(|t: String| t@)
                                    == kk.meanings@.map_values(|t: String| t@));
                                assert(e.stats@.len() == kk.stats@.len());
                                assert(e.frequencies@ == gfreq && e.freq_key == gkey
                                    && e.character == rch && e.dictionary_id == rid);
                                assert(kanji_freq_ok(*store, e));
                                assert forall|fi: int|
                                    0 <= fi < e.frequencies@.len() implies freq_row_exists(
                                    *store,
                                    e.character,
                                    e.dictionary_id,
                                    (#[trigger] e.frequencies@[fi])@,
                                ) by {
                                    assert(e.frequencies@[fi] == gfreq[fi]);
                                }
                                assert(kanji_freqs_sound(*store, e));
                                assert(kanji_from_store(*store, e));
                                assert(kanji_row_covered(*store, entries@, gki));
                                lemma_kanji_coverage_extend(
                                    *store,
                                    kw,
                                    seen@,
                                    pre_e,
                                    entries@,
                                    ci as int,
                                );
                                assert forall|j: int| 0 <= j < ki + 1 implies (dict_enabled(
                                    *store,
                                    store.kanji@[(#[trigger] idxs@[j]) as int].dictionary_id,
                                ) ==> kanji_row_covered(*store, entries@, idxs@[j] as int)) by {
                                    if j < ki && dict_enabled(
                                        *store,
                                        store.kanji@[idxs@[j] as int].dictionary_id,
                                    ) {
                                        lemma_kanji_row_covered_extend(
                                            *store,
                                            pre_e,
                                            entries@,
                                            idxs@[j] as int,
                                        );
                                    }
                                }
                            }
                        }
                    },
                    Option::None => {
                        proof {
                            assert(!dict_enabled(*store, store.kanji@[gki].dictionary_id)) by {
                                if dict_enabled(*store, store.kanji@[gki].dictionary_id) {
                                    let di2 = choose|di2: int|
                                        0 <= di2 < store.dictionaries@.len() && (
                                        #[trigger] store.dictionaries@[di2]).id == store.kanji@[
                                            gki
                                        ].dictionary_id && store.dictionaries@[di2].enabled;
                                    assert(crate::store::has_dict_id(
                                        store.dictionaries@,
                                        store.kanji@[gki].dictionary_id,
                                    ));
                                }
                            }
                        }
                    },
                }
                ki += 1;
            }
            let ghost pre_s = seen@;
            seen.push(c);
            proof {
                assert(seen@[seen@.len() - 1] == c);
                assert(seen@.contains(c));
                assert forall|w: int, ki2: int|
                    #![trigger seen@[w], store.kanji@[ki2]]
                    0 <= w < seen@.len() && 0 <= ki2 < store.kanji@.len() && store.kanji@[
                        ki2
                    ].character == seen@[w] && dict_enabled(
                    *store,
                    store.kanji@[ki2].dictionary_id,
                ) implies kanji_row_covered(*store, entries@, ki2) by {
                    if w < pre_s.len() {
                        assert(seen@[w] == pre_s[w]);
                    } else {
                        assert(seen@[w] == c);
                        assert(idxs@.contains(ki2 as usize));
                        let j = choose|j: int|
                            0 <= j < idxs@.len() && (#[trigger] idxs@[j]) == ki2 as usize;
                        assert(0 <= ki2 <= usize::MAX);
                        assert(idxs@[j] as int == ki2);
                        assert(kanji_row_covered(*store, entries@, idxs@[j] as int));
                    }
                }
                assert(kanji_seen_covered(*store, seen@, entries@));
            }
        }
        proof {
            assert(seen@.contains(c));
            assert forall|cx: int, ki2: int|
                #![trigger kw[cx], store.kanji@[ki2]]
                0 <= cx < ci + 1 && 0 <= ki2 < store.kanji@.len() && store.kanji@[ki2].character
                    == kw[cx] && dict_enabled(
                *store,
                store.kanji@[ki2].dictionary_id,
            ) implies kanji_row_covered(*store, entries@, ki2) by {
                if cx == ci {
                    let w = choose|w: int| 0 <= w < seen@.len() && seen@[w] == c;
                    assert(store.kanji@[ki2].character == seen@[w]);
                }
            }
            assert(kanji_covered_for(*store, kw, entries@, ci as int + 1));
        }
        ci += 1;
    }
    proof {
        assert(kanji_covered_for(*store, kw, entries@, wn as int));
    }
    let ghost pre_sort = entries@;
    let sorted = sort_kanji_entries(entries);
    proof {
        lemma_multiset_forall(pre_sort, sorted@, |e: KanjiEntry| kanji_from_store(*store, e));
        lemma_kanji_covered_multiset(*store, kw, pre_sort, sorted@, wn as int);
    }
    sorted
}

} // verus!
