//! Verified string helpers: equality, conversion between strings and
//! character vectors, and the trimmed, ASCII-case-folded normal form used
//! to compare dictionary names.

use vstd::prelude::*;
use vstd::utf8::{decode_utf8, encode_utf8, encode_utf8_decode_utf8, encode_utf8_valid_utf8};
use crate::textio::push_char;

verus! {

/// String equality, decided on the UTF-8 bytes.
pub fn str_eq(a: &str, b: &str) -> (r: bool)
    ensures
        r == (a@ == b@),
{
    proof {
        broadcast use encode_utf8_valid_utf8, encode_utf8_decode_utf8;

    }
    let ab = a.as_bytes();
    let bb = b.as_bytes();
    if ab.len() != bb.len() {
        proof {
            assert(a@ != b@);
        }
        return false;
    }
    let n = ab.len();
    let mut i: usize = 0;
    while i < n
        invariant
            n == ab@.len() == bb@.len(),
            ab@ == encode_utf8(a@),
            bb@ == encode_utf8(b@),
            i <= n,
            forall|k: int| 0 <= k < i ==> ab@[k] == bb@[k],
        decreases n - i,
    {
        if ab[i] != bb[i] {
            proof {
                assert(encode_utf8(a@) != encode_utf8(b@));
            }
            return false;
        }
        i += 1;
    }
    proof {
        assert(ab@ =~= bb@);
        broadcast use encode_utf8_decode_utf8;

        assert(decode_utf8(encode_utf8(a@)) == a@);
        assert(decode_utf8(encode_utf8(b@)) == b@);
    }
    true
}

/// Character-vector equality.
pub fn chars_eq(a: &[char], b: &[char]) -> (r: bool)
    ensures
        r == (a@ == b@),
{
    proof {
        vstd::slice::axiom_spec_len(a);
        vstd::slice::axiom_spec_len(b);
    }
    if a.len() != b.len() {
        return false;
    }
    let n = a.len();
    let mut i: usize = 0;
    while i < n
        invariant
            n == a@.len() == b@.len(),
            i <= n,
            forall|k: int| 0 <= k < i ==> a@[k] == b@[k],
        decreases n - i,
    {
        if a[i] != b[i] {
            return false;
        }
        i += 1;
    }
    proof {
        assert(a@ =~= b@);
    }
    true
}

/// The characters of a string, as a vector.
pub fn str_to_chars(s: &str) -> (r: Vec<char>)
    ensures
        r@ == s@,
{
    let n = s.unicode_len();
    let mut out: Vec<char> = Vec::new();
    let mut i: usize = 0;
    while i < n
        invariant
            n == s@.len(),
            i <= n,
            out@ == s@.take(i as int),
        decreases n - i,
    {
        out.push(s.get_char(i));
        proof {
            assert(out@ =~= s@.take(i as int + 1));
        }
        i += 1;
    }
    proof {
        assert(s@.take(n as int) =~= s@);
    }
    out
}

/// The string holding exactly the given characters.
pub fn chars_to_string(v: &[char]) -> (r: String)
    ensures
        r@ == v@,
{
    proof {
        vstd::slice::axiom_spec_len(v);
    }
    let n = v.len();
    let mut out = String::new();
    let mut i: usize = 0;
    while i < n
        invariant
            n == v@.len(),
            i <= n,
            out@ == v@.take(i as int),
        decreases n - i,
    {
        push_char(&mut out, v[i]);
        proof {
            assert(out@ =~= v@.take(i as int + 1));
        }
        i += 1;
    }
    proof {
        assert(v@.take(n as int) =~= v@);
    }
    out
}

/// ASCII whitespace, as trimmed from dictionary names.
pub open spec fn is_ws(c: char) -> bool {
    c == ' ' || c == '\t' || c == '\n' || c == '\r'
}

/// ASCII lower-casing of one character.
pub open spec fn lower_char(c: char) -> char {
    if 'A' <= c <= 'Z' {
        ((c as u8) + 0x20) as char
    } else {
        c
    }
}

pub open spec fn trim_front(s: Seq<char>) -> Seq<char>
    decreases s.len(),
{
    if s.len() > 0 && is_ws(s[0]) {
        trim_front(s.drop_first())
    } else {
        s
    }
}

pub open spec fn trim_back(s: Seq<char>) -> Seq<char>
    decreases s.len(),
{
    if s.len() > 0 && is_ws(s[s.len() - 1]) {
        trim_back(s.drop_last())
    } else {
        s
    }
}

/// The normal form under which dictionary names are compared: ASCII
/// whitespace trimmed from both ends, ASCII letters lower-cased.
pub open spec fn norm_name(s: Seq<char>) -> Seq<char> {
    trim_back(trim_front(s)).map_values(|c: char| lower_char(c))
}

fn is_ws_exec(c: char) -> (r: bool)
    ensures
        r == is_ws(c),
{
    c == ' ' || c == '\t' || c == '\n' || c == '\r'
}

proof fn lemma_trim_front_skip(s: Seq<char>, i: int)
    requires
        0 <= i <= s.len(),
        forall|k: int| 0 <= k < i ==> is_ws(s[k]),
    ensures
        trim_front(s) == trim_front(s.subrange(i, s.len() as int)),
    decreases i,
{
    if i > 0 {
        assert(is_ws(s[0]));
        assert(trim_front(s) == trim_front(s.drop_first()));
        lemma_trim_front_skip(s.drop_first(), i - 1);
        assert(s.drop_first().subrange(i - 1, s.drop_first().len() as int) =~= s.subrange(
            i,
            s.len() as int,
        ));
    } else {
        assert(s.subrange(0, s.len() as int) =~= s);
    }
}

proof fn lemma_trim_back_skip(s: Seq<char>, j: int)
    requires
        0 <= j <= s.len(),
        forall|k: int| j <= k < s.len() ==> is_ws(s[k]),
    ensures
        trim_back(s) == trim_back(s.subrange(0, j)),
    decreases s.len() - j,
{
    if j < s.len() {
        assert(is_ws(s[s.len() - 1]));
        assert(trim_back(s) == trim_back(s.drop_last()));
        lemma_trim_back_skip(s.drop_last(), j);
        assert(s.drop_last().subrange(0, j) =~= s.subrange(0, j));
    } else {
        assert(s.subrange(0, j) =~= s);
    }
}

/// The normal form of a name, computed on a character vector.
pub fn normalize_name(v: &[char]) -> (r: Vec<char>)
    ensures
        r@ == norm_name(v@),
{
    proof {
        vstd::slice::axiom_spec_len(v);
    }
    let n = v.len();
    let mut start: usize = 0;
    while start < n && is_ws_exec(v[start])
        invariant
            n == v@.len(),
            start <= n,
            forall|k: int| 0 <= k < start ==> is_ws(v@[k]),
        decreases n - start,
    {
        start += 1;
    }
    let mut end: usize = n;
    while end > start && is_ws_exec(v[end - 1])
        invariant
            n == v@.len(),
            start <= end <= n,
            forall|k: int| 0 <= k < start ==> is_ws(v@[k]),
            forall|k: int| end <= k < n ==> is_ws(v@[k]),
        decreases end,
    {
        end -= 1;
    }
    let ghost trimmed = v@.subrange(start as int, end as int);
    proof {
        lemma_trim_front_skip(v@, start as int);
        let t1 = v@.subrange(start as int, n as int);
        if start < n {
            assert(!is_ws(t1[0]));
        }
        assert(trim_front(v@) == t1);
        lemma_trim_back_skip(t1, end - start);
        let t2 = t1.subrange(0, end - start);
        if end > start {
            assert(!is_ws(t2[t2.len() - 1]));
        }
        assert(trim_back(t1) == t2);
        assert(t2 =~= trimmed);
    }
    let mut out: Vec<char> = Vec::new();
    let mut i: usize = start;
    while i < end
        invariant
            n == v@.len(),
            start <= i <= end <= n,
            out@ == v@.subrange(start as int, i as int).map_values(|c: char| lower_char(c)),
        decreases end - i,
    {
        let c = v[i];
        let lc: char = if 'A' <= c && c <= 'Z' {
            (((c as u8) + 0x20) as char)
        } else {
            c
        };
        proof {
            assert('A' <= c <= 'Z' ==> (c as u8) == (c as u32) as u8);
            assert(lc == lower_char(c));
        }
        out.push(lc);
        proof {
            assert(v@.subrange(start as int, i as int + 1) =~= v@.subrange(
                start as int,
                i as int,
            ).push(c));
            assert(out@ =~= v@.subrange(start as int, i as int + 1).map_values(
                |c2: char| lower_char(c2),
            ));
        }
        i += 1;
    }
    proof {
        assert(out@ == trimmed.map_values(|c: char| lower_char(c)));
        assert(norm_name(v@) == trim_back(trim_front(v@)).map_values(|c: char| lower_char(c)));
    }
    out
}

/// Whether some string in the list has this view.
pub open spec fn contains_view(ss: Seq<String>, w: Seq<char>) -> bool {
    exists|i: int| 0 <= i < ss.len() && (#[trigger] ss[i])@ == w
}

/// Containment in a string list survives any extension that keeps the
/// old elements in place.
pub proof fn lemma_contains_view_extend(pre: Seq<String>, post: Seq<String>, w: Seq<char>)
    requires
        contains_view(pre, w),
        pre.len() <= post.len(),
        forall|i: int| 0 <= i < pre.len() ==> #[trigger] post[i] == pre[i],
    ensures
        contains_view(post, w),
{
    let i = choose|i: int| 0 <= i < pre.len() && (#[trigger] pre[i])@ == w;
    assert(post[i]@ == w);
}

/// Whether `s` ends with `suf`.
pub open spec fn ends_with(s: Seq<char>, suf: Seq<char>) -> bool {
    s.len() >= suf.len() && s.subrange(s.len() - suf.len(), s.len() as int) == suf
}

/// Whether `sub` occurs contiguously inside `s`.
pub open spec fn contains_sub(s: Seq<char>, sub: Seq<char>) -> bool {
    exists|k: int|
        0 <= k && k + sub.len() <= s.len() && #[trigger] s.subrange(k, k + sub.len()) == sub
}

pub fn chars_ends_with(a: &[char], suf: &[char]) -> (r: bool)
    ensures
        r == ends_with(a@, suf@),
{
    proof {
        vstd::slice::axiom_spec_len(a);
        vstd::slice::axiom_spec_len(suf);
    }
    if a.len() < suf.len() {
        return false;
    }
    let tail = vstd::slice::slice_subrange(a, a.len() - suf.len(), a.len());
    chars_eq(tail, suf)
}

pub fn chars_contains_sub(a: &[char], sub: &[char]) -> (r: bool)
    ensures
        r == contains_sub(a@, sub@),
{
    proof {
        vstd::slice::axiom_spec_len(a);
        vstd::slice::axiom_spec_len(sub);
    }
    if sub.len() > a.len() {
        return false;
    }
    if sub.len() == 0 {
        proof {
            assert(a@.subrange(0, 0 + sub@.len() as int) =~= sub@);
        }
        return true;
    }
    let last = a.len() - sub.len();
    let mut k: usize = 0;
    while k <= last
        invariant
            1 <= sub@.len() <= a@.len(),
            a@.len() <= usize::MAX,
            last == a@.len() - sub@.len(),
            k <= last + 1,
            forall|m: int| 0 <= m < k ==> #[trigger] a@.subrange(m, m + sub@.len()) != sub@,
        decreases last + 1 - k,
    {
        let win = vstd::slice::slice_subrange(a, k, k + sub.len());
        if chars_eq(win, sub) {
            proof {
                assert(a@.subrange(k as int, k as int + sub@.len()) == sub@);
            }
            return true;
        }
        k += 1;
    }
    proof {
        assert forall|m: int| 0 <= m && m + sub@.len() <= a@.len() implies #[trigger] a@.subrange(
            m,
            m + sub@.len(),
        ) != sub@ by {
            assert(m < k);
        }
    }
    false
}

/// Length of the run of non-whitespace characters starting at `i`.
pub open spec fn word_len_from(s: Seq<char>, i: int) -> nat
    decreases s.len() - i,
    when i >= 0
{
    if i < s.len() && !is_ws(s[i]) {
        1 + word_len_from(s, i + 1)
    } else {
        0
    }
}

proof fn lemma_word_len(s: Seq<char>, i: int, j: int)
    requires
        0 <= i <= j <= s.len(),
        forall|k: int| i <= k < j ==> !is_ws(s[k]),
        j == s.len() || is_ws(s[j]),
    ensures
        word_len_from(s, i) == j - i,
    decreases j - i,
{
    if i < j {
        assert(!is_ws(s[i]));
        lemma_word_len(s, i + 1, j);
    }
}

/// The whitespace-separated words of `s` from position `i` on: maximal
/// nonempty runs of non-whitespace characters, in order.
pub open spec fn split_ws_from(s: Seq<char>, i: int) -> Seq<Seq<char>>
    decreases s.len() - i,
    when i >= 0
    via split_ws_from_decreases
{
    if i >= s.len() {
        Seq::empty()
    } else if is_ws(s[i]) {
        split_ws_from(s, i + 1)
    } else {
        seq![s.subrange(i, i + word_len_from(s, i))] + split_ws_from(
            s,
            i + word_len_from(s, i),
        )
    }
}

proof fn lemma_word_len_le(s: Seq<char>, i: int)
    requires
        0 <= i,
    ensures
        i + word_len_from(s, i) <= s.len() || i >= s.len(),
    decreases s.len() - i,
{
    if i < s.len() && !is_ws(s[i]) {
        lemma_word_len_le(s, i + 1);
    }
}

#[via_fn]
proof fn split_ws_from_decreases(s: Seq<char>, i: int) {
    if 0 <= i && i < s.len() && !is_ws(s[i]) {
        assert(word_len_from(s, i) >= 1);
        lemma_word_len_le(s, i);
    }
}

/// The insertion-order deduplication of a word list, with `acc` already
/// kept.
pub open spec fn dedup_from(ss: Seq<Seq<char>>, i: int, acc: Seq<Seq<char>>) -> Seq<Seq<char>>
    decreases ss.len() - i,
    when i >= 0
{
    if i >= ss.len() {
        acc
    } else if acc.contains(ss[i]) {
        dedup_from(ss, i + 1, acc)
    } else {
        dedup_from(ss, i + 1, acc.push(ss[i]))
    }
}

/// The tag names denoted by a raw tag string: its whitespace-separated
/// words, deduplicated in insertion order.
pub open spec fn tag_names_spec(s: Seq<char>) -> Seq<Seq<char>> {
    dedup_from(split_ws_from(s, 0), 0, Seq::empty())
}

/// Whether a word list contains the given word.
fn words_contain(ws: &Vec<String>, w: &[char]) -> (r: bool)
    ensures
        r == ws@.map_values(|s: String| s@).contains(w@),
{
    proof {
        vstd::slice::axiom_spec_len(w);
    }
    let n = ws.len();
    let mut i: usize = 0;
    while i < n
        invariant
            n == ws@.len(),
            i <= n,
            forall|k: int| 0 <= k < i ==> (#[trigger] ws@[k])@ != w@,
        decreases n - i,
    {
        let cs = str_to_chars(ws[i].as_str());
        if chars_eq(cs.as_slice(), w) {
            proof {
                assert(ws@.map_values(|s: String| s@)[i as int] == w@);
            }
            return true;
        }
        i += 1;
    }
    false
}

/// Splits a string on ASCII whitespace into its words.
pub fn split_whitespace(s: &str) -> (r: Vec<String>)
    ensures
        r@.map_values(|t: String| t@) == split_ws_from(s@, 0),
{
    let v = str_to_chars(s);
    let n = v.len();
    let mut out: Vec<String> = Vec::new();
    let mut i: usize = 0;
    proof {
        assert(out@.map_values(|t: String| t@) =~= Seq::<Seq<char>>::empty());
        assert(Seq::<Seq<char>>::empty() + split_ws_from(s@, 0) =~= split_ws_from(s@, 0));
    }
    while i < n
        invariant
            n == v@.len(),
            v@ == s@,
            i <= n,
            split_ws_from(s@, 0) == out@.map_values(|t: String| t@) + split_ws_from(
                s@,
                i as int,
            ),
        decreases n - i,
    {
        if is_ws_exec(v[i]) {
            i += 1;
        } else {
            let start = i;
            let mut j = i + 1;
            while j < n && !is_ws_exec(v[j])
                invariant
                    n == v@.len(),
                    v@ == s@,
                    start < j <= n,
                    forall|k: int| start <= k < j ==> !is_ws(s@[k]),
                decreases n - j,
            {
                j += 1;
            }
            proof {
                lemma_word_len(s@, start as int, j as int);
            }
            let word = chars_to_string(vstd::slice::slice_subrange(v.as_slice(), start, j));
            let ghost pre = out@;
            out.push(word);
            proof {
                assert(out@.map_values(|t: String| t@) =~= pre.map_values(|t: String| t@).push(
                    s@.subrange(start as int, j as int),
                ));
                assert(split_ws_from(s@, start as int) == seq![s@.subrange(start as int, j as int)]
                    + split_ws_from(s@, j as int));
                assert(pre.map_values(|t: String| t@) + (seq![s@.subrange(start as int, j as int)]
                    + split_ws_from(s@, j as int)) =~= out@.map_values(|t: String| t@)
                    + split_ws_from(s@, j as int));
            }
            i = j;
        }
    }
    proof {
        assert(split_ws_from(s@, n as int) =~= Seq::<Seq<char>>::empty());
        assert(out@.map_values(|t: String| t@) + Seq::<Seq<char>>::empty() =~= out@.map_values(
            |t: String| t@,
        ));
    }
    out
}

/// The tag names of a raw tag string: split on ASCII whitespace and
/// deduplicated in insertion order.
pub fn tag_names(s: &str) -> (r: Vec<String>)
    ensures
        r@.map_values(|t: String| t@) == tag_names_spec(s@),
{
    let words = split_whitespace(s);
    let ghost ws = words@.map_values(|t: String| t@);
    let n = words.len();
    let mut out: Vec<String> = Vec::new();
    let mut i: usize = 0;
    proof {
        assert(out@.map_values(|t: String| t@) =~= Seq::<Seq<char>>::empty());
    }
    while i < n
        invariant
            n == words@.len(),
            ws == words@.map_values(|t: String| t@),
            i <= n,
            tag_names_spec(s@) == dedup_from(ws, i as int, out@.map_values(|t: String| t@)),
        decreases n - i,
    {
        let cs = str_to_chars(words[i].as_str());
        proof {
            assert(ws[i as int] == cs@);
        }
        if words_contain(&out, cs.as_slice()) {
        } else {
            let ghost pre = out@;
            out.push(words[i].clone());
            proof {
                assert(out@.map_values(|t: String| t@) =~= pre.map_values(|t: String| t@).push(
                    ws[i as int],
                ));
            }
        }
        i += 1;
    }
    out
}

} // verus!
