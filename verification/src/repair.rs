//! JSON escape repair: the one mutation applied to bank files before they
//! are parsed. A `\uXXXX` escape without four hex digits is replaced by
//! the escape of the replacement character;
//! any other unknown backslash escape `\x` is passed through literally as
//! `\\x`; a lone trailing backslash becomes `\\`.

use vstd::prelude::*;

verus! {

/// ASCII hex digit.
pub open spec fn is_hex(c: u8) -> bool {
    (0x30 <= c <= 0x39) || (0x41 <= c <= 0x46) || (0x61 <= c <= 0x66)
}

/// The single characters JSON allows after a backslash (besides `u`).
pub open spec fn is_known_escape(c: u8) -> bool {
    c == 0x22 || c == 0x5C || c == 0x2F || c == 0x62 || c == 0x66 || c == 0x6E || c == 0x72
        || c == 0x74
}

/// The repaired form of the suffix of `b` that starts at `i`.
pub open spec fn repair_from(b: Seq<u8>, i: int) -> Seq<u8>
    decreases b.len() - i,
    when 0 <= i
{
    if i >= b.len() {
        Seq::empty()
    } else if b[i] != 0x5C {
        seq![b[i]] + repair_from(b, i + 1)
    } else if i + 1 >= b.len() {
        seq![0x5Cu8, 0x5Cu8]
    } else if b[i + 1] == 0x75 {
        if i + 6 <= b.len() && is_hex(b[i + 2]) && is_hex(b[i + 3]) && is_hex(b[i + 4]) && is_hex(
            b[i + 5],
        ) {
            seq![0x5Cu8, 0x75u8, b[i + 2], b[i + 3], b[i + 4], b[i + 5]] + repair_from(b, i + 6)
        } else {
            seq![0x5Cu8, 0x75u8, 0x46u8, 0x46u8, 0x46u8, 0x44u8] + repair_from(b, i + 2)
        }
    } else if is_known_escape(b[i + 1]) {
        seq![0x5Cu8, b[i + 1]] + repair_from(b, i + 2)
    } else {
        seq![0x5Cu8, 0x5Cu8, b[i + 1]] + repair_from(b, i + 2)
    }
}

/// The repaired form of a whole buffer.
pub open spec fn repair_spec(b: Seq<u8>) -> Seq<u8> {
    repair_from(b, 0)
}

/// Repairing depends only on the suffix: reading from `i` equals reading
/// the suffix from its start.
proof fn lemma_repair_shift(b: Seq<u8>, i: int)
    requires
        0 <= i <= b.len(),
    ensures
        repair_from(b, i) == repair_spec(b.subrange(i, b.len() as int)),
    decreases b.len() - i,
{
    let t = b.subrange(i, b.len() as int);
    if i >= b.len() {
        assert(repair_from(t, 0) == Seq::<u8>::empty());
    } else if b[i] != 0x5C {
        lemma_repair_shift(b, i + 1);
        assert(t.subrange(1, t.len() as int) =~= b.subrange(i + 1, b.len() as int));
        assert(repair_from(t, 1) == repair_spec(t.subrange(1, t.len() as int))) by {
            lemma_repair_shift(t, 1);
        }
    } else if i + 1 >= b.len() {
        assert(t.len() == 1 && t[0] == 0x5C);
    } else if b[i + 1] == 0x75 {
        if i + 6 <= b.len() && is_hex(b[i + 2]) && is_hex(b[i + 3]) && is_hex(b[i + 4]) && is_hex(
            b[i + 5],
        ) {
            lemma_repair_shift(b, i + 6);
            assert(t.subrange(6, t.len() as int) =~= b.subrange(i + 6, b.len() as int));
            assert(repair_from(t, 6) == repair_spec(t.subrange(6, t.len() as int))) by {
                lemma_repair_shift(t, 6);
            }
        } else {
            lemma_repair_shift(b, i + 2);
            assert(t.subrange(2, t.len() as int) =~= b.subrange(i + 2, b.len() as int));
            assert(repair_from(t, 2) == repair_spec(t.subrange(2, t.len() as int))) by {
                lemma_repair_shift(t, 2);
            }
        }
    } else {
        lemma_repair_shift(b, i + 2);
        assert(t.subrange(2, t.len() as int) =~= b.subrange(i + 2, b.len() as int));
        assert(repair_from(t, 2) == repair_spec(t.subrange(2, t.len() as int))) by {
            lemma_repair_shift(t, 2);
        }
    }
}

/// A chunk the repair emits: a plain byte, a complete known escape, or a
/// complete `\uXXXX` escape.
pub open spec fn repaired_chunk(c: Seq<u8>) -> bool {
    ||| (c.len() == 1 && c[0] != 0x5C)
    ||| (c.len() == 2 && c[0] == 0x5C && is_known_escape(c[1]))
    ||| (c.len() == 6 && c[0] == 0x5C && c[1] == 0x75 && is_hex(c[2]) && is_hex(c[3]) && is_hex(
        c[4],
    ) && is_hex(c[5]))
}

/// Repairing a buffer that opens with an already-repaired chunk repairs
/// only the remainder.
proof fn lemma_repair_chunk(c: Seq<u8>, t: Seq<u8>)
    requires
        repaired_chunk(c),
    ensures
        repair_spec(c + t) == c + repair_spec(t),
{
    let s = c + t;
    assert(s.len() == c.len() + t.len());
    if c.len() == 1 && c[0] != 0x5C {
        assert(s[0] == c[0]);
        assert(repair_spec(s) == seq![s[0]] + repair_from(s, 1));
        lemma_repair_shift(s, 1);
        assert(s.subrange(1, s.len() as int) =~= t);
        assert(seq![c[0]] + repair_spec(t) =~= c + repair_spec(t));
    } else if c.len() == 2 && c[0] == 0x5C && is_known_escape(c[1]) {
        assert(s[0] == 0x5C && s[1] == c[1]);
        if c[1] == 0x75 {
            assert(!is_known_escape(0x75u8));
        }
        assert(repair_spec(s) == seq![0x5Cu8, s[1]] + repair_from(s, 2));
        lemma_repair_shift(s, 2);
        assert(s.subrange(2, s.len() as int) =~= t);
        assert(seq![0x5Cu8, c[1]] + repair_spec(t) =~= c + repair_spec(t));
    } else {
        assert(s[0] == 0x5C && s[1] == 0x75 && s[2] == c[2] && s[3] == c[3] && s[4] == c[4] && s[5]
            == c[5]);
        assert(repair_spec(s) == seq![0x5Cu8, 0x75u8, s[2], s[3], s[4], s[5]] + repair_from(s, 6));
        lemma_repair_shift(s, 6);
        assert(s.subrange(6, s.len() as int) =~= t);
        assert(seq![0x5Cu8, 0x75u8, c[2], c[3], c[4], c[5]] + repair_spec(t) =~= c + repair_spec(
            t,
        ));
    }
}

/// Escape repair is idempotent: repairing an already-repaired buffer
/// yields the same bytes.
pub proof fn lemma_repair_idempotent(b: Seq<u8>)
    ensures
        repair_spec(repair_spec(b)) == repair_spec(b),
{
    lemma_repair_idempotent_from(b, 0);
}

proof fn lemma_repair_idempotent_from(b: Seq<u8>, i: int)
    requires
        0 <= i <= b.len(),
    ensures
        repair_spec(repair_from(b, i)) == repair_from(b, i),
    decreases b.len() - i,
{
    if i >= b.len() {
        assert(repair_spec(Seq::<u8>::empty()) == Seq::<u8>::empty());
    } else if b[i] != 0x5C {
        let c = seq![b[i]];
        let rest = repair_from(b, i + 1);
        lemma_repair_idempotent_from(b, i + 1);
        lemma_repair_chunk(c, rest);
    } else if i + 1 >= b.len() {
        let s = seq![0x5Cu8, 0x5Cu8];
        assert(is_known_escape(0x5Cu8));
        assert(repair_spec(s) == seq![0x5Cu8, s[1]] + repair_from(s, 2));
        assert(repair_from(s, 2) == Seq::<u8>::empty());
        assert(repair_spec(s) =~= s);
    } else if b[i + 1] == 0x75 {
        if i + 6 <= b.len() && is_hex(b[i + 2]) && is_hex(b[i + 3]) && is_hex(b[i + 4]) && is_hex(
            b[i + 5],
        ) {
            let c = seq![0x5Cu8, 0x75u8, b[i + 2], b[i + 3], b[i + 4], b[i + 5]];
            let rest = repair_from(b, i + 6);
            lemma_repair_idempotent_from(b, i + 6);
            lemma_repair_chunk(c, rest);
        } else {
            let c = seq![0x5Cu8, 0x75u8, 0x46u8, 0x46u8, 0x46u8, 0x44u8];
            let rest = repair_from(b, i + 2);
            lemma_repair_idempotent_from(b, i + 2);
            assert(is_hex(0x46u8) && is_hex(0x44u8));
            lemma_repair_chunk(c, rest);
        }
    } else if is_known_escape(b[i + 1]) {
        let c = seq![0x5Cu8, b[i + 1]];
        let rest = repair_from(b, i + 2);
        lemma_repair_idempotent_from(b, i + 2);
        lemma_repair_chunk(c, rest);
    } else {
        let c2 = seq![0x5Cu8, 0x5Cu8];
        let c3 = seq![b[i + 1]];
        let rest = repair_from(b, i + 2);
        lemma_repair_idempotent_from(b, i + 2);
        assert(is_known_escape(0x5Cu8));
        assert(b[i + 1] != 0x5C);
        lemma_repair_chunk(c3, rest);
        lemma_repair_chunk(c2, c3 + rest);
        assert(c2 + (c3 + rest) =~= seq![0x5Cu8, 0x5Cu8, b[i + 1]] + rest);
        assert(c2 + (c3 + repair_spec(rest)) =~= seq![0x5Cu8, 0x5Cu8, b[i + 1]] + repair_spec(
            rest,
        ));
    }
}

fn hex_exec(c: u8) -> (r: bool)
    ensures
        r == is_hex(c),
{
    (0x30 <= c && c <= 0x39) || (0x41 <= c && c <= 0x46) || (0x61 <= c && c <= 0x66)
}

fn known_escape_exec(c: u8) -> (r: bool)
    ensures
        r == is_known_escape(c),
{
    c == 0x22 || c == 0x5C || c == 0x2F || c == 0x62 || c == 0x66 || c == 0x6E || c == 0x72
        || c == 0x74
}

/// Repairs the JSON escapes of a buffer.
pub fn repair(b: &[u8]) -> (r: Vec<u8>)
    ensures
        r@ == repair_spec(b@),
{
    proof {
        vstd::slice::axiom_spec_len(b);
    }
    let n = b.len();
    let mut out: Vec<u8> = Vec::new();
    let mut i: usize = 0;
    while i < n
        invariant
            n == b@.len(),
            i <= n,
            repair_spec(b@) == out@ + repair_from(b@, i as int),
        decreases n - i,
    {
        let ghost pre = out@;
        let ghost gi = i as int;
        if b[i] != 0x5C {
            out.push(b[i]);
            i += 1;
            proof {
                assert(pre + (seq![b@[gi]] + repair_from(b@, gi + 1)) =~= out@ + repair_from(
                    b@,
                    i as int,
                ));
            }
        } else if i + 1 >= n {
            out.push(0x5C);
            out.push(0x5C);
            i = n;
            proof {
                assert(pre + seq![0x5Cu8, 0x5Cu8] =~= out@);
                assert(repair_from(b@, i as int) == Seq::<u8>::empty());
                assert(out@ + Seq::<u8>::empty() =~= out@);
            }
        } else if b[i + 1] == 0x75 {
            if n - i >= 6 && hex_exec(b[i + 2]) && hex_exec(b[i + 3]) && hex_exec(b[i + 4])
                && hex_exec(b[i + 5]) {
                out.push(0x5C);
                out.push(0x75);
                out.push(b[i + 2]);
                out.push(b[i + 3]);
                out.push(b[i + 4]);
                out.push(b[i + 5]);
                i += 6;
                proof {
                    assert(pre + (seq![0x5Cu8, 0x75u8, b@[gi + 2], b@[gi + 3], b@[gi + 4], b@[gi
                        + 5]] + repair_from(b@, gi + 6)) =~= out@ + repair_from(b@, i as int));
                }
            } else {
                out.push(0x5C);
                out.push(0x75);
                out.push(0x46);
                out.push(0x46);
                out.push(0x46);
                out.push(0x44);
                i += 2;
                proof {
                    assert(pre + (seq![0x5Cu8, 0x75u8, 0x46u8, 0x46u8, 0x46u8, 0x44u8]
                        + repair_from(b@, gi + 2)) =~= out@ + repair_from(b@, i as int));
                }
            }
        } else if known_escape_exec(b[i + 1]) {
            out.push(0x5C);
            out.push(b[i + 1]);
            i += 2;
            proof {
                assert(pre + (seq![0x5Cu8, b@[gi + 1]] + repair_from(b@, gi + 2)) =~= out@
                    + repair_from(b@, i as int));
            }
        } else {
            out.push(0x5C);
            out.push(0x5C);
            out.push(b[i + 1]);
            i += 2;
            proof {
                assert(pre + (seq![0x5Cu8, 0x5Cu8, b@[gi + 1]] + repair_from(b@, gi + 2)) =~= out@
                    + repair_from(b@, i as int));
            }
        }
    }
    proof {
        assert(repair_from(b@, n as int) == Seq::<u8>::empty());
        assert(out@ + Seq::<u8>::empty() =~= out@);
    }
    out
}

} // verus!
