//! The deinflector: a language-tagged rule engine. Each rule is a suffix
//! or prefix rewrite gated by condition sets, applied iteratively up to a
//! depth limit; every candidate it returns is derivable from the input by
//! the rules.

use vstd::prelude::*;
use vstd::slice::slice_subrange;
use crate::text::{chars_eq, chars_to_string, ends_with, str_to_chars};

verus! {

/// The languages the lookup recognizes.
#[derive(PartialEq, Eq, Structural, Clone, Copy, Debug)]
pub enum Language {
    English,
    Spanish,
    French,
    German,
    Portuguese,
    Italian,
    Dutch,
    Norwegian,
    Swedish,
    Danish,
    Finnish,
    Estonian,
    Latvian,
    Romanian,
    Polish,
    Czech,
    Hungarian,
    Turkish,
    Indonesian,
    Vietnamese,
    Tagalog,
    Maltese,
    Welsh,
    Bulgarian,
    Russian,
    Ukrainian,
    Greek,
    Latin,
    Mongolian,
    Japanese,
    Korean,
    Chinese,
    Arabic,
}

/// The languages whose candidates get a lower-cased variant before
/// deinflection.
pub open spec fn is_latin_script(l: Language) -> bool {
    match l {
        Language::Japanese => false,
        Language::Korean => false,
        Language::Chinese => false,
        Language::Arabic => false,
        _ => true,
    }
}

pub fn latin_script(l: Language) -> (r: bool)
    ensures
        r == is_latin_script(l),
{
    match l {
        Language::Japanese => false,
        Language::Korean => false,
        Language::Chinese => false,
        Language::Arabic => false,
        _ => true,
    }
}

/// The condition mask of a word nothing has rewritten yet.
pub const COND_ANY: u32 = 0xFFFF_FFFF;

/// One rewrite rule: strips `from` (a suffix or a prefix) and appends or
/// prepends `to`, gated by condition masks.
pub struct Rule {
    /// Rewrites a suffix when set, a prefix otherwise.
    pub suffix: bool,
    pub from: String,
    pub to: String,
    /// The rule fires only on words whose conditions intersect this mask
    /// (0 accepts any).
    pub cond_in: u32,
    /// The conditions of the rewritten word.
    pub cond_out: u32,
}

/// Whether a rule fires on a word carrying the given conditions.
pub open spec fn rule_applies(r: Rule, w: Seq<char>, conds: u32) -> bool {
    &&& (conds == COND_ANY || r.cond_in == 0 || (conds & r.cond_in) != 0)
    &&& if r.suffix {
        ends_with(w, r.from@)
    } else {
        w.len() >= r.from@.len() && w.subrange(0, r.from@.len() as int) == r.from@
    }
    &&& w.len() - r.from@.len() + r.to@.len() > 0
}

/// The word a rule rewrites `w` to.
pub open spec fn rule_rewrite(r: Rule, w: Seq<char>) -> Seq<char> {
    if r.suffix {
        w.subrange(0, w.len() - r.from@.len()) + r.to@
    } else {
        r.to@ + w.subrange(r.from@.len() as int, w.len() as int)
    }
}

/// Whether `out` with conditions `cond_out` is reachable from `w` with
/// conditions `conds` by at most `fuel` rule applications.
pub open spec fn derivable(
    rules: Seq<Rule>,
    w: Seq<char>,
    conds: u32,
    out: Seq<char>,
    fuel: nat,
) -> bool
    decreases fuel,
{
    ||| out == w
    ||| (fuel > 0 && exists|k: int|
        0 <= k < rules.len() && #[trigger] rule_applies(rules[k], w, conds) && derivable(
            rules,
            rule_rewrite(rules[k], w),
            rules[k].cond_out,
            out,
            (fuel - 1) as nat,
        ))
}

/// The depth limit of the rewrite iteration.
pub const MAX_DEPTH: u64 = 3;

/// A cap on how many candidates one call may return.
pub const MAX_CANDIDATES: usize = 64;

proof fn lemma_derivable_mono(rules: Seq<Rule>, w: Seq<char>, conds: u32, out: Seq<char>, f1: nat, f2: nat)
    requires
        derivable(rules, w, conds, out, f1),
        f1 <= f2,
    ensures
        derivable(rules, w, conds, out, f2),
    decreases f1,
{
    if out == w {
    } else {
        let k = choose|k: int|
            0 <= k < rules.len() && #[trigger] rule_applies(rules[k], w, conds) && derivable(
                rules,
                rule_rewrite(rules[k], w),
                rules[k].cond_out,
                out,
                (f1 - 1) as nat,
            );
        lemma_derivable_mono(
            rules,
            rule_rewrite(rules[k], w),
            rules[k].cond_out,
            out,
            (f1 - 1) as nat,
            (f2 - 1) as nat,
        );
    }
}

/// Every applicable first rewrite of `w` stands in `rs`, unless the
/// candidate cap was reached.
pub open spec fn one_step_complete(rules: Seq<Rule>, w: Seq<char>, rs: Seq<String>) -> bool {
    forall|k: int|
        0 <= k < rules.len() && #[trigger] rule_applies(rules[k], w, COND_ANY) ==> (
        crate::text::contains_view(rs, rule_rewrite(rules[k], w)) || rs.len()
            >= MAX_CANDIDATES)
}

proof fn lemma_one_step_extend(rules: Seq<Rule>, w: Seq<char>, pre: Seq<String>, post: Seq<String>)
    requires
        one_step_complete(rules, w, pre),
        pre.len() <= post.len(),
        forall|i: int| 0 <= i < pre.len() ==> #[trigger] post[i] == pre[i],
    ensures
        one_step_complete(rules, w, post),
{
    assert forall|k: int|
        0 <= k < rules.len() && #[trigger] rule_applies(rules[k], w, COND_ANY) implies (
    crate::text::contains_view(post, rule_rewrite(rules[k], w)) || post.len()
        >= MAX_CANDIDATES) by {
        if crate::text::contains_view(pre, rule_rewrite(rules[k], w)) {
            crate::text::lemma_contains_view_extend(pre, post, rule_rewrite(rules[k], w));
        }
    }
}

/// The deinflector: a rule table for one language.
pub struct Deinflector {
    pub rules: Vec<Rule>,
}

impl Deinflector {
    /// A deinflector over the given rule table.
    pub fn from_rules(rules: Vec<Rule>) -> (r: Deinflector)
        ensures
            r.rules@ == rules@,
    {
        Deinflector { rules }
    }

    /// Whether a rule fires on a word.
    fn applies(rule: &Rule, w: &[char], conds: u32) -> (r: bool)
        ensures
            r == rule_applies(*rule, w@, conds),
    {
        proof {
            vstd::slice::axiom_spec_len(w);
        }
        if !(conds == COND_ANY || rule.cond_in == 0 || (conds & rule.cond_in) != 0) {
            return false;
        }
        let from = str_to_chars(rule.from.as_str());
        let to = str_to_chars(rule.to.as_str());
        let matches_at = if rule.suffix {
            crate::text::chars_ends_with(w, from.as_slice())
        } else {
            if w.len() >= from.len() {
                let head = slice_subrange(w, 0, from.len());
                let m = chars_eq(head, from.as_slice());
                proof {
                    if m {
                        assert(w@.subrange(0, rule.from@.len() as int) == rule.from@);
                    }
                }
                m
            } else {
                false
            }
        };
        if !matches_at {
            return false;
        }
        proof {
            assert(w@.len() >= rule.from@.len());
        }
        ((w.len() - from.len()) as u128) + (to.len() as u128) > 0
    }

    /// The word a rule rewrites `w` to.
    fn rewrite(rule: &Rule, w: &[char]) -> (r: String)
        requires
            w@.len() >= rule.from@.len(),
        ensures
            r@ == rule_rewrite(*rule, w@),
    {
        proof {
            vstd::slice::axiom_spec_len(w);
        }
        let from = str_to_chars(rule.from.as_str());
        if rule.suffix {
            let stem = slice_subrange(w, 0, w.len() - from.len());
            let mut s = chars_to_string(stem);
            s.append(rule.to.as_str());
            proof {
                assert(s@ == rule_rewrite(*rule, w@));
            }
            s
        } else {
            let tail = slice_subrange(w, from.len(), w.len());
            let tail_s = chars_to_string(tail);
            let mut s = rule.to.clone();
            s.append(tail_s.as_str());
            proof {
                assert(s@ == rule_rewrite(*rule, w@));
            }
            s
        }
    }

    /// Candidate base forms of a word: every returned word is reachable
    /// from the input by at most [`MAX_DEPTH`] rule applications. The
    /// input itself is not among them.
    pub fn deinflect(&self, word: &str) -> (r: Vec<String>)
        ensures
            forall|i: int|
                0 <= i < r@.len() ==> derivable(
                    self.rules@,
                    word@,
                    COND_ANY,
                    (#[trigger] r@[i])@,
                    MAX_DEPTH as nat,
                ),
            r@.len() < MAX_CANDIDATES ==> one_step_complete(self.rules@, word@, r@),
    {
        let mut results: Vec<String> = Vec::new();
        let mut frontier: Vec<(String, u32)> = Vec::new();
        frontier.push((word.to_owned(), COND_ANY));
        proof {
            assert(derivable(self.rules@, word@, COND_ANY, word@, 0));
        }
        let mut depth: u64 = 0;
        while depth < MAX_DEPTH
            invariant
                depth <= MAX_DEPTH,
                depth == 0 ==> frontier@.len() == 1 && frontier@[0].0@ == word@ && frontier@[
                    0
                ].1 == COND_ANY,
                depth >= 1 ==> one_step_complete(self.rules@, word@, results@),
                forall|i: int|
                    0 <= i < results@.len() ==> derivable(
                        self.rules@,
                        word@,
                        COND_ANY,
                        (#[trigger] results@[i])@,
                        MAX_DEPTH as nat,
                    ),
                forall|i: int|
                    0 <= i < frontier@.len() ==> derivable_pair(
                        self.rules@,
                        word@,
                        #[trigger] frontier@[i],
                        depth as nat,
                    ),
            decreases MAX_DEPTH - depth,
        {
            let mut next: Vec<(String, u32)> = Vec::new();
            let fn_ = frontier.len();
            let mut fi: usize = 0;
            while fi < fn_
                invariant
                    depth < MAX_DEPTH,
                    fn_ == frontier@.len(),
                    fi <= fn_,
                    depth == 0 ==> fn_ == 1 && frontier@[0].0@ == word@ && frontier@[0].1
                        == COND_ANY,
                    depth == 0 && fi >= 1 ==> one_step_complete(self.rules@, word@, results@),
                    depth >= 1 ==> one_step_complete(self.rules@, word@, results@),
                    forall|i: int|
                        0 <= i < results@.len() ==> derivable(
                            self.rules@,
                            word@,
                            COND_ANY,
                            (#[trigger] results@[i])@,
                            MAX_DEPTH as nat,
                        ),
                    forall|i: int|
                        0 <= i < frontier@.len() ==> derivable_pair(
                            self.rules@,
                            word@,
                            #[trigger] frontier@[i],
                            depth as nat,
                        ),
                    forall|i: int|
                        0 <= i < next@.len() ==> derivable_pair(
                            self.rules@,
                            word@,
                            #[trigger] next@[i],
                            depth as nat + 1,
                        ),
                decreases fn_ - fi,
            {
                let w_chars = str_to_chars(frontier[fi].0.as_str());
                let conds = frontier[fi].1;
                let rn = self.rules.len();
                let mut ri: usize = 0;
                while ri < rn
                    invariant
                        depth < MAX_DEPTH,
                        fn_ == frontier@.len(),
                        fi < fn_,
                        rn == self.rules@.len(),
                        ri <= rn,
                        w_chars@ == frontier@[fi as int].0@,
                        conds == frontier@[fi as int].1,
                        depth == 0 ==> fi == 0 && w_chars@ == word@ && conds == COND_ANY,
                        depth == 0 ==> forall|k: int|
                            0 <= k < ri && #[trigger] rule_applies(
                                self.rules@[k],
                                word@,
                                COND_ANY,
                            ) ==> (crate::text::contains_view(
                                results@,
                                rule_rewrite(self.rules@[k], word@),
                            ) || results@.len() >= MAX_CANDIDATES),
                        depth >= 1 ==> one_step_complete(self.rules@, word@, results@),
                        derivable_pair(self.rules@, word@, frontier@[fi as int], depth as nat),
                        forall|i: int|
                            0 <= i < results@.len() ==> derivable(
                                self.rules@,
                                word@,
                                COND_ANY,
                                (#[trigger] results@[i])@,
                                MAX_DEPTH as nat,
                            ),
                        forall|i: int|
                            0 <= i < next@.len() ==> derivable_pair(
                                self.rules@,
                                word@,
                                #[trigger] next@[i],
                                depth as nat + 1,
                            ),
                    decreases rn - ri,
                {
                    if results.len() < MAX_CANDIDATES {
                        let rule = &self.rules[ri];
                        if Self::applies(rule, w_chars.as_slice(), conds) {
                            let nw = Self::rewrite(rule, w_chars.as_slice());
                            proof {
                                lemma_reachable_step(
                                    self.rules@,
                                    word@,
                                    COND_ANY,
                                    frontier@[fi as int].0@,
                                    conds,
                                    ri as int,
                                    depth as nat,
                                );
                                lemma_reachable_derivable(
                                    self.rules@,
                                    word@,
                                    COND_ANY,
                                    nw@,
                                    self.rules@[ri as int].cond_out,
                                    depth as nat + 1,
                                );
                                lemma_derivable_mono(
                                    self.rules@,
                                    word@,
                                    COND_ANY,
                                    nw@,
                                    depth as nat + 1,
                                    MAX_DEPTH as nat,
                                );
                            }
                            let ghost pre_results = results@;
                            results.push(nw.clone());
                            next.push((nw, rule.cond_out));
                            proof {
                                if depth == 0 {
                                    assert(results@.last()@ == rule_rewrite(
                                        self.rules@[ri as int],
                                        word@,
                                    ));
                                    assert(crate::text::contains_view(
                                        results@,
                                        rule_rewrite(self.rules@[ri as int], word@),
                                    ));
                                    assert forall|k: int|
                                        0 <= k < ri + 1 && #[trigger] rule_applies(
                                            self.rules@[k],
                                            word@,
                                            COND_ANY,
                                        ) implies (crate::text::contains_view(
                                        results@,
                                        rule_rewrite(self.rules@[k], word@),
                                    ) || results@.len() >= MAX_CANDIDATES) by {
                                        if k < ri && crate::text::contains_view(
                                            pre_results,
                                            rule_rewrite(self.rules@[k], word@),
                                        ) {
                                            crate::text::lemma_contains_view_extend(
                                                pre_results,
                                                results@,
                                                rule_rewrite(self.rules@[k], word@),
                                            );
                                        }
                                    }
                                } else {
                                    lemma_one_step_extend(
                                        self.rules@,
                                        word@,
                                        pre_results,
                                        results@,
                                    );
                                }
                            }
                        }
                    }
                    ri += 1;
                }
                fi += 1;
            }
            frontier = next;
            depth += 1;
        }
        results
    }
}

/// A frontier entry is a word with its current conditions, reachable
/// from the start word within the given fuel.
pub open spec fn derivable_pair(
    rules: Seq<Rule>,
    start: Seq<char>,
    pair: (String, u32),
    fuel: nat,
) -> bool {
    reachable(rules, start, COND_ANY, pair.0@, pair.1, fuel)
}

/// Whether `(out, cond_out)` is reachable from `(w, conds)` by at most
/// `fuel` rule applications, tracking conditions.
pub open spec fn reachable(
    rules: Seq<Rule>,
    w: Seq<char>,
    conds: u32,
    out: Seq<char>,
    out_conds: u32,
    fuel: nat,
) -> bool
    decreases fuel,
{
    ||| (out == w && out_conds == conds)
    ||| (fuel > 0 && exists|k: int|
        0 <= k < rules.len() && #[trigger] rule_applies(rules[k], w, conds) && reachable(
            rules,
            rule_rewrite(rules[k], w),
            rules[k].cond_out,
            out,
            out_conds,
            (fuel - 1) as nat,
        ))
}

/// One rule application extends reachability by one step of fuel.
proof fn lemma_reachable_step(
    rules: Seq<Rule>,
    from: Seq<char>,
    from_conds: u32,
    w: Seq<char>,
    conds: u32,
    k: int,
    fuel: nat,
)
    requires
        reachable(rules, from, from_conds, w, conds, fuel),
        0 <= k < rules.len(),
        rule_applies(rules[k], w, conds),
    ensures
        reachable(
            rules,
            from,
            from_conds,
            rule_rewrite(rules[k], w),
            rules[k].cond_out,
            fuel + 1,
        ),
    decreases fuel,
{
    if w == from && conds == from_conds {
        assert(reachable(
            rules,
            rule_rewrite(rules[k], w),
            rules[k].cond_out,
            rule_rewrite(rules[k], w),
            rules[k].cond_out,
            fuel as nat,
        ));
    } else {
        let m = choose|m: int|
            0 <= m < rules.len() && #[trigger] rule_applies(rules[m], from, from_conds)
                && reachable(
                rules,
                rule_rewrite(rules[m], from),
                rules[m].cond_out,
                w,
                conds,
                (fuel - 1) as nat,
            );
        lemma_reachable_step(
            rules,
            rule_rewrite(rules[m], from),
            rules[m].cond_out,
            w,
            conds,
            k,
            (fuel - 1) as nat,
        );
    }
}

/// Anything reachable is derivable with the same fuel.
proof fn lemma_reachable_derivable(
    rules: Seq<Rule>,
    from: Seq<char>,
    from_conds: u32,
    w: Seq<char>,
    conds: u32,
    fuel: nat,
)
    requires
        reachable(rules, from, from_conds, w, conds, fuel),
    ensures
        derivable(rules, from, from_conds, w, fuel),
    decreases fuel,
{
    if w == from && conds == from_conds {
    } else {
        let m = choose|m: int|
            0 <= m < rules.len() && #[trigger] rule_applies(rules[m], from, from_conds)
                && reachable(
                rules,
                rule_rewrite(rules[m], from),
                rules[m].cond_out,
                w,
                conds,
                (fuel - 1) as nat,
            );
        lemma_reachable_derivable(
            rules,
            rule_rewrite(rules[m], from),
            rules[m].cond_out,
            w,
            conds,
            (fuel - 1) as nat,
        );
    }
}

fn suffix_rule(from: &str, to: &str) -> (r: Rule)
    ensures
        r.suffix == true,
        r.from@ == from@,
        r.to@ == to@,
        r.cond_in == 0,
{
    Rule {
        suffix: true,
        from: String::from_str(from),
        to: String::from_str(to),
        cond_in: 0,
        cond_out: 0,
    }
}

/// The bundled French rule table: common verb conjugation and plural
/// endings rewritten toward the base form, pinned rule by rule.
pub fn transformer() -> (r: Deinflector)
    ensures
        r.rules@.len() == 12,
        forall|i: int|
            0 <= i < r.rules@.len() ==> (#[trigger] r.rules@[i]).suffix == true && r.rules@[
                i
            ].cond_in == 0,
        r.rules@[0].from@ == "\u{e9}s"@ && r.rules@[0].to@ == "er"@,
        r.rules@[1].from@ == "\u{e9}e"@ && r.rules@[1].to@ == "er"@,
        r.rules@[2].from@ == "\u{e9}"@ && r.rules@[2].to@ == "er"@,
        r.rules@[3].from@ == "ons"@ && r.rules@[3].to@ == "er"@,
        r.rules@[4].from@ == "ez"@ && r.rules@[4].to@ == "er"@,
        r.rules@[5].from@ == "ent"@ && r.rules@[5].to@ == "er"@,
        r.rules@[6].from@ == "ais"@ && r.rules@[6].to@ == "er"@,
        r.rules@[7].from@ == "ait"@ && r.rules@[7].to@ == "er"@,
        r.rules@[8].from@ == "eaux"@ && r.rules@[8].to@ == "eau"@,
        r.rules@[9].from@ == "aux"@ && r.rules@[9].to@ == "al"@,
        r.rules@[10].from@ == "x"@ && r.rules@[10].to@ == ""@,
        r.rules@[11].from@ == "s"@ && r.rules@[11].to@ == ""@,
{
    let mut rules: Vec<Rule> = Vec::new();
    rules.push(suffix_rule("\u{e9}s", "er"));
    rules.push(suffix_rule("\u{e9}e", "er"));
    rules.push(suffix_rule("\u{e9}", "er"));
    rules.push(suffix_rule("ons", "er"));
    rules.push(suffix_rule("ez", "er"));
    rules.push(suffix_rule("ent", "er"));
    rules.push(suffix_rule("ais", "er"));
    rules.push(suffix_rule("ait", "er"));
    rules.push(suffix_rule("eaux", "eau"));
    rules.push(suffix_rule("aux", "al"));
    rules.push(suffix_rule("x", ""));
    rules.push(suffix_rule("s", ""));
    proof {
        assert(rules@.len() == 12);
    }
    Deinflector { rules }
}

} // verus!
