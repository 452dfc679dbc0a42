//! Grammar preparation: turning an external context-free grammar into the
//! normalized, binarized internal form with its lookup tables.
//!
//! The outside `cfg` crate performs the opaque transformation passes; this
//! module extracts the results as plain records and builds, with proofs,
//! the prediction matrix, completion tables, FIRST/FOLLOW rows, nulling
//! catalog and symbol maps.

use vstd::prelude::*;

use crate::cfg_support::{RuleDotRecord, RuleRecord, RuleSymsRecord};
use crate::grammar_api::{GrammarError, PredictionTransition};
use crate::symbol::Symbol;

verus! {

/// How many symbols the order relation places before `s`: the number of
/// set bits in column `s`.
pub open spec fn pred_count(rows: Seq<Vec<bool>>, s: int, upto: int) -> int
    decreases upto,
{
    if upto <= 0 {
        0
    } else {
        pred_count(rows, s, upto - 1) + if 0 <= s < rows[upto - 1]@.len() && rows[upto - 1]@[s] {
            1int
        } else {
            0int
        }
    }
}

/// A symbol's rank, zero outside the table.
pub open spec fn rank_of(ranks: Seq<usize>, s: int) -> int {
    if 0 <= s < ranks.len() {
        ranks[s] as int
    } else {
        0
    }
}

/// Computes each symbol's rank under the order relation: how many
/// symbols the relation places before it. Comparing ranks, with ties
/// broken by symbol id, linearizes the relation into a total order, so
/// the outside sort that consumes the comparator never sees an
/// inconsistent one.
pub fn compute_order_ranks(rows: &Vec<Vec<bool>>) -> (ranks: Vec<usize>)
    ensures
        ranks@.len() == rows@.len(),
        forall|s: int|
            0 <= s < rows@.len() ==> #[trigger] ranks@[s] == pred_count(
                rows@,
                s,
                rows@.len() as int,
            ),
{
    let n = rows.len();
    let mut ranks: Vec<usize> = Vec::new();
    let mut s: usize = 0;
    while s < n
        invariant
            n == rows@.len(),
            s <= n,
            ranks@.len() == s,
            forall|m: int|
                0 <= m < s ==> #[trigger] ranks@[m] == pred_count(rows@, m, rows@.len() as int),
        decreases n - s,
    {
        let mut count: usize = 0;
        let mut x: usize = 0;
        while x < n
            invariant
                n == rows@.len(),
                s < n,
                x <= n,
                count <= x,
                count == pred_count(rows@, s as int, x as int),
            decreases n - x,
        {
            if s < rows[x].len() && rows[x][s] {
                count += 1;
            }
            x += 1;
        }
        ranks.push(count);
        s += 1;
    }
    ranks
}

/// Compares two symbols for the remap pass: by rank under the order
/// relation, then by id. A symbol outside the rank table ranks lowest.
/// The result is a total order, so the outside sort that consumes it is
/// safe; it extends the order relation wherever the relation is
/// acyclic.
pub fn order_cmp(ranks: &Vec<usize>, left: usize, right: usize) -> (r: i8)
    ensures
        r == -1 <==> (rank_of(ranks@, left as int) < rank_of(ranks@, right as int) || (rank_of(
            ranks@,
            left as int,
        ) == rank_of(ranks@, right as int) && left < right)),
        r == 1 <==> (rank_of(ranks@, left as int) > rank_of(ranks@, right as int) || (rank_of(
            ranks@,
            left as int,
        ) == rank_of(ranks@, right as int) && left > right)),
        r == 0 <==> left == right,
{
    let ra = if left < ranks.len() {
        ranks[left]
    } else {
        0
    };
    let rb = if right < ranks.len() {
        ranks[right]
    } else {
        0
    };
    if ra < rb {
        -1
    } else if ra > rb {
        1
    } else if left < right {
        -1
    } else if left > right {
        1
    } else {
        0
    }
}

/// Whoever precedes `a` precedes `b`, and `w` precedes only `b`: then
/// strictly fewer symbols precede `a` than `b`.
proof fn lemma_pred_count_lt(rows: Seq<Vec<bool>>, a: int, b: int, w: int, upto: int)
    requires
        forall|x: int|
            0 <= x < rows.len() && 0 <= a < (#[trigger] rows[x])@.len() && rows[x]@[a] ==> (0 <= b
                < rows[x]@.len() && rows[x]@[b]),
        0 <= w < rows.len(),
        0 <= b < rows[w]@.len(),
        rows[w]@[b],
        !(0 <= a < rows[w]@.len() && rows[w]@[a]),
        0 <= upto <= rows.len(),
    ensures
        w < upto ==> pred_count(rows, a, upto) < pred_count(rows, b, upto),
        pred_count(rows, a, upto) <= pred_count(rows, b, upto),
    decreases upto,
{
    if upto > 0 {
        lemma_pred_count_lt(rows, a, b, w, upto - 1);
    }
}

/// The rank comparison extends the order relation: where the relation
/// orders `a` strictly before `b` and is not cyclic at `a`, the rank of
/// `a` is strictly smaller.
pub proof fn lemma_ranks_extend_order(rows: Seq<Vec<bool>>, ranks: Seq<usize>, a: int, b: int)
    requires
        ranks.len() == rows.len(),
        forall|s: int| 0 <= s < rows.len() ==> #[trigger] ranks[s] == pred_count(
            rows,
            s,
            rows.len() as int,
        ),
        forall|x: int, y: int, z: int|
            0 <= x < rows.len() && 0 <= y < rows.len() && 0 <= z < rows.len() && #[trigger] rows[
                x]@[y] && #[trigger] rows[y]@[z] ==> rows[x]@[z],
        0 <= a < rows.len(),
        0 <= b < rows.len(),
        forall|x: int| 0 <= x < rows.len() ==> (#[trigger] rows[x])@.len() == rows.len(),
        rows[a]@[b],
        !rows[a]@[a],
    ensures
        rank_of(ranks, a) < rank_of(ranks, b),
{
    assert forall|x: int|
        0 <= x < rows.len() && 0 <= a < (#[trigger] rows[x])@.len() && rows[x]@[a] implies (0 <= b
        < rows[x]@.len() && rows[x]@[b]) by {
        assert(rows[x]@[a] && rows[a]@[b]);
    }
    lemma_pred_count_lt(rows, a, b, a, rows.len() as int);
}

/// A rule fit for the internal form: a right-hand side of one or two
/// symbols, every symbol below the internal symbol count.
pub open spec fn rule_ok(r: RuleRecord, nsyms: int) -> bool {
    &&& 1 <= r.rhs_len <= 2
    &&& r.lhs < nsyms
    &&& r.rhs0 < nsyms
    &&& (r.rhs_len == 2 ==> r.rhs1 < nsyms)
}

/// Every rule of the sequence is fit for the internal form.
pub open spec fn rules_ok(rs: Seq<RuleRecord>, nsyms: int) -> bool {
    forall|i: int| 0 <= i < rs.len() ==> rule_ok(#[trigger] rs[i], nsyms)
}

/// Checks one rule against [`rule_ok`].
fn check_rule(rule: &RuleRecord, nsyms: usize) -> (r: bool)
    ensures
        r == rule_ok(*rule, nsyms as int),
{
    if rule.rhs_len < 1 || rule.rhs_len > 2 {
        return false;
    }
    if rule.lhs as usize >= nsyms {
        return false;
    }
    if rule.rhs0 as usize >= nsyms {
        return false;
    }
    if rule.rhs_len == 2 && rule.rhs1 as usize >= nsyms {
        return false;
    }
    true
}

/// Checks every rule against [`rule_ok`].
pub fn validate_rules(rules: &Vec<RuleRecord>, nsyms: usize) -> (r: bool)
    ensures
        r == rules_ok(rules@, nsyms as int),
{
    let mut i: usize = 0;
    while i < rules.len()
        invariant
            0 <= i <= rules@.len(),
            forall|j: int| 0 <= j < i ==> rule_ok(#[trigger] rules@[j], nsyms as int),
        decreases rules@.len() - i,
    {
        if !check_rule(&rules[i], nsyms) {
            return false;
        }
        i += 1;
    }
    true
}

/// The key a rule is sorted by: its left-hand side, or its first
/// right-hand symbol.
pub open spec fn rule_key_spec(r: RuleRecord, by_lhs: bool) -> u32 {
    if by_lhs {
        r.lhs
    } else {
        r.rhs0
    }
}

/// The sequence is ordered by the chosen key.
pub open spec fn sorted_by_key(rs: Seq<RuleRecord>, by_lhs: bool) -> bool {
    forall|i: int, j: int|
        0 <= i <= j < rs.len() ==> rule_key_spec(#[trigger] rs[i], by_lhs) <= rule_key_spec(
            #[trigger] rs[j],
            by_lhs,
        )
}

/// The chosen key of one rule.
fn rule_key(r: &RuleRecord, by_lhs: bool) -> (k: u32)
    ensures
        k == rule_key_spec(*r, by_lhs),
{
    if by_lhs {
        r.lhs
    } else {
        r.rhs0
    }
}

/// Where a new rule belongs in an already sorted sequence, keeping it
/// behind every rule of an equal or smaller key: the stable insertion.
pub open spec fn insert_stable(s: Seq<RuleRecord>, x: RuleRecord, by_lhs: bool) -> Seq<RuleRecord>
    decreases s.len(),
{
    if s.len() == 0 {
        seq![x]
    } else if rule_key_spec(s.last(), by_lhs) <= rule_key_spec(x, by_lhs) {
        s.push(x)
    } else {
        insert_stable(s.drop_last(), x, by_lhs).push(s.last())
    }
}

/// The one stable sort of the rules by the chosen key: each rule in turn
/// is inserted behind its equal-or-smaller keys.
pub open spec fn stable_sort(rs: Seq<RuleRecord>, by_lhs: bool) -> Seq<RuleRecord>
    decreases rs.len(),
{
    if rs.len() == 0 {
        Seq::empty()
    } else {
        insert_stable(stable_sort(rs.drop_last(), by_lhs), rs.last(), by_lhs)
    }
}

/// A stable insertion at the boundary position: with everything from `j`
/// on of strictly greater key, the insertion puts `x` exactly at `j`.
proof fn lemma_insert_stable_at(s: Seq<RuleRecord>, x: RuleRecord, by_lhs: bool, j: int)
    requires
        0 <= j <= s.len(),
        forall|m: int|
            j <= m < s.len() ==> rule_key_spec(#[trigger] s[m], by_lhs) > rule_key_spec(x, by_lhs),
        j > 0 ==> rule_key_spec(s[j - 1], by_lhs) <= rule_key_spec(x, by_lhs),
    ensures
        insert_stable(s, x, by_lhs) == s.subrange(0, j).push(x) + s.subrange(j, s.len() as int),
    decreases s.len() - j,
{
    if j == s.len() {
        if s.len() == 0 {
            assert(insert_stable(s, x, by_lhs) =~= s.subrange(0, j).push(x) + s.subrange(
                j,
                s.len() as int,
            ));
        } else {
            assert(s.subrange(0, j) =~= s);
            assert(insert_stable(s, x, by_lhs) =~= s.subrange(0, j).push(x) + s.subrange(
                j,
                s.len() as int,
            ));
        }
    } else {
        let pre = s.drop_last();
        assert(rule_key_spec(s.last(), by_lhs) > rule_key_spec(x, by_lhs));
        lemma_insert_stable_at(pre, x, by_lhs, j);
        assert(pre.subrange(0, j) =~= s.subrange(0, j));
        assert(insert_stable(s, x, by_lhs) == insert_stable(pre, x, by_lhs).push(s.last()));
        assert(insert_stable(pre, x, by_lhs).push(s.last()) =~= s.subrange(0, j).push(x)
            + s.subrange(j, s.len() as int));
    }
}

/// Sorts the rules by the chosen key, keeping the order of rules with
/// equal keys: the result is the one stable sort of the input.
pub fn sort_rules(rules: Vec<RuleRecord>, by_lhs: bool) -> (r: Vec<RuleRecord>)
    ensures
        r@ == stable_sort(rules@, by_lhs),
        sorted_by_key(r@, by_lhs),
        r@.to_multiset() == rules@.to_multiset(),
        r@.len() == rules@.len(),
{
    broadcast use vstd::seq_lib::group_to_multiset_ensures;
    broadcast use vstd::multiset::group_multiset_axioms;

    let ghost orig = rules@;
    let mut out: Vec<RuleRecord> = Vec::new();
    let mut i: usize = 0;
    while i < rules.len()
        invariant
            i <= rules@.len(),
            orig == rules@,
            out@ == stable_sort(orig.take(i as int), by_lhs),
            sorted_by_key(out@, by_lhs),
            out@.to_multiset() == orig.take(i as int).to_multiset(),
            out@.len() == i,
        decreases rules@.len() - i,
    {
        let x = rules[i];
        let kx = rule_key(&x, by_lhs);
        let mut j: usize = out.len();
        while j > 0 && rule_key(&out[j - 1], by_lhs) > kx
            invariant
                j <= out@.len(),
                sorted_by_key(out@, by_lhs),
                kx == rule_key_spec(x, by_lhs),
                forall|m: int|
                    j <= m < out@.len() ==> rule_key_spec(#[trigger] out@[m], by_lhs)
                        > rule_key_spec(x, by_lhs),
            decreases j,
        {
            j -= 1;
        }
        let ghost pre = out@;
        let ghost jj = j as int;
        out.insert(j, x);
        proof {
            broadcast use vstd::seq_lib::group_to_multiset_ensures;
            broadcast use vstd::multiset::group_multiset_axioms;

            lemma_insert_stable_at(pre, x, by_lhs, jj);
            assert(out@ =~= pre.subrange(0, jj).push(x) + pre.subrange(jj, pre.len() as int));
            assert(orig.take(i + 1).drop_last() =~= orig.take(i as int));
            assert(orig.take(i + 1).last() == x);
            assert(out@ == stable_sort(orig.take(i + 1), by_lhs));
            assert forall|a: int, b: int| 0 <= a <= b < out@.len() implies rule_key_spec(
                #[trigger] out@[a],
                by_lhs,
            ) <= rule_key_spec(#[trigger] out@[b], by_lhs) by {
                if a < jj && b < jj {
                    assert(out@[a] == pre[a] && out@[b] == pre[b]);
                } else if a < jj && b == jj {
                    assert(out@[a] == pre[a] && out@[b] == x);
                    assert(rule_key_spec(pre[jj - 1], by_lhs) <= rule_key_spec(x, by_lhs));
                } else if a < jj && b > jj {
                    assert(out@[a] == pre[a] && out@[b] == pre[b - 1]);
                } else if a == jj && b == jj {
                } else if a == jj && b > jj {
                    assert(out@[a] == x && out@[b] == pre[b - 1]);
                } else {
                    assert(out@[a] == pre[a - 1] && out@[b] == pre[b - 1]);
                }
            }
            assert(out@.to_multiset() =~= orig.take(i + 1).to_multiset()) by {
                assert(pre.insert(jj, x).to_multiset() =~= pre.to_multiset().insert(x));
                assert(out@ == pre.insert(jj, x));
                assert(orig.take(i + 1).to_multiset() =~= orig.take(
                    i as int,
                ).to_multiset().insert(x)) by {
                    assert(orig.take(i + 1) =~= orig.take(i as int).push(x));
                    assert(orig.take(i as int).push(x).to_multiset() =~= orig.take(
                        i as int,
                    ).to_multiset().insert(x));
                }
            }
        }
        i += 1;
    }
    proof {
        assert(orig.take(orig.len() as int) =~= orig);
    }
    out
}

/// The least index whose rule's first right-hand symbol is `target`,
/// scanning from `from` on.
pub open spec fn first_rhs0_match(rules: Seq<RuleRecord>, target: u32, from: int) -> Option<int>
    decreases rules.len() - from,
{
    if from < 0 || from >= rules.len() {
        None
    } else if rules[from].rhs0 == target {
        Some(from)
    } else {
        first_rhs0_match(rules, target, from + 1)
    }
}

/// A position that matches with nothing matching before it is the first
/// match.
proof fn lemma_first_rhs0_match_at(rules: Seq<RuleRecord>, target: u32, from: int, i: int)
    requires
        0 <= from <= i < rules.len(),
        rules[i].rhs0 == target,
        forall|j: int| from <= j < i ==> (#[trigger] rules[j]).rhs0 != target,
    ensures
        first_rhs0_match(rules, target, from) == Some(i),
    decreases i - from,
{
    if from < i {
        lemma_first_rhs0_match_at(rules, target, from + 1, i);
    }
}

/// With no match anywhere past `from`, there is no first match.
proof fn lemma_first_rhs0_match_none(rules: Seq<RuleRecord>, target: u32, from: int)
    requires
        0 <= from,
        forall|j: int| from <= j < rules.len() ==> (#[trigger] rules[j]).rhs0 != target,
    ensures
        first_rhs0_match(rules, target, from) is None,
    decreases rules.len() - from,
{
    if from < rules.len() {
        lemma_first_rhs0_match_none(rules, target, from + 1);
    }
}

/// Finds the first rule whose first right-hand symbol is `target`, by a
/// leftmost binary search over rules sorted by that key.
pub fn find_rule_by_rhs0(rules: &Vec<RuleRecord>, target: u32) -> (r: Option<usize>)
    requires
        sorted_by_key(rules@, false),
    ensures
        match r {
            Some(i) => first_rhs0_match(rules@, target, 0) == Some(i as int) && i < rules@.len()
                && rules@[i as int].rhs0 == target,
            None => first_rhs0_match(rules@, target, 0) is None && forall|i: int|
                0 <= i < rules@.len() ==> (#[trigger] rules@[i]).rhs0 != target,
        },
{
    let mut lo: usize = 0;
    let mut hi: usize = rules.len();
    while lo < hi
        invariant
            0 <= lo <= hi <= rules@.len(),
            sorted_by_key(rules@, false),
            forall|i: int| 0 <= i < lo ==> (#[trigger] rules@[i]).rhs0 < target,
            forall|i: int| hi <= i < rules@.len() ==> (#[trigger] rules@[i]).rhs0 >= target,
        decreases hi - lo,
    {
        let mid = lo + (hi - lo) / 2;
        let key = rules[mid].rhs0;
        if key < target {
            proof {
                assert forall|i: int| 0 <= i < mid + 1 implies (#[trigger] rules@[i]).rhs0
                    < target by {
                    assert(rule_key_spec(rules@[i], false) <= rule_key_spec(
                        rules@[mid as int],
                        false,
                    ));
                }
            }
            lo = mid + 1;
        } else {
            proof {
                assert forall|i: int| mid <= i < rules@.len() implies (#[trigger] rules@[i]).rhs0
                    >= target by {
                    assert(rule_key_spec(rules@[mid as int], false) <= rule_key_spec(
                        rules@[i],
                        false,
                    ));
                }
            }
            hi = mid;
        }
    }
    if lo < rules.len() && rules[lo].rhs0 == target {
        proof {
            lemma_first_rhs0_match_at(rules@, target, 0, lo as int);
        }
        Some(lo)
    } else {
        proof {
            assert forall|i: int| 0 <= i < rules@.len() implies (#[trigger] rules@[i]).rhs0
                != target by {
                if i < lo {
                } else {
                    assert(rules@[i].rhs0 >= target);
                    if rules@[i].rhs0 == target {
                        assert(rule_key_spec(rules@[lo as int], false) <= rule_key_spec(
                            rules@[i],
                            false,
                        ));
                        assert(rules@[lo as int].rhs0 >= target);
                        assert(rules@[lo as int].rhs0 <= target);
                        assert(false);
                    }
                }
            }
            lemma_first_rhs0_match_none(rules@, target, 0);
        }
        None
    }
}

/// There is a left-hand-side chain of at most `fuel` steps from `from` to
/// `to`: each step moves from a symbol to the left-hand side of some rule
/// whose first right-hand symbol is that symbol.
pub open spec fn chain_reaches(rules: Seq<RuleRecord>, from: u32, to: u32, fuel: nat) -> bool
    decreases fuel,
{
    if from == to {
        true
    } else if fuel == 0 {
        false
    } else {
        exists|i: int|
            0 <= i < rules.len() && (#[trigger] rules[i]).rhs_len >= 1 && rules[i].rhs0
                == from && chain_reaches(rules, rules[i].lhs, to, (fuel - 1) as nat)
    }
}

/// More fuel never breaks a chain.
proof fn lemma_chain_fuel_monotone(rules: Seq<RuleRecord>, from: u32, to: u32, f: nat, g: nat)
    requires
        chain_reaches(rules, from, to, f),
        f <= g,
    ensures
        chain_reaches(rules, from, to, g),
    decreases f,
{
    if from == to {
    } else {
        let i = choose|i: int|
            0 <= i < rules.len() && (#[trigger] rules[i]).rhs_len >= 1 && rules[i].rhs0
                == from && chain_reaches(rules, rules[i].lhs, to, (f - 1) as nat);
        lemma_chain_fuel_monotone(rules, rules[i].lhs, to, (f - 1) as nat, (g - 1) as nat);
    }
}

/// A chain extends by one step at its end.
proof fn lemma_chain_extend(rules: Seq<RuleRecord>, from: u32, mid: u32, fuel: nat, i: int)
    requires
        chain_reaches(rules, from, mid, fuel),
        0 <= i < rules.len(),
        rules[i].rhs_len >= 1,
        rules[i].rhs0 == mid,
    ensures
        chain_reaches(rules, from, rules[i].lhs, fuel + 1),
    decreases fuel,
{
    if from == mid {
        if from == rules[i].lhs {
        } else {
            assert(chain_reaches(rules, rules[i].lhs, rules[i].lhs, fuel));
        }
    } else {
        let j = choose|j: int|
            0 <= j < rules.len() && (#[trigger] rules[j]).rhs_len >= 1 && rules[j].rhs0
                == from && chain_reaches(rules, rules[j].lhs, mid, (fuel - 1) as nat);
        lemma_chain_extend(rules, rules[j].lhs, mid, (fuel - 1) as nat, i);
    }
}

/// What walking the gensym chain yields: starting from `start`, each step
/// moves to the left-hand side of the first rule headed by the current
/// symbol, until a symbol below `num_syms` is reached; `None` when a
/// lookup fails or the fuel runs out first.
pub open spec fn walk_lhs(rules: Seq<RuleRecord>, start: u32, num_syms: int, fuel: nat) -> Option<
    u32,
>
    decreases fuel,
{
    if start < num_syms {
        Some(start)
    } else if fuel == 0 {
        None
    } else {
        match first_rhs0_match(rules, start, 0) {
            Some(i) => walk_lhs(rules, rules[i].lhs, num_syms, (fuel - 1) as nat),
            None => None,
        }
    }
}

/// Walks a symbol up through the gensym chain until a non-gensym symbol
/// is reached: a gensym's real left-hand side is the left-hand side of
/// the rule it heads. Succeeds exactly when the walk does.
pub fn effective_lhs(
    rules_by_rhs0: &Vec<RuleRecord>,
    start: u32,
    num_syms: usize,
    bound: usize,
) -> (r: Result<u32, GrammarError>)
    requires
        sorted_by_key(rules_by_rhs0@, false),
        forall|i: int|
            0 <= i < rules_by_rhs0@.len() ==> (#[trigger] rules_by_rhs0@[i]).rhs_len >= 1,
    ensures
        r matches Ok(l) ==> l < num_syms && chain_reaches(
            rules_by_rhs0@,
            start,
            l,
            bound as nat,
        ) && walk_lhs(rules_by_rhs0@, start, num_syms as int, bound as nat) == Some(l),
        r is Err <==> walk_lhs(rules_by_rhs0@, start, num_syms as int, bound as nat) is None,
        r matches Err(e) ==> e == GrammarError::GensymLookupFailed,
{
    let mut cur = start;
    let mut steps: usize = 0;
    while (cur as usize) >= num_syms && steps < bound
        invariant
            sorted_by_key(rules_by_rhs0@, false),
            forall|i: int|
                0 <= i < rules_by_rhs0@.len() ==> (#[trigger] rules_by_rhs0@[i]).rhs_len >= 1,
            steps <= bound,
            chain_reaches(rules_by_rhs0@, start, cur, steps as nat),
            walk_lhs(rules_by_rhs0@, start, num_syms as int, bound as nat) == walk_lhs(
                rules_by_rhs0@,
                cur,
                num_syms as int,
                (bound - steps) as nat,
            ),
        decreases bound - steps,
    {
        match find_rule_by_rhs0(rules_by_rhs0, cur) {
            Some(i) => {
                proof {
                    lemma_chain_extend(rules_by_rhs0@, start, cur, steps as nat, i as int);
                }
                cur = rules_by_rhs0[i].lhs;
            },
            None => {
                proof {
                    assert(walk_lhs(
                        rules_by_rhs0@,
                        cur,
                        num_syms as int,
                        (bound - steps) as nat,
                    ) is None);
                }
                return Err(GrammarError::GensymLookupFailed);
            },
        }
        steps += 1;
    }
    if (cur as usize) >= num_syms {
        proof {
            assert(walk_lhs(rules_by_rhs0@, cur, num_syms as int, 0) is None);
        }
        Err(GrammarError::GensymLookupFailed)
    } else {
        proof {
            lemma_chain_fuel_monotone(rules_by_rhs0@, start, cur, steps as nat, bound as nat);
        }
        Ok(cur)
    }
}

/// The rule makes `s` the left-hand side of a binary rule with a distinct
/// head symbol.
pub open spec fn occ_lhs_hit(r: RuleRecord, s: u32) -> bool {
    r.rhs_len == 2 && r.lhs != r.rhs0 && r.lhs == s
}

/// The rule makes `s` the head of a binary rule with a distinct left-hand
/// side.
pub open spec fn occ_head_hit(r: RuleRecord, s: u32) -> bool {
    r.rhs_len == 2 && r.lhs != r.rhs0 && r.rhs0 == s
}

/// The rule uses `s` past the head of its right-hand side.
pub open spec fn occ_tail_hit(r: RuleRecord, s: u32) -> bool {
    r.rhs_len >= 2 && r.rhs1 == s
}

/// One of the three occurrence patterns, chosen by `kind`: left-hand side
/// use, head use, or tail use.
pub open spec fn occ_hit(r: RuleRecord, s: u32, kind: int) -> bool {
    if kind == 0 {
        occ_lhs_hit(r, s)
    } else if kind == 1 {
        occ_head_hit(r, s)
    } else {
        occ_tail_hit(r, s)
    }
}

/// How many rules of the sequence show the chosen occurrence of `s`.
pub open spec fn count_occ(rs: Seq<RuleRecord>, s: u32, kind: int) -> int
    decreases rs.len(),
{
    if rs.len() == 0 {
        0
    } else {
        count_occ(rs.drop_last(), s, kind) + if occ_hit(rs.last(), s, kind) {
            1int
        } else {
            0int
        }
    }
}

/// Counting one more rule adds one exactly when that rule shows the
/// occurrence.
proof fn lemma_count_occ_take_succ(rs: Seq<RuleRecord>, s: u32, kind: int, k: int)
    requires
        0 <= k < rs.len(),
    ensures
        count_occ(rs.take(k + 1), s, kind) == count_occ(rs.take(k), s, kind) + if occ_hit(
            rs[k],
            s,
            kind,
        ) {
            1int
        } else {
            0int
        },
{
    assert(rs.take(k + 1).drop_last() =~= rs.take(k));
    assert(rs.take(k + 1).last() == rs[k]);
}

/// A gensym: a symbol whose occurrence pattern is exactly one binary
/// left-hand side, one binary head, no tail use, on a rule without an
/// external origin.
pub open spec fn is_gensym(rs: Seq<RuleRecord>, s: u32) -> bool {
    &&& count_occ(rs, s, 0) == 1
    &&& count_occ(rs, s, 1) == 1
    &&& count_occ(rs, s, 2) == 0
    &&& exists|i: int|
        0 <= i < rs.len() && (#[trigger] rs[i]).lhs == s && rs[i].origin_id == u32::MAX
            && occ_lhs_hit(rs[i], s)
}

/// Finds the gensyms among the internal symbols: the synthesized
/// nonterminals that binarization introduced.
pub fn find_gensyms(rules: &Vec<RuleRecord>, nsyms: usize) -> (r: Vec<bool>)
    requires
        rules_ok(rules@, nsyms as int),
        nsyms <= u32::MAX,
    ensures
        r@.len() == nsyms,
        forall|s: int| 0 <= s < nsyms ==> (r@[s] <==> is_gensym(rules@, s as u32)),
{
    let mut occ_l: Vec<usize> = Vec::new();
    let mut occ_h: Vec<usize> = Vec::new();
    let mut occ_t: Vec<usize> = Vec::new();
    let mut s: usize = 0;
    while s < nsyms
        invariant
            occ_l@.len() == s && occ_h@.len() == s && occ_t@.len() == s,
            s <= nsyms,
            forall|m: int| 0 <= m < s ==> occ_l@[m] == 0,
            forall|m: int| 0 <= m < s ==> occ_h@[m] == 0,
            forall|m: int| 0 <= m < s ==> occ_t@[m] == 0,
        decreases nsyms - s,
    {
        occ_l.push(0);
        occ_h.push(0);
        occ_t.push(0);
        s += 1;
    }
    let mut i: usize = 0;
    while i < rules.len()
        invariant
            rules_ok(rules@, nsyms as int),
            nsyms <= u32::MAX,
            i <= rules@.len(),
            occ_l@.len() == nsyms && occ_h@.len() == nsyms && occ_t@.len() == nsyms,
            forall|m: int|
                0 <= m < nsyms ==> #[trigger] occ_l@[m] == count_occ(
                    rules@.take(i as int),
                    m as u32,
                    0,
                ),
            forall|m: int|
                0 <= m < nsyms ==> #[trigger] occ_h@[m] == count_occ(
                    rules@.take(i as int),
                    m as u32,
                    1,
                ),
            forall|m: int|
                0 <= m < nsyms ==> #[trigger] occ_t@[m] == count_occ(
                    rules@.take(i as int),
                    m as u32,
                    2,
                ),
            forall|m: int|
                0 <= m < nsyms ==> occ_l@[m] <= i && occ_h@[m] <= i && occ_t@[m] <= i,
        decreases rules@.len() - i,
    {
        let rule = &rules[i];
        if rule.rhs_len == 2 && rule.lhs != rule.rhs0 {
            let l = rule.lhs as usize;
            let h = rule.rhs0 as usize;
            let v = occ_l[l];
            occ_l[l] = v + 1;
            let w = occ_h[h];
            occ_h[h] = w + 1;
        }
        if rule.rhs_len >= 2 {
            let tl = rule.rhs1 as usize;
            let v = occ_t[tl];
            occ_t[tl] = v + 1;
        }
        proof {
            assert forall|m: int| 0 <= m < nsyms implies #[trigger] occ_l@[m] == count_occ(
                rules@.take(i + 1),
                m as u32,
                0,
            ) by {
                lemma_count_occ_take_succ(rules@, m as u32, 0, i as int);
            }
            assert forall|m: int| 0 <= m < nsyms implies #[trigger] occ_h@[m] == count_occ(
                rules@.take(i + 1),
                m as u32,
                1,
            ) by {
                lemma_count_occ_take_succ(rules@, m as u32, 1, i as int);
            }
            assert forall|m: int| 0 <= m < nsyms implies #[trigger] occ_t@[m] == count_occ(
                rules@.take(i + 1),
                m as u32,
                2,
            ) by {
                lemma_count_occ_take_succ(rules@, m as u32, 2, i as int);
            }
        }
        i += 1;
    }
    proof {
        assert(rules@.take(rules@.len() as int) =~= rules@);
    }
    let mut gensyms: Vec<bool> = Vec::new();
    let mut s: usize = 0;
    while s < nsyms
        invariant
            gensyms@.len() == s,
            s <= nsyms,
            forall|m: int| 0 <= m < s ==> !gensyms@[m],
        decreases nsyms - s,
    {
        gensyms.push(false);
        s += 1;
    }
    let mut i: usize = 0;
    while i < rules.len()
        invariant
            rules_ok(rules@, nsyms as int),
            nsyms <= u32::MAX,
            i <= rules@.len(),
            gensyms@.len() == nsyms,
            occ_l@.len() == nsyms && occ_h@.len() == nsyms && occ_t@.len() == nsyms,
            forall|m: int|
                0 <= m < nsyms ==> #[trigger] occ_l@[m] == count_occ(rules@, m as u32, 0),
            forall|m: int|
                0 <= m < nsyms ==> #[trigger] occ_h@[m] == count_occ(rules@, m as u32, 1),
            forall|m: int|
                0 <= m < nsyms ==> #[trigger] occ_t@[m] == count_occ(rules@, m as u32, 2),
            forall|m: int|
                0 <= m < nsyms ==> (#[trigger] gensyms@[m] <==> (occ_l@[m] == 1 && occ_h@[m] == 1
                    && occ_t@[m] == 0 && exists|j: int|
                    0 <= j < i && (#[trigger] rules@[j]).lhs == m && rules@[j].origin_id
                        == u32::MAX && occ_lhs_hit(rules@[j], m as u32))),
        decreases rules@.len() - i,
    {
        let rule = &rules[i];
        let l = rule.lhs as usize;
        let ghost pre = gensyms@;
        if rule.rhs_len == 2 && rule.lhs != rule.rhs0 && occ_l[l] == 1 && occ_h[l] == 1
            && occ_t[l] == 0 && rule.origin_id == 0xFFFF_FFFF {
            gensyms[l] = true;
        }
        proof {
            assert forall|m: int| 0 <= m < nsyms implies (#[trigger] gensyms@[m] <==> (occ_l@[m]
                == 1 && occ_h@[m] == 1 && occ_t@[m] == 0 && exists|j: int|
                0 <= j < i + 1 && (#[trigger] rules@[j]).lhs == m && rules@[j].origin_id
                    == u32::MAX && occ_lhs_hit(rules@[j], m as u32))) by {
                if gensyms@[m] {
                    if pre[m] {
                        let j = choose|j: int|
                            0 <= j < i && (#[trigger] rules@[j]).lhs == m && rules@[j].origin_id
                                == u32::MAX && occ_lhs_hit(rules@[j], m as u32);
                        assert(0 <= j < i + 1 && rules@[j].lhs == m && rules@[j].origin_id
                            == u32::MAX && occ_lhs_hit(rules@[j], m as u32));
                    } else {
                        assert(m == l);
                        assert(rules@[i as int].lhs == m && rules@[i as int].origin_id == u32::MAX
                            && occ_lhs_hit(rules@[i as int], m as u32));
                    }
                } else {
                    assert(!pre[m]);
                    if occ_l@[m] == 1 && occ_h@[m] == 1 && occ_t@[m] == 0 {
                        assert forall|j: int|
                            0 <= j < i + 1 implies !((#[trigger] rules@[j]).lhs == m
                            && rules@[j].origin_id == u32::MAX && occ_lhs_hit(
                            rules@[j],
                            m as u32,
                        )) by {
                            if j < i {
                            } else {
                                if rules@[j].lhs == m && rules@[j].origin_id == u32::MAX
                                    && occ_lhs_hit(rules@[j], m as u32) {
                                    assert(m == l);
                                    assert(gensyms@[l as int]);
                                    assert(false);
                                }
                            }
                        }
                    }
                }
            }
        }
        i += 1;
    }
    gensyms
}

/// Builds the symbol order relation for remapping: for every unary rule
/// over two distinct symbols the smaller-numbered one precedes the other,
/// every non-gensym precedes every gensym, and the relation is closed
/// transitively.
pub fn build_order_matrix(rules: &Vec<RuleRecord>, gensyms: &Vec<bool>, nsyms: usize) -> (rows:
    Vec<Vec<bool>>)
    requires
        rules_ok(rules@, nsyms as int),
        gensyms@.len() == nsyms,
        nsyms <= u32::MAX,
    ensures
        rows@.len() == nsyms,
        forall|l: int| 0 <= l < nsyms ==> (#[trigger] rows@[l])@.len() == nsyms,
        forall|a: int, b: int, c: int|
            0 <= a < nsyms && 0 <= b < nsyms && 0 <= c < nsyms && rows@[a]@[b] && rows@[b]@[c]
                ==> rows@[a]@[c],
        forall|d: int|
            0 <= d < rules@.len() && (#[trigger] rules@[d]).rhs_len == 1 && rules@[d].lhs
                < rules@[d].rhs0 ==> rows@[rules@[d].lhs as int]@[rules@[d].rhs0 as int],
        forall|d: int|
            0 <= d < rules@.len() && (#[trigger] rules@[d]).rhs_len == 1 && rules@[d].rhs0
                < rules@[d].lhs ==> rows@[rules@[d].rhs0 as int]@[rules@[d].lhs as int],
        forall|n: int, g: int|
            0 <= n < nsyms && 0 <= g < nsyms && !gensyms@[n] && gensyms@[g]
                ==> #[trigger] rows@[n]@[g],
{
    let mut m = crate::matrix_support::bm_new(nsyms, nsyms);
    let mut i: usize = 0;
    while i < rules.len()
        invariant
            rules_ok(rules@, nsyms as int),
            nsyms <= u32::MAX,
            i <= rules@.len(),
            crate::matrix_support::bm_dims(m) == (nsyms as int, nsyms as int),
            crate::matrix_support::bm_in_range(m),
            forall|d: int|
                0 <= d < i && (#[trigger] rules@[d]).rhs_len == 1 && rules@[d].lhs
                    < rules@[d].rhs0 ==> crate::matrix_support::bm_bits(m).contains(
                    (rules@[d].lhs as int, rules@[d].rhs0 as int),
                ),
            forall|d: int|
                0 <= d < i && (#[trigger] rules@[d]).rhs_len == 1 && rules@[d].rhs0
                    < rules@[d].lhs ==> crate::matrix_support::bm_bits(m).contains(
                    (rules@[d].rhs0 as int, rules@[d].lhs as int),
                ),
        decreases rules@.len() - i,
    {
        let rule = &rules[i];
        if rule.rhs_len == 1 {
            let left = rule.lhs as usize;
            let right = rule.rhs0 as usize;
            if left < right {
                crate::matrix_support::bm_set(&mut m, left, right, true);
            } else if right < left {
                crate::matrix_support::bm_set(&mut m, right, left, true);
            }
        }
        i += 1;
    }
    let mut n: usize = 0;
    while n < nsyms
        invariant
            gensyms@.len() == nsyms,
            nsyms <= u32::MAX,
            n <= nsyms,
            crate::matrix_support::bm_dims(m) == (nsyms as int, nsyms as int),
            crate::matrix_support::bm_in_range(m),
            forall|d: int|
                0 <= d < rules@.len() && (#[trigger] rules@[d]).rhs_len == 1 && rules@[d].lhs
                    < rules@[d].rhs0 ==> crate::matrix_support::bm_bits(m).contains(
                    (rules@[d].lhs as int, rules@[d].rhs0 as int),
                ),
            forall|d: int|
                0 <= d < rules@.len() && (#[trigger] rules@[d]).rhs_len == 1 && rules@[d].rhs0
                    < rules@[d].lhs ==> crate::matrix_support::bm_bits(m).contains(
                    (rules@[d].rhs0 as int, rules@[d].lhs as int),
                ),
            forall|a: int, g: int|
                0 <= a < n && 0 <= g < nsyms && !gensyms@[a] && gensyms@[g]
                    ==> crate::matrix_support::bm_bits(m).contains((a, g)),
            rules_ok(rules@, nsyms as int),
        decreases nsyms - n,
    {
        if !gensyms[n] {
            let mut g: usize = 0;
            while g < nsyms
                invariant
                    gensyms@.len() == nsyms,
                    n < nsyms,
                    g <= nsyms,
                    !gensyms@[n as int],
                    crate::matrix_support::bm_dims(m) == (nsyms as int, nsyms as int),
                    crate::matrix_support::bm_in_range(m),
                    forall|d: int|
                        0 <= d < rules@.len() && (#[trigger] rules@[d]).rhs_len == 1
                            && rules@[d].lhs < rules@[d].rhs0
                            ==> crate::matrix_support::bm_bits(m).contains(
                            (rules@[d].lhs as int, rules@[d].rhs0 as int),
                        ),
                    forall|d: int|
                        0 <= d < rules@.len() && (#[trigger] rules@[d]).rhs_len == 1
                            && rules@[d].rhs0 < rules@[d].lhs
                            ==> crate::matrix_support::bm_bits(m).contains(
                            (rules@[d].rhs0 as int, rules@[d].lhs as int),
                        ),
                    forall|a: int, b: int|
                        0 <= a < n && 0 <= b < nsyms && !gensyms@[a] && gensyms@[b]
                            ==> crate::matrix_support::bm_bits(m).contains((a, b)),
                    forall|b: int|
                        0 <= b < g && gensyms@[b] ==> crate::matrix_support::bm_bits(m).contains(
                            (n as int, b),
                        ),
                    rules_ok(rules@, nsyms as int),
                decreases nsyms - g,
            {
                if gensyms[g] {
                    crate::matrix_support::bm_set(&mut m, n, g, true);
                }
                g += 1;
            }
        }
        n += 1;
    }
    crate::matrix_support::bm_transitive_closure(&mut m);
    let ghost bits = crate::matrix_support::bm_bits(m);
    let mut rows: Vec<Vec<bool>> = Vec::new();
    let mut l: usize = 0;
    while l < nsyms
        invariant
            l <= nsyms,
            crate::matrix_support::bm_dims(m) == (nsyms as int, nsyms as int),
            bits == crate::matrix_support::bm_bits(m),
            rows@.len() == l,
            forall|a: int| 0 <= a < l ==> (#[trigger] rows@[a])@.len() == nsyms,
            forall|a: int, b: int|
                0 <= a < l && 0 <= b < nsyms ==> ((#[trigger] rows@[a]@[b]) <==> bits.contains(
                    (a, b),
                )),
        decreases nsyms - l,
    {
        let row = crate::matrix_support::bm_row(&m, l);
        rows.push(row);
        l += 1;
    }
    rows
}

/// No rule with a non-gensym head has a failing gensym-chain walk: the
/// condition under which the prediction matrix can be built.
pub open spec fn prediction_walks_ok(
    rules: Seq<RuleRecord>,
    rules_by_rhs0: Seq<RuleRecord>,
    num_syms: int,
    total_syms: int,
) -> bool {
    forall|d: int|
        0 <= d < rules.len() && (#[trigger] rules[d]).rhs0 < num_syms ==> walk_lhs(
            rules_by_rhs0,
            rules[d].lhs,
            num_syms,
            (total_syms + 1) as nat,
        ) is Some
}

/// What a built prediction matrix satisfies: square over the non-gensym
/// symbols, reflexive, transitively closed, and containing a bit from
/// each rule's effective left-hand side to its non-gensym head.
pub open spec fn prediction_matrix_ok(
    m: Seq<Vec<bool>>,
    rules: Seq<RuleRecord>,
    rules_by_rhs0: Seq<RuleRecord>,
    num_syms: int,
    total_syms: int,
) -> bool {
    &&& m.len() == num_syms
    &&& forall|a: int| 0 <= a < num_syms ==> (#[trigger] m[a])@.len() == num_syms
    &&& forall|a: int| 0 <= a < num_syms ==> #[trigger] m[a]@[a]
    &&& forall|a: int, b: int, c: int|
        0 <= a < num_syms && 0 <= b < num_syms && 0 <= c < num_syms && m[a]@[b] && m[b]@[c]
            ==> m[a]@[c]
    &&& forall|d: int|
        0 <= d < rules.len() && (#[trigger] rules[d]).rhs0 < num_syms ==> exists|el: u32|
            el < num_syms && chain_reaches(
                rules_by_rhs0,
                rules[d].lhs,
                el,
                (total_syms + 1) as nat,
            ) && #[trigger] m[el as int]@[rules[d].rhs0 as int]
}

/// Builds the prediction matrix: for every rule whose head symbol is a
/// non-gensym, the rule's effective left-hand side predicts that head;
/// the matrix is then closed transitively and reflexively. Fails exactly
/// when some such rule's gensym-chain walk fails.
#[verifier::rlimit(60)]
#[verifier::spinoff_prover]
pub fn build_prediction_matrix(
    rules: &Vec<RuleRecord>,
    rules_by_rhs0: &Vec<RuleRecord>,
    num_syms: usize,
    total_syms: usize,
) -> (res: Result<Vec<Vec<bool>>, GrammarError>)
    requires
        rules_ok(rules@, total_syms as int),
        sorted_by_key(rules_by_rhs0@, false),
        forall|i: int|
            0 <= i < rules_by_rhs0@.len() ==> (#[trigger] rules_by_rhs0@[i]).rhs_len >= 1,
        num_syms <= total_syms,
        total_syms < u32::MAX,
    ensures
        res is Ok <==> prediction_walks_ok(
            rules@,
            rules_by_rhs0@,
            num_syms as int,
            total_syms as int,
        ),
        res matches Err(e) ==> e == GrammarError::GensymLookupFailed,
        res matches Ok(m) ==> prediction_matrix_ok(
            m@,
            rules@,
            rules_by_rhs0@,
            num_syms as int,
            total_syms as int,
        ),
{
    let mut m = crate::matrix_support::bm_new(num_syms, num_syms);
    let mut i: usize = 0;
    while i < rules.len()
        invariant
            rules_ok(rules@, total_syms as int),
            sorted_by_key(rules_by_rhs0@, false),
            forall|k: int|
                0 <= k < rules_by_rhs0@.len() ==> (#[trigger] rules_by_rhs0@[k]).rhs_len >= 1,
            num_syms <= total_syms,
            total_syms < u32::MAX,
            i <= rules@.len(),
            crate::matrix_support::bm_dims(m) == (num_syms as int, num_syms as int),
            crate::matrix_support::bm_in_range(m),
            forall|d: int|
                0 <= d < i && (#[trigger] rules@[d]).rhs0 < num_syms ==> walk_lhs(
                    rules_by_rhs0@,
                    rules@[d].lhs,
                    num_syms as int,
                    (total_syms + 1) as nat,
                ) is Some,
            forall|d: int|
                0 <= d < i && (#[trigger] rules@[d]).rhs0 < num_syms ==> exists|el: u32|
                    el < num_syms && chain_reaches(
                        rules_by_rhs0@,
                        rules@[d].lhs,
                        el,
                        (total_syms + 1) as nat,
                    ) && #[trigger] crate::matrix_support::bm_bits(m).contains(
                        (el as int, rules@[d].rhs0 as int),
                    ),
        decreases rules@.len() - i,
    {
        let rule = &rules[i];
        let rhs0 = rule.rhs0;
        if (rhs0 as usize) < num_syms {
            let el = match effective_lhs(rules_by_rhs0, rule.lhs, num_syms, total_syms + 1) {
                Ok(el) => el,
                Err(e) => {
                    proof {
                        assert(!prediction_walks_ok(
                            rules@,
                            rules_by_rhs0@,
                            num_syms as int,
                            total_syms as int,
                        ));
                    }
                    return Err(e);
                },
            };
            let ghost pre_bits = crate::matrix_support::bm_bits(m);
            crate::matrix_support::bm_set(&mut m, el as usize, rhs0 as usize, true);
            proof {
                let bits_now = crate::matrix_support::bm_bits(m);
                assert forall|d: int|
                    0 <= d < i + 1 && (#[trigger] rules@[d]).rhs0 < num_syms implies exists|
                    w: u32,
                |
                    w < num_syms && chain_reaches(
                        rules_by_rhs0@,
                        rules@[d].lhs,
                        w,
                        (total_syms + 1) as nat,
                    ) && #[trigger] bits_now.contains((w as int, rules@[d].rhs0 as int)) by {
                    if d < i {
                        let w = choose|w: u32|
                            w < num_syms && chain_reaches(
                                rules_by_rhs0@,
                                rules@[d].lhs,
                                w,
                                (total_syms + 1) as nat,
                            ) && #[trigger] pre_bits.contains((w as int, rules@[d].rhs0 as int));
                        assert(bits_now.contains((w as int, rules@[d].rhs0 as int)));
                    } else {
                        assert(bits_now.contains((el as int, rules@[d].rhs0 as int)));
                    }
                }
            }
        }
        i += 1;
    }
    let ghost bits_after_fill = crate::matrix_support::bm_bits(m);
    crate::matrix_support::bm_transitive_closure(&mut m);
    proof {
        let bits_t = crate::matrix_support::bm_bits(m);
        assert(forall|a: int, b: int, c: int|
            bits_t.contains((a, b)) && bits_t.contains((b, c)) ==> bits_t.contains((a, c)));
    }
    let ghost bits_before_refl = crate::matrix_support::bm_bits(m);
    crate::matrix_support::bm_reflexive_closure(&mut m);
    proof {
        let bits = crate::matrix_support::bm_bits(m);
        assert forall|a: int, b: int, c: int|
            bits.contains((a, b)) && bits.contains((b, c)) implies bits.contains((a, c)) by {
            if a == b || b == c {
            } else {
                assert(bits_before_refl.contains((a, b)));
                assert(bits_before_refl.contains((b, c)));
            }
        }
    }
    let ghost bits = crate::matrix_support::bm_bits(m);
    let mut rows: Vec<Vec<bool>> = Vec::new();
    let mut l: usize = 0;
    while l < num_syms
        invariant
            l <= num_syms,
            crate::matrix_support::bm_dims(m) == (num_syms as int, num_syms as int),
            bits == crate::matrix_support::bm_bits(m),
            rows@.len() == l,
            forall|a: int| 0 <= a < l ==> (#[trigger] rows@[a])@.len() == num_syms,
            forall|a: int, b: int|
                0 <= a < l && 0 <= b < num_syms ==> ((#[trigger] rows@[a]@[b]) <==> bits.contains(
                    (a, b),
                )),
        decreases num_syms - l,
    {
        let row = crate::matrix_support::bm_row(&m, l);
        rows.push(row);
        l += 1;
    }
    proof {
        assert forall|d: int|
            0 <= d < rules@.len() && (#[trigger] rules@[d]).rhs0 < num_syms implies exists|
            w: u32,
        |
            w < num_syms && chain_reaches(
                rules_by_rhs0@,
                rules@[d].lhs,
                w,
                (total_syms + 1) as nat,
            ) && #[trigger] rows@[w as int]@[rules@[d].rhs0 as int] by {
            let w = choose|w: u32|
                w < num_syms && chain_reaches(
                    rules_by_rhs0@,
                    rules@[d].lhs,
                    w,
                    (total_syms + 1) as nat,
                ) && #[trigger] bits_after_fill.contains((w as int, rules@[d].rhs0 as int));
            assert(bits_before_refl.contains((w as int, rules@[d].rhs0 as int)));
            assert(bits.contains((w as int, rules@[d].rhs0 as int)));
            assert(rows@[w as int]@[rules@[d].rhs0 as int]);
        }
        assert(prediction_matrix_ok(
            rows@,
            rules@,
            rules_by_rhs0@,
            num_syms as int,
            total_syms as int,
        ));
    }
    Ok(rows)
}

/// A completion transition is sound for bucket `s`: it points at a real
/// rule whose head symbol is `s`, tells unary from binary correctly, and
/// names that rule's effective left-hand side, a non-gensym reached
/// through the gensym chain.
pub open spec fn transition_ok(
    rules: Seq<RuleRecord>,
    rules_by_rhs0: Seq<RuleRecord>,
    t: PredictionTransition,
    s: int,
    num_syms: int,
    total_syms: int,
) -> bool {
    &&& t.dot < rules.len()
    &&& rules[t.dot as int].rhs0 == s
    &&& (t.is_unary <==> rules[t.dot as int].rhs_len == 1)
    &&& t.symbol.0 < num_syms
    &&& chain_reaches(rules_by_rhs0, rules[t.dot as int].lhs, t.symbol.0, (total_syms + 1) as nat)
}

/// Every rule's gensym-chain walk succeeds: the first condition for the
/// completion tables to be built.
pub open spec fn completion_walks_ok(
    rules: Seq<RuleRecord>,
    rules_by_rhs0: Seq<RuleRecord>,
    num_syms: int,
    total_syms: int,
) -> bool {
    forall|d: int|
        0 <= d < rules.len() ==> walk_lhs(
            rules_by_rhs0,
            (#[trigger] rules[d]).lhs,
            num_syms,
            (total_syms + 1) as nat,
        ) is Some
}

/// Some rule is headed by the gensym with relative id `k`.
pub open spec fn gensym_has_head(rules: Seq<RuleRecord>, num_syms: int, k: int) -> bool {
    exists|d: int| 0 <= d < rules.len() && (#[trigger] rules[d]).rhs0 == num_syms + k
}

/// Every gensym heads some rule: the second condition for the completion
/// tables to be built.
pub open spec fn gensym_heads_ok(rules: Seq<RuleRecord>, num_syms: int, num_gensyms: int) -> bool {
    forall|k: int| 0 <= k < num_gensyms ==> #[trigger] gensym_has_head(rules, num_syms, k)
}

/// Some processed list entry files bucket symbol `g` into the gensym
/// table.
pub open spec fn gen_filed(
    bin: Seq<(u32, PredictionTransition)>,
    un: Seq<(u32, PredictionTransition)>,
    bdone: int,
    udone: int,
    g: int,
) -> bool {
    ||| exists|x: int| 0 <= x < bdone && (#[trigger] bin[x]).0 == g
    ||| exists|x: int| 0 <= x < udone && (#[trigger] un[x]).0 == g
}

/// Some processed list entry put a transition with dot `dot` into the
/// bucket of symbol `s`.
pub open spec fn bucket_filed(
    bin: Seq<(u32, PredictionTransition)>,
    un: Seq<(u32, PredictionTransition)>,
    bdone: int,
    udone: int,
    s: int,
    dot: u32,
) -> bool {
    ||| exists|x: int| 0 <= x < bdone && (#[trigger] bin[x]).0 == s && bin[x].1.dot == dot
    ||| exists|x: int| 0 <= x < udone && (#[trigger] un[x]).0 == s && un[x].1.dot == dot
}

/// Builds the completion tables: for every rule, a transition keyed by
/// the rule's head symbol, carrying the rule's effective left-hand side;
/// gensym heads get the flat per-gensym table. Within a bucket, all
/// binary-rule transitions come before all unary-rule transitions and no
/// rule appears twice. Fails exactly when some rule's gensym-chain walk
/// fails, or, all walks succeeding, when some gensym heads no rule.
#[verifier::rlimit(100)]
#[verifier::spinoff_prover]
pub fn compute_completion_table(
    rules: &Vec<RuleRecord>,
    rules_by_rhs0: &Vec<RuleRecord>,
    num_syms: usize,
    num_gensyms: usize,
    total_syms: usize,
) -> (res: Result<(Vec<Vec<PredictionTransition>>, Vec<PredictionTransition>), GrammarError>)
    requires
        rules_ok(rules@, total_syms as int),
        sorted_by_key(rules_by_rhs0@, false),
        forall|i: int|
            0 <= i < rules_by_rhs0@.len() ==> (#[trigger] rules_by_rhs0@[i]).rhs_len >= 1,
        num_syms + num_gensyms == total_syms,
        total_syms < u32::MAX,
        rules@.len() <= u32::MAX,
    ensures
        res is Ok <==> (completion_walks_ok(
            rules@,
            rules_by_rhs0@,
            num_syms as int,
            total_syms as int,
        ) && gensym_heads_ok(rules@, num_syms as int, num_gensyms as int)),
        res matches Err(e) ==> ((e == GrammarError::GensymLookupFailed && !completion_walks_ok(
            rules@,
            rules_by_rhs0@,
            num_syms as int,
            total_syms as int,
        )) || (e == GrammarError::MissingGenCompletion && completion_walks_ok(
            rules@,
            rules_by_rhs0@,
            num_syms as int,
            total_syms as int,
        ) && !gensym_heads_ok(rules@, num_syms as int, num_gensyms as int))),
        res matches Ok(r) ==> {
            &&& r.0@.len() == num_syms
            &&& r.1@.len() == num_gensyms
            &&& forall|s: int, k: int|
                0 <= s < num_syms && 0 <= k < r.0@[s]@.len() ==> transition_ok(
                    rules@,
                    rules_by_rhs0@,
                    #[trigger] r.0@[s]@[k],
                    s,
                    num_syms as int,
                    total_syms as int,
                )
            &&& forall|k: int|
                0 <= k < num_gensyms ==> transition_ok(
                    rules@,
                    rules_by_rhs0@,
                    #[trigger] r.1@[k],
                    num_syms + k,
                    num_syms as int,
                    total_syms as int,
                )
            &&& forall|s: int, a: int, b: int|
                0 <= s < num_syms && 0 <= a <= b < r.0@[s]@.len() && (#[trigger] r.0@[s]@[a]).is_unary
                    ==> (#[trigger] r.0@[s]@[b]).is_unary
            &&& forall|s: int, a: int, b: int|
                0 <= s < num_syms && 0 <= a < b < r.0@[s]@.len() ==> (#[trigger] r.0@[s]@[a]).dot
                    != (#[trigger] r.0@[s]@[b]).dot
            &&& forall|d: int|
                0 <= d < rules@.len() && (#[trigger] rules@[d]).rhs0 < num_syms ==> exists|k: int|
                    0 <= k < r.0@[rules@[d].rhs0 as int]@.len()
                        && (#[trigger] r.0@[rules@[d].rhs0 as int]@[k]).dot == d
        },
{
    let ghost rv = rules@;
    let ghost bv = rules_by_rhs0@;
    let mut binary_list: Vec<(u32, PredictionTransition)> = Vec::new();
    let mut unary_list: Vec<(u32, PredictionTransition)> = Vec::new();
    let mut i: usize = 0;
    while i < rules.len()
        invariant
            rules_ok(rv, total_syms as int),
            sorted_by_key(bv, false),
            forall|k: int| 0 <= k < bv.len() ==> (#[trigger] bv[k]).rhs_len >= 1,
            num_syms + num_gensyms == total_syms,
            total_syms < u32::MAX,
            rv.len() <= u32::MAX,
            rv == rules@,
            bv == rules_by_rhs0@,
            i <= rv.len(),
            forall|d: int|
                0 <= d < i ==> walk_lhs(
                    bv,
                    (#[trigger] rv[d]).lhs,
                    num_syms as int,
                    (total_syms + 1) as nat,
                ) is Some,
            forall|k: int|
                0 <= k < binary_list@.len() ==> transition_ok(
                    rv,
                    bv,
                    (#[trigger] binary_list@[k]).1,
                    binary_list@[k].0 as int,
                    num_syms as int,
                    total_syms as int,
                ) && !binary_list@[k].1.is_unary && binary_list@[k].0 < total_syms
                    && binary_list@[k].1.dot < i,
            forall|k: int|
                0 <= k < unary_list@.len() ==> transition_ok(
                    rv,
                    bv,
                    (#[trigger] unary_list@[k]).1,
                    unary_list@[k].0 as int,
                    num_syms as int,
                    total_syms as int,
                ) && unary_list@[k].1.is_unary && unary_list@[k].0 < total_syms
                    && unary_list@[k].1.dot < i,
            forall|k1: int, k2: int|
                0 <= k1 < k2 < binary_list@.len() ==> (#[trigger] binary_list@[k1]).1.dot < (
                #[trigger] binary_list@[k2]).1.dot,
            forall|k1: int, k2: int|
                0 <= k1 < k2 < unary_list@.len() ==> (#[trigger] unary_list@[k1]).1.dot < (
                #[trigger] unary_list@[k2]).1.dot,
            forall|d: int|
                0 <= d < i && (#[trigger] rv[d]).rhs_len == 1 ==> exists|k: int|
                    0 <= k < unary_list@.len() && (#[trigger] unary_list@[k]).1.dot == d
                        && unary_list@[k].0 == rv[d].rhs0,
            forall|d: int|
                0 <= d < i && (#[trigger] rv[d]).rhs_len == 2 ==> exists|k: int|
                    0 <= k < binary_list@.len() && (#[trigger] binary_list@[k]).1.dot == d
                        && binary_list@[k].0 == rv[d].rhs0,
        decreases rv.len() - i,
    {
        let rule = &rules[i];
        let is_unary = rule.rhs_len == 1;
        let el = match effective_lhs(rules_by_rhs0, rule.lhs, num_syms, total_syms + 1) {
            Ok(el) => el,
            Err(e) => {
                proof {
                    assert(walk_lhs(
                        bv,
                        rv[i as int].lhs,
                        num_syms as int,
                        (total_syms + 1) as nat,
                    ) is None);
                    assert(!completion_walks_ok(rv, bv, num_syms as int, total_syms as int));
                }
                return Err(e);
            },
        };
        let t = PredictionTransition { symbol: Symbol(el), dot: i as u32, is_unary };
        let rhs0 = rule.rhs0;
        let ghost pre_unary = unary_list@;
        let ghost pre_binary = binary_list@;
        if is_unary {
            unary_list.push((rhs0, t));
        } else {
            binary_list.push((rhs0, t));
        }
        proof {
            assert forall|d: int| 0 <= d < i + 1 && (#[trigger] rv[d]).rhs_len == 1 implies
                exists|k: int|
                    0 <= k < unary_list@.len() && (#[trigger] unary_list@[k]).1.dot == d
                        && unary_list@[k].0 == rv[d].rhs0 by {
                if d < i {
                    let k = choose|k: int|
                        0 <= k < pre_unary.len() && (#[trigger] pre_unary[k]).1.dot == d
                            && pre_unary[k].0 == rv[d].rhs0;
                    assert(unary_list@[k].1.dot == d && unary_list@[k].0 == rv[d].rhs0);
                } else {
                    let last = unary_list@.len() - 1;
                    assert(unary_list@[last].1.dot == d && unary_list@[last].0 == rv[d].rhs0);
                }
            }
            assert forall|d: int| 0 <= d < i + 1 && (#[trigger] rv[d]).rhs_len == 2 implies
                exists|k: int|
                    0 <= k < binary_list@.len() && (#[trigger] binary_list@[k]).1.dot == d
                        && binary_list@[k].0 == rv[d].rhs0 by {
                if d < i {
                    let k = choose|k: int|
                        0 <= k < pre_binary.len() && (#[trigger] pre_binary[k]).1.dot == d
                            && pre_binary[k].0 == rv[d].rhs0;
                    assert(binary_list@[k].1.dot == d && binary_list@[k].0 == rv[d].rhs0);
                } else {
                    let last = binary_list@.len() - 1;
                    assert(binary_list@[last].1.dot == d && binary_list@[last].0 == rv[d].rhs0);
                }
            }
        }
        i += 1;
    }
    let mut buckets: Vec<Vec<PredictionTransition>> = Vec::new();
    let mut s: usize = 0;
    while s < num_syms
        invariant
            buckets@.len() == s,
            s <= num_syms,
            forall|m: int| 0 <= m < s ==> (#[trigger] buckets@[m])@.len() == 0,
        decreases num_syms - s,
    {
        buckets.push(Vec::new());
        s += 1;
    }
    let mut gens: Vec<Option<PredictionTransition>> = Vec::new();
    let mut s: usize = 0;
    while s < num_gensyms
        invariant
            gens@.len() == s,
            s <= num_gensyms,
            forall|m: int| 0 <= m < s ==> (#[trigger] gens@[m]) is None,
        decreases num_gensyms - s,
    {
        gens.push(None);
        s += 1;
    }
    let mut phase: usize = 0;
    while phase < 2
        invariant
            rules_ok(rv, total_syms as int),
            num_syms + num_gensyms == total_syms,
            total_syms < u32::MAX,
            rv.len() <= u32::MAX,
            phase <= 2,
            buckets@.len() == num_syms,
            gens@.len() == num_gensyms,
            forall|k: int|
                0 <= k < binary_list@.len() ==> transition_ok(
                    rv,
                    bv,
                    (#[trigger] binary_list@[k]).1,
                    binary_list@[k].0 as int,
                    num_syms as int,
                    total_syms as int,
                ) && !binary_list@[k].1.is_unary && binary_list@[k].0 < total_syms,
            forall|k: int|
                0 <= k < unary_list@.len() ==> transition_ok(
                    rv,
                    bv,
                    (#[trigger] unary_list@[k]).1,
                    unary_list@[k].0 as int,
                    num_syms as int,
                    total_syms as int,
                ) && unary_list@[k].1.is_unary && unary_list@[k].0 < total_syms,
            forall|k1: int, k2: int|
                0 <= k1 < k2 < binary_list@.len() ==> (#[trigger] binary_list@[k1]).1.dot < (
                #[trigger] binary_list@[k2]).1.dot,
            forall|k1: int, k2: int|
                0 <= k1 < k2 < unary_list@.len() ==> (#[trigger] unary_list@[k1]).1.dot < (
                #[trigger] unary_list@[k2]).1.dot,
            forall|d: int|
                0 <= d < rv.len() && (#[trigger] rv[d]).rhs_len == 1 ==> exists|k: int|
                    0 <= k < unary_list@.len() && (#[trigger] unary_list@[k]).1.dot == d
                        && unary_list@[k].0 == rv[d].rhs0,
            forall|d: int|
                0 <= d < rv.len() && (#[trigger] rv[d]).rhs_len == 2 ==> exists|k: int|
                    0 <= k < binary_list@.len() && (#[trigger] binary_list@[k]).1.dot == d
                        && binary_list@[k].0 == rv[d].rhs0,
            forall|m: int, k: int|
                0 <= m < num_syms && 0 <= k < buckets@[m]@.len() ==> transition_ok(
                    rv,
                    bv,
                    #[trigger] buckets@[m]@[k],
                    m,
                    num_syms as int,
                    total_syms as int,
                ),
            forall|k: int|
                0 <= k < num_gensyms && (#[trigger] gens@[k]) is Some ==> transition_ok(
                    rv,
                    bv,
                    gens@[k]->Some_0,
                    num_syms + k,
                    num_syms as int,
                    total_syms as int,
                ),
            forall|k: int|
                0 <= k < num_gensyms ==> ((#[trigger] gens@[k]) is Some <==> gen_filed(
                    binary_list@,
                    unary_list@,
                    if phase >= 1 {
                        binary_list@.len() as int
                    } else {
                        0
                    },
                    if phase >= 2 {
                        unary_list@.len() as int
                    } else {
                        0
                    },
                    num_syms + k,
                )),
            forall|m: int, k: int|
                0 <= m < num_syms && 0 <= k < buckets@[m]@.len() ==> bucket_filed(
                    binary_list@,
                    unary_list@,
                    if phase >= 1 {
                        binary_list@.len() as int
                    } else {
                        0
                    },
                    if phase >= 2 {
                        unary_list@.len() as int
                    } else {
                        0
                    },
                    m,
                    (#[trigger] buckets@[m]@[k]).dot,
                ),
            forall|m: int, a: int, b: int|
                0 <= m < num_syms && 0 <= a < b < buckets@[m]@.len() ==> (#[trigger] buckets@[
                    m]@[a]).dot != (#[trigger] buckets@[m]@[b]).dot,
            forall|m: int, a: int, b: int|
                0 <= m < num_syms && 0 <= a <= b < buckets@[m]@.len()
                    && (#[trigger] buckets@[m]@[a]).is_unary
                    ==> (#[trigger] buckets@[m]@[b]).is_unary,
            phase == 0 ==> forall|m: int, k: int|
                0 <= m < num_syms && 0 <= k < buckets@[m]@.len()
                    ==> !(#[trigger] buckets@[m]@[k]).is_unary,
            phase >= 1 ==> forall|idx: int|
                0 <= idx < binary_list@.len() && (#[trigger] binary_list@[idx]).0 < num_syms
                    ==> exists|k: int|
                    0 <= k < buckets@[binary_list@[idx].0 as int]@.len()
                        && (#[trigger] buckets@[binary_list@[idx].0 as int]@[k]).dot
                        == binary_list@[idx].1.dot,
            phase >= 2 ==> forall|idx: int|
                0 <= idx < unary_list@.len() && (#[trigger] unary_list@[idx]).0 < num_syms
                    ==> exists|k: int|
                    0 <= k < buckets@[unary_list@[idx].0 as int]@.len()
                        && (#[trigger] buckets@[unary_list@[idx].0 as int]@[k]).dot
                        == unary_list@[idx].1.dot,
        decreases 2 - phase,
    {
        let list = if phase == 0 {
            &binary_list
        } else {
            &unary_list
        };
        let ghost lv = list@;
        let mut j: usize = 0;
        while j < list.len()
            invariant
                rules_ok(rv, total_syms as int),
                num_syms + num_gensyms == total_syms,
                total_syms < u32::MAX,
                rv.len() <= u32::MAX,
                phase < 2,
                lv == list@,
                lv == if phase == 0 {
                    binary_list@
                } else {
                    unary_list@
                },
                j <= lv.len(),
                buckets@.len() == num_syms,
                gens@.len() == num_gensyms,
                forall|k: int|
                    0 <= k < binary_list@.len() ==> transition_ok(
                        rv,
                        bv,
                        (#[trigger] binary_list@[k]).1,
                        binary_list@[k].0 as int,
                        num_syms as int,
                        total_syms as int,
                    ) && !binary_list@[k].1.is_unary && binary_list@[k].0 < total_syms,
                forall|k: int|
                    0 <= k < unary_list@.len() ==> transition_ok(
                        rv,
                        bv,
                        (#[trigger] unary_list@[k]).1,
                        unary_list@[k].0 as int,
                        num_syms as int,
                        total_syms as int,
                    ) && unary_list@[k].1.is_unary && unary_list@[k].0 < total_syms,
                forall|k1: int, k2: int|
                    0 <= k1 < k2 < binary_list@.len() ==> (#[trigger] binary_list@[k1]).1.dot < (
                    #[trigger] binary_list@[k2]).1.dot,
                forall|k1: int, k2: int|
                    0 <= k1 < k2 < unary_list@.len() ==> (#[trigger] unary_list@[k1]).1.dot < (
                    #[trigger] unary_list@[k2]).1.dot,
                forall|m: int, k: int|
                    0 <= m < num_syms && 0 <= k < buckets@[m]@.len() ==> transition_ok(
                        rv,
                        bv,
                        #[trigger] buckets@[m]@[k],
                        m,
                        num_syms as int,
                        total_syms as int,
                    ),
                forall|k: int|
                    0 <= k < num_gensyms && (#[trigger] gens@[k]) is Some ==> transition_ok(
                        rv,
                        bv,
                        gens@[k]->Some_0,
                        num_syms + k,
                        num_syms as int,
                        total_syms as int,
                    ),
                forall|k: int|
                    0 <= k < num_gensyms ==> ((#[trigger] gens@[k]) is Some <==> gen_filed(
                        binary_list@,
                        unary_list@,
                        if phase == 0 {
                            j as int
                        } else {
                            binary_list@.len() as int
                        },
                        if phase == 1 {
                            j as int
                        } else {
                            0
                        },
                        num_syms + k,
                    )),
                forall|m: int, k: int|
                    0 <= m < num_syms && 0 <= k < buckets@[m]@.len() ==> bucket_filed(
                        binary_list@,
                        unary_list@,
                        if phase == 0 {
                            j as int
                        } else {
                            binary_list@.len() as int
                        },
                        if phase == 1 {
                            j as int
                        } else {
                            0
                        },
                        m,
                        (#[trigger] buckets@[m]@[k]).dot,
                    ),
                forall|m: int, a: int, b: int|
                    0 <= m < num_syms && 0 <= a < b < buckets@[m]@.len() ==> (#[trigger] buckets@[
                        m]@[a]).dot != (#[trigger] buckets@[m]@[b]).dot,
                forall|m: int, a: int, b: int|
                    0 <= m < num_syms && 0 <= a <= b < buckets@[m]@.len()
                        && (#[trigger] buckets@[m]@[a]).is_unary
                        ==> (#[trigger] buckets@[m]@[b]).is_unary,
                phase == 0 ==> forall|m: int, k: int|
                    0 <= m < num_syms && 0 <= k < buckets@[m]@.len()
                        ==> !(#[trigger] buckets@[m]@[k]).is_unary,
                forall|idx: int|
                    0 <= idx < j && (#[trigger] lv[idx]).0 < num_syms ==> exists|k: int|
                        0 <= k < buckets@[lv[idx].0 as int]@.len()
                            && (#[trigger] buckets@[lv[idx].0 as int]@[k]).dot == lv[idx].1.dot,
                phase == 1 ==> forall|idx: int|
                    0 <= idx < binary_list@.len() && (#[trigger] binary_list@[idx]).0 < num_syms
                        ==> exists|k: int|
                        0 <= k < buckets@[binary_list@[idx].0 as int]@.len()
                            && (#[trigger] buckets@[binary_list@[idx].0 as int]@[k]).dot
                            == binary_list@[idx].1.dot,
            decreases lv.len() - j,
        {
            let (rhs0, t) = list[j];
            let ghost pre_buckets = buckets@;
            let ghost pre_gens = gens@;
            let ghost bdone_old: int = if phase == 0 { j as int } else { binary_list@.len() as int };
            let ghost udone_old: int = if phase == 1 { j as int } else { 0 };
            let ghost bdone_new: int = if phase == 0 { j + 1 } else { binary_list@.len() as int };
            let ghost udone_new: int = if phase == 1 { j + 1 } else { 0 };
            if (rhs0 as usize) >= num_syms {
                gens[rhs0 as usize - num_syms] = Some(t);
            } else {
                let b = &mut buckets[rhs0 as usize];
                b.push(t);
            }
            proof {
                assert forall|k: int| 0 <= k < num_gensyms implies ((#[trigger] gens@[k]) is Some
                    <==> gen_filed(binary_list@, unary_list@, bdone_new, udone_new, num_syms
                    + k)) by {
                    if (rhs0 as int) >= num_syms && k == rhs0 - num_syms {
                        assert(lv[j as int].0 == rhs0);
                        assert(gen_filed(binary_list@, unary_list@, bdone_new, udone_new, num_syms + k));
                    } else {
                        assert(gens@[k] == pre_gens[k]);
                        if gens@[k] is Some {
                            assert(gen_filed(binary_list@, unary_list@, bdone_old, udone_old, num_syms + k));
                            assert(gen_filed(binary_list@, unary_list@, bdone_new, udone_new, num_syms + k));
                        } else {
                            if gen_filed(binary_list@, unary_list@, bdone_new, udone_new, num_syms + k) {
                                if exists|x: int|
                                    0 <= x < bdone_new && (#[trigger] binary_list@[x]).0 == num_syms + k {
                                    let x = choose|x: int|
                                        0 <= x < bdone_new && (#[trigger] binary_list@[x]).0 == num_syms + k;
                                    if x < bdone_old {
                                        assert(gen_filed(binary_list@, unary_list@, bdone_old, udone_old, num_syms + k));
                                    } else {
                                        assert(phase == 0 && x == j);
                                        assert(lv[x].0 == rhs0);
                                        assert(false);
                                    }
                                } else {
                                    let x = choose|x: int|
                                        0 <= x < udone_new && (#[trigger] unary_list@[x]).0 == num_syms + k;
                                    if x < udone_old {
                                        assert(gen_filed(binary_list@, unary_list@, bdone_old, udone_old, num_syms + k));
                                    } else {
                                        assert(phase == 1 && x == j);
                                        assert(lv[x].0 == rhs0);
                                        assert(false);
                                    }
                                }
                                assert(false);
                            }
                        }
                    }
                }
                assert forall|m: int, k: int|
                    0 <= m < num_syms && 0 <= k < buckets@[m]@.len() implies bucket_filed(
                    binary_list@,
                    unary_list@,
                    bdone_new,
                    udone_new,
                    m,
                    (#[trigger] buckets@[m]@[k]).dot,
                ) by {
                    if (rhs0 as usize) < num_syms && m == rhs0 as int && k == buckets@[m]@.len()
                        - 1 {
                        assert(lv[j as int].0 == rhs0 && lv[j as int].1 == t);
                        assert(bucket_filed(binary_list@, unary_list@, bdone_new, udone_new, m, t.dot));
                    } else {
                        assert(buckets@[m]@[k] == pre_buckets[m]@[k]);
                        assert(bucket_filed(binary_list@, unary_list@, bdone_old, udone_old, m, buckets@[m]@[k].dot));
                        if exists|x: int|
                            0 <= x < bdone_old && (#[trigger] binary_list@[x]).0 == m
                                && binary_list@[x].1.dot == buckets@[m]@[k].dot {
                            let x = choose|x: int|
                                0 <= x < bdone_old && (#[trigger] binary_list@[x]).0 == m
                                    && binary_list@[x].1.dot == buckets@[m]@[k].dot;
                            assert(bucket_filed(binary_list@, unary_list@, bdone_new, udone_new, m, buckets@[m]@[k].dot));
                        } else {
                            let x = choose|x: int|
                                0 <= x < udone_old && (#[trigger] unary_list@[x]).0 == m
                                    && unary_list@[x].1.dot == buckets@[m]@[k].dot;
                            assert(bucket_filed(binary_list@, unary_list@, bdone_new, udone_new, m, buckets@[m]@[k].dot));
                        }
                    }
                }
                assert forall|m: int, a: int, b: int|
                    0 <= m < num_syms && 0 <= a < b < buckets@[m]@.len() implies (
                #[trigger] buckets@[m]@[a]).dot != (#[trigger] buckets@[m]@[b]).dot by {
                    if (rhs0 as usize) < num_syms && m == rhs0 as int && b == buckets@[m]@.len()
                        - 1 {
                        assert(buckets@[m]@[a] == pre_buckets[m]@[a]);
                        assert(buckets@[m]@[b] == t);
                        assert(bucket_filed(binary_list@, unary_list@, bdone_old, udone_old, m, pre_buckets[m]@[a].dot));
                        if exists|x: int|
                            0 <= x < bdone_old && (#[trigger] binary_list@[x]).0 == m
                                && binary_list@[x].1.dot == pre_buckets[m]@[a].dot {
                            let x = choose|x: int|
                                0 <= x < bdone_old && (#[trigger] binary_list@[x]).0 == m
                                    && binary_list@[x].1.dot == pre_buckets[m]@[a].dot;
                            if phase == 0 {
                                assert(binary_list@[x].1.dot < binary_list@[j as int].1.dot);
                            } else {
                                assert(!binary_list@[x].1.is_unary);
                                assert(rv[binary_list@[x].1.dot as int].rhs_len == 2);
                                assert(t.is_unary);
                                assert(rv[t.dot as int].rhs_len == 1);
                                if binary_list@[x].1.dot == t.dot {
                                    assert(false);
                                }
                            }
                        } else {
                            let x = choose|x: int|
                                0 <= x < udone_old && (#[trigger] unary_list@[x]).0 == m
                                    && unary_list@[x].1.dot == pre_buckets[m]@[a].dot;
                            assert(phase == 1);
                            assert(unary_list@[x].1.dot < unary_list@[j as int].1.dot);
                        }
                    } else {
                        assert(buckets@[m]@[a] == pre_buckets[m]@[a]);
                        assert(buckets@[m]@[b] == pre_buckets[m]@[b]);
                    }
                }
                assert forall|idx: int|
                    0 <= idx < j + 1 && (#[trigger] lv[idx]).0 < num_syms implies exists|k: int|
                    0 <= k < buckets@[lv[idx].0 as int]@.len()
                        && (#[trigger] buckets@[lv[idx].0 as int]@[k]).dot == lv[idx].1.dot by {
                    if idx < j && lv[idx].0 < num_syms {
                        let k = choose|k: int|
                            0 <= k < pre_buckets[lv[idx].0 as int]@.len() && (
                            #[trigger] pre_buckets[lv[idx].0 as int]@[k]).dot == lv[idx].1.dot;
                        assert(buckets@[lv[idx].0 as int]@[k].dot == lv[idx].1.dot);
                    } else if idx == j && lv[idx].0 < num_syms {
                        let last = buckets@[lv[idx].0 as int]@.len() - 1;
                        assert(buckets@[lv[idx].0 as int]@[last].dot == lv[idx].1.dot);
                    }
                }
                if phase == 1 {
                    assert forall|idx: int|
                        0 <= idx < binary_list@.len() && (#[trigger] binary_list@[idx]).0
                            < num_syms implies exists|k: int|
                        0 <= k < buckets@[binary_list@[idx].0 as int]@.len()
                            && (#[trigger] buckets@[binary_list@[idx].0 as int]@[k]).dot
                            == binary_list@[idx].1.dot by {
                        let k = choose|k: int|
                            0 <= k < pre_buckets[binary_list@[idx].0 as int]@.len() && (
                            #[trigger] pre_buckets[binary_list@[idx].0 as int]@[k]).dot
                                == binary_list@[idx].1.dot;
                        assert(buckets@[binary_list@[idx].0 as int]@[k].dot == binary_list@[idx].1.dot);
                    }
                }
            }
            j += 1;
        }
        phase += 1;
    }
    let mut out_gens: Vec<PredictionTransition> = Vec::new();
    let mut k: usize = 0;
    while k < gens.len()
        invariant
            rules_ok(rv, total_syms as int),
            num_syms + num_gensyms == total_syms,
            rv == rules@,
            bv == rules_by_rhs0@,
            completion_walks_ok(rv, bv, num_syms as int, total_syms as int),
            gens@.len() == num_gensyms,
            k <= num_gensyms,
            out_gens@.len() == k,
            forall|m: int|
                0 <= m < num_gensyms && (#[trigger] gens@[m]) is Some ==> transition_ok(
                    rv,
                    bv,
                    gens@[m]->Some_0,
                    num_syms + m,
                    num_syms as int,
                    total_syms as int,
                ),
            forall|m: int|
                0 <= m < num_gensyms ==> ((#[trigger] gens@[m]) is Some <==> gen_filed(
                    binary_list@,
                    unary_list@,
                    binary_list@.len() as int,
                    unary_list@.len() as int,
                    num_syms + m,
                )),
            forall|k1: int|
                0 <= k1 < binary_list@.len() ==> ((#[trigger] binary_list@[k1]).1.dot < rv.len()
                    && rv[binary_list@[k1].1.dot as int].rhs0 == binary_list@[k1].0),
            forall|k1: int|
                0 <= k1 < unary_list@.len() ==> ((#[trigger] unary_list@[k1]).1.dot < rv.len()
                    && rv[unary_list@[k1].1.dot as int].rhs0 == unary_list@[k1].0),
            forall|d: int|
                0 <= d < rv.len() && (#[trigger] rv[d]).rhs_len == 1 ==> exists|x: int|
                    0 <= x < unary_list@.len() && (#[trigger] unary_list@[x]).1.dot == d
                        && unary_list@[x].0 == rv[d].rhs0,
            forall|d: int|
                0 <= d < rv.len() && (#[trigger] rv[d]).rhs_len == 2 ==> exists|x: int|
                    0 <= x < binary_list@.len() && (#[trigger] binary_list@[x]).1.dot == d
                        && binary_list@[x].0 == rv[d].rhs0,
            forall|m: int|
                0 <= m < k ==> gens@[m] == Some(#[trigger] out_gens@[m]),
        decreases num_gensyms - k,
    {
        match gens[k] {
            Some(t) => {
                out_gens.push(t);
            },
            None => {
                proof {
                    assert(!gen_filed(
                        binary_list@,
                        unary_list@,
                        binary_list@.len() as int,
                        unary_list@.len() as int,
                        num_syms + k,
                    ));
                    assert forall|d: int| 0 <= d < rv.len() implies (#[trigger] rv[d]).rhs0
                        != num_syms + k by {
                        if rv[d].rhs0 == num_syms + k {
                            if rv[d].rhs_len == 1 {
                                let x = choose|x: int|
                                    0 <= x < unary_list@.len() && (#[trigger] unary_list@[x]).1.dot
                                        == d && unary_list@[x].0 == rv[d].rhs0;
                                assert(gen_filed(
                                    binary_list@,
                                    unary_list@,
                                    binary_list@.len() as int,
                                    unary_list@.len() as int,
                                    num_syms + k,
                                ));
                            } else {
                                let x = choose|x: int|
                                    0 <= x < binary_list@.len() && (
                                    #[trigger] binary_list@[x]).1.dot == d && binary_list@[x].0
                                        == rv[d].rhs0;
                                assert(gen_filed(
                                    binary_list@,
                                    unary_list@,
                                    binary_list@.len() as int,
                                    unary_list@.len() as int,
                                    num_syms + k,
                                ));
                            }
                            assert(false);
                        }
                    }
                    assert(!gensym_has_head(rv, num_syms as int, k as int));
                    assert(!gensym_heads_ok(rv, num_syms as int, num_gensyms as int));
                }
                return Err(GrammarError::MissingGenCompletion);
            },
        }
        k += 1;
    }
    proof {
        assert forall|kk: int| 0 <= kk < num_gensyms implies #[trigger] gensym_has_head(
            rv,
            num_syms as int,
            kk,
        ) by {
            assert(gens@[kk] == Some(out_gens@[kk]));
            assert(gen_filed(
                binary_list@,
                unary_list@,
                binary_list@.len() as int,
                unary_list@.len() as int,
                num_syms + kk,
            ));
            if exists|x: int|
                0 <= x < binary_list@.len() && (#[trigger] binary_list@[x]).0 == num_syms + kk {
                let x = choose|x: int|
                    0 <= x < binary_list@.len() && (#[trigger] binary_list@[x]).0 == num_syms + kk;
                assert(rv[binary_list@[x].1.dot as int].rhs0 == num_syms + kk);
            } else {
                let x = choose|x: int|
                    0 <= x < unary_list@.len() && (#[trigger] unary_list@[x]).0 == num_syms + kk;
                assert(rv[unary_list@[x].1.dot as int].rhs0 == num_syms + kk);
            }
        }
        assert(gensym_heads_ok(rv, num_syms as int, num_gensyms as int));
        assert forall|d: int|
            0 <= d < rv.len() && (#[trigger] rv[d]).rhs0 < num_syms implies exists|k2: int|
            0 <= k2 < buckets@[rv[d].rhs0 as int]@.len()
                && (#[trigger] buckets@[rv[d].rhs0 as int]@[k2]).dot == d by {
            if rv[d].rhs_len == 1 {
                let idx = choose|k2: int|
                    0 <= k2 < unary_list@.len() && (#[trigger] unary_list@[k2]).1.dot == d
                        && unary_list@[k2].0 == rv[d].rhs0;
                let k2 = choose|k2: int|
                    0 <= k2 < buckets@[unary_list@[idx].0 as int]@.len()
                        && (#[trigger] buckets@[unary_list@[idx].0 as int]@[k2]).dot
                        == unary_list@[idx].1.dot;
                assert(buckets@[rv[d].rhs0 as int]@[k2].dot == d);
            } else {
                let idx = choose|k2: int|
                    0 <= k2 < binary_list@.len() && (#[trigger] binary_list@[k2]).1.dot == d
                        && binary_list@[k2].0 == rv[d].rhs0;
                let k2 = choose|k2: int|
                    0 <= k2 < buckets@[binary_list@[idx].0 as int]@.len()
                        && (#[trigger] buckets@[binary_list@[idx].0 as int]@[k2]).dot
                        == binary_list@[idx].1.dot;
                assert(buckets@[rv[d].rhs0 as int]@[k2].dot == d);
            }
        }
    }
    Ok((buckets, out_gens))
}

/// Some entry among the first `upto` entries is for symbol `s` and lists
/// `j`.
pub open spec fn entry_has_upto(
    entries: Seq<crate::cfg_support::SetEntry>,
    upto: int,
    s: int,
    j: int,
) -> bool {
    exists|x: int|
        0 <= x < upto && (#[trigger] entries[x]).sym == s && entries[x].list@.contains(j as u32)
}

/// What bit `(a, j)` of the interleaved FIRST/FOLLOW table holds after
/// `fe` FIRST entries, `foe` FOLLOW entries and `refl` diagonal bits have
/// been processed: even rows of non-gensym symbols carry FIRST sets plus
/// the diagonal, odd rows carry FOLLOW sets, gensym rows stay empty.
pub open spec fn lr_bit_upto(
    first: Seq<crate::cfg_support::SetEntry>,
    follow: Seq<crate::cfg_support::SetEntry>,
    num_syms: int,
    a: int,
    j: int,
    fe: int,
    foe: int,
    refl: int,
) -> bool {
    let i = a / 2;
    &&& i < num_syms
    &&& if a % 2 == 0 {
        (i < refl && i == j) || entry_has_upto(first, fe, i, j)
    } else {
        entry_has_upto(follow, foe, i, j)
    }
}

/// The finished table bit: every entry processed, the diagonal complete.
pub open spec fn lr_bit(
    first: Seq<crate::cfg_support::SetEntry>,
    follow: Seq<crate::cfg_support::SetEntry>,
    num_syms: int,
    a: int,
    j: int,
) -> bool {
    lr_bit_upto(first, follow, num_syms, a, j, first.len() as int, follow.len() as int, num_syms)
}

/// Builds the interleaved FIRST/FOLLOW rows: row `2k` is the FIRST set of
/// non-gensym symbol `k`, closed reflexively; row `2k + 1` is its FOLLOW
/// set; rows of gensyms stay empty.
pub fn build_lr_sets(
    first: &Vec<crate::cfg_support::SetEntry>,
    follow: &Vec<crate::cfg_support::SetEntry>,
    num_syms: usize,
    total_syms: usize,
) -> (out: Vec<Vec<bool>>)
    requires
        num_syms <= total_syms,
        total_syms < u32::MAX,
        total_syms * 2 <= usize::MAX,
    ensures
        out@.len() == 2 * total_syms,
        forall|a: int| 0 <= a < out@.len() ==> (#[trigger] out@[a])@.len() == total_syms,
        forall|a: int, j: int|
            0 <= a < out@.len() && 0 <= j < total_syms ==> ((#[trigger] out@[a]@[j]) <==> lr_bit(
                first@,
                follow@,
                num_syms as int,
                a,
                j,
            )),
{
    let ghost fv = first@;
    let ghost wv = follow@;
    let mut out: Vec<Vec<bool>> = Vec::new();
    let mut r: usize = 0;
    while r < 2 * total_syms
        invariant
            out@.len() == r,
            r <= 2 * total_syms,
            total_syms * 2 <= usize::MAX,
            forall|a: int| 0 <= a < r ==> (#[trigger] out@[a])@.len() == total_syms,
            forall|a: int, j: int| 0 <= a < r && 0 <= j < total_syms ==> !(#[trigger] out@[a]@[j]),
        decreases 2 * total_syms - r,
    {
        let mut row: Vec<bool> = Vec::new();
        let mut c: usize = 0;
        while c < total_syms
            invariant
                row@.len() == c,
                c <= total_syms,
                forall|b: int| 0 <= b < c ==> !(#[trigger] row@[b]),
            decreases total_syms - c,
        {
            row.push(false);
            c += 1;
        }
        out.push(row);
        r += 1;
    }
    let mut phase: usize = 0;
    while phase < 2
        invariant
            phase <= 2,
            num_syms <= total_syms,
            total_syms < u32::MAX,
            total_syms * 2 <= usize::MAX,
            fv == first@,
            wv == follow@,
            out@.len() == 2 * total_syms,
            forall|a: int| 0 <= a < out@.len() ==> (#[trigger] out@[a])@.len() == total_syms,
            forall|a: int, j: int|
                0 <= a < out@.len() && 0 <= j < total_syms ==> ((#[trigger] out@[a]@[j])
                    <==> lr_bit_upto(
                    fv,
                    wv,
                    num_syms as int,
                    a,
                    j,
                    if phase >= 1 {
                        fv.len() as int
                    } else {
                        0
                    },
                    if phase >= 2 {
                        wv.len() as int
                    } else {
                        0
                    },
                    0,
                )),
        decreases 2 - phase,
    {
        let entries = if phase == 0 {
            first
        } else {
            follow
        };
        let ghost ev = entries@;
        let off: usize = if phase == 0 {
            0
        } else {
            1
        };
        let mut e: usize = 0;
        while e < entries.len()
            invariant
                phase < 2,
                off == phase,
                ev == entries@,
                ev == if phase == 0 {
                    fv
                } else {
                    wv
                },
                fv == first@,
                wv == follow@,
                e <= ev.len(),
                num_syms <= total_syms,
                total_syms < u32::MAX,
                total_syms * 2 <= usize::MAX,
                out@.len() == 2 * total_syms,
                forall|a: int| 0 <= a < out@.len() ==> (#[trigger] out@[a])@.len() == total_syms,
                forall|a: int, j: int|
                    0 <= a < out@.len() && 0 <= j < total_syms ==> ((#[trigger] out@[a]@[j])
                        <==> lr_bit_upto(
                        fv,
                        wv,
                        num_syms as int,
                        a,
                        j,
                        if phase >= 1 {
                            fv.len() as int
                        } else {
                            e as int
                        },
                        if phase >= 2 {
                            wv.len() as int
                        } else {
                            if phase == 1 {
                                e as int
                            } else {
                                0
                            }
                        },
                        0,
                    )),
            decreases ev.len() - e,
        {
            let entry = &entries[e];
            let ghost pre = out@;
            if (entry.sym as usize) < num_syms {
                let row_idx = 2 * (entry.sym as usize) + off;
                let mut x: usize = 0;
                while x < entry.list.len()
                    invariant
                        phase < 2,
                        off == phase,
                        e < ev.len(),
                        ev == entries@,
                        entry == &ev[e as int],
                        (entry.sym as usize) < num_syms,
                        num_syms <= total_syms,
                        total_syms < u32::MAX,
                        total_syms * 2 <= usize::MAX,
                        row_idx == 2 * (entry.sym as int) + off,
                        row_idx < 2 * total_syms,
                        x <= entry.list@.len(),
                        out@.len() == 2 * total_syms,
                        pre.len() == 2 * total_syms,
                        forall|a: int|
                            0 <= a < out@.len() ==> (#[trigger] out@[a])@.len() == total_syms,
                        forall|a: int|
                            0 <= a < out@.len() && a != row_idx ==> #[trigger] out@[a] == pre[a],
                        out@[row_idx as int]@.len() == total_syms,
                        forall|j: int|
                            0 <= j < total_syms ==> ((#[trigger] out@[row_idx as int]@[j]) <==> (
                            pre[row_idx as int]@[j] || exists|y: int|
                                0 <= y < x && entry.list@[y] == j)),
                    decreases entry.list@.len() - x,
                {
                    let v = entry.list[x];
                    let ghost mid = out@;
                    if (v as usize) < total_syms {
                        let row = &mut out[row_idx];
                        row[v as usize] = true;
                    }
                    proof {
                        assert forall|j: int| 0 <= j < total_syms implies ((#[trigger] out@[row_idx
                            as int]@[j]) <==> (pre[row_idx as int]@[j] || exists|y: int|
                            0 <= y < x + 1 && entry.list@[y] == j)) by {
                            if out@[row_idx as int]@[j] {
                                if !mid[row_idx as int]@[j] {
                                    assert(entry.list@[x as int] == j);
                                } else {
                                    if !pre[row_idx as int]@[j] {
                                        let y = choose|y: int| 0 <= y < x && entry.list@[y] == j;
                                        assert(0 <= y < x + 1 && entry.list@[y] == j);
                                    }
                                }
                            } else {
                                assert(!mid[row_idx as int]@[j]);
                                if entry.list@[x as int] == j {
                                    assert(out@[row_idx as int]@[j]);
                                    assert(false);
                                }
                            }
                        }
                    }
                    x += 1;
                }
                proof {
                    assert forall|a: int, j: int|
                        0 <= a < out@.len() && 0 <= j < total_syms implies ((#[trigger] out@[a]@[j])
                        <==> lr_bit_upto(
                        fv,
                        wv,
                        num_syms as int,
                        a,
                        j,
                        if phase >= 1 {
                            fv.len() as int
                        } else {
                            e + 1
                        },
                        if phase == 1 {
                            e + 1
                        } else {
                            0
                        },
                        0,
                    )) by {
                        let fe_new: int = if phase >= 1 {
                            fv.len() as int
                        } else {
                            e + 1
                        };
                        let foe_new: int = if phase == 1 {
                            e + 1
                        } else {
                            0
                        };
                        let fe_old: int = if phase >= 1 {
                            fv.len() as int
                        } else {
                            e as int
                        };
                        let foe_old: int = if phase == 1 {
                            e as int
                        } else {
                            0
                        };
                        if a == row_idx {
                            assert(a / 2 == entry.sym as int && a % 2 == phase as int);
                            if out@[a]@[j] {
                                if pre[a]@[j] {
                                    assert(lr_bit_upto(fv, wv, num_syms as int, a, j, fe_old, foe_old, 0));
                                    assert(lr_bit_upto(fv, wv, num_syms as int, a, j, fe_new, foe_new, 0));
                                } else {
                                    let y = choose|y: int|
                                        0 <= y < entry.list@.len() && entry.list@[y] == j;
                                    assert(ev[e as int].sym == a / 2 && ev[e as int].list@.contains(
                                        j as u32,
                                    ));
                                    assert(lr_bit_upto(fv, wv, num_syms as int, a, j, fe_new, foe_new, 0));
                                }
                            } else {
                                if lr_bit_upto(fv, wv, num_syms as int, a, j, fe_new, foe_new, 0) {
                                    let upto: int = if phase == 0 {
                                        fe_new
                                    } else {
                                        foe_new
                                    };
                                    let y = choose|y: int|
                                        0 <= y < upto && (#[trigger] ev[y]).sym == a / 2
                                            && ev[y].list@.contains(j as u32);
                                    if y < e {
                                        assert(lr_bit_upto(fv, wv, num_syms as int, a, j, fe_old, foe_old, 0));
                                        assert(pre[a]@[j]);
                                        assert(false);
                                    } else {
                                        let z = choose|z: int|
                                            0 <= z < ev[y].list@.len() && ev[y].list@[z] == j as u32;
                                        assert(entry.list@[z] == j);
                                        assert(out@[a]@[j]);
                                        assert(false);
                                    }
                                }
                            }
                        } else {
                            assert(out@[a] == pre[a]);
                            if lr_bit_upto(fv, wv, num_syms as int, a, j, fe_new, foe_new, 0)
                                != lr_bit_upto(fv, wv, num_syms as int, a, j, fe_old, foe_old, 0) {
                                let upto: int = if phase == 0 {
                                    fe_new
                                } else {
                                    foe_new
                                };
                                let y = choose|y: int|
                                    0 <= y < upto && (#[trigger] ev[y]).sym == a / 2
                                        && ev[y].list@.contains(j as u32);
                                assert(y == e);
                                assert(a / 2 == entry.sym as int && a % 2 == phase as int);
                                assert(a == row_idx);
                                assert(false);
                            }
                        }
                    }
                }
            } else {
                proof {
                    assert forall|a: int, j: int|
                        0 <= a < out@.len() && 0 <= j < total_syms implies ((#[trigger] out@[a]@[j])
                        <==> lr_bit_upto(
                        fv,
                        wv,
                        num_syms as int,
                        a,
                        j,
                        if phase >= 1 {
                            fv.len() as int
                        } else {
                            e + 1
                        },
                        if phase == 1 {
                            e + 1
                        } else {
                            0
                        },
                        0,
                    )) by {
                        let fe_new: int = if phase >= 1 {
                            fv.len() as int
                        } else {
                            e + 1
                        };
                        let foe_new: int = if phase == 1 {
                            e + 1
                        } else {
                            0
                        };
                        let fe_old: int = if phase >= 1 {
                            fv.len() as int
                        } else {
                            e as int
                        };
                        let foe_old: int = if phase == 1 {
                            e as int
                        } else {
                            0
                        };
                        if lr_bit_upto(fv, wv, num_syms as int, a, j, fe_new, foe_new, 0)
                            != lr_bit_upto(fv, wv, num_syms as int, a, j, fe_old, foe_old, 0) {
                            let upto: int = if phase == 0 {
                                fe_new
                            } else {
                                foe_new
                            };
                            let y = choose|y: int|
                                0 <= y < upto && (#[trigger] ev[y]).sym == a / 2
                                    && ev[y].list@.contains(j as u32);
                            assert(y == e);
                            assert(a / 2 < num_syms);
                            assert(false);
                        }
                    }
                }
            }
            e += 1;
        }
        phase += 1;
    }
    let mut i: usize = 0;
    while i < num_syms
        invariant
            i <= num_syms,
            num_syms <= total_syms,
            total_syms < u32::MAX,
            total_syms * 2 <= usize::MAX,
            fv == first@,
            wv == follow@,
            out@.len() == 2 * total_syms,
            forall|a: int| 0 <= a < out@.len() ==> (#[trigger] out@[a])@.len() == total_syms,
            forall|a: int, j: int|
                0 <= a < out@.len() && 0 <= j < total_syms ==> ((#[trigger] out@[a]@[j])
                    <==> lr_bit_upto(
                    fv,
                    wv,
                    num_syms as int,
                    a,
                    j,
                    fv.len() as int,
                    wv.len() as int,
                    i as int,
                )),
        decreases num_syms - i,
    {
        let ghost pre = out@;
        let row = &mut out[2 * i];
        row[i] = true;
        proof {
            assert forall|a: int, j: int|
                0 <= a < out@.len() && 0 <= j < total_syms implies ((#[trigger] out@[a]@[j])
                <==> lr_bit_upto(
                fv,
                wv,
                num_syms as int,
                a,
                j,
                fv.len() as int,
                wv.len() as int,
                i + 1,
            )) by {
                if a == 2 * i {
                    assert(a / 2 == i as int && a % 2 == 0);
                    if j == i {
                        assert(out@[a]@[j]);
                    } else {
                        assert(out@[a]@[j] == pre[a]@[j]);
                    }
                } else {
                    assert(out@[a] == pre[a]);
                    assert((a / 2 < i + 1 && a / 2 == j && a % 2 == 0) == (a / 2 < i && a / 2 == j
                        && a % 2 == 0) || (a / 2 == i as int && a % 2 == 0 && j == i as int && a
                        == 2 * i));
                }
            }
        }
        i += 1;
    }
    out
}

/// The per-rule column tables of the internal grammar, extracted from the
/// checked rule records.
pub struct RuleColumns {
    /// Left-hand sides, rule by rule.
    pub lhs: Vec<Option<Symbol>>,
    /// First right-hand symbols, rule by rule.
    pub rhs0: Vec<Option<Symbol>>,
    /// Second right-hand symbols, rule by rule.
    pub rhs1: Vec<Option<Symbol>>,
    /// External origins, rule by rule.
    pub eval: Vec<Option<u32>>,
    /// Eliminated nulling symbols, rule by rule.
    pub nulling_eliminated: Vec<Option<(Symbol, bool)>>,
    /// Events at the first right-hand dot, rule by rule.
    pub events_rhs1: Vec<crate::grammar_api::Event>,
    /// Events at the second right-hand dot, rule by rule.
    pub events_rhs2: Vec<crate::grammar_api::Event>,
}

/// The event value of a rule dot: an id of zero stands for none, a
/// distance of `u32::MAX` for none.
pub open spec fn event_of(id: u32, distance: u32) -> crate::grammar_api::Event {
    (
        if id == 0 {
            None
        } else {
            Some(id)
        },
        if distance == u32::MAX {
            None
        } else {
            Some(distance)
        },
    )
}

/// The column values of one rule.
pub open spec fn columns_ok(cols: RuleColumns, rs: Seq<RuleRecord>) -> bool {
    &&& cols.lhs@.len() == rs.len()
    &&& cols.rhs0@.len() == rs.len()
    &&& cols.rhs1@.len() == rs.len()
    &&& cols.eval@.len() == rs.len()
    &&& cols.nulling_eliminated@.len() == rs.len()
    &&& cols.events_rhs1@.len() == rs.len()
    &&& cols.events_rhs2@.len() == rs.len()
    &&& forall|d: int|
        0 <= d < rs.len() ==> #[trigger] cols.lhs@[d] == Some(Symbol((#[trigger] rs[d]).lhs))
    &&& forall|d: int| 0 <= d < rs.len() ==> #[trigger] cols.rhs0@[d] == Some(Symbol(rs[d].rhs0))
    &&& forall|d: int|
        0 <= d < rs.len() ==> #[trigger] cols.rhs1@[d] == if rs[d].rhs_len == 2 {
            Some(Symbol(rs[d].rhs1))
        } else {
            None
        }
    &&& forall|d: int|
        0 <= d < rs.len() ==> #[trigger] cols.eval@[d] == if rs[d].origin_id == u32::MAX {
            None
        } else {
            Some(rs[d].origin_id)
        }
    &&& forall|d: int|
        0 <= d < rs.len() ==> #[trigger] cols.nulling_eliminated@[d] == match rs[d].nullable {
            Some((s, side)) => Some((Symbol(s), side)),
            None => None,
        }
    &&& forall|d: int|
        0 <= d < rs.len() ==> #[trigger] cols.events_rhs1@[d] == event_of(
            rs[d].events.1,
            rs[d].distances.1,
        )
    &&& forall|d: int|
        0 <= d < rs.len() ==> #[trigger] cols.events_rhs2@[d] == event_of(
            rs[d].events.2,
            rs[d].distances.2,
        )
}

/// Copies the checked rules into the column tables of the grammar.
pub fn build_rule_columns(rules: &Vec<RuleRecord>) -> (cols: RuleColumns)
    requires
        forall|d: int| 0 <= d < rules@.len() ==> 1 <= (#[trigger] rules@[d]).rhs_len <= 2,
    ensures
        columns_ok(cols, rules@),
{
    let mut cols = RuleColumns {
        lhs: Vec::new(),
        rhs0: Vec::new(),
        rhs1: Vec::new(),
        eval: Vec::new(),
        nulling_eliminated: Vec::new(),
        events_rhs1: Vec::new(),
        events_rhs2: Vec::new(),
    };
    let mut d: usize = 0;
    while d < rules.len()
        invariant
            forall|k: int| 0 <= k < rules@.len() ==> 1 <= (#[trigger] rules@[k]).rhs_len <= 2,
            d <= rules@.len(),
            cols.lhs@.len() == d && cols.rhs0@.len() == d && cols.rhs1@.len() == d
                && cols.eval@.len() == d && cols.nulling_eliminated@.len() == d
                && cols.events_rhs1@.len() == d && cols.events_rhs2@.len() == d,
            forall|k: int|
                0 <= k < d ==> #[trigger] cols.lhs@[k] == Some(Symbol((#[trigger] rules@[k]).lhs)),
            forall|k: int|
                0 <= k < d ==> #[trigger] cols.rhs0@[k] == Some(Symbol(rules@[k].rhs0)),
            forall|k: int|
                0 <= k < d ==> #[trigger] cols.rhs1@[k] == if rules@[k].rhs_len == 2 {
                    Some(Symbol(rules@[k].rhs1))
                } else {
                    None
                },
            forall|k: int|
                0 <= k < d ==> #[trigger] cols.eval@[k] == if rules@[k].origin_id == u32::MAX {
                    None
                } else {
                    Some(rules@[k].origin_id)
                },
            forall|k: int|
                0 <= k < d ==> #[trigger] cols.nulling_eliminated@[k] == match rules@[k].nullable {
                    Some((s, side)) => Some((Symbol(s), side)),
                    None => None,
                },
            forall|k: int|
                0 <= k < d ==> #[trigger] cols.events_rhs1@[k] == event_of(
                    rules@[k].events.1,
                    rules@[k].distances.1,
                ),
            forall|k: int|
                0 <= k < d ==> #[trigger] cols.events_rhs2@[k] == event_of(
                    rules@[k].events.2,
                    rules@[k].distances.2,
                ),
        decreases rules@.len() - d,
    {
        let rule = &rules[d];
        cols.lhs.push(Some(Symbol(rule.lhs)));
        cols.rhs0.push(Some(Symbol(rule.rhs0)));
        if rule.rhs_len == 2 {
            cols.rhs1.push(Some(Symbol(rule.rhs1)));
        } else {
            cols.rhs1.push(None);
        }
        if rule.origin_id == 0xFFFF_FFFF {
            cols.eval.push(None);
        } else {
            cols.eval.push(Some(rule.origin_id));
        }
        match rule.nullable {
            Some((s, side)) => {
                cols.nulling_eliminated.push(Some((Symbol(s), side)));
            },
            None => {
                cols.nulling_eliminated.push(None);
            },
        }
        let e1 = if rule.events.1 == 0 {
            None
        } else {
            Some(rule.events.1)
        };
        let d1 = if rule.distances.1 == 0xFFFF_FFFF {
            None
        } else {
            Some(rule.distances.1)
        };
        cols.events_rhs1.push((e1, d1));
        let e2 = if rule.events.2 == 0 {
            None
        } else {
            Some(rule.events.2)
        };
        let d2 = if rule.distances.2 == 0xFFFF_FFFF {
            None
        } else {
            Some(rule.distances.2)
        };
        cols.events_rhs2.push((e2, d2));
        d += 1;
    }
    cols
}

/// The nulling intermediate rules of the nulling subgrammar: the
/// binarized gensym rules that exist only to carry nullability, in order.
pub open spec fn nulling_intermediates(rs: Seq<RuleRecord>) -> Seq<(Symbol, Symbol, Symbol)>
    decreases rs.len(),
{
    if rs.len() == 0 {
        Seq::empty()
    } else {
        let prefix = nulling_intermediates(rs.drop_last());
        let r = rs.last();
        if r.origin_id == u32::MAX && r.rhs_len == 2 {
            prefix.push((Symbol(r.lhs), Symbol(r.rhs0), Symbol(r.rhs1)))
        } else {
            prefix
        }
    }
}

/// Collects the nulling intermediate rules: every rule of the nulling
/// subgrammar that has no external origin and two right-hand symbols.
pub fn build_nulling_intermediates(rules: &Vec<RuleRecord>) -> (out: Vec<(Symbol, Symbol, Symbol)>)
    ensures
        out@ == nulling_intermediates(rules@),
{
    let mut out: Vec<(Symbol, Symbol, Symbol)> = Vec::new();
    let mut i: usize = 0;
    while i < rules.len()
        invariant
            i <= rules@.len(),
            out@ == nulling_intermediates(rules@.take(i as int)),
        decreases rules@.len() - i,
    {
        let rule = &rules[i];
        proof {
            assert(rules@.take(i + 1).drop_last() =~= rules@.take(i as int));
            assert(rules@.take(i + 1).last() == rules@[i as int]);
        }
        if rule.origin_id == 0xFFFF_FFFF && rule.rhs_len == 2 {
            let s0 = rule.rhs0;
            let s1 = rule.rhs1;
            out.push((Symbol(rule.lhs), Symbol(s0), Symbol(s1)));
        }
        i += 1;
    }
    proof {
        assert(rules@.take(rules@.len() as int) =~= rules@);
    }
    out
}

/// The prediction event of symbol `s`: the event at dot zero of the last
/// rule with left-hand side `s` that carries one, if any.
pub open spec fn pred_event_for(rs: Seq<RuleRecord>, s: int) -> crate::grammar_api::Event
    decreases rs.len(),
{
    if rs.len() == 0 {
        (None, None)
    } else {
        let r = rs.last();
        if r.lhs == s && r.events.0 != 0 {
            event_of(r.events.0, r.distances.0)
        } else {
            pred_event_for(rs.drop_last(), s)
        }
    }
}

/// Builds the per-symbol prediction events: for each rule carrying an
/// event at dot zero, that event is filed under the rule's left-hand
/// side; later rules win.
pub fn build_pred_events(rules: &Vec<RuleRecord>, num_syms: usize, total_syms: usize) -> (out:
    Vec<crate::grammar_api::Event>)
    requires
        rules_ok(rules@, total_syms as int),
        num_syms <= total_syms,
        total_syms <= u32::MAX,
    ensures
        out@.len() == num_syms,
        forall|s: int| 0 <= s < num_syms ==> #[trigger] out@[s] == pred_event_for(rules@, s),
{
    let mut out: Vec<crate::grammar_api::Event> = Vec::new();
    let mut s: usize = 0;
    while s < num_syms
        invariant
            out@.len() == s,
            s <= num_syms,
            forall|m: int| 0 <= m < s ==> #[trigger] out@[m] == (None::<u32>, None::<u32>),
        decreases num_syms - s,
    {
        out.push((None, None));
        s += 1;
    }
    let mut i: usize = 0;
    while i < rules.len()
        invariant
            rules_ok(rules@, total_syms as int),
            num_syms <= total_syms,
            total_syms <= u32::MAX,
            i <= rules@.len(),
            out@.len() == num_syms,
            forall|m: int|
                0 <= m < num_syms ==> #[trigger] out@[m] == pred_event_for(
                    rules@.take(i as int),
                    m,
                ),
        decreases rules@.len() - i,
    {
        let rule = &rules[i];
        proof {
            assert(rules@.take(i + 1).drop_last() =~= rules@.take(i as int));
            assert(rules@.take(i + 1).last() == rules@[i as int]);
        }
        if rule.events.0 != 0 && (rule.lhs as usize) < num_syms {
            let e = if rule.events.0 == 0 {
                None
            } else {
                Some(rule.events.0)
            };
            let dist = if rule.distances.0 == 0xFFFF_FFFF {
                None
            } else {
                Some(rule.distances.0)
            };
            out[rule.lhs as usize] = (e, dist);
        }
        proof {
            assert forall|m: int| 0 <= m < num_syms implies #[trigger] out@[m] == pred_event_for(
                rules@.take(i + 1),
                m,
            ) by {}
        }
        i += 1;
    }
    proof {
        assert(rules@.take(rules@.len() as int) =~= rules@);
    }
    out
}

/// The symbol-count bookkeeping of a prepared grammar. The non-gensym
/// symbols and the gensyms together make up the internal id-space.
#[derive(Clone, Copy, Debug, Default, PartialEq, Eq, Structural)]
pub struct DefaultGrammarSize {
    /// Internal non-gensym symbols.
    pub syms: usize,
    /// Synthesized internal nonterminals.
    pub gensyms: usize,
    /// Rules of the internal grammar.
    pub rules: usize,
    /// All internal symbols: `syms + gensyms`.
    pub internal_syms: usize,
    /// External symbols of the original grammar.
    pub external_syms: usize,
}

/// The two dense arrays relating external and internal symbol ids.
pub struct SymbolMapping {
    /// For each external symbol, its internal id, if it kept one.
    pub to_internal: Vec<Option<Symbol>>,
    /// For each internal symbol, its external id.
    pub to_external: Vec<Symbol>,
}

/// The two maps are inverse to each other wherever they are defined.
pub open spec fn maps_inverse(m: SymbolMapping) -> bool {
    &&& forall|i: int|
        0 <= i < m.to_external@.len() ==> (#[trigger] m.to_external@[i]).0 < m.to_internal@.len()
            && m.to_internal@[m.to_external@[i].0 as int] == Some(Symbol(i as u32))
    &&& forall|e: int|
        0 <= e < m.to_internal@.len() && (#[trigger] m.to_internal@[e]) is Some ==> (
        m.to_internal@[e]->Some_0).0 < m.to_external@.len() && m.to_external@[(m.to_internal@[e]->Some_0).0 as int].0 == e
}

/// The raw mapping is the identity (both maps empty), or covers the
/// internal id-space with two maps inverse to each other wherever they
/// are defined.
pub open spec fn raw_maps_good(maps: crate::cfg_support::SymMapRecord, total: int) -> bool {
    ||| (maps.to_external@.len() == 0 && maps.to_internal@.len() == 0)
    ||| raw_maps_inverse(maps, total)
}

/// The non-identity case: the external map covers the internal id-space
/// and the two maps are inverse to each other wherever they are defined.
pub open spec fn raw_maps_inverse(maps: crate::cfg_support::SymMapRecord, total: int) -> bool {
    &&& maps.to_external@.len() == total
    &&& maps.to_internal@.len() <= u32::MAX
    &&& forall|i: int|
        0 <= i < maps.to_external@.len() ==> (#[trigger] maps.to_external@[i])
            < maps.to_internal@.len() && maps.to_internal@[maps.to_external@[i] as int] == Some(
            i as u32,
        )
    &&& forall|e: int|
        0 <= e < maps.to_internal@.len() && (#[trigger] maps.to_internal@[e]) is Some ==> (
        maps.to_internal@[e]->Some_0) < maps.to_external@.len()
            && maps.to_external@[maps.to_internal@[e]->Some_0 as int] == e
}

/// Checks the raw mapping from remapping: converts it to symbol form and
/// accepts it exactly when the two maps are inverse to each other and
/// cover the internal id-space.
pub fn check_sym_maps(maps: &crate::cfg_support::SymMapRecord, total_syms: usize) -> (r: Option<
    SymbolMapping,
>)
    requires
        total_syms <= u32::MAX,
    ensures
        r is Some <==> raw_maps_good(*maps, total_syms as int),
        r matches Some(m) ==> {
            &&& maps_inverse(m)
            &&& m.to_external@.len() == total_syms || m.to_external@.len() == 0
            &&& m.to_external@.len() == maps.to_external@.len()
            &&& m.to_external@.len() <= u32::MAX
            &&& m.to_internal@.len() <= u32::MAX
            &&& m.to_internal@.len() == maps.to_internal@.len()
            &&& forall|i: int|
                0 <= i < m.to_external@.len() ==> (#[trigger] m.to_external@[i]) == Symbol(
                    maps.to_external@[i],
                )
            &&& forall|e: int|
                0 <= e < m.to_internal@.len() ==> (#[trigger] m.to_internal@[e]) == match maps
                    .to_internal@[e] {
                    Some(v) => Some(Symbol(v)),
                    None => None,
                }
        },
{
    if maps.to_external.len() == 0 && maps.to_internal.len() == 0 {
        return Some(SymbolMapping { to_internal: Vec::new(), to_external: Vec::new() });
    }
    if maps.to_external.len() != total_syms {
        return None;
    }
    if maps.to_internal.len() > 0xFFFF_FFFFusize {
        return None;
    }
    let mut to_external: Vec<Symbol> = Vec::new();
    let mut i: usize = 0;
    while i < maps.to_external.len()
        invariant
            to_external@.len() == i,
            i <= maps.to_external@.len(),
            forall|k: int|
                0 <= k < i ==> (#[trigger] to_external@[k]) == Symbol(maps.to_external@[k]),
        decreases maps.to_external@.len() - i,
    {
        to_external.push(Symbol(maps.to_external[i]));
        i += 1;
    }
    let mut to_internal: Vec<Option<Symbol>> = Vec::new();
    let mut i: usize = 0;
    while i < maps.to_internal.len()
        invariant
            to_internal@.len() == i,
            i <= maps.to_internal@.len(),
            forall|k: int|
                0 <= k < i ==> (#[trigger] to_internal@[k]) == match maps.to_internal@[k] {
                    Some(v) => Some(Symbol(v)),
                    None => None,
                },
        decreases maps.to_internal@.len() - i,
    {
        match maps.to_internal[i] {
            Some(v) => {
                to_internal.push(Some(Symbol(v)));
            },
            None => {
                to_internal.push(None);
            },
        }
        i += 1;
    }
    let mut i: usize = 0;
    while i < to_external.len()
        invariant
            i <= to_external@.len(),
            to_external@.len() == maps.to_external@.len(),
            to_internal@.len() == maps.to_internal@.len(),
            to_external@.len() == total_syms,
            total_syms <= u32::MAX,
            to_internal@.len() <= u32::MAX,
            forall|k: int|
                0 <= k < to_external@.len() ==> (#[trigger] to_external@[k]) == Symbol(
                    maps.to_external@[k],
                ),
            forall|k: int|
                0 <= k < to_internal@.len() ==> (#[trigger] to_internal@[k]) == match maps
                    .to_internal@[k] {
                    Some(v) => Some(Symbol(v)),
                    None => None,
                },
            forall|k: int|
                0 <= k < i ==> (#[trigger] maps.to_external@[k]) < maps.to_internal@.len()
                    && maps.to_internal@[maps.to_external@[k] as int] == Some(k as u32),
        decreases to_external@.len() - i,
    {
        let ext = to_external[i];
        if (ext.0 as usize) >= to_internal.len() {
            return None;
        }
        match to_internal[ext.0 as usize] {
            Some(back) => {
                if back.0 as usize != i {
                    return None;
                }
            },
            None => {
                return None;
            },
        }
        i += 1;
    }
    let mut e: usize = 0;
    while e < to_internal.len()
        invariant
            e <= to_internal@.len(),
            to_external@.len() == maps.to_external@.len(),
            to_internal@.len() == maps.to_internal@.len(),
            to_external@.len() == total_syms,
            total_syms <= u32::MAX,
            to_internal@.len() <= u32::MAX,
            forall|k: int|
                0 <= k < to_external@.len() ==> (#[trigger] to_external@[k]) == Symbol(
                    maps.to_external@[k],
                ),
            forall|k: int|
                0 <= k < to_internal@.len() ==> (#[trigger] to_internal@[k]) == match maps
                    .to_internal@[k] {
                    Some(v) => Some(Symbol(v)),
                    None => None,
                },
            forall|k: int|
                0 <= k < maps.to_external@.len() ==> (#[trigger] maps.to_external@[k])
                    < maps.to_internal@.len() && maps.to_internal@[maps.to_external@[k] as int]
                    == Some(k as u32),
            forall|k: int|
                0 <= k < e && (#[trigger] maps.to_internal@[k]) is Some ==> (maps.to_internal@[
                    k]->Some_0) < maps.to_external@.len() && maps.to_external@[maps.to_internal@[
                    k]->Some_0 as int] == k,
        decreases to_internal@.len() - e,
    {
        match to_internal[e] {
            Some(s) => {
                if (s.0 as usize) >= to_external.len() {
                    return None;
                }
                if to_external[s.0 as usize].0 as usize != e {
                    return None;
                }
            },
            None => {},
        }
        e += 1;
    }
    proof {
        assert(raw_maps_good(*maps, total_syms as int));
    }
    Some(SymbolMapping { to_internal, to_external })
}

/// Packs the per-symbol completion buckets into the ragged store, one
/// sealed set per symbol.
pub fn pack_completions(buckets: Vec<Vec<PredictionTransition>>) -> (c: crate::vec2d::Vec2d<
    PredictionTransition,
>)
    ensures
        c.wf(),
        c.num_sets() == buckets@.len(),
        forall|s: int| 0 <= s < buckets@.len() ==> #[trigger] c.set_at(s) == buckets@[s]@,
        c.current().len() == 0,
{
    let ghost orig = buckets@;
    let ghost n = orig.len() as int;
    let mut work = buckets;
    let mut c: crate::vec2d::Vec2d<PredictionTransition> = crate::vec2d::Vec2d::with_capacity(
        crate::vec2d::Vec2dCapacity { chart_capacity: 0, indices_capacity: 0 },
    );
    while work.len() > 0
        invariant
            n == orig.len(),
            work@.len() <= n,
            work@ == orig.subrange(n - work@.len(), n),
            c.wf(),
            c.num_sets() == n - work@.len(),
            c.current().len() == 0,
            forall|s: int| 0 <= s < c.num_sets() ==> #[trigger] c.set_at(s) == orig[s]@,
        decreases work@.len(),
    {
        let ghost k = n - work@.len();
        let ghost pre = work@;
        let b = work.remove(0);
        proof {
            assert(b == pre[0] && pre[0] == orig.subrange(k, n)[0]);
            assert(b == orig[k]);
            assert(work@ =~= orig.subrange(k + 1, n));
        }
        c.extend_with_set(b);
        proof {
            assert(c.set_at(k) =~= orig[k]@);
        }
    }
    c
}

/// A prepared grammar: the normalized, binarized internal form with its
/// lookup tables, ready for recognition.
pub struct DefaultGrammar {
    start_sym: Symbol,
    original_start_sym: Symbol,
    has_trivial_derivation: bool,
    eof_sym: Symbol,
    dot_before_eof: u32,
    size: DefaultGrammarSize,
    prediction_matrix: Vec<Vec<bool>>,
    completions: crate::vec2d::Vec2d<PredictionTransition>,
    gen_completions: Vec<PredictionTransition>,
    lr_sets: Vec<Vec<bool>>,
    events_pred: Vec<crate::grammar_api::Event>,
    events_rhs1: Vec<crate::grammar_api::Event>,
    events_rhs2: Vec<crate::grammar_api::Event>,
    trace_pred: Vec<Option<crate::grammar_api::ExternalDottedRule>>,
    trace_rhs1: Vec<Option<crate::grammar_api::ExternalDottedRule>>,
    trace_rhs2: Vec<Option<crate::grammar_api::ExternalDottedRule>>,
    nulling_eliminated: Vec<Option<(Symbol, bool)>>,
    lhs: Vec<Option<Symbol>>,
    rhs0: Vec<Option<Symbol>>,
    rhs1: Vec<Option<Symbol>>,
    eval: Vec<Option<u32>>,
    sym_maps: SymbolMapping,
    nulling_intermediate_rules: Vec<(Symbol, Symbol, Symbol)>,
    rules: Ghost<Seq<RuleRecord>>,
    rules_by_rhs0: Ghost<Seq<RuleRecord>>,
}

impl DefaultGrammar {
    /// The checked, sorted rule records the tables were built from.
    pub closed spec fn spec_rules(&self) -> Seq<RuleRecord> {
        self.rules@
    }

    /// The same rules ordered by their first right-hand symbol, the order
    /// the gensym chains are looked up in.
    pub closed spec fn spec_rules_by_rhs0(&self) -> Seq<RuleRecord> {
        self.rules_by_rhs0@
    }

    /// The size bookkeeping.
    pub closed spec fn spec_size(&self) -> DefaultGrammarSize {
        self.size
    }

    /// The number of non-gensym internal symbols.
    pub closed spec fn spec_num_syms(&self) -> int {
        self.size.syms as int
    }

    /// The number of gensyms.
    pub closed spec fn spec_num_gensyms(&self) -> int {
        self.size.gensyms as int
    }

    /// The number of internal symbols of either kind.
    pub closed spec fn spec_internal_syms(&self) -> int {
        self.size.internal_syms as int
    }

    /// The number of external symbols.
    pub closed spec fn spec_external_syms(&self) -> int {
        self.size.external_syms as int
    }

    /// The number of rules.
    pub closed spec fn spec_num_rules(&self) -> int {
        self.size.rules as int
    }

    /// The prediction matrix bit at `(a, b)`.
    pub closed spec fn spec_prediction(&self, a: int, b: int) -> bool {
        self.prediction_matrix@[a]@[b]
    }

    /// The internal start symbol.
    pub closed spec fn spec_start_sym(&self) -> Symbol {
        self.start_sym
    }

    /// The end-of-input terminal.
    pub closed spec fn spec_eof(&self) -> Symbol {
        self.eof_sym
    }

    /// The dot of the rule that ends at the end-of-input terminal.
    pub closed spec fn spec_dot_before_eof(&self) -> int {
        self.dot_before_eof as int
    }

    /// The completion transitions filed under non-gensym symbol `s`.
    pub closed spec fn spec_completions(&self, s: int) -> Seq<PredictionTransition> {
        self.completions.set_at(s)
    }

    /// The completion transition of gensym `k`.
    pub closed spec fn spec_gen_completion(&self, k: int) -> PredictionTransition {
        self.gen_completions@[k]
    }

    /// The internal id of external symbol `e`, under the identity reading
    /// of an empty map.
    pub closed spec fn spec_to_internal(&self, e: int) -> Option<Symbol> {
        if self.sym_maps.to_internal@.len() == 0 {
            Some(Symbol(e as u32))
        } else {
            self.sym_maps.to_internal@[e]
        }
    }

    /// The external id of internal symbol `i`, under the identity reading
    /// of an empty map.
    pub closed spec fn spec_to_external(&self, i: int) -> Symbol {
        if self.sym_maps.to_external@.len() == 0 {
            Symbol(i as u32)
        } else {
            self.sym_maps.to_external@[i]
        }
    }

    /// How many external symbols the internal map covers.
    pub closed spec fn spec_to_internal_len(&self) -> int {
        self.sym_maps.to_internal@.len() as int
    }

    /// How many internal symbols the external map covers.
    pub closed spec fn spec_to_external_len(&self) -> int {
        self.sym_maps.to_external@.len() as int
    }

    /// The left-hand side stored for rule `d`.
    pub closed spec fn spec_lhs(&self, d: int) -> Option<Symbol> {
        self.lhs@[d]
    }

    /// The second right-hand symbol stored for rule `d`.
    pub closed spec fn spec_rhs1(&self, d: int) -> Option<Symbol> {
        self.rhs1@[d]
    }

    /// Count bookkeeping and table arities.
    pub closed spec fn wf_counts(&self) -> bool {
        let rs = self.rules@;
        let syms = self.size.syms as int;
        let total = self.size.internal_syms as int;
        &&& self.size.syms + self.size.gensyms == self.size.internal_syms
        &&& total <= u32::MAX
        &&& self.size.internal_syms <= usize::MAX / 4
        &&& self.size.rules <= u32::MAX
        &&& rs.len() == self.size.rules
        &&& self.lhs@.len() == rs.len()
        &&& self.rhs0@.len() == rs.len()
        &&& self.rhs1@.len() == rs.len()
        &&& self.eval@.len() == rs.len()
        &&& self.nulling_eliminated@.len() == rs.len()
        &&& self.events_rhs1@.len() == rs.len()
        &&& self.events_rhs2@.len() == rs.len()
        &&& self.trace_rhs1@.len() == rs.len()
        &&& self.trace_rhs2@.len() == rs.len()
        &&& self.events_pred@.len() == syms
        &&& self.trace_pred@.len() == syms
    }

    /// The ghost rules are checked, sorted, and mirrored by the columns.
    pub closed spec fn wf_rules(&self) -> bool {
        let rs = self.rules@;
        let bs = self.rules_by_rhs0@;
        let total = self.size.internal_syms as int;
        &&& rules_ok(rs, total)
        &&& sorted_by_key(rs, true)
        &&& sorted_by_key(bs, false)
        &&& bs.to_multiset() == rs.to_multiset()
        &&& bs.len() == rs.len()
        &&& forall|i: int| 0 <= i < bs.len() ==> (#[trigger] bs[i]).rhs_len >= 1
        &&& forall|d: int| 0 <= d < rs.len() ==> #[trigger] self.lhs@[d] == Some(Symbol(rs[d].lhs))
        &&& forall|d: int|
            0 <= d < rs.len() ==> #[trigger] self.rhs0@[d] == Some(Symbol(rs[d].rhs0))
        &&& forall|d: int|
            0 <= d < rs.len() ==> #[trigger] self.rhs1@[d] == if rs[d].rhs_len == 2 {
                Some(Symbol(rs[d].rhs1))
            } else {
                None
            }
    }

    /// The prediction matrix is square, reflexive and transitively closed.
    pub closed spec fn wf_prediction(&self) -> bool {
        let syms = self.size.syms as int;
        &&& self.prediction_matrix@.len() == syms
        &&& forall|a: int| 0 <= a < syms ==> (#[trigger] self.prediction_matrix@[a])@.len() == syms
        &&& forall|a: int| 0 <= a < syms ==> #[trigger] self.prediction_matrix@[a]@[a]
        &&& forall|a: int, b: int, c: int|
            0 <= a < syms && 0 <= b < syms && 0 <= c < syms && self.prediction_matrix@[a]@[b]
                && self.prediction_matrix@[b]@[c] ==> self.prediction_matrix@[a]@[c]
    }

    /// The completion tables hold sound, ordered transitions.
    pub closed spec fn wf_completions(&self) -> bool {
        let rs = self.rules@;
        let bs = self.rules_by_rhs0@;
        let syms = self.size.syms as int;
        let total = self.size.internal_syms as int;
        &&& self.completions.wf()
        &&& self.completions.num_sets() == syms
        &&& forall|s: int, k: int|
            0 <= s < syms && 0 <= k < self.completions.set_at(s).len() ==> transition_ok(
                rs,
                bs,
                #[trigger] self.completions.set_at(s)[k],
                s,
                syms,
                total,
            )
        &&& forall|s: int, a: int, b: int|
            0 <= s < syms && 0 <= a <= b < self.completions.set_at(s).len() && (
            #[trigger] self.completions.set_at(s)[a]).is_unary ==> (
            #[trigger] self.completions.set_at(s)[b]).is_unary
        &&& self.gen_completions@.len() == self.size.gensyms
        &&& forall|k: int|
            0 <= k < self.gen_completions@.len() ==> transition_ok(
                rs,
                bs,
                #[trigger] self.gen_completions@[k],
                syms + k,
                syms,
                total,
            )
    }

    /// The FIRST/FOLLOW rows, symbol maps and wrapped start rule fit.
    pub closed spec fn wf_rest(&self) -> bool {
        let rs = self.rules@;
        let total = self.size.internal_syms as int;
        &&& self.lr_sets@.len() == 2 * total
        &&& forall|a: int|
            0 <= a < self.lr_sets@.len() ==> (#[trigger] self.lr_sets@[a])@.len() == total
        &&& maps_inverse(self.sym_maps)
        &&& self.sym_maps.to_external@.len() == total || self.sym_maps.to_external@.len() == 0
        &&& self.sym_maps.to_internal@.len() == self.size.external_syms
        &&& self.sym_maps.to_external@.len() <= u32::MAX
        &&& self.sym_maps.to_internal@.len() <= u32::MAX
        &&& self.start_sym.0 < total
        &&& self.original_start_sym.0 < total
        &&& self.eof_sym.0 < total
        &&& self.dot_before_eof < rs.len()
        &&& self.rhs1@[self.dot_before_eof as int] == Some(self.eof_sym)
        &&& self.lhs@[self.dot_before_eof as int] == Some(self.start_sym)
    }

    /// Everything the preparation pipeline establishes and every later
    /// query relies on.
    pub closed spec fn wf(&self) -> bool {
        &&& self.wf_counts()
        &&& self.wf_rules()
        &&& self.wf_prediction()
        &&& self.wf_completions()
        &&& self.wf_rest()
    }
}

/// The full rule records that the two extractions merge into, aligned by
/// rule order; a missing dot record leaves a rule without events.
pub open spec fn merged_rules(syms: Seq<RuleSymsRecord>, dots: Seq<RuleDotRecord>) -> Seq<
    RuleRecord,
> {
    Seq::new(
        syms.len(),
        |d: int|
            RuleRecord {
                lhs: syms[d].lhs,
                rhs0: syms[d].rhs0,
                rhs1: syms[d].rhs1,
                rhs_len: syms[d].rhs_len,
                origin_id: syms[d].origin_id,
                nullable: syms[d].nullable,
                events: if d < dots.len() {
                    dots[d].events
                } else {
                    (0, 0, 0)
                },
                distances: if d < dots.len() {
                    dots[d].distances
                } else {
                    (u32::MAX, u32::MAX, u32::MAX)
                },
            },
    )
}

/// Joins the two rule extractions into full rule records, aligned by
/// rule order; a missing dot record leaves a rule without events.
pub fn merge_rule_records(syms: &Vec<RuleSymsRecord>, dots: &Vec<RuleDotRecord>) -> (r: Vec<
    RuleRecord,
>)
    ensures
        r@ == merged_rules(syms@, dots@),
        r@.len() == syms@.len(),
        forall|d: int|
            0 <= d < r@.len() ==> {
                let s = syms@[d];
                (#[trigger] r@[d]) == RuleRecord {
                    lhs: s.lhs,
                    rhs0: s.rhs0,
                    rhs1: s.rhs1,
                    rhs_len: s.rhs_len,
                    origin_id: s.origin_id,
                    nullable: s.nullable,
                    events: if d < dots@.len() {
                        dots@[d].events
                    } else {
                        (0, 0, 0)
                    },
                    distances: if d < dots@.len() {
                        dots@[d].distances
                    } else {
                        (u32::MAX, u32::MAX, u32::MAX)
                    },
                }
            },
{
    let mut r: Vec<RuleRecord> = Vec::new();
    let mut d: usize = 0;
    while d < syms.len()
        invariant
            d <= syms@.len(),
            r@.len() == d,
            forall|k: int|
                0 <= k < d ==> {
                    let s = syms@[k];
                    (#[trigger] r@[k]) == RuleRecord {
                        lhs: s.lhs,
                        rhs0: s.rhs0,
                        rhs1: s.rhs1,
                        rhs_len: s.rhs_len,
                        origin_id: s.origin_id,
                        nullable: s.nullable,
                        events: if k < dots@.len() {
                            dots@[k].events
                        } else {
                            (0, 0, 0)
                        },
                        distances: if k < dots@.len() {
                            dots@[k].distances
                        } else {
                            (u32::MAX, u32::MAX, u32::MAX)
                        },
                    }
                },
        decreases syms@.len() - d,
    {
        let s = syms[d];
        let (events, distances) = if d < dots.len() {
            (dots[d].events, dots[d].distances)
        } else {
            ((0, 0, 0), (0xFFFF_FFFF, 0xFFFF_FFFF, 0xFFFF_FFFF))
        };
        r.push(
            RuleRecord {
                lhs: s.lhs,
                rhs0: s.rhs0,
                rhs1: s.rhs1,
                rhs_len: s.rhs_len,
                origin_id: s.origin_id,
                nullable: s.nullable,
                events,
                distances,
            },
        );
        d += 1;
    }
    proof {
        assert(r@ =~= merged_rules(syms@, dots@));
    }
    r
}

/// How many of the flags are set.
pub open spec fn count_true_spec(flags: Seq<bool>) -> int
    decreases flags.len(),
{
    if flags.len() == 0 {
        0
    } else {
        count_true_spec(flags.drop_last()) + if flags.last() {
            1int
        } else {
            0int
        }
    }
}

/// How many symbols below `upto` are gensyms of the rules.
pub open spec fn count_gensyms(rs: Seq<RuleRecord>, upto: int) -> int
    decreases upto,
{
    if upto <= 0 {
        0
    } else {
        count_gensyms(rs, upto - 1) + if is_gensym(rs, (upto - 1) as u32) {
            1int
        } else {
            0int
        }
    }
}

/// Counting set gensym flags counts the gensyms.
proof fn lemma_count_true_gensyms(flags: Seq<bool>, rs: Seq<RuleRecord>, upto: int)
    requires
        0 <= upto <= flags.len(),
        flags.len() <= u32::MAX,
        forall|s: int| 0 <= s < flags.len() ==> ((#[trigger] flags[s]) <==> is_gensym(rs, s as u32)),
    ensures
        count_true_spec(flags.take(upto)) == count_gensyms(rs, upto),
    decreases upto,
{
    if upto > 0 {
        lemma_count_true_gensyms(flags, rs, upto - 1);
        assert(flags.take(upto).drop_last() =~= flags.take(upto - 1));
        assert(flags.take(upto).last() == flags[upto - 1]);
    }
}

/// Every element of a multiset-equal sequence is an element of the
/// original.
proof fn lemma_multiset_elements(rs1: Seq<RuleRecord>, rs2: Seq<RuleRecord>)
    requires
        rs1.to_multiset() == rs2.to_multiset(),
    ensures
        forall|i: int| 0 <= i < rs2.len() ==> rs1.contains(#[trigger] rs2[i]),
{
    broadcast use vstd::seq_lib::group_to_multiset_ensures;

    assert forall|i: int| 0 <= i < rs2.len() implies rs1.contains(#[trigger] rs2[i]) by {
        assert(rs2.to_multiset().count(rs2[i]) > 0);
    }
}

/// Fitness of rules carries across a permutation.
proof fn lemma_rules_ok_permutation(rs1: Seq<RuleRecord>, rs2: Seq<RuleRecord>, nsyms: int)
    requires
        rules_ok(rs1, nsyms),
        rs1.to_multiset() == rs2.to_multiset(),
    ensures
        rules_ok(rs2, nsyms),
{
    lemma_multiset_elements(rs1, rs2);
    assert forall|i: int| 0 <= i < rs2.len() implies rule_ok(#[trigger] rs2[i], nsyms) by {
        let j = choose|j: int| 0 <= j < rs1.len() && rs1[j] == rs2[i];
    }
}

/// Copies the rule records, field for field.
fn copy_rules(rules: &Vec<RuleRecord>) -> (r: Vec<RuleRecord>)
    ensures
        r@ == rules@,
{
    let mut out: Vec<RuleRecord> = Vec::new();
    let mut i: usize = 0;
    while i < rules.len()
        invariant
            i <= rules@.len(),
            out@.len() == i,
            forall|k: int| 0 <= k < i ==> #[trigger] out@[k] == rules@[k],
        decreases rules@.len() - i,
    {
        let copied = rules[i];
        out.push(copied);
        i += 1;
    }
    proof {
        assert(out@ =~= rules@);
    }
    out
}

/// Counts the marked symbols.
fn count_true(v: &Vec<bool>) -> (r: usize)
    ensures
        r <= v@.len(),
        r == count_true_spec(v@),
{
    let mut r: usize = 0;
    let mut i: usize = 0;
    while i < v.len()
        invariant
            i <= v@.len(),
            r <= i,
            r == count_true_spec(v@.take(i as int)),
        decreases v@.len() - i,
    {
        proof {
            assert(v@.take(i + 1).drop_last() =~= v@.take(i as int));
            assert(v@.take(i + 1).last() == v@[i as int]);
        }
        if v[i] {
            r += 1;
        }
        i += 1;
    }
    proof {
        assert(v@.take(v@.len() as int) =~= v@);
    }
    r
}

/// A vector of `n` empty trace slots.
fn none_traces(n: usize) -> (r: Vec<Option<crate::grammar_api::ExternalDottedRule>>)
    ensures
        r@.len() == n,
        forall|k: int| 0 <= k < n ==> (#[trigger] r@[k]) is None,
{
    let mut r: Vec<Option<crate::grammar_api::ExternalDottedRule>> = Vec::new();
    let mut i: usize = 0;
    while i < n
        invariant
            r@.len() == i,
            i <= n,
            forall|k: int| 0 <= k < i ==> (#[trigger] r@[k]) is None,
        decreases n - i,
    {
        r.push(None);
        i += 1;
    }
    r
}

/// The rule at `d` is the wrapped start rule: headed by the root symbol
/// and ending at the end-of-input terminal `eof`.
pub open spec fn is_wrapped_start_rule(rules: Seq<RuleRecord>, d: int, root: u32, eof: u32) -> bool {
    rules[d].rhs_len == 2 && rules[d].rhs1 == eof && rules[d].lhs == root
}

/// Finds the wrapped start rule: the single wrapped root's symbols and
/// the dot of the first rule whose second right-hand symbol is the
/// end-of-input terminal. Succeeds exactly when a wrapped root with
/// in-range symbols exists and some rule ends at its end-of-input
/// terminal.
fn resolve_start(
    wrapped: &Vec<crate::cfg_support::WrappedRootRecord>,
    rules: &Vec<RuleRecord>,
    total_syms: usize,
) -> (r: Result<(Symbol, Symbol, Symbol, u32), GrammarError>)
    requires
        rules_ok(rules@, total_syms as int),
        rules@.len() <= u32::MAX,
        total_syms <= u32::MAX,
    ensures
        r is Ok <==> (wrapped@.len() > 0 && wrapped@[0].root < total_syms && wrapped@[0].inner_root
            < total_syms && wrapped@[0].end_of_input < total_syms && exists|d: int|
            0 <= d < rules@.len() && is_wrapped_start_rule(
                rules@,
                d,
                wrapped@[0].root,
                wrapped@[0].end_of_input,
            )),
        r matches Err(e) ==> e == GrammarError::MissingStart,
        r matches Ok(q) ==> {
            &&& q.0 == Symbol(wrapped@[0].root)
            &&& q.1 == Symbol(wrapped@[0].inner_root)
            &&& q.2 == Symbol(wrapped@[0].end_of_input)
            &&& q.3 < rules@.len()
            &&& is_wrapped_start_rule(rules@, q.3 as int, q.0.0, q.2.0)
            &&& forall|d: int| 0 <= d < q.3 ==> !is_wrapped_start_rule(rules@, d, q.0.0, q.2.0)
        },
{
    if wrapped.len() == 0 {
        return Err(GrammarError::MissingStart);
    }
    let wr = &wrapped[0];
    if (wr.root as usize) >= total_syms || (wr.inner_root as usize) >= total_syms || (
    wr.end_of_input as usize) >= total_syms {
        return Err(GrammarError::MissingStart);
    }
    let mut d: usize = 0;
    while d < rules.len()
        invariant
            rules_ok(rules@, total_syms as int),
            rules@.len() <= u32::MAX,
            d <= rules@.len(),
            wrapped@.len() > 0,
            wr == &wrapped@[0],
            (wr.root as usize) < total_syms,
            (wr.inner_root as usize) < total_syms,
            (wr.end_of_input as usize) < total_syms,
            forall|k: int|
                0 <= k < d ==> !is_wrapped_start_rule(rules@, k, wr.root, wr.end_of_input),
        decreases rules@.len() - d,
    {
        let rule = &rules[d];
        if rule.rhs_len == 2 && rule.rhs1 == wr.end_of_input && rule.lhs == wr.root {
            proof {
                assert(is_wrapped_start_rule(
                    rules@,
                    d as int,
                    wrapped@[0].root,
                    wrapped@[0].end_of_input,
                ));
            }
            return Ok(
                (
                    Symbol(wr.root),
                    Symbol(wr.inner_root),
                    Symbol(wr.end_of_input),
                    d as u32,
                ),
            );
        }
        d += 1;
    }
    Err(GrammarError::MissingStart)
}

/// Why preparation refuses the given extracted grammar data, if it does:
/// the checks in the order the pipeline makes them. `None` means the
/// preparation succeeds.
pub open spec fn preparation_refusal(
    syms: Seq<RuleSymsRecord>,
    dots: Seq<RuleDotRecord>,
    total: int,
    roots: int,
    wrapped: Seq<crate::cfg_support::WrappedRootRecord>,
    maps: crate::cfg_support::SymMapRecord,
) -> Option<GrammarError> {
    let rules = merged_rules(syms, dots);
    if total >= 0xFFFF_FFFF {
        Some(GrammarError::TooLarge)
    } else if total > usize::MAX as int / 4 {
        Some(GrammarError::TooLarge)
    } else if rules.len() > 0xFFFF_FFFF {
        Some(GrammarError::TooLarge)
    } else if !rules_ok(rules, total) {
        Some(GrammarError::RuleNotBinarized)
    } else if roots != 1 {
        Some(GrammarError::MultipleRoots)
    } else {
        let ns = total - count_gensyms(rules, total);
        let sorted = stable_sort(rules, true);
        let brhs = stable_sort(sorted, false);
        if !prediction_walks_ok(sorted, brhs, ns, total) {
            Some(GrammarError::GensymLookupFailed)
        } else if !completion_walks_ok(sorted, brhs, ns, total) {
            Some(GrammarError::GensymLookupFailed)
        } else if !gensym_heads_ok(sorted, ns, total - ns) {
            Some(GrammarError::MissingGenCompletion)
        } else if !raw_maps_good(maps, total) {
            Some(GrammarError::BrokenSymbolMaps)
        } else if !(wrapped.len() > 0 && wrapped[0].root < total && wrapped[0].inner_root < total
            && wrapped[0].end_of_input < total && exists|d: int|
            0 <= d < sorted.len() && is_wrapped_start_rule(
                sorted,
                d,
                wrapped[0].root,
                wrapped[0].end_of_input,
            )) {
            Some(GrammarError::MissingStart)
        } else {
            None
        }
    }
}

impl DefaultGrammar {
    /// Prepares a grammar that has already gone through the outside
    /// passes: extracts its rules, checks them, and builds every lookup
    /// table with proof.
    pub fn from_processed_grammars(
        grammar: cfg::Cfg,
        maps: crate::cfg_support::SymMapRecord,
        nulling: &cfg::Cfg,
    ) -> (r: Result<DefaultGrammar, GrammarError>)
        ensures
            r is Ok <==> preparation_refusal(
                crate::cfg_support::rule_syms_of(grammar),
                crate::cfg_support::rule_dots_of(grammar),
                crate::cfg_support::num_syms_of(grammar) as int,
                crate::cfg_support::roots_count_of(grammar) as int,
                crate::cfg_support::wrapped_roots_of(grammar),
                maps,
            ) is None,
            r matches Err(e) ==> Some(e) == preparation_refusal(
                crate::cfg_support::rule_syms_of(grammar),
                crate::cfg_support::rule_dots_of(grammar),
                crate::cfg_support::num_syms_of(grammar) as int,
                crate::cfg_support::roots_count_of(grammar) as int,
                crate::cfg_support::wrapped_roots_of(grammar),
                maps,
            ),
            r matches Ok(g) ==> g.wf(),
    {
        let ghost refusal = preparation_refusal(
            crate::cfg_support::rule_syms_of(grammar),
            crate::cfg_support::rule_dots_of(grammar),
            crate::cfg_support::num_syms_of(grammar) as int,
            crate::cfg_support::roots_count_of(grammar) as int,
            crate::cfg_support::wrapped_roots_of(grammar),
            maps,
        );
        let rule_syms = crate::cfg_support::cfg_rule_syms(&grammar);
        let rule_dots = crate::cfg_support::cfg_rule_dots(&grammar);
        let rules_raw = merge_rule_records(&rule_syms, &rule_dots);
        let total = crate::cfg_support::cfg_num_syms(&grammar);
        if total >= 0xFFFF_FFFFusize {
            proof {
                assert(refusal == Some(GrammarError::TooLarge));
            }
            return Err(GrammarError::TooLarge);
        }
        if total > usize::MAX / 4 {
            proof {
                assert(refusal == Some(GrammarError::TooLarge));
            }
            return Err(GrammarError::TooLarge);
        }
        if rules_raw.len() > 0xFFFF_FFFFusize {
            proof {
                assert(refusal == Some(GrammarError::TooLarge));
            }
            return Err(GrammarError::TooLarge);
        }
        if !validate_rules(&rules_raw, total) {
            proof {
                assert(refusal == Some(GrammarError::RuleNotBinarized));
            }
            return Err(GrammarError::RuleNotBinarized);
        }
        if crate::cfg_support::cfg_roots_count(&grammar) != 1 {
            proof {
                assert(refusal == Some(GrammarError::MultipleRoots));
            }
            return Err(GrammarError::MultipleRoots);
        }
        let gensyms = find_gensyms(&rules_raw, total);
        let num_gensyms = count_true(&gensyms);
        let num_syms = total - num_gensyms;
        let ghost raw_view = rules_raw@;
        let num_rules = rules_raw.len();
        proof {
            lemma_count_true_gensyms(gensyms@, raw_view, total as int);
            assert(gensyms@.take(total as int) =~= gensyms@);
            assert(num_gensyms == count_gensyms(raw_view, total as int));
        }
        let sorted = sort_rules(rules_raw, true);
        proof {
            lemma_rules_ok_permutation(raw_view, sorted@, total as int);
        }
        let copy = copy_rules(&sorted);
        let by_rhs0 = sort_rules(copy, false);
        proof {
            lemma_rules_ok_permutation(sorted@, by_rhs0@, total as int);
            assert(sorted@ == stable_sort(raw_view, true));
            assert(by_rhs0@ == stable_sort(sorted@, false));
        }
        let pm = match build_prediction_matrix(&sorted, &by_rhs0, num_syms, total) {
            Ok(pm) => pm,
            Err(e) => {
                proof {
                    assert(refusal == Some(GrammarError::GensymLookupFailed));
                }
                return Err(e);
            },
        };
        let table = match compute_completion_table(&sorted, &by_rhs0, num_syms, num_gensyms, total)
            {
            Ok(t) => t,
            Err(e) => {
                proof {
                    assert(refusal == Some(e));
                }
                return Err(e);
            },
        };
        let (buckets, gens) = table;
        let completions = pack_completions(buckets);
        let fs = crate::cfg_support::cfg_first_sets(&grammar);
        let fe = crate::cfg_support::cfg_first_set_entries(&fs);
        let fo = crate::cfg_support::cfg_follow_sets(&grammar, &fs);
        let foe = crate::cfg_support::cfg_follow_set_entries(&fo);
        let lr_sets = build_lr_sets(&fe, &foe, num_syms, total);
        let cols = build_rule_columns(&sorted);
        let events_pred = build_pred_events(&sorted, num_syms, total);
        let sym_maps = match check_sym_maps(&maps, total) {
            Some(m) => m,
            None => {
                proof {
                    assert(refusal == Some(GrammarError::BrokenSymbolMaps));
                }
                return Err(GrammarError::BrokenSymbolMaps);
            },
        };
        let external_syms = sym_maps.to_internal.len();
        let has_trivial_derivation = !crate::cfg_support::cfg_is_empty(nulling);
        let nulling_syms = crate::cfg_support::cfg_rule_syms(nulling);
        let nulling_dots = crate::cfg_support::cfg_rule_dots(nulling);
        let nulling_rules = merge_rule_records(&nulling_syms, &nulling_dots);
        let nulling_intermediate_rules = build_nulling_intermediates(&nulling_rules);
        let wrapped = crate::cfg_support::cfg_wrapped_roots(&grammar);
        let (start_sym, original_start_sym, eof_sym, dot_before_eof) = match resolve_start(
            &wrapped,
            &sorted,
            total,
        ) {
            Ok(q) => q,
            Err(e) => {
                proof {
                    assert(refusal == Some(GrammarError::MissingStart));
                }
                return Err(e);
            },
        };
        proof {
            assert(refusal is None);
        }
        let trace_pred = none_traces(num_syms);
        let trace_rhs1 = none_traces(num_rules);
        let trace_rhs2 = none_traces(num_rules);
        let g = DefaultGrammar {
            start_sym,
            original_start_sym,
            has_trivial_derivation,
            eof_sym,
            dot_before_eof,
            size: DefaultGrammarSize {
                syms: num_syms,
                gensyms: num_gensyms,
                rules: num_rules,
                internal_syms: total,
                external_syms,
            },
            prediction_matrix: pm,
            completions,
            gen_completions: gens,
            lr_sets,
            events_pred,
            events_rhs1: cols.events_rhs1,
            events_rhs2: cols.events_rhs2,
            trace_pred,
            trace_rhs1,
            trace_rhs2,
            nulling_eliminated: cols.nulling_eliminated,
            lhs: cols.lhs,
            rhs0: cols.rhs0,
            rhs1: cols.rhs1,
            eval: cols.eval,
            sym_maps,
            nulling_intermediate_rules,
            rules: Ghost(sorted@),
            rules_by_rhs0: Ghost(by_rhs0@),
        };
        proof {
            assert(g.wf_counts());
            assert(g.wf_rules());
            assert(g.wf_prediction());
            assert(g.wf_completions());
            assert(g.wf_rest());
            assert(g.wf());
        }
        Ok(g)
    }

    /// Prepares an external grammar from scratch: makes it proper, wraps
    /// the input, binarizes it and eliminates nulling rules, remaps the
    /// symbols, and builds the lookup tables. The outside passes decide
    /// what grammar comes out of the transformation; every acceptance
    /// decision is then made, and specified if and only if, by
    /// [`DefaultGrammar::from_processed_grammars`] on the transformed
    /// grammar. A grammar whose pre-remap form cannot carry the symbol
    /// order (oversized, or not binarized) is remapped under the empty
    /// order and refused there.
    pub fn from_grammar(grammar: cfg::Cfg) -> (r: Result<DefaultGrammar, GrammarError>)
        ensures
            r matches Ok(g) ==> g.wf(),
    {
        let mut grammar = grammar;
        crate::cfg_support::cfg_make_proper(&mut grammar);
        crate::cfg_support::cfg_wrap_input(&mut grammar);
        let nulling = crate::cfg_support::cfg_binarize_and_eliminate_nulling(&mut grammar);
        let pre_syms = crate::cfg_support::cfg_rule_syms(&grammar);
        let pre_dots = crate::cfg_support::cfg_rule_dots(&grammar);
        let pre_rules = merge_rule_records(&pre_syms, &pre_dots);
        let total = crate::cfg_support::cfg_num_syms(&grammar);
        let ranks: Vec<usize> = if total < 0xFFFF_FFFFusize && validate_rules(&pre_rules, total) {
            let gensyms = find_gensyms(&pre_rules, total);
            let order = build_order_matrix(&pre_rules, &gensyms, total);
            compute_order_ranks(&order)
        } else {
            Vec::new()
        };
        let maps = crate::cfg_support::cfg_remap_symbols(&mut grammar, &ranks);
        Self::from_processed_grammars(grammar, maps, &nulling)
    }
}

impl DefaultGrammar {
    /// Whether the start symbol derives the empty string.
    pub closed spec fn spec_has_trivial_derivation(&self) -> bool {
        self.has_trivial_derivation
    }

    /// The external id of the original start symbol's internal id.
    pub closed spec fn spec_original_start_sym(&self) -> Symbol {
        self.original_start_sym
    }

    /// The nulling symbol eliminated from rule `d`, if any.
    pub closed spec fn spec_nulling(&self, d: int) -> crate::grammar_api::NullingEliminated {
        self.nulling_eliminated@[d]
    }

    /// The external origin stored for rule `d`.
    pub closed spec fn spec_eval(&self, d: int) -> Option<u32> {
        self.eval@[d]
    }

    /// The whole second-right-hand-symbol column.
    pub closed spec fn spec_rhs1_all(&self) -> Seq<Option<Symbol>> {
        self.rhs1@
    }

    /// The events at the first right-hand dot, rule by rule.
    pub closed spec fn spec_events_rhs1(&self) -> Seq<crate::grammar_api::Event> {
        self.events_rhs1@
    }

    /// The events at the second right-hand dot, rule by rule.
    pub closed spec fn spec_events_rhs2(&self) -> Seq<crate::grammar_api::Event> {
        self.events_rhs2@
    }

    /// The nulling intermediate rules.
    pub closed spec fn spec_nulling_intermediates(&self) -> Seq<(Symbol, Symbol, Symbol)> {
        self.nulling_intermediate_rules@
    }

    /// The interleaved FIRST/FOLLOW row a dot asks for: the FIRST row of
    /// the postdot symbol of a binary rule, or the FOLLOW row of the
    /// left-hand side of a unary rule.
    pub closed spec fn spec_lr_row(&self, dot: int) -> Seq<bool> {
        match self.rhs1@[dot] {
            Some(rhs1) => self.lr_sets@[2 * rhs1.0]@,
            None => self.lr_sets@[2 * self.lhs@[dot]->Some_0.0 + 1]@,
        }
    }

    /// Some rule eliminated a nulling symbol with this id, or some
    /// nulling intermediate rule derives from it.
    pub open spec fn is_nulling_candidate(&self, v: int) -> bool {
        ||| exists|d: int|
            0 <= d < self.spec_num_rules() && (#[trigger] self.spec_nulling(d)) is Some
                && self.spec_nulling(d)->Some_0.0.0 == v
        ||| exists|k: int|
            0 <= k < self.spec_nulling_intermediates().len() && (
            #[trigger] self.spec_nulling_intermediates()[k]).1.0 == v
    }

    /// The synthesized end-of-input terminal.
    pub fn eof(&self) -> (r: Symbol)
        ensures
            r == self.spec_eof(),
    {
        self.eof_sym
    }

    /// The FIRST or FOLLOW row that scanning past `dot` consults.
    pub fn lr_set(&self, dot: u32) -> (r: &Vec<bool>)
        requires
            self.wf(),
            dot < self.spec_num_rules(),
        ensures
            r@ == self.spec_lr_row(dot as int),
            r@.len() == self.spec_internal_syms(),
    {
        match self.rhs1[dot as usize] {
            Some(rhs1) => &self.lr_sets[2 * (rhs1.0 as usize)],
            None => {
                let lhs = match self.lhs[dot as usize] {
                    Some(lhs) => lhs,
                    None => Symbol(0),
                };
                &self.lr_sets[2 * (lhs.0 as usize) + 1]
            },
        }
    }

    /// The sentinel symbol reported for useless-symbol queries.
    pub fn useless_symbol(&self) -> (r: Symbol)
        ensures
            r == self.spec_start_sym(),
    {
        self.start_sym
    }

    /// The prediction matrix row of `sym`.
    pub fn prediction_row(&self, sym: Symbol) -> (r: &Vec<bool>)
        requires
            self.wf(),
            sym.0 < self.spec_num_syms(),
        ensures
            r@.len() == self.spec_num_syms(),
            forall|b: int| 0 <= b < r@.len() ==> r@[b] == self.spec_prediction(sym.0 as int, b),
    {
        &self.prediction_matrix[sym.0 as usize]
    }

    /// How many non-gensym internal symbols there are.
    pub fn num_syms(&self) -> (r: usize)
        ensures
            r == self.spec_num_syms(),
    {
        self.size.syms
    }

    /// How many gensyms there are.
    pub fn num_gensyms(&self) -> (r: usize)
        ensures
            r == self.spec_num_gensyms(),
    {
        self.size.gensyms
    }

    /// How many rules there are.
    pub fn num_rules(&self) -> (r: usize)
        ensures
            r == self.spec_num_rules(),
    {
        self.size.rules
    }

    /// The internal start symbol.
    pub fn start_sym(&self) -> (r: Symbol)
        ensures
            r == self.spec_start_sym(),
    {
        self.start_sym
    }

    /// The external id of the original start symbol.
    pub fn externalized_start_sym(&self) -> (r: Symbol)
        requires
            self.wf(),
        ensures
            r == self.spec_to_external(self.spec_original_start_sym().0 as int),
    {
        self.to_external(self.original_start_sym)
    }

    /// Whether the start symbol derives the empty string.
    pub fn has_trivial_derivation(&self) -> (r: bool)
        ensures
            r == self.spec_has_trivial_derivation(),
    {
        self.has_trivial_derivation
    }

    /// The nulling symbol eliminated from the rule at `pos`, if any.
    pub fn nulling(&self, pos: u32) -> (r: crate::grammar_api::NullingEliminated)
        requires
            self.wf(),
        ensures
            pos < self.spec_num_rules() ==> r == self.spec_nulling(pos as int),
            pos >= self.spec_num_rules() ==> r is None,
    {
        if (pos as usize) < self.nulling_eliminated.len() {
            self.nulling_eliminated[pos as usize]
        } else {
            None
        }
    }

    /// Per-rule events at the first and second right-hand dot.
    pub fn events(&self) -> (r: (&Vec<crate::grammar_api::Event>, &Vec<crate::grammar_api::Event>))
        ensures
            r.0@ == self.spec_events_rhs1(),
            r.1@ == self.spec_events_rhs2(),
    {
        (&self.events_rhs1, &self.events_rhs2)
    }

    /// Per-rule traces at the three dots. The published history type
    /// keeps the dotted-rule fields private, so the stored traces are
    /// empty; the arrays keep the query surface and its arities.
    pub fn trace(&self) -> (r: (
        &Vec<Option<crate::grammar_api::ExternalDottedRule>>,
        &Vec<Option<crate::grammar_api::ExternalDottedRule>>,
        &Vec<Option<crate::grammar_api::ExternalDottedRule>>,
    ))
        requires
            self.wf(),
        ensures
            r.0@.len() == self.spec_num_syms(),
            r.1@.len() == self.spec_num_rules(),
            r.2@.len() == self.spec_num_rules(),
    {
        (&self.trace_pred, &self.trace_rhs1, &self.trace_rhs2)
    }

    /// The rule's second right-hand symbol, if any.
    pub fn get_rhs1(&self, dot: u32) -> (r: Option<Symbol>)
        requires
            self.wf(),
            dot < self.spec_num_rules(),
        ensures
            r == self.spec_rhs1(dot as int),
    {
        self.rhs1[dot as usize]
    }

    /// The rule's second right-hand symbol as a postdot value.
    pub fn get_rhs1_cmp(&self, dot: u32) -> (r: crate::grammar_api::MaybePostdot<Symbol>)
        requires
            self.wf(),
            dot < self.spec_num_rules(),
        ensures
            self.spec_rhs1(dot as int) matches Some(s) ==> r == crate::grammar_api::MaybePostdot::Binary(s),
            self.spec_rhs1(dot as int) is None ==> r == crate::grammar_api::MaybePostdot::<Symbol>::Unary,
    {
        match self.rhs1[dot as usize] {
            None => crate::grammar_api::MaybePostdot::Unary,
            Some(rhs1) => crate::grammar_api::MaybePostdot::Binary(rhs1),
        }
    }

    /// All second right-hand symbols, rule by rule.
    pub fn rhs1(&self) -> (r: &Vec<Option<Symbol>>)
        ensures
            r@ == self.spec_rhs1_all(),
    {
        &self.rhs1
    }

    /// The rule's left-hand side.
    pub fn get_lhs(&self, dot: u32) -> (r: Symbol)
        requires
            self.wf(),
            dot < self.spec_num_rules(),
        ensures
            Some(r) == self.spec_lhs(dot as int),
    {
        match self.lhs[dot as usize] {
            Some(lhs) => lhs,
            None => Symbol(0),
        }
    }

    /// The external rule this rule originates from, if any.
    pub fn external_origin(&self, dot: u32) -> (r: Option<u32>)
        requires
            self.wf(),
            dot < self.spec_num_rules(),
        ensures
            r == self.spec_eval(dot as int),
    {
        self.eval[dot as usize]
    }

    /// The intermediate binarized rules of the nulling subgrammar.
    pub fn eliminated_nulling_intermediate(&self) -> (r: &Vec<(Symbol, Symbol, Symbol)>)
        ensures
            r@ == self.spec_nulling_intermediates(),
    {
        &self.nulling_intermediate_rules
    }

    /// The completion transitions keyed by first right-hand symbol.
    pub fn completions(&self, sym: Symbol) -> (r: &[PredictionTransition])
        requires
            self.wf(),
            sym.0 < self.spec_num_syms(),
        ensures
            r@ == self.spec_completions(sym.0 as int),
    {
        self.completions.set_slice(sym.0 as usize)
    }

    /// The single completion transition of the gensym with relative id
    /// `sym`.
    pub fn gen_completion(&self, sym: Symbol) -> (r: PredictionTransition)
        requires
            self.wf(),
            sym.0 < self.spec_num_gensyms(),
        ensures
            r == self.spec_gen_completion(sym.0 as int),
    {
        self.gen_completions[sym.0 as usize]
    }

    /// Maps an external symbol to its internal id, if it has one.
    pub fn to_internal(&self, symbol: Symbol) -> (r: Option<Symbol>)
        requires
            self.wf(),
            self.spec_to_internal_len() == 0 || symbol.0 < self.spec_to_internal_len(),
        ensures
            r == self.spec_to_internal(symbol.0 as int),
    {
        if self.sym_maps.to_internal.len() == 0 {
            Some(symbol)
        } else {
            self.sym_maps.to_internal[symbol.0 as usize]
        }
    }

    /// Maps an internal symbol back to its external id.
    pub fn to_external(&self, symbol: Symbol) -> (r: Symbol)
        requires
            self.wf(),
            self.spec_to_external_len() == 0 || symbol.0 < self.spec_to_external_len(),
        ensures
            r == self.spec_to_external(symbol.0 as int),
    {
        if self.sym_maps.to_external.len() == 0 {
            symbol
        } else {
            self.sym_maps.to_external[symbol.0 as usize]
        }
    }

    /// The dot of the rule that ends at the end-of-input terminal.
    pub fn dot_before_eof(&self) -> (r: u32)
        ensures
            r == self.spec_dot_before_eof(),
    {
        self.dot_before_eof
    }

    /// The largest symbol id involved in nulling derivations, if any:
    /// over the eliminated nulling symbols of the rules and the head
    /// symbols of the nulling intermediate rules.
    pub fn max_nulling_symbol(&self) -> (r: Option<usize>)
        requires
            self.wf(),
        ensures
            r matches Some(m) ==> self.is_nulling_candidate(m as int) && forall|v: int|
                self.is_nulling_candidate(v) ==> v <= m,
            r is None ==> forall|v: int| !self.is_nulling_candidate(v),
    {
        let mut best: Option<usize> = None;
        let mut d: usize = 0;
        while d < self.nulling_eliminated.len()
            invariant
                self.wf(),
                d <= self.spec_num_rules(),
                match best {
                    Some(m) => (exists|x: int|
                        0 <= x < d && (#[trigger] self.spec_nulling(x)) is Some
                            && self.spec_nulling(x)->Some_0.0.0 == m) && forall|x: int|
                        0 <= x < d && (#[trigger] self.spec_nulling(x)) is Some
                            ==> self.spec_nulling(x)->Some_0.0.0 <= m,
                    None => forall|x: int|
                        0 <= x < d ==> !((#[trigger] self.spec_nulling(x)) is Some),
                },
            decreases self.spec_num_rules() - d,
        {
            let ghost pre_best = best;
            match self.nulling_eliminated[d] {
                Some((sym, _side)) => {
                    let v = sym.0 as usize;
                    match best {
                        Some(m) => {
                            if v > m {
                                best = Some(v);
                            }
                        },
                        None => {
                            best = Some(v);
                        },
                    }
                },
                None => {},
            }
            proof {
                if best is Some {
                    let m = best->Some_0;
                    if self.spec_nulling(d as int) is Some && self.spec_nulling(
                        d as int,
                    )->Some_0.0.0 == m {
                        assert(exists|x: int|
                            0 <= x < d + 1 && (#[trigger] self.spec_nulling(x)) is Some
                                && self.spec_nulling(x)->Some_0.0.0 == m);
                    } else {
                        assert(pre_best == Some(m));
                        let x0 = choose|x: int|
                            0 <= x < d && (#[trigger] self.spec_nulling(x)) is Some
                                && self.spec_nulling(x)->Some_0.0.0 == m;
                        assert(0 <= x0 < d + 1 && self.spec_nulling(x0) is Some
                            && self.spec_nulling(x0)->Some_0.0.0 == m);
                    }
                }
            }
            d += 1;
        }
        let mut k: usize = 0;
        while k < self.nulling_intermediate_rules.len()
            invariant
                self.wf(),
                k <= self.spec_nulling_intermediates().len(),
                match best {
                    Some(m) => ((exists|x: int|
                        0 <= x < self.spec_num_rules() && (#[trigger] self.spec_nulling(x)) is Some
                            && self.spec_nulling(x)->Some_0.0.0 == m) || (exists|x: int|
                        0 <= x < k && (#[trigger] self.spec_nulling_intermediates()[x]).1.0 == m))
                        && (forall|x: int|
                        0 <= x < self.spec_num_rules() && (#[trigger] self.spec_nulling(x)) is Some
                            ==> self.spec_nulling(x)->Some_0.0.0 <= m) && (forall|x: int|
                        0 <= x < k ==> (#[trigger] self.spec_nulling_intermediates()[x]).1.0 <= m),
                    None => k == 0 && (forall|x: int|
                        0 <= x < self.spec_num_rules() ==> !((#[trigger] self.spec_nulling(x))
                            is Some)),
                },
            decreases self.spec_nulling_intermediates().len() - k,
        {
            let ghost pre_best = best;
            let (_lhs, r0, _r1) = self.nulling_intermediate_rules[k];
            let v = r0.0 as usize;
            match best {
                Some(m) => {
                    if v > m {
                        best = Some(v);
                    }
                },
                None => {
                    best = Some(v);
                },
            }
            proof {
                let m = best->Some_0;
                if self.spec_nulling_intermediates()[k as int].1.0 == m {
                    assert(exists|x: int|
                        0 <= x < k + 1 && (#[trigger] self.spec_nulling_intermediates()[x]).1.0
                            == m);
                } else {
                    assert(pre_best == Some(m));
                    if exists|x: int|
                        0 <= x < k && (#[trigger] self.spec_nulling_intermediates()[x]).1.0 == m {
                        let x0 = choose|x: int|
                            0 <= x < k && (#[trigger] self.spec_nulling_intermediates()[x]).1.0
                                == m;
                        assert(0 <= x0 < k + 1 && self.spec_nulling_intermediates()[x0].1.0 == m);
                    }
                }
            }
            k += 1;
        }
        best
    }
}

/// A prepared grammar flattened into plain fields: the serializable
/// value object. [`DefaultGrammar::to_parts`] produces it and
/// [`DefaultGrammar::from_parts`] rebuilds a grammar from it, checking
/// everything the grammar's invariant needs.
pub struct GrammarParts {
    /// The internal start symbol.
    pub start_sym: Symbol,
    /// The internal id of the original start symbol.
    pub original_start_sym: Symbol,
    /// Whether the start symbol derives the empty string.
    pub has_trivial_derivation: bool,
    /// The end-of-input terminal.
    pub eof_sym: Symbol,
    /// The dot of the wrapped start rule.
    pub dot_before_eof: u32,
    /// The symbol-count bookkeeping.
    pub size: DefaultGrammarSize,
    /// The prediction matrix rows.
    pub prediction_matrix: Vec<Vec<bool>>,
    /// The completion buckets, one per non-gensym symbol.
    pub completions: Vec<Vec<PredictionTransition>>,
    /// The per-gensym completion transitions.
    pub gen_completions: Vec<PredictionTransition>,
    /// The interleaved FIRST/FOLLOW rows.
    pub lr_sets: Vec<Vec<bool>>,
    /// Prediction events per non-gensym symbol.
    pub events_pred: Vec<crate::grammar_api::Event>,
    /// Events at the first right-hand dot, rule by rule.
    pub events_rhs1: Vec<crate::grammar_api::Event>,
    /// Events at the second right-hand dot, rule by rule.
    pub events_rhs2: Vec<crate::grammar_api::Event>,
    /// Traces per non-gensym symbol.
    pub trace_pred: Vec<Option<crate::grammar_api::ExternalDottedRule>>,
    /// Traces at the first right-hand dot, rule by rule.
    pub trace_rhs1: Vec<Option<crate::grammar_api::ExternalDottedRule>>,
    /// Traces at the second right-hand dot, rule by rule.
    pub trace_rhs2: Vec<Option<crate::grammar_api::ExternalDottedRule>>,
    /// Eliminated nulling symbols, rule by rule.
    pub nulling_eliminated: Vec<Option<(Symbol, bool)>>,
    /// Left-hand sides, rule by rule.
    pub lhs: Vec<Option<Symbol>>,
    /// First right-hand symbols, rule by rule.
    pub rhs0: Vec<Option<Symbol>>,
    /// Second right-hand symbols, rule by rule.
    pub rhs1: Vec<Option<Symbol>>,
    /// External origins, rule by rule.
    pub eval: Vec<Option<u32>>,
    /// For each external symbol, its internal id, if it kept one.
    pub to_internal: Vec<Option<u32>>,
    /// For each internal symbol, its external id.
    pub to_external: Vec<u32>,
    /// The nulling intermediate rules.
    pub nulling_intermediate_rules: Vec<(Symbol, Symbol, Symbol)>,
}

/// The rule records that a grammar's column tables describe, with
/// default provenance: only the symbols matter to the invariant.
pub open spec fn rules_from_columns(
    lhs: Seq<Option<Symbol>>,
    rhs0: Seq<Option<Symbol>>,
    rhs1: Seq<Option<Symbol>>,
) -> Seq<RuleRecord> {
    Seq::new(
        lhs.len(),
        |d: int|
            RuleRecord {
                lhs: lhs[d]->Some_0.0,
                rhs0: rhs0[d]->Some_0.0,
                rhs1: if rhs1[d] is Some {
                    rhs1[d]->Some_0.0
                } else {
                    0
                },
                rhs_len: if rhs1[d] is Some {
                    2
                } else {
                    1
                },
                origin_id: u32::MAX,
                nullable: None,
                events: (0, 0, 0),
                distances: (u32::MAX, u32::MAX, u32::MAX),
            },
    )
}

/// Copies rows of booleans.
fn copy_bool_rows(rows: &Vec<Vec<bool>>) -> (r: Vec<Vec<bool>>)
    ensures
        r@.len() == rows@.len(),
        forall|i: int| 0 <= i < rows@.len() ==> (#[trigger] r@[i])@ == rows@[i]@,
{
    let mut r: Vec<Vec<bool>> = Vec::new();
    let mut i: usize = 0;
    while i < rows.len()
        invariant
            i <= rows@.len(),
            r@.len() == i,
            forall|k: int| 0 <= k < i ==> (#[trigger] r@[k])@ == rows@[k]@,
        decreases rows@.len() - i,
    {
        r.push(vstd::slice::slice_to_vec(rows[i].as_slice()));
        i += 1;
    }
    r
}

/// A completion transition checked against the parts: structural facts
/// plus the gensym-chain walk landing exactly on the named symbol.
pub open spec fn transition_checked(
    rs: Seq<RuleRecord>,
    bs: Seq<RuleRecord>,
    t: PredictionTransition,
    s: int,
    ns: int,
    total: int,
) -> bool {
    &&& t.dot < rs.len()
    &&& rs[t.dot as int].rhs0 == s
    &&& (t.is_unary <==> rs[t.dot as int].rhs_len == 1)
    &&& t.symbol.0 < ns
    &&& walk_lhs(bs, rs[t.dot as int].lhs, ns, (total + 1) as nat) == Some(t.symbol.0)
}

/// A successful walk is a chain.
proof fn lemma_walk_implies_chain(bs: Seq<RuleRecord>, start: u32, ns: int, fuel: nat, l: u32)
    requires
        walk_lhs(bs, start, ns, fuel) == Some(l),
        forall|i: int| 0 <= i < bs.len() ==> (#[trigger] bs[i]).rhs_len >= 1,
    ensures
        chain_reaches(bs, start, l, fuel),
    decreases fuel,
{
    if start < ns {
    } else {
        let i = first_rhs0_match(bs, start, 0)->Some_0;
        lemma_first_match_is_match(bs, start, 0);
        lemma_walk_implies_chain(bs, bs[i].lhs, ns, (fuel - 1) as nat, l);
    }
}

/// A first match is a match.
proof fn lemma_first_match_is_match(bs: Seq<RuleRecord>, target: u32, from: int)
    requires
        0 <= from,
        first_rhs0_match(bs, target, from) is Some,
    ensures
        ({
            let i = first_rhs0_match(bs, target, from)->Some_0;
            from <= i < bs.len() && bs[i].rhs0 == target
        }),
    decreases bs.len() - from,
{
    if from < bs.len() && bs[from].rhs0 != target {
        lemma_first_match_is_match(bs, target, from + 1);
    }
}

/// Every piece of a flattened grammar fits together: exactly the checks
/// [`DefaultGrammar::from_parts`] makes, and everything the grammar
/// invariant needs.
pub open spec fn parts_consistent(p: GrammarParts) -> bool {
    let total = p.size.internal_syms as int;
    let ns = p.size.syms as int;
    let ngen = p.size.gensyms as int;
    let nr = p.size.rules as int;
    let rs = rules_from_columns(p.lhs@, p.rhs0@, p.rhs1@);
    let bs = stable_sort(rs, false);
    &&& p.size.syms + p.size.gensyms == p.size.internal_syms
    &&& total < u32::MAX
    &&& p.size.internal_syms <= usize::MAX / 4
    &&& nr <= u32::MAX
    &&& p.lhs@.len() == nr
    &&& p.rhs0@.len() == nr
    &&& p.rhs1@.len() == nr
    &&& p.eval@.len() == nr
    &&& p.nulling_eliminated@.len() == nr
    &&& p.events_rhs1@.len() == nr
    &&& p.events_rhs2@.len() == nr
    &&& p.trace_rhs1@.len() == nr
    &&& p.trace_rhs2@.len() == nr
    &&& p.events_pred@.len() == ns
    &&& p.trace_pred@.len() == ns
    &&& forall|d: int| 0 <= d < nr ==> (#[trigger] p.lhs@[d]) is Some
    &&& forall|d: int| 0 <= d < nr ==> (#[trigger] p.rhs0@[d]) is Some
    &&& rules_ok(rs, total)
    &&& sorted_by_key(rs, true)
    &&& p.prediction_matrix@.len() == ns
    &&& forall|a: int| 0 <= a < ns ==> (#[trigger] p.prediction_matrix@[a])@.len() == ns
    &&& forall|a: int| 0 <= a < ns ==> #[trigger] p.prediction_matrix@[a]@[a]
    &&& forall|a: int, b: int, c: int|
        0 <= a < ns && 0 <= b < ns && 0 <= c < ns && p.prediction_matrix@[a]@[b]
            && p.prediction_matrix@[b]@[c] ==> p.prediction_matrix@[a]@[c]
    &&& p.completions@.len() == ns
    &&& forall|s: int, k: int|
        0 <= s < ns && 0 <= k < p.completions@[s]@.len() ==> transition_checked(
            rs,
            bs,
            #[trigger] p.completions@[s]@[k],
            s,
            ns,
            total,
        )
    &&& forall|s: int, a: int, b: int|
        0 <= s < ns && 0 <= a <= b < p.completions@[s]@.len() && (
        #[trigger] p.completions@[s]@[a]).is_unary ==> (#[trigger] p.completions@[s]@[b]).is_unary
    &&& p.gen_completions@.len() == ngen
    &&& forall|k: int|
        0 <= k < ngen ==> transition_checked(
            rs,
            bs,
            #[trigger] p.gen_completions@[k],
            ns + k,
            ns,
            total,
        )
    &&& p.lr_sets@.len() == 2 * total
    &&& forall|a: int| 0 <= a < p.lr_sets@.len() ==> (#[trigger] p.lr_sets@[a])@.len() == total
    &&& raw_maps_good(
        crate::cfg_support::SymMapRecord { to_internal: p.to_internal, to_external: p.to_external },
        total,
    )
    &&& p.to_external@.len() <= u32::MAX
    &&& p.to_internal@.len() <= u32::MAX
    &&& p.size.external_syms == p.to_internal@.len()
    &&& p.start_sym.0 < total
    &&& p.original_start_sym.0 < total
    &&& p.eof_sym.0 < total
    &&& (p.dot_before_eof as int) < nr
    &&& p.rhs1@[p.dot_before_eof as int] == Some(p.eof_sym)
    &&& p.lhs@[p.dot_before_eof as int] == Some(p.start_sym)
}

/// Keys non-decreasing between neighbours order the whole sequence.
proof fn lemma_adjacent_sorted(rs: Seq<RuleRecord>, by_lhs: bool, i: int, j: int)
    requires
        forall|k: int|
            0 <= k < rs.len() - 1 ==> rule_key_spec(#[trigger] rs[k], by_lhs) <= rule_key_spec(
                rs[k + 1],
                by_lhs,
            ),
        0 <= i <= j < rs.len(),
    ensures
        rule_key_spec(rs[i], by_lhs) <= rule_key_spec(rs[j], by_lhs),
    decreases j - i,
{
    if i < j {
        lemma_adjacent_sorted(rs, by_lhs, i, j - 1);
        assert(rule_key_spec(rs[j - 1], by_lhs) <= rule_key_spec(rs[j - 1 + 1], by_lhs));
    }
}

/// Rebuilds the rule records from the column tables, checking that every
/// rule has its symbols and that they are in range.
fn build_rules_from_columns(
    lhs: &Vec<Option<Symbol>>,
    rhs0: &Vec<Option<Symbol>>,
    rhs1: &Vec<Option<Symbol>>,
    total: usize,
) -> (r: Option<Vec<RuleRecord>>)
    requires
        lhs@.len() == rhs0@.len(),
        lhs@.len() == rhs1@.len(),
    ensures
        r is Some <==> ((forall|d: int| 0 <= d < lhs@.len() ==> (#[trigger] lhs@[d]) is Some)
            && (forall|d: int| 0 <= d < lhs@.len() ==> (#[trigger] rhs0@[d]) is Some) && rules_ok(
            rules_from_columns(lhs@, rhs0@, rhs1@),
            total as int,
        )),
        r matches Some(v) ==> v@ == rules_from_columns(lhs@, rhs0@, rhs1@),
{
    let mut out: Vec<RuleRecord> = Vec::new();
    let mut d: usize = 0;
    while d < lhs.len()
        invariant
            lhs@.len() == rhs0@.len(),
            lhs@.len() == rhs1@.len(),
            d <= lhs@.len(),
            out@.len() == d,
            forall|k: int| 0 <= k < d ==> (#[trigger] lhs@[k]) is Some,
            forall|k: int| 0 <= k < d ==> (#[trigger] rhs0@[k]) is Some,
            forall|k: int|
                0 <= k < d ==> #[trigger] out@[k] == rules_from_columns(lhs@, rhs0@, rhs1@)[k],
            forall|k: int|
                0 <= k < d ==> rule_ok(rules_from_columns(lhs@, rhs0@, rhs1@)[k], total as int),
        decreases lhs@.len() - d,
    {
        let ghost spec_rules = rules_from_columns(lhs@, rhs0@, rhs1@);
        let l = match lhs[d] {
            Some(l) => l,
            None => {
                return None;
            },
        };
        let r0 = match rhs0[d] {
            Some(r0) => r0,
            None => {
                return None;
            },
        };
        if (l.0 as usize) >= total || (r0.0 as usize) >= total {
            proof {
                assert(spec_rules[d as int].lhs == l.0 && spec_rules[d as int].rhs0 == r0.0);
                assert(!rule_ok(spec_rules[d as int], total as int));
            }
            return None;
        }
        let (r1v, rlen): (u32, usize) = match rhs1[d] {
            Some(r1) => {
                if (r1.0 as usize) >= total {
                    proof {
                        assert(spec_rules[d as int].rhs_len == 2 && spec_rules[d as int].rhs1
                            == r1.0);
                        assert(!rule_ok(spec_rules[d as int], total as int));
                    }
                    return None;
                }
                (r1.0, 2)
            },
            None => (0, 1),
        };
        out.push(
            RuleRecord {
                lhs: l.0,
                rhs0: r0.0,
                rhs1: r1v,
                rhs_len: rlen,
                origin_id: 0xFFFF_FFFF,
                nullable: None,
                events: (0, 0, 0),
                distances: (0xFFFF_FFFF, 0xFFFF_FFFF, 0xFFFF_FFFF),
            },
        );
        d += 1;
    }
    proof {
        assert(out@ =~= rules_from_columns(lhs@, rhs0@, rhs1@));
    }
    Some(out)
}

/// Checks that a matrix is square over the non-gensym symbols, reflexive
/// and transitively closed.
fn check_closed_matrix(m: &Vec<Vec<bool>>, ns: usize) -> (r: bool)
    ensures
        r == (m@.len() == ns && (forall|a: int|
            0 <= a < ns ==> (#[trigger] m@[a])@.len() == ns) && (forall|a: int|
            0 <= a < ns ==> #[trigger] m@[a]@[a]) && (forall|a: int, b: int, c: int|
            0 <= a < ns && 0 <= b < ns && 0 <= c < ns && m@[a]@[b] && m@[b]@[c] ==> m@[a]@[c])),
{
    if m.len() != ns {
        return false;
    }
    let mut a: usize = 0;
    while a < ns
        invariant
            m@.len() == ns,
            a <= ns,
            forall|x: int| 0 <= x < a ==> (#[trigger] m@[x])@.len() == ns,
            forall|x: int| 0 <= x < a ==> #[trigger] m@[x]@[x],
        decreases ns - a,
    {
        if m[a].len() != ns {
            return false;
        }
        if !m[a][a] {
            return false;
        }
        a += 1;
    }
    let mut a: usize = 0;
    while a < ns
        invariant
            m@.len() == ns,
            a <= ns,
            forall|x: int| 0 <= x < ns ==> (#[trigger] m@[x])@.len() == ns,
            forall|x: int, y: int, z: int|
                0 <= x < a && 0 <= y < ns && 0 <= z < ns && m@[x]@[y] && m@[y]@[z] ==> m@[x]@[z],
        decreases ns - a,
    {
        let mut b: usize = 0;
        while b < ns
            invariant
                m@.len() == ns,
                a < ns,
                b <= ns,
                forall|x: int| 0 <= x < ns ==> (#[trigger] m@[x])@.len() == ns,
                forall|y: int, z: int|
                    0 <= y < b && 0 <= z < ns && m@[a as int]@[y] && m@[y]@[z] ==> m@[a as int]@[z],
            decreases ns - b,
        {
            if m[a][b] {
                let mut c: usize = 0;
                while c < ns
                    invariant
                        m@.len() == ns,
                        a < ns,
                        b < ns,
                        c <= ns,
                        m@[a as int]@[b as int],
                        forall|x: int| 0 <= x < ns ==> (#[trigger] m@[x])@.len() == ns,
                        forall|z: int|
                            0 <= z < c && m@[b as int]@[z] ==> m@[a as int]@[z],
                    decreases ns - c,
                {
                    if m[b][c] && !m[a][c] {
                        return false;
                    }
                    c += 1;
                }
            }
            b += 1;
        }
        a += 1;
    }
    true
}

/// Checks one completion transition against the rebuilt rules.
fn check_one_transition(
    t: PredictionTransition,
    s: usize,
    rs: &Vec<RuleRecord>,
    bs: &Vec<RuleRecord>,
    ns: usize,
    total: usize,
) -> (r: bool)
    requires
        sorted_by_key(bs@, false),
        forall|i: int| 0 <= i < bs@.len() ==> (#[trigger] bs@[i]).rhs_len >= 1,
        total < u32::MAX,
    ensures
        r == transition_checked(rs@, bs@, t, s as int, ns as int, total as int),
{
    if (t.dot as usize) >= rs.len() {
        return false;
    }
    let rule = &rs[t.dot as usize];
    if rule.rhs0 as usize != s {
        return false;
    }
    if t.is_unary != (rule.rhs_len == 1) {
        return false;
    }
    if (t.symbol.0 as usize) >= ns {
        return false;
    }
    match effective_lhs(bs, rule.lhs, ns, total + 1) {
        Ok(l) => l == t.symbol.0,
        Err(_) => false,
    }
}

impl DefaultGrammar {
    /// Flattens the grammar into its serializable parts.
    pub fn to_parts(&self) -> (p: GrammarParts)
        requires
            self.wf(),
        ensures
            p.size == self.spec_size(),
            p.start_sym == self.spec_start_sym(),
            p.eof_sym == self.spec_eof(),
            p.dot_before_eof == self.spec_dot_before_eof(),
            p.has_trivial_derivation == self.spec_has_trivial_derivation(),
    {
        let ns = self.size.syms;
        let mut completions: Vec<Vec<PredictionTransition>> = Vec::new();
        let mut s: usize = 0;
        while s < ns
            invariant
                self.wf(),
                ns == self.spec_num_syms(),
                s <= ns,
                completions@.len() == s,
            decreases ns - s,
        {
            completions.push(vstd::slice::slice_to_vec(self.completions.set_slice(s)));
            s += 1;
        }
        let mut to_internal: Vec<Option<u32>> = Vec::new();
        let mut e: usize = 0;
        while e < self.sym_maps.to_internal.len()
            invariant
                e <= self.sym_maps.to_internal@.len(),
                to_internal@.len() == e,
            decreases self.sym_maps.to_internal@.len() - e,
        {
            match self.sym_maps.to_internal[e] {
                Some(v) => {
                    to_internal.push(Some(v.0));
                },
                None => {
                    to_internal.push(None);
                },
            }
            e += 1;
        }
        let mut to_external: Vec<u32> = Vec::new();
        let mut i: usize = 0;
        while i < self.sym_maps.to_external.len()
            invariant
                i <= self.sym_maps.to_external@.len(),
                to_external@.len() == i,
            decreases self.sym_maps.to_external@.len() - i,
        {
            to_external.push(self.sym_maps.to_external[i].0);
            i += 1;
        }
        GrammarParts {
            start_sym: self.start_sym,
            original_start_sym: self.original_start_sym,
            has_trivial_derivation: self.has_trivial_derivation,
            eof_sym: self.eof_sym,
            dot_before_eof: self.dot_before_eof,
            size: self.size,
            prediction_matrix: copy_bool_rows(&self.prediction_matrix),
            completions,
            gen_completions: vstd::slice::slice_to_vec(self.gen_completions.as_slice()),
            lr_sets: copy_bool_rows(&self.lr_sets),
            events_pred: vstd::slice::slice_to_vec(self.events_pred.as_slice()),
            events_rhs1: vstd::slice::slice_to_vec(self.events_rhs1.as_slice()),
            events_rhs2: vstd::slice::slice_to_vec(self.events_rhs2.as_slice()),
            trace_pred: vstd::slice::slice_to_vec(self.trace_pred.as_slice()),
            trace_rhs1: vstd::slice::slice_to_vec(self.trace_rhs1.as_slice()),
            trace_rhs2: vstd::slice::slice_to_vec(self.trace_rhs2.as_slice()),
            nulling_eliminated: vstd::slice::slice_to_vec(self.nulling_eliminated.as_slice()),
            lhs: vstd::slice::slice_to_vec(self.lhs.as_slice()),
            rhs0: vstd::slice::slice_to_vec(self.rhs0.as_slice()),
            rhs1: vstd::slice::slice_to_vec(self.rhs1.as_slice()),
            eval: vstd::slice::slice_to_vec(self.eval.as_slice()),
            to_internal,
            to_external,
            nulling_intermediate_rules: vstd::slice::slice_to_vec(
                self.nulling_intermediate_rules.as_slice(),
            ),
        }
    }

    /// Rebuilds a grammar from its flattened parts, checking everything
    /// the grammar invariant needs. Succeeds exactly when the parts fit
    /// together.
    #[verifier::rlimit(100)]
    #[verifier::spinoff_prover]
    pub fn from_parts(parts: GrammarParts) -> (r: Result<DefaultGrammar, GrammarError>)
        ensures
            r is Ok <==> parts_consistent(parts),
            r matches Err(e) ==> e == GrammarError::InconsistentParts,
            r matches Ok(g) ==> g.wf(),
            r matches Ok(g) ==> {
                &&& g.spec_size() == parts.size
                &&& g.spec_start_sym() == parts.start_sym
                &&& g.spec_eof() == parts.eof_sym
                &&& g.spec_dot_before_eof() == parts.dot_before_eof as int
                &&& g.spec_has_trivial_derivation() == parts.has_trivial_derivation
            },
    {
        let ghost pv = parts;
        let total = parts.size.internal_syms;
        let ns = parts.size.syms;
        let ngen = parts.size.gensyms;
        let nr = parts.size.rules;
        if total >= 0xFFFF_FFFFusize || total > usize::MAX / 4 || nr > 0xFFFF_FFFFusize || ns
            > total || total - ns != ngen {
            proof {
                if parts_consistent(pv) {
                    assert(false);
                }
            }
            return Err(GrammarError::InconsistentParts);
        }
        if parts.lhs.len() != nr || parts.rhs0.len() != nr || parts.rhs1.len() != nr
            || parts.eval.len() != nr || parts.nulling_eliminated.len() != nr
            || parts.events_rhs1.len() != nr || parts.events_rhs2.len() != nr
            || parts.trace_rhs1.len() != nr || parts.trace_rhs2.len() != nr
            || parts.events_pred.len() != ns || parts.trace_pred.len() != ns {
            proof {
                if parts_consistent(pv) {
                    assert(false);
                }
            }
            return Err(GrammarError::InconsistentParts);
        }
        let rules = match build_rules_from_columns(&parts.lhs, &parts.rhs0, &parts.rhs1, total) {
            Some(rules) => rules,
            None => {
                proof {
                    if parts_consistent(pv) {
                        assert(forall|d: int|
                            0 <= d < pv.lhs@.len() ==> (#[trigger] pv.lhs@[d]) is Some);
                        assert(forall|d: int|
                            0 <= d < pv.lhs@.len() ==> (#[trigger] pv.rhs0@[d]) is Some);
                        assert(rules_ok(
                            rules_from_columns(pv.lhs@, pv.rhs0@, pv.rhs1@),
                            total as int,
                        ));
                        assert(false);
                    }
                }
                return Err(GrammarError::InconsistentParts);
            },
        };
        let ghost rs = rules_from_columns(pv.lhs@, pv.rhs0@, pv.rhs1@);
        if nr > 0 {
            let mut k: usize = 0;
            while k < nr - 1
                invariant
                    pv == parts,
                    rs == rules_from_columns(pv.lhs@, pv.rhs0@, pv.rhs1@),
                    nr == pv.size.rules,
                    rules@ == rs,
                    rs.len() == nr,
                    nr > 0,
                    k <= nr - 1,
                    forall|x: int|
                        0 <= x < k && x + 1 < rs.len() ==> rule_key_spec(#[trigger] rs[x], true)
                            <= rule_key_spec(rs[x + 1], true),
                decreases nr - k,
            {
                if rules[k].lhs > rules[k + 1].lhs {
                    proof {
                        assert(!sorted_by_key(rs, true));
                    }
                    return Err(GrammarError::InconsistentParts);
                }
                k += 1;
            }
        }
        proof {
            assert forall|i: int, j: int| 0 <= i <= j < rs.len() implies rule_key_spec(
                #[trigger] rs[i],
                true,
            ) <= rule_key_spec(#[trigger] rs[j], true) by {
                lemma_adjacent_sorted(rs, true, i, j);
            }
            assert(sorted_by_key(rs, true));
        }
        if !check_closed_matrix(&parts.prediction_matrix, ns) {
            return Err(GrammarError::InconsistentParts);
        }
        let copy = copy_rules(&rules);
        let by_rhs0 = sort_rules(copy, false);
        proof {
            lemma_rules_ok_permutation(rs, by_rhs0@, total as int);
        }
        if parts.completions.len() != ns {
            return Err(GrammarError::InconsistentParts);
        }
        let mut s: usize = 0;
        while s < ns
            invariant
                rules@ == rs,
                rs == rules_from_columns(pv.lhs@, pv.rhs0@, pv.rhs1@),
                by_rhs0@ == stable_sort(rs, false),
                sorted_by_key(by_rhs0@, false),
                forall|i: int| 0 <= i < by_rhs0@.len() ==> (#[trigger] by_rhs0@[i]).rhs_len >= 1,
                total < u32::MAX,
                pv == parts,
                ns == pv.size.syms,
                total == pv.size.internal_syms,
                pv.completions@.len() == ns,
                s <= ns,
                forall|x: int, y: int|
                    0 <= x < s && 0 <= y < pv.completions@[x]@.len() ==> transition_checked(
                        rs,
                        by_rhs0@,
                        #[trigger] pv.completions@[x]@[y],
                        x,
                        ns as int,
                        total as int,
                    ),
                forall|x: int, a: int, b: int|
                    0 <= x < s && 0 <= a <= b < pv.completions@[x]@.len() && (
                    #[trigger] pv.completions@[x]@[a]).is_unary ==> (
                    #[trigger] pv.completions@[x]@[b]).is_unary,
            decreases ns - s,
        {
            let bucket = &parts.completions[s];
            let mut y: usize = 0;
            let mut seen_unary = false;
            while y < bucket.len()
                invariant
                    rules@ == rs,
                    rs == rules_from_columns(pv.lhs@, pv.rhs0@, pv.rhs1@),
                    by_rhs0@ == stable_sort(rs, false),
                    sorted_by_key(by_rhs0@, false),
                    forall|i: int|
                        0 <= i < by_rhs0@.len() ==> (#[trigger] by_rhs0@[i]).rhs_len >= 1,
                    total < u32::MAX,
                    pv == parts,
                    ns == pv.size.syms,
                    total == pv.size.internal_syms,
                    pv.completions@.len() == ns,
                    s < ns,
                    bucket == &pv.completions@[s as int],
                    y <= bucket@.len(),
                    seen_unary == exists|a: int|
                        0 <= a < y && (#[trigger] bucket@[a]).is_unary,
                    forall|a: int, b: int|
                        0 <= a <= b < y && (#[trigger] bucket@[a]).is_unary ==> (
                        #[trigger] bucket@[b]).is_unary,
                    forall|a: int|
                        0 <= a < y ==> transition_checked(
                            rs,
                            by_rhs0@,
                            #[trigger] bucket@[a],
                            s as int,
                            ns as int,
                            total as int,
                        ),
                decreases bucket@.len() - y,
            {
                let tr = bucket[y];
                if !check_one_transition(tr, s, &rules, &by_rhs0, ns, total) {
                    proof {
                        if parts_consistent(pv) {
                            assert(transition_checked(
                                rs,
                                by_rhs0@,
                                pv.completions@[s as int]@[y as int],
                                s as int,
                                ns as int,
                                total as int,
                            ));
                            assert(false);
                        }
                    }
                    return Err(GrammarError::InconsistentParts);
                }
                if seen_unary && !tr.is_unary {
                    proof {
                        if parts_consistent(pv) {
                            let a = choose|a: int|
                                0 <= a < y && (#[trigger] bucket@[a]).is_unary;
                            assert(pv.completions@[s as int]@[a].is_unary);
                            assert(pv.completions@[s as int]@[y as int].is_unary);
                            assert(false);
                        }
                    }
                    return Err(GrammarError::InconsistentParts);
                }
                if tr.is_unary {
                    seen_unary = true;
                }
                y += 1;
            }
            s += 1;
        }
        if parts.gen_completions.len() != ngen {
            return Err(GrammarError::InconsistentParts);
        }
        let mut kk: usize = 0;
        while kk < ngen
            invariant
                rules@ == rs,
                rs == rules_from_columns(pv.lhs@, pv.rhs0@, pv.rhs1@),
                by_rhs0@ == stable_sort(rs, false),
                sorted_by_key(by_rhs0@, false),
                forall|i: int| 0 <= i < by_rhs0@.len() ==> (#[trigger] by_rhs0@[i]).rhs_len >= 1,
                total < u32::MAX,
                ns + ngen == total,
                pv == parts,
                ns == pv.size.syms,
                ngen == pv.size.gensyms,
                total == pv.size.internal_syms,
                pv.gen_completions@.len() == ngen,
                kk <= ngen,
                forall|x: int|
                    0 <= x < kk ==> transition_checked(
                        rs,
                        by_rhs0@,
                        #[trigger] pv.gen_completions@[x],
                        ns + x,
                        ns as int,
                        total as int,
                    ),
            decreases ngen - kk,
        {
            let tr = parts.gen_completions[kk];
            if !check_one_transition(tr, ns + kk, &rules, &by_rhs0, ns, total) {
                proof {
                    if parts_consistent(pv) {
                        assert(transition_checked(
                            rs,
                            by_rhs0@,
                            pv.gen_completions@[kk as int],
                            ns + kk as int,
                            ns as int,
                            total as int,
                        ));
                        assert(false);
                    }
                }
                return Err(GrammarError::InconsistentParts);
            }
            kk += 1;
        }
        if parts.lr_sets.len() != 2 * total {
            return Err(GrammarError::InconsistentParts);
        }
        let mut a: usize = 0;
        while a < 2 * total
            invariant
                pv == parts,
                pv.lr_sets@.len() == 2 * total,
                total <= usize::MAX / 4,
                a <= 2 * total,
                forall|x: int| 0 <= x < a ==> (#[trigger] pv.lr_sets@[x])@.len() == total,
            decreases 2 * total - a,
        {
            if parts.lr_sets[a].len() != total {
                return Err(GrammarError::InconsistentParts);
            }
            a += 1;
        }
        let raw_maps = crate::cfg_support::SymMapRecord {
            to_internal: parts.to_internal,
            to_external: parts.to_external,
        };
        let sym_maps = match check_sym_maps(&raw_maps, total) {
            Some(m) => m,
            None => {
                return Err(GrammarError::InconsistentParts);
            },
        };
        if parts.size.external_syms != sym_maps.to_internal.len() {
            proof {
                assert(pv.size.external_syms != pv.to_internal@.len());
            }
            return Err(GrammarError::InconsistentParts);
        }
        if (parts.start_sym.0 as usize) >= total || (parts.original_start_sym.0 as usize) >= total
            || (parts.eof_sym.0 as usize) >= total {
            return Err(GrammarError::InconsistentParts);
        }
        if (parts.dot_before_eof as usize) >= nr {
            return Err(GrammarError::InconsistentParts);
        }
        let dot = parts.dot_before_eof as usize;
        let rhs1_at_dot = parts.rhs1[dot];
        let lhs_at_dot = parts.lhs[dot];
        if rhs1_at_dot != Some(parts.eof_sym) || lhs_at_dot != Some(parts.start_sym) {
            return Err(GrammarError::InconsistentParts);
        }
        let completions = pack_completions(parts.completions);
        let g = DefaultGrammar {
            start_sym: parts.start_sym,
            original_start_sym: parts.original_start_sym,
            has_trivial_derivation: parts.has_trivial_derivation,
            eof_sym: parts.eof_sym,
            dot_before_eof: parts.dot_before_eof,
            size: parts.size,
            prediction_matrix: parts.prediction_matrix,
            completions,
            gen_completions: parts.gen_completions,
            lr_sets: parts.lr_sets,
            events_pred: parts.events_pred,
            events_rhs1: parts.events_rhs1,
            events_rhs2: parts.events_rhs2,
            trace_pred: parts.trace_pred,
            trace_rhs1: parts.trace_rhs1,
            trace_rhs2: parts.trace_rhs2,
            nulling_eliminated: parts.nulling_eliminated,
            lhs: parts.lhs,
            rhs0: parts.rhs0,
            rhs1: parts.rhs1,
            eval: parts.eval,
            sym_maps,
            nulling_intermediate_rules: parts.nulling_intermediate_rules,
            rules: Ghost(rs),
            rules_by_rhs0: Ghost(by_rhs0@),
        };
        proof {
            assert forall|x: int, y: int|
                0 <= x < ns && 0 <= y < g.completions.set_at(x).len() implies transition_ok(
                rs,
                by_rhs0@,
                #[trigger] g.completions.set_at(x)[y],
                x,
                ns as int,
                total as int,
            ) by {
                let tr = g.completions.set_at(x)[y];
                assert(transition_checked(rs, by_rhs0@, tr, x, ns as int, total as int));
                lemma_walk_implies_chain(
                    by_rhs0@,
                    rs[tr.dot as int].lhs,
                    ns as int,
                    (total + 1) as nat,
                    tr.symbol.0,
                );
            }
            assert forall|x: int| 0 <= x < ngen implies transition_ok(
                rs,
                by_rhs0@,
                #[trigger] g.gen_completions@[x],
                ns + x,
                ns as int,
                total as int,
            ) by {
                let tr = g.gen_completions@[x];
                assert(transition_checked(rs, by_rhs0@, tr, ns + x, ns as int, total as int));
                lemma_walk_implies_chain(
                    by_rhs0@,
                    rs[tr.dot as int].lhs,
                    ns as int,
                    (total + 1) as nat,
                    tr.symbol.0,
                );
            }
            assert(g.size.syms + g.size.gensyms == g.size.internal_syms);
            assert(rules_ok(rs, total as int));
            assert(sorted_by_key(rs, true));
            assert(sorted_by_key(by_rhs0@, false));
            assert(by_rhs0@.to_multiset() == rs.to_multiset());
            assert(forall|d: int|
                0 <= d < rs.len() ==> #[trigger] g.lhs@[d] == Some(Symbol(rs[d].lhs)));
            assert(forall|d: int|
                0 <= d < rs.len() ==> #[trigger] g.rhs0@[d] == Some(Symbol(rs[d].rhs0)));
            assert(forall|d: int|
                0 <= d < rs.len() ==> #[trigger] g.rhs1@[d] == if rs[d].rhs_len == 2 {
                    Some(Symbol(rs[d].rhs1))
                } else {
                    None
                });
            assert(g.prediction_matrix@.len() == ns);
            assert(forall|a: int| 0 <= a < ns ==> #[trigger] g.prediction_matrix@[a]@[a]);
            assert(g.completions.wf() && g.completions.num_sets() == ns);
            assert(forall|s2: int, a: int, b: int|
                0 <= s2 < ns && 0 <= a <= b < g.completions.set_at(s2).len() && (
                #[trigger] g.completions.set_at(s2)[a]).is_unary ==> (
                #[trigger] g.completions.set_at(s2)[b]).is_unary);
            assert(maps_inverse(g.sym_maps));
            assert(g.sym_maps.to_external@.len() == total || g.sym_maps.to_external@.len() == 0);
            assert(g.sym_maps.to_internal@.len() == g.size.external_syms);
            assert(g.dot_before_eof < rs.len());
            assert(g.rhs1@[g.dot_before_eof as int] == Some(g.eof_sym));
            assert(g.lhs@[g.dot_before_eof as int] == Some(g.start_sym));
            assert(g.wf_counts());
            assert(g.wf_rules());
            assert(g.wf_prediction());
            assert(g.wf_completions());
            assert(g.wf_rest());
            assert(g.wf());
            assert(parts_consistent(pv));
        }
        Ok(g)
    }
}

/// The wrapped start rule is real: `dot_before_eof` indexes a rule, its
/// second right-hand symbol is the end-of-input terminal, and its
/// left-hand side is the start symbol.
pub proof fn lemma_wrapped_start_rule(g: DefaultGrammar)
    requires
        g.wf(),
    ensures
        0 <= g.spec_dot_before_eof() < g.spec_num_rules(),
        g.spec_rhs1(g.spec_dot_before_eof()) == Some(g.spec_eof()),
        g.spec_lhs(g.spec_dot_before_eof()) == Some(g.spec_start_sym()),
        g.spec_start_sym().0 < g.spec_internal_syms(),
        g.spec_eof().0 < g.spec_internal_syms(),
{
}

/// The size identities of a prepared grammar: non-gensym symbols and
/// gensyms together make up the internal id-space, which the external
/// map covers unless it is the empty identity, and the external count is
/// the internal map's length.
pub proof fn lemma_size_identities(g: DefaultGrammar)
    requires
        g.wf(),
    ensures
        g.spec_num_syms() + g.spec_num_gensyms() == g.spec_internal_syms(),
        g.spec_to_external_len() == g.spec_internal_syms() || g.spec_to_external_len() == 0,
        g.spec_external_syms() == g.spec_to_internal_len(),
        g.spec_num_rules() == g.spec_rules().len(),
{
}

/// Every built completion transition points at a rule whose head symbol
/// keys its bucket, carries that rule's effective left-hand side, a
/// non-gensym reached through the gensym chain, and tells unary from
/// binary correctly.
pub proof fn lemma_completion_transition_sound(g: DefaultGrammar, s: int, k: int)
    requires
        g.wf(),
        0 <= s < g.spec_num_syms(),
        0 <= k < g.spec_completions(s).len(),
    ensures
        transition_ok(
            g.spec_rules(),
            g.spec_rules_by_rhs0(),
            g.spec_completions(s)[k],
            s,
            g.spec_num_syms(),
            g.spec_internal_syms(),
        ),
        g.spec_completions(s)[k].symbol.0 < g.spec_num_syms(),
{
}

/// The same holds of every gensym completion transition.
pub proof fn lemma_gen_completion_sound(g: DefaultGrammar, k: int)
    requires
        g.wf(),
        0 <= k < g.spec_num_gensyms(),
    ensures
        transition_ok(
            g.spec_rules(),
            g.spec_rules_by_rhs0(),
            g.spec_gen_completion(k),
            g.spec_num_syms() + k,
            g.spec_num_syms(),
            g.spec_internal_syms(),
        ),
        g.spec_gen_completion(k).symbol.0 < g.spec_num_syms(),
{
}

/// The prediction matrix is reflexive and transitively closed.
pub proof fn lemma_prediction_matrix_closed(g: DefaultGrammar)
    requires
        g.wf(),
    ensures
        forall|a: int| 0 <= a < g.spec_num_syms() ==> #[trigger] g.spec_prediction(a, a),
        forall|a: int, b: int, c: int|
            0 <= a < g.spec_num_syms() && 0 <= b < g.spec_num_syms() && 0 <= c
                < g.spec_num_syms() && g.spec_prediction(a, b) && g.spec_prediction(b, c)
                ==> g.spec_prediction(a, c),
{
}

/// With both symbol maps non-empty, mapping an internal symbol out and
/// back is the identity.
pub proof fn lemma_sym_maps_round_trip_internal(g: DefaultGrammar, s: int)
    requires
        g.wf(),
        g.spec_to_internal_len() > 0,
        g.spec_to_external_len() > 0,
        0 <= s < g.spec_to_external_len(),
    ensures
        g.spec_to_internal(g.spec_to_external(s).0 as int) == Some(Symbol(s as u32)),
{
}

/// With both symbol maps non-empty, mapping an external symbol in and
/// back is the identity, whenever the symbol kept an internal id.
pub proof fn lemma_sym_maps_round_trip_external(g: DefaultGrammar, e: int)
    requires
        g.wf(),
        g.spec_to_internal_len() > 0,
        g.spec_to_external_len() > 0,
        0 <= e < g.spec_to_internal_len(),
        g.spec_to_internal(e) is Some,
    ensures
        g.spec_to_external(g.spec_to_internal(e)->Some_0.0 as int).0 == e,
{
}

impl crate::grammar_api::Grammar for DefaultGrammar {
    open spec fn inv(&self) -> bool {
        self.wf()
    }

    open spec fn syms_count(&self) -> int {
        self.spec_num_syms()
    }

    open spec fn gensyms_count(&self) -> int {
        self.spec_num_gensyms()
    }

    open spec fn internal_count(&self) -> int {
        self.spec_internal_syms()
    }

    open spec fn external_count(&self) -> int {
        self.spec_to_internal_len()
    }

    open spec fn rules_count(&self) -> int {
        self.spec_num_rules()
    }

    fn eof(&self) -> Symbol {
        DefaultGrammar::eof(self)
    }

    fn lr_set(&self, dot: u32) -> &Vec<bool> {
        DefaultGrammar::lr_set(self, dot)
    }

    fn prediction_row(&self, sym: Symbol) -> &Vec<bool> {
        DefaultGrammar::prediction_row(self, sym)
    }

    fn num_syms(&self) -> usize {
        DefaultGrammar::num_syms(self)
    }

    fn num_rules(&self) -> usize {
        DefaultGrammar::num_rules(self)
    }

    fn start_sym(&self) -> Symbol {
        DefaultGrammar::start_sym(self)
    }

    fn externalized_start_sym(&self) -> Symbol {
        DefaultGrammar::externalized_start_sym(self)
    }

    fn has_trivial_derivation(&self) -> bool {
        DefaultGrammar::has_trivial_derivation(self)
    }

    fn nulling(&self, pos: u32) -> crate::grammar_api::NullingEliminated {
        DefaultGrammar::nulling(self, pos)
    }

    fn events(&self) -> (&Vec<crate::grammar_api::Event>, &Vec<crate::grammar_api::Event>) {
        DefaultGrammar::events(self)
    }

    fn trace(&self) -> (
        &Vec<Option<crate::grammar_api::ExternalDottedRule>>,
        &Vec<Option<crate::grammar_api::ExternalDottedRule>>,
        &Vec<Option<crate::grammar_api::ExternalDottedRule>>,
    ) {
        DefaultGrammar::trace(self)
    }

    fn get_rhs1(&self, dot: u32) -> Option<Symbol> {
        DefaultGrammar::get_rhs1(self, dot)
    }

    fn get_rhs1_cmp(&self, dot: u32) -> crate::grammar_api::MaybePostdot<Symbol> {
        DefaultGrammar::get_rhs1_cmp(self, dot)
    }

    fn rhs1(&self) -> &Vec<Option<Symbol>> {
        DefaultGrammar::rhs1(self)
    }

    fn get_lhs(&self, dot: u32) -> Symbol {
        DefaultGrammar::get_lhs(self, dot)
    }

    fn external_origin(&self, dot: u32) -> crate::grammar_api::ExternalOrigin {
        DefaultGrammar::external_origin(self, dot)
    }

    fn eliminated_nulling_intermediate(&self) -> &Vec<crate::grammar_api::NullingIntermediateRule> {
        DefaultGrammar::eliminated_nulling_intermediate(self)
    }

    fn completions(&self, sym: Symbol) -> &[PredictionTransition] {
        DefaultGrammar::completions(self, sym)
    }

    fn gen_completion(&self, sym: Symbol) -> PredictionTransition {
        DefaultGrammar::gen_completion(self, sym)
    }

    fn to_internal(&self, symbol: Symbol) -> Option<Symbol> {
        DefaultGrammar::to_internal(self, symbol)
    }

    fn to_external(&self, symbol: Symbol) -> Symbol {
        DefaultGrammar::to_external(self, symbol)
    }

    fn max_nulling_symbol(&self) -> Option<usize> {
        DefaultGrammar::max_nulling_symbol(self)
    }

    fn dot_before_eof(&self) -> u32 {
        DefaultGrammar::dot_before_eof(self)
    }

    fn useless_symbol(&self) -> Symbol {
        DefaultGrammar::useless_symbol(self)
    }
}

} // verus!
