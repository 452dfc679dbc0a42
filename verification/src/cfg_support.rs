//! Trusted declarations for the `cfg` crate: the external grammar type,
//! its transformation passes, and extraction of its contents into plain
//! records that the preparation pipeline is verified over.
//!
//! A `Cfg` value is opaque; nothing is promised about what a pass does to
//! it. Everything the pipeline proves, it proves about the extracted plain
//! data.

use cfg::predict_sets::PredictSets;
use vstd::prelude::*;

verus! {

#[verifier::external_type_specification]
#[verifier::external_body]
pub struct ExCfg(cfg::Cfg);

#[verifier::external_type_specification]
#[verifier::external_body]
pub struct ExFirstSets(cfg::predict_sets::FirstSets);

#[verifier::external_type_specification]
#[verifier::external_body]
pub struct ExFollowSets(cfg::predict_sets::FollowSets);

/// One grammar rule as plain values: symbols are zero-based ids, an origin
/// id of `u32::MAX` stands for none, an event id of zero for none, and a
/// distance of `u32::MAX` for none. A binarized rule holds at most two
/// right-hand symbols; `rhs_len` reports the true length so that longer
/// rules can be rejected.
#[derive(Copy, Clone)]
pub struct RuleRecord {
    /// The left-hand side symbol.
    pub lhs: u32,
    /// The first right-hand symbol, or zero if the right-hand side is empty.
    pub rhs0: u32,
    /// The second right-hand symbol, or zero if there is none.
    pub rhs1: u32,
    /// How many right-hand symbols the rule really has.
    pub rhs_len: usize,
    /// The originating external rule id, `u32::MAX` for none.
    pub origin_id: u32,
    /// The nulling symbol eliminated from this rule, and on which side.
    pub nullable: Option<(u32, bool)>,
    /// Event ids at the three dots, zero for none.
    pub events: (u32, u32, u32),
    /// Distances at the three dots, `u32::MAX` for none.
    pub distances: (u32, u32, u32),
}

/// One rule's symbols and provenance, as handed out of the outside
/// grammar.
#[derive(Copy, Clone)]
pub struct RuleSymsRecord {
    /// The left-hand side symbol.
    pub lhs: u32,
    /// The first right-hand symbol, or zero if the right-hand side is empty.
    pub rhs0: u32,
    /// The second right-hand symbol, or zero if there is none.
    pub rhs1: u32,
    /// How many right-hand symbols the rule really has.
    pub rhs_len: usize,
    /// The originating external rule id, `u32::MAX` for none.
    pub origin_id: u32,
    /// The nulling symbol eliminated from this rule, and on which side.
    pub nullable: Option<(u32, bool)>,
}

/// One rule's per-dot event ids and distances, as handed out of the
/// outside grammar.
#[derive(Copy, Clone)]
pub struct RuleDotRecord {
    /// Event ids at the three dots, zero for none.
    pub events: (u32, u32, u32),
    /// Distances at the three dots, `u32::MAX` for none.
    pub distances: (u32, u32, u32),
}

/// A wrapped root rule's symbols as plain values.
pub struct WrappedRootRecord {
    /// The left-hand side of the wrapping rule.
    pub root: u32,
    /// The original start symbol inside the wrap.
    pub inner_root: u32,
    /// The synthesized start-of-input terminal.
    pub start_of_input: u32,
    /// The synthesized end-of-input terminal.
    pub end_of_input: u32,
}

/// The external-internal symbol mapping as plain values.
pub struct SymMapRecord {
    /// For each external symbol, its internal id, if it kept one.
    pub to_internal: Vec<Option<u32>>,
    /// For each internal symbol, its external id.
    pub to_external: Vec<u32>,
}

/// One FIRST or FOLLOW set as plain values.
pub struct SetEntry {
    /// The symbol the set belongs to.
    pub sym: u32,
    /// Whether the set contains the empty-string marker.
    pub has_none: bool,
    /// The symbols of the set.
    pub list: Vec<u32>,
}

/// Relies on cfg's `make_proper`: removes non-productive and unreachable
/// rules in place; says whether the grammar already was proper.
#[verifier::external_body]
pub fn cfg_make_proper(g: &mut cfg::Cfg) -> bool {
    cfg::classify::CfgClassifyExt::make_proper(g)
}

/// Relies on `Cfg::wrap_input`: wraps every root in a fresh rule
/// `root ::= start_of_input inner_root end_of_input`.
#[verifier::external_body]
pub fn cfg_wrap_input(g: &mut cfg::Cfg) {
    g.wrap_input()
}

/// Relies on `Cfg::binarize_and_eliminate_nulling_rules`: rewrites the
/// grammar to right-hand sides of at most two symbols and returns the
/// nulling subgrammar.
#[verifier::external_body]
pub fn cfg_binarize_and_eliminate_nulling(g: &mut cfg::Cfg) -> cfg::Cfg {
    g.binarize_and_eliminate_nulling_rules()
}

/// The number of symbols a grammar holds: names what `Cfg::num_syms`
/// returns, a function of the grammar value alone.
pub uninterp spec fn num_syms_of(g: cfg::Cfg) -> usize;

/// The number of roots a grammar holds: names what `Cfg::roots` hands
/// out, a function of the grammar value alone.
pub uninterp spec fn roots_count_of(g: cfg::Cfg) -> usize;

/// The wrapped roots a grammar holds, as plain records: names what
/// `Cfg::wrapped_roots` hands out, a function of the grammar value alone.
pub uninterp spec fn wrapped_roots_of(g: cfg::Cfg) -> Seq<WrappedRootRecord>;

/// The rules a grammar holds, as plain symbol records in rule order:
/// names what `Cfg::rules` hands out, a function of the grammar value
/// alone.
pub uninterp spec fn rule_syms_of(g: cfg::Cfg) -> Seq<RuleSymsRecord>;

/// The rules' per-dot event data, as plain records in rule order: names
/// what the rules' earley history dots hand out, a function of the
/// grammar value alone.
pub uninterp spec fn rule_dots_of(g: cfg::Cfg) -> Seq<RuleDotRecord>;

/// Relies on `Cfg::num_syms`.
#[verifier::external_body]
pub fn cfg_num_syms(g: &cfg::Cfg) -> (r: usize)
    ensures
        r == num_syms_of(*g),
{
    g.num_syms()
}

/// Relies on `Cfg::roots`: how many start symbols are assigned.
#[verifier::external_body]
pub fn cfg_roots_count(g: &cfg::Cfg) -> (r: usize)
    ensures
        r == roots_count_of(*g),
{
    g.roots().len()
}

/// Relies on `Cfg::is_empty`.
#[verifier::external_body]
pub fn cfg_is_empty(g: &cfg::Cfg) -> bool {
    g.is_empty()
}

/// Relies on `Cfg::wrapped_roots`: hands the wrapped roots out as plain
/// values.
#[verifier::external_body]
pub fn cfg_wrapped_roots(g: &cfg::Cfg) -> (r: Vec<WrappedRootRecord>)
    ensures
        r@ == wrapped_roots_of(*g),
{
    g.wrapped_roots().iter().map(|wr| WrappedRootRecord {
        root: wr.root.into(),
        inner_root: wr.inner_root.into(),
        start_of_input: wr.start_of_input.into(),
        end_of_input: wr.end_of_input.into(),
    }).collect()
}

/// Relies on `Cfg::rules` and the rules' earley history: hands every
/// rule's symbols and provenance out as plain values, in the grammar's
/// rule order.
#[verifier::external_body]
pub fn cfg_rule_syms(g: &cfg::Cfg) -> (r: Vec<RuleSymsRecord>)
    ensures
        r@ == rule_syms_of(*g),
{
    g.rules().map(|rule| RuleSymsRecord {
        lhs: rule.lhs.into(),
        rhs0: rule.rhs.get(0).map(|&s| s.into()).unwrap_or(0),
        rhs1: rule.rhs.get(1).map(|&s| s.into()).unwrap_or(0),
        rhs_len: rule.rhs.len(),
        origin_id: rule.history.origin().id,
        nullable: rule.history.nullable().map(|(s, side)| (s.into(), side)),
    }).collect()
}

/// Relies on the rules' earley history dots: hands every rule's per-dot
/// event ids and distances out as plain values, in the grammar's rule
/// order.
#[verifier::external_body]
pub fn cfg_rule_dots(g: &cfg::Cfg) -> (r: Vec<RuleDotRecord>)
    ensures
        r@ == rule_dots_of(*g),
{
    g.rules().map(|rule| RuleDotRecord {
        events: (rule.history.dot(0).event().id, rule.history.dot(1).event().id,
            rule.history.dot(2).event().id),
        distances: (rule.history.dot(0).distance().distance,
            rule.history.dot(1).distance().distance, rule.history.dot(2).distance().distance),
    }).collect()
}

/// Relies on cfg's `Remap`: removes unused symbols, reorders symbols by
/// the given ranks, rewrites the grammar in place, and returns the
/// resulting external-internal mapping as plain values.
#[verifier::external_body]
pub fn cfg_remap_symbols(g: &mut cfg::Cfg, ranks: &Vec<usize>) -> SymMapRecord {
    let mut remap = cfg::symbol_bit_matrix::Remap::new(g);
    remap.remove_unused_symbols();
    remap.reorder_symbols(|left, right| {
        match crate::default_grammar::order_cmp(ranks, left.usize(), right.usize()) {
            -1 => std::cmp::Ordering::Less,
            1 => std::cmp::Ordering::Greater,
            _ => std::cmp::Ordering::Equal,
        }
    });
    let mapping = remap.get_mapping();
    SymMapRecord {
        to_internal: mapping.to_internal.iter().map(|o| o.map(|s| s.into())).collect(),
        to_external: mapping.to_external.iter().map(|&s| s.into()).collect(),
    }
}

/// Relies on `FirstSets::new`: computes the FIRST sets of the grammar.
#[verifier::external_body]
pub fn cfg_first_sets(g: &cfg::Cfg) -> cfg::predict_sets::FirstSets {
    cfg::predict_sets::FirstSets::new(g)
}

/// Relies on `FollowSets::new`: computes the FOLLOW sets of the grammar
/// from its FIRST sets.
#[verifier::external_body]
pub fn cfg_follow_sets(
    g: &cfg::Cfg,
    first: &cfg::predict_sets::FirstSets,
) -> cfg::predict_sets::FollowSets {
    cfg::predict_sets::FollowSets::new(g, first.predict_sets())
}

/// Relies on `PredictSets::predict_sets` of `FirstSets`: hands the
/// computed sets out as plain values, one entry per symbol.
#[verifier::external_body]
pub fn cfg_first_set_entries(first: &cfg::predict_sets::FirstSets) -> Vec<SetEntry> {
    first.predict_sets().iter().map(|(k, v)| SetEntry {
        sym: (*k).into(),
        has_none: v.has_none,
        list: v.list.iter().map(|&s| s.into()).collect(),
    }).collect()
}

/// Relies on `PredictSets::predict_sets` of `FollowSets`: hands the
/// computed sets out as plain values, one entry per symbol.
#[verifier::external_body]
pub fn cfg_follow_set_entries(follow: &cfg::predict_sets::FollowSets) -> Vec<SetEntry> {
    follow.predict_sets().iter().map(|(k, v)| SetEntry {
        sym: (*k).into(),
        has_none: v.has_none,
        list: v.list.iter().map(|&s| s.into()).collect(),
    }).collect()
}

} // verus!
