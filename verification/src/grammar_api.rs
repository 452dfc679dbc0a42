//! The grammar query surface shared by grammar implementations, and the
//! small value types it speaks in.

use vstd::prelude::*;

use crate::symbol::Symbol;

verus! {

/// An event id paired with a minimal distance, each optional.
pub type Event = (Option<u32>, Option<u32>);

/// A dotted position in the external grammar: rule id and dot position.
pub type ExternalDottedRule = (u32, u32);

/// The external rule a dot originates from, if any.
pub type ExternalOrigin = Option<u32>;

/// A nulling symbol eliminated from a rule, and on which side it stood.
pub type NullingEliminated = Option<(Symbol, bool)>;

/// An intermediate binarized rule of the nulling subgrammar.
pub type NullingIntermediateRule = (Symbol, Symbol, Symbol);

/// Encodes "completing the rule at `dot` contributes a prediction for
/// `symbol`"; unary and binary rules are told apart for tie-breaking.
#[derive(Copy, Clone, Debug, PartialEq, Eq, Structural)]
pub struct PredictionTransition {
    /// The non-gensym symbol predicted: the rule's effective left-hand side.
    pub symbol: Symbol,
    /// The rule this transition points at.
    pub dot: u32,
    /// Whether that rule has a right-hand side of one symbol.
    pub is_unary: bool,
}

impl Default for PredictionTransition {
    /// A transition pointing at rule zero of symbol zero.
    fn default() -> (r: Self)
        ensures
            r.symbol.0 == 0 && r.dot == 0 && !r.is_unary,
    {
        PredictionTransition { symbol: Symbol(0), dot: 0, is_unary: false }
    }
}

/// What stands after the dot once a rule's first right-hand symbol is
/// consumed: a second symbol, or nothing.
#[derive(Copy, Clone, Debug, PartialEq, Eq)]
pub enum MaybePostdot<S> {
    /// A second right-hand symbol remains.
    Binary(S),
    /// The rule is unary.
    Unary,
}

/// Why grammar preparation was refused.
#[derive(Copy, Clone, Debug, PartialEq, Eq, Structural)]
pub enum GrammarError {
    /// The grammar has no root, or more than one.
    MultipleRoots,
    /// The wrapped start rule was not found.
    MissingStart,
    /// A rule's right-hand side is empty or longer than two symbols.
    RuleNotBinarized,
    /// A gensym's real left-hand side could not be looked up.
    GensymLookupFailed,
    /// A gensym has no completion transition.
    MissingGenCompletion,
    /// The symbol maps returned by remapping are not inverse to each other.
    BrokenSymbolMaps,
    /// The grammar's tables would not fit the index types.
    TooLarge,
    /// A flattened grammar's parts do not fit together.
    InconsistentParts,
}

/// The query surface of a prepared grammar. Callers establish the
/// grammar's invariant and the index bounds; what each query returns is
/// stated on the implementing type.
pub trait Grammar {
    /// The implementing type's well-formedness invariant.
    spec fn inv(&self) -> bool;

    /// How many non-gensym internal symbols there are.
    spec fn syms_count(&self) -> int;

    /// How many gensyms there are.
    spec fn gensyms_count(&self) -> int;

    /// How many internal symbols there are in all.
    spec fn internal_count(&self) -> int;

    /// How many external symbols there are.
    spec fn external_count(&self) -> int;

    /// How many rules there are.
    spec fn rules_count(&self) -> int;

    /// The synthesized end-of-input terminal.
    fn eof(&self) -> Symbol
        requires
            self.inv(),
    ;

    /// The FIRST set (even rows) or FOLLOW set (odd rows) row for `dot`.
    fn lr_set(&self, dot: u32) -> &Vec<bool>
        requires
            self.inv(),
            (dot as int) < self.rules_count(),
    ;

    /// The prediction matrix row of `sym`.
    fn prediction_row(&self, sym: Symbol) -> &Vec<bool>
        requires
            self.inv(),
            (sym.0 as int) < self.syms_count(),
    ;

    /// How many non-gensym internal symbols there are.
    fn num_syms(&self) -> usize
        requires
            self.inv(),
    ;

    /// How many rules there are.
    fn num_rules(&self) -> usize
        requires
            self.inv(),
    ;

    /// The internal start symbol.
    fn start_sym(&self) -> Symbol
        requires
            self.inv(),
    ;

    /// The external id of the original start symbol.
    fn externalized_start_sym(&self) -> Symbol
        requires
            self.inv(),
    ;

    /// Whether the start symbol derives the empty string.
    fn has_trivial_derivation(&self) -> bool
        requires
            self.inv(),
    ;

    /// The nulling symbol eliminated from the rule at `pos`, if any.
    fn nulling(&self, pos: u32) -> NullingEliminated
        requires
            self.inv(),
    ;

    /// Per-rule events at the first and second right-hand dot.
    fn events(&self) -> (&Vec<Event>, &Vec<Event>)
        requires
            self.inv(),
    ;

    /// Per-rule traces at the three dots.
    fn trace(&self) -> (
        &Vec<Option<ExternalDottedRule>>,
        &Vec<Option<ExternalDottedRule>>,
        &Vec<Option<ExternalDottedRule>>,
    )
        requires
            self.inv(),
    ;

    /// The rule's second right-hand symbol, if any.
    fn get_rhs1(&self, dot: u32) -> Option<Symbol>
        requires
            self.inv(),
            (dot as int) < self.rules_count(),
    ;

    /// The rule's second right-hand symbol as a postdot value.
    fn get_rhs1_cmp(&self, dot: u32) -> MaybePostdot<Symbol>
        requires
            self.inv(),
            (dot as int) < self.rules_count(),
    ;

    /// All second right-hand symbols, rule by rule.
    fn rhs1(&self) -> &Vec<Option<Symbol>>
        requires
            self.inv(),
    ;

    /// The rule's left-hand side.
    fn get_lhs(&self, dot: u32) -> Symbol
        requires
            self.inv(),
            (dot as int) < self.rules_count(),
    ;

    /// The external rule this rule originates from, if any.
    fn external_origin(&self, dot: u32) -> ExternalOrigin
        requires
            self.inv(),
            (dot as int) < self.rules_count(),
    ;

    /// The intermediate binarized rules of the nulling subgrammar.
    fn eliminated_nulling_intermediate(&self) -> &Vec<NullingIntermediateRule>
        requires
            self.inv(),
    ;

    /// The completion transitions keyed by first right-hand symbol.
    fn completions(&self, sym: Symbol) -> &[PredictionTransition]
        requires
            self.inv(),
            (sym.0 as int) < self.syms_count(),
    ;

    /// The single completion transition of the gensym with relative id
    /// `sym`.
    fn gen_completion(&self, sym: Symbol) -> PredictionTransition
        requires
            self.inv(),
            (sym.0 as int) < self.gensyms_count(),
    ;

    /// Maps an external symbol to its internal id, if it has one.
    fn to_internal(&self, symbol: Symbol) -> Option<Symbol>
        requires
            self.inv(),
            self.external_count() == 0 || (symbol.0 as int) < self.external_count(),
    ;

    /// Maps an internal symbol back to its external id.
    fn to_external(&self, symbol: Symbol) -> Symbol
        requires
            self.inv(),
            (symbol.0 as int) < self.internal_count(),
    ;

    /// The largest symbol id involved in nulling derivations, if any.
    fn max_nulling_symbol(&self) -> Option<usize>
        requires
            self.inv(),
    ;

    /// The dot of the rule that ends at the end-of-input terminal.
    fn dot_before_eof(&self) -> u32
        requires
            self.inv(),
    ;

    /// The sentinel symbol reported for useless-symbol queries.
    fn useless_symbol(&self) -> Symbol
        requires
            self.inv(),
    ;
}

} // verus!
