use cfg::Cfg;
use gearley::default_grammar::DefaultGrammar;
use gearley::symbol::Symbol;

fn sym_id(s: cfg::Symbol) -> u32 {
    s.usize() as u32
}

#[test]
fn trivial_empty_accepting_grammar_prepares() {
    let mut external = Cfg::new();
    let [start] = external.sym();
    external.rule(start).rhs([]);
    external.set_roots([start]);
    let g = DefaultGrammar::from_grammar(external).expect("preparation");
    assert!(g.has_trivial_derivation());
}

#[test]
fn all_nulling_with_concrete_tail_prepares() {
    let mut external = Cfg::new();
    let [start, a, b, c, d, foo] = external.sym();
    external.rule(start).rhs([a, b, c, d, foo]);
    external.rule(a).rhs([]);
    external.rule(b).rhs([]);
    external.rule(c).rhs([]);
    external.rule(d).rhs([]);
    external.set_roots([start]);
    let g = DefaultGrammar::from_grammar(external).expect("preparation");
    // the eliminated nulling symbols and intermediate rules exist
    assert!(g.max_nulling_symbol().is_some());
    let mut any_nulling = false;
    for dot in 0..g.num_rules() as u32 {
        if g.nulling(dot).is_some() {
            any_nulling = true;
        }
    }
    assert!(any_nulling || g.eliminated_nulling_intermediate().len() > 0);
}

#[test]
fn right_recursive_grammar_prepares() {
    let mut external = Cfg::new();
    let [a, x] = external.sym();
    external.rule(a).rhs([x, a]);
    external.rule(a).rhs([x]);
    external.set_roots([a]);
    let g = DefaultGrammar::from_grammar(external).expect("preparation");
    assert!(g.num_rules() >= 2);
    assert!(g.num_syms() >= 2);
    // the wrapped start rule is headed by the start symbol and ends at
    // the end-of-input terminal
    let dot = g.dot_before_eof();
    assert!((dot as usize) < g.num_rules());
    assert_eq!(g.get_rhs1(dot), Some(g.eof()));
    assert_eq!(g.get_lhs(dot), g.start_sym());
}

#[test]
fn ambiguous_grammar_prepares_with_ordered_completions() {
    let mut external = Cfg::new();
    let [e, plus, n] = external.sym();
    external.rule(e).rhs([e, plus, e]);
    external.rule(e).rhs([n]);
    external.set_roots([e]);
    let g = DefaultGrammar::from_grammar(external).expect("preparation");
    // within every completion bucket, binary-rule transitions come
    // before unary-rule transitions
    for s in 0..g.num_syms() as u32 {
        let bucket = g.completions(Symbol(s));
        let mut seen_unary = false;
        for t in bucket.iter() {
            if t.is_unary {
                seen_unary = true;
            } else {
                assert!(!seen_unary, "binary transition after a unary one");
            }
            assert!((t.symbol.0 as usize) < g.num_syms(), "gensym in a completion bucket");
            assert!((t.dot as usize) < g.num_rules());
        }
    }
}

#[test]
fn unknown_terminal_has_no_internal_mapping() {
    let mut external = Cfg::new();
    let [a, x, y] = external.sym();
    external.rule(a).rhs([x, a]);
    external.rule(a).rhs([x]);
    external.set_roots([a]);
    let g = DefaultGrammar::from_grammar(external).expect("preparation");
    // y never occurs in a rule: it is dropped by the preparation and
    // keeps no internal id
    assert_eq!(g.to_internal(Symbol(sym_id(y))), None);
    // x does occur and keeps one
    assert!(g.to_internal(Symbol(sym_id(x))).is_some());
}

#[test]
fn useless_symbol_is_excluded() {
    let mut external = Cfg::new();
    let [start, a, b] = external.sym();
    external.rule(start).rhs([a]);
    external.rule(b).rhs([b]);
    external.set_roots([start]);
    let g = DefaultGrammar::from_grammar(external).expect("preparation");
    // b is unreachable: it is gone from the internal symbols
    assert_eq!(g.to_internal(Symbol(sym_id(b))), None);
    // the sentinel for useless-symbol queries is the start symbol
    assert_eq!(g.useless_symbol(), g.start_sym());
}

#[test]
fn prediction_matrix_is_reflexive_and_transitive() {
    let mut external = Cfg::new();
    let [e, plus, n] = external.sym();
    external.rule(e).rhs([e, plus, e]);
    external.rule(e).rhs([n]);
    external.set_roots([e]);
    let g = DefaultGrammar::from_grammar(external).expect("preparation");
    let syms = g.num_syms();
    let mut rows: Vec<Vec<bool>> = Vec::new();
    for s in 0..syms as u32 {
        rows.push(g.prediction_row(Symbol(s)).clone());
    }
    for a in 0..syms {
        assert!(rows[a][a], "prediction matrix not reflexive at {}", a);
        for b in 0..syms {
            for c in 0..syms {
                if rows[a][b] && rows[b][c] {
                    assert!(rows[a][c], "prediction matrix not transitive");
                }
            }
        }
    }
}

#[test]
fn symbol_maps_round_trip() {
    let mut external = Cfg::new();
    let [start, a, b] = external.sym();
    external.rule(start).rhs([a, b]);
    external.rule(a).rhs([b]);
    external.rule(b).rhs([a]);
    external.set_roots([start]);
    let g = DefaultGrammar::from_grammar(external).expect("preparation");
    let internal_syms = g.num_syms() + g.num_gensyms();
    for s in 0..internal_syms as u32 {
        let ext = g.to_external(Symbol(s));
        assert_eq!(g.to_internal(ext), Some(Symbol(s)), "map round trip failed at {}", s);
    }
    // the externalized start symbol maps back to the internal space
    let ext_start = g.externalized_start_sym();
    assert!(g.to_internal(ext_start).is_some());
}

#[test]
fn lr_rows_cover_the_internal_symbols() {
    let mut external = Cfg::new();
    let [e, plus, n] = external.sym();
    external.rule(e).rhs([e, plus, e]);
    external.rule(e).rhs([n]);
    external.set_roots([e]);
    let g = DefaultGrammar::from_grammar(external).expect("preparation");
    let internal_syms = g.num_syms() + g.num_gensyms();
    for dot in 0..g.num_rules() as u32 {
        assert_eq!(g.lr_set(dot).len(), internal_syms);
    }
}

#[test]
fn events_and_columns_have_rule_arity() {
    let mut external = Cfg::new();
    let [a, x] = external.sym();
    external.rule(a).rhs([x, a]);
    external.rule(a).rhs([x]);
    external.set_roots([a]);
    let g = DefaultGrammar::from_grammar(external).expect("preparation");
    let (ev1, ev2) = g.events();
    assert_eq!(ev1.len(), g.num_rules());
    assert_eq!(ev2.len(), g.num_rules());
    let (tp, t1, t2) = g.trace();
    assert_eq!(tp.len(), g.num_syms());
    assert_eq!(t1.len(), g.num_rules());
    assert_eq!(t2.len(), g.num_rules());
    assert_eq!(g.rhs1().len(), g.num_rules());
    for dot in 0..g.num_rules() as u32 {
        let lhs = g.get_lhs(dot);
        assert!((lhs.0 as usize) < g.num_syms() + g.num_gensyms());
        match g.get_rhs1(dot) {
            Some(s) => assert!(
                matches!(g.get_rhs1_cmp(dot), gearley::grammar_api::MaybePostdot::Binary(b) if b == s)
            ),
            None => assert!(
                matches!(g.get_rhs1_cmp(dot), gearley::grammar_api::MaybePostdot::Unary)
            ),
        }
        let _ = g.external_origin(dot);
    }
}

#[test]
fn two_roots_are_refused() {
    let mut external = Cfg::new();
    let [a, b, x] = external.sym();
    external.rule(a).rhs([x]);
    external.rule(b).rhs([x]);
    external.set_roots([a, b]);
    assert_eq!(
        DefaultGrammar::from_grammar(external).err(),
        Some(gearley::grammar_api::GrammarError::MultipleRoots)
    );
}

#[test]
fn unbinarized_rules_are_refused_by_the_processed_entry() {
    let mut external = Cfg::new();
    let [s, a, b, c] = external.sym();
    external.rule(s).rhs([a, b, c]);
    external.set_roots([s]);
    let maps = gearley::cfg_support::SymMapRecord { to_internal: vec![], to_external: vec![] };
    let nulling = Cfg::new();
    assert_eq!(
        DefaultGrammar::from_processed_grammars(external, maps, &nulling).err(),
        Some(gearley::grammar_api::GrammarError::RuleNotBinarized)
    );
}

#[test]
fn broken_symbol_maps_are_refused() {
    let mut external = Cfg::new();
    let [s, a] = external.sym();
    external.rule(s).rhs([a]);
    external.set_roots([s]);
    // a mapping of the wrong size cannot be inverse over the symbols
    let maps = gearley::cfg_support::SymMapRecord { to_internal: vec![None], to_external: vec![5] };
    let nulling = Cfg::new();
    assert_eq!(
        DefaultGrammar::from_processed_grammars(external, maps, &nulling).err(),
        Some(gearley::grammar_api::GrammarError::BrokenSymbolMaps)
    );
}

#[test]
fn prediction_matrix_closure_reaches_the_first_symbols() {
    let mut external = Cfg::new();
    let [e, plus, n] = external.sym();
    external.rule(e).rhs([e, plus, e]);
    external.rule(e).rhs([n]);
    external.set_roots([e]);
    let g = DefaultGrammar::from_grammar(external).expect("preparation");
    let e_int = g.to_internal(Symbol(sym_id(e))).expect("e is kept");
    let n_int = g.to_internal(Symbol(sym_id(n))).expect("n is kept");
    assert_ne!(e_int, n_int);
    // expanding E eventually reaches a production whose first symbol is n
    let row = g.prediction_row(e_int);
    assert!(row[n_int.0 as usize]);
}

#[test]
fn every_rule_appears_once_across_completion_tables() {
    let mut external = Cfg::new();
    let [e, plus, n] = external.sym();
    external.rule(e).rhs([e, plus, e]);
    external.rule(e).rhs([n]);
    external.set_roots([e]);
    let g = DefaultGrammar::from_grammar(external).expect("preparation");
    let mut seen = vec![0usize; g.num_rules()];
    for s in 0..g.num_syms() as u32 {
        for t in g.completions(Symbol(s)).iter() {
            seen[t.dot as usize] += 1;
        }
    }
    for k in 0..g.num_gensyms() as u32 {
        let t = g.gen_completion(Symbol(k));
        seen[t.dot as usize] += 1;
    }
    for (dot, &count) in seen.iter().enumerate() {
        assert_eq!(count, 1, "rule {} appears {} times in the completion tables", dot, count);
    }
}

#[test]
fn prediction_matrix_closure_is_transitive_through_a_chain() {
    let mut external = Cfg::new();
    let [a, b, c, d] = external.sym();
    external.rule(a).rhs([b, c]);
    external.rule(b).rhs([d]);
    external.rule(d).rhs([c]);
    external.set_roots([a]);
    let g = DefaultGrammar::from_grammar(external).expect("preparation");
    let a_int = g.to_internal(Symbol(sym_id(a))).expect("a is kept");
    let d_int = g.to_internal(Symbol(sym_id(d))).expect("d is kept");
    // a predicts d only through b: the bit comes from the transitive
    // closure, not from any direct rule
    let row = g.prediction_row(a_int);
    assert!(row[d_int.0 as usize]);
}


#[test]
fn empty_identity_maps_are_accepted() {
    let mut external = Cfg::new();
    let [s, a] = external.sym();
    external.rule(s).rhs([a, a]);
    external.rule(a).rhs([a, s]);
    external.set_roots([s]);
    external.wrap_input();
    let nulling = external.binarize_and_eliminate_nulling_rules();
    let maps = gearley::cfg_support::SymMapRecord { to_internal: vec![], to_external: vec![] };
    let g = DefaultGrammar::from_processed_grammars(external, maps, &nulling)
        .expect("identity maps accepted");
    // empty maps read as the identity in both directions
    assert_eq!(g.to_internal(Symbol(3)), Some(Symbol(3)));
    assert_eq!(g.to_external(Symbol(2)), Symbol(2));
}

#[test]
fn grammar_round_trips_through_its_parts() {
    let mut external = Cfg::new();
    let [e, plus, n] = external.sym();
    external.rule(e).rhs([e, plus, e]);
    external.rule(e).rhs([n]);
    external.set_roots([e]);
    let g = DefaultGrammar::from_grammar(external).expect("preparation");
    let parts = g.to_parts();
    let h = DefaultGrammar::from_parts(parts).expect("parts fit together");
    assert_eq!(h.num_rules(), g.num_rules());
    assert_eq!(h.num_syms(), g.num_syms());
    assert_eq!(h.num_gensyms(), g.num_gensyms());
    assert_eq!(h.start_sym(), g.start_sym());
    assert_eq!(h.eof(), g.eof());
    assert_eq!(h.dot_before_eof(), g.dot_before_eof());
    assert_eq!(h.has_trivial_derivation(), g.has_trivial_derivation());
    for dot in 0..g.num_rules() as u32 {
        assert_eq!(h.get_lhs(dot), g.get_lhs(dot));
        assert_eq!(h.get_rhs1(dot), g.get_rhs1(dot));
        assert_eq!(h.external_origin(dot), g.external_origin(dot));
        assert_eq!(h.nulling(dot), g.nulling(dot));
    }
    for s in 0..g.num_syms() as u32 {
        assert_eq!(h.completions(Symbol(s)), g.completions(Symbol(s)));
        assert_eq!(h.prediction_row(Symbol(s)), g.prediction_row(Symbol(s)));
    }
    for k in 0..g.num_gensyms() as u32 {
        assert_eq!(h.gen_completion(Symbol(k)), g.gen_completion(Symbol(k)));
    }
}

#[test]
fn inconsistent_parts_are_refused() {
    let mut external = Cfg::new();
    let [a, x] = external.sym();
    external.rule(a).rhs([x, a]);
    external.rule(a).rhs([x]);
    external.set_roots([a]);
    let g = DefaultGrammar::from_grammar(external).expect("preparation");
    let mut parts = g.to_parts();
    // a completion transition pointing past the rules cannot fit
    if !parts.completions.is_empty() && !parts.completions[0].is_empty() {
        parts.completions[0][0].dot = parts.size.rules as u32;
    } else {
        parts.size.rules += 1;
    }
    assert_eq!(
        DefaultGrammar::from_parts(parts).err(),
        Some(gearley::grammar_api::GrammarError::InconsistentParts)
    );
}
