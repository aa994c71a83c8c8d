//! Laws of the interpreter, proved over its model.

use vstd::prelude::*;
use crate::symbol::{
    all_symbols, is_first_invalid, is_symbol_char, symbols_of, InterpretError, Symbol,
};
use crate::turtle::{
    initial_model, interpretation, run, run_from, step, Segment, TraceModel, TurtleModel,
};

verus! {

/// How many times `c` occurs in `s`.
pub open spec fn count_char(s: Seq<char>, c: char) -> nat
    decreases s.len(),
{
    if s.len() == 0 {
        0
    } else {
        count_char(s.drop_last(), c) + if s.last() == c { 1nat } else { 0nat }
    }
}

/// Brackets opened minus brackets closed in `w`.
pub open spec fn level(w: Seq<Symbol>) -> int
    decreases w.len(),
{
    if w.len() == 0 {
        0
    } else {
        level(w.drop_last()) + match w.last() {
            Symbol::Push => 1int,
            Symbol::Pop => -1int,
            _ => 0int,
        }
    }
}

/// No prefix of `w` closes more brackets than it opens.
pub open spec fn nested(w: Seq<Symbol>) -> bool {
    forall|k: int| 0 <= k <= w.len() ==> level(#[trigger] w.take(k)) >= 0
}

/// `w` never closes a bracket it did not open, and closes all that it opens.
pub open spec fn balanced(w: Seq<Symbol>) -> bool {
    nested(w) && level(w) == 0
}

/// Running `a` and then `b` is running `a + b`.
pub proof fn lemma_run_concat(m: TurtleModel, a: Seq<Symbol>, b: Seq<Symbol>)
    ensures
        run_from(m, a + b) == run_from(run_from(m, a), b),
    decreases b.len(),
{
    if b.len() == 0 {
        assert(a + b =~= a);
    } else {
        assert((a + b).drop_last() =~= a + b.drop_last());
        lemma_run_concat(m, a, b.drop_last());
    }
}

/// Running one command is taking one step.
pub proof fn lemma_run_single(m: TurtleModel, sym: Symbol)
    ensures
        run_from(m, seq![sym]) == step(m, sym),
{
    assert(seq![sym].drop_last() =~= Seq::<Symbol>::empty());
    reveal_with_fuel(run_from, 2);
}

/// Commands that open no more brackets than they close leave the saved turtles below them alone.
pub proof fn lemma_nested_keeps_stack(m: TurtleModel, w: Seq<Symbol>)
    requires
        nested(w),
    ensures
        run_from(m, w).stack.len() == m.stack.len() + level(w),
        run_from(m, w).stack.take(m.stack.len() as int) == m.stack,
    decreases w.len(),
{
    if w.len() == 0 {
        assert(m.stack.take(m.stack.len() as int) =~= m.stack);
    } else {
        let v = w.drop_last();
        assert forall|k: int| 0 <= k <= v.len() implies level(#[trigger] v.take(k)) >= 0 by {
            assert(v.take(k) =~= w.take(k));
        }
        lemma_nested_keeps_stack(m, v);
        assert(w.take(w.len() as int) =~= w);
        let r = run_from(m, v);
        let n = m.stack.len() as int;
        match w.last() {
            Symbol::Push => {
                assert(r.stack.push(r.pose).take(n) =~= r.stack.take(n));
            },
            Symbol::Pop => {
                assert(r.stack.drop_last().take(n) =~= r.stack.take(n));
            },
            _ => {},
        }
    }
}

/// A branch restores the turtle: after `[`, any balanced commands and `]`, the
/// turtle stands where it stood before the `[`, faces the same way, at the same depth.
pub proof fn lemma_branch_restores(m: TurtleModel, w: Seq<Symbol>)
    requires
        balanced(w),
    ensures
        run_from(m, seq![Symbol::Push] + w + seq![Symbol::Pop]).pose == m.pose,
        run_from(m, seq![Symbol::Push] + w + seq![Symbol::Pop]).stack == m.stack,
{
    let opened = step(m, Symbol::Push);
    lemma_run_single(m, Symbol::Push);
    lemma_run_concat(m, seq![Symbol::Push], w);
    lemma_run_concat(m, seq![Symbol::Push] + w, seq![Symbol::Pop]);
    lemma_nested_keeps_stack(opened, w);
    let inner = run_from(opened, w);
    assert(inner.stack =~= opened.stack);
    lemma_run_single(inner, Symbol::Pop);
    assert(m.stack.push(m.pose).drop_last() =~= m.stack);
}

/// The number of segments drawn is the number of `F` in the word.
pub proof fn lemma_segment_count(s: Seq<char>)
    requires
        all_symbols(s),
    ensures
        run(symbols_of(s)).segments.len() == count_char(s, 'F'),
    decreases s.len(),
{
    if s.len() > 0 {
        let t = s.drop_last();
        assert(all_symbols(t)) by {
            assert forall|i: int| 0 <= i < t.len() implies is_symbol_char(#[trigger] t[i]) by {
                assert(t[i] == s[i]);
            }
        }
        lemma_segment_count(t);
        assert(symbols_of(s).drop_last() =~= symbols_of(t));
        assert(is_symbol_char(s[s.len() - 1]));
    }
}

/// Every word that leaves the alphabet is rejected, with its first character outside it.
pub proof fn lemma_invalid_rejected(s: Seq<char>, i: int)
    requires
        0 <= i < s.len(),
        !is_symbol_char(s[i]),
    ensures
        interpretation(s) is Err,
        exists|j: int|
            is_first_invalid(s, j) && interpretation(s) == Err::<TraceModel, InterpretError>(
                InterpretError::InvalidSymbol(s[j]),
            ),
{
    assert(!all_symbols(s));
    lemma_some_first_invalid(s, i);
    let j = choose|j: int| is_first_invalid(s, j);
    assert(is_first_invalid(s, j));
}

proof fn lemma_some_first_invalid(s: Seq<char>, i: int)
    requires
        0 <= i < s.len(),
        !is_symbol_char(s[i]),
    ensures
        exists|j: int| is_first_invalid(s, j),
    decreases i,
{
    if forall|j: int| 0 <= j < i ==> is_symbol_char(#[trigger] s[j]) {
        assert(is_first_invalid(s, i));
    } else {
        let j = choose|j: int| 0 <= j < i && !is_symbol_char(#[trigger] s[j]);
        lemma_some_first_invalid(s, j);
    }
}

/// The empty word draws nothing.
pub proof fn lemma_empty_word()
    ensures
        interpretation(Seq::empty()) == Ok::<TraceModel, InterpretError>(
            TraceModel { headings: Seq::empty(), segments: Seq::empty() },
        ),
{
    assert(symbols_of(Seq::empty()) =~= Seq::<Symbol>::empty());
}

/// A `]` after a word that leaves no branch open is ignored: the turtle ends
/// as it would without it, and the word is accepted with the same trace.
pub proof fn lemma_unmatched_close(s: Seq<char>)
    requires
        all_symbols(s),
        run(symbols_of(s)).stack.len() == 0,
    ensures
        run(symbols_of(s.push(']'))) == run(symbols_of(s)),
        interpretation(s.push(']')) == interpretation(s),
        interpretation(s) is Ok,
{
    let t = s.push(']');
    assert(all_symbols(t)) by {
        assert forall|i: int| 0 <= i < t.len() implies is_symbol_char(#[trigger] t[i]) by {
            if i < s.len() {
                assert(t[i] == s[i]);
            }
        }
    }
    assert(symbols_of(t).drop_last() =~= symbols_of(s));
}

/// `d` copies of one command.
pub open spec fn repeated(sym: Symbol, d: nat) -> Seq<Symbol> {
    Seq::new(d, |_i: int| sym)
}

/// `d` copies of one character.
pub open spec fn repeated_char(c: char, d: nat) -> Seq<char> {
    Seq::new(d, |_i: int| c)
}

pub open spec fn is_bracket(sym: Symbol) -> bool {
    sym == Symbol::Push || sym == Symbol::Pop
}

/// Brackets alone neither draw nor turn.
pub proof fn lemma_brackets_draw_nothing(m: TurtleModel, w: Seq<Symbol>)
    requires
        forall|i: int| 0 <= i < w.len() ==> is_bracket(#[trigger] w[i]),
    ensures
        run_from(m, w).segments == m.segments,
        run_from(m, w).headings == m.headings,
    decreases w.len(),
{
    if w.len() > 0 {
        let v = w.drop_last();
        assert forall|i: int| 0 <= i < v.len() implies is_bracket(#[trigger] v[i]) by {
            assert(v[i] == w[i]);
        }
        lemma_brackets_draw_nothing(m, v);
        assert(is_bracket(w[w.len() - 1]));
    }
}

/// Opening `d` branches keeps the turtle where it is and raises the depth by `d`.
pub proof fn lemma_open_branches(m: TurtleModel, d: nat)
    ensures
        run_from(m, repeated(Symbol::Push, d)).pose == m.pose,
        run_from(m, repeated(Symbol::Push, d)).stack.len() == m.stack.len() + d,
    decreases d,
{
    if d > 0 {
        assert(repeated(Symbol::Push, d).drop_last() =~= repeated(Symbol::Push, (d - 1) as nat));
        lemma_open_branches(m, (d - 1) as nat);
    }
}

/// An `F` wrapped in `d` nested branches is drawn at depth `d`, from where the
/// turtle stood, however many branches the balanced commands before it visited;
/// closing the branches draws nothing more.
pub proof fn lemma_nested_depth(u: Seq<Symbol>, d: nat)
    requires
        balanced(u),
        d <= usize::MAX,
    ensures
        run(u + repeated(Symbol::Push, d) + seq![Symbol::Forward] + repeated(Symbol::Pop, d)).segments
            == run(u).segments.push(
            Segment { start: run(u).pose.position, heading: run(u).pose.heading, depth: d as usize },
        ),
        run(u + repeated(Symbol::Push, d) + seq![Symbol::Forward] + repeated(Symbol::Pop, d)).headings
            == run(u).headings,
{
    let opens = repeated(Symbol::Push, d);
    let closes = repeated(Symbol::Pop, d);
    let f = seq![Symbol::Forward];
    lemma_nested_keeps_stack(initial_model(), u);
    let before = run(u);
    lemma_run_concat(initial_model(), u, opens);
    lemma_open_branches(before, d);
    assert forall|i: int| 0 <= i < opens.len() implies is_bracket(#[trigger] opens[i]) by {}
    lemma_brackets_draw_nothing(before, opens);
    let opened = run_from(before, opens);
    lemma_run_concat(initial_model(), u + opens, f);
    lemma_run_single(opened, Symbol::Forward);
    let drawn = step(opened, Symbol::Forward);
    lemma_run_concat(initial_model(), u + opens + f, closes);
    assert forall|i: int| 0 <= i < closes.len() implies is_bracket(#[trigger] closes[i]) by {}
    lemma_brackets_draw_nothing(drawn, closes);
}

/// The word made of `d` nested `[`, one `F` and `d` nested `]` draws a single
/// segment, from the origin along the initial heading, at depth `d`.
pub proof fn lemma_nested_word(d: nat)
    requires
        d <= usize::MAX,
    ensures
        interpretation(repeated_char('[', d) + seq!['F'] + repeated_char(']', d))
            == Ok::<TraceModel, InterpretError>(
            TraceModel {
                headings: Seq::empty(),
                segments: seq![Segment { start: None, heading: None, depth: d as usize }],
            },
        ),
{
    let s = repeated_char('[', d) + seq!['F'] + repeated_char(']', d);
    assert(all_symbols(s));
    let syms = repeated(Symbol::Push, d) + seq![Symbol::Forward] + repeated(Symbol::Pop, d);
    assert(symbols_of(s) =~= syms);
    let u = Seq::<Symbol>::empty();
    assert(balanced(u)) by {
        assert forall|k: int| 0 <= k <= u.len() implies level(#[trigger] u.take(k)) >= 0 by {
            assert(u.take(k) =~= u);
        }
    }
    assert(u + repeated(Symbol::Push, d) =~= repeated(Symbol::Push, d));
    lemma_nested_depth(u, d);
    assert(run(u) == initial_model());
    assert(Seq::<Segment>::empty().push(Segment { start: None, heading: None, depth: d as usize })
        =~= seq![Segment { start: None, heading: None, depth: d as usize }]);
}

} // verus!
