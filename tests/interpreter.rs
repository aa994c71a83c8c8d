use l_system::symbol::{parse_symbol, parse_symbols, InterpretError, Symbol};
use l_system::turtle::{interpret, HeadingNode, Pose, Segment, Turn, Turtle};

fn seg(start: Option<usize>, heading: Option<usize>, depth: usize) -> Segment {
    Segment { start, heading, depth }
}

#[test]
fn empty_word_draws_nothing() {
    let t = interpret("").unwrap();
    assert!(t.segments.is_empty());
    assert!(t.headings.is_empty());
}

#[test]
fn single_forward_from_origin_along_initial_heading() {
    let t = interpret("F").unwrap();
    assert_eq!(t.segments, vec![seg(None, None, 0)]);
    assert!(t.headings.is_empty());
}

#[test]
fn branch_restores_position() {
    let t = interpret("[F]F").unwrap();
    assert_eq!(t.segments.len(), 2);
    assert_eq!(t.segments[0], seg(None, None, 1));
    // the second segment starts at the origin, not at the end of the first
    assert_eq!(t.segments[1], seg(None, None, 0));
}

#[test]
fn branch_restores_heading() {
    let t = interpret("F[+F]F").unwrap();
    assert_eq!(t.segments[1], seg(Some(0), Some(0), 1));
    assert_eq!(t.segments[2], seg(Some(0), None, 0));
}

#[test]
fn nested_branches_set_depth() {
    for d in 0..6usize {
        let word = format!("{}F{}", "[".repeat(d), "]".repeat(d));
        let t = interpret(&word).unwrap();
        assert_eq!(t.segments, vec![seg(None, None, d)]);
    }
}

#[test]
fn depth_does_not_compound_over_siblings() {
    let t = interpret("[F][F][[F]]F").unwrap();
    let depths: Vec<usize> = t.segments.iter().map(|s| s.depth).collect();
    assert_eq!(depths, vec![1, 1, 2, 0]);
}

#[test]
fn turns_record_sense_and_depth() {
    let t = interpret("+F-[+F]").unwrap();
    assert_eq!(
        t.headings,
        vec![
            HeadingNode { parent: None, turn: Turn { clockwise: true, depth: 0 } },
            HeadingNode { parent: Some(0), turn: Turn { clockwise: false, depth: 0 } },
            HeadingNode { parent: Some(1), turn: Turn { clockwise: true, depth: 1 } },
        ]
    );
    assert_eq!(t.segments, vec![seg(None, Some(0), 0), seg(Some(0), Some(2), 1)]);
}

#[test]
fn invalid_symbol_rejected() {
    assert_eq!(interpret("FXF").err(), Some(InterpretError::InvalidSymbol('X')));
    assert_eq!(interpret("F+ab").err(), Some(InterpretError::InvalidSymbol('a')));
    assert_eq!(interpret("FF F").err(), Some(InterpretError::InvalidSymbol(' ')));
    assert_eq!(interpret("é").err(), Some(InterpretError::InvalidSymbol('é')));
}

#[test]
fn invalid_symbol_at_end_rejects_whole_word() {
    assert!(interpret("FFFFF[+F]-F?").is_err());
}

#[test]
fn repeated_calls_agree() {
    let word = "F[+F[-F]F]-F[F]]+F";
    assert_eq!(interpret(word).unwrap(), interpret(word).unwrap());
}

#[test]
fn segment_count_matches_forward_count() {
    for word in ["", "F", "+-[]", "F+F[-F]F", "[[F]F]F]F", "FFFF"] {
        let t = interpret(word).unwrap();
        assert_eq!(t.segments.len(), word.chars().filter(|&c| c == 'F').count());
    }
}

#[test]
fn unmatched_close_is_ignored() {
    assert_eq!(interpret("F+F]").unwrap(), interpret("F+F").unwrap());
    assert_eq!(interpret("]F").unwrap(), interpret("F").unwrap());
    let t = interpret("[F]]F").unwrap();
    assert_eq!(t.segments[1], seg(None, None, 0));
}

#[test]
fn parse_single_symbols() {
    assert_eq!(parse_symbol('F'), Some(Symbol::Forward));
    assert_eq!(parse_symbol('+'), Some(Symbol::TurnRight));
    assert_eq!(parse_symbol('-'), Some(Symbol::TurnLeft));
    assert_eq!(parse_symbol('['), Some(Symbol::Push));
    assert_eq!(parse_symbol(']'), Some(Symbol::Pop));
    assert_eq!(parse_symbol('f'), None);
}

#[test]
fn parse_whole_word() {
    assert_eq!(
        parse_symbols("F[-]").unwrap(),
        vec![Symbol::Forward, Symbol::Push, Symbol::TurnLeft, Symbol::Pop]
    );
    assert_eq!(parse_symbols("F[x]y").err(), Some(InterpretError::InvalidSymbol('x')));
}

#[test]
fn turtle_step_by_step() {
    let mut t = Turtle::new();
    assert_eq!(t.depth(), 0);
    t.apply(Symbol::Forward);
    t.apply(Symbol::Push);
    assert_eq!(t.depth(), 1);
    t.apply(Symbol::TurnLeft);
    t.apply(Symbol::Forward);
    t.apply(Symbol::Pop);
    assert_eq!(t.depth(), 0);
    assert_eq!(t.pose(), Pose { position: Some(0), heading: None });
    t.apply(Symbol::Pop);
    assert_eq!(t.depth(), 0);
    assert_eq!(t.pose(), Pose { position: Some(0), heading: None });
    t.apply(Symbol::Forward);
    let trace = t.into_trace();
    assert_eq!(trace.segments, vec![seg(None, None, 0), seg(Some(0), Some(0), 1), seg(Some(0), None, 0)]);
}

#[test]
fn trace_references_point_backwards() {
    let t = interpret("F[+F[-F]+F]-F[F]]+F[[--F]F]").unwrap();
    for (i, node) in t.headings.iter().enumerate() {
        if let Some(p) = node.parent {
            assert!(p < i);
        }
    }
    for (i, s) in t.segments.iter().enumerate() {
        if let Some(j) = s.start {
            assert!(j < i);
        }
        if let Some(h) = s.heading {
            assert!(h < t.headings.len());
        }
    }
    assert_eq!(t.segments.len(), 9);
    assert_eq!(t.headings.len(), 7);
}
