//! The turtle: its state, the branch stack, and the trace that it leaves.
//!
//! Positions and headings are kept by reference rather than by value. A
//! position is the end of an earlier segment (or the origin), a heading is a
//! node of the heading tree (or the initial heading, straight up). A node
//! records one turn: the heading it starts from, its sense and the bracket
//! depth at which it was made, so that one exact rotation per node gives the
//! heading. A segment records its start, its heading and its depth; its length
//! is the base length times the scale factor raised to that depth.

use vstd::prelude::*;
use crate::laws::{count_char, lemma_segment_count};
use crate::symbol::{all_symbols, parse_symbols, validation, InterpretError, Symbol};

verus! {

/// One turn of the turtle.
#[derive(Clone, Copy, Debug, PartialEq, Eq, Structural)]
pub struct Turn {
    /// `true` for `+`, `false` for `-`.
    pub clockwise: bool,
    /// The bracket depth at which the turn was made.
    pub depth: usize,
}

/// A heading: the heading `parent` (the initial one where `None`) turned by `turn`.
#[derive(Clone, Copy, Debug, PartialEq, Eq, Structural)]
pub struct HeadingNode {
    pub parent: Option<usize>,
    pub turn: Turn,
}

/// A drawn segment.
#[derive(Clone, Copy, Debug, PartialEq, Eq, Structural)]
pub struct Segment {
    /// The segment whose end this one starts at; `None` for the origin.
    pub start: Option<usize>,
    /// The heading node it follows; `None` for the initial heading.
    pub heading: Option<usize>,
    /// The bracket depth at which it was drawn.
    pub depth: usize,
}

/// Where the turtle stands and which way it faces.
#[derive(Clone, Copy, Debug, PartialEq, Eq, Structural)]
pub struct Pose {
    /// The segment whose end is the position; `None` for the origin.
    pub position: Option<usize>,
    /// The heading node; `None` for the initial heading.
    pub heading: Option<usize>,
}

/// What a run leaves behind: the heading tree and the segments, in drawing order.
#[derive(Clone, Debug, PartialEq, Eq)]
pub struct TurtleTrace {
    pub headings: Vec<HeadingNode>,
    pub segments: Vec<Segment>,
}

pub ghost struct TraceModel {
    pub headings: Seq<HeadingNode>,
    pub segments: Seq<Segment>,
}

impl TraceModel {
    /// Every reference points backwards: a node's parent and a segment's start
    /// come earlier, and a segment's heading is a node of the tree.
    pub open spec fn well_formed(self) -> bool {
        &&& forall|i: int|
            0 <= i < self.headings.len() ==> match (#[trigger] self.headings[i]).parent {
                Some(p) => p < i,
                None => true,
            }
        &&& forall|i: int|
            0 <= i < self.segments.len() ==> match (#[trigger] self.segments[i]).start {
                Some(j) => j < i,
                None => true,
            }
        &&& forall|i: int|
            0 <= i < self.segments.len() ==> match (#[trigger] self.segments[i]).heading {
                Some(h) => h < self.headings.len(),
                None => true,
            }
    }
}

impl View for TurtleTrace {
    type V = TraceModel;

    open spec fn view(&self) -> TraceModel {
        TraceModel { headings: self.headings@, segments: self.segments@ }
    }
}

/// The whole state of the turtle. The bracket depth is the height of the stack.
pub ghost struct TurtleModel {
    pub pose: Pose,
    pub stack: Seq<Pose>,
    pub headings: Seq<HeadingNode>,
    pub segments: Seq<Segment>,
}

impl TurtleModel {
    pub open spec fn depth(self) -> nat {
        self.stack.len()
    }

    pub open spec fn trace(self) -> TraceModel {
        TraceModel { headings: self.headings, segments: self.segments }
    }

    /// The pose refers to the trace drawn so far.
    pub open spec fn pose_in_trace(self, p: Pose) -> bool {
        &&& match p.position {
            Some(j) => j < self.segments.len(),
            None => true,
        }
        &&& match p.heading {
            Some(h) => h < self.headings.len(),
            None => true,
        }
    }

    /// The trace is well formed, and the pose and every saved pose refer to it.
    pub open spec fn well_formed(self) -> bool {
        &&& self.trace().well_formed()
        &&& self.pose_in_trace(self.pose)
        &&& forall|k: int| 0 <= k < self.stack.len() ==> self.pose_in_trace(#[trigger] self.stack[k])
    }
}

pub open spec fn initial_pose() -> Pose {
    Pose { position: None, heading: None }
}

pub open spec fn initial_model() -> TurtleModel {
    TurtleModel {
        pose: initial_pose(),
        stack: Seq::empty(),
        headings: Seq::empty(),
        segments: Seq::empty(),
    }
}

/// A turn adds a node to the heading tree and faces the turtle along it.
pub open spec fn turned(m: TurtleModel, clockwise: bool) -> TurtleModel {
    TurtleModel {
        pose: Pose { position: m.pose.position, heading: Some(m.headings.len() as usize) },
        stack: m.stack,
        headings: m.headings.push(
            HeadingNode {
                parent: m.pose.heading,
                turn: Turn { clockwise, depth: m.depth() as usize },
            },
        ),
        segments: m.segments,
    }
}

/// What one command does to the turtle.
pub open spec fn step(m: TurtleModel, sym: Symbol) -> TurtleModel {
    match sym {
        Symbol::Forward => TurtleModel {
            pose: Pose { position: Some(m.segments.len() as usize), heading: m.pose.heading },
            stack: m.stack,
            headings: m.headings,
            segments: m.segments.push(
                Segment {
                    start: m.pose.position,
                    heading: m.pose.heading,
                    depth: m.depth() as usize,
                },
            ),
        },
        Symbol::TurnRight => turned(m, true),
        Symbol::TurnLeft => turned(m, false),
        Symbol::Push => TurtleModel {
            pose: m.pose,
            stack: m.stack.push(m.pose),
            headings: m.headings,
            segments: m.segments,
        },
        Symbol::Pop => if m.stack.len() > 0 {
            TurtleModel {
                pose: m.stack.last(),
                stack: m.stack.drop_last(),
                headings: m.headings,
                segments: m.segments,
            }
        } else {
            m
        },
    }
}

/// The turtle after the commands `syms`, from the state `m`.
pub open spec fn run_from(m: TurtleModel, syms: Seq<Symbol>) -> TurtleModel
    decreases syms.len(),
{
    if syms.len() == 0 {
        m
    } else {
        step(run_from(m, syms.drop_last()), syms.last())
    }
}

/// The turtle after the commands `syms`, from the start.
pub open spec fn run(syms: Seq<Symbol>) -> TurtleModel {
    run_from(initial_model(), syms)
}

/// What interpreting the word `s` gives: its trace, or the first character outside the alphabet.
pub open spec fn interpretation(s: Seq<char>) -> Result<TraceModel, InterpretError> {
    match validation(s) {
        Ok(syms) => Ok(run(syms).trace()),
        Err(e) => Err(e),
    }
}

/// A turtle in the middle of a run.
pub struct Turtle {
    pose: Pose,
    stack: Vec<Pose>,
    headings: Vec<HeadingNode>,
    segments: Vec<Segment>,
}

impl View for Turtle {
    type V = TurtleModel;

    closed spec fn view(&self) -> TurtleModel {
        TurtleModel {
            pose: self.pose,
            stack: self.stack@,
            headings: self.headings@,
            segments: self.segments@,
        }
    }
}

impl Turtle {
    /// A turtle at the origin, facing the initial heading, with an empty stack.
    pub fn new() -> (t: Turtle)
        ensures
            t@ == initial_model(),
    {
        let t = Turtle {
            pose: Pose { position: None, heading: None },
            stack: Vec::new(),
            headings: Vec::new(),
            segments: Vec::new(),
        };
        assert(t@.stack =~= Seq::<Pose>::empty());
        assert(t@.headings =~= Seq::<HeadingNode>::empty());
        assert(t@.segments =~= Seq::<Segment>::empty());
        t
    }

    /// The bracket depth: how many branches are open.
    pub fn depth(&self) -> (d: usize)
        ensures
            d == self@.depth(),
    {
        self.stack.len()
    }

    /// Where the turtle stands and which way it faces.
    pub fn pose(&self) -> (p: Pose)
        ensures
            p == self@.pose,
    {
        self.pose
    }

    /// Carries out one command.
    pub fn apply(&mut self, sym: Symbol)
        requires
            old(self)@.stack.len() < usize::MAX,
            old(self)@.headings.len() < usize::MAX,
            old(self)@.segments.len() < usize::MAX,
        ensures
            final(self)@ == step(old(self)@, sym),
    {
        let depth = self.stack.len();
        match sym {
            Symbol::Forward => {
                let end = self.segments.len();
                self.segments.push(
                    Segment { start: self.pose.position, heading: self.pose.heading, depth },
                );
                self.pose = Pose { position: Some(end), heading: self.pose.heading };
            },
            Symbol::TurnRight | Symbol::TurnLeft => {
                let node = self.headings.len();
                let clockwise = match sym {
                    Symbol::TurnRight => true,
                    _ => false,
                };
                self.headings.push(
                    HeadingNode { parent: self.pose.heading, turn: Turn { clockwise, depth } },
                );
                self.pose = Pose { position: self.pose.position, heading: Some(node) };
            },
            Symbol::Push => {
                self.stack.push(self.pose);
            },
            Symbol::Pop => {
                match self.stack.pop() {
                    Some(saved) => {
                        self.pose = saved;
                    },
                    None => {},
                }
            },
        }
    }

    /// Ends the run and hands out the trace.
    pub fn into_trace(self) -> (t: TurtleTrace)
        ensures
            t@ == self@.trace(),
    {
        TurtleTrace { headings: self.headings, segments: self.segments }
    }
}

/// Every step keeps the turtle well formed.
pub proof fn lemma_step_well_formed(m: TurtleModel, sym: Symbol)
    requires
        m.well_formed(),
    ensures
        step(m, sym).well_formed(),
{
    let n = step(m, sym);
    if sym == Symbol::Pop && m.stack.len() > 0 {
        assert(m.pose_in_trace(m.stack[m.stack.len() - 1]));
    }
    assert forall|k: int| 0 <= k < n.stack.len() implies n.pose_in_trace(#[trigger] n.stack[k]) by {
        if k < m.stack.len() {
            assert(m.pose_in_trace(m.stack[k]));
        }
    }
    assert forall|i: int| 0 <= i < n.headings.len() implies match (#[trigger] n.headings[i]).parent {
        Some(p) => p < i,
        None => true,
    } by {
        if i < m.headings.len() {
            assert(n.headings[i] == m.headings[i]);
        }
    }
    assert forall|i: int| 0 <= i < n.segments.len() implies match (#[trigger] n.segments[i]).start {
        Some(j) => j < i,
        None => true,
    } && match n.segments[i].heading {
        Some(h) => h < n.headings.len(),
        None => true,
    } by {
        if i < m.segments.len() {
            assert(n.segments[i] == m.segments[i]);
        }
    }
}

/// A run from the start leaves a well-formed turtle.
pub proof fn lemma_run_well_formed(syms: Seq<Symbol>)
    ensures
        run(syms).well_formed(),
    decreases syms.len(),
{
    if syms.len() > 0 {
        lemma_run_well_formed(syms.drop_last());
        lemma_step_well_formed(run(syms.drop_last()), syms.last());
    }
}

/// Each command adds at most one entry to the stack, the heading tree or the segments.
proof fn lemma_run_growth(syms: Seq<Symbol>)
    ensures
        run(syms).stack.len() <= syms.len(),
        run(syms).headings.len() <= syms.len(),
        run(syms).segments.len() <= syms.len(),
    decreases syms.len(),
{
    if syms.len() > 0 {
        lemma_run_growth(syms.drop_last());
    }
}

/// Interprets an expanded L-system word.
///
/// The whole word is checked before the turtle moves: a character outside
/// `F + - [ ]` fails the call, with the first such character and no trace.
/// Otherwise the turtle starts at the origin facing the initial heading and
/// carries out each command in turn; a `]` with no open branch does nothing.
pub fn interpret(symbols: &str) -> (r: Result<TurtleTrace, InterpretError>)
    ensures
        match r {
            Ok(t) => interpretation(symbols@) == Ok::<TraceModel, InterpretError>(t@),
            Err(e) => interpretation(symbols@) == Err::<TraceModel, InterpretError>(e),
        },
        r is Err <==> !all_symbols(symbols@),
        r matches Ok(t) ==> t.segments@.len() == count_char(symbols@, 'F'),
        r matches Ok(t) ==> t@.well_formed(),
{
    let syms = match parse_symbols(symbols) {
        Ok(v) => v,
        Err(e) => {
            return Err(e);
        },
    };
    let mut turtle = Turtle::new();
    for i in 0..syms.len()
        invariant
            turtle@ == run(syms@.take(i as int)),
    {
        proof {
            lemma_run_growth(syms@.take(i as int));
            assert(syms@.take(i as int + 1).drop_last() =~= syms@.take(i as int));
        }
        turtle.apply(syms[i]);
    }
    assert(syms@.take(syms@.len() as int) =~= syms@);
    proof {
        lemma_segment_count(symbols@);
        lemma_run_well_formed(syms@);
    }
    Ok(turtle.into_trace())
}

} // verus!
