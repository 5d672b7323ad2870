//! The per-session state: the speaker and run-state enumerations, the
//! turn-level fields, the information state proper, and the input
//! sources a session can read from.

use vstd::prelude::*;
use crate::containers::{AcceptAll, Stack, StackSet, TSet};
use crate::moves::Move;
use crate::plan::PlanStep;
use crate::prop::Prop;
use crate::question::Question;
use crate::text::str_eq;

verus! {

/// Who spoke last.
#[derive(Clone, Copy, Debug, PartialEq, Eq, Structural)]
pub enum Speaker {
    USR,
    SYS,
}

impl Speaker {
    /// Reads a speaker from its name.
    pub fn new(name: &str) -> (r: Option<Speaker>)
        ensures
            match r {
                Some(v) => (name@ == "USR"@ && v == Speaker::USR) || (name@ == "SYS"@ && v
                    == Speaker::SYS),
                None => name@ != "USR"@ && name@ != "SYS"@,
            },
    {
        if str_eq(name, "USR") {
            Some(Speaker::USR)
        } else if str_eq(name, "SYS") {
            Some(Speaker::SYS)
        } else {
            None
        }
    }

    /// The speaker's name.
    pub fn text(&self) -> (r: String)
        ensures
            (*self == Speaker::USR ==> r@ == "USR"@) && (*self == Speaker::SYS ==> r@ == "SYS"@),
    {
        match self {
            Speaker::USR => String::from_str("USR"),
            Speaker::SYS => String::from_str("SYS"),
        }
    }
}

/// Whether the session keeps running.
#[derive(Clone, Copy, Debug, PartialEq, Eq, Structural)]
pub enum ProgramState {
    RUN,
    QUIT,
}

impl ProgramState {
    /// Reads a run state from its name.
    pub fn new(name: &str) -> (r: Option<ProgramState>)
        ensures
            match r {
                Some(v) => (name@ == "RUN"@ && v == ProgramState::RUN) || (name@ == "QUIT"@ && v
                    == ProgramState::QUIT),
                None => name@ != "RUN"@ && name@ != "QUIT"@,
            },
    {
        if str_eq(name, "RUN") {
            Some(ProgramState::RUN)
        } else if str_eq(name, "QUIT") {
            Some(ProgramState::QUIT)
        } else {
            None
        }
    }

    /// The run state's name.
    pub fn text(&self) -> (r: String)
        ensures
            (*self == ProgramState::RUN ==> r@ == "RUN"@) && (*self == ProgramState::QUIT ==> r@
                == "QUIT"@),
    {
        match self {
            ProgramState::RUN => String::from_str("RUN"),
            ProgramState::QUIT => String::from_str("QUIT"),
        }
    }
}

/// The turn-level fields: the last raw utterance, the last speaker, the
/// moves just made, the moves to make next, the last rendered output,
/// and the run state (unset until the session is reset).
pub struct StandardMIVS {
    pub input: Option<String>,
    pub latest_speaker: Option<Speaker>,
    pub latest_moves: TSet<Move, AcceptAll>,
    pub next_moves: Stack<Move, AcceptAll>,
    pub output: Option<String>,
    pub program_state: Option<ProgramState>,
}

impl StandardMIVS {
    /// Fresh turn-level fields, with the run state still unset.
    pub fn new() -> (r: StandardMIVS)
        ensures
            r.input is None,
            r.latest_speaker is None,
            r.latest_moves@ == Seq::<crate::moves::MoveV>::empty(),
            r.latest_moves.constraint_spec() is None,
            r.next_moves@ == Seq::<crate::moves::MoveV>::empty(),
            r.next_moves.constraint_spec() is None,
            r.output is None,
            r.program_state is None,
    {
        StandardMIVS {
            input: None,
            latest_speaker: None,
            latest_moves: TSet::new(),
            next_moves: Stack::new(),
            output: None,
            program_state: None,
        }
    }
}

/// The information state: the agenda, the plan stack (top next to
/// execute), the private beliefs, the shared commitments, and the
/// questions under discussion (most recently raised on top, unique).
pub struct IBISInfostate {
    pub agenda: Stack<Move, AcceptAll>,
    pub plan: Stack<PlanStep, AcceptAll>,
    pub bel: TSet<Prop, AcceptAll>,
    pub com: TSet<Prop, AcceptAll>,
    pub qud: StackSet<Question, AcceptAll>,
}

impl IBISInfostate {
    /// A fresh, empty information state.
    pub fn new() -> (r: IBISInfostate)
        ensures
            r.agenda@ == Seq::<crate::moves::MoveV>::empty(),
            r.agenda.constraint_spec() is None,
            r.plan@ == Seq::<crate::plan::PlanStepV>::empty(),
            r.plan.constraint_spec() is None,
            r.bel@ == Seq::<crate::prop::PropV>::empty(),
            r.bel.constraint_spec() is None,
            r.com@ == Seq::<crate::prop::PropV>::empty(),
            r.com.constraint_spec() is None,
            r.qud@ == Seq::<crate::question::QuestionV>::empty(),
            forall|v: crate::question::QuestionV| #[trigger] r.qud.accepts(v),
            r.qud.wf(),
            r.bel.wf(),
            r.com.wf(),
    {
        IBISInfostate {
            agenda: Stack::new(),
            plan: Stack::new(),
            bel: TSet::new(),
            com: TSet::new(),
            qud: StackSet::new(),
        }
    }
}

/// A source of input lines: `None` signals end of input.
pub trait InputHandler {
    /// Attempts to read one line; `None` on end of input.
    fn read_line(&mut self) -> Option<String>;

    /// Whether a line is available.
    fn has_input(&self) -> bool;
}

/// A scripted input source replaying a fixed list of lines, for
/// deterministic non-interactive sessions.
pub struct DemoInputHandler {
    inputs: Vec<String>,
    position: usize,
}

impl DemoInputHandler {
    /// A source that will replay `inputs` in order.
    pub fn new(inputs: Vec<String>) -> (r: DemoInputHandler)
        ensures
            r.remaining() == inputs@.map_values(|s: String| s@),
    {
        let r = DemoInputHandler { inputs, position: 0 };
        proof {
            assert(r.remaining() =~= r.inputs@.map_values(|s: String| s@).subrange(
                0,
                r.inputs@.len() as int,
            ));
            assert(r.inputs@.map_values(|s: String| s@).subrange(
                0,
                r.inputs@.len() as int,
            ) =~= r.inputs@.map_values(|s: String| s@));
        }
        r
    }

    /// The lines not yet replayed.
    pub closed spec fn remaining(&self) -> Seq<Seq<char>> {
        if self.position <= self.inputs@.len() {
            self.inputs@.map_values(|s: String| s@).subrange(
                self.position as int,
                self.inputs@.len() as int,
            )
        } else {
            Seq::<Seq<char>>::empty()
        }
    }

    /// Replays the next line, or reports exhaustion.
    pub fn next_line(&mut self) -> (r: Option<String>)
        ensures
            old(self).remaining().len() > 0 ==> (r matches Some(s) && s@ == old(
                self,
            ).remaining()[0] && final(self).remaining() == old(self).remaining().subrange(
                1,
                old(self).remaining().len() as int,
            )),
            old(self).remaining().len() == 0 ==> (r is None && final(self).remaining() == old(
                self,
            ).remaining()),
    {
        if self.position < self.inputs.len() {
            let s = self.inputs[self.position].clone();
            self.position = self.position + 1;
            proof {
                assert(self.remaining() =~= old(self).remaining().subrange(
                    1,
                    old(self).remaining().len() as int,
                ));
            }
            Some(s)
        } else {
            None
        }
    }

    /// Whether a line is left.
    pub fn lines_left(&self) -> (r: bool)
        ensures
            r == (self.remaining().len() > 0),
    {
        self.position < self.inputs.len()
    }
}

impl InputHandler for DemoInputHandler {
    fn read_line(&mut self) -> Option<String> {
        self.next_line()
    }

    fn has_input(&self) -> bool {
        self.lines_left()
    }
}

} // verus!
