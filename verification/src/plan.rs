//! Plan steps: the units a question's decomposition plan is made of.
//! `Findout` and `Raise` ask a question, `ConsultDB` queries the
//! database, `Respond` answers from the beliefs, and `If` branches on a
//! condition, recursively holding two step lists.

use vstd::prelude::*;
use crate::question::{Question, QuestionV, question_text};

verus! {

/// The mathematical value of a plan step.
pub ghost enum PlanStepV {
    Findout(QuestionV),
    ConsultDB(QuestionV),
    Respond(QuestionV),
    Raise(QuestionV),
    If(QuestionV, Seq<PlanStepV>, Seq<PlanStepV>),
}

/// A step that asks a question until it is resolved.
#[derive(Debug)]
pub struct Findout {
    pub content: Question,
}

/// A step that consults the database about a question.
#[derive(Debug)]
pub struct ConsultDB {
    pub content: Question,
}

/// A step that answers a question from the current beliefs.
#[derive(Debug)]
pub struct Respond {
    pub content: Question,
}

/// A step that raises a question.
#[derive(Debug)]
pub struct Raise {
    pub content: Question,
}

/// A conditional step: one branch runs when the condition is committed
/// positively, the other otherwise.
#[derive(Debug)]
pub struct If {
    pub cond: Question,
    pub iftrue: Vec<PlanStep>,
    pub iffalse: Vec<PlanStep>,
}

/// A plan step.
#[derive(Debug)]
pub enum PlanStep {
    Findout(Findout),
    ConsultDB(ConsultDB),
    Respond(Respond),
    Raise(Raise),
    If(If),
}

/// The view of a plan step.
pub open spec fn step_view(s: PlanStep) -> PlanStepV
    decreases s,
{
    match s {
        PlanStep::Findout(f) => PlanStepV::Findout(f.content@),
        PlanStep::ConsultDB(c) => PlanStepV::ConsultDB(c.content@),
        PlanStep::Respond(r) => PlanStepV::Respond(r.content@),
        PlanStep::Raise(r) => PlanStepV::Raise(r.content@),
        PlanStep::If(i) => PlanStepV::If(
            i.cond@,
            steps_view(i.iftrue@),
            steps_view(i.iffalse@),
        ),
    }
}

/// The views of a list of plan steps.  The guard keeps the recursion
/// within bounds, where the height of the element is known to shrink.
pub open spec fn steps_view(v: Seq<PlanStep>) -> Seq<PlanStepV>
    decreases v,
{
    Seq::new(
        v.len(),
        |k: int|
            if 0 <= k < v.len() {
                step_view(v[k])
            } else {
                PlanStepV::Findout(QuestionV::Wh(Seq::empty()))
            },
    )
}

impl View for PlanStep {
    type V = PlanStepV;

    open spec fn view(&self) -> PlanStepV {
        step_view(*self)
    }
}

impl View for If {
    type V = PlanStepV;

    open spec fn view(&self) -> PlanStepV {
        PlanStepV::If(self.cond@, steps_view(self.iftrue@), steps_view(self.iffalse@))
    }
}

impl Findout {
    /// Builds a findout step.
    pub fn new(content: Question) -> (r: Findout)
        ensures
            r.content@ == content@,
    {
        Findout { content }
    }

    /// The textual form `Findout('question')`.
    pub fn text(&self) -> (r: String)
        ensures
            r@ == step_text(PlanStepV::Findout(self.content@)),
    {
        let mut out = String::from_str("Findout('");
        let q = self.content.text();
        out.append(q.as_str());
        out.append("')");
        proof {
            assert(out@ =~= step_text(PlanStepV::Findout(self.content@)));
        }
        out
    }
}

impl ConsultDB {
    /// Builds a database-consultation step.
    pub fn new(content: Question) -> (r: ConsultDB)
        ensures
            r.content@ == content@,
    {
        ConsultDB { content }
    }

    /// The textual form `ConsultDB('question')`.
    pub fn text(&self) -> (r: String)
        ensures
            r@ == step_text(PlanStepV::ConsultDB(self.content@)),
    {
        let mut out = String::from_str("ConsultDB('");
        let q = self.content.text();
        out.append(q.as_str());
        out.append("')");
        proof {
            assert(out@ =~= step_text(PlanStepV::ConsultDB(self.content@)));
        }
        out
    }
}

impl Respond {
    /// Builds a respond step.
    pub fn new(content: Question) -> (r: Respond)
        ensures
            r.content@ == content@,
    {
        Respond { content }
    }

    /// The textual form `Respond('question')`.
    pub fn text(&self) -> (r: String)
        ensures
            r@ == step_text(PlanStepV::Respond(self.content@)),
    {
        let mut out = String::from_str("Respond('");
        let q = self.content.text();
        out.append(q.as_str());
        out.append("')");
        proof {
            assert(out@ =~= step_text(PlanStepV::Respond(self.content@)));
        }
        out
    }
}

impl Raise {
    /// Builds a raise step.
    pub fn new(content: Question) -> (r: Raise)
        ensures
            r.content@ == content@,
    {
        Raise { content }
    }

    /// The textual form `Raise('question')`.
    pub fn text(&self) -> (r: String)
        ensures
            r@ == step_text(PlanStepV::Raise(self.content@)),
    {
        let mut out = String::from_str("Raise('");
        let q = self.content.text();
        out.append(q.as_str());
        out.append("')");
        proof {
            assert(out@ =~= step_text(PlanStepV::Raise(self.content@)));
        }
        out
    }
}

impl If {
    /// Builds a conditional step.
    pub fn new(cond: Question, iftrue: Vec<PlanStep>, iffalse: Vec<PlanStep>) -> (r: If)
        ensures
            r.cond@ == cond@,
            r.iftrue@ == iftrue@,
            r.iffalse@ == iffalse@,
    {
        If { cond, iftrue, iffalse }
    }

    /// The textual form `If('cond', [steps], [steps])`.
    pub fn text(&self) -> (r: String)
        ensures
            r@ == step_text(self@),
        decreases self@, 0int,
    {
        let ghost tv = self@;
        let mut out = String::from_str("If('");
        let c = self.cond.text();
        out.append(c.as_str());
        out.append("', [");
        let mut k: usize = 0;
        let ghost ts = steps_view(self.iftrue@);
        let ghost es = steps_view(self.iffalse@);
        proof {
            assert(tv == PlanStepV::If(self.cond@, ts, es));
        }
        while k < self.iftrue.len()
            invariant
                tv == self@,
                tv == PlanStepV::If(self.cond@, ts, es),
                ts == steps_view(self.iftrue@),
                0 <= k <= self.iftrue@.len(),
                out@ == "If('"@ + question_text(self.cond@) + "', ["@ + steps_text_upto(
                    ts,
                    k as int,
                ),
            decreases self.iftrue@.len() - k,
        {
            if k > 0 {
                out.append(", ");
            }
            let child = &self.iftrue[k];
            proof {
                let whole = PlanStepV::If(self.cond@, ts, es);
                assert(decreases_to!(whole => whole->If_1));
                assert(whole->If_1 == ts);
                assert(tv == whole);
                assert(decreases_to!(ts => ts[k as int]));
                assert(ts[k as int] == child@);
            }
            let t = child.text();
            out.append(t.as_str());
            proof {
                assert(out@ =~= "If('"@ + question_text(self.cond@) + "', ["@ + steps_text_upto(
                    ts,
                    k as int + 1,
                ));
            }
            k = k + 1;
        }
        out.append("], [");
        let mut k2: usize = 0;
        while k2 < self.iffalse.len()
            invariant
                tv == self@,
                tv == PlanStepV::If(self.cond@, ts, es),
                es == steps_view(self.iffalse@),
                0 <= k2 <= self.iffalse@.len(),
                out@ == "If('"@ + question_text(self.cond@) + "', ["@ + steps_text_upto(
                    ts,
                    ts.len() as int,
                ) + "], ["@ + steps_text_upto(es, k2 as int),
            decreases self.iffalse@.len() - k2,
        {
            if k2 > 0 {
                out.append(", ");
            }
            let child = &self.iffalse[k2];
            proof {
                let whole = PlanStepV::If(self.cond@, ts, es);
                assert(decreases_to!(whole => whole->If_2));
                assert(whole->If_2 == es);
                assert(tv == whole);
                assert(decreases_to!(es => es[k2 as int]));
                assert(es[k2 as int] == child@);
            }
            let t = child.text();
            out.append(t.as_str());
            proof {
                assert(out@ =~= "If('"@ + question_text(self.cond@) + "', ["@ + steps_text_upto(
                    ts,
                    ts.len() as int,
                ) + "], ["@ + steps_text_upto(es, k2 as int + 1));
            }
            k2 = k2 + 1;
        }
        out.append("])");
        proof {
            assert(out@ =~= step_text(self@));
        }
        out
    }
}

impl Clone for PlanStep {
    fn clone(&self) -> (r: Self)
        ensures
            r@ == self@,
        decreases self@, 1int,
    {
        match self {
            PlanStep::Findout(f) => PlanStep::Findout(Findout { content: f.content.clone() }),
            PlanStep::ConsultDB(c) => PlanStep::ConsultDB(
                ConsultDB { content: c.content.clone() },
            ),
            PlanStep::Respond(r) => PlanStep::Respond(Respond { content: r.content.clone() }),
            PlanStep::Raise(r) => PlanStep::Raise(Raise { content: r.content.clone() }),
            PlanStep::If(i) => {
                proof {
                    assert(i@ == self@);
                }
                PlanStep::If(i.clone())
            },
        }
    }
}

impl Clone for If {
    fn clone(&self) -> (r: Self)
        ensures
            r@ == self@,
        decreases self@, 0int,
    {
        let ghost tv = self@;
        let ghost ts = steps_view(self.iftrue@);
        let ghost es = steps_view(self.iffalse@);
        proof {
            assert(tv == PlanStepV::If(self.cond@, ts, es));
        }
        let mut iftrue: Vec<PlanStep> = Vec::new();
        let mut k: usize = 0;
        while k < self.iftrue.len()
            invariant
                tv == self@,
                tv == PlanStepV::If(self.cond@, ts, es),
                ts == steps_view(self.iftrue@),
                0 <= k <= self.iftrue@.len(),
                iftrue@.len() == k,
                forall|j: int| 0 <= j < k ==> (#[trigger] iftrue@[j])@ == ts[j],
            decreases self.iftrue@.len() - k,
        {
            let child = &self.iftrue[k];
            proof {
                let whole = PlanStepV::If(self.cond@, ts, es);
                assert(decreases_to!(whole => whole->If_1));
                assert(whole->If_1 == ts);
                assert(tv == whole);
                assert(decreases_to!(ts => ts[k as int]));
                assert(ts[k as int] == child@);
            }
            iftrue.push(child.clone());
            k = k + 1;
        }
        let mut iffalse: Vec<PlanStep> = Vec::new();
        let mut k2: usize = 0;
        while k2 < self.iffalse.len()
            invariant
                tv == self@,
                tv == PlanStepV::If(self.cond@, ts, es),
                es == steps_view(self.iffalse@),
                0 <= k2 <= self.iffalse@.len(),
                iffalse@.len() == k2,
                forall|j: int| 0 <= j < k2 ==> (#[trigger] iffalse@[j])@ == es[j],
            decreases self.iffalse@.len() - k2,
        {
            let child = &self.iffalse[k2];
            proof {
                let whole = PlanStepV::If(self.cond@, ts, es);
                assert(decreases_to!(whole => whole->If_2));
                assert(whole->If_2 == es);
                assert(tv == whole);
                assert(decreases_to!(es => es[k2 as int]));
                assert(es[k2 as int] == child@);
            }
            iffalse.push(child.clone());
            k2 = k2 + 1;
        }
        let r = If { cond: self.cond.clone(), iftrue, iffalse };
        proof {
            assert(steps_view(r.iftrue@) =~= ts);
            assert(steps_view(r.iffalse@) =~= es);
        }
        r
    }
}

impl PlanStep {
    /// The question the step speaks about: its content, or the
    /// condition of a conditional step.
    pub fn question(&self) -> (r: &Question)
        ensures
            r@ == step_question(self@),
    {
        match self {
            PlanStep::Findout(f) => &f.content,
            PlanStep::ConsultDB(c) => &c.content,
            PlanStep::Respond(r) => &r.content,
            PlanStep::Raise(r) => &r.content,
            PlanStep::If(i) => &i.cond,
        }
    }

    /// The textual form of the step.
    pub fn text(&self) -> (r: String)
        ensures
            r@ == step_text(self@),
        decreases self@, 1int,
    {
        match self {
            PlanStep::Findout(f) => f.text(),
            PlanStep::ConsultDB(c) => c.text(),
            PlanStep::Respond(r) => r.text(),
            PlanStep::Raise(r) => r.text(),
            PlanStep::If(i) => {
                proof {
                    assert(i@ == self@);
                }
                i.text()
            },
        }
    }
}

/// The question at the head of a step.
pub open spec fn step_question(s: PlanStepV) -> QuestionV {
    match s {
        PlanStepV::Findout(q) => q,
        PlanStepV::ConsultDB(q) => q,
        PlanStepV::Respond(q) => q,
        PlanStepV::Raise(q) => q,
        PlanStepV::If(c, _t, _e) => c,
    }
}

/// The textual form of a plan step.
pub open spec fn step_text(s: PlanStepV) -> Seq<char>
    decreases s, 1int,
{
    match s {
        PlanStepV::Findout(q) => "Findout('"@ + question_text(q) + "')"@,
        PlanStepV::ConsultDB(q) => "ConsultDB('"@ + question_text(q) + "')"@,
        PlanStepV::Respond(q) => "Respond('"@ + question_text(q) + "')"@,
        PlanStepV::Raise(q) => "Raise('"@ + question_text(q) + "')"@,
        PlanStepV::If(c, t, e) => "If('"@ + question_text(c) + "', ["@ + steps_text_upto(
            t,
            t.len() as int,
        ) + "], ["@ + steps_text_upto(e, e.len() as int) + "])"@,
    }
}

/// The textual forms of the first `k` steps, joined by `, `.
pub open spec fn steps_text_upto(ss: Seq<PlanStepV>, k: int) -> Seq<char>
    decreases ss, 0int, k,
{
    if k <= 0 || ss.len() == 0 {
        Seq::<char>::empty()
    } else if k > ss.len() {
        steps_text_upto(ss, ss.len() as int)
    } else if k == 1 {
        step_text(ss[0])
    } else {
        steps_text_upto(ss, k - 1) + ", "@ + step_text(ss[k - 1])
    }
}

} // verus!
