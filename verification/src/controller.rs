//! The turn controller: one instance owns a domain, a database, a
//! grammar, and the per-session state, and advances the conversation
//! move by move.  Every transition is a pure function of the state and
//! the incoming values; reading input lines and printing output are the
//! caller's business.
//!
//! Selection executes plan steps from the top of the plan stack until a
//! step produces a dialogue move or the plan is exhausted: a findout or
//! raise step raises its question and asks it; a respond step answers
//! from the beliefs; a database step adds the looked-up proposition to
//! the beliefs; a conditional step expands the branch its committed
//! condition picks.  Updating folds the latest user moves into the
//! state: a quit move ends the session; an ask move raises the question
//! and loads its plan; an answer relevant to the topmost question under
//! discussion is combined into the commitments and, when it resolves
//! the question, pops it.

use vstd::prelude::*;
use crate::containers::{AcceptAll, TSet};
use crate::errors::IsuError;
use crate::database::{TravelDB, DbEntryV, spec_consult};
use crate::domain::{Domain, DomainV, assoc, spec_relevant, spec_resolves, spec_combinable,
    spec_combine};
use crate::grammar::{SimpleGenGrammar, spec_interpret, rendered, join_upto};
use crate::moves::{Move, MoveV};
use crate::plan::{PlanStep, PlanStepV, steps_view};
use crate::prop::{Prop, PropV, AnsV, Ans};
use crate::question::{Question, QuestionV, question_text};
use crate::state::{IBISInfostate, StandardMIVS, Speaker, ProgramState};

verus! {

/// The mathematical value of the dialogue state a transition touches.
pub ghost struct IsuStateV {
    pub plan: Seq<PlanStepV>,
    pub bel: Seq<PropV>,
    pub com: Seq<PropV>,
    pub qud: Seq<QuestionV>,
    pub quit: bool,
}

/// Adding to a set: a present value leaves it unchanged.
pub open spec fn set_add<A>(s: Seq<A>, v: A) -> Seq<A> {
    if s.contains(v) {
        s
    } else {
        s.push(v)
    }
}

/// Raising a question: any earlier occurrence moves to the top.
pub open spec fn qud_push(qud: Seq<QuestionV>, q: QuestionV) -> Seq<QuestionV> {
    qud.remove_value(q).push(q)
}

/// The weight of a plan step: one, plus the weight of both branches of
/// a conditional.  Selection consumes weight, which bounds its work.
pub open spec fn step_weight(s: PlanStepV) -> nat
    decreases s, 0int, 0int,
{
    match s {
        PlanStepV::If(_c, t, e) => 1 + steps_weight_upto(t, t.len() as int) + steps_weight_upto(
            e,
            e.len() as int,
        ),
        _ => 1,
    }
}

/// The weight of the first `k` steps of a list.
pub open spec fn steps_weight_upto(ss: Seq<PlanStepV>, k: int) -> nat
    decreases ss, 1int, k,
{
    if k <= 0 || ss.len() == 0 {
        0
    } else if k > ss.len() {
        steps_weight_upto(ss, ss.len() as int)
    } else {
        steps_weight_upto(ss, k - 1) + step_weight(ss[k - 1])
    }
}

/// The weight of a whole plan.
pub open spec fn plan_weight(ss: Seq<PlanStepV>) -> nat {
    steps_weight_upto(ss, ss.len() as int)
}

/// The weight of a prefix depends on the prefix alone.
pub proof fn lemma_weight_prefix(a: Seq<PlanStepV>, b: Seq<PlanStepV>, k: int)
    requires
        0 <= k <= a.len(),
        k <= b.len(),
        forall|j: int| 0 <= j < k ==> a[j] == b[j],
    ensures
        steps_weight_upto(a, k) == steps_weight_upto(b, k),
    decreases k,
{
    if k > 0 {
        lemma_weight_prefix(a, b, k - 1);
    }
}

/// Weight is additive over concatenation.
pub proof fn lemma_weight_concat(a: Seq<PlanStepV>, b: Seq<PlanStepV>)
    ensures
        plan_weight(a + b) == plan_weight(a) + plan_weight(b),
    decreases b.len(),
{
    if b.len() == 0 {
        assert(a + b =~= a);
    } else {
        let b0 = b.drop_last();
        lemma_weight_concat(a, b0);
        assert(a + b0 =~= (a + b).subrange(0, a.len() + b.len() - 1));
        lemma_weight_prefix(a + b, a + b0, a.len() as int + b.len() - 1);
        lemma_weight_prefix(b, b0, b.len() - 1);
        assert((a + b)[a.len() + b.len() - 1] == b[b.len() - 1]);
    }
}

/// Weight is invariant under reversal.
pub proof fn lemma_weight_reverse(b: Seq<PlanStepV>)
    ensures
        plan_weight(b.reverse()) == plan_weight(b),
    decreases b.len(),
{
    if b.len() == 0 {
        assert(b.reverse() =~= b);
    } else {
        let b0 = b.drop_last();
        lemma_weight_reverse(b0);
        assert(b.reverse() =~= seq![b.last()] + b0.reverse());
        lemma_weight_concat(seq![b.last()], b0.reverse());
        assert(steps_weight_upto(seq![b.last()], 0) == 0);
        assert(plan_weight(seq![b.last()]) == step_weight(b.last()));
        lemma_weight_prefix(b, b0, b.len() - 1);
    }
}

/// Every step weighs at least one.
pub proof fn lemma_step_weight_pos(s: PlanStepV)
    ensures
        step_weight(s) >= 1,
{
}

/// Dropping the top of the plan removes exactly its weight.
pub proof fn lemma_weight_drop_last(ss: Seq<PlanStepV>)
    requires
        ss.len() > 0,
    ensures
        plan_weight(ss) == plan_weight(ss.drop_last()) + step_weight(ss.last()),
{
    lemma_weight_prefix(ss, ss.drop_last(), ss.len() - 1);
}

/// Whether the commitments establish a question positively: a polar
/// question holds when its proposition is committed as stated; a
/// wh-question when some positive commitment carries its predicate; an
/// alternative question when some alternative is committed as stated.
pub open spec fn spec_cond_holds(com: Seq<PropV>, c: QuestionV) -> bool {
    match c {
        QuestionV::YN(p) => com.contains(p),
        QuestionV::Wh(w) => exists|i: int|
            0 <= i < com.len() && (#[trigger] com[i]).pred == w && com[i].pos,
        QuestionV::Alt(ps) => exists|k: int| 0 <= k < ps.len() && com.contains(#[trigger] ps[k]),
    }
}

/// The first belief relevant (as a proposition answer) to the question.
pub open spec fn find_relevant(d: DomainV, bel: Seq<PropV>, q: QuestionV) -> Option<PropV>
    decreases bel.len(),
{
    if bel.len() == 0 {
        None
    } else if spec_relevant(d, AnsV::Prop(bel[0]), q) {
        Some(bel[0])
    } else {
        find_relevant(d, bel.subrange(1, bel.len() as int), q)
    }
}

/// [`find_relevant`] is pinned down by the position of the first
/// relevant belief.
pub proof fn lemma_find_relevant_is(d: DomainV, bel: Seq<PropV>, q: QuestionV, i: int)
    requires
        0 <= i <= bel.len(),
        forall|j: int| 0 <= j < i ==> !spec_relevant(d, AnsV::Prop(#[trigger] bel[j]), q),
        i < bel.len() ==> spec_relevant(d, AnsV::Prop(bel[i]), q),
    ensures
        i < bel.len() ==> find_relevant(d, bel, q) == Some(bel[i]),
        i == bel.len() ==> find_relevant(d, bel, q) is None,
    decreases bel.len(),
{
    if bel.len() == 0 {
    } else if spec_relevant(d, AnsV::Prop(bel[0]), q) {
        assert(i == 0);
    } else {
        let t = bel.subrange(1, bel.len() as int);
        assert forall|j: int|
            0 <= j < i - 1 implies !spec_relevant(d, AnsV::Prop(#[trigger] t[j]), q) by {
            assert(t[j] == bel[j + 1]);
        }
        if i - 1 < t.len() {
            assert(t[i - 1] == bel[i]);
        }
        lemma_find_relevant_is(d, t, q, i - 1);
    }
}

/// One selection round: the topmost plan step runs; steps that produce
/// no dialogue move (a database consultation, a conditional, a respond
/// step with nothing to say) give way to the next, until a move is
/// produced or the plan is exhausted.
pub open spec fn spec_select(d: DomainV, db: Seq<DbEntryV>, st: IsuStateV, moves: Seq<MoveV>) -> (
    IsuStateV,
    Seq<MoveV>,
)
    decreases plan_weight(st.plan),
    via spec_select_decreases
{
    if st.plan.len() == 0 {
        (st, moves)
    } else {
        let top = st.plan.last();
        let rest = st.plan.drop_last();
        match top {
            PlanStepV::Findout(q) => (
                IsuStateV {
                    plan: rest,
                    bel: st.bel,
                    com: st.com,
                    qud: qud_push(st.qud, q),
                    quit: st.quit,
                },
                moves.push(MoveV::Ask(q)),
            ),
            PlanStepV::Raise(q) => (
                IsuStateV {
                    plan: rest,
                    bel: st.bel,
                    com: st.com,
                    qud: qud_push(st.qud, q),
                    quit: st.quit,
                },
                moves.push(MoveV::Ask(q)),
            ),
            PlanStepV::Respond(q) => match find_relevant(d, st.bel, q) {
                Some(p) => (
                    IsuStateV {
                        plan: rest,
                        bel: st.bel,
                        com: st.com,
                        qud: st.qud,
                        quit: st.quit,
                    },
                    moves.push(MoveV::Answer(AnsV::Prop(p))),
                ),
                None => spec_select(
                    d,
                    db,
                    IsuStateV { plan: rest, bel: st.bel, com: st.com, qud: st.qud, quit: st.quit },
                    moves,
                ),
            },
            PlanStepV::ConsultDB(_q) => {
                let bel2 = match spec_consult(db, st.com) {
                    Some(p) => set_add(st.bel, p),
                    None => st.bel,
                };
                spec_select(
                    d,
                    db,
                    IsuStateV { plan: rest, bel: bel2, com: st.com, qud: st.qud, quit: st.quit },
                    moves,
                )
            },
            PlanStepV::If(c, t, e) => {
                let branch = if spec_cond_holds(st.com, c) {
                    t
                } else {
                    e
                };
                spec_select(
                    d,
                    db,
                    IsuStateV {
                        plan: rest + branch.reverse(),
                        bel: st.bel,
                        com: st.com,
                        qud: st.qud,
                        quit: st.quit,
                    },
                    moves,
                )
            },
        }
    }
}

#[via_fn]
proof fn spec_select_decreases(d: DomainV, db: Seq<DbEntryV>, st: IsuStateV, moves: Seq<MoveV>) {
    if st.plan.len() > 0 {
        let top = st.plan.last();
        let rest = st.plan.drop_last();
        lemma_weight_drop_last(st.plan);
        lemma_step_weight_pos(top);
        match top {
            PlanStepV::If(_c, t, e) => {
                lemma_weight_concat(rest, t.reverse());
                lemma_weight_concat(rest, e.reverse());
                lemma_weight_reverse(t);
                lemma_weight_reverse(e);
            },
            _ => {},
        }
    }
}

/// Folding one move into the state: quit ends the session; an ask
/// raises the question and loads its plan (first step on top); an
/// answer relevant and combinable with the topmost question under
/// discussion adds the combined proposition to the commitments and, on
/// resolution, pops the question; everything else changes nothing.
pub open spec fn spec_integrate(d: DomainV, st: IsuStateV, mv: MoveV) -> IsuStateV {
    match mv {
        MoveV::Quit => IsuStateV { plan: st.plan, bel: st.bel, com: st.com, qud: st.qud, quit: true },
        MoveV::Greet => st,
        MoveV::Icm(_i) => st,
        MoveV::Ask(q) => {
            let plan2 = match assoc(d.plans, question_text(q)) {
                Some(steps) => st.plan + steps.reverse(),
                None => st.plan,
            };
            IsuStateV {
                plan: plan2,
                bel: st.bel,
                com: st.com,
                qud: qud_push(st.qud, q),
                quit: st.quit,
            }
        },
        MoveV::Answer(a) => {
            if st.qud.len() == 0 {
                st
            } else {
                let q = st.qud.last();
                if spec_relevant(d, a, q) && spec_combinable(a, q) {
                    let p = spec_combine(q, a);
                    let qud2 = if spec_resolves(d, a, q) {
                        st.qud.drop_last()
                    } else {
                        st.qud
                    };
                    IsuStateV {
                        plan: st.plan,
                        bel: st.bel,
                        com: set_add(st.com, p),
                        qud: qud2,
                        quit: st.quit,
                    }
                } else {
                    st
                }
            }
        },
    }
}

/// Folding the first `k` moves, left to right.
pub open spec fn spec_integrate_upto(
    d: DomainV,
    st: IsuStateV,
    moves: Seq<MoveV>,
    k: int,
) -> IsuStateV
    decreases k,
{
    if k <= 0 {
        st
    } else {
        spec_integrate(d, spec_integrate_upto(d, st, moves, k - 1), moves[k - 1])
    }
}

/// The dialogue controller: the domain, the database, the grammar, and
/// the owned per-session state.
pub struct IBISController {
    pub is: IBISInfostate,
    pub mivs: StandardMIVS,
    pub domain: Domain,
    pub database: TravelDB,
    pub grammar: SimpleGenGrammar,
}

impl IBISController {
    /// The state a transition touches, as one mathematical value.
    pub open spec fn isv(&self) -> IsuStateV {
        IsuStateV {
            plan: self.is.plan@,
            bel: self.is.bel@,
            com: self.is.com@,
            qud: self.is.qud@,
            quit: self.mivs.program_state == Some(ProgramState::QUIT),
        }
    }

    /// The state containers are unconstrained and hold no duplicates
    /// where uniqueness is their point.
    pub open spec fn wf(&self) -> bool {
        &&& self.is.qud.wf()
        &&& (forall|v: QuestionV| #[trigger] self.is.qud.accepts(v))
        &&& self.is.bel.wf()
        &&& self.is.bel.constraint_spec() is None
        &&& self.is.com.wf()
        &&& self.is.com.constraint_spec() is None
        &&& self.is.plan.constraint_spec() is None
        &&& self.is.agenda.constraint_spec() is None
        &&& self.mivs.latest_moves.constraint_spec() is None
        &&& self.mivs.next_moves.constraint_spec() is None
    }

    /// A controller over fresh state; the run state stays unset until
    /// [`IBISController::reset`].
    pub fn new(domain: Domain, database: TravelDB, grammar: SimpleGenGrammar) -> (r:
        IBISController)
        ensures
            r.wf(),
            r.domain == domain,
            r.database == database,
            r.grammar == grammar,
            r.isv().plan == Seq::<PlanStepV>::empty(),
            r.isv().bel == Seq::<PropV>::empty(),
            r.isv().com == Seq::<PropV>::empty(),
            r.isv().qud == Seq::<QuestionV>::empty(),
            r.mivs.program_state is None,
            r.mivs.input is None,
            r.mivs.latest_speaker is None,
            r.mivs.output is None,
            r.mivs.latest_moves@ == Seq::<MoveV>::empty(),
            r.mivs.next_moves@ == Seq::<MoveV>::empty(),
    {
        IBISController {
            is: IBISInfostate::new(),
            mivs: StandardMIVS::new(),
            domain,
            database,
            grammar,
        }
    }

    /// Replaces the owned state with a fresh one and starts running.
    pub fn reset(&mut self)
        ensures
            final(self).wf(),
            final(self).domain == old(self).domain,
            final(self).database == old(self).database,
            final(self).grammar == old(self).grammar,
            final(self).isv().plan == Seq::<PlanStepV>::empty(),
            final(self).isv().bel == Seq::<PropV>::empty(),
            final(self).isv().com == Seq::<PropV>::empty(),
            final(self).isv().qud == Seq::<QuestionV>::empty(),
            final(self).mivs.program_state == Some(ProgramState::RUN),
            final(self).mivs.input is None,
            final(self).mivs.latest_speaker is None,
            final(self).mivs.output is None,
            final(self).mivs.latest_moves@ == Seq::<MoveV>::empty(),
            final(self).mivs.next_moves@ == Seq::<MoveV>::empty(),
    {
        self.is = IBISInfostate::new();
        self.mivs = StandardMIVS::new();
        self.mivs.program_state = Some(ProgramState::RUN);
    }

    /// Whether the session is still running.
    pub fn is_running(&self) -> (r: bool)
        ensures
            r == (self.mivs.program_state != Some(ProgramState::QUIT)),
    {
        match self.mivs.program_state {
            Some(ProgramState::QUIT) => false,
            _ => true,
        }
    }

    /// Whether there are moves waiting to be rendered.
    pub fn has_next_moves(&self) -> (r: bool)
        ensures
            r == (self.mivs.next_moves@.len() > 0),
    {
        !self.mivs.next_moves.is_empty()
    }

    /// Queues the opening greeting.
    pub fn greet(&mut self)
        requires
            old(self).wf(),
        ensures
            final(self).wf(),
            final(self).is == old(self).is,
            final(self).domain == old(self).domain,
            final(self).database == old(self).database,
            final(self).grammar == old(self).grammar,
            final(self).mivs.input == old(self).mivs.input,
            final(self).mivs.latest_speaker == old(self).mivs.latest_speaker,
            final(self).mivs.latest_moves == old(self).mivs.latest_moves,
            final(self).mivs.output == old(self).mivs.output,
            final(self).mivs.program_state == old(self).mivs.program_state,
            final(self).mivs.next_moves@ == old(self).mivs.next_moves@.push(MoveV::Greet),
            final(self).mivs.next_moves.constraint_spec() == old(self).mivs.next_moves.constraint_spec(),
    {
        let pushed = self.mivs.next_moves.push(Move::Greet);
        proof {
            if pushed is Err {
                assert(false);
            }
        }
    }

    /// Raises a question: it lands on top of the questions under
    /// discussion and, when the domain binds a plan to it, the plan's
    /// steps are loaded with the first on top.  Returns whether a plan
    /// was found; a question without a plan is simply left raised.
    pub fn raise_question(&mut self, q: &Question) -> (r: bool)
        requires
            old(self).wf(),
        ensures
            final(self).wf(),
            final(self).domain == old(self).domain,
            final(self).database == old(self).database,
            final(self).grammar == old(self).grammar,
            final(self).mivs == old(self).mivs,
            final(self).is.agenda == old(self).is.agenda,
            final(self).is.bel == old(self).is.bel,
            final(self).is.com == old(self).is.com,
            final(self).isv().qud == qud_push(old(self).isv().qud, q@),
            final(self).is.plan.constraint_spec() == old(self).is.plan.constraint_spec(),
            r == (assoc(old(self).domain@.plans, question_text(q@)) is Some),
            final(self).isv().plan == (match assoc(old(self).domain@.plans, question_text(q@)) {
                Some(steps) => old(self).isv().plan + steps.reverse(),
                None => old(self).isv().plan,
            }),
    {
        let pushed = self.is.qud.push(q.clone());
        proof {
            if pushed is Err {
                assert(false);
            }
        }
        match self.domain.get_plan(q) {
            Some(steps) => {
                let ghost sv = steps_view(steps@);
                let ghost n = sv.len() as int;
                let ghost plan0 = self.is.plan@;
                let mut br = steps;
                proof {
                    assert(self.is.plan@ =~= plan0 + sv.subrange(n, n).reverse());
                }
                while br.len() > 0
                    invariant
                        n == sv.len(),
                        br@.len() <= n,
                        forall|j: int| 0 <= j < br@.len() ==> (#[trigger] br@[j])@ == sv[j],
                        plan0 == old(self).is.plan@,
                        self.is.plan@ == plan0 + sv.subrange(br@.len() as int, n).reverse(),
                        self.is.plan.constraint_spec() == old(self).is.plan.constraint_spec(),
                        self.is.plan.constraint_spec() is None,
                        self.domain == old(self).domain,
                        self.database == old(self).database,
                        self.grammar == old(self).grammar,
                        self.mivs == old(self).mivs,
                        self.is.agenda == old(self).is.agenda,
                        self.is.bel == old(self).is.bel,
                        self.is.com == old(self).is.com,
                        self.is.qud@ == qud_push(old(self).is.qud@, q@),
                        self.is.qud.wf(),
                        forall|v: QuestionV| #[trigger] self.is.qud.accepts(v),
                    decreases br@.len(),
                {
                    let ghost br_before = br@;
                    let s = match br.pop() {
                        Some(s) => s,
                        None => {
                            proof {
                                assert(false);
                            }
                            return true;
                        },
                    };
                    let pushed2 = self.is.plan.push(s);
                    proof {
                        if pushed2 is Err {
                            assert(false);
                        }
                        assert(s@ == sv[br@.len() as int]);
                        assert(self.is.plan@ =~= plan0 + sv.subrange(
                            br@.len() as int,
                            n,
                        ).reverse());
                    }
                }
                proof {
                    assert(sv.subrange(0, n) =~= sv);
                    assert(self.is.plan@ == plan0 + sv.reverse());
                }
                true
            },
            None => false,
        }
    }
}


/// A loop-measure helper: one while the round may still run.
pub open spec fn b2i(b: bool) -> int {
    if b {
        0
    } else {
        1
    }
}

/// Runtime test for [`spec_combinable`].
fn combinable_exec(a: &Ans, q: &Question) -> (r: bool)
    ensures
        r == spec_combinable(a@, q@),
{
    match (q, a) {
        (Question::WhQ(_), Ans::ShortAns(_)) => true,
        (Question::YNQ(_), Ans::YesNo(_)) => true,
        (_, Ans::Prop(_)) => true,
        _ => false,
    }
}

/// Runtime test for [`spec_cond_holds`].
fn cond_holds_exec(com: &TSet<Prop, AcceptAll>, q: &Question) -> (r: bool)
    ensures
        r == spec_cond_holds(com@, q@),
{
    match q {
        Question::YNQ(y) => com.contains(&y.prop),
        Question::WhQ(w) => {
            let n = com.len();
            let mut i: usize = 0;
            while i < n
                invariant
                    n == com@.len(),
                    0 <= i <= n,
                    q@ == QuestionV::Wh(w@),
                    forall|j: int| 0 <= j < i ==> !((#[trigger] com@[j]).pred == w@ && com@[j].pos),
                decreases n - i,
            {
                let p = match com.get(i) {
                    Some(p) => p,
                    None => {
                        proof {
                            assert(false);
                        }
                        return false;
                    },
                };
                if p.yes && p.pred.0.same(&w.pred.0) {
                    proof {
                        let wj = i as int;
                        assert(0 <= wj < com@.len() && com@[wj].pred == w@ && com@[wj].pos);
                        assert(exists|j: int|
                            0 <= j < com@.len() && (#[trigger] com@[j]).pred == w@
                                && com@[j].pos);
                        assert(spec_cond_holds(com@, q@));
                    }
                    return true;
                }
                i = i + 1;
            }
            proof {
                if spec_cond_holds(com@, q@) {
                    let j = choose|j: int| 0 <= j < com@.len() && com@[j].pred == w@ && com@[j].pos;
                    assert(!(com@[j].pred == w@ && com@[j].pos));
                }
            }
            false
        },
        Question::AltQ(a) => {
            let n = a.ynqs.len();
            let mut k: usize = 0;
            while k < n
                invariant
                    n == a.ynqs@.len(),
                    0 <= k <= n,
                    q@ == QuestionV::Alt(a@),
                    a@.len() == a.ynqs@.len(),
                    forall|j: int| 0 <= j < a@.len() ==> a@[j] == a.ynqs@[j]@,
                    forall|j: int| 0 <= j < k ==> !com@.contains(#[trigger] a@[j]),
                decreases n - k,
            {
                if com.contains(&a.ynqs[k].prop) {
                    proof {
                        let wk = k as int;
                        assert(q@->Alt_0 == a@);
                        assert(0 <= wk < (q@->Alt_0).len() && com@.contains((q@->Alt_0)[wk]));
                        assert(spec_cond_holds(com@, q@));
                    }
                    return true;
                }
                k = k + 1;
            }
            proof {
                if spec_cond_holds(com@, q@) {
                    let ps = q@->Alt_0;
                    let j = choose|j: int| 0 <= j < ps.len() && com@.contains(#[trigger] ps[j]);
                    assert(ps[j] == a@[j]);
                    assert(!com@.contains(a@[j]));
                }
            }
            false
        },
    }
}

/// Runtime search for [`find_relevant`].
fn find_relevant_exec(d: &Domain, bel: &TSet<Prop, AcceptAll>, q: &Question) -> (r: Option<Prop>)
    ensures
        match r {
            Some(p) => find_relevant(d@, bel@, q@) == Some(p@),
            None => find_relevant(d@, bel@, q@) is None,
        },
{
    let n = bel.len();
    let mut i: usize = 0;
    while i < n
        invariant
            n == bel@.len(),
            0 <= i <= n,
            forall|j: int| 0 <= j < i ==> !spec_relevant(d@, AnsV::Prop(#[trigger] bel@[j]), q@),
        decreases n - i,
    {
        let p = match bel.get(i) {
            Some(p) => p,
            None => {
                proof {
                    assert(false);
                }
                return None;
            },
        };
        let candidate = Ans::Prop(p.clone());
        if d.relevant(&candidate, q) {
            proof {
                lemma_find_relevant_is(d@, bel@, q@, i as int);
            }
            match candidate {
                Ans::Prop(p2) => {
                    return Some(p2);
                },
                _ => {
                    proof {
                        assert(false);
                    }
                    return None;
                },
            }
        }
        i = i + 1;
    }
    proof {
        lemma_find_relevant_is(d@, bel@, q@, n as int);
    }
    None
}

impl IBISController {
    /// Runs one selection round, as [`spec_select`] states: plan steps
    /// execute from the top until one produces a dialogue move or the
    /// plan is exhausted.
    pub fn select(&mut self)
        requires
            old(self).wf(),
        ensures
            final(self).wf(),
            final(self).domain == old(self).domain,
            final(self).database == old(self).database,
            final(self).grammar == old(self).grammar,
            final(self).is.agenda == old(self).is.agenda,
            final(self).mivs.input == old(self).mivs.input,
            final(self).mivs.latest_speaker == old(self).mivs.latest_speaker,
            final(self).mivs.latest_moves == old(self).mivs.latest_moves,
            final(self).mivs.output == old(self).mivs.output,
            final(self).mivs.program_state == old(self).mivs.program_state,
            final(self).mivs.next_moves.constraint_spec() == old(self).mivs.next_moves.constraint_spec(),
            final(self).isv() == spec_select(
                old(self).domain@,
                old(self).database@,
                old(self).isv(),
                old(self).mivs.next_moves@,
            ).0,
            final(self).mivs.next_moves@ == spec_select(
                old(self).domain@,
                old(self).database@,
                old(self).isv(),
                old(self).mivs.next_moves@,
            ).1,
    {
        let ghost d = self.domain@;
        let ghost db0 = self.database@;
        let ghost target = spec_select(d, db0, self.isv(), self.mivs.next_moves@);
        let mut stop = false;
        while !stop
            invariant
                self.wf(),
                self.domain == old(self).domain,
                self.database == old(self).database,
                self.grammar == old(self).grammar,
                self.is.agenda == old(self).is.agenda,
                self.mivs.input == old(self).mivs.input,
                self.mivs.latest_speaker == old(self).mivs.latest_speaker,
                self.mivs.latest_moves == old(self).mivs.latest_moves,
                self.mivs.output == old(self).mivs.output,
                self.mivs.program_state == old(self).mivs.program_state,
                self.mivs.next_moves.constraint_spec() == old(self).mivs.next_moves.constraint_spec(),
                d == old(self).domain@,
                db0 == old(self).database@,
                target == spec_select(d, db0, old(self).isv(), old(self).mivs.next_moves@),
                !stop ==> spec_select(d, db0, self.isv(), self.mivs.next_moves@) == target,
                stop ==> self.isv() == target.0 && self.mivs.next_moves@ == target.1,
            decreases plan_weight(self.is.plan@) + b2i(stop),
        {
            let ghost st0 = self.isv();
            let ghost mv0 = self.mivs.next_moves@;
            if self.is.plan.is_empty() {
                proof {
                    assert(spec_select(d, db0, st0, mv0) == (st0, mv0));
                }
                stop = true;
            } else {
                let step = match self.is.plan.pop() {
                    Ok(s) => s,
                    Err(_) => {
                        proof {
                            assert(false);
                        }
                        return ;
                    },
                };
                let ghost stepv = step@;
                proof {
                    assert(stepv == st0.plan.last());
                    assert(self.is.plan@ == st0.plan.drop_last());
                    lemma_weight_drop_last(st0.plan);
                    lemma_step_weight_pos(stepv);
                }
                match step {
                    PlanStep::Findout(f) => {
                        let q = f.content;
                        let pushed = self.is.qud.push(q.clone());
                        proof {
                            if pushed is Err {
                                assert(false);
                            }
                        }
                        let pushed2 = self.mivs.next_moves.push(Move::Ask(q));
                        proof {
                            if pushed2 is Err {
                                assert(false);
                            }
                            assert(self.isv() == spec_select(d, db0, st0, mv0).0);
                            assert(self.mivs.next_moves@ == spec_select(d, db0, st0, mv0).1);
                        }
                        stop = true;
                    },
                    PlanStep::Raise(rs) => {
                        let q = rs.content;
                        let pushed = self.is.qud.push(q.clone());
                        proof {
                            if pushed is Err {
                                assert(false);
                            }
                        }
                        let pushed2 = self.mivs.next_moves.push(Move::Ask(q));
                        proof {
                            if pushed2 is Err {
                                assert(false);
                            }
                            assert(self.isv() == spec_select(d, db0, st0, mv0).0);
                            assert(self.mivs.next_moves@ == spec_select(d, db0, st0, mv0).1);
                        }
                        stop = true;
                    },
                    PlanStep::Respond(rs) => {
                        match find_relevant_exec(&self.domain, &self.is.bel, &rs.content) {
                            Some(p) => {
                                let pushed2 = self.mivs.next_moves.push(
                                    Move::Answer(Ans::Prop(p)),
                                );
                                proof {
                                    if pushed2 is Err {
                                        assert(false);
                                    }
                                    assert(self.isv() == spec_select(d, db0, st0, mv0).0);
                                    assert(self.mivs.next_moves@ == spec_select(
                                        d,
                                        db0,
                                        st0,
                                        mv0,
                                    ).1);
                                }
                                stop = true;
                            },
                            None => {
                                proof {
                                    assert(spec_select(d, db0, st0, mv0) == spec_select(
                                        d,
                                        db0,
                                        self.isv(),
                                        mv0,
                                    ));
                                }
                            },
                        }
                    },
                    PlanStep::ConsultDB(cs) => {
                        match self.database.consult_db(&cs.content, &self.is.com) {
                            Ok(p) => {
                                let added = self.is.bel.add(p);
                                proof {
                                    if added is Err {
                                        assert(false);
                                    }
                                    assert(self.is.bel@ == set_add(
                                        st0.bel,
                                        spec_consult(db0, st0.com)->Some_0,
                                    ));
                                    assert(spec_select(d, db0, st0, mv0) == spec_select(
                                        d,
                                        db0,
                                        self.isv(),
                                        mv0,
                                    ));
                                }
                            },
                            Err(_) => {
                                proof {
                                    assert(spec_select(d, db0, st0, mv0) == spec_select(
                                        d,
                                        db0,
                                        self.isv(),
                                        mv0,
                                    ));
                                }
                            },
                        }
                    },
                    PlanStep::If(ifs) => {
                        let ghost cv = ifs.cond@;
                        let ghost tv = steps_view(ifs.iftrue@);
                        let ghost ev = steps_view(ifs.iffalse@);
                        proof {
                            assert(stepv == PlanStepV::If(cv, tv, ev));
                        }
                        let cond = cond_holds_exec(&self.is.com, &ifs.cond);
                        let mut br = if cond {
                            ifs.iftrue
                        } else {
                            ifs.iffalse
                        };
                        let ghost bv = if cond {
                            tv
                        } else {
                            ev
                        };
                        let ghost nb = bv.len() as int;
                        let ghost plan_mid = self.is.plan@;
                        proof {
                            assert(self.is.plan@ =~= plan_mid + bv.subrange(nb, nb).reverse());
                        }
                        while br.len() > 0
                            invariant
                                nb == bv.len(),
                                br@.len() <= nb,
                                forall|j: int| 0 <= j < br@.len() ==> (#[trigger] br@[j])@
                                    == bv[j],
                                self.is.plan@ == plan_mid + bv.subrange(
                                    br@.len() as int,
                                    nb,
                                ).reverse(),
                                self.is.plan.constraint_spec() is None,
                                self.wf(),
                                self.domain == old(self).domain,
                                self.database == old(self).database,
                                self.grammar == old(self).grammar,
                                self.is.agenda == old(self).is.agenda,
                                self.is.bel@ == st0.bel,
                                self.is.com@ == st0.com,
                                self.is.qud@ == st0.qud,
                                self.mivs.input == old(self).mivs.input,
                                self.mivs.latest_speaker == old(self).mivs.latest_speaker,
                                self.mivs.latest_moves == old(self).mivs.latest_moves,
                                self.mivs.output == old(self).mivs.output,
                                self.mivs.program_state == old(self).mivs.program_state,
                                self.mivs.next_moves@ == mv0,
                                self.mivs.next_moves.constraint_spec() == old(
                                    self,
                                ).mivs.next_moves.constraint_spec(),
                                d == old(self).domain@,
                                db0 == old(self).database@,
                                target == spec_select(
                                    d,
                                    db0,
                                    old(self).isv(),
                                    old(self).mivs.next_moves@,
                                ),
                                spec_select(d, db0, st0, mv0) == target,
                                st0.plan.len() > 0,
                                stepv == st0.plan.last(),
                                plan_mid == st0.plan.drop_last(),
                                stepv == PlanStepV::If(cv, tv, ev),
                                cond == spec_cond_holds(st0.com, cv),
                                bv == (if cond {
                                    tv
                                } else {
                                    ev
                                }),
                                st0.quit == (self.mivs.program_state == Some(
                                    ProgramState::QUIT,
                                )),
                            decreases br@.len(),
                        {
                            let s = match br.pop() {
                                Some(s) => s,
                                None => {
                                    proof {
                                        assert(false);
                                    }
                                    return ;
                                },
                            };
                            let pushed2 = self.is.plan.push(s);
                            proof {
                                if pushed2 is Err {
                                    assert(false);
                                }
                                assert(self.is.plan@ =~= plan_mid + bv.subrange(
                                    br@.len() as int,
                                    nb,
                                ).reverse());
                            }
                        }
                        proof {
                            assert(bv.subrange(0, nb) =~= bv);
                            assert(self.is.plan@ == plan_mid + bv.reverse());
                            assert(self.isv() == IsuStateV {
                                plan: plan_mid + bv.reverse(),
                                bel: st0.bel,
                                com: st0.com,
                                qud: st0.qud,
                                quit: st0.quit,
                            });
                            assert(spec_select(d, db0, st0, mv0) == spec_select(
                                d,
                                db0,
                                self.isv(),
                                mv0,
                            ));
                            lemma_weight_drop_last(st0.plan);
                            lemma_step_weight_pos(stepv);
                            lemma_weight_concat(plan_mid, bv.reverse());
                            lemma_weight_reverse(bv);
                            assert(plan_weight(self.is.plan@) < plan_weight(st0.plan));
                        }
                    },
                }
            }
        }
    }

    /// Folds one move into the state, as [`spec_integrate`] states.
    fn integrate_move(&mut self, mv: &Move)
        requires
            old(self).wf(),
        ensures
            final(self).wf(),
            final(self).domain == old(self).domain,
            final(self).database == old(self).database,
            final(self).grammar == old(self).grammar,
            final(self).is.agenda == old(self).is.agenda,
            final(self).mivs.input == old(self).mivs.input,
            final(self).mivs.latest_speaker == old(self).mivs.latest_speaker,
            final(self).mivs.latest_moves == old(self).mivs.latest_moves,
            final(self).mivs.next_moves == old(self).mivs.next_moves,
            final(self).mivs.output == old(self).mivs.output,
            final(self).isv() == spec_integrate(old(self).domain@, old(self).isv(), mv@),
            final(self).mivs.program_state == (if spec_integrate(
                old(self).domain@,
                old(self).isv(),
                mv@,
            ).quit {
                Some(ProgramState::QUIT)
            } else {
                old(self).mivs.program_state
            }),
    {
        match mv {
            Move::Quit => {
                self.mivs.program_state = Some(ProgramState::QUIT);
            },
            Move::Greet => {},
            Move::Icm(_i) => {},
            Move::Ask(q) => {
                let _found = self.raise_question(q);
            },
            Move::Answer(a) => {
                if self.is.qud.is_empty() {
                    return ;
                }
                let top = match self.is.qud.top() {
                    Ok(t) => t.clone(),
                    Err(_) => {
                        proof {
                            assert(false);
                        }
                        return ;
                    },
                };
                let rel = self.domain.relevant(a, &top);
                let comb = combinable_exec(a, &top);
                if rel && comb {
                    let p = self.domain.combine(&top, a);
                    let added = self.is.com.add(p);
                    proof {
                        if added is Err {
                            assert(false);
                        }
                    }
                    if self.domain.resolves(a, &top) {
                        let popped = self.is.qud.pop();
                        proof {
                            if popped is Err {
                                assert(false);
                            }
                        }
                    }
                }
            },
        }
    }

    /// Integrates the latest moves into the state: user moves are
    /// folded in order, as [`spec_integrate_upto`] states; after a
    /// system turn there is nothing to integrate.
    pub fn update(&mut self)
        requires
            old(self).wf(),
        ensures
            final(self).wf(),
            final(self).domain == old(self).domain,
            final(self).database == old(self).database,
            final(self).grammar == old(self).grammar,
            final(self).is.agenda == old(self).is.agenda,
            final(self).mivs.input == old(self).mivs.input,
            final(self).mivs.latest_speaker == old(self).mivs.latest_speaker,
            final(self).mivs.latest_moves == old(self).mivs.latest_moves,
            final(self).mivs.next_moves == old(self).mivs.next_moves,
            final(self).mivs.output == old(self).mivs.output,
            old(self).mivs.latest_speaker == Some(Speaker::USR) ==> (final(self).isv()
                == spec_integrate_upto(
                old(self).domain@,
                old(self).isv(),
                old(self).mivs.latest_moves@,
                old(self).mivs.latest_moves@.len() as int,
            ) && final(self).mivs.program_state == (if spec_integrate_upto(
                old(self).domain@,
                old(self).isv(),
                old(self).mivs.latest_moves@,
                old(self).mivs.latest_moves@.len() as int,
            ).quit {
                Some(ProgramState::QUIT)
            } else {
                old(self).mivs.program_state
            })),
            old(self).mivs.latest_speaker != Some(Speaker::USR) ==> (final(self).is == old(self).is && final(self).mivs.program_state == old(self).mivs.program_state),
    {
        let proceed = match self.mivs.latest_speaker {
            Some(Speaker::USR) => true,
            _ => false,
        };
        if !proceed {
            return ;
        }
        let ghost d = self.domain@;
        let ghost st0 = self.isv();
        let ghost moves0 = self.mivs.latest_moves@;
        let ghost ps0 = self.mivs.program_state;
        let n = self.mivs.latest_moves.len();
        let mut i: usize = 0;
        while i < n
            invariant
                self.wf(),
                n == moves0.len(),
                0 <= i <= n,
                d == self.domain@,
                self.domain == old(self).domain,
                self.database == old(self).database,
                self.grammar == old(self).grammar,
                self.is.agenda == old(self).is.agenda,
                self.mivs.input == old(self).mivs.input,
                self.mivs.latest_speaker == old(self).mivs.latest_speaker,
                self.mivs.latest_moves == old(self).mivs.latest_moves,
                self.mivs.next_moves == old(self).mivs.next_moves,
                self.mivs.output == old(self).mivs.output,
                moves0 == self.mivs.latest_moves@,
                st0 == old(self).isv(),
                ps0 == old(self).mivs.program_state,
                st0.quit == (ps0 == Some(ProgramState::QUIT)),
                self.isv() == spec_integrate_upto(d, st0, moves0, i as int),
                self.mivs.program_state == (if spec_integrate_upto(d, st0, moves0, i as int).quit {
                    Some(ProgramState::QUIT)
                } else {
                    ps0
                }),
            decreases n - i,
        {
            let mv = match self.mivs.latest_moves.get(i) {
                Some(m) => m.clone(),
                None => {
                    proof {
                        assert(false);
                    }
                    return ;
                },
            };
            self.integrate_move(&mv);
            proof {
                assert(mv@ == moves0[i as int]);
                assert(spec_integrate_upto(d, st0, moves0, i as int + 1) == spec_integrate(
                    d,
                    spec_integrate_upto(d, st0, moves0, i as int),
                    moves0[i as int],
                ));
            }
            i = i + 1;
        }
    }

    /// Records one read line: a line becomes the latest input with the
    /// user as latest speaker; end of input is fatal to the session, so
    /// it is reported and the run state turns to quit.
    pub fn feed_input(&mut self, line: Option<&str>) -> (r: Result<(), IsuError>)
        ensures
            final(self).wf() == old(self).wf(),
            final(self).domain == old(self).domain,
            final(self).database == old(self).database,
            final(self).grammar == old(self).grammar,
            final(self).is == old(self).is,
            final(self).mivs.latest_moves == old(self).mivs.latest_moves,
            final(self).mivs.next_moves == old(self).mivs.next_moves,
            final(self).mivs.output == old(self).mivs.output,
            line matches Some(s) ==> (r is Ok && (final(self).mivs.input matches Some(v) && v@
                == s@) && final(self).mivs.latest_speaker == Some(Speaker::USR) && final(self).mivs.program_state == old(self).mivs.program_state),
            line is None ==> ((r matches Err(e) && e == IsuError::InputClosed) && final(self).mivs.input == old(self).mivs.input && final(self).mivs.latest_speaker == old(self).mivs.latest_speaker && final(self).mivs.program_state == Some(ProgramState::QUIT)),
    {
        match line {
            Some(s) => {
                self.mivs.input = Some(s.to_owned());
                self.mivs.latest_speaker = Some(Speaker::USR);
                Ok(())
            },
            None => {
                self.mivs.program_state = Some(ProgramState::QUIT);
                Err(IsuError::InputClosed)
            },
        }
    }

    /// Interprets the latest input into the latest moves, as
    /// [`spec_interpret`] states.  A non-empty utterance that cannot be
    /// understood is reported for the caller to relay; the session
    /// continues either way.
    pub fn interpret(&mut self) -> (r: Result<(), IsuError>)
        requires
            old(self).wf(),
        ensures
            final(self).wf(),
            final(self).domain == old(self).domain,
            final(self).database == old(self).database,
            final(self).grammar == old(self).grammar,
            final(self).is == old(self).is,
            final(self).mivs.input == old(self).mivs.input,
            final(self).mivs.latest_speaker == old(self).mivs.latest_speaker,
            final(self).mivs.next_moves == old(self).mivs.next_moves,
            final(self).mivs.output == old(self).mivs.output,
            final(self).mivs.program_state == old(self).mivs.program_state,
            final(self).mivs.latest_moves.constraint_spec() is None,
            match old(self).mivs.input {
                None => final(self).mivs.latest_moves@ == Seq::<MoveV>::empty() && r is Ok,
                Some(s) => if s@.len() == 0 {
                    final(self).mivs.latest_moves@ == Seq::<MoveV>::empty() && r is Ok
                } else {
                    match spec_interpret(s@) {
                        Some(m) => final(self).mivs.latest_moves@ == seq![m] && r is Ok,
                        None => final(self).mivs.latest_moves@ == Seq::<MoveV>::empty() && (
                        r matches Err(e) && e == IsuError::NotUnderstood),
                    }
                },
            },
    {
        self.mivs.latest_moves.clear();
        let input = match &self.mivs.input {
            Some(s) => s.clone(),
            None => {
                return Ok(());
            },
        };
        if input.as_str().unicode_len() == 0 {
            return Ok(());
        }
        match self.grammar.interpret(input.as_str()) {
            Some(moves) => {
                self.mivs.latest_moves = moves;
                Ok(())
            },
            None => Err(IsuError::NotUnderstood),
        }
    }

    /// The latest moves of a turn, deduplicated in order.
    pub open spec fn dedup_upto(s: Seq<MoveV>, k: int) -> Seq<MoveV>
        decreases k,
    {
        if k <= 0 {
            Seq::<MoveV>::empty()
        } else {
            set_add(Self::dedup_upto(s, k - 1), s[k - 1])
        }
    }

    /// Renders the queued moves through the grammar into the output
    /// field: each move's canonical form is looked up with a literal
    /// fallback, and the phrases are joined with terminal punctuation.
    pub fn generate(&mut self)
        requires
            old(self).wf(),
        ensures
            final(self).wf(),
            final(self).domain == old(self).domain,
            final(self).database == old(self).database,
            final(self).grammar == old(self).grammar,
            final(self).is == old(self).is,
            final(self).mivs.input == old(self).mivs.input,
            final(self).mivs.latest_speaker == old(self).mivs.latest_speaker,
            final(self).mivs.latest_moves == old(self).mivs.latest_moves,
            final(self).mivs.next_moves == old(self).mivs.next_moves,
            final(self).mivs.program_state == old(self).mivs.program_state,
            ({
                let dd = Self::dedup_upto(
                    old(self).mivs.next_moves@,
                    old(self).mivs.next_moves@.len() as int,
                );
                final(self).mivs.output matches Some(o) && o@ == join_upto(
                    rendered(old(self).grammar@, dd),
                    dd.len() as int,
                )
            }),
    {
        let ghost nm0 = self.mivs.next_moves@;
        let n = self.mivs.next_moves.len();
        let mut moves_set: TSet<Move, AcceptAll> = TSet::new();
        let mut i: usize = 0;
        while i < n
            invariant
                n == nm0.len(),
                0 <= i <= n,
                nm0 == self.mivs.next_moves@,
                self.mivs.next_moves == old(self).mivs.next_moves,
                moves_set@ == Self::dedup_upto(nm0, i as int),
                moves_set.constraint_spec() is None,
            decreases n - i,
        {
            let m = match self.mivs.next_moves.get(i) {
                Some(m) => m.clone(),
                None => {
                    proof {
                        assert(false);
                    }
                    return ;
                },
            };
            let added = moves_set.add(m);
            proof {
                if added is Err {
                    assert(false);
                }
            }
            i = i + 1;
        }
        let out = self.grammar.generate(&moves_set);
        self.mivs.output = Some(out);
    }

    /// Commits a system turn: the speaker becomes the system, the
    /// queued moves (deduplicated) become the latest moves and the
    /// queue empties, and the rendered output is returned for the
    /// caller to emit (a placeholder when nothing was rendered).
    pub fn output_text(&mut self) -> (r: String)
        requires
            old(self).wf(),
        ensures
            final(self).wf(),
            final(self).domain == old(self).domain,
            final(self).database == old(self).database,
            final(self).grammar == old(self).grammar,
            final(self).is == old(self).is,
            final(self).mivs.input == old(self).mivs.input,
            final(self).mivs.output == old(self).mivs.output,
            final(self).mivs.program_state == old(self).mivs.program_state,
            final(self).mivs.latest_speaker == Some(Speaker::SYS),
            final(self).mivs.latest_moves@ == Self::dedup_upto(
                old(self).mivs.next_moves@,
                old(self).mivs.next_moves@.len() as int,
            ),
            final(self).mivs.latest_moves.constraint_spec() is None,
            final(self).mivs.next_moves@ == Seq::<MoveV>::empty(),
            final(self).mivs.next_moves.constraint_spec() == old(self).mivs.next_moves.constraint_spec(),
            r@ == (match old(self).mivs.output {
                Some(o) => o@,
                None => "[---]"@,
            }),
    {
        let text = match &self.mivs.output {
            Some(o) => o.clone(),
            None => String::from_str("[---]"),
        };
        self.mivs.latest_speaker = Some(Speaker::SYS);
        self.mivs.latest_moves.clear();
        let ghost nm0 = self.mivs.next_moves@;
        let n = self.mivs.next_moves.len();
        let mut i: usize = 0;
        while i < n
            invariant
                n == nm0.len(),
                0 <= i <= n,
                nm0 == self.mivs.next_moves@,
                self.wf(),
                self.domain == old(self).domain,
                self.database == old(self).database,
                self.grammar == old(self).grammar,
                self.is == old(self).is,
                self.mivs.input == old(self).mivs.input,
                self.mivs.output == old(self).mivs.output,
                self.mivs.program_state == old(self).mivs.program_state,
                self.mivs.latest_speaker == Some(Speaker::SYS),
                self.mivs.next_moves == old(self).mivs.next_moves,
                self.mivs.latest_moves@ == Self::dedup_upto(nm0, i as int),
                self.mivs.latest_moves.constraint_spec() is None,
            decreases n - i,
        {
            let m = match self.mivs.next_moves.get(i) {
                Some(m) => m.clone(),
                None => {
                    proof {
                        assert(false);
                    }
                    return text;
                },
            };
            let added = self.mivs.latest_moves.add(m);
            proof {
                if added is Err {
                    assert(false);
                }
            }
            i = i + 1;
        }
        self.mivs.next_moves.clear();
        text
    }
}

} // verus!
