//! The domain registry: the closed vocabulary (zero- and one-place
//! predicates, sorts, and the individuals derived from the sorts), the
//! question-to-plan table, and the relevance, resolution and
//! combination algorithms relating answers to questions.

use vstd::prelude::*;
use crate::errors::IsuError;
use crate::plan::{If, PlanStep, PlanStepV, steps_view};
use crate::prop::{Prop, PropV, Ans, AnsV, ShortAns, YesNo};
use crate::question::{Question, QuestionV, question_text, WhQ, YNQ, AltQ};
use crate::semantics::{Ind, Pred0, Pred1, Sort};
use crate::text::str_eq;

verus! {

/// The mathematical value of a domain.
pub ghost struct DomainV {
    pub preds0: Seq<Seq<char>>,
    pub preds1: Seq<(Seq<char>, Seq<char>)>,
    pub sorts: Seq<(Seq<char>, Seq<Seq<char>>)>,
    pub inds: Seq<(Seq<char>, Seq<char>)>,
    pub plans: Seq<(Seq<char>, Seq<PlanStepV>)>,
}

/// First-match association lookup.
pub open spec fn assoc<V>(m: Seq<(Seq<char>, V)>, k: Seq<char>) -> Option<V>
    decreases m.len(),
{
    if m.len() == 0 {
        None
    } else if m[0].0 == k {
        Some(m[0].1)
    } else {
        assoc(m.subrange(1, m.len() as int), k)
    }
}

/// [`assoc`] is pinned down by the position of the first matching key.
pub proof fn lemma_assoc_is<V>(m: Seq<(Seq<char>, V)>, k: Seq<char>, i: int)
    requires
        0 <= i <= m.len(),
        forall|j: int| 0 <= j < i ==> (#[trigger] m[j]).0 != k,
        i < m.len() ==> m[i].0 == k,
    ensures
        i < m.len() ==> assoc(m, k) == Some(m[i].1),
        i == m.len() ==> assoc(m, k) is None,
    decreases m.len(),
{
    if m.len() == 0 {
    } else if m[0].0 == k {
        assert(i == 0);
    } else {
        let t = m.subrange(1, m.len() as int);
        assert(i >= 1);
        assert forall|j: int| 0 <= j < i - 1 implies (#[trigger] t[j]).0 != k by {
            assert(t[j] == m[j + 1]);
        }
        if i - 1 < t.len() {
            assert(t[i - 1] == m[i]);
        }
        lemma_assoc_is(t, k, i - 1);
    }
}

/// The views of a list of names.
pub open spec fn names_view(v: Seq<String>) -> Seq<Seq<char>> {
    Seq::new(v.len(), |i: int| v[i]@)
}

/// The views of a name-to-name table.
pub open spec fn table_view(v: Seq<(String, String)>) -> Seq<(Seq<char>, Seq<char>)> {
    Seq::new(v.len(), |i: int| (v[i].0@, v[i].1@))
}

/// The views of a sort table.
pub open spec fn sorts_table_view(v: Seq<(String, Vec<String>)>) -> Seq<
    (Seq<char>, Seq<Seq<char>>),
> {
    Seq::new(v.len(), |i: int| (v[i].0@, names_view(v[i].1@)))
}

/// The views of the plan table.
pub open spec fn plans_view(v: Seq<(String, Vec<PlanStep>)>) -> Seq<
    (Seq<char>, Seq<PlanStepV>),
> {
    Seq::new(v.len(), |i: int| (v[i].0@, steps_view(v[i].1@)))
}

/// Each member of each sort, paired with its sort name, in sort-table
/// order: the derived individual index.
pub open spec fn pair_with_sort(members: Seq<Seq<char>>, sort: Seq<char>) -> Seq<
    (Seq<char>, Seq<char>),
> {
    Seq::new(members.len(), |i: int| (members[i], sort))
}

/// The derived individual index of the first `k` sort entries.
pub open spec fn derived_inds_upto(sorts: Seq<(Seq<char>, Seq<Seq<char>>)>, k: int) -> Seq<
    (Seq<char>, Seq<char>),
>
    decreases k,
{
    if k <= 0 {
        Seq::<(Seq<char>, Seq<char>)>::empty()
    } else {
        derived_inds_upto(sorts, k - 1) + pair_with_sort(sorts[k - 1].1, sorts[k - 1].0)
    }
}

/// Mapping the view over a table commutes with appending an entry.
pub proof fn lemma_table_view_push(before: Seq<(String, String)>, m: String, s: String)
    ensures
        table_view(before.push((m, s))) =~= table_view(before).push((m@, s@)),
{
}

/// Appending the next element of `b` extends the copied prefix.
pub proof fn lemma_concat_sub_push<A>(a: Seq<A>, b: Seq<A>, j: int)
    requires
        0 <= j < b.len(),
    ensures
        (a + b.subrange(0, j)).push(b[j]) =~= a + b.subrange(0, j + 1),
{
}

/// The derived individual index of a sort table.
pub open spec fn derived_inds(sorts: Seq<(Seq<char>, Seq<Seq<char>>)>) -> Seq<
    (Seq<char>, Seq<char>),
> {
    derived_inds_upto(sorts, sorts.len() as int)
}

/// The domain registry.  The individual index is derived from the sort
/// table at construction and never mutated afterwards.
pub struct Domain {
    preds0: Vec<String>,
    preds1: Vec<(String, String)>,
    sorts: Vec<(String, Vec<String>)>,
    inds: Vec<(String, String)>,
    plans: Vec<(String, Vec<PlanStep>)>,
}

impl View for Domain {
    type V = DomainV;

    closed spec fn view(&self) -> DomainV {
        DomainV {
            preds0: names_view(self.preds0@),
            preds1: table_view(self.preds1@),
            sorts: sorts_table_view(self.sorts@),
            inds: table_view(self.inds@),
            plans: plans_view(self.plans@),
        }
    }
}

impl Domain {
    /// The construction invariant: the individual index is exactly the
    /// one derived from the sort table.
    pub open spec fn wf(&self) -> bool {
        self@.inds == derived_inds(self@.sorts)
    }

    /// Builds a domain from its vocabulary, deriving the individual
    /// index from the sort table; the plan table starts empty.
    pub fn new(preds0: Vec<String>, preds1: Vec<(String, String)>, sorts: Vec<
        (String, Vec<String>),
    >) -> (r: Domain)
        ensures
            r@.preds0 == names_view(preds0@),
            r@.preds1 == table_view(preds1@),
            r@.sorts == sorts_table_view(sorts@),
            r@.inds == derived_inds(sorts_table_view(sorts@)),
            r@.plans == Seq::<(Seq<char>, Seq<PlanStepV>)>::empty(),
            r.wf(),
    {
        let ghost sv = sorts_table_view(sorts@);
        let mut inds: Vec<(String, String)> = Vec::new();
        let mut i: usize = 0;
        while i < sorts.len()
            invariant
                sv == sorts_table_view(sorts@),
                0 <= i <= sorts@.len(),
                table_view(inds@) == derived_inds_upto(sv, i as int),
            decreases sorts@.len() - i,
        {
            let members_len = sorts[i].1.len();
            let mut j: usize = 0;
            while j < members_len
                invariant
                    sv == sorts_table_view(sorts@),
                    0 <= i < sorts@.len(),
                    members_len == sorts@[i as int].1@.len(),
                    0 <= j <= members_len,
                    table_view(inds@) == derived_inds_upto(sv, i as int) + pair_with_sort(
                        sv[i as int].1,
                        sv[i as int].0,
                    ).subrange(0, j as int),
                decreases members_len - j,
            {
                let member = sorts[i].1[j].clone();
                let sort_name = sorts[i].0.clone();
                let ghost before = inds@;
                inds.push((member, sort_name));
                proof {
                    let pair = pair_with_sort(sv[i as int].1, sv[i as int].0);
                    let d = derived_inds_upto(sv, i as int);
                    assert(sv[i as int].0 == sorts@[i as int].0@);
                    assert(sv[i as int].1 == names_view(sorts@[i as int].1@));
                    assert(sv[i as int].1[j as int] == sorts@[i as int].1@[j as int]@);
                    assert(pair[j as int] == (member@, sort_name@));
                    lemma_table_view_push(before, member, sort_name);
                    assert(inds@ == before.push((member, sort_name)));
                    assert(table_view(inds@) == table_view(before).push((member@, sort_name@)));
                    lemma_concat_sub_push(d, pair, j as int);
                    assert(table_view(inds@) == d + pair.subrange(0, j as int + 1));
                }
                j = j + 1;
            }
            proof {
                assert(pair_with_sort(sv[i as int].1, sv[i as int].0).subrange(
                    0,
                    members_len as int,
                ) =~= pair_with_sort(sv[i as int].1, sv[i as int].0));
                assert(table_view(inds@) == derived_inds_upto(sv, i as int + 1));
            }
            i = i + 1;
        }
        let r = Domain { preds0, preds1, sorts, inds, plans: Vec::new() };
        proof {
            assert(plans_view(r.plans@) =~= Seq::<(Seq<char>, Seq<PlanStepV>)>::empty());
            assert(table_view(r.inds@) == derived_inds_upto(sv, sv.len() as int));
        }
        r
    }

    /// Whether `name` is a registered zero-place predicate.
    pub fn has_pred0(&self, name: &str) -> (r: bool)
        ensures
            r == self@.preds0.contains(name@),
    {
        let mut i: usize = 0;
        while i < self.preds0.len()
            invariant
                0 <= i <= self@.preds0.len(),
                self@.preds0.len() == self.preds0@.len(),
                forall|j: int| 0 <= j < i ==> self@.preds0[j] != name@,
            decreases self@.preds0.len() - i,
        {
            if str_eq(self.preds0[i].as_str(), name) {
                proof {
                    assert(self@.preds0[i as int] == name@);
                }
                return true;
            }
            i = i + 1;
        }
        proof {
            if self@.preds0.contains(name@) {
                let w = choose|j: int| 0 <= j < self@.preds0.len() && self@.preds0[j] == name@;
                assert(self@.preds0[w] != name@);
            }
        }
        false
    }

    /// The sort a one-place predicate ranges over, if registered.
    pub fn pred1_sort(&self, name: &str) -> (r: Option<&String>)
        ensures
            match r {
                Some(v) => assoc(self@.preds1, name@) == Some(v@),
                None => assoc(self@.preds1, name@) is None,
            },
    {
        let mut i: usize = 0;
        while i < self.preds1.len()
            invariant
                0 <= i <= self@.preds1.len(),
                self@.preds1.len() == self.preds1@.len(),
                forall|j: int| 0 <= j < i ==> (#[trigger] self@.preds1[j]).0 != name@,
            decreases self@.preds1.len() - i,
        {
            if str_eq(self.preds1[i].0.as_str(), name) {
                proof {
                    lemma_assoc_is(self@.preds1, name@, i as int);
                }
                return Some(&self.preds1[i].1);
            }
            i = i + 1;
        }
        proof {
            lemma_assoc_is(self@.preds1, name@, self@.preds1.len() as int);
        }
        None
    }

    /// The sort of an individual, if registered.
    pub fn ind_sort(&self, name: &str) -> (r: Option<&String>)
        ensures
            match r {
                Some(v) => assoc(self@.inds, name@) == Some(v@),
                None => assoc(self@.inds, name@) is None,
            },
    {
        let mut i: usize = 0;
        while i < self.inds.len()
            invariant
                0 <= i <= self@.inds.len(),
                self@.inds.len() == self.inds@.len(),
                forall|j: int| 0 <= j < i ==> (#[trigger] self@.inds[j]).0 != name@,
            decreases self@.inds.len() - i,
        {
            if str_eq(self.inds[i].0.as_str(), name) {
                proof {
                    lemma_assoc_is(self@.inds, name@, i as int);
                }
                return Some(&self.inds[i].1);
            }
            i = i + 1;
        }
        proof {
            lemma_assoc_is(self@.inds, name@, self@.inds.len() as int);
        }
        None
    }

    /// Whether `name` is a registered sort.
    pub fn has_sort(&self, name: &str) -> (r: bool)
        ensures
            r == (assoc(self@.sorts, name@) is Some),
    {
        let mut i: usize = 0;
        while i < self.sorts.len()
            invariant
                0 <= i <= self@.sorts.len(),
                self@.sorts.len() == self.sorts@.len(),
                forall|j: int| 0 <= j < i ==> (#[trigger] self@.sorts[j]).0 != name@,
            decreases self@.sorts.len() - i,
        {
            if str_eq(self.sorts[i].0.as_str(), name) {
                proof {
                    lemma_assoc_is(self@.sorts, name@, i as int);
                }
                return true;
            }
            i = i + 1;
        }
        proof {
            lemma_assoc_is(self@.sorts, name@, self@.sorts.len() as int);
        }
        false
    }
}


/// Typecheck of a zero-place predicate name: it must be registered.
pub open spec fn tc_name_pred0(d: DomainV, p: Seq<char>) -> Result<(), IsuError> {
    if d.preds0.contains(p) {
        Ok(())
    } else {
        Err(IsuError::UnknownPredicate)
    }
}

/// Typecheck of a one-place predicate name: it must be registered.
pub open spec fn tc_name_pred1(d: DomainV, p: Seq<char>) -> Result<(), IsuError> {
    if assoc(d.preds1, p) is Some {
        Ok(())
    } else {
        Err(IsuError::UnknownPredicate)
    }
}

/// Typecheck of an individual name: it must be registered.
pub open spec fn tc_name_ind(d: DomainV, i: Seq<char>) -> Result<(), IsuError> {
    if assoc(d.inds, i) is Some {
        Ok(())
    } else {
        Err(IsuError::UnknownIndividual)
    }
}

/// Typecheck of a sort name: it must be registered.
pub open spec fn tc_name_sort(d: DomainV, s: Seq<char>) -> Result<(), IsuError> {
    if assoc(d.sorts, s) is Some {
        Ok(())
    } else {
        Err(IsuError::UnknownSort)
    }
}

/// Typecheck of a proposition: the predicate must be a registered
/// zero-place predicate; the argument, if present, a registered
/// individual; and when the predicate is also a registered one-place
/// predicate, the argument's sort must equal its declared sort.  The
/// first failing check is reported.
pub open spec fn tc_prop(d: DomainV, p: PropV) -> Result<(), IsuError> {
    if !d.preds0.contains(p.pred) {
        Err(IsuError::UnknownPredicate)
    } else {
        match p.ind {
            None => Ok(()),
            Some(i) => if assoc(d.inds, i) is None {
                Err(IsuError::UnknownIndividual)
            } else if assoc(d.preds1, p.pred) is Some && assoc(d.inds, i) != assoc(
                d.preds1,
                p.pred,
            ) {
                Err(IsuError::SortMismatch)
            } else {
                Ok(())
            },
        }
    }
}

/// Typecheck of an answer.
pub open spec fn tc_ans(d: DomainV, a: AnsV) -> Result<(), IsuError> {
    match a {
        AnsV::Prop(p) => tc_prop(d, p),
        AnsV::Short(s) => tc_name_ind(d, s.ind),
        AnsV::YesNo(_) => Ok(()),
    }
}

/// Typecheck of the first `k` propositions of an alternative question,
/// reporting the first failure.
pub open spec fn tc_props_upto(d: DomainV, ps: Seq<PropV>, k: int) -> Result<(), IsuError>
    decreases k,
{
    if k <= 0 {
        Ok(())
    } else {
        match tc_props_upto(d, ps, k - 1) {
            Err(e) => Err(e),
            Ok(()) => tc_prop(d, ps[k - 1]),
        }
    }
}

/// Typecheck of a question.
pub open spec fn tc_question(d: DomainV, q: QuestionV) -> Result<(), IsuError> {
    match q {
        QuestionV::Wh(p) => tc_name_pred1(d, p),
        QuestionV::YN(p) => tc_prop(d, p),
        QuestionV::Alt(ps) => tc_props_upto(d, ps, ps.len() as int),
    }
}

/// Typecheck of a plan step, recursively through both branches of a
/// conditional, reporting the first failure.
pub open spec fn tc_step(d: DomainV, s: PlanStepV) -> Result<(), IsuError>
    decreases s, 0int, 0int,
{
    match s {
        PlanStepV::Findout(q) => tc_question(d, q),
        PlanStepV::ConsultDB(q) => tc_question(d, q),
        PlanStepV::Respond(q) => tc_question(d, q),
        PlanStepV::Raise(q) => tc_question(d, q),
        PlanStepV::If(c, t, e) => match tc_question(d, c) {
            Err(e0) => Err(e0),
            Ok(()) => match tc_steps_upto(d, t, t.len() as int) {
                Err(e1) => Err(e1),
                Ok(()) => tc_steps_upto(d, e, e.len() as int),
            },
        },
    }
}

/// Typecheck of the first `k` steps of a list, reporting the first
/// failure.
pub open spec fn tc_steps_upto(d: DomainV, ss: Seq<PlanStepV>, k: int) -> Result<(), IsuError>
    decreases ss, 1int, k,
{
    if k <= 0 || ss.len() == 0 {
        Ok(())
    } else if k > ss.len() {
        tc_steps_upto(d, ss, ss.len() as int)
    } else {
        match tc_steps_upto(d, ss, k - 1) {
            Err(e) => Err(e),
            Ok(()) => tc_step(d, ss[k - 1]),
        }
    }
}

/// A failure among the first `k` propositions persists in any longer
/// prefix.
pub proof fn lemma_tc_props_propagate(d: DomainV, ps: Seq<PropV>, k: int, k2: int)
    requires
        0 <= k <= k2,
        tc_props_upto(d, ps, k) is Err,
    ensures
        tc_props_upto(d, ps, k2) == tc_props_upto(d, ps, k),
    decreases k2 - k,
{
    if k2 > k {
        lemma_tc_props_propagate(d, ps, k, k2 - 1);
    }
}

/// A failure among the first `k` steps persists in any longer prefix.
pub proof fn lemma_tc_steps_propagate(d: DomainV, ss: Seq<PlanStepV>, k: int, k2: int)
    requires
        0 <= k <= k2 <= ss.len(),
        tc_steps_upto(d, ss, k) is Err,
    ensures
        tc_steps_upto(d, ss, k2) == tc_steps_upto(d, ss, k),
    decreases k2 - k,
{
    if k2 > k {
        lemma_tc_steps_propagate(d, ss, k, k2 - 1);
    }
}

impl Ind {
    /// Typecheck against a domain: the individual must be registered.
    pub fn typecheck(&self, d: &Domain) -> (r: Result<(), IsuError>)
        ensures
            r == tc_name_ind(d@, self@),
    {
        match d.ind_sort(self.0.as_str()) {
            Some(_) => Ok(()),
            None => Err(IsuError::UnknownIndividual),
        }
    }
}

impl Pred0 {
    /// Typecheck against a domain: the predicate must be a registered
    /// zero-place predicate.
    pub fn typecheck(&self, d: &Domain) -> (r: Result<(), IsuError>)
        ensures
            r == tc_name_pred0(d@, self@),
    {
        if d.has_pred0(self.0.as_str()) {
            Ok(())
        } else {
            Err(IsuError::UnknownPredicate)
        }
    }
}

impl Pred1 {
    /// Typecheck against a domain: the predicate must be a registered
    /// one-place predicate.
    pub fn typecheck(&self, d: &Domain) -> (r: Result<(), IsuError>)
        ensures
            r == tc_name_pred1(d@, self@),
    {
        match d.pred1_sort(self.0.as_str()) {
            Some(_) => Ok(()),
            None => Err(IsuError::UnknownPredicate),
        }
    }
}

impl Sort {
    /// Typecheck against a domain: the sort must be registered.
    pub fn typecheck(&self, d: &Domain) -> (r: Result<(), IsuError>)
        ensures
            r == tc_name_sort(d@, self@),
    {
        if d.has_sort(self.0.0.as_str()) {
            Ok(())
        } else {
            Err(IsuError::UnknownSort)
        }
    }
}

impl Prop {
    /// Typecheck against a domain, as [`tc_prop`] states.
    pub fn typecheck(&self, d: &Domain) -> (r: Result<(), IsuError>)
        ensures
            r == tc_prop(d@, self@),
    {
        match self.pred.typecheck(d) {
            Err(e) => {
                return Err(e);
            },
            Ok(()) => {},
        }
        match &self.ind {
            None => Ok(()),
            Some(i) => {
                let ind_sort = match d.ind_sort(i.0.as_str()) {
                    Some(s) => s,
                    None => {
                        return Err(IsuError::UnknownIndividual);
                    },
                };
                match d.pred1_sort(self.pred.0.as_str()) {
                    Some(sort) => {
                        if str_eq(ind_sort.as_str(), sort.as_str()) {
                            Ok(())
                        } else {
                            Err(IsuError::SortMismatch)
                        }
                    },
                    None => Ok(()),
                }
            },
        }
    }
}

impl ShortAns {
    /// Typecheck against a domain: the individual must be registered.
    pub fn typecheck(&self, d: &Domain) -> (r: Result<(), IsuError>)
        ensures
            r == tc_name_ind(d@, self@.ind),
    {
        self.ind.typecheck(d)
    }
}

impl YesNo {
    /// Typecheck against a domain: a polar answer is always valid.
    pub fn typecheck(&self, _d: &Domain) -> (r: Result<(), IsuError>)
        ensures
            r == Ok::<(), IsuError>(()),
    {
        Ok(())
    }
}

impl Ans {
    /// Typecheck against a domain, as [`tc_ans`] states.
    pub fn typecheck(&self, d: &Domain) -> (r: Result<(), IsuError>)
        ensures
            r == tc_ans(d@, self@),
    {
        match self {
            Ans::Prop(p) => p.typecheck(d),
            Ans::ShortAns(a) => a.typecheck(d),
            Ans::YesNo(y) => y.typecheck(d),
        }
    }
}

impl WhQ {
    /// Typecheck against a domain: the predicate must be a registered
    /// one-place predicate.
    pub fn typecheck(&self, d: &Domain) -> (r: Result<(), IsuError>)
        ensures
            r == tc_name_pred1(d@, self@),
    {
        self.pred.typecheck(d)
    }
}

impl YNQ {
    /// Typecheck against a domain: the proposition must typecheck.
    pub fn typecheck(&self, d: &Domain) -> (r: Result<(), IsuError>)
        ensures
            r == tc_prop(d@, self@),
    {
        self.prop.typecheck(d)
    }
}

impl AltQ {
    /// Typecheck against a domain: every alternative must typecheck;
    /// the first failure is reported.
    pub fn typecheck(&self, d: &Domain) -> (r: Result<(), IsuError>)
        ensures
            r == tc_question(d@, QuestionV::Alt(self@)),
    {
        let mut i: usize = 0;
        while i < self.ynqs.len()
            invariant
                0 <= i <= self.ynqs@.len(),
                self@.len() == self.ynqs@.len(),
                forall|j: int| 0 <= j < self@.len() ==> self@[j] == self.ynqs@[j]@,
                tc_props_upto(d@, self@, i as int) is Ok,
            decreases self.ynqs@.len() - i,
        {
            match self.ynqs[i].prop.typecheck(d) {
                Ok(()) => {
                    proof {
                        assert(tc_props_upto(d@, self@, i as int + 1) is Ok);
                    }
                },
                Err(e) => {
                    proof {
                        assert(tc_props_upto(d@, self@, i as int + 1) == Err::<(), IsuError>(e));
                        lemma_tc_props_propagate(d@, self@, i as int + 1, self@.len() as int);
                    }
                    return Err(e);
                },
            }
            i = i + 1;
        }
        Ok(())
    }
}

impl Question {
    /// Typecheck against a domain, as [`tc_question`] states.
    pub fn typecheck(&self, d: &Domain) -> (r: Result<(), IsuError>)
        ensures
            r == tc_question(d@, self@),
    {
        match self {
            Question::WhQ(q) => q.typecheck(d),
            Question::YNQ(q) => q.typecheck(d),
            Question::AltQ(q) => q.typecheck(d),
        }
    }
}


impl If {
    /// Typecheck against a domain: the condition and every step of
    /// both branches must typecheck; the first failure is reported.
    pub fn typecheck(&self, d: &Domain) -> (r: Result<(), IsuError>)
        ensures
            r == tc_step(d@, self@),
        decreases self@, 0int,
    {
        let ghost tv = self@;
        let ghost ts = steps_view(self.iftrue@);
        let ghost es = steps_view(self.iffalse@);
        proof {
            assert(tv == PlanStepV::If(self.cond@, ts, es));
        }
        match self.cond.typecheck(d) {
            Err(e) => {
                return Err(e);
            },
            Ok(()) => {},
        }
        let mut k: usize = 0;
        while k < self.iftrue.len()
            invariant
                tv == self@,
                tv == PlanStepV::If(self.cond@, ts, es),
                ts == steps_view(self.iftrue@),
                tc_question(d@, self.cond@) is Ok,
                0 <= k <= self.iftrue@.len(),
                tc_steps_upto(d@, ts, k as int) is Ok,
            decreases self.iftrue@.len() - k,
        {
            let child = &self.iftrue[k];
            proof {
                let whole = PlanStepV::If(self.cond@, ts, es);
                assert(decreases_to!(whole => whole->If_1));
                assert(whole->If_1 == ts);
                assert(tv == whole);
                assert(decreases_to!(ts => ts[k as int]));
                assert(ts[k as int] == child@);
            }
            match child.typecheck(d) {
                Ok(()) => {
                    proof {
                        assert(tc_steps_upto(d@, ts, k as int + 1) is Ok);
                    }
                },
                Err(e) => {
                    proof {
                        assert(tc_steps_upto(d@, ts, k as int + 1) == Err::<(), IsuError>(e));
                        lemma_tc_steps_propagate(d@, ts, k as int + 1, ts.len() as int);
                    }
                    return Err(e);
                },
            }
            k = k + 1;
        }
        let mut k2: usize = 0;
        while k2 < self.iffalse.len()
            invariant
                tv == self@,
                tv == PlanStepV::If(self.cond@, ts, es),
                es == steps_view(self.iffalse@),
                tc_question(d@, self.cond@) is Ok,
                tc_steps_upto(d@, ts, ts.len() as int) is Ok,
                0 <= k2 <= self.iffalse@.len(),
                tc_steps_upto(d@, es, k2 as int) is Ok,
            decreases self.iffalse@.len() - k2,
        {
            let child = &self.iffalse[k2];
            proof {
                let whole = PlanStepV::If(self.cond@, ts, es);
                assert(decreases_to!(whole => whole->If_2));
                assert(whole->If_2 == es);
                assert(tv == whole);
                assert(decreases_to!(es => es[k2 as int]));
                assert(es[k2 as int] == child@);
            }
            match child.typecheck(d) {
                Ok(()) => {
                    proof {
                        assert(tc_steps_upto(d@, es, k2 as int + 1) is Ok);
                    }
                },
                Err(e) => {
                    proof {
                        assert(tc_steps_upto(d@, es, k2 as int + 1) == Err::<(), IsuError>(e));
                        lemma_tc_steps_propagate(d@, es, k2 as int + 1, es.len() as int);
                    }
                    return Err(e);
                },
            }
            k2 = k2 + 1;
        }
        proof {
            assert(ts.len() == self.iftrue@.len());
            assert(es.len() == self.iffalse@.len());
            assert(tc_steps_upto(d@, es, es.len() as int) is Ok);
            assert(self@ == PlanStepV::If(self.cond@, ts, es));
            assert(tc_step(d@, self@) == tc_steps_upto(d@, es, es.len() as int));
            assert(tc_step(d@, self@) is Ok);
            assert(tc_step(d@, self@)->Ok_0 == ());
            assert(tc_step(d@, self@) == Ok::<(), IsuError>(tc_step(d@, self@)->Ok_0));
        }
        Ok(())
    }
}

impl PlanStep {
    /// Typecheck against a domain, as [`tc_step`] states.
    pub fn typecheck(&self, d: &Domain) -> (r: Result<(), IsuError>)
        ensures
            r == tc_step(d@, self@),
        decreases self@, 1int,
    {
        match self {
            PlanStep::Findout(f) => f.content.typecheck(d),
            PlanStep::ConsultDB(c) => c.content.typecheck(d),
            PlanStep::Respond(r) => r.content.typecheck(d),
            PlanStep::Raise(r) => r.content.typecheck(d),
            PlanStep::If(i) => {
                proof {
                    assert(i@ == self@);
                }
                i.typecheck(d)
            },
        }
    }
}

/// Whether an answer pertains to a question: a proposition answers a
/// wh-question when their predicates agree; a short answer when its
/// individual's sort is the predicate's declared sort; a polar answer
/// pertains to any polar or alternative question; a proposition to a
/// polar question when it equals its proposition, and to an
/// alternative question when it equals one of the alternatives.
pub open spec fn spec_relevant(d: DomainV, a: AnsV, q: QuestionV) -> bool {
    match (a, q) {
        (AnsV::Prop(p), QuestionV::Wh(w)) => p.pred == w,
        (AnsV::Short(s), QuestionV::Wh(w)) => {
            let s1 = assoc(d.inds, s.ind);
            let s2 = assoc(d.preds1, w);
            s1 is Some && s2 is Some && s1 == s2
        },
        (AnsV::YesNo(_), QuestionV::YN(_)) => true,
        (AnsV::Prop(p), QuestionV::YN(pr)) => p == pr,
        (AnsV::Prop(p), QuestionV::Alt(ps)) => exists|i: int| 0 <= i < ps.len() && ps[i] == p,
        (AnsV::YesNo(_), QuestionV::Alt(_)) => true,
        _ => false,
    }
}

/// Whether an answer settles a question: a polar answer settles a
/// polar question (either way); a positive short answer or a positive
/// proposition settles a wh-question; every other relevant combination
/// is relevant but non-resolving.
pub open spec fn spec_resolves(d: DomainV, a: AnsV, q: QuestionV) -> bool {
    spec_relevant(d, a, q) && match (a, q) {
        (AnsV::YesNo(_), QuestionV::YN(_)) => true,
        (AnsV::Short(s), QuestionV::Wh(_)) => s.pos,
        (AnsV::Prop(p), QuestionV::Wh(_)) => p.pos,
        _ => false,
    }
}

/// The question-answer shapes that [`Domain::combine`] accepts.
pub open spec fn spec_combinable(a: AnsV, q: QuestionV) -> bool {
    match (q, a) {
        (QuestionV::Wh(_), AnsV::Short(_)) => true,
        (QuestionV::YN(_), AnsV::YesNo(_)) => true,
        (_, AnsV::Prop(_)) => true,
        _ => false,
    }
}

/// The proposition a question and a relevant answer combine into: a
/// wh-question applied to a short answer's individual carries the
/// short answer's polarity; a polar question's proposition takes the
/// polar answer as its polarity; a proposition answer stands as it is.
pub open spec fn spec_combine(q: QuestionV, a: AnsV) -> PropV {
    match (q, a) {
        (QuestionV::Wh(w), AnsV::Short(s)) => PropV { pred: w, ind: Some(s.ind), pos: s.pos },
        (QuestionV::YN(pr), AnsV::YesNo(b)) => PropV { pred: pr.pred, ind: pr.ind, pos: b },
        (_, AnsV::Prop(p)) => p,
        _ => PropV { pred: Seq::<char>::empty(), ind: None, pos: true },
    }
}

/// Resolution entails relevance: an answer that settles a question
/// pertains to it.
pub proof fn lemma_resolves_implies_relevant(d: DomainV, a: AnsV, q: QuestionV)
    ensures
        spec_resolves(d, a, q) ==> spec_relevant(d, a, q),
{
}

impl Domain {
    /// Whether an answer pertains to a question, as [`spec_relevant`]
    /// states.
    pub fn relevant(&self, answer: &Ans, question: &Question) -> (r: bool)
        ensures
            r == spec_relevant(self@, answer@, question@),
    {
        match (answer, question) {
            (Ans::Prop(p), Question::WhQ(w)) => p.pred.0.same(&w.pred.0),
            (Ans::ShortAns(s), Question::WhQ(w)) => {
                let s1 = self.ind_sort(s.ind.0.as_str());
                let s2 = self.pred1_sort(w.pred.0.as_str());
                match (s1, s2) {
                    (Some(a), Some(b)) => str_eq(a.as_str(), b.as_str()),
                    _ => false,
                }
            },
            (Ans::YesNo(_), Question::YNQ(_)) => true,
            (Ans::Prop(p), Question::YNQ(y)) => p.same(&y.prop),
            (Ans::Prop(p), Question::AltQ(a)) => {
                let mut i: usize = 0;
                while i < a.ynqs.len()
                    invariant
                        answer@ == AnsV::Prop(p@),
                        question@ == QuestionV::Alt(a@),
                        0 <= i <= a.ynqs@.len(),
                        a@.len() == a.ynqs@.len(),
                        forall|j: int| 0 <= j < a@.len() ==> a@[j] == a.ynqs@[j]@,
                        forall|j: int| 0 <= j < i ==> a@[j] != p@,
                    decreases a.ynqs@.len() - i,
                {
                    if p.same(&a.ynqs[i].prop) {
                        proof {
                            assert(a@[i as int] == p@);
                        }
                        return true;
                    }
                    i = i + 1;
                }
                proof {
                    if spec_relevant(self@, answer@, question@) {
                        let w = choose|j: int| 0 <= j < a@.len() && a@[j] == p@;
                        assert(a@[w] != p@);
                    }
                }
                false
            },
            (Ans::YesNo(_), Question::AltQ(_)) => true,
            _ => false,
        }
    }

    /// Whether an answer settles a question, as [`spec_resolves`]
    /// states.
    pub fn resolves(&self, answer: &Ans, question: &Question) -> (r: bool)
        ensures
            r == spec_resolves(self@, answer@, question@),
    {
        if !self.relevant(answer, question) {
            return false;
        }
        match (answer, question) {
            (Ans::YesNo(_), Question::YNQ(_)) => true,
            (Ans::ShortAns(s), Question::WhQ(_)) => s.yes,
            (Ans::Prop(p), Question::WhQ(_)) => p.yes,
            _ => false,
        }
    }

    /// Combines a question with a relevant answer into a proposition,
    /// as [`spec_combine`] states.  Calling it on an irrelevant or
    /// uncombinable pair is a programming error, excluded by the
    /// precondition.
    pub fn combine(&self, question: &Question, answer: &Ans) -> (r: Prop)
        requires
            spec_relevant(self@, answer@, question@),
            spec_combinable(answer@, question@),
        ensures
            r@ == spec_combine(question@, answer@),
    {
        match (question, answer) {
            (Question::WhQ(w), Ans::ShortAns(s)) => Prop {
                pred: Pred0(w.pred.0.clone()),
                ind: Some(s.ind.clone()),
                yes: s.yes,
            },
            (Question::YNQ(y), Ans::YesNo(b)) => Prop {
                pred: y.prop.pred.clone(),
                ind: match &y.prop.ind {
                    Some(i) => Some(i.clone()),
                    None => None,
                },
                yes: b.yes,
            },
            (_, Ans::Prop(p)) => p.clone(),
            _ => vstd::pervasive::unreached(),
        }
    }
}

/// Setting a key in an association list: the first entry with that key
/// is replaced in place; an absent key is appended.
pub open spec fn assoc_set<V>(m: Seq<(Seq<char>, V)>, k: Seq<char>, v: V) -> Seq<(Seq<char>, V)>
    decreases m.len(),
{
    if m.len() == 0 {
        seq![(k, v)]
    } else if m[0].0 == k {
        seq![(k, v)] + m.subrange(1, m.len() as int)
    } else {
        seq![m[0]] + assoc_set(m.subrange(1, m.len() as int), k, v)
    }
}

/// When the key occurs first at position `i`, [`assoc_set`] is an
/// in-place update.
pub proof fn lemma_assoc_set_update<V>(m: Seq<(Seq<char>, V)>, k: Seq<char>, v: V, i: int)
    requires
        0 <= i < m.len(),
        m[i].0 == k,
        forall|j: int| 0 <= j < i ==> (#[trigger] m[j]).0 != k,
    ensures
        assoc_set(m, k, v) == m.update(i, (k, v)),
    decreases m.len(),
{
    let t = m.subrange(1, m.len() as int);
    if i == 0 {
        assert(assoc_set(m, k, v) =~= m.update(0, (k, v)));
    } else {
        assert forall|j: int| 0 <= j < i - 1 implies (#[trigger] t[j]).0 != k by {
            assert(t[j] == m[j + 1]);
        }
        assert(t[i - 1] == m[i]);
        lemma_assoc_set_update(t, k, v, i - 1);
        assert(seq![m[0]] + t.update(i - 1, (k, v)) =~= m.update(i, (k, v)));
    }
}

/// When the key is absent, [`assoc_set`] appends the entry.
pub proof fn lemma_assoc_set_append<V>(m: Seq<(Seq<char>, V)>, k: Seq<char>, v: V)
    requires
        forall|j: int| 0 <= j < m.len() ==> (#[trigger] m[j]).0 != k,
    ensures
        assoc_set(m, k, v) == m.push((k, v)),
    decreases m.len(),
{
    let t = m.subrange(1, m.len() as int);
    if m.len() == 0 {
        assert(assoc_set(m, k, v) =~= m.push((k, v)));
    } else {
        assert forall|j: int| 0 <= j < t.len() implies (#[trigger] t[j]).0 != k by {
            assert(t[j] == m[j + 1]);
        }
        lemma_assoc_set_append(t, k, v);
        assert(seq![m[0]] + t.push((k, v)) =~= m.push((k, v)));
    }
}

impl Domain {
    /// Registers a plan for a question.  The trigger and every step,
    /// recursively through both branches of each conditional, must
    /// typecheck; otherwise nothing is inserted and the registration
    /// fails as a whole.
    pub fn add_plan(&mut self, trigger: Question, plan: Vec<PlanStep>) -> (r: Result<
        (),
        IsuError,
    >)
        ensures
            final(self)@.preds0 == old(self)@.preds0,
            final(self)@.preds1 == old(self)@.preds1,
            final(self)@.sorts == old(self)@.sorts,
            final(self)@.inds == old(self)@.inds,
            old(self).wf() ==> final(self).wf(),
            (tc_question(old(self)@, trigger@) is Ok && tc_steps_upto(
                old(self)@,
                steps_view(plan@),
                steps_view(plan@).len() as int,
            ) is Ok) ==> (r is Ok && final(self)@.plans == assoc_set(
                old(self)@.plans,
                question_text(trigger@),
                steps_view(plan@),
            )),
            !(tc_question(old(self)@, trigger@) is Ok && tc_steps_upto(
                old(self)@,
                steps_view(plan@),
                steps_view(plan@).len() as int,
            ) is Ok) ==> (r matches Err(e) && e == IsuError::PlanRegistrationFailed
                && final(self)@ == old(self)@),
    {
        let ghost sv = steps_view(plan@);
        match trigger.typecheck(self) {
            Err(_) => {
                return Err(IsuError::PlanRegistrationFailed);
            },
            Ok(()) => {},
        }
        let mut k: usize = 0;
        while k < plan.len()
            invariant
                *self == *old(self),
                sv == steps_view(plan@),
                sv.len() == plan@.len(),
                tc_question(self@, trigger@) is Ok,
                0 <= k <= plan@.len(),
                tc_steps_upto(self@, sv, k as int) is Ok,
            decreases plan@.len() - k,
        {
            match plan[k].typecheck(self) {
                Ok(()) => {
                    proof {
                        assert(sv[k as int] == plan@[k as int]@);
                        assert(tc_steps_upto(self@, sv, k as int + 1) is Ok);
                    }
                },
                Err(_) => {
                    proof {
                        assert(sv[k as int] == plan@[k as int]@);
                        assert(tc_steps_upto(self@, sv, k as int + 1) is Err);
                        lemma_tc_steps_propagate(self@, sv, k as int + 1, sv.len() as int);
                    }
                    return Err(IsuError::PlanRegistrationFailed);
                },
            }
            k = k + 1;
        }
        let key = trigger.text();
        let ghost m = plans_view(self.plans@);
        let ghost kv = key@;
        let mut i: usize = 0;
        while i < self.plans.len()
            invariant
                *self == *old(self),
                kv == key@,
                kv == question_text(trigger@),
                sv == steps_view(plan@),
                tc_question(self@, trigger@) is Ok,
                tc_steps_upto(self@, sv, sv.len() as int) is Ok,
                m == plans_view(self.plans@),
                m.len() == self.plans@.len(),
                0 <= i <= self.plans@.len(),
                forall|j: int| 0 <= j < i ==> (#[trigger] m[j]).0 != key@,
            decreases self.plans@.len() - i,
        {
            if str_eq(self.plans[i].0.as_str(), key.as_str()) {
                proof {
                    assert(m[i as int].0 == key@);
                    lemma_assoc_set_update(m, key@, sv, i as int);
                }
                let ghost p0 = self.plans@;
                self.plans.remove(i);
                let ghost p1 = self.plans@;
                self.plans.insert(i, (key, plan));
                proof {
                    p0.remove_ensures(i as int);
                    p1.insert_ensures(i as int, self.plans@[i as int]);
                    assert(self.plans@ == p1.insert(i as int, self.plans@[i as int]));
                    assert(self.plans@.len() == p0.len());
                    assert(self.plans@[i as int].0@ == kv);
                    assert(steps_view(self.plans@[i as int].1@) == sv);
                    assert forall|t: int|
                        0 <= t < p0.len() && t != i implies self.plans@[t] == p0[t] by {
                        if t < i {
                            assert(self.plans@[t] == p1[t]);
                            assert(p1[t] == p0[t]);
                        } else {
                            assert(self.plans@[t] == p1[t - 1]);
                            assert(p1[t - 1] == p0[t]);
                        }
                    }
                    assert forall|t: int|
                        0 <= t < p0.len() implies plans_view(self.plans@)[t] == m.update(
                        i as int,
                        (kv, sv),
                    )[t] by {
                        if t != i {
                            assert(self.plans@[t] == p0[t]);
                        }
                    }
                    assert(plans_view(self.plans@) =~= m.update(i as int, (kv, sv)));
                }
                return Ok(());
            }
            i = i + 1;
        }
        proof {
            lemma_assoc_set_append(m, kv, sv);
        }
        self.plans.push((key, plan));
        proof {
            assert(plans_view(self.plans@) =~= m.push((kv, sv)));
        }
        Ok(())
    }

    /// The registered plan for a question, looked up by the question's
    /// canonical textual form; `None` when no plan is bound, which the
    /// caller must handle.
    pub fn get_plan(&self, question: &Question) -> (r: Option<Vec<PlanStep>>)
        ensures
            match r {
                Some(p) => assoc(self@.plans, question_text(question@)) == Some(steps_view(p@)),
                None => assoc(self@.plans, question_text(question@)) is None,
            },
    {
        let key = question.text();
        let mut i: usize = 0;
        while i < self.plans.len()
            invariant
                key@ == question_text(question@),
                0 <= i <= self.plans@.len(),
                plans_view(self.plans@).len() == self.plans@.len(),
                forall|j: int| 0 <= j < i ==> (#[trigger] plans_view(self.plans@)[j]).0 != key@,
            decreases self.plans@.len() - i,
        {
            if str_eq(self.plans[i].0.as_str(), key.as_str()) {
                proof {
                    lemma_assoc_is(plans_view(self.plans@), key@, i as int);
                }
                let stored_len = self.plans[i].1.len();
                let mut out: Vec<PlanStep> = Vec::new();
                let mut j: usize = 0;
                while j < stored_len
                    invariant
                        0 <= i < self.plans@.len(),
                        stored_len == self.plans@[i as int].1@.len(),
                        0 <= j <= stored_len,
                        out@.len() == j,
                        forall|t: int| 0 <= t < j ==> (#[trigger] out@[t])@ == self.plans@[i as int].1@[t]@,
                    decreases stored_len - j,
                {
                    out.push(self.plans[i].1[j].clone());
                    j = j + 1;
                }
                proof {
                    assert(steps_view(out@) =~= steps_view(self.plans@[i as int].1@));
                    assert(plans_view(self.plans@)[i as int].1 == steps_view(
                        self.plans@[i as int].1@,
                    ));
                }
                return Some(out);
            }
            i = i + 1;
        }
        proof {
            lemma_assoc_is(plans_view(self.plans@), key@, self.plans@.len() as int);
        }
        None
    }
}

} // verus!
