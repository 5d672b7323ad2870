//! Questions: wh-questions `?x.pred(x)`, polar questions `?prop`, and
//! alternative questions (programmatic only, no textual constructor).

use vstd::prelude::*;
use crate::containers::EqSpec;
use crate::errors::IsuError;
use crate::semantics::Pred1;
use crate::prop::{Prop, PropV, prop_wf, prop_text, parse_prop, lemma_prop_round_trip};
use crate::text::{valid_atom, is_atom_char, str_eq};

verus! {

/// The mathematical value of a question.
pub ghost enum QuestionV {
    Wh(Seq<char>),
    YN(PropV),
    Alt(Seq<PropV>),
}

/// A well-formed question value.
pub open spec fn question_wf(q: QuestionV) -> bool {
    match q {
        QuestionV::Wh(p) => valid_atom(p),
        QuestionV::YN(p) => prop_wf(p),
        QuestionV::Alt(ps) => forall|i: int| 0 <= i < ps.len() ==> prop_wf(#[trigger] ps[i]),
    }
}

/// The textual form of a polar question.
pub open spec fn ynq_text(p: PropV) -> Seq<char> {
    "?"@ + prop_text(p)
}

/// The textual forms of the first `k` alternatives, joined by ` | `.
pub open spec fn alt_text_upto(ps: Seq<PropV>, k: int) -> Seq<char>
    decreases k,
{
    if k <= 0 {
        Seq::<char>::empty()
    } else if k == 1 {
        ynq_text(ps[0])
    } else {
        alt_text_upto(ps, k - 1) + " | "@ + ynq_text(ps[k - 1])
    }
}

/// The canonical textual form of a question.
pub open spec fn question_text(q: QuestionV) -> Seq<char> {
    match q {
        QuestionV::Wh(p) => "?x."@ + p + "(x)"@,
        QuestionV::YN(p) => ynq_text(p),
        QuestionV::Alt(ps) => "{ "@ + alt_text_upto(ps, ps.len() as int) + " }"@,
    }
}

/// Parses the textual form of a question: the `?x.pred(x)` shape makes a
/// wh-question, any other string starting with `?` a polar question.
pub open spec fn parse_question(s: Seq<char>) -> Option<QuestionV> {
    if s.len() >= 6 && s.subrange(0, 3) == "?x."@ && s.subrange(s.len() - 3, s.len() as int)
        == "(x)"@ {
        let mid = s.subrange(3, s.len() - 3);
        if valid_atom(mid) {
            Some(QuestionV::Wh(mid))
        } else {
            None
        }
    } else if s.len() >= 1 && s[0] == '?' {
        match parse_prop(s.subrange(1, s.len() as int)) {
            Some(p) => Some(QuestionV::YN(p)),
            None => None,
        }
    } else {
        None
    }
}

/// A wh-question over a one-place predicate.
#[derive(Debug)]
pub struct WhQ {
    pub pred: Pred1,
}

impl View for WhQ {
    type V = Seq<char>;

    open spec fn view(&self) -> Seq<char> {
        self.pred@
    }
}

impl Clone for WhQ {
    fn clone(&self) -> (r: Self)
        ensures
            r@ == self@,
    {
        WhQ { pred: self.pred.clone() }
    }
}

/// What [`WhQ::new`] accepts: either the full `?x.pred(x)` shape or a
/// bare predicate name.
pub open spec fn parse_whq(s: Seq<char>) -> Option<Seq<char>> {
    let mid = if s.len() >= 6 && s.subrange(0, 3) == "?x."@ && s.subrange(
        s.len() - 3,
        s.len() as int,
    ) == "(x)"@ {
        s.subrange(3, s.len() - 3)
    } else {
        s
    };
    if valid_atom(mid) {
        Some(mid)
    } else {
        None
    }
}

impl WhQ {
    /// Parses a wh-question from `?x.pred(x)` or from a bare predicate
    /// name.
    pub fn new(s: &str) -> (r: Result<WhQ, IsuError>)
        ensures
            match r {
                Ok(q) => parse_whq(s@) == Some(q@),
                Err(e) => parse_whq(s@) is None && e == IsuError::ParseError,
            },
    {
        let n = s.unicode_len();
        let mid = if n >= 6 && str_eq(s.substring_char(0, 3), "?x.") && str_eq(
            s.substring_char(n - 3, n),
            "(x)",
        ) {
            s.substring_char(3, n - 3)
        } else {
            s
        };
        match Pred1::new(mid) {
            Ok(p) => Ok(WhQ { pred: p }),
            Err(e) => Err(e),
        }
    }

    /// The canonical textual form `?x.pred(x)`.
    pub fn text(&self) -> (r: String)
        ensures
            r@ == question_text(QuestionV::Wh(self@)),
    {
        let mut out = String::from_str("?x.");
        let p = self.pred.text();
        out.append(p.as_str());
        out.append("(x)");
        proof {
            assert(out@ =~= question_text(QuestionV::Wh(self@)));
        }
        out
    }
}

/// A polar (yes/no) question over a proposition.
#[derive(Debug)]
pub struct YNQ {
    pub prop: Prop,
}

impl View for YNQ {
    type V = PropV;

    open spec fn view(&self) -> PropV {
        self.prop@
    }
}

impl Clone for YNQ {
    fn clone(&self) -> (r: Self)
        ensures
            r@ == self@,
    {
        YNQ { prop: self.prop.clone() }
    }
}

/// What [`YNQ::new`] accepts: a proposition, with one optional leading
/// `?` stripped first.
pub open spec fn parse_ynq(s: Seq<char>) -> Option<PropV> {
    let r = if s.len() > 0 && s[0] == '?' {
        s.subrange(1, s.len() as int)
    } else {
        s
    };
    parse_prop(r)
}

impl YNQ {
    /// Parses a polar question from `?prop` or from a bare proposition.
    pub fn new(s: &str) -> (r: Result<YNQ, IsuError>)
        ensures
            match r {
                Ok(q) => parse_ynq(s@) == Some(q@),
                Err(e) => parse_ynq(s@) is None && e == IsuError::ParseError,
            },
    {
        let n = s.unicode_len();
        let rest = if n > 0 && s.get_char(0) == '?' {
            s.substring_char(1, n)
        } else {
            s
        };
        match Prop::new(rest) {
            Ok(p) => Ok(YNQ { prop: p }),
            Err(e) => Err(e),
        }
    }

    /// The canonical textual form `?prop`.
    pub fn text(&self) -> (r: String)
        ensures
            r@ == ynq_text(self@),
    {
        let mut out = String::from_str("?");
        let p = self.prop.text();
        out.append(p.as_str());
        proof {
            assert(out@ =~= ynq_text(self@));
        }
        out
    }
}

/// An alternative question: a list of polar questions.
#[derive(Debug)]
pub struct AltQ {
    pub ynqs: Vec<YNQ>,
}

impl View for AltQ {
    type V = Seq<PropV>;

    open spec fn view(&self) -> Seq<PropV> {
        self.ynqs@.map_values(|y: YNQ| y@)
    }
}

impl Clone for AltQ {
    fn clone(&self) -> (r: Self)
        ensures
            r@ == self@,
    {
        let mut out: Vec<YNQ> = Vec::new();
        let mut i: usize = 0;
        while i < self.ynqs.len()
            invariant
                0 <= i <= self.ynqs.len(),
                out@.len() == i,
                forall|j: int| 0 <= j < i ==> out@[j]@ == self.ynqs@[j]@,
            decreases self.ynqs.len() - i,
        {
            out.push(self.ynqs[i].clone());
            i = i + 1;
        }
        let r = AltQ { ynqs: out };
        proof {
            assert(r@ =~= self@);
        }
        r
    }
}

impl AltQ {
    /// Builds an alternative question from its alternatives.
    pub fn new(ynqs: Vec<YNQ>) -> (r: AltQ)
        ensures
            r@ == ynqs@.map_values(|y: YNQ| y@),
    {
        AltQ { ynqs }
    }

    /// The textual form `{ ?p1 | ?p2 | ... }`.
    pub fn text(&self) -> (r: String)
        ensures
            r@ == question_text(QuestionV::Alt(self@)),
    {
        let mut out = String::from_str("{ ");
        let mut i: usize = 0;
        while i < self.ynqs.len()
            invariant
                0 <= i <= self.ynqs.len(),
                out@ == "{ "@ + alt_text_upto(self@, i as int),
            decreases self.ynqs.len() - i,
        {
            if i > 0 {
                out.append(" | ");
            }
            let t = self.ynqs[i].text();
            out.append(t.as_str());
            proof {
                assert(self@[i as int] == self.ynqs@[i as int]@);
                if i == 0 {
                    assert(out@ =~= "{ "@ + alt_text_upto(self@, i as int + 1));
                } else {
                    assert(out@ =~= "{ "@ + alt_text_upto(self@, i as int + 1));
                }
            }
            i = i + 1;
        }
        out.append(" }");
        proof {
            assert(out@ =~= question_text(QuestionV::Alt(self@)));
        }
        out
    }
}

/// A question: wh, polar, or alternative.
#[derive(Debug)]
pub enum Question {
    WhQ(WhQ),
    YNQ(YNQ),
    AltQ(AltQ),
}

impl View for Question {
    type V = QuestionV;

    open spec fn view(&self) -> QuestionV {
        match self {
            Question::WhQ(q) => QuestionV::Wh(q@),
            Question::YNQ(q) => QuestionV::YN(q@),
            Question::AltQ(q) => QuestionV::Alt(q@),
        }
    }
}

impl Clone for Question {
    fn clone(&self) -> (r: Self)
        ensures
            r@ == self@,
    {
        match self {
            Question::WhQ(q) => Question::WhQ(q.clone()),
            Question::YNQ(q) => Question::YNQ(q.clone()),
            Question::AltQ(q) => Question::AltQ(q.clone()),
        }
    }
}

impl Question {
    /// Parses a question, accepting exactly the strings on which
    /// [`parse_question`] succeeds.
    pub fn new(s: &str) -> (r: Result<Question, IsuError>)
        ensures
            match r {
                Ok(q) => parse_question(s@) == Some(q@),
                Err(e) => parse_question(s@) is None && e == IsuError::ParseError,
            },
    {
        let n = s.unicode_len();
        if n >= 6 && str_eq(s.substring_char(0, 3), "?x.") && str_eq(
            s.substring_char(n - 3, n),
            "(x)",
        ) {
            let mid = s.substring_char(3, n - 3);
            match Pred1::new(mid) {
                Ok(p) => Ok(Question::WhQ(WhQ { pred: p })),
                Err(e) => Err(e),
            }
        } else if n >= 1 && s.get_char(0) == '?' {
            match Prop::new(s.substring_char(1, n)) {
                Ok(p) => Ok(Question::YNQ(YNQ { prop: p })),
                Err(e) => Err(e),
            }
        } else {
            Err(IsuError::ParseError)
        }
    }

    /// The canonical textual form.
    pub fn text(&self) -> (r: String)
        ensures
            r@ == question_text(self@),
    {
        match self {
            Question::WhQ(q) => q.text(),
            Question::YNQ(q) => q.text(),
            Question::AltQ(q) => q.text(),
        }
    }

    /// Structural equality on the views.
    pub fn same(&self, other: &Question) -> (r: bool)
        ensures
            r == (self@ == other@),
    {
        match (self, other) {
            (Question::WhQ(a), Question::WhQ(b)) => a.pred.same(&b.pred),
            (Question::YNQ(a), Question::YNQ(b)) => a.prop.same(&b.prop),
            (Question::AltQ(a), Question::AltQ(b)) => {
                if a.ynqs.len() != b.ynqs.len() {
                    proof {
                        assert(a@.len() != b@.len());
                    }
                    return false;
                }
                let mut i: usize = 0;
                while i < a.ynqs.len()
                    invariant
                        self@ == QuestionV::Alt(a@),
                        other@ == QuestionV::Alt(b@),
                        a.ynqs.len() == b.ynqs.len(),
                        0 <= i <= a.ynqs.len(),
                        forall|j: int| 0 <= j < i ==> a.ynqs@[j]@ == b.ynqs@[j]@,
                    decreases a.ynqs.len() - i,
                {
                    if !a.ynqs[i].prop.same(&b.ynqs[i].prop) {
                        proof {
                            assert(a@[i as int] != b@[i as int]);
                            assert(a@ != b@);
                        }
                        return false;
                    }
                    i = i + 1;
                }
                proof {
                    assert(a@ =~= b@);
                }
                true
            },
            _ => false,
        }
    }
}

impl EqSpec for Question {
    fn eq_check(&self, other: &Self) -> (r: bool)
        ensures
            r == (self@ == other@),
    {
        self.same(other)
    }
}

/// Display inverts parsing for well-formed wh- and polar questions.
/// Alternative questions have no textual constructor, so the round trip
/// is stated for the two parsable shapes.
pub proof fn lemma_question_round_trip(q: QuestionV)
    requires
        question_wf(q),
        !(q is Alt),
    ensures
        parse_question(question_text(q)) == Some(q),
{
    reveal_strlit("?");
    reveal_strlit("?x.");
    reveal_strlit("(x)");
    reveal_strlit("-");
    reveal_strlit("(");
    reveal_strlit(")");
    let t = question_text(q);
    match q {
        QuestionV::Wh(p) => {
            assert(t.len() == p.len() + 6);
            assert(t.subrange(0, 3) =~= "?x."@);
            assert(t.subrange(t.len() - 3, t.len() as int) =~= "(x)"@);
            assert(t.subrange(3, t.len() - 3) =~= p);
        },
        QuestionV::YN(p) => {
            let pt = prop_text(p);
            assert(t[0] == '?');
            // the `?x.pred(x)` shape cannot arise: the character after
            // `?` is `-` or the first predicate letter, and the one after
            // that is never `.`
            if t.len() >= 6 && t.subrange(0, 3) == "?x."@ {
                let pre = t.subrange(0, 3);
                assert(pre[1] == t[1] && pre[2] == t[2]);
                assert(t[1] == 'x' && t[2] == '.');
                assert(pt[0] == 'x');
                if !p.pos {
                    assert(pt[0] == '-');
                }
                assert(p.pos);
                assert(pt[0] == p.pred[0]);
                if p.pred.len() >= 2 {
                    assert(pt[1] == p.pred[1]);
                    assert(is_atom_char(p.pred[1]));
                    assert(pt[1] != '.');
                } else {
                    assert(pt[1] == '(');
                }
                assert(false);
            }
            assert(t.subrange(1, t.len() as int) =~= pt);
            lemma_prop_round_trip(p);
        },
        QuestionV::Alt(ps) => {
        },
    }
}

/// Parsing yields only well-formed questions.
pub proof fn lemma_parse_question_wf(s: Seq<char>)
    ensures
        parse_question(s) matches Some(q) ==> question_wf(q),
{
}

/// Every parseable question string has a canonical form: the display
/// of its parse, which parses back to the same value.
pub proof fn lemma_question_canonical(s: Seq<char>)
    ensures
        parse_question(s) matches Some(q) ==> parse_question(question_text(q)) == Some(q),
{
    if parse_question(s) is Some {
        let q = parse_question(s)->Some_0;
        lemma_parse_question_wf(s);
        lemma_question_round_trip(q);
    }
}

} // verus!
