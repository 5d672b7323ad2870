//! Dialogue moves: the atomic actions a turn is made of, and their
//! canonical textual forms, which key the generation grammar.

use vstd::prelude::*;
use crate::containers::EqSpec;
use crate::prop::{Ans, AnsV, ans_text};
use crate::question::{Question, QuestionV, question_text};
use crate::text::str_eq;

verus! {

/// The mathematical value of a feedback move.
pub ghost struct IcmV {
    pub level: Seq<char>,
    pub polarity: Seq<char>,
    pub content: Option<Seq<char>>,
}

/// An information-state control move: feedback on perception or
/// understanding, with a level, a polarity, and optional content.
#[derive(Debug)]
pub struct ICM {
    pub level: String,
    pub polarity: String,
    pub content: Option<String>,
}

impl View for ICM {
    type V = IcmV;

    open spec fn view(&self) -> IcmV {
        IcmV {
            level: self.level@,
            polarity: self.polarity@,
            content: match self.content {
                Some(c) => Some(c@),
                None => None,
            },
        }
    }
}

impl Clone for ICM {
    fn clone(&self) -> (r: Self)
        ensures
            r@ == self@,
    {
        ICM {
            level: self.level.clone(),
            polarity: self.polarity.clone(),
            content: match &self.content {
                Some(c) => Some(c.clone()),
                None => None,
            },
        }
    }
}

/// The textual form `icm:level*polarity` with `:'content'` appended
/// when content is present.
pub open spec fn icm_text(i: IcmV) -> Seq<char> {
    "icm:"@ + i.level + "*"@ + i.polarity + (match i.content {
        Some(c) => ":'"@ + c + "'"@,
        None => Seq::<char>::empty(),
    })
}

impl ICM {
    /// Builds a feedback move.
    pub fn new(level: &str, polarity: &str, content: Option<String>) -> (r: ICM)
        ensures
            r@.level == level@,
            r@.polarity == polarity@,
            r@.content == (match content {
                Some(c) => Some(c@),
                None => None::<Seq<char>>,
            }),
    {
        ICM { level: level.to_owned(), polarity: polarity.to_owned(), content }
    }

    /// The canonical textual form.
    pub fn text(&self) -> (r: String)
        ensures
            r@ == icm_text(self@),
    {
        let mut out = String::from_str("icm:");
        out.append(self.level.as_str());
        out.append("*");
        out.append(self.polarity.as_str());
        if let Some(c) = &self.content {
            out.append(":'");
            out.append(c.as_str());
            out.append("'");
        }
        proof {
            assert(out@ =~= icm_text(self@));
        }
        out
    }

    /// Structural equality on the views.
    pub fn same(&self, other: &ICM) -> (r: bool)
        ensures
            r == (self@ == other@),
    {
        if !str_eq(self.level.as_str(), other.level.as_str()) {
            return false;
        }
        if !str_eq(self.polarity.as_str(), other.polarity.as_str()) {
            return false;
        }
        match (&self.content, &other.content) {
            (None, None) => true,
            (Some(a), Some(b)) => str_eq(a.as_str(), b.as_str()),
            _ => false,
        }
    }
}

/// The mathematical value of a dialogue move.
pub ghost enum MoveV {
    Greet,
    Quit,
    Ask(QuestionV),
    Answer(AnsV),
    Icm(IcmV),
}

/// A dialogue move: a greeting, a session end, asking a question,
/// giving an answer, or a feedback move.
#[derive(Debug)]
pub enum Move {
    Greet,
    Quit,
    Ask(Question),
    Answer(Ans),
    Icm(ICM),
}

impl View for Move {
    type V = MoveV;

    open spec fn view(&self) -> MoveV {
        match self {
            Move::Greet => MoveV::Greet,
            Move::Quit => MoveV::Quit,
            Move::Ask(q) => MoveV::Ask(q@),
            Move::Answer(a) => MoveV::Answer(a@),
            Move::Icm(i) => MoveV::Icm(i@),
        }
    }
}

impl Clone for Move {
    fn clone(&self) -> (r: Self)
        ensures
            r@ == self@,
    {
        match self {
            Move::Greet => Move::Greet,
            Move::Quit => Move::Quit,
            Move::Ask(q) => Move::Ask(q.clone()),
            Move::Answer(a) => Move::Answer(a.clone()),
            Move::Icm(i) => Move::Icm(i.clone()),
        }
    }
}

/// The canonical textual form of a move.
pub open spec fn move_text(m: MoveV) -> Seq<char> {
    match m {
        MoveV::Greet => "Greet()"@,
        MoveV::Quit => "Quit()"@,
        MoveV::Ask(q) => "Ask('"@ + question_text(q) + "')"@,
        MoveV::Answer(a) => "Answer("@ + ans_text(a) + ")"@,
        MoveV::Icm(i) => icm_text(i),
    }
}

impl Move {
    /// The canonical textual form.
    pub fn text(&self) -> (r: String)
        ensures
            r@ == move_text(self@),
    {
        match self {
            Move::Greet => String::from_str("Greet()"),
            Move::Quit => String::from_str("Quit()"),
            Move::Ask(q) => {
                let mut out = String::from_str("Ask('");
                let t = q.text();
                out.append(t.as_str());
                out.append("')");
                proof {
                    assert(out@ =~= move_text(self@));
                }
                out
            },
            Move::Answer(a) => {
                let mut out = String::from_str("Answer(");
                let t = a.text();
                out.append(t.as_str());
                out.append(")");
                proof {
                    assert(out@ =~= move_text(self@));
                }
                out
            },
            Move::Icm(i) => i.text(),
        }
    }

    /// Structural equality on the views.
    pub fn same(&self, other: &Move) -> (r: bool)
        ensures
            r == (self@ == other@),
    {
        match (self, other) {
            (Move::Greet, Move::Greet) => true,
            (Move::Quit, Move::Quit) => true,
            (Move::Ask(a), Move::Ask(b)) => a.same(b),
            (Move::Answer(a), Move::Answer(b)) => a.same(b),
            (Move::Icm(a), Move::Icm(b)) => a.same(b),
            _ => false,
        }
    }
}

impl EqSpec for Move {
    fn eq_check(&self, other: &Self) -> (r: bool)
        ensures
            r == (self@ == other@),
    {
        self.same(other)
    }
}

} // verus!
