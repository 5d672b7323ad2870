//! The generation and interpretation grammar: a lookup table from a
//! move's canonical textual form to a surface phrase, a phrase joiner,
//! and the interpreter that reads an utterance as a single move.

use vstd::prelude::*;
use crate::containers::{AcceptAll, TSet};
use crate::domain::{assoc, assoc_set, lemma_assoc_is, lemma_assoc_set_update,
    lemma_assoc_set_append, table_view, names_view};
use crate::moves::{Move, MoveV, move_text};
use crate::prop::{Ans, parse_ans};
use crate::question::{Question, parse_question};
use crate::text::str_eq;

verus! {

/// The rendering of one move: the mapped phrase when the table has its
/// canonical form as a key, else that canonical form itself.
pub open spec fn gen_move(forms: Seq<(Seq<char>, Seq<char>)>, key: Seq<char>) -> Seq<char> {
    match assoc(forms, key) {
        Some(o) => o,
        None => key,
    }
}

/// A phrase with terminal punctuation: a `.` is appended unless the
/// phrase already ends in `.`, `?` or `!`.
pub open spec fn punctuate(p: Seq<char>) -> Seq<char> {
    if p.len() > 0 && (p[p.len() - 1] == '.' || p[p.len() - 1] == '?' || p[p.len() - 1] == '!') {
        p
    } else {
        p + "."@
    }
}

/// The first `k` phrases, punctuated and joined by single spaces.
pub open spec fn join_upto(phrases: Seq<Seq<char>>, k: int) -> Seq<char>
    decreases k,
{
    if k <= 0 {
        Seq::<char>::empty()
    } else if k == 1 {
        punctuate(phrases[0])
    } else {
        join_upto(phrases, k - 1) + " "@ + punctuate(phrases[k - 1])
    }
}

/// The renderings of a list of moves.
pub open spec fn rendered(forms: Seq<(Seq<char>, Seq<char>)>, moves: Seq<MoveV>) -> Seq<
    Seq<char>,
> {
    Seq::new(moves.len(), |i: int| gen_move(forms, move_text(moves[i])))
}

/// What the interpreter reads from one utterance: `quit`/`exit` is a
/// quit move; a parseable question is an ask move; a parseable answer
/// is an answer move; anything else has no interpretation.
pub open spec fn spec_interpret(s: Seq<char>) -> Option<MoveV> {
    if s == "quit"@ || s == "exit"@ {
        Some(MoveV::Quit)
    } else if parse_question(s) is Some {
        Some(MoveV::Ask(parse_question(s)->Some_0))
    } else if parse_ans(s) is Some {
        Some(MoveV::Answer(parse_ans(s)->Some_0))
    } else {
        None
    }
}

/// A string-substitution grammar: a table from canonical move forms to
/// surface phrases, with a literal fallback.
pub struct SimpleGenGrammar {
    forms: Vec<(String, String)>,
}

impl View for SimpleGenGrammar {
    type V = Seq<(Seq<char>, Seq<char>)>;

    closed spec fn view(&self) -> Seq<(Seq<char>, Seq<char>)> {
        table_view(self.forms@)
    }
}

impl SimpleGenGrammar {
    /// A grammar holding the two built-in forms: the greeting and the
    /// not-understood feedback.
    pub fn new() -> (r: SimpleGenGrammar)
        ensures
            r@ == seq![("Greet()"@, "Hello"@), ("icm:neg*sem"@, "I don't understand"@)],
    {
        let mut forms: Vec<(String, String)> = Vec::new();
        forms.push((String::from_str("Greet()"), String::from_str("Hello")));
        forms.push((String::from_str("icm:neg*sem"), String::from_str("I don't understand")));
        let r = SimpleGenGrammar { forms };
        proof {
            assert(r@ =~= seq![("Greet()"@, "Hello"@), ("icm:neg*sem"@, "I don't understand"@)]);
        }
        r
    }

    /// Adds a form, replacing an earlier one under the same key.
    pub fn add_form(&mut self, move_str: &str, output: &str)
        ensures
            final(self)@ == assoc_set(old(self)@, move_str@, output@),
    {
        let ghost m = self@;
        let mut i: usize = 0;
        while i < self.forms.len()
            invariant
                *self == *old(self),
                m == self@,
                m.len() == self.forms@.len(),
                0 <= i <= self.forms@.len(),
                forall|j: int| 0 <= j < i ==> (#[trigger] m[j]).0 != move_str@,
            decreases self.forms@.len() - i,
        {
            if str_eq(self.forms[i].0.as_str(), move_str) {
                proof {
                    lemma_assoc_set_update(m, move_str@, output@, i as int);
                }
                let ghost p0 = self.forms@;
                self.forms.remove(i);
                let ghost p1 = self.forms@;
                self.forms.insert(i, (move_str.to_owned(), output.to_owned()));
                proof {
                    assert(self.forms@[i as int].0@ == move_str@);
                    assert(self.forms@[i as int].1@ == output@);
                    assert forall|t: int|
                        0 <= t < p0.len() && t != i implies self.forms@[t] == p0[t] by {
                        if t < i {
                            assert(self.forms@[t] == p1[t]);
                            assert(p1[t] == p0[t]);
                        } else {
                            assert(self.forms@[t] == p1[t - 1]);
                            assert(p1[t - 1] == p0[t]);
                        }
                    }
                    assert(table_view(self.forms@) =~= m.update(
                        i as int,
                        (move_str@, output@),
                    ));
                }
                return ;
            }
            i = i + 1;
        }
        proof {
            lemma_assoc_set_append(m, move_str@, output@);
        }
        self.forms.push((move_str.to_owned(), output.to_owned()));
        proof {
            assert(table_view(self.forms@) =~= m.push((move_str@, output@)));
        }
    }

    /// Renders one move form, as [`gen_move`] states.
    pub fn generate_move(&self, move_str: &str) -> (r: String)
        ensures
            r@ == gen_move(self@, move_str@),
    {
        let mut i: usize = 0;
        while i < self.forms.len()
            invariant
                self@.len() == self.forms@.len(),
                0 <= i <= self.forms@.len(),
                forall|j: int| 0 <= j < i ==> (#[trigger] self@[j]).0 != move_str@,
            decreases self.forms@.len() - i,
        {
            if str_eq(self.forms[i].0.as_str(), move_str) {
                proof {
                    lemma_assoc_is(self@, move_str@, i as int);
                }
                return self.forms[i].1.clone();
            }
            i = i + 1;
        }
        proof {
            lemma_assoc_is(self@, move_str@, self.forms@.len() as int);
        }
        move_str.to_owned()
    }

    /// Joins phrases with single spaces, punctuating each, as
    /// [`join_upto`] states.
    pub fn join_phrases(&self, phrases: &Vec<String>) -> (r: String)
        ensures
            r@ == join_upto(names_view(phrases@), phrases@.len() as int),
    {
        let mut out = String::new();
        let mut i: usize = 0;
        while i < phrases.len()
            invariant
                0 <= i <= phrases@.len(),
                out@ == join_upto(names_view(phrases@), i as int),
            decreases phrases@.len() - i,
        {
            if i > 0 {
                out.append(" ");
            }
            let p = &phrases[i];
            out.append(p.as_str());
            let n = p.as_str().unicode_len();
            let ends_punct = if n == 0 {
                false
            } else {
                let c = p.as_str().get_char(n - 1);
                c == '.' || c == '?' || c == '!'
            };
            if !ends_punct {
                out.append(".");
            }
            proof {
                assert(names_view(phrases@)[i as int] == phrases@[i as int]@);
                assert(out@ =~= join_upto(names_view(phrases@), i as int + 1));
            }
            i = i + 1;
        }
        out
    }

    /// Renders a set of moves in order: each move's canonical form is
    /// looked up (falling back to the form itself), and the phrases are
    /// joined with terminal punctuation.
    pub fn generate(&self, moves: &TSet<Move, AcceptAll>) -> (r: String)
        ensures
            r@ == join_upto(rendered(self@, moves@), moves@.len() as int),
    {
        let n = moves.len();
        let mut phrases: Vec<String> = Vec::new();
        let mut i: usize = 0;
        while i < n
            invariant
                n == moves@.len(),
                0 <= i <= n,
                phrases@.len() == i,
                forall|j: int|
                    0 <= j < i ==> (#[trigger] phrases@[j])@ == rendered(self@, moves@)[j],
            decreases n - i,
        {
            let m = match moves.get(i) {
                Some(m) => m,
                None => {
                    proof {
                        assert(false);
                    }
                    return String::new();
                },
            };
            let key = m.text();
            phrases.push(self.generate_move(key.as_str()));
            i = i + 1;
        }
        let out = self.join_phrases(&phrases);
        proof {
            assert(names_view(phrases@) =~= rendered(self@, moves@));
        }
        out
    }

    /// Reads an utterance as a set holding one move, as
    /// [`spec_interpret`] states; `None` reports that the utterance was
    /// not understood.
    pub fn interpret(&self, input: &str) -> (r: Option<TSet<Move, AcceptAll>>)
        ensures
            match r {
                Some(moves) => spec_interpret(input@) is Some && moves@ == seq![
                    spec_interpret(input@)->Some_0,
                ] && moves.constraint_spec() is None,
                None => spec_interpret(input@) is None,
            },
    {
        let mv = if str_eq(input, "quit") || str_eq(input, "exit") {
            Move::Quit
        } else {
            match Question::new(input) {
                Ok(q) => Move::Ask(q),
                Err(_) => {
                    match Ans::new(input) {
                        Ok(a) => Move::Answer(a),
                        Err(_) => {
                            return None;
                        },
                    }
                },
            }
        };
        let mut moves: TSet<Move, AcceptAll> = TSet::new();
        let pushed = moves.add(mv);
        proof {
            if pushed is Err {
                assert(false);
            }
            assert(moves@ =~= seq![spec_interpret(input@)->Some_0]);
        }
        Some(moves)
    }
}

} // verus!
