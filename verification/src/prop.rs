//! Propositions and answers, with their textual notation.
//!
//! The notation is `[-]pred` or `[-]pred(ind)` for a proposition,
//! `[-]ind` for a short answer, and the reserved words `yes`/`no` for a
//! polar answer.  Parsing and display are stated against the spec-level
//! functions below, and the round-trip lemmas at the end of the module
//! prove that display inverts parsing.

use vstd::prelude::*;
use crate::containers::EqSpec;
use crate::errors::IsuError;
use crate::semantics::{Ind, Pred0};
use crate::text::{valid_atom, is_atom_char, find_index, lemma_find_index,
    lemma_find_index_is, find_char, contains_char, str_eq};

verus! {

/// The mathematical value of a proposition.
pub ghost struct PropV {
    pub pred: Seq<char>,
    pub ind: Option<Seq<char>>,
    pub pos: bool,
}

/// A well-formed proposition value: the predicate and the argument, if
/// any, are valid atoms.
pub open spec fn prop_wf(p: PropV) -> bool {
    &&& valid_atom(p.pred)
    &&& (p.ind matches Some(i) ==> valid_atom(i))
}

/// The canonical textual form of a proposition: polarity prefix,
/// predicate, and the argument in parentheses (empty when absent).
pub open spec fn prop_text(p: PropV) -> Seq<char> {
    (if p.pos {
        Seq::<char>::empty()
    } else {
        "-"@
    }) + p.pred + "("@ + (match p.ind {
        Some(i) => i,
        None => Seq::<char>::empty(),
    }) + ")"@
}

/// Parses the textual form of a proposition.
pub open spec fn parse_prop(s: Seq<char>) -> Option<PropV> {
    let pos = !(s.len() > 0 && s[0] == '-');
    let r = if pos {
        s
    } else {
        s.subrange(1, s.len() as int)
    };
    let f = find_index(r, '(');
    if r.len() >= 2 && r[r.len() - 1] == ')' && f <= r.len() - 2 {
        let pred = r.subrange(0, f);
        let arg = r.subrange(f + 1, r.len() - 1);
        if !valid_atom(pred) {
            None
        } else if arg.len() == 0 {
            Some(PropV { pred, ind: None, pos })
        } else if valid_atom(arg) {
            Some(PropV { pred, ind: Some(arg), pos })
        } else {
            None
        }
    } else {
        if valid_atom(r) {
            Some(PropV { pred: r, ind: None, pos })
        } else {
            None
        }
    }
}

/// A proposition: a predicate, an optional individual argument, and a
/// polarity.
#[derive(Debug)]
pub struct Prop {
    pub pred: Pred0,
    pub ind: Option<Ind>,
    pub yes: bool,
}

impl View for Prop {
    type V = PropV;

    open spec fn view(&self) -> PropV {
        PropV {
            pred: self.pred@,
            ind: match self.ind {
                Some(i) => Some(i@),
                None => None,
            },
            pos: self.yes,
        }
    }
}

impl Clone for Prop {
    fn clone(&self) -> (r: Self)
        ensures
            r@ == self@,
    {
        Prop {
            pred: self.pred.clone(),
            ind: match &self.ind {
                Some(i) => Some(i.clone()),
                None => None,
            },
            yes: self.yes,
        }
    }
}

impl Prop {
    /// Parses a proposition, accepting exactly the strings on which
    /// [`parse_prop`] succeeds.
    pub fn new(s: &str) -> (r: Result<Prop, IsuError>)
        ensures
            match r {
                Ok(p) => parse_prop(s@) == Some(p@),
                Err(e) => parse_prop(s@) is None && e == IsuError::ParseError,
            },
    {
        let n = s.unicode_len();
        let yes = !(n > 0 && s.get_char(0) == '-');
        let rest = if yes {
            s
        } else {
            s.substring_char(1, n)
        };
        let m = rest.unicode_len();
        let f = find_char(rest, '(');
        if m >= 2 && rest.get_char(m - 1) == ')' && f <= m - 2 {
            let pred_s = rest.substring_char(0, f);
            let arg_s = rest.substring_char(f + 1, m - 1);
            let pred = match Pred0::new(pred_s) {
                Ok(p) => p,
                Err(e) => {
                    return Err(e);
                },
            };
            if arg_s.unicode_len() == 0 {
                Ok(Prop { pred, ind: None, yes })
            } else {
                let ind = match Ind::new(arg_s) {
                    Ok(i) => i,
                    Err(e) => {
                        return Err(e);
                    },
                };
                Ok(Prop { pred, ind: Some(ind), yes })
            }
        } else {
            let pred = match Pred0::new(rest) {
                Ok(p) => p,
                Err(e) => {
                    return Err(e);
                },
            };
            Ok(Prop { pred, ind: None, yes })
        }
    }

    /// The canonical textual form.
    pub fn text(&self) -> (r: String)
        ensures
            r@ == prop_text(self@),
    {
        let mut out = String::new();
        if !self.yes {
            out.append("-");
        }
        let p = self.pred.text();
        out.append(p.as_str());
        out.append("(");
        if let Some(i) = &self.ind {
            let t = i.text();
            out.append(t.as_str());
        }
        out.append(")");
        proof {
            assert(out@ =~= prop_text(self@));
        }
        out
    }

    /// Structural equality on the views.
    pub fn same(&self, other: &Prop) -> (r: bool)
        ensures
            r == (self@ == other@),
    {
        if !self.pred.same(&other.pred) {
            return false;
        }
        if self.yes != other.yes {
            return false;
        }
        match (&self.ind, &other.ind) {
            (None, None) => true,
            (Some(a), Some(b)) => a.same(b),
            _ => false,
        }
    }
}

impl crate::semantics::Pred1 {
    /// Applies the predicate to an individual, yielding the positive
    /// proposition.
    pub fn apply(&self, ind: &Ind) -> (r: Prop)
        ensures
            r@ == (PropV { pred: self@, ind: Some(ind@), pos: true }),
    {
        Prop { pred: Pred0(self.0.clone()), ind: Some(ind.clone()), yes: true }
    }
}

impl EqSpec for Prop {
    fn eq_check(&self, other: &Self) -> (r: bool)
        ensures
            r == (self@ == other@),
    {
        self.same(other)
    }
}

/// The mathematical value of a short answer.
pub ghost struct ShortAnsV {
    pub ind: Seq<char>,
    pub pos: bool,
}

/// The canonical textual form of a short answer.
pub open spec fn short_text(a: ShortAnsV) -> Seq<char> {
    (if a.pos {
        Seq::<char>::empty()
    } else {
        "-"@
    }) + a.ind
}

/// Parses the textual form of a short answer.
pub open spec fn parse_short(s: Seq<char>) -> Option<ShortAnsV> {
    let pos = !(s.len() > 0 && s[0] == '-');
    let r = if pos {
        s
    } else {
        s.subrange(1, s.len() as int)
    };
    if valid_atom(r) {
        Some(ShortAnsV { ind: r, pos })
    } else {
        None
    }
}

/// A short answer: an individual with a polarity.
#[derive(Debug)]
pub struct ShortAns {
    pub ind: Ind,
    pub yes: bool,
}

impl View for ShortAns {
    type V = ShortAnsV;

    open spec fn view(&self) -> ShortAnsV {
        ShortAnsV { ind: self.ind@, pos: self.yes }
    }
}

impl Clone for ShortAns {
    fn clone(&self) -> (r: Self)
        ensures
            r@ == self@,
    {
        ShortAns { ind: self.ind.clone(), yes: self.yes }
    }
}

impl ShortAns {
    /// Parses a short answer, accepting exactly the strings on which
    /// [`parse_short`] succeeds.
    pub fn new(s: &str) -> (r: Result<ShortAns, IsuError>)
        ensures
            match r {
                Ok(a) => parse_short(s@) == Some(a@),
                Err(e) => parse_short(s@) is None && e == IsuError::ParseError,
            },
    {
        let n = s.unicode_len();
        let yes = !(n > 0 && s.get_char(0) == '-');
        let rest = if yes {
            s
        } else {
            s.substring_char(1, n)
        };
        match Ind::new(rest) {
            Ok(i) => Ok(ShortAns { ind: i, yes }),
            Err(e) => Err(e),
        }
    }

    /// The canonical textual form.
    pub fn text(&self) -> (r: String)
        ensures
            r@ == short_text(self@),
    {
        let mut out = String::new();
        if !self.yes {
            out.append("-");
        }
        let t = self.ind.text();
        out.append(t.as_str());
        proof {
            assert(out@ =~= short_text(self@));
        }
        out
    }

    /// Structural equality on the views.
    pub fn same(&self, other: &ShortAns) -> (r: bool)
        ensures
            r == (self@ == other@),
    {
        self.yes == other.yes && self.ind.same(&other.ind)
    }
}

/// The textual form of a polar answer.
pub open spec fn yn_text(b: bool) -> Seq<char> {
    if b {
        "yes"@
    } else {
        "no"@
    }
}

/// A polar answer.
#[derive(Debug)]
pub struct YesNo {
    pub yes: bool,
}

impl View for YesNo {
    type V = bool;

    open spec fn view(&self) -> bool {
        self.yes
    }
}

impl Clone for YesNo {
    fn clone(&self) -> (r: Self)
        ensures
            r@ == self@,
    {
        YesNo { yes: self.yes }
    }
}

impl YesNo {
    /// Parses `yes` or `no`.
    pub fn new(s: &str) -> (r: Result<YesNo, IsuError>)
        ensures
            match r {
                Ok(a) => a@ == (s@ == "yes"@) && (s@ == "yes"@ || s@ == "no"@),
                Err(e) => s@ != "yes"@ && s@ != "no"@ && e == IsuError::ParseError,
            },
    {
        if str_eq(s, "yes") {
            Ok(YesNo { yes: true })
        } else if str_eq(s, "no") {
            Ok(YesNo { yes: false })
        } else {
            Err(IsuError::ParseError)
        }
    }

    /// The textual form.
    pub fn text(&self) -> (r: String)
        ensures
            r@ == yn_text(self@),
    {
        if self.yes {
            String::from_str("yes")
        } else {
            String::from_str("no")
        }
    }

    /// Equality of the views.
    pub fn same(&self, other: &YesNo) -> (r: bool)
        ensures
            r == (self@ == other@),
    {
        self.yes == other.yes
    }
}

/// The mathematical value of an answer.
pub ghost enum AnsV {
    Prop(PropV),
    Short(ShortAnsV),
    YesNo(bool),
}

/// A well-formed answer value.
pub open spec fn ans_wf(a: AnsV) -> bool {
    match a {
        AnsV::Prop(p) => prop_wf(p),
        AnsV::Short(s) => valid_atom(s.ind),
        AnsV::YesNo(_) => true,
    }
}

/// The canonical textual form of an answer.
pub open spec fn ans_text(a: AnsV) -> Seq<char> {
    match a {
        AnsV::Prop(p) => prop_text(p),
        AnsV::Short(s) => short_text(s),
        AnsV::YesNo(b) => yn_text(b),
    }
}

/// Parses an answer.  `yes`/`no` are polar answers; a string without
/// parentheses is a short answer; a string with `(` that ends in `)` is
/// a proposition; everything else is rejected.
pub open spec fn parse_ans(s: Seq<char>) -> Option<AnsV> {
    if s == "yes"@ {
        Some(AnsV::YesNo(true))
    } else if s == "no"@ {
        Some(AnsV::YesNo(false))
    } else if !contains_char(s, '(') && !contains_char(s, ')') {
        match parse_short(s) {
            Some(a) => Some(AnsV::Short(a)),
            None => None,
        }
    } else if contains_char(s, '(') && s.len() > 0 && s[s.len() - 1] == ')' {
        match parse_prop(s) {
            Some(p) => Some(AnsV::Prop(p)),
            None => None,
        }
    } else {
        None
    }
}

/// An answer: a proposition, a short answer, or a polar answer.
#[derive(Debug)]
pub enum Ans {
    Prop(Prop),
    ShortAns(ShortAns),
    YesNo(YesNo),
}

impl View for Ans {
    type V = AnsV;

    open spec fn view(&self) -> AnsV {
        match self {
            Ans::Prop(p) => AnsV::Prop(p@),
            Ans::ShortAns(a) => AnsV::Short(a@),
            Ans::YesNo(y) => AnsV::YesNo(y@),
        }
    }
}

impl Clone for Ans {
    fn clone(&self) -> (r: Self)
        ensures
            r@ == self@,
    {
        match self {
            Ans::Prop(p) => Ans::Prop(p.clone()),
            Ans::ShortAns(a) => Ans::ShortAns(a.clone()),
            Ans::YesNo(y) => Ans::YesNo(y.clone()),
        }
    }
}

impl Ans {
    /// Parses an answer, accepting exactly the strings on which
    /// [`parse_ans`] succeeds.
    pub fn new(s: &str) -> (r: Result<Ans, IsuError>)
        ensures
            match r {
                Ok(a) => parse_ans(s@) == Some(a@),
                Err(e) => parse_ans(s@) is None && e == IsuError::ParseError,
            },
    {
        if str_eq(s, "yes") {
            return Ok(Ans::YesNo(YesNo { yes: true }));
        }
        if str_eq(s, "no") {
            return Ok(Ans::YesNo(YesNo { yes: false }));
        }
        let n = s.unicode_len();
        let lp = find_char(s, '(');
        let rp = find_char(s, ')');
        proof {
            lemma_find_index(s@, '(');
            lemma_find_index(s@, ')');
        }
        if lp == n && rp == n {
            match ShortAns::new(s) {
                Ok(a) => Ok(Ans::ShortAns(a)),
                Err(e) => Err(e),
            }
        } else if lp < n && n > 0 && s.get_char(n - 1) == ')' {
            match Prop::new(s) {
                Ok(p) => Ok(Ans::Prop(p)),
                Err(e) => Err(e),
            }
        } else {
            Err(IsuError::ParseError)
        }
    }

    /// The canonical textual form.
    pub fn text(&self) -> (r: String)
        ensures
            r@ == ans_text(self@),
    {
        match self {
            Ans::Prop(p) => p.text(),
            Ans::ShortAns(a) => a.text(),
            Ans::YesNo(y) => y.text(),
        }
    }

    /// Structural equality on the views.
    pub fn same(&self, other: &Ans) -> (r: bool)
        ensures
            r == (self@ == other@),
    {
        match (self, other) {
            (Ans::Prop(a), Ans::Prop(b)) => a.same(b),
            (Ans::ShortAns(a), Ans::ShortAns(b)) => a.same(b),
            (Ans::YesNo(a), Ans::YesNo(b)) => a.same(b),
            _ => false,
        }
    }
}

/// The shape of a displayed proposition: it ends in `)` and the first
/// `(` sits right after the predicate.
pub proof fn lemma_prop_text_shape(p: PropV)
    requires
        prop_wf(p),
    ensures
        prop_text(p).len() >= 3,
        prop_text(p)[prop_text(p).len() - 1] == ')',
        contains_char(prop_text(p), '('),
    decreases 0int,
{
    reveal_strlit("-");
    reveal_strlit("(");
    reveal_strlit(")");
    let t = prop_text(p);
    let pre: Seq<char> = if p.pos {
        Seq::<char>::empty()
    } else {
        "-"@
    };
    let ins: Seq<char> = match p.ind {
        Some(i) => i,
        None => Seq::<char>::empty(),
    };
    let lp = pre.len() + p.pred.len();
    assert(t[lp as int] == '(');
    assert(t[t.len() - 1] == ')');
    lemma_find_index(t, '(');
    if find_index(t, '(') == t.len() {
        assert(t[lp as int] != '(');
    }
}

/// Display inverts parsing for well-formed propositions.
pub proof fn lemma_prop_round_trip(p: PropV)
    requires
        prop_wf(p),
    ensures
        parse_prop(prop_text(p)) == Some(p),
{
    reveal_strlit("-");
    reveal_strlit("(");
    reveal_strlit(")");
    let t = prop_text(p);
    let ins: Seq<char> = match p.ind {
        Some(i) => i,
        None => Seq::<char>::empty(),
    };
    let u = p.pred + "("@ + ins + ")"@;
    assert(('a' as u32 <= p.pred[0] as u32 && p.pred[0] as u32 <= 'z' as u32) || ('A' as u32
        <= p.pred[0] as u32 && p.pred[0] as u32 <= 'Z' as u32));
    if p.pos {
        assert(t =~= u);
    } else {
        assert(t[0] == '-');
        assert(t.subrange(1, t.len() as int) =~= u);
    }
    assert(u[0] == p.pred[0]);
    assert(u[0] != '-');
    // the first `(` of `u` is the one written after the predicate
    assert forall|j: int| 0 <= j < p.pred.len() implies u[j] != '(' by {
        assert(u[j] == p.pred[j]);
        assert(is_atom_char(p.pred[j]));
    }
    assert(u[p.pred.len() as int] == '(');
    lemma_find_index_is(u, '(', p.pred.len() as int);
    assert(u[u.len() - 1] == ')');
    assert(u.len() >= 2);
    assert(u.subrange(0, p.pred.len() as int) =~= p.pred);
    assert(u.subrange(p.pred.len() as int + 1, u.len() - 1) =~= ins);
    match p.ind {
        Some(i) => {
            assert(ins.len() > 0);
            assert(parse_prop(t) == Some(p));
        },
        None => {
            assert(ins.len() == 0);
            assert(parse_prop(t) == Some(p));
        },
    }
}

/// Parsing yields only well-formed propositions.
pub proof fn lemma_parse_prop_wf(s: Seq<char>)
    ensures
        parse_prop(s) matches Some(p) ==> prop_wf(p),
{
}

/// Display inverts parsing for well-formed short answers.
pub proof fn lemma_short_round_trip(a: ShortAnsV)
    requires
        valid_atom(a.ind),
    ensures
        parse_short(short_text(a)) == Some(a),
{
    reveal_strlit("-");
    let t = short_text(a);
    assert(('a' as u32 <= a.ind[0] as u32 && a.ind[0] as u32 <= 'z' as u32) || ('A' as u32
        <= a.ind[0] as u32 && a.ind[0] as u32 <= 'Z' as u32));
    if a.pos {
        assert(t =~= a.ind);
        assert(t[0] != '-');
    } else {
        assert(t[0] == '-');
        assert(t.subrange(1, t.len() as int) =~= a.ind);
    }
}

/// Display inverts parsing for well-formed answers.
pub proof fn lemma_ans_round_trip(a: AnsV)
    requires
        ans_wf(a),
    ensures
        parse_ans(ans_text(a)) == Some(a),
{
    reveal_strlit("-");
    reveal_strlit("(");
    reveal_strlit(")");
    reveal_strlit("yes");
    reveal_strlit("no");
    let t = ans_text(a);
    match a {
        AnsV::YesNo(b) => {
            if b {
                assert(t == "yes"@);
            } else {
                assert(t == "no"@);
                if t == "yes"@ {
                    assert("no"@.len() == "yes"@.len());
                }
            }
        },
        AnsV::Short(sa) => {
            // a short answer holds no parentheses, and is not `yes`/`no`
            if sa.pos {
                assert(t =~= sa.ind);
            } else {
                assert(t.subrange(1, t.len() as int) =~= sa.ind);
            }
            assert forall|j: int| 0 <= j < t.len() implies t[j] != '(' && t[j] != ')' by {
                if sa.pos {
                    assert(t[j] == sa.ind[j]);
                    assert(is_atom_char(sa.ind[j]));
                } else {
                    if j == 0 {
                        assert(t[j] == '-');
                    } else {
                        assert(t[j] == sa.ind[j - 1]);
                        assert(is_atom_char(sa.ind[j - 1]));
                    }
                }
            }
            lemma_find_index_is(t, '(', t.len() as int);
            lemma_find_index_is(t, ')', t.len() as int);
            if t == "yes"@ {
                if sa.pos {
                    assert(sa.ind == "yes"@);
                } else {
                    assert(t[0] == '-' && "yes"@[0] == 'y');
                }
            }
            if t == "no"@ {
                if sa.pos {
                    assert(sa.ind == "no"@);
                } else {
                    assert(t[0] == '-' && "no"@[0] == 'n');
                }
            }
            lemma_short_round_trip(sa);
        },
        AnsV::Prop(p) => {
            lemma_prop_text_shape(p);
            if t == "yes"@ {
                assert(t[t.len() - 1] == 's');
            }
            if t == "no"@ {
                assert(t[t.len() - 1] == 'o');
            }
            lemma_prop_round_trip(p);
        },
    }
}

/// Parsing yields only well-formed answers.
pub proof fn lemma_parse_ans_wf(s: Seq<char>)
    ensures
        parse_ans(s) matches Some(a) ==> ans_wf(a),
{
}

/// Every parseable proposition string has a canonical form: the display
/// of its parse, which parses back to the same value.
pub proof fn lemma_prop_canonical(s: Seq<char>)
    ensures
        parse_prop(s) matches Some(p) ==> parse_prop(prop_text(p)) == Some(p),
{
    if parse_prop(s) is Some {
        let p = parse_prop(s)->Some_0;
        lemma_parse_prop_wf(s);
        lemma_prop_round_trip(p);
    }
}

/// Every parseable answer string has a canonical form: the display of
/// its parse, which parses back to the same value.
pub proof fn lemma_ans_canonical(s: Seq<char>)
    ensures
        parse_ans(s) matches Some(a) ==> parse_ans(ans_text(a)) == Some(a),
{
    if parse_ans(s) is Some {
        let a = parse_ans(s)->Some_0;
        lemma_parse_ans_wf(s);
        lemma_ans_round_trip(a);
    }
}

} // verus!
