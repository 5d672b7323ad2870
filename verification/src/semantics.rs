//! Atomic identifiers and the named semantic wrappers built on them:
//! individuals, zero- and one-place predicates, and sorts.

use vstd::prelude::*;
use crate::errors::IsuError;
use crate::text::{valid_atom, is_letter, is_atom_char, letter, atom_char, str_eq};

verus! {

/// A validated identifier: non-empty, not the reserved words `yes`/`no`,
/// an ASCII letter first, then ASCII letters, digits or `_ - + :`.  The
/// alphabet is the notation rule of this crate; see [`crate::text`].
#[derive(Debug)]
pub struct Atomic {
    content: String,
}

impl View for Atomic {
    type V = Seq<char>;

    closed spec fn view(&self) -> Seq<char> {
        self.content@
    }
}

impl Clone for Atomic {
    fn clone(&self) -> (r: Self)
        ensures
            r@ == self@,
    {
        Atomic { content: self.content.clone() }
    }
}

impl Atomic {
    /// Parses an atom, accepting exactly the strings that satisfy
    /// [`valid_atom`].
    pub fn new(atom: &str) -> (r: Result<Atomic, IsuError>)
        ensures
            valid_atom(atom@) ==> (r matches Ok(a) && a@ == atom@),
            !valid_atom(atom@) ==> r == Err::<Atomic, IsuError>(IsuError::ParseError),
    {
        let n = atom.unicode_len();
        if n == 0 {
            return Err(IsuError::ParseError);
        }
        if str_eq(atom, "yes") || str_eq(atom, "no") {
            return Err(IsuError::ParseError);
        }
        if !letter(atom.get_char(0)) {
            return Err(IsuError::ParseError);
        }
        let mut i: usize = 0;
        while i < n
            invariant
                n == atom@.len(),
                0 < n,
                atom@ != "yes"@,
                atom@ != "no"@,
                is_letter(atom@[0]),
                0 <= i <= n,
                forall|j: int| 0 <= j < i ==> is_atom_char(#[trigger] atom@[j]),
            decreases n - i,
        {
            if !atom_char(atom.get_char(i)) {
                return Err(IsuError::ParseError);
            }
            i = i + 1;
        }
        Ok(Atomic { content: atom.to_owned() })
    }

    /// The textual form: the atom itself.
    pub fn text(&self) -> (r: String)
        ensures
            r@ == self@,
    {
        self.content.clone()
    }

    /// Character-wise equality.
    pub fn same(&self, other: &Atomic) -> (r: bool)
        ensures
            r == (self@ == other@),
    {
        str_eq(self.content.as_str(), other.content.as_str())
    }

    /// Wraps an already-formed content without textual validation: for
    /// values the system builds structurally, such as a price drawn
    /// from a database record, which need not be parseable text.
    pub(crate) fn from_parts(content: String) -> (r: Atomic)
        ensures
            r@ == content@,
    {
        Atomic { content }
    }

    /// The content as a borrowed string.
    pub fn as_str(&self) -> (r: &str)
        ensures
            r@ == self@,
    {
        self.content.as_str()
    }
}

/// An individual of the domain.
#[derive(Debug)]
pub struct Ind(pub Atomic);

impl View for Ind {
    type V = Seq<char>;

    open spec fn view(&self) -> Seq<char> {
        self.0@
    }
}

impl Clone for Ind {
    fn clone(&self) -> (r: Self)
        ensures
            r@ == self@,
    {
        Ind(self.0.clone())
    }
}

impl Ind {
    /// Parses an individual name.
    pub fn new(atom: &str) -> (r: Result<Ind, IsuError>)
        ensures
            valid_atom(atom@) ==> (r matches Ok(a) && a@ == atom@),
            !valid_atom(atom@) ==> r == Err::<Ind, IsuError>(IsuError::ParseError),
    {
        match Atomic::new(atom) {
            Ok(a) => Ok(Ind(a)),
            Err(e) => Err(e),
        }
    }

    /// The textual form: the name itself.
    pub fn text(&self) -> (r: String)
        ensures
            r@ == self@,
    {
        self.0.text()
    }

    /// Character-wise equality.
    pub fn same(&self, other: &Ind) -> (r: bool)
        ensures
            r == (self@ == other@),
    {
        self.0.same(&other.0)
    }
}

/// A zero-place predicate.
#[derive(Debug)]
pub struct Pred0(pub Atomic);

impl View for Pred0 {
    type V = Seq<char>;

    open spec fn view(&self) -> Seq<char> {
        self.0@
    }
}

impl Clone for Pred0 {
    fn clone(&self) -> (r: Self)
        ensures
            r@ == self@,
    {
        Pred0(self.0.clone())
    }
}

impl Pred0 {
    /// Parses a zero-place predicate name.
    pub fn new(atom: &str) -> (r: Result<Pred0, IsuError>)
        ensures
            valid_atom(atom@) ==> (r matches Ok(a) && a@ == atom@),
            !valid_atom(atom@) ==> r == Err::<Pred0, IsuError>(IsuError::ParseError),
    {
        match Atomic::new(atom) {
            Ok(a) => Ok(Pred0(a)),
            Err(e) => Err(e),
        }
    }

    /// The textual form: the name itself.
    pub fn text(&self) -> (r: String)
        ensures
            r@ == self@,
    {
        self.0.text()
    }

    /// Character-wise equality.
    pub fn same(&self, other: &Pred0) -> (r: bool)
        ensures
            r == (self@ == other@),
    {
        self.0.same(&other.0)
    }
}

/// A one-place predicate.
#[derive(Debug)]
pub struct Pred1(pub Atomic);

impl View for Pred1 {
    type V = Seq<char>;

    open spec fn view(&self) -> Seq<char> {
        self.0@
    }
}

impl Clone for Pred1 {
    fn clone(&self) -> (r: Self)
        ensures
            r@ == self@,
    {
        Pred1(self.0.clone())
    }
}

impl Pred1 {
    /// Parses a one-place predicate name.
    pub fn new(atom: &str) -> (r: Result<Pred1, IsuError>)
        ensures
            valid_atom(atom@) ==> (r matches Ok(a) && a@ == atom@),
            !valid_atom(atom@) ==> r == Err::<Pred1, IsuError>(IsuError::ParseError),
    {
        match Atomic::new(atom) {
            Ok(a) => Ok(Pred1(a)),
            Err(e) => Err(e),
        }
    }

    /// The textual form: the name itself.
    pub fn text(&self) -> (r: String)
        ensures
            r@ == self@,
    {
        self.0.text()
    }

    /// Character-wise equality.
    pub fn same(&self, other: &Pred1) -> (r: bool)
        ensures
            r == (self@ == other@),
    {
        self.0.same(&other.0)
    }
}

/// A sort: a one-place predicate used as a category name.
#[derive(Debug)]
pub struct Sort(pub Pred1);

impl View for Sort {
    type V = Seq<char>;

    open spec fn view(&self) -> Seq<char> {
        self.0@
    }
}

impl Clone for Sort {
    fn clone(&self) -> (r: Self)
        ensures
            r@ == self@,
    {
        Sort(self.0.clone())
    }
}

impl Sort {
    /// Parses a sort name.
    pub fn new(atom: &str) -> (r: Result<Sort, IsuError>)
        ensures
            valid_atom(atom@) ==> (r matches Ok(a) && a@ == atom@),
            !valid_atom(atom@) ==> r == Err::<Sort, IsuError>(IsuError::ParseError),
    {
        match Pred1::new(atom) {
            Ok(a) => Ok(Sort(a)),
            Err(e) => Err(e),
        }
    }

    /// The textual form: the name itself.
    pub fn text(&self) -> (r: String)
        ensures
            r@ == self@,
    {
        self.0.text()
    }
}

} // verus!
