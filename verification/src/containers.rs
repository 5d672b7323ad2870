//! The generic containers backing the information state: a LIFO stack,
//! a unique-element stack, a set, and a single-value cell.  Each can
//! carry a validating constraint fixed at construction; every insertion
//! checks the constraint and rejects violations without mutating state.

use vstd::prelude::*;
use crate::errors::IsuError;
use crate::text::str_eq;

verus! {

/// A validating capability attached to a container at construction:
/// `accepts` is the mathematical constraint and `check` its runtime
/// test.
pub trait Validator<T: View>: Sized {
    /// The constraint, stated over the view of the element.
    spec fn accepts(&self, v: T::V) -> bool;

    /// Runtime test deciding [`Validator::accepts`].
    fn check(&self, x: &T) -> (r: bool)
        ensures
            r == self.accepts(x@);
}

/// Runtime equality that decides equality of the views.
pub trait EqSpec: View + Sized {
    /// Returns whether the two views are equal.
    fn eq_check(&self, other: &Self) -> (r: bool)
        ensures
            r == (self@ == other@);
}

impl EqSpec for String {
    fn eq_check(&self, other: &Self) -> (r: bool)
        ensures
            r == (self@ == other@),
    {
        str_eq(self.as_str(), other.as_str())
    }
}

/// The vacuous constraint: accepts every value.
pub struct AcceptAll;

impl<T: View> Validator<T> for AcceptAll {
    open spec fn accepts(&self, v: T::V) -> bool {
        true
    }

    fn check(&self, x: &T) -> (r: bool) {
        true
    }
}

/// Accepts exactly the members of a fixed list; an empty list accepts
/// everything.
pub struct AllowedValues<T> {
    pub allowed: Vec<T>,
}

impl<T: EqSpec> Validator<T> for AllowedValues<T> {
    open spec fn accepts(&self, v: T::V) -> bool {
        self.allowed@.len() == 0 || exists|i: int|
            0 <= i < self.allowed@.len() && (#[trigger] self.allowed@[i])@ == v
    }

    fn check(&self, x: &T) -> (r: bool) {
        if self.allowed.len() == 0 {
            return true;
        }
        let mut i: usize = 0;
        while i < self.allowed.len()
            invariant
                0 <= i <= self.allowed@.len(),
                forall|j: int| 0 <= j < i ==> (#[trigger] self.allowed@[j])@ != x@,
            decreases self.allowed@.len() - i,
        {
            if self.allowed[i].eq_check(x) {
                return true;
            }
            i = i + 1;
        }
        false
    }
}

/// Accepts strings of at least `n` characters.
pub struct LenAtLeast {
    pub n: usize,
}

impl Validator<String> for LenAtLeast {
    open spec fn accepts(&self, v: Seq<char>) -> bool {
        v.len() >= self.n
    }

    fn check(&self, x: &String) -> (r: bool) {
        x.as_str().unicode_len() >= self.n
    }
}

/// Accepts strings of at most `n` characters.
pub struct LenAtMost {
    pub n: usize,
}

impl Validator<String> for LenAtMost {
    open spec fn accepts(&self, v: Seq<char>) -> bool {
        v.len() <= self.n
    }

    fn check(&self, x: &String) -> (r: bool) {
        x.as_str().unicode_len() <= self.n
    }
}

/// Accepts strings that start with a fixed prefix.
pub struct StartsWith {
    pub prefix: String,
}

impl Validator<String> for StartsWith {
    open spec fn accepts(&self, v: Seq<char>) -> bool {
        v.len() >= self.prefix@.len() && v.subrange(0, self.prefix@.len() as int) == self.prefix@
    }

    fn check(&self, x: &String) -> (r: bool) {
        let n = self.prefix.as_str().unicode_len();
        let m = x.as_str().unicode_len();
        if m < n {
            return false;
        }
        str_eq(x.as_str().substring_char(0, n), self.prefix.as_str())
    }
}

/// A LIFO stack, viewed bottom-to-top (the top is the last element),
/// with an optional constraint checked on every push.
pub struct Stack<T, C> {
    elements: Vec<T>,
    constraint: Option<C>,
}

impl<T: View, C: Validator<T>> View for Stack<T, C> {
    type V = Seq<T::V>;

    closed spec fn view(&self) -> Seq<T::V> {
        self.elements@.map_values(|x: T| x@)
    }
}

impl<T: View> Stack<T, AcceptAll> {
    /// A new unconstrained stack.
    pub fn new() -> (r: Stack<T, AcceptAll>)
        ensures
            r@ == Seq::<T::V>::empty(),
            r.constraint_spec() is None,
    {
        let r = Stack { elements: Vec::new(), constraint: None };
        proof {
            assert(r@ =~= Seq::<T::V>::empty());
        }
        r
    }
}

impl<T: View, C: Validator<T>> Stack<T, C> {
    /// The constraint the stack was built with, if any.
    pub closed spec fn constraint_spec(&self) -> Option<C> {
        self.constraint
    }

    /// Whether the constraint (if any) accepts `v`.
    pub open spec fn accepts(&self, v: T::V) -> bool {
        match self.constraint_spec() {
            Some(c) => c.accepts(v),
            None => true,
        }
    }

    /// A new stack constrained by `c`.
    pub fn with_type(c: C) -> (r: Stack<T, C>)
        ensures
            r@ == Seq::<T::V>::empty(),
            r.constraint_spec() == Some(c),
    {
        let r = Stack { elements: Vec::new(), constraint: Some(c) };
        proof {
            assert(r@ =~= Seq::<T::V>::empty());
        }
        r
    }

    /// Runtime test for [`Stack::accepts`].
    pub fn allows(&self, x: &T) -> (r: bool)
        ensures
            r == self.accepts(x@),
    {
        match &self.constraint {
            Some(c) => c.check(x),
            None => true,
        }
    }

    /// The top element, or an error on an empty stack.
    pub fn top(&self) -> (r: Result<&T, IsuError>)
        ensures
            self@.len() > 0 ==> (r matches Ok(v) && v@ == self@.last()),
            self@.len() == 0 ==> (r matches Err(e) && e == IsuError::EmptyStack),
    {
        if self.elements.len() == 0 {
            Err(IsuError::EmptyStack)
        } else {
            Ok(&self.elements[self.elements.len() - 1])
        }
    }

    /// Removes and returns the top element.
    pub fn pop(&mut self) -> (r: Result<T, IsuError>)
        ensures
            final(self).constraint_spec() == old(self).constraint_spec(),
            old(self)@.len() > 0 ==> (r matches Ok(v) && v@ == old(self)@.last() && final(self)@
                == old(self)@.drop_last()),
            old(self)@.len() == 0 ==> (r matches Err(e) && e == IsuError::EmptyStack && final(self)@ == old(self)@),
    {
        if self.elements.len() == 0 {
            Err(IsuError::EmptyStack)
        } else {
            let v = self.elements.pop().unwrap();
            proof {
                assert(self@ =~= old(self)@.drop_last());
            }
            Ok(v)
        }
    }

    /// Pushes a value after checking the constraint; a rejected value
    /// leaves the stack unchanged.
    pub fn push(&mut self, value: T) -> (r: Result<(), IsuError>)
        ensures
            final(self).constraint_spec() == old(self).constraint_spec(),
            old(self).accepts(value@) ==> (r is Ok && final(self)@ == old(self)@.push(value@)),
            !old(self).accepts(value@) ==> (r matches Err(e) && e == IsuError::ValueRejected
                && final(self)@ == old(self)@),
    {
        if !self.allows(&value) {
            return Err(IsuError::ValueRejected);
        }
        self.elements.push(value);
        proof {
            assert(self@ =~= old(self)@.push(value@));
        }
        Ok(())
    }

    /// Empties the stack.
    pub fn clear(&mut self)
        ensures
            final(self).constraint_spec() == old(self).constraint_spec(),
            final(self)@ == Seq::<T::V>::empty(),
    {
        self.elements.clear();
        proof {
            assert(self@ =~= Seq::<T::V>::empty());
        }
    }

    /// The number of elements.
    pub fn len(&self) -> (r: usize)
        ensures
            r == self@.len(),
    {
        self.elements.len()
    }

    /// Whether the stack is empty.
    pub fn is_empty(&self) -> (r: bool)
        ensures
            r == (self@.len() == 0),
    {
        self.elements.len() == 0
    }

    /// The element at position `i` (counted from the bottom).
    pub fn get(&self, i: usize) -> (r: Option<&T>)
        ensures
            i < self@.len() ==> (r matches Some(v) && v@ == self@[i as int]),
            i >= self@.len() ==> r is None,
    {
        if i < self.elements.len() {
            Some(&self.elements[i])
        } else {
            None
        }
    }

    /// Removes the element at position `i`.
    pub fn remove_at(&mut self, i: usize) -> (r: T)
        requires
            i < old(self)@.len(),
        ensures
            final(self).constraint_spec() == old(self).constraint_spec(),
            final(self)@ == old(self)@.remove(i as int),
            r@ == old(self)@[i as int],
    {
        let v = self.elements.remove(i);
        proof {
            assert(self@ =~= old(self)@.remove(i as int));
        }
        v
    }
}

impl<T: View + EqSpec, C: Validator<T>> Stack<T, C> {
    /// The position of the first element whose view equals that of `x`.
    pub fn index_of(&self, x: &T) -> (r: Option<usize>)
        ensures
            match r {
                Some(i) => i < self@.len() && self@[i as int] == x@ && (forall|j: int|
                    0 <= j < i ==> self@[j] != x@),
                None => forall|j: int| 0 <= j < self@.len() ==> self@[j] != x@,
            },
    {
        let mut i: usize = 0;
        while i < self.elements.len()
            invariant
                0 <= i <= self@.len(),
                self@.len() == self.elements@.len(),
                forall|j: int| 0 <= j < i ==> self@[j] != x@,
            decreases self@.len() - i,
    {
            if self.elements[i].eq_check(x) {
                return Some(i);
            }
            i = i + 1;
        }
        None
    }

    /// Whether some element's view equals that of `x`.
    pub fn has(&self, x: &T) -> (r: bool)
        ensures
            r == self@.contains(x@),
    {
        match self.index_of(x) {
            Some(i) => {
                proof {
                    assert(self@[i as int] == x@);
                }
                true
            },
            None => {
                proof {
                    if self@.contains(x@) {
                        let w = choose|j: int| 0 <= j < self@.len() && self@[j] == x@;
                        assert(self@[w] != x@);
                    }
                }
                false
            },
        }
    }
}

/// A stack whose elements are unique: pushing a present element moves
/// it to the top without duplicating it.
pub struct StackSet<T, C> {
    stack: Stack<T, C>,
}

impl<T: View, C: Validator<T>> View for StackSet<T, C> {
    type V = Seq<T::V>;

    closed spec fn view(&self) -> Seq<T::V> {
        self.stack@
    }
}

impl<T: View> StackSet<T, AcceptAll> {
    /// A new unconstrained unique stack.
    pub fn new() -> (r: StackSet<T, AcceptAll>)
        ensures
            r@ == Seq::<T::V>::empty(),
            r.constraint_spec() is None,
            forall|v: T::V| #[trigger] r.accepts(v),
    {
        StackSet { stack: Stack::new() }
    }
}

impl<T: View, C: Validator<T>> StackSet<T, C> {
    /// No two elements share a view.
    pub open spec fn wf(&self) -> bool {
        forall|i: int, j: int| 0 <= i < j < self@.len() ==> self@[i] != self@[j]
    }

    /// The constraint the stack was built with, if any.
    pub closed spec fn constraint_spec(&self) -> Option<C> {
        self.stack.constraint_spec()
    }

    /// Whether the constraint (if any) accepts `v`.
    pub closed spec fn accepts(&self, v: T::V) -> bool {
        self.stack.accepts(v)
    }

    /// A new unique stack constrained by `c`.
    pub fn with_type(c: C) -> (r: StackSet<T, C>)
        ensures
            r@ == Seq::<T::V>::empty(),
            r.constraint_spec() == Some(c),
            forall|v: T::V| #[trigger] r.accepts(v) == c.accepts(v),
    {
        StackSet { stack: Stack::with_type(c) }
    }

    /// The number of elements.
    pub fn len(&self) -> (r: usize)
        ensures
            r == self@.len(),
    {
        self.stack.len()
    }

    /// Whether the stack is empty.
    pub fn is_empty(&self) -> (r: bool)
        ensures
            r == (self@.len() == 0),
    {
        self.stack.is_empty()
    }

    /// The top element, or an error on an empty stack.
    pub fn top(&self) -> (r: Result<&T, IsuError>)
        ensures
            self@.len() > 0 ==> (r matches Ok(v) && v@ == self@.last()),
            self@.len() == 0 ==> (r matches Err(e) && e == IsuError::EmptyStack),
    {
        self.stack.top()
    }

    /// Removes and returns the top element.
    pub fn pop(&mut self) -> (r: Result<T, IsuError>)
        ensures
            final(self).constraint_spec() == old(self).constraint_spec(),
            forall|v: T::V| #[trigger] final(self).accepts(v) == old(self).accepts(v),
            old(self).wf() ==> final(self).wf(),
            old(self)@.len() > 0 ==> (r matches Ok(v) && v@ == old(self)@.last() && final(self)@
                == old(self)@.drop_last()),
            old(self)@.len() == 0 ==> (r matches Err(e) && e == IsuError::EmptyStack && final(self)@ == old(self)@),
    {
        let r = self.stack.pop();
        proof {
            if old(self).wf() && old(self)@.len() > 0 {
                assert forall|i: int, j: int| 0 <= i < j < self@.len() implies self@[i]
                    != self@[j] by {
                    assert(self@[i] == old(self)@[i]);
                    assert(self@[j] == old(self)@[j]);
                }
            }
        }
        r
    }

    /// The element at position `i` (counted from the bottom).
    pub fn get(&self, i: usize) -> (r: Option<&T>)
        ensures
            i < self@.len() ==> (r matches Some(v) && v@ == self@[i as int]),
            i >= self@.len() ==> r is None,
    {
        self.stack.get(i)
    }
}

impl<T: View + EqSpec, C: Validator<T>> StackSet<T, C> {
    /// Whether some element's view equals that of `x`.
    pub fn contains(&self, x: &T) -> (r: bool)
        ensures
            r == self@.contains(x@),
    {
        self.stack.has(x)
    }

    /// Pushes a value: an accepted value lands on top, and any earlier
    /// occurrence is removed first, so that the length does not grow
    /// when the value was already present.  A rejected value leaves the
    /// stack unchanged.
    pub fn push(&mut self, value: T) -> (r: Result<(), IsuError>)
        requires
            old(self).wf(),
        ensures
            final(self).constraint_spec() == old(self).constraint_spec(),
            forall|v: T::V| #[trigger] final(self).accepts(v) == old(self).accepts(v),
            old(self).accepts(value@) ==> (r is Ok && final(self)@ == old(self)@.remove_value(
                value@,
            ).push(value@) && final(self).wf() && final(self)@.len() == (if old(self)@.contains(
                value@,
            ) {
                old(self)@.len()
            } else {
                old(self)@.len() + 1
            }) && (forall|v: T::V|
                final(self)@.contains(v) <==> (old(self)@.contains(v) || v == value@))),
            !old(self).accepts(value@) ==> (r matches Err(e) && e == IsuError::ValueRejected
                && final(self)@ == old(self)@),
    {
        if !self.stack.allows(&value) {
            return Err(IsuError::ValueRejected);
        }
        let ghost s0: Seq<T::V> = self@;
        let ghost v: T::V = value@;
        let idx = self.stack.index_of(&value);
        match idx {
            Some(i) => {
                proof {
                    s0.index_of_first_ensures(v);
                    if s0.index_of_first(v) is None {
                        assert(!s0.contains(v));
                        assert(s0[i as int] == v);
                    }
                    let k = s0.index_of_first(v)->Some_0;
                    if k < i {
                        assert(s0[k] != v);
                    }
                    if i < k {
                        assert(s0[i as int] != v);
                    }
                    assert(s0.index_of_first(v) == Some(i as int));
                    assert(s0.remove_value(v) == s0.remove(i as int));
                }
                self.stack.remove_at(i);
            },
            None => {
                proof {
                    s0.index_of_first_ensures(v);
                    if s0.index_of_first(v) is Some {
                        let k = s0.index_of_first(v)->Some_0;
                        assert(s0[k] != v);
                    }
                    assert(s0.remove_value(v) == s0);
                }
            },
        }
        let ghost s1: Seq<T::V> = self@;
        let pushed = self.stack.push(value);
        proof {
            if pushed matches Err(_) {
                assert(false);
            }
            assert(s1 == s0.remove_value(v));
            assert(self@ == s1.push(v));
            // uniqueness: the removed stack holds no copy of `v`, and
            // keeps its elements pairwise distinct
            if s0.contains(v) {
                let i = s0.index_of_first(v)->Some_0;
                s0.remove_ensures(i);
                assert forall|j: int| 0 <= j < s1.len() implies s1[j] != v by {
                    if j < i {
                        assert(s1[j] == s0[j]);
                        if s0[j] == v {
                            assert(s0.index_of_first(v) is Some);
                        }
                    } else {
                        assert(s1[j] == s0[j + 1]);
                        assert(s0[i] == v);
                    }
                }
                assert forall|a: int, b: int| 0 <= a < b < s1.len() implies s1[a] != s1[b] by {
                    let a0 = if a < i { a } else { a + 1 };
                    let b0 = if b < i { b } else { b + 1 };
                    assert(s1[a] == s0[a0]);
                    assert(s1[b] == s0[b0]);
                }
                assert(s0.len() == s1.len() + 1);
            } else {
                assert(s1 == s0);
                assert forall|j: int| 0 <= j < s1.len() implies s1[j] != v by {
                    if s1[j] == v {
                        assert(s0.contains(v));
                    }
                }
            }
            assert forall|a: int, b: int| 0 <= a < b < self@.len() implies self@[a]
                != self@[b] by {
                if b == self@.len() - 1 {
                    assert(self@[a] == s1[a]);
                    assert(self@[b] == v);
                } else {
                    assert(self@[a] == s1[a]);
                    assert(self@[b] == s1[b]);
                }
            }
            assert forall|w: T::V| self@.contains(w) <==> (s0.contains(w) || w == v) by {
                if self@.contains(w) {
                    let j = choose|j: int| 0 <= j < self@.len() && self@[j] == w;
                    if j == self@.len() - 1 {
                        assert(w == v);
                    } else {
                        assert(s1[j] == w);
                        if s0.contains(v) {
                            let i = s0.index_of_first(v)->Some_0;
                            s0.remove_ensures(i);
                            if j < i {
                                assert(s0[j] == w);
                            } else {
                                assert(s0[j + 1] == w);
                            }
                        } else {
                            assert(s0[j] == w);
                        }
                    }
                }
                if w == v {
                    assert(self@[self@.len() - 1] == w);
                    assert(self@.contains(w));
                }
                if s0.contains(w) && w != v {
                    let j = choose|j: int| 0 <= j < s0.len() && s0[j] == w;
                    if s0.contains(v) {
                        let i = s0.index_of_first(v)->Some_0;
                        s0.remove_ensures(i);
                        assert(s0[i] == v);
                        assert(j != i);
                        if j < i {
                            assert(s1[j] == w);
                            assert(self@[j] == w);
                        } else {
                            assert(s1[j - 1] == w);
                            assert(self@[j - 1] == w);
                        }
                    } else {
                        assert(self@[j] == w);
                    }
                    assert(self@.contains(w));
                }
            }
        }
        Ok(())
    }
}

/// A set with unique elements, with an optional constraint checked on
/// every insertion.  The view lists the elements in insertion order.
pub struct TSet<T, C> {
    elements: Vec<T>,
    constraint: Option<C>,
}

impl<T: View, C: Validator<T>> View for TSet<T, C> {
    type V = Seq<T::V>;

    closed spec fn view(&self) -> Seq<T::V> {
        self.elements@.map_values(|x: T| x@)
    }
}

impl<T: View> TSet<T, AcceptAll> {
    /// A new unconstrained set.
    pub fn new() -> (r: TSet<T, AcceptAll>)
        ensures
            r@ == Seq::<T::V>::empty(),
            r.constraint_spec() is None,
    {
        let r = TSet { elements: Vec::new(), constraint: None };
        proof {
            assert(r@ =~= Seq::<T::V>::empty());
        }
        r
    }
}

impl<T: View, C: Validator<T>> TSet<T, C> {
    /// No two elements share a view.
    pub open spec fn wf(&self) -> bool {
        forall|i: int, j: int| 0 <= i < j < self@.len() ==> self@[i] != self@[j]
    }

    /// The constraint the set was built with, if any.
    pub closed spec fn constraint_spec(&self) -> Option<C> {
        self.constraint
    }

    /// Whether the constraint (if any) accepts `v`.
    pub open spec fn accepts(&self, v: T::V) -> bool {
        match self.constraint_spec() {
            Some(c) => c.accepts(v),
            None => true,
        }
    }

    /// A new set constrained by `c`.
    pub fn with_type(c: C) -> (r: TSet<T, C>)
        ensures
            r@ == Seq::<T::V>::empty(),
            r.constraint_spec() == Some(c),
    {
        let r = TSet { elements: Vec::new(), constraint: Some(c) };
        proof {
            assert(r@ =~= Seq::<T::V>::empty());
        }
        r
    }

    /// The number of elements.
    pub fn len(&self) -> (r: usize)
        ensures
            r == self@.len(),
    {
        self.elements.len()
    }

    /// Empties the set.
    pub fn clear(&mut self)
        ensures
            final(self).constraint_spec() == old(self).constraint_spec(),
            final(self)@ == Seq::<T::V>::empty(),
    {
        self.elements.clear();
        proof {
            assert(self@ =~= Seq::<T::V>::empty());
        }
    }

    /// The element at position `i` (in insertion order).
    pub fn get(&self, i: usize) -> (r: Option<&T>)
        ensures
            i < self@.len() ==> (r matches Some(v) && v@ == self@[i as int]),
            i >= self@.len() ==> r is None,
    {
        if i < self.elements.len() {
            Some(&self.elements[i])
        } else {
            None
        }
    }
}

impl<T: View + EqSpec, C: Validator<T>> TSet<T, C> {
    /// Whether some element's view equals that of `x`.
    pub fn contains(&self, x: &T) -> (r: bool)
        ensures
            r == self@.contains(x@),
    {
        let mut i: usize = 0;
        while i < self.elements.len()
            invariant
                0 <= i <= self@.len(),
                self@.len() == self.elements@.len(),
                forall|j: int| 0 <= j < i ==> self@[j] != x@,
            decreases self@.len() - i,
        {
            if self.elements[i].eq_check(x) {
                proof {
                    assert(self@[i as int] == x@);
                }
                return true;
            }
            i = i + 1;
        }
        proof {
            if self@.contains(x@) {
                let w = choose|j: int| 0 <= j < self@.len() && self@[j] == x@;
                assert(self@[w] != x@);
            }
        }
        false
    }

    /// Adds a value after checking the constraint; a present value and
    /// a rejected value both leave the set unchanged.
    pub fn add(&mut self, value: T) -> (r: Result<(), IsuError>)
        ensures
            final(self).constraint_spec() == old(self).constraint_spec(),
            !old(self).accepts(value@) ==> (r matches Err(e) && e == IsuError::ValueRejected
                && final(self)@ == old(self)@),
            old(self).accepts(value@) && old(self)@.contains(value@) ==> (r is Ok && final(self)@
                == old(self)@),
            old(self).accepts(value@) && !old(self)@.contains(value@) ==> (r is Ok && final(self)@ == old(self)@.push(value@)),
            old(self).wf() ==> final(self).wf(),
    {
        let accepted = match &self.constraint {
            Some(c) => c.check(&value),
            None => true,
        };
        if !accepted {
            return Err(IsuError::ValueRejected);
        }
        if self.contains(&value) {
            return Ok(());
        }
        self.elements.push(value);
        proof {
            assert(self@ =~= old(self)@.push(value@));
            if old(self).wf() {
                assert forall|i: int, j: int| 0 <= i < j < self@.len() implies self@[i]
                    != self@[j] by {
                    if j == self@.len() - 1 {
                        assert(self@[i] == old(self)@[i]);
                        if old(self)@[i] == value@ {
                            assert(old(self)@.contains(value@));
                        }
                    } else {
                        assert(self@[i] == old(self)@[i]);
                        assert(self@[j] == old(self)@[j]);
                    }
                }
            }
        }
        Ok(())
    }
}

/// A single-value cell with an optional constraint checked on every
/// assignment.
pub struct Value<T, C> {
    value: Option<T>,
    constraint: Option<C>,
}

impl<T: View, C: Validator<T>> View for Value<T, C> {
    type V = Option<T::V>;

    closed spec fn view(&self) -> Option<T::V> {
        match self.value {
            Some(v) => Some(v@),
            None => None,
        }
    }
}

impl<T: EqSpec> Value<T, AllowedValues<T>> {
    /// A new empty cell restricted to a list of permitted values.
    pub fn new_allowed(allowed: Vec<T>) -> (r: Value<T, AllowedValues<T>>)
        ensures
            r@ is None,
            r.constraint_spec() == Some(AllowedValues { allowed }),
    {
        Value { value: None, constraint: Some(AllowedValues { allowed }) }
    }
}

impl<T: View, C: Validator<T>> Value<T, C> {
    /// The constraint the cell was built with, if any.
    pub closed spec fn constraint_spec(&self) -> Option<C> {
        self.constraint
    }

    /// Whether the constraint (if any) accepts `v`.
    pub open spec fn accepts(&self, v: T::V) -> bool {
        match self.constraint_spec() {
            Some(c) => c.accepts(v),
            None => true,
        }
    }

    /// A new empty cell constrained by `c`.
    pub fn new_type(c: C) -> (r: Value<T, C>)
        ensures
            r@ is None,
            r.constraint_spec() == Some(c),
    {
        Value { value: None, constraint: Some(c) }
    }

    /// Assigns a value after checking the constraint; a rejected value
    /// leaves the cell unchanged.
    pub fn set(&mut self, value: T) -> (r: Result<(), IsuError>)
        ensures
            final(self).constraint_spec() == old(self).constraint_spec(),
            old(self).accepts(value@) ==> (r is Ok && final(self)@ == Some(value@)),
            !old(self).accepts(value@) ==> (r matches Err(e) && e == IsuError::ValueRejected
                && final(self)@ == old(self)@),
    {
        let accepted = match &self.constraint {
            Some(c) => c.check(&value),
            None => true,
        };
        if !accepted {
            return Err(IsuError::ValueRejected);
        }
        self.value = Some(value);
        Ok(())
    }

    /// The stored value, if any.
    pub fn get(&self) -> (r: Option<&T>)
        ensures
            match r {
                Some(v) => self@ == Some(v@),
                None => self@ is None,
            },
    {
        match &self.value {
            Some(v) => Some(v),
            None => None,
        }
    }

    /// Clears the stored value.
    pub fn clear(&mut self)
        ensures
            final(self).constraint_spec() == old(self).constraint_spec(),
            final(self)@ is None,
    {
        self.value = None;
    }
}

} // verus!
