//! The travel database: records of journeys and the lookup that turns
//! a set of committed propositions into a price proposition.

use vstd::prelude::*;
use crate::containers::{AcceptAll, TSet};
use crate::errors::IsuError;
use crate::prop::{Prop, PropV};
use crate::question::Question;
use crate::semantics::{Atomic, Ind, Pred0};
use crate::text::str_eq;

verus! {

/// The mathematical value of a database record.
pub ghost struct DbEntryV {
    pub from: Seq<char>,
    pub to: Seq<char>,
    pub day: Seq<char>,
    pub price: Seq<char>,
}

/// One journey record: route, day, and price.
#[derive(Debug)]
pub struct DbEntry {
    pub from: String,
    pub to: String,
    pub day: String,
    pub price: String,
}

impl View for DbEntry {
    type V = DbEntryV;

    open spec fn view(&self) -> DbEntryV {
        DbEntryV { from: self.from@, to: self.to@, day: self.day@, price: self.price@ }
    }
}

/// The argument of the first proposition in the context whose predicate
/// is `pred`; `None` when no predicate matches or the first match has
/// no argument.
pub open spec fn ctx_value(com: Seq<PropV>, pred: Seq<char>) -> Option<Seq<char>>
    decreases com.len(),
{
    if com.len() == 0 {
        None
    } else if com[0].pred == pred {
        com[0].ind
    } else {
        ctx_value(com.subrange(1, com.len() as int), pred)
    }
}

/// [`ctx_value`] is pinned down by the position of the first matching
/// predicate.
pub proof fn lemma_ctx_value_is(com: Seq<PropV>, pred: Seq<char>, i: int)
    requires
        0 <= i <= com.len(),
        forall|j: int| 0 <= j < i ==> (#[trigger] com[j]).pred != pred,
        i < com.len() ==> com[i].pred == pred,
    ensures
        i < com.len() ==> ctx_value(com, pred) == com[i].ind,
        i == com.len() ==> ctx_value(com, pred) is None,
    decreases com.len(),
{
    if com.len() == 0 {
    } else if com[0].pred == pred {
        assert(i == 0);
    } else {
        let t = com.subrange(1, com.len() as int);
        assert forall|j: int| 0 <= j < i - 1 implies (#[trigger] t[j]).pred != pred by {
            assert(t[j] == com[j + 1]);
        }
        if i - 1 < t.len() {
            assert(t[i - 1] == com[i]);
        }
        lemma_ctx_value_is(t, pred, i - 1);
    }
}

/// The first record matching the given route and day.
pub open spec fn find_entry(db: Seq<DbEntryV>, from: Seq<char>, to: Seq<char>, day: Seq<char>) -> Option<DbEntryV>
    decreases db.len(),
{
    if db.len() == 0 {
        None
    } else if db[0].from == from && db[0].to == to && db[0].day == day {
        Some(db[0])
    } else {
        find_entry(db.subrange(1, db.len() as int), from, to, day)
    }
}

/// [`find_entry`] is pinned down by the position of the first match.
pub proof fn lemma_find_entry_is(
    db: Seq<DbEntryV>,
    from: Seq<char>,
    to: Seq<char>,
    day: Seq<char>,
    i: int,
)
    requires
        0 <= i <= db.len(),
        forall|j: int|
            0 <= j < i ==> !((#[trigger] db[j]).from == from && db[j].to == to && db[j].day
                == day),
        i < db.len() ==> db[i].from == from && db[i].to == to && db[i].day == day,
    ensures
        i < db.len() ==> find_entry(db, from, to, day) == Some(db[i]),
        i == db.len() ==> find_entry(db, from, to, day) is None,
    decreases db.len(),
{
    if db.len() == 0 {
    } else if db[0].from == from && db[0].to == to && db[0].day == day {
        assert(i == 0);
    } else {
        let t = db.subrange(1, db.len() as int);
        assert forall|j: int|
            0 <= j < i - 1 implies !((#[trigger] t[j]).from == from && t[j].to == to && t[j].day
            == day) by {
            assert(t[j] == db[j + 1]);
        }
        if i - 1 < t.len() {
            assert(t[i - 1] == db[i]);
        }
        lemma_find_entry_is(t, from, to, day, i - 1);
    }
}

/// What a consultation returns: the context must carry arguments for
/// `depart_city`, `dest_city` and `depart_day`; a record matching all
/// three yields a positive `price` proposition holding its price.
pub open spec fn spec_consult(db: Seq<DbEntryV>, com: Seq<PropV>) -> Option<PropV> {
    let from = ctx_value(com, "depart_city"@);
    let to = ctx_value(com, "dest_city"@);
    let day = ctx_value(com, "depart_day"@);
    if from is Some && to is Some && day is Some {
        match find_entry(db, from->Some_0, to->Some_0, day->Some_0) {
            Some(e) => Some(PropV { pred: "price"@, ind: Some(e.price), pos: true }),
            None => None,
        }
    } else {
        None
    }
}

/// The journey records, in insertion order.
pub struct TravelDB {
    entries: Vec<DbEntry>,
}

impl View for TravelDB {
    type V = Seq<DbEntryV>;

    closed spec fn view(&self) -> Seq<DbEntryV> {
        self.entries@.map_values(|e: DbEntry| e@)
    }
}

impl TravelDB {
    /// An empty database.
    pub fn new() -> (r: TravelDB)
        ensures
            r@ == Seq::<DbEntryV>::empty(),
    {
        let r = TravelDB { entries: Vec::new() };
        proof {
            assert(r@ =~= Seq::<DbEntryV>::empty());
        }
        r
    }

    /// Appends a record.
    pub fn add_entry(&mut self, entry: DbEntry)
        ensures
            final(self)@ == old(self)@.push(entry@),
    {
        self.entries.push(entry);
        proof {
            assert(self@ =~= old(self)@.push(self.entries@.last()@));
        }
    }

    /// The argument of the first context proposition whose predicate is
    /// `pred`, as [`ctx_value`] states.
    pub fn get_context(&self, context: &TSet<Prop, AcceptAll>, pred: &str) -> (r: Option<String>)
        ensures
            match r {
                Some(v) => ctx_value(context@, pred@) == Some(v@),
                None => ctx_value(context@, pred@) is None,
            },
    {
        let n = context.len();
        let mut i: usize = 0;
        while i < n
            invariant
                n == context@.len(),
                0 <= i <= n,
                forall|j: int| 0 <= j < i ==> (#[trigger] context@[j]).pred != pred@,
            decreases n - i,
        {
            let p = match context.get(i) {
                Some(p) => p,
                None => {
                    proof {
                        assert(false);
                    }
                    return None;
                },
            };
            if str_eq(p.pred.0.as_str(), pred) {
                proof {
                    lemma_ctx_value_is(context@, pred@, i as int);
                }
                match &p.ind {
                    Some(ind) => {
                        return Some(ind.text());
                    },
                    None => {
                        return None;
                    },
                }
            }
            i = i + 1;
        }
        proof {
            lemma_ctx_value_is(context@, pred@, n as int);
        }
        None
    }

    /// The first record matching the route and day, as [`find_entry`]
    /// states.
    pub fn lookup_entry(&self, depart_city: &str, dest_city: &str, day: &str) -> (r: Option<
        &DbEntry,
    >)
        ensures
            match r {
                Some(e) => find_entry(self@, depart_city@, dest_city@, day@) == Some(e@),
                None => find_entry(self@, depart_city@, dest_city@, day@) is None,
            },
    {
        let mut i: usize = 0;
        while i < self.entries.len()
            invariant
                self@.len() == self.entries@.len(),
                0 <= i <= self@.len(),
                forall|j: int|
                    0 <= j < i ==> !((#[trigger] self@[j]).from == depart_city@ && self@[j].to
                        == dest_city@ && self@[j].day == day@),
            decreases self@.len() - i,
        {
            let e = &self.entries[i];
            if str_eq(e.from.as_str(), depart_city) && str_eq(e.to.as_str(), dest_city) && str_eq(
                e.day.as_str(),
                day,
            ) {
                proof {
                    lemma_find_entry_is(self@, depart_city@, dest_city@, day@, i as int);
                }
                return Some(e);
            }
            i = i + 1;
        }
        proof {
            lemma_find_entry_is(self@, depart_city@, dest_city@, day@, self@.len() as int);
        }
        None
    }

    /// Consults the database about a question within a context of
    /// committed propositions, as [`spec_consult`] states.  The
    /// question itself does not influence the lookup: this database
    /// answers price questions only.  A missing context value or an
    /// unmatched record is a recoverable miss, never an abort.
    pub fn consult_db(&self, _question: &Question, context: &TSet<Prop, AcceptAll>) -> (r: Result<
        Prop,
        IsuError,
    >)
        ensures
            match r {
                Ok(p) => spec_consult(self@, context@) == Some(p@),
                Err(e) => spec_consult(self@, context@) is None && e == IsuError::NoMatchingRecord,
            },
    {
        let from = match self.get_context(context, "depart_city") {
            Some(v) => v,
            None => {
                return Err(IsuError::NoMatchingRecord);
            },
        };
        let to = match self.get_context(context, "dest_city") {
            Some(v) => v,
            None => {
                return Err(IsuError::NoMatchingRecord);
            },
        };
        let day = match self.get_context(context, "depart_day") {
            Some(v) => v,
            None => {
                return Err(IsuError::NoMatchingRecord);
            },
        };
        let entry = match self.lookup_entry(from.as_str(), to.as_str(), day.as_str()) {
            Some(e) => e,
            None => {
                return Err(IsuError::NoMatchingRecord);
            },
        };
        let price_str = entry.price.clone();
        let pred = Pred0(Atomic::from_parts(String::from_str("price")));
        let ind = Ind(Atomic::from_parts(price_str));
        let result = Prop { pred, ind: Some(ind), yes: true };
        proof {
            assert(result@ == spec_consult(self@, context@)->Some_0);
        }
        Ok(result)
    }
}

} // verus!
