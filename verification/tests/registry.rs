//! The domain registry: vocabulary, relevance, resolution, combination,
//! plan registration, and the database.

use isu::containers::TSet;
use isu::database::{DbEntry, TravelDB};
use isu::domain::Domain;
use isu::errors::IsuError;
use isu::plan::{ConsultDB, Findout, PlanStep, Respond};
use isu::prop::{Ans, Prop, ShortAns, YesNo};
use isu::question::Question;
use isu::semantics::{Ind, Pred0, Sort};

fn entry(from: &str, to: &str, day: &str, price: &str) -> DbEntry {
    DbEntry {
        from: from.to_string(),
        to: to.to_string(),
        day: day.to_string(),
        price: price.to_string(),
    }
}

#[test]
fn test_travel_db() {
    let mut db = TravelDB::new();

    db.add_entry(entry("paris", "london", "monday", "200"));
    db.add_entry(entry("london", "paris", "tuesday", "180"));

    let result = db.lookup_entry("paris", "london", "monday");
    assert!(result.is_some());
    assert_eq!(result.unwrap().price, "200".to_string());

    let no_result = db.lookup_entry("invalid", "route", "never");
    assert!(no_result.is_none());

    let mut context = TSet::new();
    let prop1 = Prop {
        pred: Pred0::new("depart_city").unwrap(),
        ind: Some(Ind::new("paris").unwrap()),
        yes: true,
    };
    context.add(prop1).unwrap();

    let context_value = db.get_context(&context, "depart_city");
    assert_eq!(context_value, Some("paris".to_string()));

    let no_context = db.get_context(&context, "nonexistent");
    assert_eq!(no_context, None);
}

#[test]
fn test_consult_db_miss_is_recoverable() {
    let db = TravelDB::new();
    let context = TSet::new();
    let q = Question::new("?x.price(x)").unwrap();
    assert_eq!(db.consult_db(&q, &context).err(), Some(IsuError::NoMatchingRecord));
}

fn small_domain() -> Domain {
    let preds0 = vec!["expensive".to_string(), "available".to_string()];
    let preds1 = vec![
        ("city".to_string(), "location".to_string()),
        ("transport".to_string(), "vehicle".to_string()),
    ];
    let sorts = vec![
        ("location".to_string(), vec!["paris".to_string(), "london".to_string()]),
        ("vehicle".to_string(), vec!["plane".to_string(), "train".to_string()]),
    ];
    Domain::new(preds0, preds1, sorts)
}

#[test]
fn test_domain_creation_and_operations() {
    let mut domain = small_domain();

    assert_eq!(domain.ind_sort("paris"), Some(&"location".to_string()));
    assert_eq!(domain.ind_sort("plane"), Some(&"vehicle".to_string()));

    let question = Question::new("?expensive").unwrap();
    let plan = vec![
        PlanStep::ConsultDB(ConsultDB::new(Question::new("?expensive").unwrap())),
        PlanStep::Respond(Respond::new(Question::new("?expensive").unwrap())),
    ];
    domain.add_plan(question.clone(), plan).unwrap();

    let retrieved_plan = domain.get_plan(&question);
    assert!(retrieved_plan.is_some());
    assert_eq!(retrieved_plan.unwrap().len(), 2);

    let ans_yes = Ans::new("yes").unwrap();
    let ynq = Question::new("?expensive").unwrap();
    assert!(domain.relevant(&ans_yes, &ynq));

    let ans_paris = Ans::new("paris").unwrap();
    let whq = Question::new("?x.city(x)").unwrap();
    assert!(domain.relevant(&ans_paris, &whq));

    let ans_yes = Ans::new("yes").unwrap();
    let ynq = Question::new("?expensive").unwrap();
    assert!(domain.resolves(&ans_yes, &ynq));

    let ans_no = Ans::new("no").unwrap();
    assert!(domain.resolves(&ans_no, &ynq));

    let prop = domain.combine(&whq, &ans_paris);
    assert_eq!(prop.pred.text(), "city");
    assert_eq!(prop.ind.as_ref().unwrap().text(), "paris");
}

fn travel_domain() -> Domain {
    let preds0 = vec!["return".to_string(), "need-visa".to_string()];
    let preds1 = vec![
        ("price".to_string(), "int".to_string()),
        ("how".to_string(), "means".to_string()),
        ("dest_city".to_string(), "city".to_string()),
        ("depart_city".to_string(), "city".to_string()),
        ("depart_day".to_string(), "day".to_string()),
        ("class".to_string(), "flight_class".to_string()),
        ("return_day".to_string(), "day".to_string()),
    ];
    let sorts = vec![
        ("means".to_string(), vec!["plane".to_string(), "train".to_string()]),
        (
            "city".to_string(),
            vec!["paris".to_string(), "london".to_string(), "berlin".to_string()],
        ),
        ("day".to_string(), vec!["today".to_string(), "tomorrow".to_string()]),
        ("flight_class".to_string(), vec!["first".to_string(), "second".to_string()]),
    ];
    Domain::new(preds0, preds1, sorts)
}

#[test]
fn test_relevance_truth_table_for_dest_city() {
    let domain = travel_domain();
    let whq = Question::new("?x.dest_city(x)").unwrap();

    // a proposition with a different predicate is not relevant
    let other = Ans::Prop(Prop::new("city(paris)").unwrap());
    assert!(!domain.relevant(&other, &whq));
    assert!(!domain.resolves(&other, &whq));

    // a proposition with the same predicate is relevant and resolving
    let fitting = Ans::Prop(Prop::new("dest_city(paris)").unwrap());
    assert!(domain.relevant(&fitting, &whq));
    assert!(domain.resolves(&fitting, &whq));
}

#[test]
fn test_resolving_answers_are_relevant() {
    let domain = travel_domain();
    let questions = vec![
        Question::new("?x.dest_city(x)").unwrap(),
        Question::new("?x.how(x)").unwrap(),
        Question::new("?return()").unwrap(),
        Question::new("?dest_city(paris)").unwrap(),
    ];
    let answers = vec![
        Ans::YesNo(YesNo::new("yes").unwrap()),
        Ans::YesNo(YesNo::new("no").unwrap()),
        Ans::ShortAns(ShortAns::new("paris").unwrap()),
        Ans::ShortAns(ShortAns::new("-paris").unwrap()),
        Ans::ShortAns(ShortAns::new("train").unwrap()),
        Ans::Prop(Prop::new("dest_city(paris)").unwrap()),
        Ans::Prop(Prop::new("-dest_city(paris)").unwrap()),
        Ans::Prop(Prop::new("return()").unwrap()),
    ];
    for q in &questions {
        for a in &answers {
            if domain.resolves(a, q) {
                assert!(domain.relevant(a, q));
            }
        }
    }
}

#[test]
fn test_negative_short_answer_is_relevant_but_not_resolving() {
    let domain = travel_domain();
    let whq = Question::new("?x.dest_city(x)").unwrap();
    let neg = Ans::ShortAns(ShortAns::new("-paris").unwrap());
    assert!(domain.relevant(&neg, &whq));
    assert!(!domain.resolves(&neg, &whq));
}

#[test]
fn test_combination_of_answers() {
    let domain = travel_domain();

    let whq = Question::new("?x.dest_city(x)").unwrap();
    let short = Ans::ShortAns(ShortAns::new("paris").unwrap());
    let combined = domain.combine(&whq, &short);
    assert_eq!(combined.text(), "dest_city(paris)");
    assert!(combined.yes);

    let ynq = Question::new("?return()").unwrap();
    let no = Ans::YesNo(YesNo::new("no").unwrap());
    let combined = domain.combine(&ynq, &no);
    assert_eq!(combined.text(), "-return()");
    assert!(!combined.yes);

    let yes = Ans::YesNo(YesNo::new("yes").unwrap());
    let combined = domain.combine(&ynq, &yes);
    assert_eq!(combined.text(), "return()");

    // a proposition answer stands as it is
    let prop = Ans::Prop(Prop::new("-dest_city(london)").unwrap());
    let combined = domain.combine(&whq, &prop);
    assert_eq!(combined.text(), "-dest_city(london)");
}

#[test]
fn test_typecheck_error_kinds() {
    let domain = travel_domain();

    let unknown_pred = Prop::new("altitude(paris)").unwrap();
    assert_eq!(unknown_pred.typecheck(&domain).err(), Some(IsuError::UnknownPredicate));

    // a proposition's predicate is a zero-place predicate: one that is
    // registered only as one-place does not qualify
    let one_place_only = Prop::new("dest_city(paris)").unwrap();
    assert_eq!(one_place_only.typecheck(&domain).err(), Some(IsuError::UnknownPredicate));

    let bare = Prop::new("return()").unwrap();
    assert!(bare.typecheck(&domain).is_ok());

    // a domain whose predicates are registered as zero-place, one of
    // them also as one-place with a declared sort
    let dual = Domain::new(
        vec!["flag".to_string(), "level".to_string()],
        vec![("level".to_string(), "day".to_string())],
        vec![
            ("day".to_string(), vec!["today".to_string()]),
            ("city".to_string(), vec!["paris".to_string()]),
        ],
    );

    let unknown_ind = Prop::new("flag(atlantis)").unwrap();
    assert_eq!(unknown_ind.typecheck(&dual).err(), Some(IsuError::UnknownIndividual));

    // the sort clause applies only when the predicate is also
    // registered as one-place
    let mismatch = Prop::new("level(paris)").unwrap();
    assert_eq!(mismatch.typecheck(&dual).err(), Some(IsuError::SortMismatch));

    let matching = Prop::new("level(today)").unwrap();
    assert!(matching.typecheck(&dual).is_ok());

    // without a one-place registration, any registered individual passes
    let unconstrained = Prop::new("flag(paris)").unwrap();
    assert!(unconstrained.typecheck(&dual).is_ok());

    let unknown_sort = Sort::new("color").unwrap();
    assert_eq!(unknown_sort.typecheck(&domain).err(), Some(IsuError::UnknownSort));
    let known_sort = Sort::new("city").unwrap();
    assert!(known_sort.typecheck(&domain).is_ok());
}

#[test]
fn test_add_plan_rejects_unknown_predicate_and_leaves_table_unchanged() {
    let mut domain = travel_domain();
    let trigger = Question::new("?x.price(x)").unwrap();
    let plan = vec![
        PlanStep::Findout(Findout::new(Question::new("?x.how(x)").unwrap())),
        PlanStep::Findout(Findout::new(Question::new("?x.altitude(x)").unwrap())),
    ];
    let result = domain.add_plan(trigger.clone(), plan);
    assert_eq!(result.err(), Some(IsuError::PlanRegistrationFailed));
    assert!(domain.get_plan(&trigger).is_none());

    // a failing registration does not disturb an earlier binding either
    let good = vec![PlanStep::Findout(Findout::new(Question::new("?x.how(x)").unwrap()))];
    domain.add_plan(trigger.clone(), good).unwrap();
    let bad = vec![PlanStep::Findout(Findout::new(Question::new("?x.altitude(x)").unwrap()))];
    assert!(domain.add_plan(trigger.clone(), bad).is_err());
    assert_eq!(domain.get_plan(&trigger).unwrap().len(), 1);
}
