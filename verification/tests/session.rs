//! End-to-end sessions driven through the controller.

use isu::controller::IBISController;
use isu::errors::IsuError;
use isu::database::{DbEntry, TravelDB};
use isu::domain::Domain;
use isu::grammar::SimpleGenGrammar;
use isu::plan::{ConsultDB, Findout, If, PlanStep};
use isu::question::Question;

fn travel_domain() -> Domain {
    let preds0 = vec!["return".to_string(), "need-visa".to_string()];
    let preds1 = vec![
        ("price".to_string(), "int".to_string()),
        ("how".to_string(), "means".to_string()),
        ("dest_city".to_string(), "city".to_string()),
        ("depart_city".to_string(), "city".to_string()),
        ("depart_day".to_string(), "day".to_string()),
        ("class".to_string(), "flight_class".to_string()),
        ("return_day".to_string(), "day".to_string()),
    ];
    let sorts = vec![
        ("means".to_string(), vec!["plane".to_string(), "train".to_string()]),
        (
            "city".to_string(),
            vec!["paris".to_string(), "london".to_string(), "berlin".to_string()],
        ),
        ("day".to_string(), vec!["today".to_string(), "tomorrow".to_string()]),
        ("flight_class".to_string(), vec!["first".to_string(), "second".to_string()]),
    ];
    Domain::new(preds0, preds1, sorts)
}

fn q(s: &str) -> Question {
    Question::new(s).unwrap()
}

fn travel_plan() -> Vec<PlanStep> {
    vec![
        PlanStep::Findout(Findout::new(q("?x.how(x)"))),
        PlanStep::Findout(Findout::new(q("?x.dest_city(x)"))),
        PlanStep::Findout(Findout::new(q("?x.depart_city(x)"))),
        PlanStep::Findout(Findout::new(q("?x.depart_day(x)"))),
        PlanStep::Findout(Findout::new(q("?x.class(x)"))),
        PlanStep::Findout(Findout::new(q("?return()"))),
        PlanStep::If(If::new(
            q("?return()"),
            vec![PlanStep::Findout(Findout::new(q("?x.return_day(x)")))],
            vec![],
        )),
        PlanStep::ConsultDB(ConsultDB::new(q("?x.price(x)"))),
    ]
}

fn travel_grammar() -> SimpleGenGrammar {
    let mut grammar = SimpleGenGrammar::new();
    grammar.add_form("Ask('?x.how(x)')", "How do you want to travel?");
    grammar.add_form("Ask('?x.dest_city(x)')", "Where do you want to go?");
    grammar.add_form("Ask('?x.depart_city(x)')", "From where are you leaving?");
    grammar.add_form("Ask('?x.depart_day(x)')", "When do you want to leave?");
    grammar.add_form("Ask('?x.return_day(x)')", "When do you want to return?");
    grammar.add_form("Ask('?x.class(x)')", "First or second class?");
    grammar.add_form("Ask('?return()')", "Do you want a return ticket?");
    grammar
}

fn travel_database() -> TravelDB {
    let mut database = TravelDB::new();
    database.add_entry(DbEntry {
        price: "232".to_string(),
        from: "berlin".to_string(),
        to: "paris".to_string(),
        day: "today".to_string(),
    });
    database.add_entry(DbEntry {
        price: "345".to_string(),
        from: "paris".to_string(),
        to: "london".to_string(),
        day: "today".to_string(),
    });
    database
}

fn bel_texts(c: &IBISController) -> Vec<String> {
    let mut out = Vec::new();
    let mut i = 0;
    while let Some(p) = c.is.bel.get(i) {
        out.push(p.text());
        i += 1;
    }
    out
}

fn com_texts(c: &IBISController) -> Vec<String> {
    let mut out = Vec::new();
    let mut i = 0;
    while let Some(p) = c.is.com.get(i) {
        out.push(p.text());
        i += 1;
    }
    out
}

#[test]
fn test_ibis_controller_creation() {
    let domain = travel_domain();
    let database = TravelDB::new();
    let grammar = SimpleGenGrammar::new();

    let controller = IBISController::new(domain, database, grammar);

    assert!(controller.mivs.program_state.is_none());
}

/// One full travel enquiry: the scripted answers drive the price plan
/// to completion, the questions come in the plan's declared order, the
/// return-day question is skipped after the "no", and the looked-up
/// price lands in the beliefs.
#[test]
fn test_travel_enquiry_runs_to_completion() {
    let mut domain = travel_domain();
    domain.add_plan(q("?x.price(x)"), travel_plan()).unwrap();

    let mut c = IBISController::new(domain, travel_database(), travel_grammar());
    c.reset();
    assert!(c.raise_question(&q("?x.price(x)")));
    c.greet();

    let script = ["train", "paris", "berlin", "today", "first", "no"];
    let mut outputs: Vec<String> = Vec::new();
    let mut idx = 0;
    while c.is_running() {
        c.select();
        if c.has_next_moves() {
            c.generate();
            outputs.push(c.output_text());
            c.update();
        }
        if idx < script.len() {
            assert!(c.feed_input(Some(script[idx])).is_ok());
            idx += 1;
        } else {
            assert!(c.feed_input(None).is_err());
        }
        assert!(c.interpret().is_ok());
        c.update();
    }

    assert_eq!(
        outputs,
        vec![
            "Hello. How do you want to travel?".to_string(),
            "Where do you want to go?".to_string(),
            "From where are you leaving?".to_string(),
            "When do you want to leave?".to_string(),
            "First or second class?".to_string(),
            "Do you want a return ticket?".to_string(),
        ],
    );
    // the return-day question was skipped
    for o in &outputs {
        assert!(!o.contains("When do you want to return?"));
    }

    let com = com_texts(&c);
    assert!(com.contains(&"how(train)".to_string()));
    assert!(com.contains(&"dest_city(paris)".to_string()));
    assert!(com.contains(&"depart_city(berlin)".to_string()));
    assert!(com.contains(&"depart_day(today)".to_string()));
    assert!(com.contains(&"class(first)".to_string()));
    assert!(com.contains(&"-return()".to_string()));

    let bel = bel_texts(&c);
    assert!(bel.contains(&"price(232)".to_string()));

    assert!(!c.is_running());
}

/// Answering "yes" to the return question takes the other branch of the
/// conditional: the return-day question is asked.
#[test]
fn test_travel_enquiry_with_return_asks_return_day() {
    let mut domain = travel_domain();
    domain.add_plan(q("?x.price(x)"), travel_plan()).unwrap();

    let mut c = IBISController::new(domain, travel_database(), travel_grammar());
    c.reset();
    assert!(c.raise_question(&q("?x.price(x)")));
    c.greet();

    let script = ["train", "paris", "berlin", "today", "first", "yes", "tomorrow"];
    let mut outputs: Vec<String> = Vec::new();
    let mut idx = 0;
    while c.is_running() {
        c.select();
        if c.has_next_moves() {
            c.generate();
            outputs.push(c.output_text());
            c.update();
        }
        if idx < script.len() {
            assert!(c.feed_input(Some(script[idx])).is_ok());
            idx += 1;
        } else {
            assert!(c.feed_input(None).is_err());
        }
        assert!(c.interpret().is_ok());
        c.update();
    }

    assert!(outputs.contains(&"When do you want to return?".to_string()));
    let com = com_texts(&c);
    assert!(com.contains(&"return()".to_string()));
    assert!(com.contains(&"return_day(tomorrow)".to_string()));
    let bel = bel_texts(&c);
    assert!(bel.contains(&"price(232)".to_string()));
}

/// A quit command ends the session at once; an utterance that cannot be
/// interpreted is reported and the session continues.
#[test]
fn test_quit_and_not_understood() {
    let domain = travel_domain();
    let mut c = IBISController::new(domain, TravelDB::new(), SimpleGenGrammar::new());
    c.reset();

    assert!(c.feed_input(Some("random gibberish")).is_ok());
    assert_eq!(c.interpret().err(), Some(IsuError::NotUnderstood));
    c.update();
    assert!(c.is_running());

    assert!(c.feed_input(Some("quit")).is_ok());
    assert!(c.interpret().is_ok());
    c.update();
    assert!(!c.is_running());
}

/// A user's own question loads its plan, exactly as raising it does.
#[test]
fn test_user_asked_question_loads_plan() {
    let mut domain = travel_domain();
    domain.add_plan(q("?x.price(x)"), travel_plan()).unwrap();
    let mut c = IBISController::new(domain, travel_database(), travel_grammar());
    c.reset();

    assert!(c.feed_input(Some("?x.price(x)")).is_ok());
    assert!(c.interpret().is_ok());
    c.update();

    // the plan is loaded: the next selection asks the first question
    c.select();
    assert!(c.has_next_moves());
    c.generate();
    assert_eq!(c.output_text(), "How do you want to travel?");
}
