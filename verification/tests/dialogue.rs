//! Moves, plan constructors, the grammar, and the session enumerations.

use isu::containers::TSet;
use isu::grammar::SimpleGenGrammar;
use isu::moves::{ICM, Move};
use isu::plan::{ConsultDB, Findout, If, PlanStep, Raise, Respond};
use isu::prop::Ans;
use isu::question::Question;
use isu::state::{DemoInputHandler, InputHandler, ProgramState, Speaker};

#[test]
fn test_dialogue_moves() {
    let greet = Move::Greet;
    assert_eq!(greet.text(), "Greet()");

    let quit = Move::Quit;
    assert_eq!(quit.text(), "Quit()");

    let question = Question::new("?expensive").unwrap();
    let ask = Move::Ask(question);
    assert!(ask.text().contains("Ask"));
    assert!(ask.text().contains("expensive"));

    let answer_content = Ans::new("yes").unwrap();
    let answer = Move::Answer(answer_content);
    assert!(answer.text().contains("Answer"));
    assert!(answer.text().contains("yes"));
}

#[test]
fn test_icm_creation() {
    let icm = ICM::new("per", "pos", Some("understood".to_string()));
    assert_eq!(icm.text(), "icm:per*pos:'understood'");

    let icm_no_content = ICM::new("sem", "neg", None);
    assert_eq!(icm_no_content.text(), "icm:sem*neg");
}

#[test]
fn test_plan_constructors() {
    let question = Question::new("?expensive").unwrap();

    let respond = Respond::new(question.clone());
    assert!(respond.text().contains("Respond"));
    assert!(respond.text().contains("expensive"));

    let consult = ConsultDB::new(question.clone());
    assert!(consult.text().contains("ConsultDB"));
    assert!(consult.text().contains("expensive"));

    let findout = Findout::new(question.clone());
    assert!(findout.text().contains("Findout"));
    assert!(findout.text().contains("expensive"));

    let raise = Raise::new(question.clone());
    assert!(raise.text().contains("Raise"));
    assert!(raise.text().contains("expensive"));

    let if_plan = If::new(
        question,
        vec![PlanStep::ConsultDB(ConsultDB::new(Question::new("?expensive").unwrap()))],
        vec![],
    );
    assert!(if_plan.text().contains("If"));
}

#[test]
fn test_plan_step_text_recurses_into_branches() {
    let cond = Question::new("?return()").unwrap();
    let inner = PlanStep::Findout(Findout::new(Question::new("?x.return_day(x)").unwrap()));
    let step = PlanStep::If(If::new(cond, vec![inner], vec![]));
    assert_eq!(
        step.text(),
        "If('?return()', [Findout('?x.return_day(x)')], [])"
    );
}

#[test]
fn test_simple_gen_grammar() {
    let mut grammar = SimpleGenGrammar::new();

    grammar.add_form("Ask('?price')", "What is the price?");
    grammar.add_form("Answer(paris)", "The answer is Paris.");

    let mut moves = TSet::new();
    moves.add(Move::Greet).unwrap();
    let output = grammar.generate(&moves);
    assert_eq!(output, "Hello.");

    let interpreted = grammar.interpret("quit");
    assert!(interpreted.is_some());
    let moves = interpreted.unwrap();
    assert!(set_texts(&moves).iter().any(|m| m.contains("Quit")));

    let interpreted = grammar.interpret("?expensive");
    assert!(interpreted.is_some());
    let moves = interpreted.unwrap();
    assert!(set_texts(&moves).iter().any(|m| m.contains("Ask") && m.contains("expensive")));

    let interpreted = grammar.interpret("yes");
    assert!(interpreted.is_some());
    let moves = interpreted.unwrap();
    assert!(set_texts(&moves).iter().any(|m| m.contains("Answer") && m.contains("yes")));

    let interpreted = grammar.interpret("random gibberish");
    assert!(interpreted.is_none());
}

fn set_texts(moves: &TSet<Move, isu::containers::AcceptAll>) -> Vec<String> {
    let mut out = Vec::new();
    let mut i = 0;
    while let Some(m) = moves.get(i) {
        out.push(m.text());
        i += 1;
    }
    out
}

#[test]
fn test_grammar_lookup_beats_literal_fallback() {
    let mut grammar = SimpleGenGrammar::new();
    grammar.add_form("Ask('?x.how(x)')", "How do you want to travel?");
    assert_eq!(grammar.generate_move("Ask('?x.how(x)')"), "How do you want to travel?");
    // an unmapped form falls back to itself
    assert_eq!(grammar.generate_move("Ask('?x.other(x)')"), "Ask('?x.other(x)')");
    // re-adding a form replaces the earlier phrase
    grammar.add_form("Ask('?x.how(x)')", "By what means?");
    assert_eq!(grammar.generate_move("Ask('?x.how(x)')"), "By what means?");
}

#[test]
fn test_speaker_enum() {
    let usr = Speaker::new("USR").unwrap();
    assert_eq!(usr.text(), "USR");

    let sys = Speaker::new("SYS").unwrap();
    assert_eq!(sys.text(), "SYS");

    assert!(Speaker::new("INVALID").is_none());
}

#[test]
fn test_program_state_enum() {
    let run = ProgramState::new("RUN").unwrap();
    assert_eq!(run.text(), "RUN");

    let quit = ProgramState::new("QUIT").unwrap();
    assert_eq!(quit.text(), "QUIT");

    assert!(ProgramState::new("INVALID").is_none());
}

#[test]
fn test_demo_input_handler() {
    let inputs = vec!["hello".to_string(), "?expensive".to_string(), "quit".to_string()];
    let mut handler = DemoInputHandler::new(inputs);

    assert!(handler.has_input());
    assert_eq!(handler.read_line(), Some("hello".to_string()));

    assert!(handler.has_input());
    assert_eq!(handler.read_line(), Some("?expensive".to_string()));

    assert!(handler.has_input());
    assert_eq!(handler.read_line(), Some("quit".to_string()));

    assert!(!handler.has_input());
    assert_eq!(handler.read_line(), None);
}
