use std::rc::Rc;
use taskforest::filter::{parse_filter_expression, Completion, Condition, Context, Filter, FilterCondition, Tag, Text};
use taskforest::parse::{parse_condition, Expected, ParseError, ParseErrorKind};
use taskforest::task::Task;

fn create_test_task() -> Task {
    Task::new("Complete the urgent report #work @office")
}

fn create_completed_task() -> Task {
    Task { completed: Some(1_700_000_000_000), ..Task::new("Buy groceries #errand @shopping") }
}

#[test]
fn test_tag_condition() {
    let task = create_test_task();
    let condition = Tag::new("work");
    assert!(condition.evaluate(&task));
    let wrong_tag_condition = Tag::new("personal");
    assert!(!wrong_tag_condition.evaluate(&task));
}

#[test]
fn test_context_condition() {
    let task = create_test_task();
    let condition = Context::new("office");
    assert!(condition.evaluate(&task));
    let wrong_context_condition = Context::new("home");
    assert!(!wrong_context_condition.evaluate(&task));
}

#[test]
fn test_completion_condition() {
    let task = create_test_task();
    let completed_task = create_completed_task();
    let condition_completed = Completion::new(true);
    assert!(!condition_completed.evaluate(&task));
    assert!(condition_completed.evaluate(&completed_task));
    let condition_incomplete = Completion::new(false);
    assert!(condition_incomplete.evaluate(&task));
    assert!(!condition_incomplete.evaluate(&completed_task));
}

#[test]
fn test_text_condition() {
    let task = create_test_task();
    let condition = Text::new("urgent");
    assert!(condition.evaluate(&task));
    let wrong_text_condition = Text::new("birthday");
    assert!(!wrong_text_condition.evaluate(&task));
}

#[test]
fn text_condition_is_case_sensitive() {
    let task = create_test_task();
    assert!(!Text::new("Urgent").evaluate(&task));
    assert!(Text::new("Complete the").evaluate(&task));
}

#[test]
fn test_not_condition() {
    let task = create_test_task();
    let tag_condition = Tag::new("work");
    let not_condition = Condition::Not(Rc::new(Condition::Tag(tag_condition)));
    assert!(!not_condition.evaluate(&task));
}

#[test]
fn test_and_condition() {
    let task = create_test_task();
    let and_condition = Condition::And(
        Rc::new(Condition::Tag(Tag::new("work"))),
        Rc::new(Condition::Context(Context::new("office"))),
    );
    assert!(and_condition.evaluate(&task));
    let wrong_and_condition = Condition::And(
        Rc::new(Condition::Tag(Tag::new("personal"))),
        Rc::new(Condition::Context(Context::new("office"))),
    );
    assert!(!wrong_and_condition.evaluate(&task));
}

#[test]
fn test_or_condition() {
    let task = create_test_task();
    let or_condition = Condition::Or(
        Rc::new(Condition::Tag(Tag::new("work"))),
        Rc::new(Condition::Context(Context::new("home"))),
    );
    assert!(or_condition.evaluate(&task));
    let wrong_or_condition = Condition::Or(
        Rc::new(Condition::Tag(Tag::new("personal"))),
        Rc::new(Condition::Context(Context::new("home"))),
    );
    assert!(!wrong_or_condition.evaluate(&task));
}

#[test]
fn test_always_true_condition() {
    let task = create_test_task();
    assert!(Condition::AlwaysTrue.evaluate(&task));
}

#[test]
fn test_parse_simple_expression() {
    let task = create_test_task();
    let filter_condition = parse_filter_expression("not [x] and #work").unwrap();
    assert!(filter_condition.evaluate(&task));
    let filter_condition = parse_filter_expression("not [x] and #personal").unwrap();
    assert!(!filter_condition.evaluate(&task));
}

#[test]
fn test_parse_complex_expression() {
    let task = create_test_task();
    let completed_task = create_completed_task();
    let filter_condition = parse_filter_expression("#work or @home").unwrap();
    assert!(filter_condition.evaluate(&task));
    assert!(!filter_condition.evaluate(&completed_task));
    let filter_condition = parse_filter_expression("[x] or #work").unwrap();
    assert!(filter_condition.evaluate(&task));
    assert!(filter_condition.evaluate(&completed_task));
}

#[test]
fn test_parse_expression_with_parentheses() {
    let task = create_test_task();
    let filter_condition = parse_filter_expression("(not [x]) and (@office or #work)").unwrap();
    assert!(filter_condition.evaluate(&task));
}

#[test]
fn test_parse_invalid_expression() {
    assert!(parse_filter_expression("not #").is_err());
    assert!(parse_filter_expression("[x] and").is_err());
}

#[test]
fn test_parse_empty_expression() {
    let task = create_test_task();
    let completed_task = create_completed_task();
    let filter_condition = parse_filter_expression("").unwrap();
    assert!(filter_condition.evaluate(&task));
    assert!(filter_condition.evaluate(&completed_task));
}

#[test]
fn test_parse_expression_with_and_or() {
    let task = create_test_task();
    let completed_task = create_completed_task();
    let filter_condition = parse_filter_expression("(not [x] and #work) or (@home and \"report\")").unwrap();
    assert!(filter_condition.evaluate(&task));
    assert!(!filter_condition.evaluate(&completed_task));
}

#[test]
fn test_parse_expression_with_nested_and_or() {
    let task = create_test_task();
    let completed_task = create_completed_task();
    let filter_condition =
        parse_filter_expression("(not [x] and #work) or (([x] or @shopping) and \"groceries\")").unwrap();
    assert!(filter_condition.evaluate(&task));
    assert!(filter_condition.evaluate(&completed_task));
}

#[test]
fn test_parse_expression_with_complex_nesting() {
    let task = create_test_task();
    let completed_task = create_completed_task();
    let filter_condition =
        parse_filter_expression("(not [x] and (#work or \"urgent\")) or ([x] and @shopping)").unwrap();
    assert!(filter_condition.evaluate(&task));
    assert!(filter_condition.evaluate(&completed_task));
}

#[test]
fn test_parse_expression_with_not_and_and() {
    let task = create_test_task();
    let completed_task = create_completed_task();
    let filter_condition = parse_filter_expression("not (#personal or @home) and not [x]").unwrap();
    assert!(filter_condition.evaluate(&task));
    assert!(!filter_condition.evaluate(&completed_task));
}

#[test]
fn test_parse_expression_with_deep_nesting() {
    let task = create_test_task();
    let completed_task = create_completed_task();
    let expression = "(not [x] and (#work or \"urgent\")) and (not #personal) or ([x] and (@shopping or \"groceries\"))";
    let filter_condition = parse_filter_expression(expression).unwrap();
    assert!(filter_condition.evaluate(&task));
    assert!(filter_condition.evaluate(&completed_task));
}

#[test]
fn test_filter_condition_creation() {
    let expression = "#work and @office";
    let filter_condition = FilterCondition::new(expression).unwrap();
    assert_eq!(filter_condition.expression, expression);
    assert!(matches!(filter_condition.condition, Condition::And(_, _)));
}

#[test]
fn test_filter_creation() {
    let filter_condition = FilterCondition::new("#work").unwrap();
    let filter = Filter::new("Work Filter", filter_condition.share());
    assert_eq!(filter.name, "Work Filter");
    assert_eq!(filter.filter_condition, filter_condition);
}

#[test]
fn test_parse_filter_expression_invalid() {
    assert!(parse_filter_expression("invalid_expression").is_err());
}

#[test]
fn and_binds_tighter_than_or_and_both_group_left() {
    let c = parse_filter_expression("#a or #b and #c").unwrap();
    let expected = Condition::Or(
        Rc::new(Condition::Tag(Tag::new("a"))),
        Rc::new(Condition::And(Rc::new(Condition::Tag(Tag::new("b"))), Rc::new(Condition::Tag(Tag::new("c"))))),
    );
    assert_eq!(c, expected);
    let c = parse_filter_expression("#a and #b and #c").unwrap();
    let expected = Condition::And(
        Rc::new(Condition::And(Rc::new(Condition::Tag(Tag::new("a"))), Rc::new(Condition::Tag(Tag::new("b"))))),
        Rc::new(Condition::Tag(Tag::new("c"))),
    );
    assert_eq!(c, expected);
}

#[test]
fn not_binds_to_one_factor() {
    let c = parse_filter_expression("not #a or #b").unwrap();
    let expected = Condition::Or(
        Rc::new(Condition::Not(Rc::new(Condition::Tag(Tag::new("a"))))),
        Rc::new(Condition::Tag(Tag::new("b"))),
    );
    assert_eq!(c, expected);
}

#[test]
fn keywords_ignore_case_and_names_allow_dots() {
    let c = parse_filter_expression("NOT [ ] AnD @home.office Or \"x y\"").unwrap();
    let expected = Condition::Or(
        Rc::new(Condition::And(
            Rc::new(Condition::Not(Rc::new(Condition::Completion(Completion::new(false))))),
            Rc::new(Condition::Context(Context::new("home.office"))),
        )),
        Rc::new(Condition::Text(Text::new("x y"))),
    );
    assert_eq!(c, expected);
}

#[test]
fn blank_text_is_always_true() {
    assert_eq!(parse_filter_expression("   ").unwrap(), Condition::AlwaysTrue);
}

#[test]
fn parse_errors_tell_incomplete_from_unexpected() {
    assert_eq!(
        parse_condition("[x] and"),
        Err(ParseError { kind: ParseErrorKind::UnexpectedEnd, expected: Expected::Operand, position: 7 })
    );
    assert_eq!(
        parse_condition("#a )"),
        Err(ParseError { kind: ParseErrorKind::UnexpectedToken, expected: Expected::OperatorOrEnd, position: 2 })
    );
    assert_eq!(
        parse_condition("not #"),
        Err(ParseError { kind: ParseErrorKind::UnexpectedEnd, expected: Expected::Operand, position: 5 })
    );
    assert_eq!(
        parse_condition("invalid_expression"),
        Err(ParseError { kind: ParseErrorKind::UnexpectedToken, expected: Expected::Operand, position: 0 })
    );
    assert_eq!(
        parse_condition("#a and )"),
        Err(ParseError { kind: ParseErrorKind::UnexpectedToken, expected: Expected::Operand, position: 7 })
    );
    assert_eq!(
        parse_filter_expression("[x] and").unwrap_err(),
        "Parsing error: input ended at position 7: expected an operand"
    );
    assert_eq!(
        parse_filter_expression("#a )").unwrap_err(),
        "Parsing error: unexpected character at position 2: expected `and`, `or` or the end of the filter"
    );
}

#[test]
fn parsing_twice_gives_equal_trees() {
    let text = "(#work and @home) or (#urgent and not @gym)";
    assert_eq!(parse_filter_expression(text).unwrap(), parse_filter_expression(text).unwrap());
}

#[test]
fn empty_filter_holds_for_every_task() {
    let c = parse_filter_expression("").unwrap();
    for t in [create_test_task(), create_completed_task(), Task::new("")] {
        assert!(c.evaluate(&t));
    }
}

#[test]
fn tag_names_take_unicode_letters_and_stop_at_other_signs() {
    let c = parse_filter_expression("#café").unwrap();
    assert_eq!(c, Condition::Tag(Tag::new("café")));
    assert_eq!(
        parse_condition("#a!b"),
        Err(ParseError { kind: ParseErrorKind::UnexpectedToken, expected: Expected::OperatorOrEnd, position: 2 })
    );
}

#[test]
fn parentheses_open_with_left_and_close_with_right() {
    assert!(parse_filter_expression(")\"x\"(").is_err());
    assert!(parse_filter_expression(")#a(").is_err());
    assert!(parse_filter_expression("(#a(").is_err());
    assert_eq!(parse_filter_expression("((#a))").unwrap(), Condition::Tag(Tag::new("a")));
    assert_eq!(
        parse_condition("(#a"),
        Err(ParseError { kind: ParseErrorKind::UnexpectedEnd, expected: Expected::Operand, position: 3 })
    );
}

#[test]
fn text_needs_its_closing_quote() {
    assert_eq!(
        parse_condition("\"abc"),
        Err(ParseError { kind: ParseErrorKind::UnexpectedEnd, expected: Expected::Operand, position: 4 })
    );
    assert_eq!(
        parse_condition("\"\""),
        Err(ParseError { kind: ParseErrorKind::UnexpectedToken, expected: Expected::Operand, position: 1 })
    );
    assert_eq!(parse_filter_expression("\"a b\"").unwrap(), Condition::Text(Text::new("a b")));
}
