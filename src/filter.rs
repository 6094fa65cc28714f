//! Filter conditions: their syntax tree, how they judge a task, and the parser
//! from filter text.
//!
//! Grammar, lowest precedence first (keywords in any case):
//!
//! ```text
//! expression := term (ws "or" ws term)*
//! term       := factor (ws "and" ws factor)*
//! factor     := "not" ws factor | operand
//! operand    := "(" expression ")" | "[x]" | "[ ]" | "#" ident | "@" ident
//!             | '"' text '"'
//! ```
//!
//! `ws` is a possibly empty run of spaces, tabs, carriage returns and line
//! feeds; an identifier is a non-empty run of letters, digits, `.`, `_` and
//! `-`; `text` is a non-empty run without `"`. The whole text must be one
//! expression. Text made only of whitespace is the condition that always
//! holds. Text conditions compare case-sensitively. A text that fails to parse
//! where it ends is reported as incomplete; otherwise the first unexpected
//! character is reported.
use crate::clock::fresh_id;
use crate::parse::{error_spec, message_spec, parse_condition, parse_spec};
use crate::task::Task;
use crate::text::{contains_text, has_string, has_text, occurs_in};
use std::rc::Rc;
use vstd::prelude::*;

verus! {

/// The model of a condition.
pub enum Cond {
    Tag(Seq<char>),
    Context(Seq<char>),
    Completion(bool),
    Text(Seq<char>),
    Not(Box<Cond>),
    And(Box<Cond>, Box<Cond>),
    Or(Box<Cond>, Box<Cond>),
    AlwaysTrue,
}

/// Whether condition `c` holds of task `t`.
pub open spec fn holds(c: Cond, t: Task) -> bool
    decreases c,
{
    match c {
        Cond::Tag(name) => has_string(t.tags@, name),
        Cond::Context(name) => has_string(t.contexts@, name),
        Cond::Completion(done) => (t.completed is Some) == done,
        Cond::Text(w) => occurs_in(w, t.description@),
        Cond::Not(a) => !holds(*a, t),
        Cond::And(a, b) => holds(*a, t) && holds(*b, t),
        Cond::Or(a, b) => holds(*a, t) || holds(*b, t),
        Cond::AlwaysTrue => true,
    }
}

/// Holds of tasks that carry a tag.
#[derive(Debug, PartialEq)]
pub struct Tag {
    tag: Rc<String>,
}

impl View for Tag {
    type V = Seq<char>;

    closed spec fn view(&self) -> Seq<char> {
        self.tag@
    }
}

impl Tag {
    pub fn new(tag: &str) -> (r: Tag)
        ensures
            r@ == tag@,
    {
        Tag { tag: Rc::new(String::from_str(tag)) }
    }

    /// The same tag (the two share their name).
    pub fn share(&self) -> (r: Tag)
        ensures
            r == *self,
    {
        Tag { tag: self.tag.clone() }
    }

    /// Whether `task` has this tag.
    pub fn evaluate(&self, task: &Task) -> (r: bool)
        ensures
            r == has_string(task.tags@, self@),
    {
        has_text(&task.tags, &self.tag)
    }
}

/// Holds of tasks that carry a context.
#[derive(Debug, PartialEq)]
pub struct Context {
    context: Rc<String>,
}

impl View for Context {
    type V = Seq<char>;

    closed spec fn view(&self) -> Seq<char> {
        self.context@
    }
}

impl Context {
    pub fn new(context: &str) -> (r: Context)
        ensures
            r@ == context@,
    {
        Context { context: Rc::new(String::from_str(context)) }
    }

    /// The same context (the two share their name).
    pub fn share(&self) -> (r: Context)
        ensures
            r == *self,
    {
        Context { context: self.context.clone() }
    }

    /// Whether `task` has this context.
    pub fn evaluate(&self, task: &Task) -> (r: bool)
        ensures
            r == has_string(task.contexts@, self@),
    {
        has_text(&task.contexts, &self.context)
    }
}

/// Holds of completed tasks, or of open ones.
#[derive(Debug, PartialEq)]
pub struct Completion {
    completed: bool,
}

impl View for Completion {
    type V = bool;

    closed spec fn view(&self) -> bool {
        self.completed
    }
}

impl Completion {
    pub fn new(completed: bool) -> (r: Completion)
        ensures
            r@ == completed,
    {
        Completion { completed }
    }

    /// Whether the completion state of `task` is the one asked for.
    pub fn evaluate(&self, task: &Task) -> (r: bool)
        ensures
            r == ((task.completed is Some) == self@),
    {
        task.completed.is_some() == self.completed
    }
}

/// Holds of tasks whose description contains a text.
#[derive(Debug, PartialEq)]
pub struct Text {
    text: Rc<String>,
}

impl View for Text {
    type V = Seq<char>;

    closed spec fn view(&self) -> Seq<char> {
        self.text@
    }
}

impl Text {
    pub fn new(text: &str) -> (r: Text)
        ensures
            r@ == text@,
    {
        Text { text: Rc::new(String::from_str(text)) }
    }

    /// The same text condition (the two share their text).
    pub fn share(&self) -> (r: Text)
        ensures
            r == *self,
    {
        Text { text: self.text.clone() }
    }

    /// Whether the description of `task` contains the text (case-sensitive).
    pub fn evaluate(&self, task: &Task) -> (r: bool)
        ensures
            r == occurs_in(self@, task.description@),
    {
        contains_text(task.description.as_str(), self.text.as_str())
    }
}

/// A condition on tasks.
#[derive(Debug, PartialEq)]
pub enum Condition {
    Tag(Tag),
    Context(Context),
    Completion(Completion),
    Text(Text),
    Not(Rc<Condition>),
    And(Rc<Condition>, Rc<Condition>),
    Or(Rc<Condition>, Rc<Condition>),
    AlwaysTrue,
}

impl View for Condition {
    type V = Cond;

    open spec fn view(&self) -> Cond
        decreases self,
    {
        match self {
            Condition::Tag(t) => Cond::Tag(t@),
            Condition::Context(c) => Cond::Context(c@),
            Condition::Completion(c) => Cond::Completion(c@),
            Condition::Text(t) => Cond::Text(t@),
            Condition::Not(a) => Cond::Not(Box::new((**a).view())),
            Condition::And(a, b) => Cond::And(Box::new((**a).view()), Box::new((**b).view())),
            Condition::Or(a, b) => Cond::Or(Box::new((**a).view()), Box::new((**b).view())),
            Condition::AlwaysTrue => Cond::AlwaysTrue,
        }
    }
}

impl Condition {
    /// The same condition (the two share all their data).
    pub fn share(&self) -> (r: Condition)
        ensures
            r == *self,
    {
        match self {
            Condition::Tag(t) => Condition::Tag(t.share()),
            Condition::Context(c) => Condition::Context(c.share()),
            Condition::Completion(c) => Condition::Completion(Completion { completed: c.completed }),
            Condition::Text(t) => Condition::Text(t.share()),
            Condition::Not(a) => Condition::Not(a.clone()),
            Condition::And(a, b) => Condition::And(a.clone(), b.clone()),
            Condition::Or(a, b) => Condition::Or(a.clone(), b.clone()),
            Condition::AlwaysTrue => Condition::AlwaysTrue,
        }
    }

    /// Whether the condition holds of `task`.
    pub fn evaluate(&self, task: &Task) -> (r: bool)
        ensures
            r == holds(self@, *task),
        decreases self,
    {
        match self {
            Condition::Tag(t) => t.evaluate(task),
            Condition::Context(c) => c.evaluate(task),
            Condition::Completion(c) => c.evaluate(task),
            Condition::Text(t) => t.evaluate(task),
            Condition::Not(a) => !a.evaluate(task),
            Condition::And(a, b) => a.evaluate(task) && b.evaluate(task),
            Condition::Or(a, b) => a.evaluate(task) || b.evaluate(task),
            Condition::AlwaysTrue => true,
        }
    }
}

/// The condition that the filter text `input` denotes, or a message saying why
/// the text is not a filter. Text of whitespace only denotes `AlwaysTrue`.
pub fn parse_filter_expression(input: &str) -> (r: Result<Condition, String>)
    ensures
        r is Ok <==> parse_spec(input@) is Some,
        r is Ok ==> r->Ok_0@ == parse_spec(input@)->Some_0,
        r is Err ==> r->Err_0@ == message_spec(error_spec(input@)),
{
    match parse_condition(input) {
        Ok(c) => Ok(c),
        Err(e) => Err(e.message()),
    }
}

/// The empty filter text denotes the condition that always holds, and so it
/// holds of every task.
pub proof fn lemma_empty_filter_holds(t: Task)
    ensures
        parse_spec(Seq::empty()) == Some(Cond::AlwaysTrue),
        holds(parse_spec(Seq::empty())->Some_0, t),
{
}

/// A filter text together with the condition parsed from it.
#[derive(Debug, PartialEq)]
pub struct FilterCondition {
    pub expression: String,
    pub condition: Condition,
}

/// `b` holds the same text and condition as `a`.
pub open spec fn same_filter_condition(a: FilterCondition, b: FilterCondition) -> bool {
    a.expression@ == b.expression@ && a.condition == b.condition
}

impl FilterCondition {
    /// The filter of text `expression`, or the parse error message.
    pub fn new(expression: &str) -> (r: Result<FilterCondition, String>)
        ensures
            r is Ok <==> parse_spec(expression@) is Some,
            r is Ok ==> r->Ok_0.expression@ == expression@ && r->Ok_0.condition@ == parse_spec(expression@)->Some_0,
            r is Err ==> r->Err_0@ == message_spec(error_spec(expression@)),
    {
        match parse_filter_expression(expression) {
            Ok(condition) => Ok(FilterCondition { expression: String::from_str(expression), condition }),
            Err(e) => Err(e),
        }
    }

    /// A copy of this filter condition.
    pub fn share(&self) -> (r: FilterCondition)
        ensures
            same_filter_condition(r, *self),
    {
        FilterCondition { expression: self.expression.clone(), condition: self.condition.share() }
    }
}

/// `a` and `b` are the same filter: same id, name and filter text and condition.
pub open spec fn same_filter(a: Filter, b: Filter) -> bool {
    a.id == b.id && a.name@ == b.name@ && same_filter_condition(a.filter_condition, b.filter_condition)
}

/// A named filter.
#[derive(Debug, PartialEq)]
pub struct Filter {
    pub id: u128,
    pub name: String,
    pub filter_condition: FilterCondition,
}

impl Filter {
    /// A filter with a fresh id.
    pub fn new(name: &str, filter_condition: FilterCondition) -> (r: Filter)
        ensures
            r.name@ == name@,
            r.filter_condition == filter_condition,
    {
        Filter { id: fresh_id(), name: String::from_str(name), filter_condition }
    }

    /// A copy of this filter.
    pub fn share(&self) -> (r: Filter)
        ensures
            same_filter(r, *self),
    {
        Filter { id: self.id, name: self.name.clone(), filter_condition: self.filter_condition.share() }
    }
}

} // verus!
