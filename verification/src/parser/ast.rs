//! The structure of a parsed filter script: a tree of expressions,
//! conditions and flags.

use vstd::prelude::*;

verus! {

/// How a string condition compares.
#[derive(Debug, PartialEq, Eq, Clone, Copy)]
pub enum StringComparisonType {
    Is,
    Contains,
    Matches,
    Regex,
}

/// A comparison of one source field with one value.
#[derive(Debug, PartialEq, Eq, Clone)]
pub struct StringCondition {
    pub comparison_type: StringComparisonType,
    pub source: String,
    pub value: String,
}

/// A test on a message.
#[derive(Debug, PartialEq, Eq)]
pub enum Condition {
    Header(StringCondition),
    Address(StringCondition),
    /// Holds if every condition of the list holds. The list is never empty.
    AllOf(Vec<Condition>),
    /// Holds if one condition of the list holds. The list is never empty.
    AnyOf(Vec<Condition>),
}

/// An `if` with its `elsif` clauses, in source order, and its `else` block,
/// which is empty where the source has none.
#[derive(Debug, PartialEq, Eq)]
pub struct If {
    pub condition: Condition,
    pub expressions: Vec<Expression>,
    pub else_ifs: Vec<(Condition, Vec<Expression>)>,
    pub else_block: Vec<Expression>,
}

/// A flag of a message: one of the six well-known ones, or any other name.
#[derive(Debug, PartialEq, Eq, Clone)]
pub enum Flag {
    Seen,
    Flagged,
    Answered,
    Deleted,
    Draft,
    Recent,
    Custom(String),
}

/// A statement of a script.
#[derive(Debug, PartialEq, Eq)]
pub enum Expression {
    Require(Vec<String>),
    If(If),
    FileInto(String),
    AddFlag(Vec<Flag>),
    RemoveFlag(Vec<Flag>),
    SetFlag(Vec<Flag>),
    Discard,
    Keep,
    Stop,
}

/// A string condition with its texts as sequences of characters.
pub ghost struct StringConditionView {
    pub comparison_type: StringComparisonType,
    pub source: Seq<char>,
    pub value: Seq<char>,
}

/// A condition as a mathematical tree.
pub ghost enum ConditionView {
    Header(StringConditionView),
    Address(StringConditionView),
    AllOf(Seq<ConditionView>),
    AnyOf(Seq<ConditionView>),
}

/// A flag with its name as a sequence of characters.
pub ghost enum FlagView {
    Seen,
    Flagged,
    Answered,
    Deleted,
    Draft,
    Recent,
    Custom(Seq<char>),
}

/// An `if` as a mathematical tree.
pub ghost struct IfView {
    pub condition: ConditionView,
    pub expressions: Seq<ExpressionView>,
    pub else_ifs: Seq<(ConditionView, Seq<ExpressionView>)>,
    pub else_block: Seq<ExpressionView>,
}

/// An expression as a mathematical tree.
pub ghost enum ExpressionView {
    Require(Seq<Seq<char>>),
    If(IfView),
    FileInto(Seq<char>),
    AddFlag(Seq<FlagView>),
    RemoveFlag(Seq<FlagView>),
    SetFlag(Seq<FlagView>),
    Discard,
    Keep,
    Stop,
}

impl View for StringComparisonType {
    type V = StringComparisonType;

    open spec fn view(&self) -> StringComparisonType {
        *self
    }
}

impl DeepView for StringComparisonType {
    type V = StringComparisonType;

    open spec fn deep_view(&self) -> StringComparisonType {
        *self
    }
}

impl View for StringCondition {
    type V = StringConditionView;

    open spec fn view(&self) -> StringConditionView {
        StringConditionView {
            comparison_type: self.comparison_type,
            source: self.source@,
            value: self.value@,
        }
    }
}

impl DeepView for StringCondition {
    type V = StringConditionView;

    open spec fn deep_view(&self) -> StringConditionView {
        self@
    }
}

impl View for Flag {
    type V = FlagView;

    open spec fn view(&self) -> FlagView {
        match self {
            Flag::Seen => FlagView::Seen,
            Flag::Flagged => FlagView::Flagged,
            Flag::Answered => FlagView::Answered,
            Flag::Deleted => FlagView::Deleted,
            Flag::Draft => FlagView::Draft,
            Flag::Recent => FlagView::Recent,
            Flag::Custom(name) => FlagView::Custom(name@),
        }
    }
}

impl DeepView for Flag {
    type V = FlagView;

    open spec fn deep_view(&self) -> FlagView {
        self@
    }
}

/// The flag that a name stands for: one of the six well-known flags where
/// the name is exactly theirs, and a custom flag of that name otherwise.
pub open spec fn flag_of(name: Seq<char>) -> FlagView {
    if name == "\\Seen"@ {
        FlagView::Seen
    } else if name == "\\Flagged"@ {
        FlagView::Flagged
    } else if name == "\\Answered"@ {
        FlagView::Answered
    } else if name == "\\Deleted"@ {
        FlagView::Deleted
    } else if name == "\\Draft"@ {
        FlagView::Draft
    } else if name == "\\Recent"@ {
        FlagView::Recent
    } else {
        FlagView::Custom(name)
    }
}

/// The flags that a list of names stands for, in order.
pub open spec fn flags_of(names: Seq<Seq<char>>) -> Seq<FlagView> {
    Seq::new(names.len(), |i: int| flag_of(names[i]))
}

/// The name under which a flag is written.
pub open spec fn flag_name(flag: FlagView) -> Seq<char> {
    match flag {
        FlagView::Seen => "\\Seen"@,
        FlagView::Flagged => "\\Flagged"@,
        FlagView::Answered => "\\Answered"@,
        FlagView::Deleted => "\\Deleted"@,
        FlagView::Draft => "\\Draft"@,
        FlagView::Recent => "\\Recent"@,
        FlagView::Custom(name) => name,
    }
}

/// The names under which flags are written, in order.
pub open spec fn flag_names(flags: Seq<FlagView>) -> Seq<Seq<char>> {
    Seq::new(flags.len(), |i: int| flag_name(flags[i]))
}

/// Whether a flag is one that a script can hold: a custom flag does not bear
/// the name of a well-known one.
pub open spec fn well_formed_flag(flag: FlagView) -> bool {
    flag_of(flag_name(flag)) == flag
}

/// The names of the six well-known flags stand for them, each for its own;
/// every other name, also one that differs from them in case only, stands
/// for a custom flag that holds the name as it is.
pub proof fn lemma_flag_decoding(name: Seq<char>)
    ensures
        flag_of("\\Seen"@) == FlagView::Seen,
        flag_of("\\Flagged"@) == FlagView::Flagged,
        flag_of("\\Answered"@) == FlagView::Answered,
        flag_of("\\Deleted"@) == FlagView::Deleted,
        flag_of("\\Draft"@) == FlagView::Draft,
        flag_of("\\Recent"@) == FlagView::Recent,
        name != "\\Seen"@ && name != "\\Flagged"@ && name != "\\Answered"@ && name
            != "\\Deleted"@ && name != "\\Draft"@ && name != "\\Recent"@ ==> flag_of(name)
            == FlagView::Custom(name),
        flag_of("\\seen"@) == FlagView::Custom("\\seen"@),
        flag_of(name) is Custom ==> flag_of(name) == FlagView::Custom(name),
{
    reveal_strlit("\\Seen");
    reveal_strlit("\\Flagged");
    reveal_strlit("\\Answered");
    reveal_strlit("\\Deleted");
    reveal_strlit("\\Draft");
    reveal_strlit("\\Recent");
    reveal_strlit("\\seen");
    assert("\\Seen"@[1] == 'S');
    assert("\\Flagged"@[1] == 'F');
    assert("\\Answered"@[1] == 'A');
    assert("\\Deleted"@[1] == 'D');
    assert("\\Draft"@[2] == 'r');
    assert("\\Deleted"@[2] == 'e');
    assert("\\Recent"@[1] == 'R');
    assert("\\seen"@[1] == 's');
}

/// Whether every flag of a list is well formed.
pub open spec fn well_formed_flags(flags: Seq<FlagView>) -> bool {
    forall|k: int| 0 <= k < flags.len() ==> well_formed_flag(#[trigger] flags[k])
}

/// Every flag that a name stands for is well formed.
pub proof fn lemma_flag_of_is_well_formed(name: Seq<char>)
    ensures
        well_formed_flag(flag_of(name)),
{
    lemma_flag_decoding(name);
}

/// Whether a condition is one that a script can hold: no list under `allof`
/// or `anyof` is empty, at any depth.
pub open spec fn well_formed_condition(c: ConditionView) -> bool
    decreases c,
{
    match c {
        ConditionView::Header(_) => true,
        ConditionView::Address(_) => true,
        ConditionView::AllOf(cs) => cs.len() >= 1 && forall|i: int|
            0 <= i < cs.len() ==> well_formed_condition(#[trigger] cs[i]),
        ConditionView::AnyOf(cs) => cs.len() >= 1 && forall|i: int|
            0 <= i < cs.len() ==> well_formed_condition(#[trigger] cs[i]),
    }
}

/// Whether a statement is one that a script can hold: its conditions and its
/// flags are well formed, at any depth.
pub open spec fn well_formed_expression(e: ExpressionView) -> bool
    decreases e,
{
    match e {
        ExpressionView::If(i) => {
            &&& well_formed_condition(i.condition)
            &&& forall|k: int|
                0 <= k < i.expressions.len() ==> well_formed_expression(#[trigger] i.expressions[k])
            &&& forall|k: int|
                0 <= k < i.else_ifs.len() ==> well_formed_condition((#[trigger] i.else_ifs[k]).0)
            &&& forall|k: int, j: int|
                0 <= k < i.else_ifs.len() && 0 <= j < i.else_ifs[k].1.len()
                    ==> well_formed_expression(#[trigger] i.else_ifs[k].1[j])
            &&& forall|k: int|
                0 <= k < i.else_block.len() ==> well_formed_expression(#[trigger] i.else_block[k])
        },
        ExpressionView::AddFlag(found) => forall|k: int|
            0 <= k < found.len() ==> well_formed_flag(#[trigger] found[k]),
        ExpressionView::RemoveFlag(found) => forall|k: int|
            0 <= k < found.len() ==> well_formed_flag(#[trigger] found[k]),
        ExpressionView::SetFlag(found) => forall|k: int|
            0 <= k < found.len() ==> well_formed_flag(#[trigger] found[k]),
        _ => true,
    }
}

/// Whether every statement of a list is well formed.
pub open spec fn well_formed_body(es: Seq<ExpressionView>) -> bool {
    forall|k: int| 0 <= k < es.len() ==> well_formed_expression(#[trigger] es[k])
}

/// Whether every clause of a list is well formed.
pub open spec fn well_formed_clauses(clauses: Seq<(ConditionView, Seq<ExpressionView>)>) -> bool {
    forall|k: int|
        0 <= k < clauses.len() ==> well_formed_condition((#[trigger] clauses[k]).0)
            && well_formed_body(clauses[k].1)
}

/// The tree that a condition stands for.
pub open spec fn condition_view(c: Condition) -> ConditionView
    decreases c,
{
    match c {
        Condition::Header(t) => ConditionView::Header(t@),
        Condition::Address(t) => ConditionView::Address(t@),
        Condition::AllOf(cs) => ConditionView::AllOf(
            Seq::new(
                cs@.len(),
                |i: int|
                    if 0 <= i < cs@.len() {
                        condition_view(cs@[i])
                    } else {
                        arbitrary()
                    },
            ),
        ),
        Condition::AnyOf(cs) => ConditionView::AnyOf(
            Seq::new(
                cs@.len(),
                |i: int|
                    if 0 <= i < cs@.len() {
                        condition_view(cs@[i])
                    } else {
                        arbitrary()
                    },
            ),
        ),
    }
}

impl View for Condition {
    type V = ConditionView;

    open spec fn view(&self) -> ConditionView {
        condition_view(*self)
    }
}

impl DeepView for Condition {
    type V = ConditionView;

    open spec fn deep_view(&self) -> ConditionView {
        condition_view(*self)
    }
}

/// The tree that an expression stands for.
pub open spec fn expression_view(e: Expression) -> ExpressionView
    decreases e,
{
    match e {
        Expression::Require(names) => ExpressionView::Require(names.deep_view()),
        Expression::If(i) => ExpressionView::If(
            IfView {
                condition: i.condition@,
                expressions: Seq::new(
                    i.expressions@.len(),
                    |k: int|
                        if 0 <= k < i.expressions@.len() {
                            expression_view(i.expressions@[k])
                        } else {
                            arbitrary()
                        },
                ),
                else_ifs: Seq::new(
                    i.else_ifs@.len(),
                    |k: int|
                        if 0 <= k < i.else_ifs@.len() {
                            (
                                i.else_ifs@[k].0@,
                                Seq::new(
                                    i.else_ifs@[k].1@.len(),
                                    |j: int|
                                        if 0 <= j < i.else_ifs@[k].1@.len() {
                                            expression_view(i.else_ifs@[k].1@[j])
                                        } else {
                                            arbitrary()
                                        },
                                ),
                            )
                        } else {
                            arbitrary()
                        },
                ),
                else_block: Seq::new(
                    i.else_block@.len(),
                    |k: int|
                        if 0 <= k < i.else_block@.len() {
                            expression_view(i.else_block@[k])
                        } else {
                            arbitrary()
                        },
                ),
            },
        ),
        Expression::FileInto(folder) => ExpressionView::FileInto(folder@),
        Expression::AddFlag(flags) => ExpressionView::AddFlag(flags.deep_view()),
        Expression::RemoveFlag(flags) => ExpressionView::RemoveFlag(flags.deep_view()),
        Expression::SetFlag(flags) => ExpressionView::SetFlag(flags.deep_view()),
        Expression::Discard => ExpressionView::Discard,
        Expression::Keep => ExpressionView::Keep,
        Expression::Stop => ExpressionView::Stop,
    }
}

impl View for Expression {
    type V = ExpressionView;

    open spec fn view(&self) -> ExpressionView {
        expression_view(*self)
    }
}

impl DeepView for Expression {
    type V = ExpressionView;

    open spec fn deep_view(&self) -> ExpressionView {
        expression_view(*self)
    }
}

impl View for If {
    type V = IfView;

    open spec fn view(&self) -> IfView {
        IfView {
            condition: self.condition@,
            expressions: self.expressions.deep_view(),
            else_ifs: self.else_ifs.deep_view(),
            else_block: self.else_block.deep_view(),
        }
    }
}

impl DeepView for If {
    type V = IfView;

    open spec fn deep_view(&self) -> IfView {
        self@
    }
}

/// A list of conditions stands for the list of their trees.
pub proof fn lemma_all_of_view(cs: Vec<Condition>)
    ensures
        Condition::AllOf(cs)@ == ConditionView::AllOf(cs.deep_view()),
        Condition::AnyOf(cs)@ == ConditionView::AnyOf(cs.deep_view()),
{
    match Condition::AllOf(cs)@ {
        ConditionView::AllOf(list) => {
            assert(list =~= cs.deep_view());
        },
        _ => {},
    }
    match Condition::AnyOf(cs)@ {
        ConditionView::AnyOf(list) => {
            assert(list =~= cs.deep_view());
        },
        _ => {},
    }
}

/// An `if` stands for the tree of its parts.
pub proof fn lemma_if_view(i: If)
    ensures
        Expression::If(i)@ == ExpressionView::If(i@),
{
    match Expression::If(i)@ {
        ExpressionView::If(tree) => {
            assert(tree.expressions =~= i.expressions.deep_view());
            assert(tree.else_block =~= i.else_block.deep_view());
            assert forall|k: int| 0 <= k < i.else_ifs@.len() implies tree.else_ifs[k]
                == i.else_ifs.deep_view()[k] by {
                assert(tree.else_ifs[k].1 =~= i.else_ifs@[k].1.deep_view());
            }
            assert(tree.else_ifs =~= i.else_ifs.deep_view());
        },
        _ => {},
    }
}

} // verus!
