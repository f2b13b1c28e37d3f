//! The errors of the engine.

use vstd::prelude::*;
use vstd::string::StringExecFns;

verus! {

/// What can go wrong with a rule, each kind with a message.
#[derive(Debug)]
pub enum RuleEngineError {
    /// A rule definition could not be read.
    ParseError(String),
    /// A run could not be carried out.
    ExecutionError(String),
    /// A condition names a field that the facts do not hold.
    EvaluationError(String),
    /// A rule is not built as it must be.
    InvalidRuleFormat(String),
    /// A condition applies an operator to values that it does not take.
    TypeMismatch(String),
    /// What an action asked of a collaborator failed.
    ActionFailed(String),
}

/// What a [`RuleEngineError`] is: its kind, with the message as a sequence
/// of characters.
pub enum ErrorView {
    ParseError(Seq<char>),
    ExecutionError(Seq<char>),
    EvaluationError(Seq<char>),
    InvalidRuleFormat(Seq<char>),
    TypeMismatch(Seq<char>),
    ActionFailed(Seq<char>),
}

impl ErrorView {
    /// The message that the error carries.
    pub open spec fn detail(self) -> Seq<char> {
        match self {
            ErrorView::ParseError(m) => m,
            ErrorView::ExecutionError(m) => m,
            ErrorView::EvaluationError(m) => m,
            ErrorView::InvalidRuleFormat(m) => m,
            ErrorView::TypeMismatch(m) => m,
            ErrorView::ActionFailed(m) => m,
        }
    }

    /// The words that introduce an error of this kind.
    pub open spec fn heading(self) -> Seq<char> {
        match self {
            ErrorView::ParseError(_) => "规则解析错误: "@,
            ErrorView::ExecutionError(_) => "规则执行错误: "@,
            ErrorView::EvaluationError(_) => "条件评估错误: "@,
            ErrorView::InvalidRuleFormat(_) => "无效规则格式: "@,
            ErrorView::TypeMismatch(_) => "数据类型不匹配: "@,
            ErrorView::ActionFailed(_) => "动作执行失败: "@,
        }
    }

    /// The error as a line of text: the heading of its kind, then its
    /// message.
    pub open spec fn text(self) -> Seq<char> {
        self.heading() + self.detail()
    }
}

impl View for RuleEngineError {
    type V = ErrorView;

    open spec fn view(&self) -> ErrorView {
        match *self {
            RuleEngineError::ParseError(m) => ErrorView::ParseError(m@),
            RuleEngineError::ExecutionError(m) => ErrorView::ExecutionError(m@),
            RuleEngineError::EvaluationError(m) => ErrorView::EvaluationError(m@),
            RuleEngineError::InvalidRuleFormat(m) => ErrorView::InvalidRuleFormat(m@),
            RuleEngineError::TypeMismatch(m) => ErrorView::TypeMismatch(m@),
            RuleEngineError::ActionFailed(m) => ErrorView::ActionFailed(m@),
        }
    }
}

impl RuleEngineError {
    /// The message that the error carries.
    pub fn detail(&self) -> (r: &str)
        ensures
            r@ == self@.detail(),
    {
        match self {
            RuleEngineError::ParseError(m) => m.as_str(),
            RuleEngineError::ExecutionError(m) => m.as_str(),
            RuleEngineError::EvaluationError(m) => m.as_str(),
            RuleEngineError::InvalidRuleFormat(m) => m.as_str(),
            RuleEngineError::TypeMismatch(m) => m.as_str(),
            RuleEngineError::ActionFailed(m) => m.as_str(),
        }
    }

    /// The error as a line of text.
    pub fn describe(&self) -> (r: String)
        ensures
            r@ == self@.text(),
    {
        let heading: &str = match self {
            RuleEngineError::ParseError(_) => "规则解析错误: ",
            RuleEngineError::ExecutionError(_) => "规则执行错误: ",
            RuleEngineError::EvaluationError(_) => "条件评估错误: ",
            RuleEngineError::InvalidRuleFormat(_) => "无效规则格式: ",
            RuleEngineError::TypeMismatch(_) => "数据类型不匹配: ",
            RuleEngineError::ActionFailed(_) => "动作执行失败: ",
        };
        heading.to_owned().concat(self.detail())
    }
}

} // verus!
