//! Intermediate representation of lifted Neo N3 code.
use vstd::prelude::*;

use crate::analysis::effects::KeyPattern;
use crate::analysis::types::{clone_type, Type, TypeView};
use crate::common::types::{
    BinaryOperator, BlockId, Literal, LiteralView, StorageOp, UnaryOperator, Variable, VariableView,
};

verus! {

/// Stack operations.
#[derive(Debug, Clone, Copy, PartialEq, Eq, Structural)]
pub enum StackOp {
    Push,
    Pop,
    Dup,
    Swap,
    Drop,
    Pick,
    Roll,
    Reverse,
    Size,
    Clear,
}

/// Effect kinds for annotations.
#[derive(Debug, Clone, Copy, PartialEq, Eq, Structural)]
pub enum EffectType {
    StorageRead,
    StorageWrite,
    EventEmit,
    ContractCall,
    Transfer,
    GasConsumption,
    RandomAccess,
    SystemStateRead,
    NetworkAccess,
    Pure,
}

/// Array operations.
#[derive(Debug, Clone, Copy, PartialEq, Eq, Structural)]
pub enum ArrayOperation {
    GetItem,
    SetItem,
    Append,
    Remove,
    Size,
    Clear,
}

/// Map operations.
#[derive(Debug, Clone, Copy, PartialEq, Eq, Structural)]
pub enum MapOperation {
    Get,
    Put,
    HasKey,
    Remove,
    Keys,
    Values,
    Clear,
}

/// String operations.
#[derive(Debug, Clone, Copy, PartialEq, Eq, Structural)]
pub enum StringOperation {
    Concat,
    Substring,
    Left,
    Right,
    Length,
}

/// Expressions of lifted code.
#[derive(Debug)]
pub enum Expression {
    Literal(Literal),
    Variable(Variable),
    BinaryOp { left: Box<Expression>, op: BinaryOperator, right: Box<Expression> },
    UnaryOp { op: UnaryOperator, operand: Box<Expression> },
    Call { function: String, arguments: Vec<Expression> },
    Index { array: Box<Expression>, index: Box<Expression> },
    Field { object: Box<Expression>, field: String },
    Cast { target_type: Type, expression: Box<Expression> },
    Array(Vec<Expression>),
    /// Map construction from key/value pairs.
    MapLiteral(Vec<(Expression, Expression)>),
    Struct { fields: Vec<(String, Expression)> },
    ArrayCreate { element_type: Box<Type>, size: Box<Expression> },
    StructCreate { fields: Vec<(String, Expression)> },
    MapCreate { entries: Vec<(Expression, Expression)> },
}

/// Model of an expression: strings as characters, lists as sequences.
pub enum ExprView {
    Literal(LiteralView),
    Variable(VariableView),
    BinaryOp { left: Box<ExprView>, op: BinaryOperator, right: Box<ExprView> },
    UnaryOp { op: UnaryOperator, operand: Box<ExprView> },
    Call { function: Seq<char>, arguments: Seq<ExprView> },
    Index { array: Box<ExprView>, index: Box<ExprView> },
    Field { object: Box<ExprView>, field: Seq<char> },
    Cast { target_type: TypeView, expression: Box<ExprView> },
    Array(Seq<ExprView>),
    MapLiteral(Seq<(ExprView, ExprView)>),
    Struct { fields: Seq<(Seq<char>, ExprView)> },
    ArrayCreate { element_type: TypeView, size: Box<ExprView> },
    StructCreate { fields: Seq<(Seq<char>, ExprView)> },
    MapCreate { entries: Seq<(ExprView, ExprView)> },
}

/// The model of an expression.
pub open spec fn expr_view(e: Expression) -> ExprView
    decreases e, 1nat,
{
    match e {
        Expression::Literal(l) => ExprView::Literal(l@),
        Expression::Variable(v) => ExprView::Variable(v@),
        Expression::BinaryOp { left, op, right } => ExprView::BinaryOp {
            left: Box::new(expr_view(*left)),
            op,
            right: Box::new(expr_view(*right)),
        },
        Expression::UnaryOp { op, operand } => ExprView::UnaryOp {
            op,
            operand: Box::new(expr_view(*operand)),
        },
        Expression::Call { function, arguments } => ExprView::Call {
            function: function@,
            arguments: exprs_view(arguments@),
        },
        Expression::Index { array, index } => ExprView::Index {
            array: Box::new(expr_view(*array)),
            index: Box::new(expr_view(*index)),
        },
        Expression::Field { object, field } => ExprView::Field {
            object: Box::new(expr_view(*object)),
            field: field@,
        },
        Expression::Cast { target_type, expression } => ExprView::Cast {
            target_type: target_type@,
            expression: Box::new(expr_view(*expression)),
        },
        Expression::Array(items) => ExprView::Array(exprs_view(items@)),
        Expression::MapLiteral(entries) => ExprView::MapLiteral(pairs_view(entries@)),
        Expression::Struct { fields } => ExprView::Struct { fields: named_view(fields@) },
        Expression::ArrayCreate { element_type, size } => ExprView::ArrayCreate {
            element_type: (*element_type)@,
            size: Box::new(expr_view(*size)),
        },
        Expression::StructCreate { fields } => ExprView::StructCreate { fields: named_view(fields@) },
        Expression::MapCreate { entries } => ExprView::MapCreate { entries: pairs_view(entries@) },
    }
}

/// The models of a list of expressions.
pub open spec fn exprs_view(s: Seq<Expression>) -> Seq<ExprView>
    decreases s, 0nat,
{
    if s.len() == 0 {
        Seq::empty()
    } else {
        seq![expr_view(s[0])] + exprs_view(s.drop_first())
    }
}

/// The models of a list of expression pairs.
pub open spec fn pairs_view(s: Seq<(Expression, Expression)>) -> Seq<(ExprView, ExprView)>
    decreases s, 0nat,
{
    if s.len() == 0 {
        Seq::empty()
    } else {
        seq![(expr_view(s[0].0), expr_view(s[0].1))] + pairs_view(s.drop_first())
    }
}

/// The models of a list of named expressions.
pub open spec fn named_view(s: Seq<(String, Expression)>) -> Seq<(Seq<char>, ExprView)>
    decreases s, 0nat,
{
    if s.len() == 0 {
        Seq::empty()
    } else {
        seq![(s[0].0@, expr_view(s[0].1))] + named_view(s.drop_first())
    }
}

impl View for Expression {
    type V = ExprView;

    open spec fn view(&self) -> ExprView {
        expr_view(*self)
    }
}

proof fn lemma_exprs_view_push(s: Seq<Expression>, e: Expression)
    ensures
        exprs_view(s.push(e)) == exprs_view(s).push(expr_view(e)),
    decreases s.len(),
{
    reveal_with_fuel(exprs_view, 2);
    if s.len() == 0 {
        assert(s.push(e).drop_first() =~= Seq::<Expression>::empty());
    } else {
        assert(s.push(e).drop_first() =~= s.drop_first().push(e));
        lemma_exprs_view_push(s.drop_first(), e);
    }
    assert(exprs_view(s.push(e)) =~= exprs_view(s).push(expr_view(e)));
}

proof fn lemma_pairs_view_push(s: Seq<(Expression, Expression)>, e: (Expression, Expression))
    ensures
        pairs_view(s.push(e)) == pairs_view(s).push((expr_view(e.0), expr_view(e.1))),
    decreases s.len(),
{
    reveal_with_fuel(pairs_view, 2);
    if s.len() == 0 {
        assert(s.push(e).drop_first() =~= Seq::<(Expression, Expression)>::empty());
    } else {
        assert(s.push(e).drop_first() =~= s.drop_first().push(e));
        lemma_pairs_view_push(s.drop_first(), e);
    }
    assert(pairs_view(s.push(e)) =~= pairs_view(s).push((expr_view(e.0), expr_view(e.1))));
}

proof fn lemma_named_view_push(s: Seq<(String, Expression)>, e: (String, Expression))
    ensures
        named_view(s.push(e)) == named_view(s).push((e.0@, expr_view(e.1))),
    decreases s.len(),
{
    reveal_with_fuel(named_view, 2);
    if s.len() == 0 {
        assert(s.push(e).drop_first() =~= Seq::<(String, Expression)>::empty());
    } else {
        assert(s.push(e).drop_first() =~= s.drop_first().push(e));
        lemma_named_view_push(s.drop_first(), e);
    }
    assert(named_view(s.push(e)) =~= named_view(s).push((e.0@, expr_view(e.1))));
}

/// Copy an expression.
pub fn clone_expression(e: &Expression) -> (r: Expression)
    ensures
        r@ == e@,
    decreases e,
{
    match e {
        Expression::Literal(l) => Expression::Literal(l.clone_literal()),
        Expression::Variable(v) => Expression::Variable(v.clone_variable()),
        Expression::BinaryOp { left, op, right } => Expression::BinaryOp {
            left: Box::new(clone_expression(left)),
            op: *op,
            right: Box::new(clone_expression(right)),
        },
        Expression::UnaryOp { op, operand } => Expression::UnaryOp {
            op: *op,
            operand: Box::new(clone_expression(operand)),
        },
        Expression::Call { function, arguments } => Expression::Call {
            function: function.clone(),
            arguments: clone_expressions(arguments),
        },
        Expression::Index { array, index } => Expression::Index {
            array: Box::new(clone_expression(array)),
            index: Box::new(clone_expression(index)),
        },
        Expression::Field { object, field } => Expression::Field {
            object: Box::new(clone_expression(object)),
            field: field.clone(),
        },
        Expression::Cast { target_type, expression } => Expression::Cast {
            target_type: clone_type(target_type),
            expression: Box::new(clone_expression(expression)),
        },
        Expression::Array(items) => Expression::Array(clone_expressions(items)),
        Expression::MapLiteral(entries) => Expression::MapLiteral(clone_pairs(entries)),
        Expression::Struct { fields } => Expression::Struct { fields: clone_named(fields) },
        Expression::ArrayCreate { element_type, size } => Expression::ArrayCreate {
            element_type: Box::new(clone_type(element_type)),
            size: Box::new(clone_expression(size)),
        },
        Expression::StructCreate { fields } => Expression::StructCreate { fields: clone_named(fields) },
        Expression::MapCreate { entries } => Expression::MapCreate { entries: clone_pairs(entries) },
    }
}

/// Copy a list of expressions.
pub fn clone_expressions(v: &Vec<Expression>) -> (r: Vec<Expression>)
    ensures
        exprs_view(r@) == exprs_view(v@),
    decreases v,
{
    let mut out: Vec<Expression> = Vec::new();
    let mut i: usize = 0;
    while i < v.len()
        invariant
            i <= v.len(),
            exprs_view(out@) == exprs_view(v@.take(i as int)),
        decreases v.len() - i,
    {
        let c = clone_expression(&v[i]);
        proof {
            assert(v@.take(i + 1) =~= v@.take(i as int).push(v@[i as int]));
            lemma_exprs_view_push(v@.take(i as int), v@[i as int]);
            lemma_exprs_view_push(out@, c);
        }
        out.push(c);
        i = i + 1;
    }
    assert(v@.take(v.len() as int) =~= v@);
    out
}

/// Copy a list of expression pairs.
pub fn clone_pairs(v: &Vec<(Expression, Expression)>) -> (r: Vec<(Expression, Expression)>)
    ensures
        pairs_view(r@) == pairs_view(v@),
    decreases v,
{
    let mut out: Vec<(Expression, Expression)> = Vec::new();
    let mut i: usize = 0;
    while i < v.len()
        invariant
            i <= v.len(),
            pairs_view(out@) == pairs_view(v@.take(i as int)),
        decreases v.len() - i,
    {
        let c = (clone_expression(&v[i].0), clone_expression(&v[i].1));
        proof {
            assert(v@.take(i + 1) =~= v@.take(i as int).push(v@[i as int]));
            lemma_pairs_view_push(v@.take(i as int), v@[i as int]);
            lemma_pairs_view_push(out@, c);
        }
        out.push(c);
        i = i + 1;
    }
    assert(v@.take(v.len() as int) =~= v@);
    out
}

/// Copy a list of named expressions.
pub fn clone_named(v: &Vec<(String, Expression)>) -> (r: Vec<(String, Expression)>)
    ensures
        named_view(r@) == named_view(v@),
    decreases v,
{
    let mut out: Vec<(String, Expression)> = Vec::new();
    let mut i: usize = 0;
    while i < v.len()
        invariant
            i <= v.len(),
            named_view(out@) == named_view(v@.take(i as int)),
        decreases v.len() - i,
    {
        let c = (v[i].0.clone(), clone_expression(&v[i].1));
        proof {
            assert(v@.take(i + 1) =~= v@.take(i as int).push(v@[i as int]));
            lemma_named_view_push(v@.take(i as int), v@[i as int]);
            lemma_named_view_push(out@, c);
        }
        out.push(c);
        i = i + 1;
    }
    assert(v@.take(v.len() as int) =~= v@);
    out
}

/// Operations of lifted code.
#[derive(Debug)]
pub enum Operation {
    Assign { target: Variable, source: Expression },
    Syscall { name: String, arguments: Vec<Expression>, return_type: Option<Type>, target: Option<Variable> },
    ContractCall { contract: Expression, method: String, arguments: Vec<Expression>, call_flags: u8, target: Option<Variable> },
    Storage { operation: StorageOp, key: Expression, value: Option<Expression>, target: Option<Variable> },
    Stack { operation: StackOp, operands: Vec<Expression>, target: Option<Variable> },
    Arithmetic { operator: BinaryOperator, left: Expression, right: Expression, target: Variable },
    Convert { source: Expression, target_type: Type, target: Variable },
    Unary { operator: UnaryOperator, operand: Expression, target: Variable },
    BuiltinCall { name: String, arguments: Vec<Expression>, target: Option<Variable> },
    ArrayOp { operation: ArrayOperation, array: Expression, index: Option<Expression>, value: Option<Expression>, target: Option<Variable> },
    MapOp { operation: MapOperation, map: Expression, key: Expression, value: Option<Expression>, target: Option<Variable> },
    StringOp { operation: StringOperation, operands: Vec<Expression>, target: Variable },
    TypeCheck { value: Expression, target_type: Type, target: Variable },
    Throw { exception: Expression },
    Assert { condition: Expression, message: Option<Expression> },
    Abort { message: Option<Expression> },
    Effect { effect_type: EffectType, description: String },
    Comment(String),
}

/// How an IR block ends.
#[derive(Debug)]
pub enum Terminator {
    Jump(BlockId),
    Branch { condition: Expression, true_target: BlockId, false_target: BlockId },
    Return(Option<Expression>),
    Abort(Option<Expression>),
    Switch { discriminant: Expression, targets: Vec<(Literal, BlockId)>, default_target: Option<BlockId> },
    TryBlock { try_block: BlockId, catch_block: Option<BlockId>, finally_block: Option<BlockId> },
}

/// The model of an optional expression.
pub open spec fn opt_expr_view(e: Option<Expression>) -> Option<ExprView> {
    match e {
        Some(x) => Some(expr_view(x)),
        None => None,
    }
}

/// The model of an optional variable.
pub open spec fn opt_var_view(v: Option<Variable>) -> Option<VariableView> {
    match v {
        Some(x) => Some(x@),
        None => None,
    }
}

/// The model of an optional type.
pub open spec fn opt_type_view(t: Option<Type>) -> Option<TypeView> {
    match t {
        Some(x) => Some(x@),
        None => None,
    }
}

/// Model of an operation.
pub enum OpView {
    Assign { target: VariableView, source: ExprView },
    Syscall { name: Seq<char>, arguments: Seq<ExprView>, return_type: Option<TypeView>, target: Option<VariableView> },
    ContractCall { contract: ExprView, method: Seq<char>, arguments: Seq<ExprView>, call_flags: u8, target: Option<VariableView> },
    Storage { operation: StorageOp, key: ExprView, value: Option<ExprView>, target: Option<VariableView> },
    Stack { operation: StackOp, operands: Seq<ExprView>, target: Option<VariableView> },
    Arithmetic { operator: BinaryOperator, left: ExprView, right: ExprView, target: VariableView },
    Convert { source: ExprView, target_type: TypeView, target: VariableView },
    Unary { operator: UnaryOperator, operand: ExprView, target: VariableView },
    BuiltinCall { name: Seq<char>, arguments: Seq<ExprView>, target: Option<VariableView> },
    ArrayOp { operation: ArrayOperation, array: ExprView, index: Option<ExprView>, value: Option<ExprView>, target: Option<VariableView> },
    MapOp { operation: MapOperation, map: ExprView, key: ExprView, value: Option<ExprView>, target: Option<VariableView> },
    StringOp { operation: StringOperation, operands: Seq<ExprView>, target: VariableView },
    TypeCheck { value: ExprView, target_type: TypeView, target: VariableView },
    Throw { exception: ExprView },
    Assert { condition: ExprView, message: Option<ExprView> },
    Abort { message: Option<ExprView> },
    Effect { effect_type: EffectType, description: Seq<char> },
    Comment(Seq<char>),
}

impl View for Operation {
    type V = OpView;

    open spec fn view(&self) -> OpView {
        match self {
            Operation::Assign { target, source } => OpView::Assign { target: target@, source: source@ },
            Operation::Syscall { name, arguments, return_type, target } => OpView::Syscall {
                name: name@,
                arguments: exprs_view(arguments@),
                return_type: opt_type_view(*return_type),
                target: opt_var_view(*target),
            },
            Operation::ContractCall { contract, method, arguments, call_flags, target } => OpView::ContractCall {
                contract: contract@,
                method: method@,
                arguments: exprs_view(arguments@),
                call_flags: *call_flags,
                target: opt_var_view(*target),
            },
            Operation::Storage { operation, key, value, target } => OpView::Storage {
                operation: *operation,
                key: key@,
                value: opt_expr_view(*value),
                target: opt_var_view(*target),
            },
            Operation::Stack { operation, operands, target } => OpView::Stack {
                operation: *operation,
                operands: exprs_view(operands@),
                target: opt_var_view(*target),
            },
            Operation::Arithmetic { operator, left, right, target } => OpView::Arithmetic {
                operator: *operator,
                left: left@,
                right: right@,
                target: target@,
            },
            Operation::Convert { source, target_type, target } => OpView::Convert {
                source: source@,
                target_type: target_type@,
                target: target@,
            },
            Operation::Unary { operator, operand, target } => OpView::Unary {
                operator: *operator,
                operand: operand@,
                target: target@,
            },
            Operation::BuiltinCall { name, arguments, target } => OpView::BuiltinCall {
                name: name@,
                arguments: exprs_view(arguments@),
                target: opt_var_view(*target),
            },
            Operation::ArrayOp { operation, array, index, value, target } => OpView::ArrayOp {
                operation: *operation,
                array: array@,
                index: opt_expr_view(*index),
                value: opt_expr_view(*value),
                target: opt_var_view(*target),
            },
            Operation::MapOp { operation, map, key, value, target } => OpView::MapOp {
                operation: *operation,
                map: map@,
                key: key@,
                value: opt_expr_view(*value),
                target: opt_var_view(*target),
            },
            Operation::StringOp { operation, operands, target } => OpView::StringOp {
                operation: *operation,
                operands: exprs_view(operands@),
                target: target@,
            },
            Operation::TypeCheck { value, target_type, target } => OpView::TypeCheck {
                value: value@,
                target_type: target_type@,
                target: target@,
            },
            Operation::Throw { exception } => OpView::Throw { exception: exception@ },
            Operation::Assert { condition, message } => OpView::Assert {
                condition: condition@,
                message: opt_expr_view(*message),
            },
            Operation::Abort { message } => OpView::Abort { message: opt_expr_view(*message) },
            Operation::Effect { effect_type, description } => OpView::Effect {
                effect_type: *effect_type,
                description: description@,
            },
            Operation::Comment(c) => OpView::Comment(c@),
        }
    }
}

/// The models of a list of operations.
pub open spec fn ops_view(s: Seq<Operation>) -> Seq<OpView> {
    s.map_values(|o: Operation| o@)
}

/// Model of a terminator.
pub enum TermView {
    Jump(BlockId),
    Branch { condition: ExprView, true_target: BlockId, false_target: BlockId },
    Return(Option<ExprView>),
    Abort(Option<ExprView>),
    Switch { discriminant: ExprView, targets: Seq<(LiteralView, BlockId)>, default_target: Option<BlockId> },
    TryBlock { try_block: BlockId, catch_block: Option<BlockId>, finally_block: Option<BlockId> },
}

impl View for Terminator {
    type V = TermView;

    open spec fn view(&self) -> TermView {
        match self {
            Terminator::Jump(t) => TermView::Jump(*t),
            Terminator::Branch { condition, true_target, false_target } => TermView::Branch {
                condition: condition@,
                true_target: *true_target,
                false_target: *false_target,
            },
            Terminator::Return(v) => TermView::Return(opt_expr_view(*v)),
            Terminator::Abort(v) => TermView::Abort(opt_expr_view(*v)),
            Terminator::Switch { discriminant, targets, default_target } => TermView::Switch {
                discriminant: discriminant@,
                targets: targets@.map_values(|p: (Literal, BlockId)| (p.0@, p.1)),
                default_target: *default_target,
            },
            Terminator::TryBlock { try_block, catch_block, finally_block } => TermView::TryBlock {
                try_block: *try_block,
                catch_block: *catch_block,
                finally_block: *finally_block,
            },
        }
    }
}

/// Function parameter.
#[derive(Debug)]
pub struct Parameter {
    pub name: String,
    pub param_type: Type,
    pub index: u32,
}

/// Local variable.
#[derive(Debug)]
pub struct LocalVariable {
    pub name: String,
    pub var_type: Type,
    pub local_type: Type,
    pub slot: u32,
    pub initialized: bool,
}

/// Event definition.
#[derive(Debug)]
pub struct EventDefinition {
    pub name: String,
    pub parameters: Vec<Parameter>,
    pub description: Option<String>,
}

/// Storage keys, their types, and key patterns.
#[derive(Debug)]
pub struct StorageLayout {
    pub keys: Vec<(String, Type)>,
    pub patterns: Vec<KeyPattern>,
}

/// Complexity metrics of a function.
#[derive(Debug, Clone, Copy, PartialEq, Eq, Structural)]
pub struct ComplexityMetrics {
    pub cyclomatic: u32,
    pub blocks: u32,
    pub operations: u32,
    pub max_stack_depth: u32,
}

/// Function metadata.
#[derive(Debug, Clone, Copy, PartialEq, Eq, Structural)]
pub struct FunctionMetadata {
    pub offset: Option<u32>,
    pub is_entry_point: bool,
    pub is_public: bool,
    pub is_safe: bool,
    pub complexity: ComplexityMetrics,
}

/// Risk levels.
#[derive(Debug, Clone, Copy, PartialEq, Eq, Structural)]
pub enum RiskLevel {
    Low,
    Medium,
    High,
    Critical,
}

impl RiskLevel {
    /// The level's name in capitals.
    pub fn name(&self) -> (r: &'static str)
        ensures
            r@ == match *self {
                RiskLevel::Low => "LOW"@,
                RiskLevel::Medium => "MEDIUM"@,
                RiskLevel::High => "HIGH"@,
                RiskLevel::Critical => "CRITICAL"@,
            },
    {
        match self {
            RiskLevel::Low => "LOW",
            RiskLevel::Medium => "MEDIUM",
            RiskLevel::High => "HIGH",
            RiskLevel::Critical => "CRITICAL",
        }
    }
}

/// Vulnerability severity.
#[derive(Debug, Clone, Copy, PartialEq, Eq, Structural)]
pub enum Severity {
    Info,
    Low,
    Medium,
    High,
    Critical,
}

impl Severity {
    /// The severity's name in capitals.
    pub fn name(&self) -> (r: &'static str)
        ensures
            r@ == match *self {
                Severity::Info => "INFO"@,
                Severity::Low => "LOW"@,
                Severity::Medium => "MEDIUM"@,
                Severity::High => "HIGH"@,
                Severity::Critical => "CRITICAL"@,
            },
    {
        match self {
            Severity::Info => "INFO",
            Severity::Low => "LOW",
            Severity::Medium => "MEDIUM",
            Severity::High => "HIGH",
            Severity::Critical => "CRITICAL",
        }
    }
}

/// Code location of a finding.
#[derive(Debug)]
pub struct CodeLocation {
    pub function: String,
    pub block: BlockId,
    pub operation: usize,
    pub offset: Option<u32>,
}

/// A security finding.
#[derive(Debug)]
pub struct Vulnerability {
    pub vuln_type: String,
    pub severity: Severity,
    pub description: String,
    pub location: Option<CodeLocation>,
}

/// Security analysis metadata.
#[derive(Debug)]
pub struct SecurityMetadata {
    pub vulnerabilities: Vec<Vulnerability>,
    pub score: u32,
    pub risk_level: RiskLevel,
}

/// Contract metadata.
#[derive(Debug)]
pub struct ContractMetadata {
    pub name: Option<String>,
    pub compiler: Option<String>,
    pub version: Option<String>,
    pub standards: Vec<String>,
    pub security: SecurityMetadata,
}

/// A basic block of lifted code.
#[derive(Debug)]
pub struct IRBlock {
    pub id: BlockId,
    pub operations: Vec<Operation>,
    pub terminator: Terminator,
    pub predecessors: Vec<BlockId>,
    pub successors: Vec<BlockId>,
}

/// Model of a block.
pub struct BlockView {
    pub id: BlockId,
    pub operations: Seq<OpView>,
    pub terminator: TermView,
    pub predecessors: Seq<BlockId>,
    pub successors: Seq<BlockId>,
}

impl View for IRBlock {
    type V = BlockView;

    open spec fn view(&self) -> BlockView {
        BlockView {
            id: self.id,
            operations: ops_view(self.operations@),
            terminator: self.terminator@,
            predecessors: self.predecessors@,
            successors: self.successors@,
        }
    }
}

/// The models of a list of blocks.
pub open spec fn blocks_view(s: Seq<IRBlock>) -> Seq<BlockView> {
    s.map_values(|b: IRBlock| b@)
}

/// A lifted function.
#[derive(Debug)]
pub struct IRFunction {
    pub name: String,
    pub parameters: Vec<Parameter>,
    pub locals: Vec<LocalVariable>,
    /// Blocks, at most one per id, in insertion order.
    pub blocks: Vec<IRBlock>,
    pub entry_block: BlockId,
    pub exit_blocks: Vec<BlockId>,
    pub return_type: Option<Type>,
    pub metadata: FunctionMetadata,
}

/// A lifted contract.
#[derive(Debug)]
pub struct IRContract {
    pub functions: Vec<IRFunction>,
    pub events: Vec<EventDefinition>,
    pub storage_layout: StorageLayout,
    pub metadata: ContractMetadata,
}

/// The ids of a block list, in order.
pub open spec fn block_ids(bs: Seq<IRBlock>) -> Seq<BlockId> {
    bs.map_values(|b: IRBlock| b.id)
}

/// Block ids are distinct.
pub open spec fn distinct_ids(bs: Seq<IRBlock>) -> bool {
    forall|i: int, j: int| 0 <= i < j < bs.len() ==> bs[i].id != bs[j].id
}

/// Sum of operation counts of the blocks.
pub open spec fn total_operations(bs: Seq<IRBlock>) -> nat
    decreases bs.len(),
{
    if bs.len() == 0 { 0 } else { total_operations(bs.drop_last()) + bs.last().operations@.len() }
}

/// Sum of successor counts of the blocks (the number of CFG edges).
pub open spec fn total_successors(bs: Seq<IRBlock>) -> nat
    decreases bs.len(),
{
    if bs.len() == 0 { 0 } else { total_successors(bs.drop_last()) + bs.last().successors@.len() }
}

/// McCabe complexity `edges - nodes + 2`, or 1 when there are fewer edges than nodes.
pub open spec fn cyclomatic(edges: nat, nodes: nat) -> nat {
    if edges >= nodes { (edges - nodes + 2) as nat } else { 1 }
}

/// Metadata of a new function.
pub open spec fn default_metadata() -> FunctionMetadata {
    FunctionMetadata {
        offset: None,
        is_entry_point: false,
        is_public: false,
        is_safe: false,
        complexity: ComplexityMetrics { cyclomatic: 1, blocks: 0, operations: 0, max_stack_depth: 0 },
    }
}

impl FunctionMetadata {
    /// Metadata of a new function: not entry, not public, not safe, complexity 1.
    pub fn default_metadata() -> (r: FunctionMetadata)
        ensures
            r == default_metadata(),
    {
        FunctionMetadata {
            offset: None,
            is_entry_point: false,
            is_public: false,
            is_safe: false,
            complexity: ComplexityMetrics { cyclomatic: 1, blocks: 0, operations: 0, max_stack_depth: 0 },
        }
    }
}

impl IRFunction {
    /// Well-formedness: block ids are distinct.
    pub open spec fn wf(&self) -> bool {
        distinct_ids(self.blocks@)
    }

    /// The index of the block with the given id.
    pub open spec fn block_index(&self, id: BlockId) -> int {
        choose|i: int| 0 <= i < self.blocks@.len() && self.blocks@[i].id == id
    }

    /// Whether a block with the given id exists.
    pub open spec fn has_block(&self, id: BlockId) -> bool {
        exists|i: int| 0 <= i < self.blocks@.len() && self.blocks@[i].id == id
    }

    /// A new function with no parameters, locals or blocks.
    pub fn new(name: String) -> (r: Self)
        ensures
            r.name == name,
            r.parameters@.len() == 0,
            r.locals@.len() == 0,
            r.blocks@.len() == 0,
            r.entry_block == 0,
            r.exit_blocks@.len() == 0,
            r.return_type is None,
            r.metadata == default_metadata(),
            r.wf(),
    {
        IRFunction {
            name,
            parameters: Vec::new(),
            locals: Vec::new(),
            blocks: Vec::new(),
            entry_block: 0,
            exit_blocks: Vec::new(),
            return_type: None,
            metadata: FunctionMetadata::default_metadata(),
        }
    }

    /// Find the position of the block with the given id.
    fn find_block(&self, id: BlockId) -> (r: Option<usize>)
        requires
            self.wf(),
        ensures
            match r {
                Some(i) => i < self.blocks@.len() && self.blocks@[i as int].id == id,
                None => !self.has_block(id),
            },
    {
        let mut i: usize = 0;
        while i < self.blocks.len()
            invariant
                i <= self.blocks@.len(),
                forall|j: int| 0 <= j < i ==> self.blocks@[j].id != id,
            decreases self.blocks.len() - i,
        {
            if self.blocks[i].id == id {
                return Some(i);
            }
            i = i + 1;
        }
        None
    }

    /// Insert a block, replacing any block with the same id.
    pub fn add_block(&mut self, block: IRBlock)
        requires
            old(self).wf(),
        ensures
            final(self).wf(),
            old(self).has_block(block.id) ==> final(self).blocks@ == old(self).blocks@.update(
                old(self).block_index(block.id),
                block,
            ),
            !old(self).has_block(block.id) ==> final(self).blocks@ == old(self).blocks@.push(block),
            final(self).name == old(self).name,
            final(self).entry_block == old(self).entry_block,
            final(self).metadata == old(self).metadata,
    {
        let ghost b = block;
        match self.find_block(block.id) {
            Some(i) => {
                proof {
                    let k = self.block_index(b.id);
                    assert(self.blocks@[k].id == b.id);
                    assert(k == i);
                }
                self.blocks.set(i, block);
            },
            None => {
                self.blocks.push(block);
            },
        }
    }

    /// The block with the given id.
    pub fn get_block(&self, id: BlockId) -> (r: Option<&IRBlock>)
        requires
            self.wf(),
        ensures
            match r {
                Some(b) => self.has_block(id) && *b == self.blocks@[self.block_index(id)],
                None => !self.has_block(id),
            },
    {
        match self.find_block(id) {
            Some(i) => {
                proof {
                    let k = self.block_index(id);
                    assert(k == i);
                }
                Some(&self.blocks[i])
            },
            None => None,
        }
    }

    /// The block with the given id, for change.
    pub fn get_block_mut(&mut self, id: BlockId) -> (r: Option<&mut IRBlock>)
        requires
            old(self).wf(),
        ensures
            match r {
                Some(b) => old(self).has_block(id) && *b == old(self).blocks@[old(self).block_index(id)]
                    && final(self).blocks@ == old(self).blocks@.update(old(self).block_index(id), *final(b)),
                None => !old(self).has_block(id) && final(self).blocks@ == old(self).blocks@,
            },
            final(self).name == old(self).name,
            final(self).entry_block == old(self).entry_block,
            final(self).metadata == old(self).metadata,
    {
        match self.find_block(id) {
            Some(i) => {
                proof {
                    let k = self.block_index(id);
                    assert(k == i);
                }
                Some(&mut self.blocks[i])
            },
            None => None,
        }
    }

    /// Recompute block, operation and cyclomatic counts; stack depth resets to 0.
    pub fn calculate_complexity(&mut self)
        requires
            old(self).blocks@.len() <= u32::MAX,
            total_operations(old(self).blocks@) <= u32::MAX,
            total_successors(old(self).blocks@) <= u32::MAX,
            total_successors(old(self).blocks@) >= old(self).blocks@.len() ==> total_successors(old(self).blocks@)
                - old(self).blocks@.len() + 2 <= u32::MAX,
        ensures
            final(self).metadata.complexity == (ComplexityMetrics {
                cyclomatic: cyclomatic(total_successors(old(self).blocks@), old(self).blocks@.len()) as u32,
                blocks: old(self).blocks@.len() as u32,
                operations: total_operations(old(self).blocks@) as u32,
                max_stack_depth: 0,
            }),
            final(self).metadata.offset == old(self).metadata.offset,
            final(self).metadata.is_entry_point == old(self).metadata.is_entry_point,
            final(self).metadata.is_public == old(self).metadata.is_public,
            final(self).metadata.is_safe == old(self).metadata.is_safe,
            final(self).blocks@ == old(self).blocks@,
            final(self).name == old(self).name,
            final(self).entry_block == old(self).entry_block,
            final(self).parameters == old(self).parameters,
            final(self).locals == old(self).locals,
            final(self).exit_blocks == old(self).exit_blocks,
            final(self).return_type == old(self).return_type,
    {
        let blocks = self.blocks.len() as u32;
        let mut operations: u32 = 0;
        let mut edges: u32 = 0;
        let mut i: usize = 0;
        while i < self.blocks.len()
            invariant
                i <= self.blocks@.len(),
                total_operations(self.blocks@) <= u32::MAX,
                total_successors(self.blocks@) <= u32::MAX,
                operations == total_operations(self.blocks@.take(i as int)),
                edges == total_successors(self.blocks@.take(i as int)),
            decreases self.blocks.len() - i,
        {
            proof {
                assert(self.blocks@.take(i + 1).drop_last() =~= self.blocks@.take(i as int));
                lemma_totals_prefix(self.blocks@, i + 1);
            }
            operations = operations + self.blocks[i].operations.len() as u32;
            edges = edges + self.blocks[i].successors.len() as u32;
            i = i + 1;
        }
        assert(self.blocks@.take(i as int) =~= self.blocks@);
        let cyclomatic = if edges >= blocks { edges - blocks + 2 } else { 1 };
        self.metadata.complexity = ComplexityMetrics {
            cyclomatic,
            blocks,
            operations,
            max_stack_depth: 0,
        };
    }
}

proof fn lemma_totals_prefix(bs: Seq<IRBlock>, k: int)
    requires
        0 <= k <= bs.len(),
    ensures
        total_operations(bs.take(k)) <= total_operations(bs),
        total_successors(bs.take(k)) <= total_successors(bs),
    decreases bs.len() - k,
{
    if k < bs.len() {
        lemma_totals_prefix(bs, k + 1);
        assert(bs.take(k + 1).drop_last() =~= bs.take(k));
    } else {
        assert(bs.take(k) =~= bs);
    }
}

impl IRBlock {
    /// A new block with no operations, returning nothing.
    pub fn new(id: BlockId) -> (r: Self)
        ensures
            r.id == id,
            r.operations@.len() == 0,
            r.terminator matches Terminator::Return(None),
            r.predecessors@.len() == 0,
            r.successors@.len() == 0,
    {
        IRBlock {
            id,
            operations: Vec::new(),
            terminator: Terminator::Return(None),
            predecessors: Vec::new(),
            successors: Vec::new(),
        }
    }

    /// Append an operation.
    pub fn add_operation(&mut self, operation: Operation)
        ensures
            final(self).operations@ == old(self).operations@.push(operation),
            final(self).id == old(self).id,
            final(self).terminator == old(self).terminator,
            final(self).predecessors == old(self).predecessors,
            final(self).successors == old(self).successors,
    {
        self.operations.push(operation);
    }

    /// Replace the terminator.
    pub fn set_terminator(&mut self, terminator: Terminator)
        ensures
            final(self).terminator == terminator,
            final(self).id == old(self).id,
            final(self).operations == old(self).operations,
            final(self).predecessors == old(self).predecessors,
            final(self).successors == old(self).successors,
    {
        self.terminator = terminator;
    }
}

} // verus!
