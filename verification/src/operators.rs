//! Enumerated scalar leaves of the syntax tree: operators and declaration
//! kinds, each mapping bijectively to its textual form.
//!
//! Conversion from unknown text is the one recoverable failure the heap's
//! data model has: it yields [`TryFromStringError`].

use vstd::prelude::*;

verus! {

/// Error returned when text names no value of the requested enumeration.
#[derive(Clone, Copy, PartialEq, Eq, Structural, Debug)]
pub struct TryFromStringError;

impl TryFromStringError {
    /// A human-readable description of the error.
    pub fn message(&self) -> (r: &'static str)
        ensures
            r@ == "Invalid string property for AST node"@,
    {
        "Invalid string property for AST node"
    }
}

/// Operator of a unary expression.
#[derive(Clone, Copy, PartialEq, Eq, Structural, Debug, Hash)]
pub enum UnaryExpressionOperator {
    /// `delete`
    Delete,
    /// `void`
    Void,
    /// `typeof`
    Typeof,
    /// `+`
    Plus,
    /// `-`
    Minus,
    /// `~`
    BitNot,
    /// `!`
    Not,
}

impl UnaryExpressionOperator {
    /// The textual form of this value.
    pub open spec fn text(self) -> Seq<char> {
        match self {
            UnaryExpressionOperator::Delete => "delete"@,
            UnaryExpressionOperator::Void => "void"@,
            UnaryExpressionOperator::Typeof => "typeof"@,
            UnaryExpressionOperator::Plus => "+"@,
            UnaryExpressionOperator::Minus => "-"@,
            UnaryExpressionOperator::BitNot => "~"@,
            UnaryExpressionOperator::Not => "!"@,
        }
    }

    /// The textual form of this value.
    pub fn as_str(self) -> (r: &'static str)
        ensures
            r@ == self.text(),
    {
        match self {
            UnaryExpressionOperator::Delete => "delete",
            UnaryExpressionOperator::Void => "void",
            UnaryExpressionOperator::Typeof => "typeof",
            UnaryExpressionOperator::Plus => "+",
            UnaryExpressionOperator::Minus => "-",
            UnaryExpressionOperator::BitNot => "~",
            UnaryExpressionOperator::Not => "!",
        }
    }

    /// Parse the textual form back into the enumeration; text that is
    /// the form of no value yields `TryFromStringError`.
    pub fn parse(value: &str) -> (r: Result<UnaryExpressionOperator, TryFromStringError>)
        ensures
            match r {
                Ok(op) => value@ == op.text(),
                Err(_) => forall|op: UnaryExpressionOperator| value@ != op.text(),
            },
    {
        if crate::atom_table::text_eq(value, "delete") {
            Ok(UnaryExpressionOperator::Delete)
        } else if crate::atom_table::text_eq(value, "void") {
            Ok(UnaryExpressionOperator::Void)
        } else if crate::atom_table::text_eq(value, "typeof") {
            Ok(UnaryExpressionOperator::Typeof)
        } else if crate::atom_table::text_eq(value, "+") {
            Ok(UnaryExpressionOperator::Plus)
        } else if crate::atom_table::text_eq(value, "-") {
            Ok(UnaryExpressionOperator::Minus)
        } else if crate::atom_table::text_eq(value, "~") {
            Ok(UnaryExpressionOperator::BitNot)
        } else if crate::atom_table::text_eq(value, "!") {
            Ok(UnaryExpressionOperator::Not)
        } else {
            Err(TryFromStringError)
        }
    }
}

/// Operator of a binary expression.
#[derive(Clone, Copy, PartialEq, Eq, Structural, Debug, Hash)]
pub enum BinaryExpressionOperator {
    /// `==`
    LooseEquals,
    /// `!=`
    LooseNotEquals,
    /// `===`
    StrictEquals,
    /// `!==`
    StrictNotEquals,
    /// `<`
    Less,
    /// `<=`
    LessEquals,
    /// `>`
    Greater,
    /// `>=`
    GreaterEquals,
    /// `<<`
    LShift,
    /// `>>`
    RShift,
    /// `>>>`
    RShift3,
    /// `+`
    Plus,
    /// `-`
    Minus,
    /// `*`
    Mult,
    /// `/`
    Div,
    /// `%`
    Mod,
    /// `|`
    BitOr,
    /// `^`
    BitXor,
    /// `&`
    BitAnd,
    /// `**`
    Exp,
    /// `in`
    In,
    /// `instanceof`
    Instanceof,
}

impl BinaryExpressionOperator {
    /// The textual form of this value.
    pub open spec fn text(self) -> Seq<char> {
        match self {
            BinaryExpressionOperator::LooseEquals => "=="@,
            BinaryExpressionOperator::LooseNotEquals => "!="@,
            BinaryExpressionOperator::StrictEquals => "==="@,
            BinaryExpressionOperator::StrictNotEquals => "!=="@,
            BinaryExpressionOperator::Less => "<"@,
            BinaryExpressionOperator::LessEquals => "<="@,
            BinaryExpressionOperator::Greater => ">"@,
            BinaryExpressionOperator::GreaterEquals => ">="@,
            BinaryExpressionOperator::LShift => "<<"@,
            BinaryExpressionOperator::RShift => ">>"@,
            BinaryExpressionOperator::RShift3 => ">>>"@,
            BinaryExpressionOperator::Plus => "+"@,
            BinaryExpressionOperator::Minus => "-"@,
            BinaryExpressionOperator::Mult => "*"@,
            BinaryExpressionOperator::Div => "/"@,
            BinaryExpressionOperator::Mod => "%"@,
            BinaryExpressionOperator::BitOr => "|"@,
            BinaryExpressionOperator::BitXor => "^"@,
            BinaryExpressionOperator::BitAnd => "&"@,
            BinaryExpressionOperator::Exp => "**"@,
            BinaryExpressionOperator::In => "in"@,
            BinaryExpressionOperator::Instanceof => "instanceof"@,
        }
    }

    /// The textual form of this value.
    pub fn as_str(self) -> (r: &'static str)
        ensures
            r@ == self.text(),
    {
        match self {
            BinaryExpressionOperator::LooseEquals => "==",
            BinaryExpressionOperator::LooseNotEquals => "!=",
            BinaryExpressionOperator::StrictEquals => "===",
            BinaryExpressionOperator::StrictNotEquals => "!==",
            BinaryExpressionOperator::Less => "<",
            BinaryExpressionOperator::LessEquals => "<=",
            BinaryExpressionOperator::Greater => ">",
            BinaryExpressionOperator::GreaterEquals => ">=",
            BinaryExpressionOperator::LShift => "<<",
            BinaryExpressionOperator::RShift => ">>",
            BinaryExpressionOperator::RShift3 => ">>>",
            BinaryExpressionOperator::Plus => "+",
            BinaryExpressionOperator::Minus => "-",
            BinaryExpressionOperator::Mult => "*",
            BinaryExpressionOperator::Div => "/",
            BinaryExpressionOperator::Mod => "%",
            BinaryExpressionOperator::BitOr => "|",
            BinaryExpressionOperator::BitXor => "^",
            BinaryExpressionOperator::BitAnd => "&",
            BinaryExpressionOperator::Exp => "**",
            BinaryExpressionOperator::In => "in",
            BinaryExpressionOperator::Instanceof => "instanceof",
        }
    }

    /// Parse the textual form back into the enumeration; text that is
    /// the form of no value yields `TryFromStringError`.
    pub fn parse(value: &str) -> (r: Result<BinaryExpressionOperator, TryFromStringError>)
        ensures
            match r {
                Ok(op) => value@ == op.text(),
                Err(_) => forall|op: BinaryExpressionOperator| value@ != op.text(),
            },
    {
        if crate::atom_table::text_eq(value, "==") {
            Ok(BinaryExpressionOperator::LooseEquals)
        } else if crate::atom_table::text_eq(value, "!=") {
            Ok(BinaryExpressionOperator::LooseNotEquals)
        } else if crate::atom_table::text_eq(value, "===") {
            Ok(BinaryExpressionOperator::StrictEquals)
        } else if crate::atom_table::text_eq(value, "!==") {
            Ok(BinaryExpressionOperator::StrictNotEquals)
        } else if crate::atom_table::text_eq(value, "<") {
            Ok(BinaryExpressionOperator::Less)
        } else if crate::atom_table::text_eq(value, "<=") {
            Ok(BinaryExpressionOperator::LessEquals)
        } else if crate::atom_table::text_eq(value, ">") {
            Ok(BinaryExpressionOperator::Greater)
        } else if crate::atom_table::text_eq(value, ">=") {
            Ok(BinaryExpressionOperator::GreaterEquals)
        } else if crate::atom_table::text_eq(value, "<<") {
            Ok(BinaryExpressionOperator::LShift)
        } else if crate::atom_table::text_eq(value, ">>") {
            Ok(BinaryExpressionOperator::RShift)
        } else if crate::atom_table::text_eq(value, ">>>") {
            Ok(BinaryExpressionOperator::RShift3)
        } else if crate::atom_table::text_eq(value, "+") {
            Ok(BinaryExpressionOperator::Plus)
        } else if crate::atom_table::text_eq(value, "-") {
            Ok(BinaryExpressionOperator::Minus)
        } else if crate::atom_table::text_eq(value, "*") {
            Ok(BinaryExpressionOperator::Mult)
        } else if crate::atom_table::text_eq(value, "/") {
            Ok(BinaryExpressionOperator::Div)
        } else if crate::atom_table::text_eq(value, "%") {
            Ok(BinaryExpressionOperator::Mod)
        } else if crate::atom_table::text_eq(value, "|") {
            Ok(BinaryExpressionOperator::BitOr)
        } else if crate::atom_table::text_eq(value, "^") {
            Ok(BinaryExpressionOperator::BitXor)
        } else if crate::atom_table::text_eq(value, "&") {
            Ok(BinaryExpressionOperator::BitAnd)
        } else if crate::atom_table::text_eq(value, "**") {
            Ok(BinaryExpressionOperator::Exp)
        } else if crate::atom_table::text_eq(value, "in") {
            Ok(BinaryExpressionOperator::In)
        } else if crate::atom_table::text_eq(value, "instanceof") {
            Ok(BinaryExpressionOperator::Instanceof)
        } else {
            Err(TryFromStringError)
        }
    }
}

/// Operator of a logical expression.
#[derive(Clone, Copy, PartialEq, Eq, Structural, Debug, Hash)]
pub enum LogicalExpressionOperator {
    /// `&&`
    And,
    /// `||`
    Or,
    /// `??`
    NullishCoalesce,
}

impl LogicalExpressionOperator {
    /// The textual form of this value.
    pub open spec fn text(self) -> Seq<char> {
        match self {
            LogicalExpressionOperator::And => "&&"@,
            LogicalExpressionOperator::Or => "||"@,
            LogicalExpressionOperator::NullishCoalesce => "??"@,
        }
    }

    /// The textual form of this value.
    pub fn as_str(self) -> (r: &'static str)
        ensures
            r@ == self.text(),
    {
        match self {
            LogicalExpressionOperator::And => "&&",
            LogicalExpressionOperator::Or => "||",
            LogicalExpressionOperator::NullishCoalesce => "??",
        }
    }

    /// Parse the textual form back into the enumeration; text that is
    /// the form of no value yields `TryFromStringError`.
    pub fn parse(value: &str) -> (r: Result<LogicalExpressionOperator, TryFromStringError>)
        ensures
            match r {
                Ok(op) => value@ == op.text(),
                Err(_) => forall|op: LogicalExpressionOperator| value@ != op.text(),
            },
    {
        if crate::atom_table::text_eq(value, "&&") {
            Ok(LogicalExpressionOperator::And)
        } else if crate::atom_table::text_eq(value, "||") {
            Ok(LogicalExpressionOperator::Or)
        } else if crate::atom_table::text_eq(value, "??") {
            Ok(LogicalExpressionOperator::NullishCoalesce)
        } else {
            Err(TryFromStringError)
        }
    }
}

/// Operator of an update expression.
#[derive(Clone, Copy, PartialEq, Eq, Structural, Debug, Hash)]
pub enum UpdateExpressionOperator {
    /// `++`
    Increment,
    /// `--`
    Decrement,
}

impl UpdateExpressionOperator {
    /// The textual form of this value.
    pub open spec fn text(self) -> Seq<char> {
        match self {
            UpdateExpressionOperator::Increment => "++"@,
            UpdateExpressionOperator::Decrement => "--"@,
        }
    }

    /// The textual form of this value.
    pub fn as_str(self) -> (r: &'static str)
        ensures
            r@ == self.text(),
    {
        match self {
            UpdateExpressionOperator::Increment => "++",
            UpdateExpressionOperator::Decrement => "--",
        }
    }

    /// Parse the textual form back into the enumeration; text that is
    /// the form of no value yields `TryFromStringError`.
    pub fn parse(value: &str) -> (r: Result<UpdateExpressionOperator, TryFromStringError>)
        ensures
            match r {
                Ok(op) => value@ == op.text(),
                Err(_) => forall|op: UpdateExpressionOperator| value@ != op.text(),
            },
    {
        if crate::atom_table::text_eq(value, "++") {
            Ok(UpdateExpressionOperator::Increment)
        } else if crate::atom_table::text_eq(value, "--") {
            Ok(UpdateExpressionOperator::Decrement)
        } else {
            Err(TryFromStringError)
        }
    }
}

/// Operator of an assignment expression.
#[derive(Clone, Copy, PartialEq, Eq, Structural, Debug, Hash)]
pub enum AssignmentExpressionOperator {
    /// `=`
    Assign,
    /// `<<=`
    LShiftAssign,
    /// `>>=`
    RShiftAssign,
    /// `>>>=`
    RShift3Assign,
    /// `+=`
    PlusAssign,
    /// `-=`
    MinusAssign,
    /// `*=`
    MultAssign,
    /// `/=`
    DivAssign,
    /// `%=`
    ModAssign,
    /// `|=`
    BitOrAssign,
    /// `^=`
    BitXorAssign,
    /// `&=`
    BitAndAssign,
    /// `**=`
    ExpAssign,
    /// `||=`
    LogicalOrAssign,
    /// `&&=`
    LogicalAndAssign,
    /// `??=`
    NullishCoalesceAssign,
}

impl AssignmentExpressionOperator {
    /// The textual form of this value.
    pub open spec fn text(self) -> Seq<char> {
        match self {
            AssignmentExpressionOperator::Assign => "="@,
            AssignmentExpressionOperator::LShiftAssign => "<<="@,
            AssignmentExpressionOperator::RShiftAssign => ">>="@,
            AssignmentExpressionOperator::RShift3Assign => ">>>="@,
            AssignmentExpressionOperator::PlusAssign => "+="@,
            AssignmentExpressionOperator::MinusAssign => "-="@,
            AssignmentExpressionOperator::MultAssign => "*="@,
            AssignmentExpressionOperator::DivAssign => "/="@,
            AssignmentExpressionOperator::ModAssign => "%="@,
            AssignmentExpressionOperator::BitOrAssign => "|="@,
            AssignmentExpressionOperator::BitXorAssign => "^="@,
            AssignmentExpressionOperator::BitAndAssign => "&="@,
            AssignmentExpressionOperator::ExpAssign => "**="@,
            AssignmentExpressionOperator::LogicalOrAssign => "||="@,
            AssignmentExpressionOperator::LogicalAndAssign => "&&="@,
            AssignmentExpressionOperator::NullishCoalesceAssign => "??="@,
        }
    }

    /// The textual form of this value.
    pub fn as_str(self) -> (r: &'static str)
        ensures
            r@ == self.text(),
    {
        match self {
            AssignmentExpressionOperator::Assign => "=",
            AssignmentExpressionOperator::LShiftAssign => "<<=",
            AssignmentExpressionOperator::RShiftAssign => ">>=",
            AssignmentExpressionOperator::RShift3Assign => ">>>=",
            AssignmentExpressionOperator::PlusAssign => "+=",
            AssignmentExpressionOperator::MinusAssign => "-=",
            AssignmentExpressionOperator::MultAssign => "*=",
            AssignmentExpressionOperator::DivAssign => "/=",
            AssignmentExpressionOperator::ModAssign => "%=",
            AssignmentExpressionOperator::BitOrAssign => "|=",
            AssignmentExpressionOperator::BitXorAssign => "^=",
            AssignmentExpressionOperator::BitAndAssign => "&=",
            AssignmentExpressionOperator::ExpAssign => "**=",
            AssignmentExpressionOperator::LogicalOrAssign => "||=",
            AssignmentExpressionOperator::LogicalAndAssign => "&&=",
            AssignmentExpressionOperator::NullishCoalesceAssign => "??=",
        }
    }

    /// Parse the textual form back into the enumeration; text that is
    /// the form of no value yields `TryFromStringError`.
    pub fn parse(value: &str) -> (r: Result<AssignmentExpressionOperator, TryFromStringError>)
        ensures
            match r {
                Ok(op) => value@ == op.text(),
                Err(_) => forall|op: AssignmentExpressionOperator| value@ != op.text(),
            },
    {
        if crate::atom_table::text_eq(value, "=") {
            Ok(AssignmentExpressionOperator::Assign)
        } else if crate::atom_table::text_eq(value, "<<=") {
            Ok(AssignmentExpressionOperator::LShiftAssign)
        } else if crate::atom_table::text_eq(value, ">>=") {
            Ok(AssignmentExpressionOperator::RShiftAssign)
        } else if crate::atom_table::text_eq(value, ">>>=") {
            Ok(AssignmentExpressionOperator::RShift3Assign)
        } else if crate::atom_table::text_eq(value, "+=") {
            Ok(AssignmentExpressionOperator::PlusAssign)
        } else if crate::atom_table::text_eq(value, "-=") {
            Ok(AssignmentExpressionOperator::MinusAssign)
        } else if crate::atom_table::text_eq(value, "*=") {
            Ok(AssignmentExpressionOperator::MultAssign)
        } else if crate::atom_table::text_eq(value, "/=") {
            Ok(AssignmentExpressionOperator::DivAssign)
        } else if crate::atom_table::text_eq(value, "%=") {
            Ok(AssignmentExpressionOperator::ModAssign)
        } else if crate::atom_table::text_eq(value, "|=") {
            Ok(AssignmentExpressionOperator::BitOrAssign)
        } else if crate::atom_table::text_eq(value, "^=") {
            Ok(AssignmentExpressionOperator::BitXorAssign)
        } else if crate::atom_table::text_eq(value, "&=") {
            Ok(AssignmentExpressionOperator::BitAndAssign)
        } else if crate::atom_table::text_eq(value, "**=") {
            Ok(AssignmentExpressionOperator::ExpAssign)
        } else if crate::atom_table::text_eq(value, "||=") {
            Ok(AssignmentExpressionOperator::LogicalOrAssign)
        } else if crate::atom_table::text_eq(value, "&&=") {
            Ok(AssignmentExpressionOperator::LogicalAndAssign)
        } else if crate::atom_table::text_eq(value, "??=") {
            Ok(AssignmentExpressionOperator::NullishCoalesceAssign)
        } else {
            Err(TryFromStringError)
        }
    }
}

/// Kind of a variable declaration.
#[derive(Clone, Copy, PartialEq, Eq, Structural, Debug, Hash)]
pub enum VariableDeclarationKind {
    /// `var`
    Var,
    /// `let`
    Let,
    /// `const`
    Const,
}

impl VariableDeclarationKind {
    /// The textual form of this value.
    pub open spec fn text(self) -> Seq<char> {
        match self {
            VariableDeclarationKind::Var => "var"@,
            VariableDeclarationKind::Let => "let"@,
            VariableDeclarationKind::Const => "const"@,
        }
    }

    /// The textual form of this value.
    pub fn as_str(self) -> (r: &'static str)
        ensures
            r@ == self.text(),
    {
        match self {
            VariableDeclarationKind::Var => "var",
            VariableDeclarationKind::Let => "let",
            VariableDeclarationKind::Const => "const",
        }
    }

    /// Parse the textual form back into the enumeration; text that is
    /// the form of no value yields `TryFromStringError`.
    pub fn parse(value: &str) -> (r: Result<VariableDeclarationKind, TryFromStringError>)
        ensures
            match r {
                Ok(op) => value@ == op.text(),
                Err(_) => forall|op: VariableDeclarationKind| value@ != op.text(),
            },
    {
        if crate::atom_table::text_eq(value, "var") {
            Ok(VariableDeclarationKind::Var)
        } else if crate::atom_table::text_eq(value, "let") {
            Ok(VariableDeclarationKind::Let)
        } else if crate::atom_table::text_eq(value, "const") {
            Ok(VariableDeclarationKind::Const)
        } else {
            Err(TryFromStringError)
        }
    }
}

/// Kind of an object property.
#[derive(Clone, Copy, PartialEq, Eq, Structural, Debug, Hash)]
pub enum PropertyKind {
    /// `init`
    Init,
    /// `get`
    Get,
    /// `set`
    Setter,
}

impl PropertyKind {
    /// The textual form of this value.
    pub open spec fn text(self) -> Seq<char> {
        match self {
            PropertyKind::Init => "init"@,
            PropertyKind::Get => "get"@,
            PropertyKind::Setter => "set"@,
        }
    }

    /// The textual form of this value.
    pub fn as_str(self) -> (r: &'static str)
        ensures
            r@ == self.text(),
    {
        match self {
            PropertyKind::Init => "init",
            PropertyKind::Get => "get",
            PropertyKind::Setter => "set",
        }
    }

    /// Parse the textual form back into the enumeration; text that is
    /// the form of no value yields `TryFromStringError`.
    pub fn parse(value: &str) -> (r: Result<PropertyKind, TryFromStringError>)
        ensures
            match r {
                Ok(op) => value@ == op.text(),
                Err(_) => forall|op: PropertyKind| value@ != op.text(),
            },
    {
        if crate::atom_table::text_eq(value, "init") {
            Ok(PropertyKind::Init)
        } else if crate::atom_table::text_eq(value, "get") {
            Ok(PropertyKind::Get)
        } else if crate::atom_table::text_eq(value, "set") {
            Ok(PropertyKind::Setter)
        } else {
            Err(TryFromStringError)
        }
    }
}

/// Kind of a method definition.
#[derive(Clone, Copy, PartialEq, Eq, Structural, Debug, Hash)]
pub enum MethodDefinitionKind {
    /// `method`
    Method,
    /// `constructor`
    Constructor,
    /// `get`
    Get,
    /// `set`
    Setter,
}

impl MethodDefinitionKind {
    /// The textual form of this value.
    pub open spec fn text(self) -> Seq<char> {
        match self {
            MethodDefinitionKind::Method => "method"@,
            MethodDefinitionKind::Constructor => "constructor"@,
            MethodDefinitionKind::Get => "get"@,
            MethodDefinitionKind::Setter => "set"@,
        }
    }

    /// The textual form of this value.
    pub fn as_str(self) -> (r: &'static str)
        ensures
            r@ == self.text(),
    {
        match self {
            MethodDefinitionKind::Method => "method",
            MethodDefinitionKind::Constructor => "constructor",
            MethodDefinitionKind::Get => "get",
            MethodDefinitionKind::Setter => "set",
        }
    }

    /// Parse the textual form back into the enumeration; text that is
    /// the form of no value yields `TryFromStringError`.
    pub fn parse(value: &str) -> (r: Result<MethodDefinitionKind, TryFromStringError>)
        ensures
            match r {
                Ok(op) => value@ == op.text(),
                Err(_) => forall|op: MethodDefinitionKind| value@ != op.text(),
            },
    {
        if crate::atom_table::text_eq(value, "method") {
            Ok(MethodDefinitionKind::Method)
        } else if crate::atom_table::text_eq(value, "constructor") {
            Ok(MethodDefinitionKind::Constructor)
        } else if crate::atom_table::text_eq(value, "get") {
            Ok(MethodDefinitionKind::Get)
        } else if crate::atom_table::text_eq(value, "set") {
            Ok(MethodDefinitionKind::Setter)
        } else {
            Err(TryFromStringError)
        }
    }
}

/// Kind of an import specifier.
#[derive(Clone, Copy, PartialEq, Eq, Structural, Debug, Hash)]
pub enum ImportKind {
    /// `value`
    Value,
    /// `type`
    Type,
    /// `typeof`
    Typeof,
}

impl ImportKind {
    /// The textual form of this value.
    pub open spec fn text(self) -> Seq<char> {
        match self {
            ImportKind::Value => "value"@,
            ImportKind::Type => "type"@,
            ImportKind::Typeof => "typeof"@,
        }
    }

    /// The textual form of this value.
    pub fn as_str(self) -> (r: &'static str)
        ensures
            r@ == self.text(),
    {
        match self {
            ImportKind::Value => "value",
            ImportKind::Type => "type",
            ImportKind::Typeof => "typeof",
        }
    }

    /// Parse the textual form back into the enumeration; text that is
    /// the form of no value yields `TryFromStringError`.
    pub fn parse(value: &str) -> (r: Result<ImportKind, TryFromStringError>)
        ensures
            match r {
                Ok(op) => value@ == op.text(),
                Err(_) => forall|op: ImportKind| value@ != op.text(),
            },
    {
        if crate::atom_table::text_eq(value, "value") {
            Ok(ImportKind::Value)
        } else if crate::atom_table::text_eq(value, "type") {
            Ok(ImportKind::Type)
        } else if crate::atom_table::text_eq(value, "typeof") {
            Ok(ImportKind::Typeof)
        } else {
            Err(TryFromStringError)
        }
    }
}

/// Kind of an export declaration.
#[derive(Clone, Copy, PartialEq, Eq, Structural, Debug, Hash)]
pub enum ExportKind {
    /// `value`
    Value,
    /// `type`
    Type,
}

impl ExportKind {
    /// The textual form of this value.
    pub open spec fn text(self) -> Seq<char> {
        match self {
            ExportKind::Value => "value"@,
            ExportKind::Type => "type"@,
        }
    }

    /// The textual form of this value.
    pub fn as_str(self) -> (r: &'static str)
        ensures
            r@ == self.text(),
    {
        match self {
            ExportKind::Value => "value",
            ExportKind::Type => "type",
        }
    }

    /// Parse the textual form back into the enumeration; text that is
    /// the form of no value yields `TryFromStringError`.
    pub fn parse(value: &str) -> (r: Result<ExportKind, TryFromStringError>)
        ensures
            match r {
                Ok(op) => value@ == op.text(),
                Err(_) => forall|op: ExportKind| value@ != op.text(),
            },
    {
        if crate::atom_table::text_eq(value, "value") {
            Ok(ExportKind::Value)
        } else if crate::atom_table::text_eq(value, "type") {
            Ok(ExportKind::Type)
        } else {
            Err(TryFromStringError)
        }
    }
}


/// Each binary operator maps to its textual form alone: the mapping is
/// injective, and with [`BinaryExpressionOperator::parse`]'s contract it is
/// a bijection between the operators and their textual forms.
#[verifier::rlimit(80)]
pub proof fn lemma_binary_operator_text_injective(a: BinaryExpressionOperator, b: BinaryExpressionOperator)
    requires
        a.text() == b.text(),
    ensures
        a == b,
{
    reveal_strlit("==");
    reveal_strlit("!=");
    reveal_strlit("===");
    reveal_strlit("!==");
    reveal_strlit("<");
    reveal_strlit("<=");
    reveal_strlit(">");
    reveal_strlit(">=");
    reveal_strlit("<<");
    reveal_strlit(">>");
    reveal_strlit(">>>");
    reveal_strlit("+");
    reveal_strlit("-");
    reveal_strlit("*");
    reveal_strlit("/");
    reveal_strlit("%");
    reveal_strlit("|");
    reveal_strlit("^");
    reveal_strlit("&");
    reveal_strlit("**");
    reveal_strlit("in");
    reveal_strlit("instanceof");
    assert(("==")@.len() == 2);
    assert(("!=")@.len() == 2);
    assert(("===")@.len() == 3);
    assert(("!==")@.len() == 3);
    assert(("<")@.len() == 1);
    assert(("<=")@.len() == 2);
    assert((">")@.len() == 1);
    assert((">=")@.len() == 2);
    assert(("<<")@.len() == 2);
    assert((">>")@.len() == 2);
    assert((">>>")@.len() == 3);
    assert(("+")@.len() == 1);
    assert(("-")@.len() == 1);
    assert(("*")@.len() == 1);
    assert(("/")@.len() == 1);
    assert(("%")@.len() == 1);
    assert(("|")@.len() == 1);
    assert(("^")@.len() == 1);
    assert(("&")@.len() == 1);
    assert(("**")@.len() == 2);
    assert(("in")@.len() == 2);
    assert(("instanceof")@.len() == 10);
    assert(("==")@[0] != ("!=")@[0]);
    assert(("==")@[0] != ("<=")@[0]);
    assert(("==")@[0] != (">=")@[0]);
    assert(("==")@[0] != ("<<")@[0]);
    assert(("==")@[0] != (">>")@[0]);
    assert(("==")@[0] != ("**")@[0]);
    assert(("==")@[0] != ("in")@[0]);
    assert(("!=")@[0] != ("<=")@[0]);
    assert(("!=")@[0] != (">=")@[0]);
    assert(("!=")@[0] != ("<<")@[0]);
    assert(("!=")@[0] != (">>")@[0]);
    assert(("!=")@[0] != ("**")@[0]);
    assert(("!=")@[0] != ("in")@[0]);
    assert(("===")@[0] != ("!==")@[0]);
    assert(("===")@[0] != (">>>")@[0]);
    assert(("!==")@[0] != (">>>")@[0]);
    assert(("<")@[0] != (">")@[0]);
    assert(("<")@[0] != ("+")@[0]);
    assert(("<")@[0] != ("-")@[0]);
    assert(("<")@[0] != ("*")@[0]);
    assert(("<")@[0] != ("/")@[0]);
    assert(("<")@[0] != ("%")@[0]);
    assert(("<")@[0] != ("|")@[0]);
    assert(("<")@[0] != ("^")@[0]);
    assert(("<")@[0] != ("&")@[0]);
    assert(("<=")@[0] != (">=")@[0]);
    assert(("<=")@[1] != ("<<")@[1]);
    assert(("<=")@[0] != (">>")@[0]);
    assert(("<=")@[0] != ("**")@[0]);
    assert(("<=")@[0] != ("in")@[0]);
    assert((">")@[0] != ("+")@[0]);
    assert((">")@[0] != ("-")@[0]);
    assert((">")@[0] != ("*")@[0]);
    assert((">")@[0] != ("/")@[0]);
    assert((">")@[0] != ("%")@[0]);
    assert((">")@[0] != ("|")@[0]);
    assert((">")@[0] != ("^")@[0]);
    assert((">")@[0] != ("&")@[0]);
    assert((">=")@[0] != ("<<")@[0]);
    assert((">=")@[1] != (">>")@[1]);
    assert((">=")@[0] != ("**")@[0]);
    assert((">=")@[0] != ("in")@[0]);
    assert(("<<")@[0] != (">>")@[0]);
    assert(("<<")@[0] != ("**")@[0]);
    assert(("<<")@[0] != ("in")@[0]);
    assert((">>")@[0] != ("**")@[0]);
    assert((">>")@[0] != ("in")@[0]);
    assert(("+")@[0] != ("-")@[0]);
    assert(("+")@[0] != ("*")@[0]);
    assert(("+")@[0] != ("/")@[0]);
    assert(("+")@[0] != ("%")@[0]);
    assert(("+")@[0] != ("|")@[0]);
    assert(("+")@[0] != ("^")@[0]);
    assert(("+")@[0] != ("&")@[0]);
    assert(("-")@[0] != ("*")@[0]);
    assert(("-")@[0] != ("/")@[0]);
    assert(("-")@[0] != ("%")@[0]);
    assert(("-")@[0] != ("|")@[0]);
    assert(("-")@[0] != ("^")@[0]);
    assert(("-")@[0] != ("&")@[0]);
    assert(("*")@[0] != ("/")@[0]);
    assert(("*")@[0] != ("%")@[0]);
    assert(("*")@[0] != ("|")@[0]);
    assert(("*")@[0] != ("^")@[0]);
    assert(("*")@[0] != ("&")@[0]);
    assert(("/")@[0] != ("%")@[0]);
    assert(("/")@[0] != ("|")@[0]);
    assert(("/")@[0] != ("^")@[0]);
    assert(("/")@[0] != ("&")@[0]);
    assert(("%")@[0] != ("|")@[0]);
    assert(("%")@[0] != ("^")@[0]);
    assert(("%")@[0] != ("&")@[0]);
    assert(("|")@[0] != ("^")@[0]);
    assert(("|")@[0] != ("&")@[0]);
    assert(("^")@[0] != ("&")@[0]);
    assert(("**")@[0] != ("in")@[0]);
    match a {
        BinaryExpressionOperator::LooseEquals => {
            assert(b == BinaryExpressionOperator::LooseEquals);
        }
        BinaryExpressionOperator::LooseNotEquals => {
            assert(b == BinaryExpressionOperator::LooseNotEquals);
        }
        BinaryExpressionOperator::StrictEquals => {
            assert(b == BinaryExpressionOperator::StrictEquals);
        }
        BinaryExpressionOperator::StrictNotEquals => {
            assert(b == BinaryExpressionOperator::StrictNotEquals);
        }
        BinaryExpressionOperator::Less => {
            assert(b == BinaryExpressionOperator::Less);
        }
        BinaryExpressionOperator::LessEquals => {
            assert(b == BinaryExpressionOperator::LessEquals);
        }
        BinaryExpressionOperator::Greater => {
            assert(b == BinaryExpressionOperator::Greater);
        }
        BinaryExpressionOperator::GreaterEquals => {
            assert(b == BinaryExpressionOperator::GreaterEquals);
        }
        BinaryExpressionOperator::LShift => {
            assert(b == BinaryExpressionOperator::LShift);
        }
        BinaryExpressionOperator::RShift => {
            assert(b == BinaryExpressionOperator::RShift);
        }
        BinaryExpressionOperator::RShift3 => {
            assert(b == BinaryExpressionOperator::RShift3);
        }
        BinaryExpressionOperator::Plus => {
            assert(b == BinaryExpressionOperator::Plus);
        }
        BinaryExpressionOperator::Minus => {
            assert(b == BinaryExpressionOperator::Minus);
        }
        BinaryExpressionOperator::Mult => {
            assert(b == BinaryExpressionOperator::Mult);
        }
        BinaryExpressionOperator::Div => {
            assert(b == BinaryExpressionOperator::Div);
        }
        BinaryExpressionOperator::Mod => {
            assert(b == BinaryExpressionOperator::Mod);
        }
        BinaryExpressionOperator::BitOr => {
            assert(b == BinaryExpressionOperator::BitOr);
        }
        BinaryExpressionOperator::BitXor => {
            assert(b == BinaryExpressionOperator::BitXor);
        }
        BinaryExpressionOperator::BitAnd => {
            assert(b == BinaryExpressionOperator::BitAnd);
        }
        BinaryExpressionOperator::Exp => {
            assert(b == BinaryExpressionOperator::Exp);
        }
        BinaryExpressionOperator::In => {
            assert(b == BinaryExpressionOperator::In);
        }
        BinaryExpressionOperator::Instanceof => {
            assert(b == BinaryExpressionOperator::Instanceof);
        }
    }
}


/// The textual forms of this enumeration name one value each: with
/// `parse`'s contract the mapping to text is a bijection.
#[verifier::rlimit(60)]
pub proof fn lemma_unary_operator_text_injective(a: UnaryExpressionOperator, b: UnaryExpressionOperator)
    requires
        a.text() == b.text(),
    ensures
        a == b,
{
    reveal_strlit("delete");
    reveal_strlit("void");
    reveal_strlit("typeof");
    reveal_strlit("+");
    reveal_strlit("-");
    reveal_strlit("~");
    reveal_strlit("!");
    assert(("delete")@.len() == 6);
    assert(("void")@.len() == 4);
    assert(("typeof")@.len() == 6);
    assert(("+")@.len() == 1);
    assert(("-")@.len() == 1);
    assert(("~")@.len() == 1);
    assert(("!")@.len() == 1);
    assert(("delete")@[0] != ("typeof")@[0]);
    assert(("+")@[0] != ("-")@[0]);
    assert(("+")@[0] != ("~")@[0]);
    assert(("+")@[0] != ("!")@[0]);
    assert(("-")@[0] != ("~")@[0]);
    assert(("-")@[0] != ("!")@[0]);
    assert(("~")@[0] != ("!")@[0]);
    match a {
        UnaryExpressionOperator::Delete => {
            assert(b == UnaryExpressionOperator::Delete);
        }
        UnaryExpressionOperator::Void => {
            assert(b == UnaryExpressionOperator::Void);
        }
        UnaryExpressionOperator::Typeof => {
            assert(b == UnaryExpressionOperator::Typeof);
        }
        UnaryExpressionOperator::Plus => {
            assert(b == UnaryExpressionOperator::Plus);
        }
        UnaryExpressionOperator::Minus => {
            assert(b == UnaryExpressionOperator::Minus);
        }
        UnaryExpressionOperator::BitNot => {
            assert(b == UnaryExpressionOperator::BitNot);
        }
        UnaryExpressionOperator::Not => {
            assert(b == UnaryExpressionOperator::Not);
        }
    }
}


/// The textual forms of this enumeration name one value each: with
/// `parse`'s contract the mapping to text is a bijection.
#[verifier::rlimit(60)]
pub proof fn lemma_logical_operator_text_injective(a: LogicalExpressionOperator, b: LogicalExpressionOperator)
    requires
        a.text() == b.text(),
    ensures
        a == b,
{
    reveal_strlit("&&");
    reveal_strlit("||");
    reveal_strlit("??");
    assert(("&&")@.len() == 2);
    assert(("||")@.len() == 2);
    assert(("??")@.len() == 2);
    assert(("&&")@[0] != ("||")@[0]);
    assert(("&&")@[0] != ("??")@[0]);
    assert(("||")@[0] != ("??")@[0]);
    match a {
        LogicalExpressionOperator::And => {
            assert(b == LogicalExpressionOperator::And);
        }
        LogicalExpressionOperator::Or => {
            assert(b == LogicalExpressionOperator::Or);
        }
        LogicalExpressionOperator::NullishCoalesce => {
            assert(b == LogicalExpressionOperator::NullishCoalesce);
        }
    }
}


/// The textual forms of this enumeration name one value each: with
/// `parse`'s contract the mapping to text is a bijection.
#[verifier::rlimit(60)]
pub proof fn lemma_update_operator_text_injective(a: UpdateExpressionOperator, b: UpdateExpressionOperator)
    requires
        a.text() == b.text(),
    ensures
        a == b,
{
    reveal_strlit("++");
    reveal_strlit("--");
    assert(("++")@.len() == 2);
    assert(("--")@.len() == 2);
    assert(("++")@[0] != ("--")@[0]);
    match a {
        UpdateExpressionOperator::Increment => {
            assert(b == UpdateExpressionOperator::Increment);
        }
        UpdateExpressionOperator::Decrement => {
            assert(b == UpdateExpressionOperator::Decrement);
        }
    }
}


/// The textual forms of this enumeration name one value each: with
/// `parse`'s contract the mapping to text is a bijection.
#[verifier::rlimit(60)]
pub proof fn lemma_assignment_operator_text_injective(a: AssignmentExpressionOperator, b: AssignmentExpressionOperator)
    requires
        a.text() == b.text(),
    ensures
        a == b,
{
    reveal_strlit("=");
    reveal_strlit("<<=");
    reveal_strlit(">>=");
    reveal_strlit(">>>=");
    reveal_strlit("+=");
    reveal_strlit("-=");
    reveal_strlit("*=");
    reveal_strlit("/=");
    reveal_strlit("%=");
    reveal_strlit("|=");
    reveal_strlit("^=");
    reveal_strlit("&=");
    reveal_strlit("**=");
    reveal_strlit("||=");
    reveal_strlit("&&=");
    reveal_strlit("??=");
    assert(("=")@.len() == 1);
    assert(("<<=")@.len() == 3);
    assert((">>=")@.len() == 3);
    assert((">>>=")@.len() == 4);
    assert(("+=")@.len() == 2);
    assert(("-=")@.len() == 2);
    assert(("*=")@.len() == 2);
    assert(("/=")@.len() == 2);
    assert(("%=")@.len() == 2);
    assert(("|=")@.len() == 2);
    assert(("^=")@.len() == 2);
    assert(("&=")@.len() == 2);
    assert(("**=")@.len() == 3);
    assert(("||=")@.len() == 3);
    assert(("&&=")@.len() == 3);
    assert(("??=")@.len() == 3);
    assert(("<<=")@[0] != (">>=")@[0]);
    assert(("<<=")@[0] != ("**=")@[0]);
    assert(("<<=")@[0] != ("||=")@[0]);
    assert(("<<=")@[0] != ("&&=")@[0]);
    assert(("<<=")@[0] != ("??=")@[0]);
    assert((">>=")@[0] != ("**=")@[0]);
    assert((">>=")@[0] != ("||=")@[0]);
    assert((">>=")@[0] != ("&&=")@[0]);
    assert((">>=")@[0] != ("??=")@[0]);
    assert(("+=")@[0] != ("-=")@[0]);
    assert(("+=")@[0] != ("*=")@[0]);
    assert(("+=")@[0] != ("/=")@[0]);
    assert(("+=")@[0] != ("%=")@[0]);
    assert(("+=")@[0] != ("|=")@[0]);
    assert(("+=")@[0] != ("^=")@[0]);
    assert(("+=")@[0] != ("&=")@[0]);
    assert(("-=")@[0] != ("*=")@[0]);
    assert(("-=")@[0] != ("/=")@[0]);
    assert(("-=")@[0] != ("%=")@[0]);
    assert(("-=")@[0] != ("|=")@[0]);
    assert(("-=")@[0] != ("^=")@[0]);
    assert(("-=")@[0] != ("&=")@[0]);
    assert(("*=")@[0] != ("/=")@[0]);
    assert(("*=")@[0] != ("%=")@[0]);
    assert(("*=")@[0] != ("|=")@[0]);
    assert(("*=")@[0] != ("^=")@[0]);
    assert(("*=")@[0] != ("&=")@[0]);
    assert(("/=")@[0] != ("%=")@[0]);
    assert(("/=")@[0] != ("|=")@[0]);
    assert(("/=")@[0] != ("^=")@[0]);
    assert(("/=")@[0] != ("&=")@[0]);
    assert(("%=")@[0] != ("|=")@[0]);
    assert(("%=")@[0] != ("^=")@[0]);
    assert(("%=")@[0] != ("&=")@[0]);
    assert(("|=")@[0] != ("^=")@[0]);
    assert(("|=")@[0] != ("&=")@[0]);
    assert(("^=")@[0] != ("&=")@[0]);
    assert(("**=")@[0] != ("||=")@[0]);
    assert(("**=")@[0] != ("&&=")@[0]);
    assert(("**=")@[0] != ("??=")@[0]);
    assert(("||=")@[0] != ("&&=")@[0]);
    assert(("||=")@[0] != ("??=")@[0]);
    assert(("&&=")@[0] != ("??=")@[0]);
    match a {
        AssignmentExpressionOperator::Assign => {
            assert(b == AssignmentExpressionOperator::Assign);
        }
        AssignmentExpressionOperator::LShiftAssign => {
            assert(b == AssignmentExpressionOperator::LShiftAssign);
        }
        AssignmentExpressionOperator::RShiftAssign => {
            assert(b == AssignmentExpressionOperator::RShiftAssign);
        }
        AssignmentExpressionOperator::RShift3Assign => {
            assert(b == AssignmentExpressionOperator::RShift3Assign);
        }
        AssignmentExpressionOperator::PlusAssign => {
            assert(b == AssignmentExpressionOperator::PlusAssign);
        }
        AssignmentExpressionOperator::MinusAssign => {
            assert(b == AssignmentExpressionOperator::MinusAssign);
        }
        AssignmentExpressionOperator::MultAssign => {
            assert(b == AssignmentExpressionOperator::MultAssign);
        }
        AssignmentExpressionOperator::DivAssign => {
            assert(b == AssignmentExpressionOperator::DivAssign);
        }
        AssignmentExpressionOperator::ModAssign => {
            assert(b == AssignmentExpressionOperator::ModAssign);
        }
        AssignmentExpressionOperator::BitOrAssign => {
            assert(b == AssignmentExpressionOperator::BitOrAssign);
        }
        AssignmentExpressionOperator::BitXorAssign => {
            assert(b == AssignmentExpressionOperator::BitXorAssign);
        }
        AssignmentExpressionOperator::BitAndAssign => {
            assert(b == AssignmentExpressionOperator::BitAndAssign);
        }
        AssignmentExpressionOperator::ExpAssign => {
            assert(b == AssignmentExpressionOperator::ExpAssign);
        }
        AssignmentExpressionOperator::LogicalOrAssign => {
            assert(b == AssignmentExpressionOperator::LogicalOrAssign);
        }
        AssignmentExpressionOperator::LogicalAndAssign => {
            assert(b == AssignmentExpressionOperator::LogicalAndAssign);
        }
        AssignmentExpressionOperator::NullishCoalesceAssign => {
            assert(b == AssignmentExpressionOperator::NullishCoalesceAssign);
        }
    }
}


/// The textual forms of this enumeration name one value each: with
/// `parse`'s contract the mapping to text is a bijection.
#[verifier::rlimit(60)]
pub proof fn lemma_variable_declaration_kind_text_injective(a: VariableDeclarationKind, b: VariableDeclarationKind)
    requires
        a.text() == b.text(),
    ensures
        a == b,
{
    reveal_strlit("var");
    reveal_strlit("let");
    reveal_strlit("const");
    assert(("var")@.len() == 3);
    assert(("let")@.len() == 3);
    assert(("const")@.len() == 5);
    assert(("var")@[0] != ("let")@[0]);
    match a {
        VariableDeclarationKind::Var => {
            assert(b == VariableDeclarationKind::Var);
        }
        VariableDeclarationKind::Let => {
            assert(b == VariableDeclarationKind::Let);
        }
        VariableDeclarationKind::Const => {
            assert(b == VariableDeclarationKind::Const);
        }
    }
}


/// The textual forms of this enumeration name one value each: with
/// `parse`'s contract the mapping to text is a bijection.
#[verifier::rlimit(60)]
pub proof fn lemma_property_kind_text_injective(a: PropertyKind, b: PropertyKind)
    requires
        a.text() == b.text(),
    ensures
        a == b,
{
    reveal_strlit("init");
    reveal_strlit("get");
    reveal_strlit("set");
    assert(("init")@.len() == 4);
    assert(("get")@.len() == 3);
    assert(("set")@.len() == 3);
    assert(("get")@[0] != ("set")@[0]);
    match a {
        PropertyKind::Init => {
            assert(b == PropertyKind::Init);
        }
        PropertyKind::Get => {
            assert(b == PropertyKind::Get);
        }
        PropertyKind::Setter => {
            assert(b == PropertyKind::Setter);
        }
    }
}


/// The textual forms of this enumeration name one value each: with
/// `parse`'s contract the mapping to text is a bijection.
#[verifier::rlimit(60)]
pub proof fn lemma_method_definition_kind_text_injective(a: MethodDefinitionKind, b: MethodDefinitionKind)
    requires
        a.text() == b.text(),
    ensures
        a == b,
{
    reveal_strlit("method");
    reveal_strlit("constructor");
    reveal_strlit("get");
    reveal_strlit("set");
    assert(("method")@.len() == 6);
    assert(("constructor")@.len() == 11);
    assert(("get")@.len() == 3);
    assert(("set")@.len() == 3);
    assert(("get")@[0] != ("set")@[0]);
    match a {
        MethodDefinitionKind::Method => {
            assert(b == MethodDefinitionKind::Method);
        }
        MethodDefinitionKind::Constructor => {
            assert(b == MethodDefinitionKind::Constructor);
        }
        MethodDefinitionKind::Get => {
            assert(b == MethodDefinitionKind::Get);
        }
        MethodDefinitionKind::Setter => {
            assert(b == MethodDefinitionKind::Setter);
        }
    }
}


/// The textual forms of this enumeration name one value each: with
/// `parse`'s contract the mapping to text is a bijection.
#[verifier::rlimit(60)]
pub proof fn lemma_import_kind_text_injective(a: ImportKind, b: ImportKind)
    requires
        a.text() == b.text(),
    ensures
        a == b,
{
    reveal_strlit("value");
    reveal_strlit("type");
    reveal_strlit("typeof");
    assert(("value")@.len() == 5);
    assert(("type")@.len() == 4);
    assert(("typeof")@.len() == 6);

    match a {
        ImportKind::Value => {
            assert(b == ImportKind::Value);
        }
        ImportKind::Type => {
            assert(b == ImportKind::Type);
        }
        ImportKind::Typeof => {
            assert(b == ImportKind::Typeof);
        }
    }
}


/// The textual forms of this enumeration name one value each: with
/// `parse`'s contract the mapping to text is a bijection.
#[verifier::rlimit(60)]
pub proof fn lemma_export_kind_text_injective(a: ExportKind, b: ExportKind)
    requires
        a.text() == b.text(),
    ensures
        a == b,
{
    reveal_strlit("value");
    reveal_strlit("type");
    assert(("value")@.len() == 5);
    assert(("type")@.len() == 4);

    match a {
        ExportKind::Value => {
            assert(b == ExportKind::Value);
        }
        ExportKind::Type => {
            assert(b == ExportKind::Type);
        }
    }
}

} // verus!
