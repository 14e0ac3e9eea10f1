use vstd::prelude::*;

verus! {

/// A module's header: its name and what it exposes.
#[derive(Debug)]
pub struct ModuleDecl {
    pub name: String,
    pub exposures: Vec<Exposure>,
}

/// A name that a module exposes, and how.
#[derive(Debug)]
pub struct Exposure {
    pub name: String,
    pub exposure_type: ExposureType,
}

/// How a module exposes a name.
#[derive(Debug)]
pub enum ExposureType {
    Endpoint,
}

/// A type declaration: its name and fields.
#[derive(Debug)]
pub struct TypeDecl {
    pub name: String,
    pub fields: Vec<Field>,
}

/// A field of a declared type.
#[derive(Debug)]
pub struct Field {
    pub name: String,
    pub field_type: Type,
}

/// A type: a name with generic arguments, or a function type.
#[derive(Debug)]
pub enum Type {
    Identifier(String, Vec<Type>),
    Function { transactional: bool, parameters: Vec<Type>, return_type: Option<Box<Type>> },
}

/// An import, with the alias it is known by.
#[derive(Debug)]
pub struct ImportDecl {
    pub name: String,
    pub alias: Option<String>,
}

/// A parameter of a function.
#[derive(Debug)]
pub struct Parameter {
    pub name: String,
    pub param_type: Type,
}

/// The binary operators.
#[derive(Debug)]
pub enum BinaryOperator {
    Or,
    And,
    Equal,
    NotEqual,
    Greater,
    GreaterEqual,
    Less,
    LessEqual,
    Add,
    Subtract,
    Multiply,
    Divide,
    Modulo,
}

/// The unary operators.
#[derive(Debug)]
pub enum UnaryOperator {
    Not,
    Negate,
}

} // verus!
