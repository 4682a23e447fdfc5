//! A recursive-descent parser for assignable expressions (net and variable
//! lvalues) and attribute instances of a hardware description language.
//!
//! Every production works on a byte buffer and a cursor (an offset into it).
//! On success it returns the cursor after the production together with the
//! node; on failure it returns an error that carries the untouched cursor.
//! Nodes refer to the buffer by spans instead of copying text.
pub mod lexical;
pub mod operands;
pub mod lvalues;
pub mod attributes;

pub use lexical::{ParseError, Span, Identifier, identifier, symbol1, symbol2, unsigned_number};
pub use operands::{
    ConstantExpression, PackageScope, HierarchicalIdentifier, Select, constant_expression,
    package_scope, opt_package_scope, hierarchical_identifier, select, nonrange_select,
    StreamOperator, StreamingConcatenation, streaming_concatenation,
};
pub use lvalues::{
    NetLvalue, NetLvalueIdentifier, NetLvaluePattern, net_lvalue, net_lvalue_identifier,
    net_lvalue_lvalue, net_lvalue_pattern,
};
pub use lvalues::{
    VariableLvalue, VariableLvalueIdentifier, VariableLvaluePattern, NonrangeVariableLvalue,
    variable_lvalue, variable_lvalue_identifier, variable_lvalue_lvalue, variable_lvalue_pattern,
    nonrange_variable_lvalue,
};
pub use attributes::{AttributeInstance, AttrSpec, attribute_instance, attr_spec};
