//! The kinds of syntax nodes that the printer tells apart.
use vstd::prelude::*;

use crate::text::same;

verus! {

/// A kind of syntax node.
#[derive(Clone, Copy, PartialEq, Eq, Structural, Debug)]
pub enum Kind {
    /// A node that the grammar names `file_version`.
    FileVersion,
    /// A node that the grammar names `plugin`.
    Plugin,
    /// A node that the grammar names `comment`.
    Comment,
    /// A node that the grammar names `dtsi_include`.
    DtsiInclude,
    /// A node that the grammar names `preproc_include`.
    PreprocInclude,
    /// A node that the grammar names `preproc_def`.
    PreprocDef,
    /// A node that the grammar names `preproc_function_def`.
    PreprocFunctionDef,
    /// A node that the grammar names `preproc_ifdef`.
    PreprocIfdef,
    /// A node that the grammar names `identifier`.
    Identifier,
    /// A node that the grammar names `string_literal`.
    StringLiteral,
    /// A node that the grammar names `unit_address`.
    UnitAddress,
    /// A node that the grammar names `path`.
    Path,
    /// A node that the grammar names `reference`.
    Reference,
    /// A node that the grammar names `node`.
    Node,
    /// A node that the grammar names `property`.
    Property,
    /// A node that the grammar names `delete_node`.
    DeleteNode,
    /// A node that the grammar names `delete_property`.
    DeleteProperty,
    /// A node that the grammar names `byte_string_literal`.
    ByteStringLiteral,
    /// A node that the grammar names `integer_cells`.
    IntegerCells,
    /// The token `@`.
    At,
    /// The token `&`.
    Ampersand,
    /// The token `&{`.
    PathOpen,
    /// The token `}`.
    BraceClose,
    /// The token `{`.
    BraceOpen,
    /// The token `:`.
    Colon,
    /// The token `;`.
    Semicolon,
    /// The token `,`.
    Comma,
    /// The token `=`.
    Equals,
    /// The token `/delete-node/`.
    DeleteNodeWord,
    /// The token `/delete-property/`.
    DeletePropertyWord,
    /// The token `>`.
    AngleClose,
    /// A node that the printer has no rule for.
    Other,
}

/// The kind that a name in the grammar stands for.
pub open spec fn kind_of(name: Seq<char>) -> Kind {
    if name == "file_version"@ {
        Kind::FileVersion
    } else if name == "plugin"@ {
        Kind::Plugin
    } else if name == "comment"@ {
        Kind::Comment
    } else if name == "dtsi_include"@ {
        Kind::DtsiInclude
    } else if name == "preproc_include"@ {
        Kind::PreprocInclude
    } else if name == "preproc_def"@ {
        Kind::PreprocDef
    } else if name == "preproc_function_def"@ {
        Kind::PreprocFunctionDef
    } else if name == "preproc_ifdef"@ {
        Kind::PreprocIfdef
    } else if name == "identifier"@ {
        Kind::Identifier
    } else if name == "string_literal"@ {
        Kind::StringLiteral
    } else if name == "unit_address"@ {
        Kind::UnitAddress
    } else if name == "path"@ {
        Kind::Path
    } else if name == "reference"@ {
        Kind::Reference
    } else if name == "node"@ {
        Kind::Node
    } else if name == "property"@ {
        Kind::Property
    } else if name == "delete_node"@ {
        Kind::DeleteNode
    } else if name == "delete_property"@ {
        Kind::DeleteProperty
    } else if name == "byte_string_literal"@ {
        Kind::ByteStringLiteral
    } else if name == "integer_cells"@ {
        Kind::IntegerCells
    } else if name == "@"@ {
        Kind::At
    } else if name == "&"@ {
        Kind::Ampersand
    } else if name == "&{"@ {
        Kind::PathOpen
    } else if name == "}"@ {
        Kind::BraceClose
    } else if name == "{"@ {
        Kind::BraceOpen
    } else if name == ":"@ {
        Kind::Colon
    } else if name == ";"@ {
        Kind::Semicolon
    } else if name == ","@ {
        Kind::Comma
    } else if name == "="@ {
        Kind::Equals
    } else if name == "/delete-node/"@ {
        Kind::DeleteNodeWord
    } else if name == "/delete-property/"@ {
        Kind::DeletePropertyWord
    } else if name == ">"@ {
        Kind::AngleClose
    } else {
        Kind::Other
    }
}

/// Tells which kind a name in the grammar stands for.
pub fn classify(name: &str) -> (kind: Kind)
    ensures
        kind == kind_of(name@),
{
    if same(name, "file_version") {
        Kind::FileVersion
    } else if same(name, "plugin") {
        Kind::Plugin
    } else if same(name, "comment") {
        Kind::Comment
    } else if same(name, "dtsi_include") {
        Kind::DtsiInclude
    } else if same(name, "preproc_include") {
        Kind::PreprocInclude
    } else if same(name, "preproc_def") {
        Kind::PreprocDef
    } else if same(name, "preproc_function_def") {
        Kind::PreprocFunctionDef
    } else if same(name, "preproc_ifdef") {
        Kind::PreprocIfdef
    } else if same(name, "identifier") {
        Kind::Identifier
    } else if same(name, "string_literal") {
        Kind::StringLiteral
    } else if same(name, "unit_address") {
        Kind::UnitAddress
    } else if same(name, "path") {
        Kind::Path
    } else if same(name, "reference") {
        Kind::Reference
    } else if same(name, "node") {
        Kind::Node
    } else if same(name, "property") {
        Kind::Property
    } else if same(name, "delete_node") {
        Kind::DeleteNode
    } else if same(name, "delete_property") {
        Kind::DeleteProperty
    } else if same(name, "byte_string_literal") {
        Kind::ByteStringLiteral
    } else if same(name, "integer_cells") {
        Kind::IntegerCells
    } else if same(name, "@") {
        Kind::At
    } else if same(name, "&") {
        Kind::Ampersand
    } else if same(name, "&{") {
        Kind::PathOpen
    } else if same(name, "}") {
        Kind::BraceClose
    } else if same(name, "{") {
        Kind::BraceOpen
    } else if same(name, ":") {
        Kind::Colon
    } else if same(name, ";") {
        Kind::Semicolon
    } else if same(name, ",") {
        Kind::Comma
    } else if same(name, "=") {
        Kind::Equals
    } else if same(name, "/delete-node/") {
        Kind::DeleteNodeWord
    } else if same(name, "/delete-property/") {
        Kind::DeletePropertyWord
    } else if same(name, ">") {
        Kind::AngleClose
    } else {
        Kind::Other
    }
}

/// The kinds of the preprocessor directives that stand together without
/// blank lines between them.
pub open spec fn is_preproc_kind(kind: Kind) -> bool {
    kind == Kind::PreprocInclude || kind == Kind::PreprocIfdef || kind == Kind::PreprocDef || kind
        == Kind::PreprocFunctionDef
}

/// Whether a node of this kind is a preprocessor directive.
pub fn is_preproc(kind: Kind) -> (r: bool)
    ensures
        r == is_preproc_kind(kind),
{
    kind == Kind::PreprocInclude || kind == Kind::PreprocIfdef || kind == Kind::PreprocDef || kind
        == Kind::PreprocFunctionDef
}

} // verus!
