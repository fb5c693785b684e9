//! What declaration gathering reads from a parsed file: its global objects,
//! their template parameters, and the globals their bodies mention.
use crate::file_position::{BracketSpan, Span};
use crate::template::TypedValue;
use vstd::prelude::*;

verus! {

#[derive(Clone, Copy, Debug, PartialEq, Eq, Structural)]
pub enum GlobalObjectKind {
    Module,
    Struct,
    Constant,
}

/// The kind of global that a use site asks for.
#[derive(Clone, Copy, Debug, PartialEq, Eq, Structural)]
pub enum GlobalKind {
    Module,
    Type,
    Constant,
    /// The type of a declaration: a type, or a module to instantiate.
    TypeOrModule,
}

/// A declared template parameter: a type parameter, or a value parameter with its declaration.
#[derive(Clone, Copy, Debug)]
pub struct TemplateInputSyntax {
    pub name_span: Span,
    pub generative_decl_span: Option<Span>,
}

#[derive(Clone, Copy, Debug)]
pub enum TemplateArgValueSyntax {
    /// The span of a type's name.
    Type(Span),
    Value(TypedValue),
}

#[derive(Clone, Copy, Debug)]
pub struct TemplateArgSyntax {
    pub name_span: Span,
    pub value_span: Span,
    pub value: TemplateArgValueSyntax,
}

/// A mention of a global by name, with its template argument slots in parameter order.
#[derive(Clone, Debug)]
pub struct ReferenceSyntax {
    pub name_span: Span,
    pub expected: GlobalKind,
    pub template_args: Vec<Option<TemplateArgSyntax>>,
    pub template_span: Option<BracketSpan>,
}

#[derive(Clone, Debug)]
pub struct GlobalObjectSyntax {
    pub kind: GlobalObjectKind,
    pub name_span: Span,
    pub template_inputs: Vec<TemplateInputSyntax>,
    pub references: Vec<ReferenceSyntax>,
}

/// The global objects of one file, and the places where the parser found no valid syntax.
#[derive(Clone, Debug)]
pub struct ParsedFile {
    pub objects: Vec<GlobalObjectSyntax>,
    pub syntax_errors: Vec<Span>,
}

pub open spec fn template_arg_fits(a: TemplateArgSyntax, len: nat) -> bool {
    &&& a.name_span.fits(len)
    &&& a.value_span.fits(len)
    &&& (a.value matches TemplateArgValueSyntax::Type(s) ==> s.fits(len))
}

pub open spec fn reference_fits(r: ReferenceSyntax, len: nat) -> bool {
    &&& r.name_span.fits(len)
    &&& forall|i: int|
        0 <= i < r.template_args@.len() ==> (#[trigger] r.template_args@[i] matches Some(a)
            ==> template_arg_fits(a, len))
}

pub open spec fn object_fits(o: GlobalObjectSyntax, len: nat) -> bool {
    &&& o.name_span.fits(len)
    &&& forall|i: int| 0 <= i < o.template_inputs@.len() ==> (#[trigger] o.template_inputs@[i]).name_span.fits(len)
    &&& forall|i: int| 0 <= i < o.references@.len() ==> reference_fits(#[trigger] o.references@[i], len)
}

impl ParsedFile {
    /// Every span of the file lies within a text of `len` characters.
    pub open spec fn fits(&self, len: nat) -> bool {
        forall|i: int| 0 <= i < self.objects@.len() ==> object_fits(#[trigger] self.objects@[i], len)
    }
}

} // verus!
