//! Declared template parameters, use-site template arguments, and their validation.
use crate::errors::{ErrorCollector, ErrorInfo, InfoView, error_info, infos_view};
use crate::file_position::{BracketSpan, Span};
use crate::linker::{LinkInfo, NamedUUID, full_name};
use vstd::prelude::*;

verus! {

/// A value known at compile time.
#[derive(Clone, Copy, Debug, PartialEq, Eq, Structural)]
pub enum TypedValue {
    Bool(bool),
    Integer(i64),
}

/// A type after instantiation: a named global type.
#[derive(Clone, Copy, Debug)]
pub enum ConcreteType {
    Named(NamedUUID),
}

/// A type as written at a use site, after name resolution.
#[derive(Clone, Copy, Debug)]
pub enum WrittenType {
    /// The name did not resolve to a type.
    Error(Span),
    Named(Span, NamedUUID),
}

/// What type checking inferred for one template argument.
#[derive(Clone, Copy, Debug)]
pub enum AbstractType {
    Unknown,
    Named(NamedUUID),
}

/// A use-site mention of a global, with its template arguments aligned to the target's parameters.
pub struct GlobalReference<ID> {
    pub name_span: Span,
    pub id: ID,
    /// One slot per declared parameter of the target; `None` where none was written.
    pub template_args: Vec<Option<TemplateArg>>,
    /// After type checking: one inferred type per slot.
    pub template_arg_types: Vec<AbstractType>,
    pub template_span: Option<BracketSpan>,
}

impl<ID> GlobalReference<ID> {
    pub open spec fn spec_total_span(&self) -> Span {
        match self.template_span {
            Some(t) => Span::spec_overarching(self.name_span, t.outer),
            None => self.name_span,
        }
    }

    /// The span of the name together with its template argument list, if any.
    pub fn get_total_span(&self) -> (r: Span)
        ensures
            r == self.spec_total_span(),
    {
        let mut result = self.name_span;
        if let Some(template_span) = self.template_span {
            result = Span::new_overarching(result, template_span.outer_span());
        }
        result
    }
}

/// A declared template parameter.
pub struct TemplateInput {
    pub name: String,
    pub name_span: Span,
    pub kind: TemplateInputKind,
}

/// The declaration of a value parameter.
#[derive(Clone, Copy, Debug)]
pub struct GenerativeTemplateInputKind {
    pub decl_span: Span,
    /// Position of the declaration among the entity's own declarations.
    pub declaration_instruction: usize,
}

#[derive(Clone, Copy, Debug)]
pub struct TypeTemplateInputKind {}

#[derive(Clone, Copy, Debug)]
pub enum TemplateInputKind {
    Type(TypeTemplateInputKind),
    Generative(GenerativeTemplateInputKind),
}

impl TemplateInputKind {
    pub fn unwrap_type(&self) -> (r: &TypeTemplateInputKind)
        requires
            self is Type,
        ensures
            *r == self->Type_0,
    {
        match self {
            TemplateInputKind::Type(t) => t,
            TemplateInputKind::Generative(_) => unreached(),
        }
    }

    pub fn unwrap_value(&self) -> (r: &GenerativeTemplateInputKind)
        requires
            self is Generative,
        ensures
            *r == self->Generative_0,
    {
        match self {
            TemplateInputKind::Generative(v) => v,
            TemplateInputKind::Type(_) => unreached(),
        }
    }
}

/// A template argument as written at a use site.
#[derive(Clone, Copy, Debug)]
pub struct TemplateArg {
    pub name_span: Span,
    pub value_span: Span,
    pub kind: TemplateArgKind,
}

#[derive(Clone, Copy, Debug)]
pub enum TemplateArgKind {
    Type(WrittenType),
    Value(TypedValue),
}

impl TemplateArgKind {
    pub fn unwrap_type(&self) -> (r: &WrittenType)
        requires
            self is Type,
        ensures
            *r == self->Type_0,
    {
        match self {
            TemplateArgKind::Type(t) => t,
            TemplateArgKind::Value(_) => unreached(),
        }
    }

    pub fn unwrap_value(&self) -> (r: TypedValue)
        requires
            self is Value,
        ensures
            r == self->Value_0,
    {
        match self {
            TemplateArgKind::Value(v) => *v,
            TemplateArgKind::Type(_) => unreached(),
        }
    }
}

/// A template argument at instantiation time.
#[derive(Clone, Copy, Debug)]
pub enum ConcreteTemplateArg {
    Type(ConcreteType),
    Value(TypedValue),
    NotProvided,
}

impl ConcreteTemplateArg {
    pub fn unwrap_type(&self) -> (r: &ConcreteType)
        requires
            self is Type,
        ensures
            *r == self->Type_0,
    {
        match self {
            ConcreteTemplateArg::Type(t) => t,
            _ => unreached(),
        }
    }

    pub fn unwrap_value(&self) -> (r: &TypedValue)
        requires
            self is Value,
        ensures
            *r == self->Value_0,
    {
        match self {
            ConcreteTemplateArg::Value(v) => v,
            _ => unreached(),
        }
    }
}

/// The declared parameters that `args` leaves without a value, in declaration order.
pub open spec fn missing_inputs(inputs: Seq<TemplateInput>, args: Seq<ConcreteTemplateArg>) -> Seq<TemplateInput>
    decreases inputs.len(),
{
    if inputs.len() == 0 {
        Seq::empty()
    } else {
        let prefix = missing_inputs(inputs.drop_last(), args);
        if args[inputs.len() - 1] is NotProvided {
            prefix.push(inputs.last())
        } else {
            prefix
        }
    }
}

/// `'a', 'b', 'c'`
pub open spec fn quoted_list(inputs: Seq<TemplateInput>) -> Seq<char>
    decreases inputs.len(),
{
    if inputs.len() == 0 {
        Seq::empty()
    } else if inputs.len() == 1 {
        "'"@ + inputs[0].name@ + "'"@
    } else {
        quoted_list(inputs.drop_last()) + ", '"@ + inputs.last().name@ + "'"@
    }
}

/// "Could not instantiate <full name> because the template arguments <list> were missing and no default was provided"
pub open spec fn missing_message(target_name: Seq<char>, missing: Seq<TemplateInput>) -> Seq<char> {
    "Could not instantiate "@ + full_name(target_name) + " because the template arguments "@ + quoted_list(missing)
        + " were missing and no default was provided"@
}

/// One label per missing parameter, at its declaration: "'<name>' defined here".
pub open spec fn missing_labels(file: usize, missing: Seq<TemplateInput>) -> Seq<InfoView> {
    missing.map_values(|v: TemplateInput| (v.name_span, file, "'"@ + v.name@ + "' defined here"@))
}

/// The diagnostic for instantiating `target` with parameters left out, at `span`.
pub open spec fn missing_error(span: Span, target: LinkInfo, missing: Seq<TemplateInput>) -> crate::errors::ErrorView {
    (span, missing_message(target.name@, missing), missing_labels(target.file.hidden_value, missing))
}

/// Checks that every declared parameter of `target_link_info` has a value. Where some have none,
/// reports one diagnostic that names all of them, with a label at each, and returns false.
pub fn check_all_template_args_valid(
    errors: &mut ErrorCollector,
    span: Span,
    target_link_info: &LinkInfo,
    template_args: &Vec<ConcreteTemplateArg>,
) -> (r: bool)
    requires
        template_args@.len() == target_link_info.template_arguments@.len(),
    ensures
        final(errors).main_file == old(errors).main_file,
        ({
            let missing = missing_inputs(target_link_info.template_arguments@, template_args@);
            &&& r == (missing.len() == 0)
            &&& final(errors).store@ == if r {
                old(errors).store@
            } else {
                old(errors).store@.push(missing_error(span, *target_link_info, missing))
            }
        }),
{
    let inputs = &target_link_info.template_arguments;
    let ghost file = target_link_info.file.hidden_value;
    let mut not_found: Vec<usize> = Vec::new();
    let mut list = String::new();
    let mut infos: Vec<ErrorInfo> = Vec::new();
    let mut k: usize = 0;
    while k < inputs.len()
        invariant
            k <= inputs@.len(),
            inputs == &target_link_info.template_arguments,
            file == target_link_info.file.hidden_value,
            template_args@.len() == inputs@.len(),
            not_found@.len() == missing_inputs(inputs@.take(k as int), template_args@).len(),
            list@ == quoted_list(missing_inputs(inputs@.take(k as int), template_args@)),
            infos_view(infos@) == missing_labels(file, missing_inputs(inputs@.take(k as int), template_args@)),
        decreases inputs@.len() - k,
    {
        let ghost before = missing_inputs(inputs@.take(k as int), template_args@);
        proof {
            assert(inputs@.take(k as int + 1).drop_last() =~= inputs@.take(k as int));
        }
        match &template_args[k] {
            ConcreteTemplateArg::NotProvided => {
                let v = &inputs[k];
                let ghost list_before = list@;
                if not_found.len() > 0 {
                    list.append(", '");
                } else {
                    list.append("'");
                }
                list.append(v.name.as_str());
                list.append("'");
                let mut info = String::from_str("'");
                info.append(v.name.as_str());
                info.append("' defined here");
                let ghost infos_before = infos@;
                infos.push(error_info(v.name_span, target_link_info.file, info));
                not_found.push(k);
                proof {
                    let now = missing_inputs(inputs@.take(k as int + 1), template_args@);
                    assert(now == before.push(inputs@[k as int]));
                    assert(now.drop_last() =~= before);
                    if before.len() == 0 {
                        assert(now =~= seq![inputs@[k as int]]);
                        assert(list@ =~= "'"@ + v.name@ + "'"@);
                    } else {
                        assert(list@ =~= list_before + ", '"@ + v.name@ + "'"@);
                    }
                    assert(infos_view(infos@) =~= infos_view(infos_before).push((v.name_span, file, "'"@ + v.name@ + "' defined here"@)));
                    assert(missing_labels(file, now) =~= missing_labels(file, before).push((v.name_span, file, "'"@ + v.name@ + "' defined here"@)));
                }
            },
            _ => {},
        }
        k = k + 1;
    }
    proof {
        assert(inputs@.take(inputs@.len() as int) =~= inputs@);
    }
    if not_found.len() > 0 {
        let mut reason = String::from_str("Could not instantiate ");
        let full = target_link_info.get_full_name();
        reason.append(full.as_str());
        reason.append(" because the template arguments ");
        reason.append(list.as_str());
        reason.append(" were missing and no default was provided");
        errors.error_with_info(span, reason, infos);
        false
    } else {
        true
    }
}

proof fn lemma_missing_two(inputs: Seq<TemplateInput>, args: Seq<ConcreteTemplateArg>, i: int, j: int, k: int)
    requires
        0 <= i < j < inputs.len(),
        0 <= k <= inputs.len(),
        args.len() == inputs.len(),
        forall|q: int| 0 <= q < args.len() ==> ((#[trigger] args[q] is NotProvided) <==> (q == i || q == j)),
    ensures
        missing_inputs(inputs.take(k), args) == if k <= i {
            Seq::<TemplateInput>::empty()
        } else if k <= j {
            seq![inputs[i]]
        } else {
            seq![inputs[i], inputs[j]]
        },
    decreases k,
{
    if k > 0 {
        lemma_missing_two(inputs, args, i, j, k - 1);
        assert(inputs.take(k).drop_last() =~= inputs.take(k - 1));
        if k - 1 == i {
            assert(Seq::<TemplateInput>::empty().push(inputs[i]) =~= seq![inputs[i]]);
        }
        if k - 1 == j {
            assert(seq![inputs[i]].push(inputs[j]) =~= seq![inputs[i], inputs[j]]);
        }
    }
}

/// Leaving out exactly two parameters gives one diagnostic, which names both, in declaration order.
pub proof fn lemma_two_missing_arguments_one_error(
    span: Span,
    target: LinkInfo,
    args: Seq<ConcreteTemplateArg>,
    i: int,
    j: int,
)
    requires
        0 <= i < j < target.template_arguments@.len(),
        args.len() == target.template_arguments@.len(),
        forall|q: int| 0 <= q < args.len() ==> ((#[trigger] args[q] is NotProvided) <==> (q == i || q == j)),
    ensures
        ({
            let inputs = target.template_arguments@;
            let missing = missing_inputs(inputs, args);
            &&& missing == seq![inputs[i], inputs[j]]
            &&& quoted_list(missing) == "'"@ + inputs[i].name@ + "'"@ + ", '"@ + inputs[j].name@ + "'"@
            &&& missing_error(span, target, missing).2.len() == 2
        }),
{
    let inputs = target.template_arguments@;
    lemma_missing_two(inputs, args, i, j, inputs.len() as int);
    assert(inputs.take(inputs.len() as int) =~= inputs);
    let m = seq![inputs[i], inputs[j]];
    assert(m.drop_last() =~= seq![inputs[i]]);
    let one = seq![inputs[i]];
    assert(one.len() == 1 && one[0] == inputs[i]);
    assert(quoted_list(one) == "'"@ + inputs[i].name@ + "'"@);
    assert(m.last() == inputs[j]);
    assert(quoted_list(m) == quoted_list(m.drop_last()) + ", '"@ + m.last().name@ + "'"@);
    assert(quoted_list(m) =~= "'"@ + inputs[i].name@ + "'"@ + ", '"@ + inputs[j].name@ + "'"@);
}

} // verus!
