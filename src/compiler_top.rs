//! The pipeline: declaration gathering, flattening, type checking and instantiation over all
//! declarations, and the incremental file operations around it.
use crate::errors::{ParsingError, ErrorView};
use crate::file_position::Span;
use crate::instantiation::{InstantiatedModule, InstantiationList, find_entry, instantiate_post};
use crate::linker::{
    BUILTIN_COUNT, FileUUID, LinkInfo, Linker, Module, Named, NamedConstant, NamedType, NamedUUID, at, live,
    same_declaration, spec_link_info,
};
use crate::resolver::{GlobalResolver, kind_matches, kind_name, not_expected_error, resolution_error};
use crate::syntax::{GlobalKind, ParsedFile, ReferenceSyntax, TemplateArgValueSyntax};
use crate::template::{
    AbstractType, ConcreteTemplateArg, GlobalReference, TemplateArg, TemplateArgKind, TypedValue, WrittenType,
};
use std::rc::Rc;
use vstd::prelude::*;

verus! {

/// The diagnostics of looking up the name at `span` for a global of kind `expected`.
pub open spec fn kind_errors(linker: Linker, text: Seq<char>, span: Span, expected: GlobalKind) -> Seq<ErrorView> {
    let name = crate::linker::span_text(text, span);
    let ids = linker.lookup(name);
    if ids.len() == 1 {
        let n = linker.entity(ids[0] as int);
        if kind_matches(n, expected) {
            Seq::empty()
        } else {
            seq![crate::resolver::wrong_kind_error(n, span, kind_name(expected))]
        }
    } else {
        seq![resolution_error(linker, span, name)->0]
    }
}

/// Whether the name at `span` names exactly one global, of kind `expected`.
pub open spec fn resolves_to_kind(linker: Linker, text: Seq<char>, span: Span, expected: GlobalKind) -> bool {
    let ids = linker.lookup(crate::linker::span_text(text, span));
    ids.len() == 1 && kind_matches(linker.entity(ids[0] as int), expected)
}

pub open spec fn spec_template_count(n: Named) -> int {
    match spec_link_info(n) {
        Some(li) => li.template_arguments@.len() as int,
        None => 0,
    }
}

/// The diagnostics of slot `k` of `args`: those of its type argument, if it holds one.
pub open spec fn slot_errors(linker: Linker, text: Seq<char>, args: Seq<Option<crate::syntax::TemplateArgSyntax>>, k: int) -> Seq<ErrorView> {
    if 0 <= k < args.len() {
        match args[k] {
            Some(a) => match a.value {
                TemplateArgValueSyntax::Type(span) => kind_errors(linker, text, span, GlobalKind::Type),
                TemplateArgValueSyntax::Value(_) => Seq::empty(),
            },
            None => Seq::empty(),
        }
    } else {
        Seq::empty()
    }
}

/// The diagnostics of the type arguments among the first `count` slots of `args`.
pub open spec fn arg_errors(linker: Linker, text: Seq<char>, args: Seq<Option<crate::syntax::TemplateArgSyntax>>, count: int) -> Seq<ErrorView>
    decreases count,
{
    if count <= 0 {
        Seq::empty()
    } else {
        let k = count - 1;
        arg_errors(linker, text, args, k) + slot_errors(linker, text, args, k)
    }
}

/// The diagnostics of flattening one mention of a global.
pub open spec fn ref_errors(linker: Linker, text: Seq<char>, r: ReferenceSyntax) -> Seq<ErrorView> {
    kind_errors(linker, text, r.name_span, r.expected) + if resolves_to_kind(linker, text, r.name_span, r.expected) {
        let ids = linker.lookup(crate::linker::span_text(text, r.name_span));
        arg_errors(linker, text, r.template_args@, spec_template_count(linker.entity(ids[0] as int)))
    } else {
        Seq::empty()
    }
}

/// The diagnostics of flattening a body that mentions `refs`, in order.
pub open spec fn refs_errors(linker: Linker, text: Seq<char>, refs: Seq<ReferenceSyntax>) -> Seq<ErrorView>
    decreases refs.len(),
{
    if refs.len() == 0 {
        Seq::empty()
    } else {
        refs_errors(linker, text, refs.drop_last()) + ref_errors(linker, text, refs.last())
    }
}

/// The global that flattening one mention resolves to, if any.
pub open spec fn ref_targets(linker: Linker, text: Seq<char>, r: ReferenceSyntax) -> Seq<usize> {
    if resolves_to_kind(linker, text, r.name_span, r.expected) {
        seq![linker.lookup(crate::linker::span_text(text, r.name_span))[0]]
    } else {
        Seq::empty()
    }
}

/// The globals that flattening a body that mentions `refs` resolves to, in order.
pub open spec fn refs_targets(linker: Linker, text: Seq<char>, refs: Seq<ReferenceSyntax>) -> Seq<usize>
    decreases refs.len(),
{
    if refs.len() == 0 {
        Seq::empty()
    } else {
        refs_targets(linker, text, refs.drop_last()) + ref_targets(linker, text, refs.last())
    }
}

/// The ids of the globals a flattened body refers to.
pub open spec fn instruction_targets(instructions: Seq<GlobalReference<NamedUUID>>) -> Seq<usize> {
    instructions.map_values(|g: GlobalReference<NamedUUID>| g.id.hidden_value)
}

/// The number of template parameters a global declares; builtins declare none.
fn template_count(n: &Named) -> (r: usize)
    ensures
        r == match spec_link_info(*n) {
            Some(li) => li.template_arguments@.len(),
            None => 0,
        },
{
    match n {
        Named::Module(md) => md.link_info.template_arguments.len(),
        Named::Type(NamedType::Struct(li)) => li.template_arguments.len(),
        Named::Constant(NamedConstant::User(li)) => li.template_arguments.len(),
        _ => 0,
    }
}

/// The template arguments written at a reference, one slot per declared parameter of its target.
fn bind_template_args(resolver: &mut GlobalResolver, r: &ReferenceSyntax, count: usize) -> (args: Vec<Option<TemplateArg>>)
    requires
        old(resolver).wf(),
        crate::syntax::reference_fits(*r, old(resolver).text().len()),
    ensures
        final(resolver).wf(),
        final(resolver).linker == old(resolver).linker,
        final(resolver).file_data == old(resolver).file_data,
        final(resolver).errors.main_file == old(resolver).errors.main_file,
        args@.len() == count,
        final(resolver).errors.store@ == old(resolver).errors.store@ + arg_errors(*old(resolver).linker, old(resolver).text(), r.template_args@, count as int),
{
    let mut args: Vec<Option<TemplateArg>> = Vec::new();
    let mut k: usize = 0;
    while k < count
        invariant
            k <= count,
            args@.len() == k,
            resolver.wf(),
            resolver.linker == old(resolver).linker,
            resolver.file_data == old(resolver).file_data,
            resolver.errors.main_file == old(resolver).errors.main_file,
            crate::syntax::reference_fits(*r, resolver.text().len()),
            resolver.errors.store@ == old(resolver).errors.store@ + arg_errors(*old(resolver).linker, old(resolver).text(), r.template_args@, k as int),
        decreases count - k,
    {
        let ghost before = resolver.errors.store@;
        proof {
            if k < r.template_args@.len() && r.template_args@[k as int] is Some {
                assert(crate::syntax::template_arg_fits(r.template_args@[k as int]->Some_0, resolver.text().len()));
            }
        }
        let slot = if k < r.template_args.len() {
            match r.template_args[k] {
                Some(a) => {
                    let kind = match a.value {
                        TemplateArgValueSyntax::Type(span) => match resolver.try_get_kind(span, GlobalKind::Type) {
                            Some(id) => TemplateArgKind::Type(WrittenType::Named(span, id)),
                            None => TemplateArgKind::Type(WrittenType::Error(span)),
                        },
                        TemplateArgValueSyntax::Value(v) => TemplateArgKind::Value(v),
                    };
                    Some(TemplateArg { name_span: a.name_span, value_span: a.value_span, kind })
                },
                None => None,
            }
        } else {
            None
        };
        args.push(slot);
        proof {
            assert(resolver.errors.store@ =~= old(resolver).errors.store@ + arg_errors(*old(resolver).linker, old(resolver).text(), r.template_args@, k as int + 1));
        }
        k = k + 1;
    }
    args
}

/// Resolves, in order, the globals that object `object_index` of the resolver's file mentions.
/// A mention that does not resolve to a global of the expected kind is reported and left out.
fn flatten_references(resolver: &mut GlobalResolver, object_index: usize) -> (r: Vec<GlobalReference<NamedUUID>>)
    requires
        old(resolver).wf(),
        object_index < old(resolver).file_data.parsed.objects@.len(),
    ensures
        final(resolver).wf(),
        final(resolver).linker == old(resolver).linker,
        final(resolver).file_data == old(resolver).file_data,
        final(resolver).errors.main_file == old(resolver).errors.main_file,
        final(resolver).errors.store@ == old(resolver).errors.store@ + refs_errors(
            *old(resolver).linker,
            old(resolver).text(),
            old(resolver).file_data.parsed.objects@[object_index as int].references@,
        ),
        instruction_targets(r@) == refs_targets(
            *old(resolver).linker,
            old(resolver).text(),
            old(resolver).file_data.parsed.objects@[object_index as int].references@,
        ),
{
    let file_data = resolver.file_data;
    let refs = &file_data.parsed.objects[object_index].references;
    proof {
        assert(crate::syntax::object_fits(file_data.parsed.objects@[object_index as int], file_data.file_text@.len()));
    }
    let mut instructions: Vec<GlobalReference<NamedUUID>> = Vec::new();
    let mut k: usize = 0;
    while k < refs.len()
        invariant
            k <= refs@.len(),
            resolver.wf(),
            resolver.linker == old(resolver).linker,
            resolver.file_data == old(resolver).file_data,
            resolver.file_data == file_data,
            resolver.errors.main_file == old(resolver).errors.main_file,
            refs == &file_data.parsed.objects@[object_index as int].references,
            object_index < file_data.parsed.objects@.len(),
            crate::syntax::object_fits(file_data.parsed.objects@[object_index as int], file_data.file_text@.len()),
            resolver.errors.store@ == old(resolver).errors.store@ + refs_errors(*old(resolver).linker, old(resolver).text(), refs@.take(k as int)),
            instruction_targets(instructions@) == refs_targets(*old(resolver).linker, old(resolver).text(), refs@.take(k as int)),
        decreases refs@.len() - k,
    {
        let r = &refs[k];
        let ghost before = resolver.errors.store@;
        let ghost before_instructions = instructions@;
        proof {
            assert(refs@.take(k as int + 1).drop_last() =~= refs@.take(k as int));
        }
        proof {
            assert(crate::syntax::reference_fits(refs@[k as int], file_data.file_text@.len()));
        }
        match resolver.try_get_kind(r.name_span, r.expected) {
            Some(id) => {
                proof {
                    let ids = resolver.linker.lookup(crate::linker::span_text(resolver.text(), r.name_span));
                    assert(live(resolver.linker.globals, ids[0] as int));
                }
                let target = resolver.get_global(id);
                let count = template_count(target);
                let template_args = bind_template_args(resolver, r, count);
                instructions.push(
                    GlobalReference {
                        name_span: r.name_span,
                        id,
                        template_args,
                        template_arg_types: Vec::new(),
                        template_span: r.template_span,
                    },
                );
            },
            None => {},
        }
        proof {
            assert(resolver.errors.store@ =~= old(resolver).errors.store@ + refs_errors(*old(resolver).linker, old(resolver).text(), refs@.take(k as int + 1)));
            assert(instruction_targets(instructions@) =~= refs_targets(*old(resolver).linker, old(resolver).text(), refs@.take(k as int + 1)));
        }
        k = k + 1;
    }
    proof {
        assert(refs@.take(refs@.len() as int) =~= refs@);
    }
    instructions
}

/// The id of the type type checking infers for one template argument: the named type of a
/// type argument, `bool` or `int` for a value; none where nothing was written or it did not resolve.
pub open spec fn inferred_type(arg: Option<TemplateArg>) -> Option<usize> {
    match arg {
        Some(a) => match a.kind {
            TemplateArgKind::Type(WrittenType::Named(_, id)) => Some(id.hidden_value),
            TemplateArgKind::Value(TypedValue::Bool(_)) => Some(0),
            TemplateArgKind::Value(TypedValue::Integer(_)) => Some(1),
            _ => None,
        },
        None => None,
    }
}

fn abstract_type_of(arg: &Option<TemplateArg>) -> (r: AbstractType)
    ensures
        match r {
            AbstractType::Named(id) => inferred_type(*arg) == Some(id.hidden_value),
            AbstractType::Unknown => inferred_type(*arg) is None,
        },
{
    match arg {
        Some(a) => match a.kind {
            TemplateArgKind::Type(WrittenType::Named(_, id)) => AbstractType::Named(id),
            TemplateArgKind::Value(TypedValue::Bool(_)) => AbstractType::Named(NamedUUID::from_hidden_value(0)),
            TemplateArgKind::Value(TypedValue::Integer(_)) => AbstractType::Named(NamedUUID::from_hidden_value(1)),
            _ => AbstractType::Unknown,
        },
        None => AbstractType::Unknown,
    }
}

/// The globals that flattening the declaration of `li` resolves to on `linker`.
pub open spec fn unit_flatten_targets(linker: Linker, li: LinkInfo) -> Seq<usize> {
    let fd = at(linker.files, li.file.hidden_value as int);
    refs_targets(linker, fd.file_text@, fd.parsed.objects@[li.object_index as int].references@)
}

/// The diagnostics that flattening the declaration of `li` gives on `linker`.
pub open spec fn unit_flatten_errors(linker: Linker, li: LinkInfo) -> Seq<ErrorView> {
    let fd = at(linker.files, li.file.hidden_value as int);
    refs_errors(linker, fd.file_text@, fd.parsed.objects@[li.object_index as int].references@)
}

pub open spec fn unit_link_info(linker: Linker, i: int) -> LinkInfo {
    spec_link_info(linker.entity(i))->0
}

/// The diagnostics a declaration keeps when it goes back to just after gathering.
pub open spec fn gathering_errors(li: LinkInfo) -> Seq<ErrorView> {
    let cp = li.checkpoints@[0].errors_cp;
    if cp <= li.errors@.len() {
        li.errors@.subrange(0, cp as int)
    } else {
        li.errors@
    }
}

/// A stage finished on a declaration: it added `added` to its diagnostics and took one checkpoint.
pub open spec fn stage_done(after: LinkInfo, before: LinkInfo, added: Seq<ErrorView>, targets: Seq<usize>) -> bool {
    &&& after.errors@ == before.errors@ + added
    &&& instruction_targets(after.instructions@) == targets
    &&& after.checkpoints@.len() == before.checkpoints@.len() + 1
    &&& after.checkpoints@[0] == before.checkpoints@[0]
}

/// The diagnostics a stage adds to a declaration: flattening reports, type checking does not.
pub open spec fn stage_errors(linker: Linker, li: LinkInfo, flatten: bool) -> Seq<ErrorView> {
    if flatten {
        unit_flatten_errors(linker, li)
    } else {
        Seq::empty()
    }
}

/// The globals a declaration's body refers to after a stage: flattening resolves them anew,
/// type checking keeps them.
pub open spec fn stage_targets(linker: Linker, li: LinkInfo, flatten: bool) -> Seq<usize> {
    if flatten {
        unit_flatten_targets(linker, li)
    } else {
        instruction_targets(li.instructions@)
    }
}

/// A module keeps no instance and no instantiation diagnostic.
pub open spec fn no_instances(n: Named) -> bool {
    n is Module ==> module_instances(n).cache@.len() == 0 && module_instances(n).errors@.len() == 0
}

/// What recompiling leaves of declaration `j`: its diagnostics from gathering, then those of
/// flattening it; its first checkpoint; and no instantiation diagnostic.
pub open spec fn recompiled_unit(after: Linker, before: Linker, j: int) -> bool {
    let li = unit_link_info(before, j);
    &&& unit_link_info(after, j).errors@ == gathering_errors(li) + unit_flatten_errors(before, li)
    &&& instruction_targets(unit_link_info(after, j).instructions@) == unit_flatten_targets(before, li)
    &&& unit_link_info(after, j).checkpoints@[0] == li.checkpoints@[0]
    &&& after.entity(j) is Module ==> module_instances(after.entity(j)).errors@.len() == 0
}

proof fn lemma_unit_flatten_errors_congruent(a: Linker, b: Linker, la: LinkInfo, lb: LinkInfo)
    requires
        a.wf(),
        same_declarations(a, b),
        la.file == lb.file,
        la.object_index == lb.object_index,
    ensures
        unit_flatten_errors(a, la) == unit_flatten_errors(b, lb),
        unit_flatten_targets(a, la) == unit_flatten_targets(b, lb),
{
    let fd = at(a.files, la.file.hidden_value as int);
    lemma_refs_errors_congruent(a, b, fd.file_text@, fd.parsed.objects@[la.object_index as int].references@);
    lemma_refs_targets_congruent(a, b, fd.file_text@, fd.parsed.objects@[la.object_index as int].references@);
}

proof fn lemma_refs_targets_congruent(a: Linker, b: Linker, text: Seq<char>, refs: Seq<ReferenceSyntax>)
    requires
        a.wf(),
        same_declarations(a, b),
    ensures
        refs_targets(a, text, refs) == refs_targets(b, text, refs),
    decreases refs.len(),
{
    if refs.len() > 0 {
        lemma_refs_targets_congruent(a, b, text, refs.drop_last());
        let r = refs.last();
        lemma_kind_errors_congruent(a, b, text, r.name_span, r.expected);
    }
}

/// The memoized instantiations of a module.
pub open spec fn module_instances(n: Named) -> InstantiationList {
    n->Module_0.instantiations
}

/// Declaration `i` was only changed in what the current stage computes: a module keeps its instances.
pub open spec fn stage_replaced(after: Linker, before: Linker, i: int) -> bool {
    &&& after.unit_replaced(before, i)
    &&& (before.entity(i) is Module ==> module_instances(after.entity(i)) == module_instances(before.entity(i)))
}

impl Linker {
    /// Flattens one declaration: resolves what its body mentions, recording its dependencies and
    /// diagnostics, and takes the checkpoint after flattening.
    fn flatten_unit(&mut self, id: NamedUUID)
        requires
            old(self).wf(),
            old(self).is_entity(id.hidden_value as int),
            id.hidden_value >= BUILTIN_COUNT,
        ensures
            final(self).wf(),
            stage_replaced(*final(self), *old(self), id.hidden_value as int),
            unit_link_info(*final(self), id.hidden_value as int).errors@ == unit_link_info(*old(self), id.hidden_value as int).errors@
                + unit_flatten_errors(*old(self), unit_link_info(*old(self), id.hidden_value as int)),
            instruction_targets(unit_link_info(*final(self), id.hidden_value as int).instructions@)
                == unit_flatten_targets(*old(self), unit_link_info(*old(self), id.hidden_value as int)),
            unit_link_info(*final(self), id.hidden_value as int).checkpoints@ == unit_link_info(*old(self), id.hidden_value as int).checkpoints@.push(
                unit_link_info(*final(self), id.hidden_value as int).checkpoints@.last(),
            ),
    {
        let ghost i = id.hidden_value as int;
        proof {
            assert(crate::linker::user_entity_wf(self.globals, self.files, i));
        }
        let errors_globals = GlobalResolver::take_errors_globals(self, id);
        let ghost taken = *self;
        let li = self.get_link_info(id);
        let file = li.file;
        let object_index = li.object_index;
        proof {
            assert(crate::linker::user_entity_wf(self.globals, self.files, i));
        }
        let mut resolver = GlobalResolver::new(self, file, errors_globals);
        let instructions = flatten_references(&mut resolver, object_index);
        let (errors, resolved) = resolver.decommission();
        let ghost mid = *self;
        let li = self.get_link_info_mut(id);
        let cp_id = li.checkpoints.len();
        li.instructions = instructions;
        li.reabsorb_errors_globals((errors, resolved), cp_id);
        proof {
            lemma_unit_replaced_same(taken, *old(self), i);
            let oli = unit_link_info(*old(self), i);
            let fd = at(old(self).files, oli.file.hidden_value as int);
            lemma_refs_errors_congruent(taken, *old(self), fd.file_text@, fd.parsed.objects@[oli.object_index as int].references@);
            lemma_refs_targets_congruent(taken, *old(self), fd.file_text@, fd.parsed.objects@[oli.object_index as int].references@);
            assert(self.unit_replaced(*old(self), i));
            self.lemma_unit_replaced_wf(*old(self), i);
            if old(self).entity(i) is Module {
                assert(module_instances(self.entity(i)) == module_instances(old(self).entity(i)));
            }
        }
    }

    /// Type checks one declaration: infers the type of every template argument its body writes,
    /// and takes the checkpoint after type checking.
    fn typecheck_unit(&mut self, id: NamedUUID)
        requires
            old(self).wf(),
            old(self).is_entity(id.hidden_value as int),
            id.hidden_value >= BUILTIN_COUNT,
        ensures
            final(self).wf(),
            stage_replaced(*final(self), *old(self), id.hidden_value as int),
            unit_link_info(*final(self), id.hidden_value as int).errors@ == unit_link_info(*old(self), id.hidden_value as int).errors@,
            instruction_targets(unit_link_info(*final(self), id.hidden_value as int).instructions@)
                == instruction_targets(unit_link_info(*old(self), id.hidden_value as int).instructions@),
            unit_link_info(*final(self), id.hidden_value as int).checkpoints@ == unit_link_info(*old(self), id.hidden_value as int).checkpoints@.push(
                unit_link_info(*final(self), id.hidden_value as int).checkpoints@.last(),
            ),
    {
        let ghost i = id.hidden_value as int;
        proof {
            assert(crate::linker::user_entity_wf(self.globals, self.files, i));
        }
        let (errors, mut resolved) = GlobalResolver::take_errors_globals(self, id);
        let li = self.get_link_info_mut(id);
        let mut instructions: Vec<GlobalReference<NamedUUID>> = Vec::new();
        core::mem::swap(&mut instructions, &mut li.instructions);
        let ghost before_typing = instructions@;
        let mut k: usize = 0;
        while k < instructions.len()
            invariant
                k <= instructions@.len(),
                instruction_targets(instructions@) == instruction_targets(before_typing),
            decreases instructions@.len() - k,
        {
            resolved.push(instructions[k].id);
            let mut types: Vec<AbstractType> = Vec::new();
            let mut a: usize = 0;
            while a < instructions[k].template_args.len()
                invariant
                    k < instructions@.len(),
                    a <= instructions@[k as int].template_args@.len(),
                decreases instructions@[k as int].template_args@.len() - a,
            {
                types.push(abstract_type_of(&instructions[k].template_args[a]));
                a = a + 1;
            }
            let ghost before_set = instructions@;
            instructions[k].template_arg_types = types;
            proof {
                assert(instruction_targets(instructions@) =~= instruction_targets(before_set));
            }
            k = k + 1;
        }
        let cp_id = li.checkpoints.len();
        li.instructions = instructions;
        let file = li.file;
        li.reabsorb_errors_globals((crate::errors::ErrorCollector::from_storage(errors, file), resolved), cp_id);
        proof {
            assert(self.unit_replaced(*old(self), i));
            self.lemma_unit_replaced_wf(*old(self), i);
            if old(self).entity(i) is Module {
                assert(module_instances(self.entity(i)) == module_instances(old(self).entity(i)));
            }
        }
    }
}

/// After recompiling, a module without template parameters holds exactly one instance, and a
/// module with template parameters holds none.
pub open spec fn recompiled_instances(linker: Linker, j: int) -> bool {
    linker.entity(j) is Module ==> module_instances(linker.entity(j)).cache@.len() == if unit_link_info(
        linker,
        j,
    ).template_arguments@.len() == 0 {
        1int
    } else {
        0int
    }
}

/// Module `i` has an instance for the empty argument list.
pub open spec fn instantiated_without_arguments(linker: Linker, i: int) -> bool {
    let entries = module_instances(linker.entity(i)).cache@;
    let li = unit_link_info(linker, i);
    find_entry(entries, Seq::<ConcreteTemplateArg>::empty()) matches Some(k) && entries[k].result matches Some(m) && {
        &&& m.name@ == li.name@
        &&& m.template_args@.len() == 0
        &&& m.references@.map_values(|u: NamedUUID| u.hidden_value) == instruction_targets(li.instructions@)
    }
}

/// A module without template parameters, which has exactly one instance.
pub open spec fn is_plain_module(linker: Linker, i: int) -> bool {
    &&& linker.is_entity(i)
    &&& i >= BUILTIN_COUNT
    &&& linker.entity(i) is Module
    &&& spec_link_info(linker.entity(i))->0.template_arguments@.len() == 0
}

impl Linker {
    /// The instance of a module for `args`, one per declared parameter: the memoized one, or one made
    /// now. Arguments left out make it fail with one diagnostic, which is not repeated on later calls.
    pub fn instantiate(&mut self, module_id: NamedUUID, args: &Vec<ConcreteTemplateArg>) -> (r: Option<Rc<InstantiatedModule>>)
        requires
            old(self).wf(),
            old(self).is_entity(module_id.hidden_value as int),
            old(self).entity(module_id.hidden_value as int) is Module,
            args@.len() == spec_link_info(old(self).entity(module_id.hidden_value as int))->0.template_arguments@.len(),
        ensures
            final(self).wf(),
            final(self).unit_replaced(*old(self), module_id.hidden_value as int),
            final(self).entity(module_id.hidden_value as int) is Module,
            spec_link_info(final(self).entity(module_id.hidden_value as int)) == spec_link_info(old(self).entity(module_id.hidden_value as int)),
            ({
                let li = spec_link_info(old(self).entity(module_id.hidden_value as int))->0;
                instantiate_post(
                    module_instances(old(self).entity(module_id.hidden_value as int)),
                    li,
                    li.instructions@,
                    args@,
                    module_instances(final(self).entity(module_id.hidden_value as int)),
                    r,
                )
            }),
    {
        let ghost i = module_id.hidden_value as int;
        proof {
            assert(crate::linker::user_entity_wf(self.globals, self.files, i));
        }
        let r = match self.globals.get_mut(module_id) {
            Named::Module(md) => md.instantiations.instantiate(&md.link_info, args),
            _ => unreached(),
        };
        proof {
            self.lemma_unit_replaced_wf(*old(self), i);
        }
        r
    }

    /// Rolls a declaration back to just after gathering: diagnostics and dependencies as they
    /// were then, no body, and no instances.
    fn reset_unit(&mut self, id: NamedUUID)
        requires
            old(self).wf(),
            old(self).is_entity(id.hidden_value as int),
            id.hidden_value >= BUILTIN_COUNT,
        ensures
            final(self).wf(),
            final(self).unit_replaced(*old(self), id.hidden_value as int),
            unit_link_info(*final(self), id.hidden_value as int).checkpoints@ == unit_link_info(*old(self), id.hidden_value as int).checkpoints@.take(1),
            unit_link_info(*final(self), id.hidden_value as int).errors@ == gathering_errors(unit_link_info(*old(self), id.hidden_value as int)),
            final(self).entity(id.hidden_value as int) is Module ==> module_instances(final(self).entity(id.hidden_value as int)).cache@.len() == 0
                && module_instances(final(self).entity(id.hidden_value as int)).errors@.len() == 0,
    {
        let ghost i = id.hidden_value as int;
        proof {
            assert(crate::linker::user_entity_wf(self.globals, self.files, i));
        }
        match self.globals.get_mut(id) {
            Named::Module(md) => {
                reset_link_info(&mut md.link_info);
                md.instantiations.clear_instances();
            },
            Named::Type(NamedType::Struct(li)) => reset_link_info(li),
            Named::Constant(NamedConstant::User(li)) => reset_link_info(li),
            _ => unreached(),
        }
        proof {
            self.lemma_unit_replaced_wf(*old(self), i);
        }
    }

    /// Recompiles everything: every declaration goes back to just after gathering, then all are
    /// flattened, then all are type checked, then every module without template parameters is
    /// instantiated.
    pub fn recompile_all(&mut self)
        requires
            old(self).wf(),
        ensures
            recompile_post(*old(self), *final(self)),
    {
        let n = self.globals.len();
        let mut i: usize = BUILTIN_COUNT;
        while i < n
            invariant
                self.wf(),
                old(self).wf(),
                BUILTIN_COUNT <= i <= n,
                n == self.globals@.len(),
                n == old(self).globals@.len(),
                same_declarations(*self, *old(self)),
                forall|j: int| BUILTIN_COUNT <= j < i && self.is_entity(j) ==> no_instances(#[trigger] self.entity(j)),
                forall|j: int|
                    BUILTIN_COUNT <= j < i && old(self).is_entity(j) ==> #[trigger] unit_link_info(*self, j).errors@
                        == gathering_errors(unit_link_info(*old(self), j)) && unit_link_info(*self, j).checkpoints@
                        == unit_link_info(*old(self), j).checkpoints@.take(1),
                forall|j: int| i <= j < n ==> #[trigger] self.globals@[j] == old(self).globals@[j],
            decreases n - i,
        {
            let id = NamedUUID::from_hidden_value(i);
            if self.globals.is_live(id) {
                let ghost before = *self;
                self.reset_unit(id);
                proof {
                    lemma_unit_replaced_same(*self, before, i as int);
                    lemma_same_declarations_trans(*self, before, *old(self));
                    assert forall|j: int| BUILTIN_COUNT <= j < i + 1 && self.is_entity(j) implies no_instances(#[trigger] self.entity(j)) by {
                        if j != i as int {
                            assert(self.globals@[j] == before.globals@[j]);
                            assert(before.is_entity(j));
                        }
                    }
                    assert forall|j: int|
                        BUILTIN_COUNT <= j < i + 1 && old(self).is_entity(j) implies #[trigger] unit_link_info(*self, j).errors@
                            == gathering_errors(unit_link_info(*old(self), j)) && unit_link_info(*self, j).checkpoints@
                            == unit_link_info(*old(self), j).checkpoints@.take(1) by {
                        if j != i as int {
                            assert(self.globals@[j] == before.globals@[j]);
                            assert(unit_link_info(before, j) == unit_link_info(*self, j));
                            assert(unit_link_info(before, j).errors@ == gathering_errors(unit_link_info(*old(self), j)));
                        } else {
                            assert(before.globals@[j] == old(self).globals@[j]);
                            assert(unit_link_info(before, j) == unit_link_info(*old(self), j));
                            assert(unit_link_info(*self, j).errors@ == gathering_errors(unit_link_info(before, j)));
                            assert(unit_link_info(*self, j).checkpoints@ == unit_link_info(before, j).checkpoints@.take(1));
                        }
                    }
                    assert forall|j: int| i + 1 <= j < n implies #[trigger] self.globals@[j] == old(self).globals@[j] by {
                        assert(self.globals@[j] == before.globals@[j]);
                    }
                }
            } else {
                proof {
                    assert(self.globals@[i as int] == old(self).globals@[i as int]);
                }
            }
            i = i + 1;
        }
        let ghost reset = *self;
        self.run_stage(n, true);
        let ghost flattened = *self;
        self.run_stage(n, false);
        let ghost checked = *self;
        proof {
            lemma_same_declarations_trans(flattened, reset, *old(self));
            lemma_same_declarations_trans(checked, flattened, *old(self));
        }
        let mut i: usize = BUILTIN_COUNT;
        while i < n
            invariant
                self.wf(),
                BUILTIN_COUNT <= i <= n,
                n == self.globals@.len(),
                same_declarations(*self, checked),
                same_declarations(checked, *old(self)),
                forall|j: int| i <= j < n ==> #[trigger] self.globals@[j] == checked.globals@[j],
                forall|j: int| BUILTIN_COUNT <= j < n && checked.is_entity(j) ==> no_instances(#[trigger] checked.entity(j)),
                forall|j: int|
                    BUILTIN_COUNT <= j < i && self.is_entity(j) ==> #[trigger] unit_link_info(*self, j) == unit_link_info(checked, j)
                        && (self.entity(j) is Module ==> module_instances(self.entity(j)).errors@.len() == 0)
                        && recompiled_instances(*self, j),
                forall|j: int| BUILTIN_COUNT <= j < i && is_plain_module(*self, j) ==> #[trigger] instantiated_without_arguments(*self, j),
            decreases n - i,
        {
            let id = NamedUUID::from_hidden_value(i);
            if self.globals.is_live(id) {
                let is_plain = match self.globals.get(id) {
                    Named::Module(md) => md.link_info.template_arguments.len() == 0,
                    _ => false,
                };
                if is_plain {
                    let ghost before = *self;
                    let no_args: Vec<ConcreteTemplateArg> = Vec::new();
                    proof {
                        assert(self.globals@[i as int] == checked.globals@[i as int]);
                        assert(checked.is_entity(i as int));
                        assert(no_instances(checked.entity(i as int)));
                    }
                    let _instance = self.instantiate(id, &no_args);
                    proof {
                        lemma_unit_replaced_same(*self, before, i as int);
                        lemma_same_declarations_trans(*self, before, checked);
                        assert(no_args@ =~= Seq::<ConcreteTemplateArg>::empty());
                        let li = spec_link_info(before.entity(i as int))->0;
                        assert(crate::template::missing_inputs(li.template_arguments@, no_args@) =~= Seq::empty()) by {
                            assert(li.template_arguments@.len() == 0);
                        }
                        let entries = module_instances(self.entity(i as int)).cache@;
                        assert(entries.drop_last() =~= Seq::<crate::instantiation::InstantiationEntry>::empty());
                        assert(find_entry(entries, Seq::<ConcreteTemplateArg>::empty()) == Some(0int));
                        assert(crate::instantiation::reference_targets(li.instructions@).map_values(|u: NamedUUID| u.hidden_value)
                            =~= instruction_targets(li.instructions@));
                        assert forall|j: int| BUILTIN_COUNT <= j < i + 1 && is_plain_module(*self, j) implies #[trigger] instantiated_without_arguments(*self, j) by {
                            if j != i as int {
                                assert(self.globals@[j] == before.globals@[j]);
                                assert(is_plain_module(before, j));
                                assert(instantiated_without_arguments(before, j));
                            } else {
                                assert(before.entity(j) == checked.entity(j));
                                assert(module_instances(before.entity(j)).cache@.len() == 0);
                                assert(find_entry(module_instances(before.entity(j)).cache@, no_args@) is None);
                            }
                        }
                        assert forall|j: int|
                            BUILTIN_COUNT <= j < i + 1 && self.is_entity(j) implies #[trigger] unit_link_info(*self, j) == unit_link_info(checked, j)
                                && (self.entity(j) is Module ==> module_instances(self.entity(j)).errors@.len() == 0)
                                && recompiled_instances(*self, j) by {
                            if j != i as int {
                                assert(self.globals@[j] == before.globals@[j]);
                                assert(before.is_entity(j));
                                assert(unit_link_info(before, j) == unit_link_info(checked, j));
                            } else {
                                assert(before.entity(j) == checked.entity(j));
                                assert(module_instances(before.entity(j)).errors@.len() == 0);
                                assert(module_instances(before.entity(j)).cache@.len() == 0);
                                assert(find_entry(module_instances(before.entity(j)).cache@, no_args@) is None);
                            }
                        }
                        assert forall|j: int| i + 1 <= j < n implies #[trigger] self.globals@[j] == checked.globals@[j] by {
                            assert(self.globals@[j] == before.globals@[j]);
                        }
                    }
                } else {
                    proof {
                        assert(self.globals@[i as int] == checked.globals@[i as int]);
                        assert(checked.is_entity(i as int));
                        assert(no_instances(checked.entity(i as int)));
                        assert(recompiled_instances(*self, i as int));
                    }
                }
            }
            i = i + 1;
        }
        proof {
            lemma_same_declarations_trans(*self, checked, *old(self));
            assert forall|j: int| BUILTIN_COUNT <= j && self.is_entity(j) implies #[trigger] recompiled_instances(*self, j) by {
                assert(j < n);
                assert(unit_link_info(*self, j) == unit_link_info(checked, j));
            }
            assert forall|j: int| BUILTIN_COUNT <= j && old(self).is_entity(j) implies #[trigger] recompiled_unit(*self, *old(self), j) by {
                assert(j < n);
                assert(reset.is_entity(j));
                assert(flattened.is_entity(j));
                assert(checked.is_entity(j));
                assert(self.is_entity(j));
                let li0 = unit_link_info(*old(self), j);
                let lr = unit_link_info(reset, j);
                assert(stage_done(unit_link_info(flattened, j), lr, stage_errors(reset, lr, true), stage_targets(reset, lr, true)));
                assert(stage_done(unit_link_info(checked, j), unit_link_info(flattened, j), stage_errors(flattened, unit_link_info(flattened, j), false), stage_targets(flattened, unit_link_info(flattened, j), false)));
                assert(same_entity(reset.entity(j), old(self).entity(j)));
                assert(crate::linker::user_entity_wf(reset.globals, reset.files, j));
                lemma_unit_flatten_errors_congruent(reset, *old(self), lr, li0);
                assert(unit_link_info(checked, j).errors@ =~= gathering_errors(li0) + unit_flatten_errors(*old(self), li0));
                assert(unit_link_info(*self, j) == unit_link_info(checked, j));
                assert(li0.checkpoints@.len() >= 1) by {
                    assert(crate::linker::user_entity_wf(old(self).globals, old(self).files, j));
                }
            }
        }
    }

    /// Runs flattening (`flatten`) or type checking over every declaration.
    fn run_stage(&mut self, n: usize, flatten: bool)
        requires
            old(self).wf(),
            n == old(self).globals@.len(),
            forall|j: int| BUILTIN_COUNT <= j < n && old(self).is_entity(j) ==> no_instances(#[trigger] old(self).entity(j)),
        ensures
            final(self).wf(),
            final(self).global_namespace == old(self).global_namespace,
            final(self).files == old(self).files,
            final(self).globals@.len() == n,
            forall|j: int| #[trigger] final(self).is_entity(j) <==> old(self).is_entity(j),
            same_declarations(*final(self), *old(self)),
            forall|j: int| BUILTIN_COUNT <= j < n && final(self).is_entity(j) ==> no_instances(#[trigger] final(self).entity(j)),
            forall|j: int|
                BUILTIN_COUNT <= j < n && old(self).is_entity(j) ==> #[trigger] stage_done(
                    unit_link_info(*final(self), j),
                    unit_link_info(*old(self), j),
                    stage_errors(*old(self), unit_link_info(*old(self), j), flatten),
                        stage_targets(*old(self), unit_link_info(*old(self), j), flatten),
                ),
    {
        let mut i: usize = BUILTIN_COUNT;
        while i < n
            invariant
                self.wf(),
                old(self).wf(),
                BUILTIN_COUNT <= i <= n,
                n == self.globals@.len(),
                n == old(self).globals@.len(),
                self.global_namespace == old(self).global_namespace,
                self.files == old(self).files,
                forall|j: int| #[trigger] self.is_entity(j) <==> old(self).is_entity(j),
                same_declarations(*self, *old(self)),
                forall|j: int| BUILTIN_COUNT <= j < n && self.is_entity(j) ==> no_instances(#[trigger] self.entity(j)),
                forall|j: int|
                    BUILTIN_COUNT <= j < i && old(self).is_entity(j) ==> #[trigger] stage_done(
                        unit_link_info(*self, j),
                        unit_link_info(*old(self), j),
                        stage_errors(*old(self), unit_link_info(*old(self), j), flatten),
                        stage_targets(*old(self), unit_link_info(*old(self), j), flatten),
                    ),
                forall|j: int| i <= j < n ==> #[trigger] self.globals@[j] == old(self).globals@[j],
            decreases n - i,
        {
            let id = NamedUUID::from_hidden_value(i);
            if self.globals.is_live(id) {
                let ghost before = *self;
                proof {
                    assert(self.globals@[i as int] == old(self).globals@[i as int]);
                    assert(live(old(self).globals, i as int));
                    assert(crate::linker::user_entity_wf(old(self).globals, old(self).files, i as int));
                }
                if flatten {
                    self.flatten_unit(id);
                    proof {
                        let li = unit_link_info(before, i as int);
                        lemma_unit_flatten_errors_congruent(before, *old(self), li, li);
                    }
                } else {
                    self.typecheck_unit(id);
                }
                proof {
                    lemma_unit_replaced_same(*self, before, i as int);
                    lemma_same_declarations_trans(*self, before, *old(self));
                    assert(crate::linker::user_entity_wf(before.globals, before.files, i as int));
                    assert forall|j: int| #[trigger] self.is_entity(j) <==> old(self).is_entity(j) by {
                        if 0 <= j < n && j != i as int {
                            assert(self.globals@[j] == before.globals@[j]);
                        }
                        assert(before.is_entity(j) <==> old(self).is_entity(j));
                    }
                    assert forall|j: int| BUILTIN_COUNT <= j < n && self.is_entity(j) implies no_instances(#[trigger] self.entity(j)) by {
                        if j != i as int {
                            assert(self.globals@[j] == before.globals@[j]);
                        }
                        assert(before.is_entity(j));
                        assert(no_instances(before.entity(j)));
                    }
                    assert forall|j: int|
                        BUILTIN_COUNT <= j < i + 1 && old(self).is_entity(j) implies #[trigger] stage_done(
                            unit_link_info(*self, j),
                            unit_link_info(*old(self), j),
                            stage_errors(*old(self), unit_link_info(*old(self), j), flatten),
                        stage_targets(*old(self), unit_link_info(*old(self), j), flatten),
                        ) by {
                        if j != i as int {
                            assert(self.globals@[j] == before.globals@[j]);
                        } else {
                            assert(unit_link_info(before, j).checkpoints@.len() >= 1);
                        }
                    }
                    assert forall|j: int| i + 1 <= j < n implies #[trigger] self.globals@[j] == old(self).globals@[j] by {
                        assert(self.globals@[j] == before.globals@[j]);
                    }
                }
            } else {
                proof {
                    assert(!old(self).is_entity(i as int)) by {
                        assert(self.globals@[i as int] == old(self).globals@[i as int]);
                    }
                }
            }
            i = i + 1;
        }
    }
}

fn reset_link_info(li: &mut LinkInfo)
    requires
        old(li).wf(),
    ensures
        same_declaration(*old(li), *final(li)),
        final(li).checkpoints@ == old(li).checkpoints@.take(1),
        final(li).errors@ == gathering_errors(*old(li)),
{
    let cp = li.checkpoints[0];
    li.reset_to(cp);
    li.checkpoints.truncate(1);
    li.instructions = Vec::new();
}

/// The diagnostics of one declaration: its own, then those of its failed instantiations.
pub open spec fn unit_errors(n: Named) -> Seq<ErrorView> {
    match n {
        Named::Module(md) => md.link_info.errors@ + md.instantiations.errors@,
        _ => match spec_link_info(n) {
            Some(li) => li.errors@,
            None => Seq::empty(),
        },
    }
}

/// The diagnostics of the live declarations among `ids`, in order.
pub open spec fn errors_of_ids(linker: Linker, ids: Seq<NamedUUID>) -> Seq<ErrorView>
    decreases ids.len(),
{
    if ids.len() == 0 {
        Seq::empty()
    } else {
        errors_of_ids(linker, ids.drop_last()) + if linker.is_entity(ids.last().hidden_value as int) {
            unit_errors(linker.entity(ids.last().hidden_value as int))
        } else {
            Seq::empty()
        }
    }
}

/// One "Conflicts with" label at each live user declaration named `name` other than `d`, among
/// the ids below `upto`, in id order.
pub open spec fn conflict_labels(linker: Linker, d: int, name: Seq<char>, upto: int) -> Seq<crate::errors::InfoView>
    decreases upto,
{
    if upto <= BUILTIN_COUNT {
        Seq::empty()
    } else {
        let j = upto - 1;
        let li = unit_link_info(linker, j);
        conflict_labels(linker, d, name, j) + if linker.is_entity(j) && j != d && li.name@ == name {
            seq![(li.name_span, li.file.hidden_value, "Conflicts with"@)]
        } else {
            Seq::empty()
        }
    }
}

/// The diagnostic of a user declaration `d` that takes a builtin's name, if it does: at its
/// name, with a label at every other user declaration of that name.
pub open spec fn redeclaration_errors(linker: Linker, d: int) -> Seq<ErrorView> {
    let li = unit_link_info(linker, d);
    if d >= BUILTIN_COUNT && linker.is_entity(d) && crate::linker::builtin_index(li.name@) is Some {
        seq![(
            li.name_span,
            crate::linker::redeclare_builtin_message(li.name@),
            conflict_labels(linker, d, li.name@, linker.globals@.len() as int),
        )]
    } else {
        Seq::empty()
    }
}

/// The builtin redeclarations among `ids`, in order.
pub open spec fn redeclarations_of_ids(linker: Linker, ids: Seq<NamedUUID>) -> Seq<ErrorView>
    decreases ids.len(),
{
    if ids.len() == 0 {
        Seq::empty()
    } else {
        redeclarations_of_ids(linker, ids.drop_last()) + redeclaration_errors(linker, ids.last().hidden_value as int)
    }
}

/// Every diagnostic placed in file `f`: its syntax errors, its declarations that take a builtin's
/// name, then the diagnostics of its declarations, in order.
pub open spec fn file_errors(linker: Linker, f: int) -> Seq<ErrorView> {
    linker.file(f).parsing_errors@ + redeclarations_of_ids(linker, linker.file(f).associated_values@) + errors_of_ids(
        linker,
        linker.file(f).associated_values@,
    )
}

impl Linker {
    /// Gathers the declarations of a file that the parser read, under a new file id. No other file
    /// may have the same identifier.
    pub fn add_file(&mut self, file_identifier: String, text: String, parsed: ParsedFile) -> (r: FileUUID)
        requires
            old(self).wf(),
            forall|f: int| #[trigger] old(self).is_file(f) ==> old(self).file(f).file_identifier@ != file_identifier@,
            parsed.fits(text@.len()),
            old(self).globals@.len() + parsed.objects@.len() <= usize::MAX,
        ensures
            final(self).wf(),
            r.hidden_value == old(self).files@.len(),
            final(self).is_file(r.hidden_value as int),
            final(self).file(r.hidden_value as int).file_text@ == text@,
            final(self).file(r.hidden_value as int).file_identifier@ == file_identifier@,
            final(self).file(r.hidden_value as int).parsed == parsed,
            final(self).file(r.hidden_value as int).parsing_errors@ == crate::linker::syntax_error_views(parsed.syntax_errors@),
            crate::linker::consecutive_ids(
                final(self).file(r.hidden_value as int).associated_values@,
                old(self).globals@.len() as int,
                parsed.objects@.len() as int,
            ),
            final(self).files@.len() == old(self).files@.len() + 1,
            forall|f: int| 0 <= f < old(self).files@.len() ==> #[trigger] final(self).files@[f] == old(self).files@[f],
            final(self).globals@.len() == old(self).globals@.len() + parsed.objects@.len(),
            forall|i: int| 0 <= i < old(self).globals@.len() ==> #[trigger] final(self).globals@[i] == old(self).globals@[i],
            forall|i: int|
                old(self).globals@.len() <= i < final(self).globals@.len() ==> #[trigger] crate::linker::gathered_at(
                    final(self).globals,
                    i,
                    old(self).globals@.len() as int,
                    r,
                    text@,
                    parsed.objects@,
                ),
            forall|n: Seq<char>|
                #[trigger] final(self).lookup(n) == old(self).lookup(n) + crate::linker::declared_ids(
                    old(self).globals@.len() as int,
                    crate::linker::object_names(text@, parsed.objects@),
                    n,
                ),
    {
        let file_id = self.reserve_file();
        self.add_reserved_file(file_id, file_identifier, text, parsed);
        proof {
            assert forall|f: int| 0 <= f < old(self).files@.len() implies #[trigger] self.files@[f] == old(self).files@[f] by {
                assert(f != file_id.hidden_value);
            }
        }
        file_id
    }

    /// Replaces the text of a file: its declarations and their bindings go, and are gathered anew from `parsed`.
    pub fn update_file(&mut self, text: String, file_id: FileUUID, parsed: ParsedFile)
        requires
            old(self).wf(),
            old(self).is_file(file_id.hidden_value as int),
            parsed.fits(text@.len()),
            old(self).globals@.len() + parsed.objects@.len() <= usize::MAX,
        ensures
            final(self).wf(),
            final(self).is_file(file_id.hidden_value as int),
            final(self).file(file_id.hidden_value as int).file_text@ == text@,
            final(self).file(file_id.hidden_value as int).file_identifier@ == old(self).file(file_id.hidden_value as int).file_identifier@,
            final(self).file(file_id.hidden_value as int).parsed == parsed,
            final(self).file(file_id.hidden_value as int).parsing_errors@ == crate::linker::syntax_error_views(parsed.syntax_errors@),
            crate::linker::consecutive_ids(
                final(self).file(file_id.hidden_value as int).associated_values@,
                old(self).globals@.len() as int,
                parsed.objects@.len() as int,
            ),
            final(self).files@.len() == old(self).files@.len(),
            forall|f: int|
                0 <= f < old(self).files@.len() && f != file_id.hidden_value ==> #[trigger] final(self).files@[f] == old(self).files@[f],
            final(self).globals@.len() == old(self).globals@.len() + parsed.objects@.len(),
            forall|i: int|
                0 <= i < old(self).globals@.len() ==> crate::linker::removed_slot(
                    #[trigger] final(self).globals@[i],
                    old(self).globals@[i],
                    crate::linker::ids_of_files(old(self).files, seq![file_id]).contains(i as usize),
                ),
            forall|i: int|
                old(self).globals@.len() <= i < final(self).globals@.len() ==> #[trigger] crate::linker::gathered_at(
                    final(self).globals,
                    i,
                    old(self).globals@.len() as int,
                    file_id,
                    text@,
                    parsed.objects@,
                ),
            forall|n: Seq<char>|
                #[trigger] final(self).lookup(n) == crate::namespace::without(
                    old(self).lookup(n),
                    crate::linker::ids_of_files(old(self).files, seq![file_id]),
                ) + crate::linker::declared_ids(
                    old(self).globals@.len() as int,
                    crate::linker::object_names(text@, parsed.objects@),
                    n,
                ),
    {
        self.relink(file_id, text, parsed);
    }

    /// One "Conflicts with" label at each live user declaration called `name` other than `d`.
    fn conflict_infos(&self, d: NamedUUID, name: &String) -> (r: Vec<crate::errors::ErrorInfo>)
        requires
            self.wf(),
        ensures
            crate::errors::infos_view(r@) == conflict_labels(*self, d.hidden_value as int, name@, self.globals@.len() as int),
    {
        let n = self.globals.len();
        let mut r: Vec<crate::errors::ErrorInfo> = Vec::new();
        let mut j: usize = BUILTIN_COUNT;
        while j < n
            invariant
                BUILTIN_COUNT <= j <= n,
                n == self.globals@.len(),
                self.wf(),
                crate::errors::infos_view(r@) == conflict_labels(*self, d.hidden_value as int, name@, j as int),
            decreases n - j,
        {
            let id = NamedUUID::from_hidden_value(j);
            let ghost before = r@;
            if j != d.hidden_value && self.globals.is_live(id) {
                proof {
                    assert(live(self.globals, j as int));
                    assert(crate::linker::user_entity_wf(self.globals, self.files, j as int));
                }
                let li = self.get_link_info(id);
                if li.name == *name {
                    r.push(crate::errors::error_info(li.name_span, li.file, String::from_str("Conflicts with")));
                }
            }
            proof {
                assert(crate::errors::infos_view(r@) =~= conflict_labels(*self, d.hidden_value as int, name@, j as int + 1));
            }
            j = j + 1;
        }
        r
    }

    /// Every diagnostic placed in a file, in a fixed order.
    pub fn get_all_errors_in_file(&self, file: FileUUID) -> (r: Vec<ParsingError>)
        requires
            self.wf(),
            self.is_file(file.hidden_value as int),
        ensures
            r@.map_values(|e: ParsingError| e@) == file_errors(*self, file.hidden_value as int),
    {
        let fd = self.files.get(file);
        let mut out: Vec<ParsingError> = Vec::new();
        proof {
            assert(out@.map_values(|e: ParsingError| e@) =~= Seq::<ErrorView>::empty());
        }
        fd.parsing_errors.copy_into(&mut out);
        let ids = &fd.associated_values;
        let mut k: usize = 0;
        while k < ids.len()
            invariant
                k <= ids@.len(),
                self.wf(),
                ids == &self.file(file.hidden_value as int).associated_values,
                out@.map_values(|e: ParsingError| e@) == fd.parsing_errors@ + redeclarations_of_ids(*self, ids@.take(k as int)),
            decreases ids@.len() - k,
        {
            let id = ids[k];
            let ghost before = out@.map_values(|e: ParsingError| e@);
            proof {
                assert(ids@.take(k as int + 1).drop_last() =~= ids@.take(k as int));
            }
            if id.hidden_value >= BUILTIN_COUNT && self.globals.is_live(id) {
                proof {
                    assert(live(self.globals, id.hidden_value as int));
                    assert(crate::linker::user_entity_wf(self.globals, self.files, id.hidden_value as int));
                }
                let li = self.get_link_info(id);
                if crate::linker::is_builtin_name(li.name.as_str()) {
                    let infos = self.conflict_infos(id, &li.name);
                    let e = ParsingError { position: li.name_span, reason: crate::linker::redeclare_builtin_reason(&li.name), infos };
                    let ghost ev = e@;
                    out.push(e);
                    proof {
                        assert(out@.map_values(|e: ParsingError| e@) =~= before.push(ev));
                        assert(redeclaration_errors(*self, id.hidden_value as int) == seq![ev]);
                    }
                } else {
                    proof {
                        assert(redeclaration_errors(*self, id.hidden_value as int) == Seq::<ErrorView>::empty());
                    }
                }
            }
            proof {
                assert(out@.map_values(|e: ParsingError| e@) =~= fd.parsing_errors@ + redeclarations_of_ids(*self, ids@.take(k as int + 1)));
            }
            k = k + 1;
        }
        proof {
            assert(ids@.take(ids@.len() as int) =~= ids@);
        }
        let ghost with_redeclarations = out@.map_values(|e: ParsingError| e@);
        let mut k: usize = 0;
        while k < ids.len()
            invariant
                k <= ids@.len(),
                ids == &self.file(file.hidden_value as int).associated_values,
                out@.map_values(|e: ParsingError| e@) == with_redeclarations + errors_of_ids(*self, ids@.take(k as int)),
            decreases ids@.len() - k,
        {
            let id = ids[k];
            let ghost before = out@.map_values(|e: ParsingError| e@);
            proof {
                assert(ids@.take(k as int + 1).drop_last() =~= ids@.take(k as int));
            }
            if self.globals.is_live(id) {
                match self.globals.get(id) {
                    Named::Module(md) => {
                        md.link_info.errors.copy_into(&mut out);
                        md.instantiations.errors.copy_into(&mut out);
                    },
                    Named::Type(NamedType::Struct(li)) => li.errors.copy_into(&mut out),
                    Named::Constant(NamedConstant::User(li)) => li.errors.copy_into(&mut out),
                    _ => {},
                }
            }
            proof {
                assert(out@.map_values(|e: ParsingError| e@) =~= with_redeclarations + errors_of_ids(*self, ids@.take(k as int + 1)));
            }
            k = k + 1;
        }
        proof {
            assert(ids@.take(ids@.len() as int) =~= ids@);
        }
        out
    }
}

/// Two link infos describe the same declaration.
pub open spec fn same_link_info(a: LinkInfo, b: LinkInfo) -> bool {
    &&& a.file == b.file
    &&& a.object_index == b.object_index
    &&& a.name == b.name
    &&& a.name_span == b.name_span
    &&& a.template_arguments == b.template_arguments
}

/// Two entities are the same declaration, whatever the pipeline computed for them.
pub open spec fn same_entity(x: Named, y: Named) -> bool {
    &&& (x is Module <==> y is Module)
    &&& (x is Type <==> y is Type)
    &&& (x is Constant <==> y is Constant)
    &&& match (spec_link_info(x), spec_link_info(y)) {
        (Some(a), Some(b)) => same_link_info(a, b),
        (None, None) => x == y,
        _ => false,
    }
}

/// `a` and `b` hold the same declarations and files under the same names; they differ at most
/// in what the pipeline computed for each declaration.
pub open spec fn same_declarations(a: Linker, b: Linker) -> bool {
    &&& a.global_namespace == b.global_namespace
    &&& a.files == b.files
    &&& a.globals@.len() == b.globals@.len()
    &&& forall|i: int| #[trigger] a.is_entity(i) <==> b.is_entity(i)
    &&& forall|i: int| a.is_entity(i) ==> same_entity(#[trigger] a.entity(i), b.entity(i))
}

proof fn lemma_same_declarations_trans(a: Linker, b: Linker, c: Linker)
    requires
        same_declarations(a, b),
        same_declarations(b, c),
    ensures
        same_declarations(a, c),
{
    assert forall|i: int| a.is_entity(i) implies same_entity(#[trigger] a.entity(i), c.entity(i)) by {
        assert(b.is_entity(i));
        assert(same_entity(a.entity(i), b.entity(i)));
        assert(same_entity(b.entity(i), c.entity(i)));
    }
}

/// Replacing one declaration by the same declaration keeps the declarations the same.
proof fn lemma_unit_replaced_same(after: Linker, before: Linker, i: int)
    requires
        after.unit_replaced(before, i),
    ensures
        same_declarations(after, before),
{
    assert forall|j: int| #[trigger] after.is_entity(j) <==> before.is_entity(j) by {
        if 0 <= j < before.globals@.len() && j != i {
            assert(after.globals@[j] == before.globals@[j]);
        }
    }
    assert forall|j: int| after.is_entity(j) implies same_entity(#[trigger] after.entity(j), before.entity(j)) by {
        if j != i {
            assert(after.globals@[j] == before.globals@[j]);
        }
    }
}

proof fn lemma_same_entity_views(x: Named, y: Named, span: Span, expected: Seq<char>)
    requires
        same_entity(x, y),
    ensures
        crate::linker::spec_named_type(x) == crate::linker::spec_named_type(y),
        crate::linker::spec_name(x) == crate::linker::spec_name(y),
        crate::resolver::declaration_label(x) == crate::resolver::declaration_label(y),
        not_expected_error(x, span, expected) == not_expected_error(y, span, expected),
        crate::resolver::wrong_kind_error(x, span, expected) == crate::resolver::wrong_kind_error(y, span, expected),
        forall|k: GlobalKind| kind_matches(x, k) == kind_matches(y, k),
        spec_template_count(x) == spec_template_count(y),
{
}

proof fn lemma_kind_errors_congruent(a: Linker, b: Linker, text: Seq<char>, span: Span, expected: GlobalKind)
    requires
        a.wf(),
        same_declarations(a, b),
    ensures
        kind_errors(a, text, span, expected) == kind_errors(b, text, span, expected),
        resolves_to_kind(a, text, span, expected) == resolves_to_kind(b, text, span, expected),
{
    let name = crate::linker::span_text(text, span);
    let ids = a.lookup(name);
    assert(ids == b.lookup(name));
    assert forall|k: int| 0 <= k < ids.len() implies same_entity(a.entity(#[trigger] ids[k] as int), b.entity(ids[k] as int)) by {
        assert(live(a.globals, ids[k] as int));
        assert(a.is_entity(ids[k] as int));
    }
    if ids.len() == 1 {
        lemma_same_entity_views(a.entity(ids[0] as int), b.entity(ids[0] as int), span, kind_name(expected));
    } else {
        assert(crate::resolver::collision_labels(a, ids) =~= crate::resolver::collision_labels(b, ids)) by {
            assert forall|k: int| 0 <= k < ids.len() implies crate::resolver::declaration_label(a.entity(#[trigger] ids[k] as int))
                == crate::resolver::declaration_label(b.entity(ids[k] as int)) by {
                lemma_same_entity_views(a.entity(ids[k] as int), b.entity(ids[k] as int), span, kind_name(expected));
            }
        }
    }
}

proof fn lemma_arg_errors_congruent(a: Linker, b: Linker, text: Seq<char>, args: Seq<Option<crate::syntax::TemplateArgSyntax>>, count: int)
    requires
        a.wf(),
        same_declarations(a, b),
    ensures
        arg_errors(a, text, args, count) == arg_errors(b, text, args, count),
    decreases count,
{
    if count > 0 {
        lemma_arg_errors_congruent(a, b, text, args, count - 1);
        let k = count - 1;
        if 0 <= k < args.len() {
            if let Some(arg) = args[k] {
                if let TemplateArgValueSyntax::Type(span) = arg.value {
                    lemma_kind_errors_congruent(a, b, text, span, GlobalKind::Type);
                }
            }
        }
    }
}

proof fn lemma_refs_errors_congruent(a: Linker, b: Linker, text: Seq<char>, refs: Seq<ReferenceSyntax>)
    requires
        a.wf(),
        same_declarations(a, b),
    ensures
        refs_errors(a, text, refs) == refs_errors(b, text, refs),
    decreases refs.len(),
{
    if refs.len() > 0 {
        lemma_refs_errors_congruent(a, b, text, refs.drop_last());
        let r = refs.last();
        lemma_kind_errors_congruent(a, b, text, r.name_span, r.expected);
        if resolves_to_kind(a, text, r.name_span, r.expected) {
            let ids = a.lookup(crate::linker::span_text(text, r.name_span));
            assert(live(a.globals, ids[0] as int));
            assert(a.is_entity(ids[0] as int));
            lemma_same_entity_views(a.entity(ids[0] as int), b.entity(ids[0] as int), r.name_span, Seq::empty());
            lemma_arg_errors_congruent(a, b, text, r.template_args@, spec_template_count(a.entity(ids[0] as int)));
        }
    }
}

/// What `recompile_all` guarantees: the same declarations, each with the diagnostics of gathering
/// and of flattening it, and every module without template parameters instantiated.
pub open spec fn recompile_post(before: Linker, after: Linker) -> bool {
    &&& after.wf()
    &&& same_declarations(after, before)
    &&& forall|i: int| BUILTIN_COUNT <= i && after.is_entity(i) ==> #[trigger] recompiled_instances(after, i)
    &&& forall|i: int| BUILTIN_COUNT <= i && before.is_entity(i) ==> #[trigger] recompiled_unit(after, before, i)
    &&& forall|i: int| is_plain_module(after, i) ==> #[trigger] instantiated_without_arguments(after, i)
}


proof fn lemma_unit_errors_stable(l0: Linker, l1: Linker, l2: Linker, i: int)
    requires
        l0.wf(),
        recompile_post(l0, l1),
        recompile_post(l1, l2),
        l1.is_entity(i),
    ensures
        unit_errors(l2.entity(i)) == unit_errors(l1.entity(i)),
{
    assert(l0.is_entity(i));
    assert(l2.is_entity(i));
    assert(same_entity(l1.entity(i), l0.entity(i)));
    assert(same_entity(l2.entity(i), l1.entity(i)));
    if i < BUILTIN_COUNT {
        assert(crate::linker::builtins_wf(l1.globals, l1.global_namespace));
        assert(live(l1.globals, i));
        assert(spec_link_info(l1.entity(i)) is None);
    } else {
        assert(recompiled_unit(l1, l0, i));
        assert(recompiled_unit(l2, l1, i));
        let li0 = unit_link_info(l0, i);
        let li1 = unit_link_info(l1, i);
        let li2 = unit_link_info(l2, i);
        assert(crate::linker::user_entity_wf(l0.globals, l0.files, i));
        let c = li0.checkpoints@[0].errors_cp;
        assert(c == 0);
        assert(gathering_errors(li0).len() == c);
        assert(li1.errors@.subrange(0, c as int) =~= gathering_errors(li0));
        assert(gathering_errors(li1) == gathering_errors(li0));
        lemma_unit_flatten_errors_congruent(l1, l0, li1, li0);
        assert(li2.errors@ == li1.errors@);
    }
}

proof fn lemma_errors_of_ids_stable(l0: Linker, l1: Linker, l2: Linker, ids: Seq<NamedUUID>)
    requires
        l0.wf(),
        recompile_post(l0, l1),
        recompile_post(l1, l2),
    ensures
        errors_of_ids(l2, ids) == errors_of_ids(l1, ids),
    decreases ids.len(),
{
    if ids.len() > 0 {
        lemma_errors_of_ids_stable(l0, l1, l2, ids.drop_last());
        let last = ids.last().hidden_value as int;
        assert(l2.is_entity(last) <==> l1.is_entity(last));
        if l1.is_entity(last) {
            lemma_unit_errors_stable(l0, l1, l2, last);
        }
    }
}

/// Recompiling twice in a row, with no change to the files in between, leaves every file with
/// the same diagnostics, in the same order, after the second run as after the first.
proof fn lemma_conflict_labels_congruent(a: Linker, b: Linker, d: int, name: Seq<char>, upto: int)
    requires
        same_declarations(a, b),
    ensures
        conflict_labels(a, d, name, upto) == conflict_labels(b, d, name, upto),
    decreases upto,
{
    if upto > BUILTIN_COUNT {
        lemma_conflict_labels_congruent(a, b, d, name, upto - 1);
        let j = upto - 1;
        if a.is_entity(j) {
            assert(same_entity(a.entity(j), b.entity(j)));
        }
    }
}

proof fn lemma_redeclarations_congruent(a: Linker, b: Linker, ids: Seq<NamedUUID>)
    requires
        same_declarations(a, b),
    ensures
        redeclarations_of_ids(a, ids) == redeclarations_of_ids(b, ids),
    decreases ids.len(),
{
    if ids.len() > 0 {
        lemma_redeclarations_congruent(a, b, ids.drop_last());
        let d = ids.last().hidden_value as int;
        if a.is_entity(d) {
            assert(same_entity(a.entity(d), b.entity(d)));
            lemma_conflict_labels_congruent(a, b, d, unit_link_info(a, d).name@, a.globals@.len() as int);
        }
    }
}

pub proof fn lemma_recompile_twice_same_diagnostics(l0: Linker, l1: Linker, l2: Linker, f: int)
    requires
        l0.wf(),
        recompile_post(l0, l1),
        recompile_post(l1, l2),
        l1.is_file(f),
    ensures
        file_errors(l2, f) == file_errors(l1, f),
{
    lemma_errors_of_ids_stable(l0, l1, l2, l1.file(f).associated_values@);
    lemma_redeclarations_congruent(l2, l1, l1.file(f).associated_values@);
}

/// The instance of a module without template parameters.
pub open spec fn plain_instance(linker: Linker, i: int) -> Rc<InstantiatedModule> {
    let entries = module_instances(linker.entity(i)).cache@;
    entries[find_entry(entries, Seq::<ConcreteTemplateArg>::empty())->0].result->0
}

/// Recompiling twice in a row, with no change to the files in between, gives every module without
/// template parameters an instance with the same name, arguments and referenced globals both times.
pub proof fn lemma_recompile_twice_same_instances(l0: Linker, l1: Linker, l2: Linker, i: int)
    requires
        l0.wf(),
        recompile_post(l0, l1),
        recompile_post(l1, l2),
        is_plain_module(l1, i),
    ensures
        is_plain_module(l2, i),
        plain_instance(l2, i).name@ == plain_instance(l1, i).name@,
        plain_instance(l2, i).template_args@ == plain_instance(l1, i).template_args@,
        plain_instance(l2, i).references@.map_values(|u: NamedUUID| u.hidden_value)
            == plain_instance(l1, i).references@.map_values(|u: NamedUUID| u.hidden_value),
{
    assert(l0.is_entity(i));
    assert(l2.is_entity(i));
    assert(same_entity(l1.entity(i), l0.entity(i)));
    assert(same_entity(l2.entity(i), l1.entity(i)));
    assert(is_plain_module(l2, i));
    assert(instantiated_without_arguments(l1, i));
    assert(instantiated_without_arguments(l2, i));
    assert(recompiled_unit(l1, l0, i));
    assert(recompiled_unit(l2, l1, i));
    let li0 = unit_link_info(l0, i);
    let li1 = unit_link_info(l1, i);
    lemma_unit_flatten_errors_congruent(l1, l0, li1, li0);
    assert(plain_instance(l2, i).template_args@ =~= plain_instance(l1, i).template_args@);
}

/// A declaration whose body mentions no global and whose name is no builtin's.
pub open spec fn quiet_declaration(linker: Linker, i: int) -> bool {
    let li = unit_link_info(linker, i);
    &&& crate::linker::builtin_index(li.name@) is None
    &&& at(linker.files, li.file.hidden_value as int).parsed.objects@[li.object_index as int].references@.len() == 0
}

proof fn lemma_quiet_ids(before: Linker, after: Linker, ids: Seq<NamedUUID>)
    requires
        before.wf(),
        recompile_post(before, after),
        forall|k: int| 0 <= k < ids.len() ==> before.is_entity(#[trigger] ids[k].hidden_value as int)
            && ids[k].hidden_value >= BUILTIN_COUNT && quiet_declaration(before, ids[k].hidden_value as int),
    ensures
        redeclarations_of_ids(after, ids) == Seq::<ErrorView>::empty(),
        errors_of_ids(after, ids) == Seq::<ErrorView>::empty(),
    decreases ids.len(),
{
    if ids.len() > 0 {
        lemma_quiet_ids(before, after, ids.drop_last());
        let i = ids.last().hidden_value as int;
        assert(before.is_entity(i) && quiet_declaration(before, i));
        assert(after.is_entity(i));
        assert(same_entity(after.entity(i), before.entity(i)));
        assert(recompiled_unit(after, before, i));
        let li0 = unit_link_info(before, i);
        assert(crate::linker::user_entity_wf(before.globals, before.files, i));
        assert(gathering_errors(li0) =~= Seq::<ErrorView>::empty());
        let fd = at(before.files, li0.file.hidden_value as int);
        assert(refs_errors(before, fd.file_text@, fd.parsed.objects@[li0.object_index as int].references@) == Seq::<ErrorView>::empty());
        assert(unit_link_info(after, i).errors@ =~= Seq::<ErrorView>::empty());
        assert(unit_errors(after.entity(i)) =~= Seq::<ErrorView>::empty());
        assert(redeclaration_errors(after, i) == Seq::<ErrorView>::empty());
        assert(errors_of_ids(after, ids) =~= Seq::<ErrorView>::empty());
        assert(redeclarations_of_ids(after, ids) =~= Seq::<ErrorView>::empty());
    }
}

/// After a recompile, a file without syntax errors whose declarations mention no global and take
/// no builtin's name has no diagnostics, whatever other files declare the same names.
pub proof fn lemma_quiet_file_has_no_diagnostics(before: Linker, after: Linker, f: int)
    requires
        before.wf(),
        recompile_post(before, after),
        before.is_file(f),
        before.file(f).parsing_errors@.len() == 0,
        forall|k: int|
            0 <= k < before.file(f).associated_values@.len() ==> #[trigger] quiet_declaration(
                before,
                before.file(f).associated_values@[k].hidden_value as int,
            ),
        forall|k: int|
            0 <= k < before.file(f).associated_values@.len() ==> before.is_entity(
                #[trigger] before.file(f).associated_values@[k].hidden_value as int,
            ),
    ensures
        file_errors(after, f) == Seq::<ErrorView>::empty(),
{
    let ids = before.file(f).associated_values@;
    assert(crate::linker::file_wf(before.globals, before.files, f));
    assert forall|k: int| 0 <= k < ids.len() implies before.is_entity(#[trigger] ids[k].hidden_value as int)
        && ids[k].hidden_value >= BUILTIN_COUNT && quiet_declaration(before, ids[k].hidden_value as int) by {
        assert(quiet_declaration(before, ids[k].hidden_value as int));
        assert(before.is_entity(ids[k].hidden_value as int));
    }
    lemma_quiet_ids(before, after, ids);
    assert(after.file(f) == before.file(f));
    assert(file_errors(after, f) =~= Seq::<ErrorView>::empty());
}

} // verus!
