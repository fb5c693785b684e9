//! Dependency records of units, their checkpoints, and name resolution on behalf of one unit.
use crate::errors::{ErrorCollector, ErrorInfo, ErrorStore, InfoView, ErrorView, error_info, infos_view};
use crate::file_position::Span;
use crate::linker::{
    BUILTIN_COUNT, CheckPoint, FileData, LinkInfo, Linkable, Linker, Module, spec_location, Named, NamedConstant, NamedType, NamedUUID, at, full_name,
    live, span_text, spec_link_info, spec_name, spec_named_type, text_at,
};
use crate::namespace::NamespaceElement;
use crate::syntax::GlobalKind;
use crate::template::GlobalReference;
use vstd::prelude::*;

verus! {

/// The globals a unit has touched, in order, and whether every name it looked up resolved.
pub struct ResolvedGlobals {
    referenced_globals: Vec<NamedUUID>,
    all_resolved: bool,
}

/// A snapshot of a [`ResolvedGlobals`]: how many globals it held, and its flag.
#[derive(Clone, Copy, Debug, PartialEq, Eq, Structural)]
pub struct ResolvedGlobalsCheckpoint(pub usize, pub bool);

pub open spec fn ids_view(ids: Seq<NamedUUID>) -> Seq<usize> {
    ids.map_values(|g: NamedUUID| g.hidden_value)
}

impl View for ResolvedGlobals {
    type V = (Seq<usize>, bool);

    closed spec fn view(&self) -> (Seq<usize>, bool) {
        (ids_view(self.referenced_globals@), self.all_resolved)
    }
}

impl ResolvedGlobals {
    pub fn new() -> (r: ResolvedGlobals)
        ensures
            r@ == (Seq::<usize>::empty(), true),
    {
        ResolvedGlobals::empty()
    }

    pub fn empty() -> (r: ResolvedGlobals)
        ensures
            r@ == (Seq::<usize>::empty(), true),
    {
        let r = ResolvedGlobals { referenced_globals: Vec::new(), all_resolved: true };
        proof {
            assert(r@.0 =~= Seq::<usize>::empty());
        }
        r
    }

    /// Hands out the record and leaves an empty one in its place.
    pub fn take(&mut self) -> (r: ResolvedGlobals)
        ensures
            r@ == old(self)@,
            final(self)@ == (Seq::<usize>::empty(), true),
    {
        let mut r = ResolvedGlobals::empty();
        core::mem::swap(&mut r, self);
        r
    }

    pub fn is_untouched(&self) -> (r: bool)
        ensures
            r == (self@.0.len() == 0 && self@.1),
    {
        self.referenced_globals.len() == 0 && self.all_resolved
    }

    /// Rolls the record back to a snapshot taken earlier.
    pub fn reset_to(&mut self, checkpoint: ResolvedGlobalsCheckpoint)
        ensures
            final(self)@ == (
                if checkpoint.0 <= old(self)@.0.len() {
                    old(self)@.0.subrange(0, checkpoint.0 as int)
                } else {
                    old(self)@.0
                },
                checkpoint.1,
            ),
    {
        if checkpoint.0 <= self.referenced_globals.len() {
            self.referenced_globals.truncate(checkpoint.0);
            proof {
                assert(ids_view(self.referenced_globals@) =~= old(self)@.0.subrange(0, checkpoint.0 as int));
            }
        }
        self.all_resolved = checkpoint.1;
    }

    pub fn checkpoint(&self) -> (r: ResolvedGlobalsCheckpoint)
        ensures
            r.0 == self@.0.len(),
            r.1 == self@.1,
    {
        ResolvedGlobalsCheckpoint(self.referenced_globals.len(), self.all_resolved)
    }

    /// Records a touched global.
    pub fn push(&mut self, id: NamedUUID)
        ensures
            final(self)@ == (old(self)@.0.push(id.hidden_value), old(self)@.1),
    {
        self.referenced_globals.push(id);
        proof {
            assert(final(self)@.0 =~= old(self)@.0.push(id.hidden_value));
        }
    }

    /// Records that a lookup failed.
    pub fn mark_unresolved(&mut self)
        ensures
            final(self)@ == (old(self)@.0, false),
    {
        self.all_resolved = false;
    }
}

/// "No Global of the name '<name>' was found. Did you forget to import it?"
pub open spec fn not_found_message(name: Seq<char>) -> Seq<char> {
    "No Global of the name '"@ + name + "' was found. Did you forget to import it?"@
}

/// "There were colliding imports for the name '<name>'. Pick one and import it by name."
pub open spec fn colliding_message(name: Seq<char>) -> Seq<char> {
    "There were colliding imports for the name '"@ + name + "'. Pick one and import it by name."@
}

/// "<kind> ::<name> declared here"
pub open spec fn declared_here_message(n: Named) -> Seq<char> {
    spec_named_type(n) + " "@ + full_name(spec_name(n)) + " declared here"@
}

/// "::<name> is not a <expected>, it is a <kind> instead!"
pub open spec fn not_expected_message(n: Named, expected: Seq<char>) -> Seq<char> {
    full_name(spec_name(n)) + " is not a "@ + expected + ", it is a "@ + spec_named_type(n) + " instead!"@
}

/// The label that points at a user declaration.
pub open spec fn declaration_label(n: Named) -> InfoView {
    let li = spec_link_info(n)->0;
    (li.name_span, li.file.hidden_value, declared_here_message(n))
}

/// One label per colliding declaration, in the order they were declared.
pub open spec fn collision_labels(linker: Linker, ids: Seq<usize>) -> Seq<InfoView> {
    ids.map_values(|id: usize| declaration_label(linker.entity(id as int)))
}

/// The diagnostic that resolving `name` at `span` gives, if any.
pub open spec fn resolution_error(linker: Linker, span: Span, name: Seq<char>) -> Option<ErrorView> {
    let ids = linker.lookup(name);
    if ids.len() == 0 {
        Some((span, not_found_message(name), Seq::<InfoView>::empty()))
    } else if ids.len() == 1 {
        None
    } else {
        Some((span, colliding_message(name), collision_labels(linker, ids)))
    }
}

fn named_type_of(n: &Named) -> (r: String)
    ensures
        r@ == spec_named_type(*n),
{
    match n {
        Named::Constant(NamedConstant::Builtin { .. }) => String::from_str("Builtin Constant"),
        Named::Constant(NamedConstant::User(_)) => String::from_str("Constant"),
        Named::Type(NamedType::Builtin(_)) => String::from_str("Builtin Type"),
        Named::Type(NamedType::Struct(_)) => String::from_str("Struct"),
        Named::Module(_) => String::from_str("Module"),
    }
}

fn quoted_message(prefix: &str, name: &String, suffix: &str) -> (r: String)
    ensures
        r@ == prefix@ + name@ + suffix@,
{
    let mut r = String::from_str(prefix);
    r.append(name.as_str());
    r.append(suffix);
    r
}

/// Resolves names on behalf of one unit: it records every global the unit touches
/// and keeps the unit's diagnostics, which it takes over while the unit is analysed.
pub struct GlobalResolver<'linker> {
    pub linker: &'linker Linker,
    pub file_data: &'linker FileData,
    pub errors: ErrorCollector,
    pub resolved_globals: ResolvedGlobals,
}

impl<'linker> GlobalResolver<'linker> {
    pub open spec fn spec_resolved_globals(&self) -> (Seq<usize>, bool) {
        self.resolved_globals@
    }

    /// The resolver stands on a well-formed linker, on the file of its unit.
    pub open spec fn wf(&self) -> bool {
        &&& self.linker.wf()
        &&& live(self.linker.files, self.errors.main_file.hidden_value as int)
        &&& *self.file_data == at(self.linker.files, self.errors.main_file.hidden_value as int)
    }

    pub open spec fn text(&self) -> Seq<char> {
        self.file_data.file_text@
    }

    /// Detaches the diagnostics and dependency record of a unit, leaving both empty.
    pub fn take_errors_globals(linker: &mut Linker, global_obj: NamedUUID) -> (r: (ErrorStore, ResolvedGlobals))
        requires
            old(linker).wf(),
            old(linker).is_entity(global_obj.hidden_value as int),
            spec_link_info(old(linker).entity(global_obj.hidden_value as int)) is Some,
        ensures
            final(linker).wf(),
            ({
                let li = spec_link_info(old(linker).entity(global_obj.hidden_value as int))->0;
                let nli = spec_link_info(final(linker).entity(global_obj.hidden_value as int))->0;
                &&& r.0@ == li.errors@
                &&& r.1@ == li.resolved_globals@
                &&& nli.errors@ == Seq::<ErrorView>::empty()
                &&& nli.resolved_globals@ == (Seq::<usize>::empty(), true)
                &&& nli.instructions == li.instructions
                &&& nli.checkpoints == li.checkpoints
            }),
            final(linker).unit_replaced(*old(linker), global_obj.hidden_value as int),
            final(linker).entity(global_obj.hidden_value as int) == crate::linker::with_link_info(
                old(linker).entity(global_obj.hidden_value as int),
                spec_link_info(final(linker).entity(global_obj.hidden_value as int))->0,
            ),
    {
        let ghost before = *linker;
        let li = linker.get_link_info_mut(global_obj);
        let errors = li.errors.take();
        let resolved_globals = li.resolved_globals.take();
        proof {
            linker.lemma_unit_replaced_wf(before, global_obj.hidden_value as int);
        }
        (errors, resolved_globals)
    }

    pub fn new(linker: &'linker Linker, file: crate::linker::FileUUID, errors_globals: (ErrorStore, ResolvedGlobals)) -> (r: Self)
        requires
            linker.wf(),
            linker.is_file(file.hidden_value as int),
        ensures
            r.wf(),
            r.linker == linker,
            r.errors.main_file == file,
            r.errors.store@ == errors_globals.0@,
            r.spec_resolved_globals() == errors_globals.1@,
    {
        let file_data = linker.files.get(file);
        GlobalResolver {
            linker,
            file_data,
            errors: ErrorCollector::from_storage(errors_globals.0, file),
            resolved_globals: errors_globals.1,
        }
    }

    /// Hands back the unit's diagnostics and dependency record.
    pub fn decommission(self) -> (r: (ErrorCollector, ResolvedGlobals))
        ensures
            r.0 == self.errors,
            r.1@ == self.spec_resolved_globals(),
    {
        (self.errors, self.resolved_globals)
    }

    /// Looks up the name written at `name_span`. A name bound to one global resolves to it
    /// and is recorded; an unbound or colliding one gives a diagnostic and marks the unit unresolved.
    pub fn resolve_global(&mut self, name_span: Span) -> (r: Option<NamedUUID>)
        requires
            old(self).wf(),
            name_span.fits(old(self).text().len()),
        ensures
            final(self).linker == old(self).linker,
            final(self).file_data == old(self).file_data,
            final(self).errors.main_file == old(self).errors.main_file,
            ({
                let name = span_text(old(self).text(), name_span);
                let ids = old(self).linker.lookup(name);
                &&& match resolution_error(*old(self).linker, name_span, name) {
                    Some(e) => final(self).errors.store@ == old(self).errors.store@.push(e),
                    None => final(self).errors.store@ == old(self).errors.store@,
                }
                &&& if ids.len() == 1 {
                    &&& r matches Some(id) && id.hidden_value == ids[0]
                    &&& final(self).spec_resolved_globals() == (old(self).spec_resolved_globals().0.push(ids[0]), old(self).spec_resolved_globals().1)
                } else {
                    &&& r is None
                    &&& final(self).spec_resolved_globals() == (old(self).spec_resolved_globals().0, false)
                }
            }),
    {
        let name = text_at(&self.file_data.file_text, name_span);
        let ghost ids = self.linker.lookup(name@);
        match self.linker.global_namespace.get(&name) {
            Some(NamespaceElement::Global(found)) => {
                proof {
                    assert(ids =~= seq![found.hidden_value]);
                }
                self.resolved_globals.push(*found);
                Some(*found)
            },
            Some(NamespaceElement::Colission(coll)) => {
                proof {
                    self.linker.lemma_collision_is_user(name@);
                }
                self.resolved_globals.mark_unresolved();
                let reason = quoted_message("There were colliding imports for the name '", &name, "'. Pick one and import it by name.");
                let mut infos: Vec<ErrorInfo> = Vec::new();
                let mut k: usize = 0;
                while k < coll.len()
                    invariant
                        k <= coll@.len(),
                        ids == ids_view(coll@),
                        ids.len() >= 2,
                        self.linker.wf(),
                        forall|q: int| 0 <= q < ids.len() ==> #[trigger] ids[q] >= BUILTIN_COUNT,
                        forall|q: int| 0 <= q < ids.len() ==> self.linker.is_entity(#[trigger] ids[q] as int),
                        infos_view(infos@) == collision_labels(*self.linker, ids.take(k as int)),
                    decreases coll@.len() - k,
                {
                    let id = coll[k];
                    proof {
                        assert(ids[k as int] == id.hidden_value);
                    }
                    let label = self.declaration_label(id);
                    let ghost before = infos@;
                    infos.push(label);
                    proof {
                        assert(ids.take(k as int + 1) =~= ids.take(k as int).push(id.hidden_value));
                        assert(infos_view(infos@) =~= infos_view(before).push(label@));
                        assert(collision_labels(*self.linker, ids.take(k as int + 1)) =~= collision_labels(*self.linker, ids.take(k as int)).push(label@));
                    }
                    k = k + 1;
                }
                proof {
                    assert(ids.take(ids.len() as int) =~= ids);
                }
                self.errors.error_with_info(name_span, reason, infos);
                None
            },
            None => {
                self.resolved_globals.mark_unresolved();
                let reason = quoted_message("No Global of the name '", &name, "' was found. Did you forget to import it?");
                self.errors.error_basic(name_span, reason);
                None
            },
        }
    }

    /// The label "<kind> ::<name> declared here" at a user declaration.
    fn declaration_label(&self, id: NamedUUID) -> (r: ErrorInfo)
        requires
            self.linker.wf(),
            self.linker.is_entity(id.hidden_value as int),
            id.hidden_value >= BUILTIN_COUNT,
        ensures
            r@ == declaration_label(self.linker.entity(id.hidden_value as int)),
    {
        let n = self.linker.globals.get(id);
        proof {
            assert(crate::linker::user_entity_wf(self.linker.globals, self.linker.files, id.hidden_value as int));
        }
        let li = self.linker.get_link_info(id);
        let mut message = named_type_of(n);
        message.append(" ");
        let full = li.get_full_name();
        message.append(full.as_str());
        message.append(" declared here");
        error_info(li.name_span, li.file, message)
    }

    /// Reads a global, recording it as a dependency of the unit.
    pub fn get_global(&mut self, id: NamedUUID) -> (r: &'linker Named)
        requires
            old(self).wf(),
            old(self).linker.is_entity(id.hidden_value as int),
        ensures
            *r == old(self).linker.entity(id.hidden_value as int),
            final(self).linker == old(self).linker,
            final(self).file_data == old(self).file_data,
            final(self).errors == old(self).errors,
            final(self).spec_resolved_globals() == (old(self).spec_resolved_globals().0.push(id.hidden_value), old(self).spec_resolved_globals().1),
    {
        self.resolved_globals.push(id);
        let linker = self.linker;
        linker.globals.get(id)
    }

    /// The link info of a user declaration, recording it as a dependency of the unit.
    pub fn get_link_info(&mut self, id: NamedUUID) -> (r: &'linker LinkInfo)
        requires
            old(self).wf(),
            old(self).linker.is_entity(id.hidden_value as int),
            spec_link_info(old(self).linker.entity(id.hidden_value as int)) is Some,
        ensures
            *r == spec_link_info(old(self).linker.entity(id.hidden_value as int))->0,
            final(self).linker == old(self).linker,
            final(self).file_data == old(self).file_data,
            final(self).errors == old(self).errors,
            final(self).spec_resolved_globals() == (old(self).spec_resolved_globals().0.push(id.hidden_value), old(self).spec_resolved_globals().1),
    {
        self.resolved_globals.push(id);
        let linker = self.linker;
        linker.get_link_info(id)
    }

    pub fn is_module(&self, id: NamedUUID) -> (r: Option<&'linker Module>)
        requires
            self.linker.is_entity(id.hidden_value as int),
        ensures
            match r {
                Some(md) => self.linker.entity(id.hidden_value as int) == Named::Module(*md),
                None => !(self.linker.entity(id.hidden_value as int) is Module),
            },
    {
        let linker = self.linker;
        match linker.globals.get(id) {
            Named::Module(md) => Some(md),
            _ => None,
        }
    }

    pub fn get_module(&self, id: NamedUUID) -> (r: &'linker Module)
        requires
            self.linker.is_entity(id.hidden_value as int),
            self.linker.entity(id.hidden_value as int) is Module,
        ensures
            self.linker.entity(id.hidden_value as int) == Named::Module(*r),
    {
        match self.is_module(id) {
            Some(md) => md,
            None => unreached(),
        }
    }

    /// Reports that the global a reference resolved to is not of the kind expected there,
    /// with a label at its declaration when it has one.
    pub fn not_expected_global_error(&mut self, global_ref: &GlobalReference<NamedUUID>, expected: &str)
        requires
            old(self).wf(),
            old(self).linker.is_entity(global_ref.id.hidden_value as int),
        ensures
            final(self).linker == old(self).linker,
            final(self).file_data == old(self).file_data,
            final(self).errors.main_file == old(self).errors.main_file,
            final(self).spec_resolved_globals() == old(self).spec_resolved_globals(),
            final(self).errors.store@ == old(self).errors.store@.push(
                not_expected_error(old(self).linker.entity(global_ref.id.hidden_value as int), global_ref.name_span, expected@),
            ),
    {
        let n = self.linker.globals.get(global_ref.id);
        let mut reason = n.get_full_name();
        reason.append(" is not a ");
        reason.append(expected);
        reason.append(", it is a ");
        let kind = named_type_of(n);
        reason.append(kind.as_str());
        reason.append(" instead!");
        let mut infos: Vec<ErrorInfo> = Vec::new();
        let li = match n {
            Named::Module(md) => Some(&md.link_info),
            Named::Type(NamedType::Struct(li)) => Some(li),
            Named::Constant(NamedConstant::User(li)) => Some(li),
            _ => None,
        };
        match li {
            Some(li) => {
                infos.push(error_info(li.name_span, li.file, String::from_str("Defined here")));
            },
            None => {},
        }
        proof {
            assert(infos_view(infos@) =~= not_expected_error(*n, global_ref.name_span, expected@).2);
        }
        self.errors.error_with_info(global_ref.name_span, reason, infos);
    }

    /// Resolves the name at `span` and checks that it names a global of kind `expected`.
    pub fn try_get_kind(&mut self, span: Span, expected: GlobalKind) -> (r: Option<NamedUUID>)
        requires
            old(self).wf(),
            span.fits(old(self).text().len()),
        ensures
            try_get_kind_post(*old(self), *final(self), span, expected, r),
    {
        let found = self.resolve_global(span);
        match found {
            Some(id) => {
                proof {
                    let ids = self.linker.lookup(span_text(self.text(), span));
                    assert(live(self.linker.globals, ids[0] as int));
                }
                let n = self.linker.globals.get(id);
                if global_kind_matches(n, expected) {
                    Some(id)
                } else {
                    let mut reason = named_type_of(n);
                    reason.append(" ");
                    reason.append(n.get_name());
                    reason.append(" is not a ");
                    let expected_name = kind_name_text(expected);
                    reason.append(expected_name.as_str());
                    reason.append("!");
                    let infos = defined_here_labels(n);
                    self.errors.error_with_info(span, reason, infos);
                    None
                }
            },
            None => None,
        }
    }

    pub fn try_get_constant(&mut self, span: Span) -> (r: Option<NamedUUID>)
        requires
            old(self).wf(),
            span.fits(old(self).text().len()),
        ensures
            try_get_kind_post(*old(self), *final(self), span, GlobalKind::Constant, r),
    {
        self.try_get_kind(span, GlobalKind::Constant)
    }

    pub fn try_get_type(&mut self, span: Span) -> (r: Option<NamedUUID>)
        requires
            old(self).wf(),
            span.fits(old(self).text().len()),
        ensures
            try_get_kind_post(*old(self), *final(self), span, GlobalKind::Type, r),
    {
        self.try_get_kind(span, GlobalKind::Type)
    }

    pub fn try_get_module(&mut self, span: Span) -> (r: Option<NamedUUID>)
        requires
            old(self).wf(),
            span.fits(old(self).text().len()),
        ensures
            try_get_kind_post(*old(self), *final(self), span, GlobalKind::Module, r),
    {
        self.try_get_kind(span, GlobalKind::Module)
    }
}

/// What looking up the name at `span` for a global of kind `expected` does: a name bound to one
/// global of that kind resolves to it; one bound to a global of another kind gets a diagnostic at
/// `span` that points at the declaration; an unbound or colliding name gets its resolution diagnostic.
/// Every global found is recorded as a dependency, every failed lookup marks the unit unresolved.
pub open spec fn try_get_kind_post<'l>(
    before: GlobalResolver<'l>,
    after: GlobalResolver<'l>,
    span: Span,
    expected: GlobalKind,
    r: Option<NamedUUID>,
) -> bool {
    let name = span_text(before.text(), span);
    let ids = before.linker.lookup(name);
    &&& after.linker == before.linker
    &&& after.file_data == before.file_data
    &&& after.errors.main_file == before.errors.main_file
    &&& if ids.len() == 1 {
        let n = before.linker.entity(ids[0] as int);
        &&& after.spec_resolved_globals() == (before.spec_resolved_globals().0.push(ids[0]), before.spec_resolved_globals().1)
        &&& if kind_matches(n, expected) {
            &&& r matches Some(id) && id.hidden_value == ids[0]
            &&& after.errors.store@ == before.errors.store@
        } else {
            &&& r is None
            &&& after.errors.store@ == before.errors.store@.push(wrong_kind_error(n, span, kind_name(expected)))
        }
    } else {
        &&& r is None
        &&& after.spec_resolved_globals() == (before.spec_resolved_globals().0, false)
        &&& after.errors.store@ == before.errors.store@.push(resolution_error(*before.linker, span, name)->0)
    }
}

pub open spec fn kind_matches(n: Named, k: GlobalKind) -> bool {
    match k {
        GlobalKind::Module => n is Module,
        GlobalKind::Type => n is Type,
        GlobalKind::Constant => n is Constant,
        GlobalKind::TypeOrModule => n is Type || n is Module,
    }
}

pub open spec fn kind_name(k: GlobalKind) -> Seq<char> {
    match k {
        GlobalKind::Module => "Module"@,
        GlobalKind::Type => "Type"@,
        GlobalKind::Constant => "Constant"@,
        GlobalKind::TypeOrModule => "Type or Module"@,
    }
}

fn global_kind_matches(n: &Named, k: GlobalKind) -> (r: bool)
    ensures
        r == kind_matches(*n, k),
{
    match (k, n) {
        (GlobalKind::Module, Named::Module(_)) => true,
        (GlobalKind::Type, Named::Type(_)) => true,
        (GlobalKind::Constant, Named::Constant(_)) => true,
        (GlobalKind::TypeOrModule, Named::Type(_)) => true,
        (GlobalKind::TypeOrModule, Named::Module(_)) => true,
        _ => false,
    }
}

fn kind_name_text(k: GlobalKind) -> (r: String)
    ensures
        r@ == kind_name(k),
{
    match k {
        GlobalKind::Module => String::from_str("Module"),
        GlobalKind::Type => String::from_str("Type"),
        GlobalKind::Constant => String::from_str("Constant"),
        GlobalKind::TypeOrModule => String::from_str("Type or Module"),
    }
}

/// "Defined here" at the declaration of `n`; builtins have no label.
pub open spec fn defined_here(n: Named) -> Seq<InfoView> {
    match spec_link_info(n) {
        Some(li) => seq![(li.name_span, li.file.hidden_value, "Defined here"@)],
        None => Seq::<InfoView>::empty(),
    }
}

fn defined_here_labels(n: &Named) -> (r: Vec<ErrorInfo>)
    ensures
        infos_view(r@) == defined_here(*n),
{
    let li = match n {
        Named::Module(md) => Some(&md.link_info),
        Named::Type(NamedType::Struct(li)) => Some(li),
        Named::Constant(NamedConstant::User(li)) => Some(li),
        _ => None,
    };
    let mut infos: Vec<ErrorInfo> = Vec::new();
    match li {
        Some(li) => {
            infos.push(error_info(li.name_span, li.file, String::from_str("Defined here")));
        },
        None => {},
    }
    proof {
        assert(infos_view(infos@) =~= defined_here(*n));
    }
    infos
}

/// "<kind> <name> is not a <expected>!", with a label at the declaration: what looking up a
/// name for one kind of global gives where it names another kind.
pub open spec fn wrong_kind_error(n: Named, span: Span, expected: Seq<char>) -> ErrorView {
    (span, spec_named_type(n) + " "@ + spec_name(n) + " is not a "@ + expected + "!"@, defined_here(n))
}

/// The diagnostic for a reference to `n` where a global of the kind `expected` was asked for.
pub open spec fn not_expected_error(n: Named, span: Span, expected: Seq<char>) -> ErrorView {
    let infos = match spec_link_info(n) {
        Some(li) => seq![(li.name_span, li.file.hidden_value, "Defined here"@)],
        None => Seq::<InfoView>::empty(),
    };
    (span, not_expected_message(n, expected), infos)
}

/// Resolving a name that two declarations share gives one collision diagnostic whose
/// labels point at the two declarations, each once, in the order they were declared.
pub proof fn lemma_collision_labels_both_declarations(linker: Linker, span: Span, name: Seq<char>)
    requires
        linker.wf(),
        linker.lookup(name).len() == 2,
    ensures
        ({
            let ids = linker.lookup(name);
            let a = linker.entity(ids[0] as int);
            let b = linker.entity(ids[1] as int);
            &&& ids[0] != ids[1]
            &&& spec_location(a) is Some && spec_location(b) is Some
            &&& resolution_error(linker, span, name) == Some(
                (span, colliding_message(name), seq![declaration_label(a), declaration_label(b)]),
            )
            &&& (declaration_label(a).1, declaration_label(a).0) == spec_location(a)->0
            &&& (declaration_label(b).1, declaration_label(b).0) == spec_location(b)->0
        }),
{
    let ids = linker.lookup(name);
    linker.lemma_collision_is_user(name);
    linker.global_namespace.lemma_lookup_wf(name);
    assert(ids[0] >= BUILTIN_COUNT && ids[1] >= BUILTIN_COUNT);
    assert(crate::linker::user_entity_wf(linker.globals, linker.files, ids[0] as int));
    assert(crate::linker::user_entity_wf(linker.globals, linker.files, ids[1] as int));
    assert(collision_labels(linker, ids) =~= seq![
        declaration_label(linker.entity(ids[0] as int)),
        declaration_label(linker.entity(ids[1] as int)),
    ]);
}

impl LinkInfo {
    /// Takes back the diagnostics and dependency record that a resolver worked on, and records
    /// the checkpoint of the stage that just finished. The unit must have been left untouched
    /// since they were taken, and `checkpoint_id` must be the next checkpoint of the unit.
    pub fn reabsorb_errors_globals(&mut self, errors_globals: (ErrorCollector, ResolvedGlobals), checkpoint_id: usize)
        requires
            old(self).errors@.len() == 0,
            old(self).resolved_globals@ == (Seq::<usize>::empty(), true),
            checkpoint_id == old(self).checkpoints@.len(),
        ensures
            final(self).errors@ == errors_globals.0.store@,
            final(self).resolved_globals@ == errors_globals.1@,
            final(self).checkpoints@ == old(self).checkpoints@.push(
                CheckPoint {
                    errors_cp: errors_globals.0.store@.len() as usize,
                    resolved_globals_cp: ResolvedGlobalsCheckpoint(errors_globals.1@.0.len() as usize, errors_globals.1@.1),
                },
            ),
            final(self).file == old(self).file,
            final(self).name == old(self).name,
            final(self).name_span == old(self).name_span,
            final(self).template_arguments == old(self).template_arguments,
            final(self).object_index == old(self).object_index,
            final(self).instructions == old(self).instructions,
    {
        let (errors, resolved_globals) = errors_globals;
        self.resolved_globals = resolved_globals;
        self.errors = errors.into_storage();
        let cp = CheckPoint { errors_cp: self.errors.len(), resolved_globals_cp: self.resolved_globals.checkpoint() };
        self.checkpoints.push(cp);
    }
}

} // verus!
