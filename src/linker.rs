//! The global store of declarations, the namespace over it, and the files they come from.
use crate::arena::{ArenaAllocator, ArenaSlot, UUID};
use crate::errors::{ParsingError, ErrorStore, ErrorView, InfoView, infos_view};
use crate::file_position::Span;
use crate::instantiation::InstantiationList;
use crate::resolver::{ResolvedGlobals, ResolvedGlobalsCheckpoint, ids_view};
use crate::namespace::{Namespace, NamespaceElement, id_set, without};
use crate::syntax::{GlobalObjectKind, GlobalObjectSyntax, ParsedFile};
use crate::template::{
    GenerativeTemplateInputKind, GlobalReference, TemplateInput, TemplateInputKind, TypeTemplateInputKind,
    TypedValue,
};
use vstd::prelude::*;

verus! {

/// Tags ids of globally named declarations.
#[derive(Clone, Copy, Debug, PartialEq, Eq, Hash)]
pub struct NamedUUIDMarker;

pub type NamedUUID = UUID<NamedUUIDMarker>;

/// Tags ids of files.
#[derive(Clone, Copy, Debug, PartialEq, Eq, Hash)]
pub struct FileUUIDMarker;

pub type FileUUID = UUID<FileUUIDMarker>;

/// Number of builtin types; they take the first ids.
pub const BUILTIN_TYPE_COUNT: usize = 2;

/// Number of builtins in all; the builtin constants follow the builtin types.
pub const BUILTIN_COUNT: usize = 4;

/// The names of the builtins, by id: the types `bool` and `int`, then the constants `true` and `false`.
pub open spec fn builtin_name(i: int) -> Seq<char> {
    if i == 0 {
        seq!['b', 'o', 'o', 'l']
    } else if i == 1 {
        seq!['i', 'n', 't']
    } else if i == 2 {
        seq!['t', 'r', 'u', 'e']
    } else {
        seq!['f', 'a', 'l', 's', 'e']
    }
}

/// The id of the builtin called `name`, if there is one.
pub open spec fn builtin_index(name: Seq<char>) -> Option<int> {
    if name == builtin_name(0) {
        Some(0)
    } else if name == builtin_name(1) {
        Some(1)
    } else if name == builtin_name(2) {
        Some(2)
    } else if name == builtin_name(3) {
        Some(3)
    } else {
        None
    }
}

/// Whether two strings hold the same characters.
pub(crate) fn chars_equal(a: &str, b: &str) -> (r: bool)
    ensures
        r == (a@ == b@),
{
    let n = a.unicode_len();
    if n != b.unicode_len() {
        return false;
    }
    let mut i: usize = 0;
    while i < n
        invariant
            n == a@.len(),
            n == b@.len(),
            i <= n,
            forall|j: int| 0 <= j < i ==> a@[j] == b@[j],
        decreases n - i,
    {
        if a.get_char(i) != b.get_char(i) {
            return false;
        }
        i = i + 1;
    }
    proof {
        assert(a@ =~= b@);
    }
    true
}

/// The id of the builtin type called `name`.
pub fn get_builtin_type(name: &str) -> (r: NamedUUID)
    requires
        name@ == builtin_name(0) || name@ == builtin_name(1),
    ensures
        builtin_index(name@) == Some(r.hidden_value as int),
{
    proof {
        reveal_strlit("bool");
        assert("bool"@ =~= builtin_name(0));
        assert(builtin_name(1).len() != builtin_name(0).len());
    }
    if chars_equal(name, "bool") {
        NamedUUID::from_hidden_value(0)
    } else {
        NamedUUID::from_hidden_value(1)
    }
}

/// The id of the builtin constant called `name`.
pub fn get_builtin_constant(name: &str) -> (r: NamedUUID)
    requires
        name@ == builtin_name(2) || name@ == builtin_name(3),
    ensures
        builtin_index(name@) == Some(r.hidden_value as int),
{
    proof {
        reveal_strlit("true");
        assert("true"@ =~= builtin_name(2));
        assert(builtin_name(3).len() != builtin_name(2).len());
        assert(builtin_name(2)[0] != builtin_name(0)[0]);
        assert(builtin_name(3).len() != builtin_name(0).len());
    }
    if chars_equal(name, "true") {
        NamedUUID::from_hidden_value(BUILTIN_TYPE_COUNT)
    } else {
        NamedUUID::from_hidden_value(BUILTIN_TYPE_COUNT + 1)
    }
}

/// A snapshot of a unit's diagnostics and dependency record, taken after a pipeline stage.
#[derive(Clone, Copy, Debug, PartialEq, Eq, Structural)]
pub struct CheckPoint {
    pub errors_cp: usize,
    pub resolved_globals_cp: ResolvedGlobalsCheckpoint,
}

/// Everything the pipeline knows and produces about one user declaration.
pub struct LinkInfo {
    pub file: FileUUID,
    pub name: String,
    pub name_span: Span,
    pub template_arguments: Vec<TemplateInput>,
    /// Position of the declaration among the parsed objects of its file.
    pub object_index: usize,
    /// The body after flattening: each mention resolved, in order.
    pub instructions: Vec<GlobalReference<NamedUUID>>,
    pub errors: ErrorStore,
    pub resolved_globals: ResolvedGlobals,
    /// One snapshot per finished stage, oldest first.
    pub checkpoints: Vec<CheckPoint>,
}

impl LinkInfo {
    /// The first checkpoint, taken after gathering, is always there, and no diagnostic was
    /// recorded before it: rolling back to it leaves the unit without diagnostics.
    pub open spec fn wf(&self) -> bool {
        &&& self.checkpoints@.len() >= 1
        &&& self.checkpoints@[0].errors_cp == 0
    }

    /// "::" followed by the name.
    pub fn get_full_name(&self) -> (r: String)
        ensures
            r@ == full_name(self.name@),
    {
        let mut r = String::from_str("::");
        proof {
            reveal_strlit("::");
        }
        r.append(self.name.as_str());
        r
    }

    /// Rolls diagnostics and dependency record back to `cp`.
    pub fn reset_to(&mut self, cp: CheckPoint)
        ensures
            final(self).errors@ == if cp.errors_cp <= old(self).errors@.len() {
                old(self).errors@.subrange(0, cp.errors_cp as int)
            } else {
                old(self).errors@
            },
            final(self).resolved_globals@ == (
                if cp.resolved_globals_cp.0 <= old(self).resolved_globals@.0.len() {
                    old(self).resolved_globals@.0.subrange(0, cp.resolved_globals_cp.0 as int)
                } else {
                    old(self).resolved_globals@.0
                },
                cp.resolved_globals_cp.1,
            ),
            final(self).checkpoints@ == old(self).checkpoints@,
            final(self).file == old(self).file,
            final(self).name == old(self).name,
            final(self).name_span == old(self).name_span,
            final(self).template_arguments == old(self).template_arguments,
            final(self).object_index == old(self).object_index,
            final(self).instructions == old(self).instructions,
    {
        self.errors.reset_to(cp.errors_cp);
        self.resolved_globals.reset_to(cp.resolved_globals_cp);
    }
}

pub open spec fn full_name(name: Seq<char>) -> Seq<char> {
    seq![':', ':'] + name
}

/// Where a global is declared, for diagnostics that point at it.
pub struct LinkingErrorLocation {
    pub named_type: String,
    pub full_name: String,
    pub location: Option<(FileUUID, Span)>,
}

pub enum NamedConstant {
    Builtin { name: String, val: TypedValue },
    User(LinkInfo),
}

pub enum NamedType {
    Builtin(String),
    Struct(LinkInfo),
}

pub struct Module {
    pub link_info: LinkInfo,
    pub instantiations: InstantiationList,
}

/// A globally named declaration.
pub enum Named {
    Constant(NamedConstant),
    Module(Module),
    Type(NamedType),
}

pub open spec fn spec_link_info(n: Named) -> Option<LinkInfo> {
    match n {
        Named::Constant(NamedConstant::User(li)) => Some(li),
        Named::Type(NamedType::Struct(li)) => Some(li),
        Named::Module(md) => Some(md.link_info),
        _ => None,
    }
}

pub open spec fn spec_name(n: Named) -> Seq<char> {
    match n {
        Named::Constant(NamedConstant::Builtin { name, .. }) => name@,
        Named::Type(NamedType::Builtin(name)) => name@,
        _ => spec_link_info(n)->0.name@,
    }
}

/// What a diagnostic calls a global of this kind.
pub open spec fn spec_named_type(n: Named) -> Seq<char> {
    match n {
        Named::Constant(NamedConstant::Builtin { .. }) => "Builtin Constant"@,
        Named::Constant(NamedConstant::User(_)) => "Constant"@,
        Named::Type(NamedType::Builtin(_)) => "Builtin Type"@,
        Named::Type(NamedType::Struct(_)) => "Struct"@,
        Named::Module(_) => "Module"@,
    }
}

/// The file and span of a user declaration's name; builtins have none.
pub open spec fn spec_location(n: Named) -> Option<(usize, Span)> {
    match spec_link_info(n) {
        Some(li) => Some((li.file.hidden_value, li.name_span)),
        None => None,
    }
}

/// Access shared by all globally named declarations.
pub trait Linkable {
    spec fn spec_linkable_name(&self) -> Seq<char>;

    /// What diagnostics call this kind of global.
    spec fn spec_linkable_type(&self) -> Seq<char>;

    /// The file and span of the declaration; builtins have none.
    spec fn spec_linkable_location(&self) -> Option<(usize, Span)>;

    fn get_name(&self) -> (r: &str)
        ensures
            r@ == self.spec_linkable_name(),
    ;

    fn get_full_name(&self) -> (r: String)
        ensures
            r@ == full_name(self.spec_linkable_name()),
    ;

    fn get_linking_error_location(&self) -> (r: LinkingErrorLocation)
        ensures
            r.full_name@ == full_name(self.spec_linkable_name()),
            r.named_type@ == self.spec_linkable_type(),
            match r.location {
                Some((f, span)) => self.spec_linkable_location() == Some((f.hidden_value, span)),
                None => self.spec_linkable_location() is None,
            },
    ;

    fn get_link_info(&self) -> (r: Option<&LinkInfo>)
        ensures
            r is Some <==> self.spec_linkable_location() is Some,
    ;
}

fn prefixed_full_name(name: &str) -> (r: String)
    ensures
        r@ == full_name(name@),
{
    let mut r = String::from_str("::");
    proof {
        reveal_strlit("::");
    }
    r.append(name);
    r
}

impl Linkable for Named {
    open spec fn spec_linkable_name(&self) -> Seq<char> {
        spec_name(*self)
    }

    open spec fn spec_linkable_type(&self) -> Seq<char> {
        spec_named_type(*self)
    }

    open spec fn spec_linkable_location(&self) -> Option<(usize, Span)> {
        spec_location(*self)
    }

    fn get_name(&self) -> (r: &str) {
        match self {
            Named::Constant(NamedConstant::Builtin { name, .. }) => name.as_str(),
            Named::Constant(NamedConstant::User(li)) => li.name.as_str(),
            Named::Type(NamedType::Builtin(name)) => name.as_str(),
            Named::Type(NamedType::Struct(li)) => li.name.as_str(),
            Named::Module(md) => md.link_info.name.as_str(),
        }
    }

    fn get_full_name(&self) -> (r: String) {
        prefixed_full_name(self.get_name())
    }

    fn get_linking_error_location(&self) -> (r: LinkingErrorLocation) {
        let (named_type, location) = match self {
            Named::Constant(NamedConstant::Builtin { .. }) => ("Builtin Constant", None),
            Named::Constant(NamedConstant::User(li)) => ("Constant", Some((li.file, li.name_span))),
            Named::Type(NamedType::Builtin(_)) => ("Builtin Type", None),
            Named::Type(NamedType::Struct(li)) => ("Struct", Some((li.file, li.name_span))),
            Named::Module(md) => ("Module", Some((md.link_info.file, md.link_info.name_span))),
        };
        let r = LinkingErrorLocation {
            named_type: String::from_str(named_type),
            full_name: self.get_full_name(),
            location,
        };
        r
    }

    fn get_link_info(&self) -> (r: Option<&LinkInfo>) {
        match self {
            Named::Constant(NamedConstant::User(li)) => Some(li),
            Named::Type(NamedType::Struct(li)) => Some(li),
            Named::Module(md) => Some(&md.link_info),
            _ => None,
        }
    }
}

/// A source file and the declarations it holds.
pub struct FileData {
    pub file_identifier: String,
    pub file_text: String,
    pub parsed: ParsedFile,
    /// The declarations of this file, in the order the parser found them.
    pub associated_values: Vec<NamedUUID>,
    pub parsing_errors: ErrorStore,
}

/// The fully linked set of all files, open to incremental changes.
pub struct Linker {
    pub globals: ArenaAllocator<Named, NamedUUIDMarker>,
    pub global_namespace: Namespace,
    pub files: ArenaAllocator<FileData, FileUUIDMarker>,
}

pub open spec fn builtin_entity_wf(n: Named, b: int) -> bool {
    &&& spec_name(n) == builtin_name(b)
    &&& if b < BUILTIN_TYPE_COUNT {
        n matches Named::Type(NamedType::Builtin(_))
    } else {
        n matches Named::Constant(NamedConstant::Builtin { .. })
    }
}

pub type Globals = ArenaAllocator<Named, NamedUUIDMarker>;

pub type Files = ArenaAllocator<FileData, FileUUIDMarker>;

pub open spec fn live<T, M>(a: ArenaAllocator<T, M>, i: int) -> bool {
    0 <= i < a@.len() && a@[i] is Filled
}

pub open spec fn at<T, M>(a: ArenaAllocator<T, M>, i: int) -> T {
    a@[i]->Filled_0
}

pub open spec fn builtins_wf(globals: Globals, ns: Namespace) -> bool {
    &&& globals@.len() >= BUILTIN_COUNT
    &&& forall|b: int|
        0 <= b < BUILTIN_COUNT ==> {
            &&& #[trigger] live(globals, b)
            &&& builtin_entity_wf(at(globals, b), b)
            &&& ns.lookup(builtin_name(b)) == seq![b as usize]
        }
}

pub open spec fn namespace_wf(globals: Globals, ns: Namespace) -> bool {
    &&& ns.wf()
    &&& forall|n: Seq<char>, k: int| 0 <= k < ns.lookup(n).len() ==> live(globals, #[trigger] ns.lookup(n)[k] as int)
    &&& forall|n: Seq<char>, k: int|
        0 <= k < ns.lookup(n).len() && builtin_index(n) is None ==> #[trigger] ns.lookup(n)[k] >= BUILTIN_COUNT
}

/// A user declaration: its file is live, lists it, and holds its parsed object.
pub open spec fn user_entity_wf(globals: Globals, files: Files, i: int) -> bool {
    &&& i >= BUILTIN_COUNT
    &&& spec_link_info(at(globals, i)) is Some
    &&& {
        let li = spec_link_info(at(globals, i))->0;
        let f = li.file.hidden_value as int;
        &&& li.wf()
        &&& live(files, f)
        &&& li.object_index < at(files, f).parsed.objects@.len()
        &&& ids_view(at(files, f).associated_values@).contains(i as usize)
    }
}

/// A live file lists only user declarations, and its spans lie within its text.
pub open spec fn file_wf(globals: Globals, files: Files, f: int) -> bool {
    let fd = at(files, f);
    &&& fd.parsed.fits(fd.file_text@.len())
    &&& forall|k: int|
        0 <= k < fd.associated_values@.len() ==> {
            let id = #[trigger] fd.associated_values@[k].hidden_value as int;
            &&& BUILTIN_COUNT <= id < globals@.len()
            &&& live(globals, id) ==> spec_link_info(at(globals, id))->0.file.hidden_value == f
        }
}

pub open spec fn entities_wf(globals: Globals, files: Files) -> bool {
    forall|i: int| BUILTIN_COUNT <= i && #[trigger] live(globals, i) ==> user_entity_wf(globals, files, i)
}

pub open spec fn files_wf(globals: Globals, files: Files) -> bool {
    forall|f: int| #[trigger] live(files, f) ==> file_wf(globals, files, f)
}

impl Linker {
    pub open spec fn is_entity(&self, i: int) -> bool {
        live(self.globals, i)
    }

    pub open spec fn entity(&self, i: int) -> Named {
        at(self.globals, i)
    }

    pub open spec fn is_file(&self, f: int) -> bool {
        live(self.files, f)
    }

    pub open spec fn file(&self, f: int) -> FileData {
        at(self.files, f)
    }

    /// The declarations bound to `name`, oldest first.
    pub open spec fn lookup(&self, name: Seq<char>) -> Seq<usize> {
        self.global_namespace.lookup(name)
    }

    /// The builtins hold the first ids and stay bound, alone, to their names.
    pub open spec fn builtins_wf(&self) -> bool {
        builtins_wf(self.globals, self.global_namespace)
    }

    /// Every bound id names a live declaration.
    pub open spec fn namespace_wf(&self) -> bool {
        namespace_wf(self.globals, self.global_namespace)
    }

    pub open spec fn user_entity_wf(&self, i: int) -> bool {
        user_entity_wf(self.globals, self.files, i)
    }

    pub open spec fn file_wf(&self, f: int) -> bool {
        file_wf(self.globals, self.files, f)
    }

    pub open spec fn wf(&self) -> bool {
        &&& self.builtins_wf()
        &&& self.namespace_wf()
        &&& entities_wf(self.globals, self.files)
        &&& files_wf(self.globals, self.files)
    }
}

impl Linker {
    /// A linker that holds the builtins and nothing else.
    pub fn new() -> (r: Linker)
        ensures
            r.wf(),
            r.globals@.len() == BUILTIN_COUNT,
            r.files@.len() == 0,
            forall|n: Seq<char>|
                #[trigger] r.lookup(n) == match builtin_index(n) {
                    Some(b) => seq![b as usize],
                    None => Seq::<usize>::empty(),
                },
    {
        let mut globals: ArenaAllocator<Named, NamedUUIDMarker> = ArenaAllocator::new();
        let mut global_namespace = Namespace::new();
        proof {
            reveal_strlit("bool");
            reveal_strlit("int");
            reveal_strlit("true");
            reveal_strlit("false");
            assert("bool"@ =~= builtin_name(0));
            assert("int"@ =~= builtin_name(1));
            assert("true"@ =~= builtin_name(2));
            assert("false"@ =~= builtin_name(3));
        }
        let id0 = globals.allocate(Named::Type(NamedType::Builtin(String::from_str("bool"))));
        global_namespace.add(String::from_str("bool"), id0);
        let id1 = globals.allocate(Named::Type(NamedType::Builtin(String::from_str("int"))));
        global_namespace.add(String::from_str("int"), id1);
        let id2 = globals.allocate(
            Named::Constant(NamedConstant::Builtin { name: String::from_str("true"), val: TypedValue::Bool(true) }),
        );
        global_namespace.add(String::from_str("true"), id2);
        let id3 = globals.allocate(
            Named::Constant(NamedConstant::Builtin { name: String::from_str("false"), val: TypedValue::Bool(false) }),
        );
        global_namespace.add(String::from_str("false"), id3);
        let r = Linker { globals, global_namespace, files: ArenaAllocator::new() };
        proof {
            assert(builtin_name(0)[0] != builtin_name(2)[0]);
            assert(builtin_name(1).len() != builtin_name(0).len());
            assert(builtin_name(1).len() != builtin_name(3).len());
            assert(builtin_name(3).len() != builtin_name(0).len());
            assert(builtin_name(1).len() != builtin_name(2).len());
            assert(builtin_name(3).len() != builtin_name(2).len());
            assert forall|n: Seq<char>|
                #[trigger] r.lookup(n) == match builtin_index(n) {
                    Some(b) => seq![b as usize],
                    None => Seq::<usize>::empty(),
                } by {
                assert(Seq::<usize>::empty().push(0) =~= seq![0usize]);
                assert(Seq::<usize>::empty().push(1) =~= seq![1usize]);
                assert(Seq::<usize>::empty().push(2) =~= seq![2usize]);
                assert(Seq::<usize>::empty().push(3) =~= seq![3usize]);
            }
            assert forall|b: int| 0 <= b < BUILTIN_COUNT implies {
                &&& #[trigger] live(r.globals, b)
                &&& builtin_entity_wf(at(r.globals, b), b)
                &&& r.global_namespace.lookup(builtin_name(b)) == seq![b as usize]
            } by {
                assert(r.lookup(builtin_name(b)) == match builtin_index(builtin_name(b)) {
                    Some(b) => seq![b as usize],
                    None => Seq::<usize>::empty(),
                });
            }
            assert forall|n: Seq<char>, k: int|
                0 <= k < r.global_namespace.lookup(n).len() implies live(r.globals, #[trigger] r.global_namespace.lookup(n)[k] as int) by {
                assert(r.lookup(n) == match builtin_index(n) {
                    Some(b) => seq![b as usize],
                    None => Seq::<usize>::empty(),
                });
            }
        }
        r
    }
}

/// Whether `name` is the name of a builtin.
pub(crate) fn is_builtin_name(name: &str) -> (r: bool)
    ensures
        r == (builtin_index(name@) is Some),
{
    proof {
        reveal_strlit("bool");
        reveal_strlit("int");
        reveal_strlit("true");
        reveal_strlit("false");
        assert("bool"@ =~= builtin_name(0));
        assert("int"@ =~= builtin_name(1));
        assert("true"@ =~= builtin_name(2));
        assert("false"@ =~= builtin_name(3));
    }
    chars_equal(name, "bool") || chars_equal(name, "int") || chars_equal(name, "true") || chars_equal(name, "false")
}

/// The text that `span` covers.
pub fn text_at(text: &String, span: Span) -> (r: String)
    requires
        span.fits(text@.len()),
    ensures
        r@ == text@.subrange(span.start as int, span.end as int),
{
    text.as_str().substring_char(span.start, span.end).to_owned()
}

pub open spec fn span_text(text: Seq<char>, span: Span) -> Seq<char> {
    text.subrange(span.start as int, span.end as int)
}

/// "Cannot redeclare the builtin '<name>'"
pub open spec fn redeclare_builtin_message(name: Seq<char>) -> Seq<char> {
    "Cannot redeclare the builtin '"@ + name + "'"@
}

/// The names of the objects of a parsed file, in order.
pub open spec fn object_names(text: Seq<char>, objects: Seq<GlobalObjectSyntax>) -> Seq<Seq<char>> {
    objects.map_values(|o: GlobalObjectSyntax| span_text(text, o.name_span))
}

/// The ids, counted from `base`, of the declarations among `names` that bind `n`:
/// those called `n`, unless `n` is a builtin's name.
pub open spec fn declared_ids(base: int, names: Seq<Seq<char>>, n: Seq<char>) -> Seq<usize>
    decreases names.len(),
{
    if names.len() == 0 {
        Seq::empty()
    } else {
        let prefix = declared_ids(base, names.drop_last(), n);
        if names.last() == n && builtin_index(n) is None {
            prefix.push((base + names.len() - 1) as usize)
        } else {
            prefix
        }
    }
}

pub(crate) fn redeclare_builtin_reason(name: &String) -> (r: String)
    ensures
        r@ == redeclare_builtin_message(name@),
{
    let mut r = String::from_str("Cannot redeclare the builtin '");
    r.append(name.as_str());
    r.append("'");
    r
}

/// The declared template parameters of an object, named after their text.
fn make_template_inputs(text: &String, obj: &GlobalObjectSyntax) -> (r: Vec<TemplateInput>)
    requires
        crate::syntax::object_fits(*obj, text@.len()),
    ensures
        r@.len() == obj.template_inputs@.len(),
        forall|k: int|
            0 <= k < r@.len() ==> {
                &&& (#[trigger] r@[k]).name@ == span_text(text@, obj.template_inputs@[k].name_span)
                &&& r@[k].name_span == obj.template_inputs@[k].name_span
                &&& (r@[k].kind is Type <==> obj.template_inputs@[k].generative_decl_span is None)
            },
{
    let mut r: Vec<TemplateInput> = Vec::new();
    let mut k: usize = 0;
    while k < obj.template_inputs.len()
        invariant
            k <= obj.template_inputs@.len(),
            crate::syntax::object_fits(*obj, text@.len()),
            r@.len() == k,
            forall|j: int|
                0 <= j < k ==> {
                    &&& (#[trigger] r@[j]).name@ == span_text(text@, obj.template_inputs@[j].name_span)
                    &&& r@[j].name_span == obj.template_inputs@[j].name_span
                    &&& (r@[j].kind is Type <==> obj.template_inputs@[j].generative_decl_span is None)
                },
        decreases obj.template_inputs@.len() - k,
    {
        let input = obj.template_inputs[k];
        let kind = match input.generative_decl_span {
            None => TemplateInputKind::Type(TypeTemplateInputKind {}),
            Some(decl_span) => TemplateInputKind::Generative(
                GenerativeTemplateInputKind { decl_span, declaration_instruction: k },
            ),
        };
        r.push(TemplateInput { name: text_at(text, input.name_span), name_span: input.name_span, kind });
        k = k + 1;
    }
    r
}

impl Linker {
    pub fn reserve_file(&mut self) -> (r: FileUUID)
        requires
            old(self).wf(),
        ensures
            final(self).wf(),
            r.hidden_value == old(self).files@.len(),
            final(self).files@ == old(self).files@.push(ArenaSlot::Reserved),
            final(self).globals@ == old(self).globals@,
            final(self).global_namespace == old(self).global_namespace,
    {
        let r = self.files.reserve();
        proof {
            assert forall|f: int| #[trigger] live(self.files, f) implies file_wf(self.globals, self.files, f) by {
                assert(live(old(self).files, f));
                assert(at(self.files, f) == at(old(self).files, f));
            }
            assert forall|i: int| BUILTIN_COUNT <= i && #[trigger] live(self.globals, i) implies user_entity_wf(self.globals, self.files, i) by {
                assert(user_entity_wf(old(self).globals, old(self).files, i));
                let f = spec_link_info(at(self.globals, i))->0.file.hidden_value as int;
                assert(at(self.files, f) == at(old(self).files, f));
            }
        }
        r
    }
}

/// What gathering makes of object `k` of a file: a declaration of the object's kind,
/// named after its text, with no diagnostic yet.
pub open spec fn gathered(n: Named, file: FileUUID, text: Seq<char>, obj: GlobalObjectSyntax, k: int) -> bool {
    let name = span_text(text, obj.name_span);
    &&& match obj.kind {
        GlobalObjectKind::Module => n is Module,
        GlobalObjectKind::Struct => n matches Named::Type(NamedType::Struct(_)),
        GlobalObjectKind::Constant => n matches Named::Constant(NamedConstant::User(_)),
    }
    &&& spec_link_info(n) matches Some(li) && {
        &&& li.name@ == name
        &&& li.name_span == obj.name_span
        &&& li.file == file
        &&& li.object_index == k
        &&& li.template_arguments@.len() == obj.template_inputs@.len()
        &&& li.instructions@.len() == 0
        &&& li.errors@ == Seq::<ErrorView>::empty()
        &&& li.resolved_globals@ == (Seq::<usize>::empty(), true)
        &&& li.checkpoints@ == seq![CheckPoint { errors_cp: 0, resolved_globals_cp: ResolvedGlobalsCheckpoint(0, true) }]
    }
}

/// Declaration `i` is live and was gathered from object `i - base` of a file.
pub open spec fn gathered_at(
    globals: Globals,
    i: int,
    base: int,
    file: FileUUID,
    text: Seq<char>,
    objects: Seq<GlobalObjectSyntax>,
) -> bool {
    &&& live(globals, i)
    &&& gathered(at(globals, i), file, text, objects[i - base], i - base)
}

/// One "Syntax error" diagnostic at each place where the parser found no valid syntax.
pub open spec fn syntax_error_views(spans: Seq<Span>) -> Seq<ErrorView> {
    spans.map_values(|s: Span| (s, "Syntax error"@, Seq::<InfoView>::empty()))
}

/// The ids `base`, `base + 1`, ... of `n` declarations gathered in order.
pub open spec fn consecutive_ids(ids: Seq<NamedUUID>, base: int, n: int) -> bool {
    &&& ids.len() == n
    &&& forall|q: int| 0 <= q < n ==> #[trigger] ids[q].hidden_value == base + q
}

fn syntax_errors_of(parsed: &ParsedFile) -> (r: ErrorStore)
    ensures
        r@ == syntax_error_views(parsed.syntax_errors@),
{
    let mut r = ErrorStore::new();
    let mut k: usize = 0;
    while k < parsed.syntax_errors.len()
        invariant
            k <= parsed.syntax_errors@.len(),
            r@ == syntax_error_views(parsed.syntax_errors@.take(k as int)),
        decreases parsed.syntax_errors@.len() - k,
    {
        let e = ParsingError { position: parsed.syntax_errors[k], reason: String::from_str("Syntax error"), infos: Vec::new() };
        proof {
            assert(infos_view(e.infos@) =~= Seq::<InfoView>::empty());
        }
        r.push(e);
        proof {
            assert(syntax_error_views(parsed.syntax_errors@.take(k as int + 1)) =~= syntax_error_views(parsed.syntax_errors@.take(k as int)).push(e@));
        }
        k = k + 1;
    }
    proof {
        assert(parsed.syntax_errors@.take(parsed.syntax_errors@.len() as int) =~= parsed.syntax_errors@);
    }
    r
}

impl Linker {
    /// Gathers the declarations of a parsed file into a file id that `reserve_file` handed out.
    pub fn add_reserved_file(&mut self, file: FileUUID, file_identifier: String, file_text: String, parsed: ParsedFile)
        requires
            old(self).wf(),
            file.hidden_value < old(self).files@.len(),
            old(self).files@[file.hidden_value as int] is Reserved,
            parsed.fits(file_text@.len()),
            old(self).globals@.len() + parsed.objects@.len() <= usize::MAX,
        ensures
            final(self).wf(),
            final(self).is_file(file.hidden_value as int),
            final(self).file(file.hidden_value as int).file_text@ == file_text@,
            final(self).file(file.hidden_value as int).file_identifier@ == file_identifier@,
            final(self).file(file.hidden_value as int).parsed == parsed,
            final(self).file(file.hidden_value as int).parsing_errors@ == syntax_error_views(parsed.syntax_errors@),
            consecutive_ids(final(self).file(file.hidden_value as int).associated_values@, old(self).globals@.len() as int, parsed.objects@.len() as int),
            final(self).files@.len() == old(self).files@.len(),
            forall|f: int| 0 <= f < old(self).files@.len() && f != file.hidden_value ==> final(self).files@[f] == old(self).files@[f],
            final(self).globals@.len() == old(self).globals@.len() + parsed.objects@.len(),
            forall|i: int| 0 <= i < old(self).globals@.len() ==> final(self).globals@[i] == old(self).globals@[i],
            forall|i: int|
                old(self).globals@.len() <= i < final(self).globals@.len() ==> #[trigger] gathered_at(
                    final(self).globals,
                    i,
                    old(self).globals@.len() as int,
                    file,
                    file_text@,
                    parsed.objects@,
                ),
            forall|n: Seq<char>|
                #[trigger] final(self).lookup(n) == old(self).lookup(n) + declared_ids(
                    old(self).globals@.len() as int,
                    object_names(file_text@, parsed.objects@),
                    n,
                ),
    {
        let ghost base = self.globals@.len() as int;
        let ghost text = file_text@;
        let ghost objects = parsed.objects@;
        let ghost names = object_names(text, objects);
        let ghost fi = file.hidden_value as int;
        let ghost ident = file_identifier@;
        let ghost syntax_views = syntax_error_views(parsed.syntax_errors@);
        let n_objects = parsed.objects.len();
        let parsing_errors = syntax_errors_of(&parsed);
        self.files.alloc_reservation(
            file,
            FileData { file_identifier, file_text, parsed, associated_values: Vec::new(), parsing_errors },
        );
        proof {
            assert(declared_ids(base, names.take(0), Seq::<char>::empty()) == Seq::<usize>::empty());
            assert forall|n: Seq<char>| #[trigger] self.lookup(n) == old(self).lookup(n) + declared_ids(base, names.take(0), n) by {
                assert(names.take(0).len() == 0);
                assert(old(self).lookup(n) + Seq::<usize>::empty() =~= old(self).lookup(n));
            }
            assert forall|f: int| #[trigger] live(self.files, f) implies file_wf(self.globals, self.files, f) by {
                if f != fi {
                    assert(at(self.files, f) == at(old(self).files, f));
                    assert(live(old(self).files, f));
                } else {
                    assert(at(self.files, f).associated_values@.len() == 0);
                }
            }
            assert forall|i: int| BUILTIN_COUNT <= i && #[trigger] live(self.globals, i) implies user_entity_wf(self.globals, self.files, i) by {
                assert(user_entity_wf(old(self).globals, old(self).files, i));
                let f = spec_link_info(at(self.globals, i))->0.file.hidden_value as int;
                assert(f != fi);
                assert(at(self.files, f) == at(old(self).files, f));
            }
        }
        let mut k: usize = 0;
        while k < n_objects
            invariant
                self.wf(),
                k <= n_objects,
                n_objects == objects.len(),
                fi == file.hidden_value,
                base == old(self).globals@.len(),
                base >= BUILTIN_COUNT,
                base + objects.len() <= usize::MAX,
                names == object_names(text, objects),
                live(self.files, fi),
                at(self.files, fi).file_text@ == text,
                at(self.files, fi).parsed.objects@ == objects,
                at(self.files, fi).parsed == parsed,
                at(self.files, fi).file_identifier@ == ident,
                at(self.files, fi).parsing_errors@ == syntax_views,
                consecutive_ids(at(self.files, fi).associated_values@, base, k as int),
                self.files@.len() == old(self).files@.len(),
                forall|f: int| 0 <= f < old(self).files@.len() && f != fi ==> self.files@[f] == old(self).files@[f],
                self.globals@.len() == base + k,
                forall|i: int| 0 <= i < base ==> self.globals@[i] == old(self).globals@[i],
                forall|i: int| base <= i < base + k ==> #[trigger] gathered_at(self.globals, i, base, file, text, objects),
                forall|n: Seq<char>| #[trigger] self.lookup(n) == old(self).lookup(n) + declared_ids(base, names.take(k as int), n),
            decreases n_objects - k,
        {
            let ghost before = *self;
            let fd = self.files.get(file);
            let obj = &fd.parsed.objects[k];
            let name = text_at(&fd.file_text, obj.name_span);
            let name_span = obj.name_span;
            let kind = obj.kind;
            let template_arguments = make_template_inputs(&fd.file_text, obj);
            let builtin = is_builtin_name(name.as_str());
            let errors = ErrorStore::new();
            let cp = CheckPoint { errors_cp: 0, resolved_globals_cp: ResolvedGlobalsCheckpoint(0, true) };
            let mut checkpoints: Vec<CheckPoint> = Vec::new();
            checkpoints.push(cp);
            let link_info = LinkInfo {
                file,
                name: name.clone(),
                name_span,
                template_arguments,
                object_index: k,
                instructions: Vec::new(),
                errors,
                resolved_globals: ResolvedGlobals::new(),
                checkpoints,
            };
            let entity = match kind {
                GlobalObjectKind::Module => Named::Module(Module { link_info, instantiations: InstantiationList::new() }),
                GlobalObjectKind::Struct => Named::Type(NamedType::Struct(link_info)),
                GlobalObjectKind::Constant => Named::Constant(NamedConstant::User(link_info)),
            };
            let id = self.globals.allocate(entity);
            let fd_mut = self.files.get_mut(file);
            fd_mut.associated_values.push(id);
            proof {
                assert(names[k as int] == name@);
                assert(names.take(k as int + 1).drop_last() =~= names.take(k as int));
                assert(gathered(at(self.globals, base + k), file, text, objects[k as int], k as int)) by {
                    let li = spec_link_info(at(self.globals, base + k))->0;
                    assert(li.name@ == span_text(text, objects[k as int].name_span));
                    assert(li.file == file);
                    assert(li.object_index == k);
                    assert(li.resolved_globals@ == (Seq::<usize>::empty(), true));
                }
            }
            if !builtin {
                proof {
                    assert forall|n: Seq<char>, j: int| 0 <= j < self.lookup(n).len() implies self.lookup(n)[j] != id.hidden_value by {
                        assert(live(before.globals, self.lookup(n)[j] as int));
                    }
                }
                self.global_namespace.add(name, id);
            }
            proof {
                let g = self.globals;
                let fs = self.files;
                let idi = base + k;
                assert(idi == id.hidden_value);
                assert(forall|i: int| 0 <= i < idi ==> g@[i] == before.globals@[i]);
                assert(forall|f: int| 0 <= f < fs@.len() && f != fi ==> fs@[f] == before.files@[f]);
                assert(at(fs, fi).parsed == at(before.files, fi).parsed);
                assert(at(fs, fi).file_text == at(before.files, fi).file_text);
                assert(ids_view(at(fs, fi).associated_values@) =~= ids_view(at(before.files, fi).associated_values@).push(id.hidden_value));
                // builtins keep their single binding
                assert(builtin_index(builtin_name(0)) == Some(0int));
                assert(builtin_name(1).len() != builtin_name(0).len());
                assert(builtin_name(2)[0] != builtin_name(0)[0]);
                assert(builtin_name(3).len() != builtin_name(0).len());
                assert(builtin_name(1).len() != builtin_name(2).len());
                assert(builtin_name(1).len() != builtin_name(3).len());
                assert(builtin_name(3).len() != builtin_name(2).len());
                assert forall|b: int| 0 <= b < BUILTIN_COUNT implies {
                    &&& #[trigger] live(g, b)
                    &&& builtin_entity_wf(at(g, b), b)
                    &&& self.global_namespace.lookup(builtin_name(b)) == seq![b as usize]
                } by {
                    assert(live(before.globals, b));
                    assert(builtin_index(builtin_name(b)) == Some(b));
                }
                assert forall|n: Seq<char>, j: int|
                    0 <= j < self.global_namespace.lookup(n).len() implies live(g, #[trigger] self.global_namespace.lookup(n)[j] as int) by {
                    if !(n == name@ && !builtin && j == self.global_namespace.lookup(n).len() - 1) {
                        assert(self.global_namespace.lookup(n)[j] == before.global_namespace.lookup(n)[j]);
                        assert(live(before.globals, before.global_namespace.lookup(n)[j] as int));
                    }
                }
                assert forall|i: int| BUILTIN_COUNT <= i && #[trigger] live(g, i) implies user_entity_wf(g, fs, i) by {
                    if i != idi {
                        assert(live(before.globals, i));
                        assert(user_entity_wf(before.globals, before.files, i));
                        assert(at(g, i) == at(before.globals, i));
                        let f = spec_link_info(at(g, i))->0.file.hidden_value as int;
                        if f == fi {
                            let oav = ids_view(at(before.files, fi).associated_values@);
                            assert(oav.contains(i as usize));
                            let k2 = choose|k2: int| 0 <= k2 < oav.len() && oav[k2] == i as usize;
                            assert(ids_view(at(fs, fi).associated_values@)[k2] == i as usize);
                        } else {
                            assert(at(fs, f) == at(before.files, f));
                        }
                    } else {
                        let av = ids_view(at(fs, fi).associated_values@);
                        assert(av[av.len() - 1] == idi as usize);
                        assert(av.contains(idi as usize));
                        let li = spec_link_info(at(g, i))->0;
                        assert(li.file == file);
                        assert(li.checkpoints@.len() == 1);
                        assert(li.wf());
                        assert(live(fs, fi));
                        assert(li.object_index < at(fs, fi).parsed.objects@.len());
                    }
                }
                assert forall|f: int| #[trigger] live(fs, f) implies file_wf(g, fs, f) by {
                    if f != fi {
                        assert(at(fs, f) == at(before.files, f));
                        assert(live(before.files, f));
                        assert(file_wf(before.globals, before.files, f));
                        assert forall|j: int| 0 <= j < at(fs, f).associated_values@.len() implies {
                            let id2 = #[trigger] at(fs, f).associated_values@[j].hidden_value as int;
                            &&& BUILTIN_COUNT <= id2 < g@.len()
                            &&& live(g, id2) ==> spec_link_info(at(g, id2))->0.file.hidden_value == f
                        } by {
                            let id2 = at(fs, f).associated_values@[j].hidden_value as int;
                            assert(id2 < idi);
                        }
                    } else {
                        assert(live(before.files, f));
                        assert(file_wf(before.globals, before.files, f));
                        let av = at(fs, f).associated_values@;
                        assert forall|j: int| 0 <= j < av.len() implies {
                            let id2 = #[trigger] av[j].hidden_value as int;
                            &&& BUILTIN_COUNT <= id2 < g@.len()
                            &&& live(g, id2) ==> spec_link_info(at(g, id2))->0.file.hidden_value == f
                        } by {
                            if j < av.len() - 1 {
                                assert(av[j] == at(before.files, f).associated_values@[j]);
                            } else {
                                assert(av[j] == id);
                            }
                        }
                    }
                }
                assert forall|n: Seq<char>| #[trigger] self.lookup(n) == old(self).lookup(n) + declared_ids(base, names.take(k as int + 1), n) by {
                    assert(before.lookup(n) == old(self).lookup(n) + declared_ids(base, names.take(k as int), n));
                    if n == name@ && !builtin {
                        assert(old(self).lookup(n) + declared_ids(base, names.take(k as int), n).push(idi as usize)
                            =~= (old(self).lookup(n) + declared_ids(base, names.take(k as int), n)).push(idi as usize));
                    }
                }
                assert forall|i: int| base <= i < base + k + 1 implies #[trigger] gathered_at(g, i, base, file, text, objects) by {
                    if i < base + k {
                        assert(gathered_at(before.globals, i, base, file, text, objects));
                        assert(at(g, i) == at(before.globals, i));
                    }
                }
            }
            k = k + 1;
        }
        proof {
            assert(names.take(objects.len() as int) =~= names);
        }
    }
}

/// The ids of the declarations of the given files.
pub open spec fn ids_of_files(files: Files, fs: Seq<FileUUID>) -> Set<usize> {
    Set::new(|i: usize| exists|k: int| 0 <= k < fs.len() && ids_view(at(files, #[trigger] fs[k].hidden_value as int).associated_values@).contains(i))
}

proof fn lemma_push_contains(s: Seq<usize>, x: usize, u: usize)
    ensures
        s.push(x).contains(u) == (s.contains(u) || u == x),
{
    if s.contains(u) {
        let q = choose|q: int| 0 <= q < s.len() && s[q] == u;
        assert(s.push(x)[q] == u);
    }
    if u == x {
        assert(s.push(x)[s.len() as int] == u);
    }
    if s.push(x).contains(u) && u != x {
        let q = choose|q: int| 0 <= q < s.len() + 1 && s.push(x)[q] == u;
        assert(s[q] == u);
    }
}

/// A slot after removal: emptied where removed, untouched elsewhere.
pub open spec fn removed_slot(now: ArenaSlot<Named>, before: ArenaSlot<Named>, removed: bool) -> bool {
    if removed {
        !(now is Filled)
    } else {
        now == before
    }
}

/// `without` keeps exactly the ids that are not removed.
proof fn lemma_without_member(ids: Seq<usize>, rs: Set<usize>, k: int)
    requires
        0 <= k < without(ids, rs).len(),
    ensures
        ids.contains(without(ids, rs)[k]),
        !rs.contains(without(ids, rs)[k]),
{
    let p = |x: usize| !rs.contains(x);
    ids.lemma_filter_pred(p, k);
    assert(without(ids, rs).contains(without(ids, rs)[k]));
    ids.lemma_filter_contains_rev(p, without(ids, rs)[k]);
}

impl Linker {
    /// Frees the declarations of the given files and unbinds them from the namespace.
    pub fn remove_file_datas(&mut self, files: &Vec<FileUUID>)
        requires
            old(self).wf(),
            forall|k: int| 0 <= k < files@.len() ==> old(self).is_file(#[trigger] files@[k].hidden_value as int),
        ensures
            final(self).wf(),
            final(self).files == old(self).files,
            final(self).globals@.len() == old(self).globals@.len(),
            forall|i: int|
                0 <= i < old(self).globals@.len() ==> removed_slot(final(self).globals@[i], old(self).globals@[i], ids_of_files(old(self).files, files@).contains(i as usize)),
            forall|n: Seq<char>|
                #[trigger] final(self).lookup(n) == without(old(self).lookup(n), ids_of_files(old(self).files, files@)),
    {
        let ghost rs = ids_of_files(self.files, files@);
        let _n_globals = self.globals.len();
        let mut to_remove: Vec<NamedUUID> = Vec::new();
        let mut k: usize = 0;
        while k < files.len()
            invariant
                k <= files@.len(),
                self.files == old(self).files,
                self.global_namespace == old(self).global_namespace,
                self.globals@.len() == old(self).globals@.len(),
                old(self).globals@.len() <= usize::MAX,
                forall|j: int| 0 <= j < files@.len() ==> old(self).is_file(#[trigger] files@[j].hidden_value as int),
                files_wf(old(self).globals, old(self).files),
                forall|u: usize| #[trigger] id_set(to_remove@).contains(u) <==> exists|j: int| 0 <= j < k && ids_view(at(self.files, #[trigger] files@[j].hidden_value as int).associated_values@).contains(u),
                forall|i: int|
                    0 <= i < old(self).globals@.len() ==> removed_slot(self.globals@[i], old(self).globals@[i], id_set(to_remove@).contains(i as usize)),
            decreases files@.len() - k,
        {
            let f = files[k];
            let assoc = &self.files.get(f).associated_values;
            proof {
                assert(live(self.files, f.hidden_value as int));
                assert(file_wf(old(self).globals, old(self).files, f.hidden_value as int));
            }
            let mut j: usize = 0;
            let ghost removed_before = id_set(to_remove@);
            assert(forall|u: usize| #[trigger] removed_before.contains(u) <==> exists|q: int| 0 <= q < k && ids_view(at(self.files, #[trigger] files@[q].hidden_value as int).associated_values@).contains(u));
            while j < assoc.len()
                invariant
                    j <= assoc@.len(),
                    assoc@ == at(self.files, f.hidden_value as int).associated_values@,
                    self.files == old(self).files,
                    self.global_namespace == old(self).global_namespace,
                    old(self).globals@.len() <= usize::MAX,
                    f == files@[k as int],
                    k < files@.len(),
                    forall|u: usize| #[trigger] removed_before.contains(u) <==> exists|q: int| 0 <= q < k && ids_view(at(self.files, #[trigger] files@[q].hidden_value as int).associated_values@).contains(u),
                    self.globals@.len() == old(self).globals@.len(),
                    forall|q: int| 0 <= q < assoc@.len() ==> (#[trigger] assoc@[q]).hidden_value < old(self).globals@.len(),
                    forall|u: usize| #[trigger] id_set(to_remove@).contains(u) <==> (removed_before.contains(u) || ids_view(assoc@).take(j as int).contains(u)),
                    forall|i: int|
                        0 <= i < old(self).globals@.len() ==> removed_slot(self.globals@[i], old(self).globals@[i], id_set(to_remove@).contains(i as usize)),
                decreases assoc@.len() - j,
            {
                let id = assoc[j];
                let ghost gl = self.globals@;
                if self.globals.is_live(id) {
                    self.globals.free(id);
                }
                proof {
                    assert(!(self.globals@[id.hidden_value as int] is Filled));
                    assert(forall|i: int| 0 <= i < gl.len() && i != id.hidden_value ==> self.globals@[i] == gl[i]);
                }
                let ghost tr = to_remove@;
                to_remove.push(id);
                proof {
                    let av = ids_view(assoc@);
                    assert(av.take(j as int + 1) =~= av.take(j as int).push(id.hidden_value));
                    assert(ids_view(to_remove@) =~= ids_view(tr).push(id.hidden_value));
                    assert forall|u: usize| #[trigger] id_set(to_remove@).contains(u) == (id_set(tr).contains(u) || u == id.hidden_value) by {
                        lemma_push_contains(ids_view(tr), id.hidden_value, u);
                    }
                    assert forall|u: usize| #[trigger] id_set(to_remove@).contains(u) <==> (removed_before.contains(u) || av.take(j as int + 1).contains(u)) by {
                        lemma_push_contains(av.take(j as int), id.hidden_value, u);
                        assert(id_set(tr).contains(u) <==> (removed_before.contains(u) || av.take(j as int).contains(u)));
                    }
                    assert forall|i: int| 0 <= i < old(self).globals@.len() implies removed_slot(self.globals@[i], old(self).globals@[i], id_set(to_remove@).contains(i as usize)) by {
                        assert(id_set(to_remove@).contains(i as usize) == (id_set(tr).contains(i as usize) || i as usize == id.hidden_value));
                        if i != id.hidden_value as int {
                            assert(removed_slot(gl[i], old(self).globals@[i], id_set(tr).contains(i as usize)));
                            assert(self.globals@[i] == gl[i]);
                        }
                    }
                }
                j = j + 1;
            }
            proof {
                assert(ids_view(assoc@).take(assoc@.len() as int) =~= ids_view(assoc@));
                assert(files@[k as int] == f);
                assert forall|u: usize| #[trigger] id_set(to_remove@).contains(u) <==> exists|q: int| 0 <= q < k + 1 && ids_view(at(self.files, #[trigger] files@[q].hidden_value as int).associated_values@).contains(u) by {
                    assert(id_set(to_remove@).contains(u) <==> (removed_before.contains(u) || ids_view(assoc@).contains(u)));
                    if exists|q: int| 0 <= q < k + 1 && ids_view(at(self.files, #[trigger] files@[q].hidden_value as int).associated_values@).contains(u) {
                        let q = choose|q: int| 0 <= q < k + 1 && ids_view(at(self.files, #[trigger] files@[q].hidden_value as int).associated_values@).contains(u);
                        if q < k {
                            assert(exists|q2: int| 0 <= q2 < k && ids_view(at(self.files, #[trigger] files@[q2].hidden_value as int).associated_values@).contains(u));
                        }
                    }
                    if removed_before.contains(u) {
                        let q = choose|q: int| 0 <= q < k && ids_view(at(self.files, #[trigger] files@[q].hidden_value as int).associated_values@).contains(u);
                        assert(0 <= q < k + 1);
                    }
                }
            }
            k = k + 1;
        }
        proof {
            assert(id_set(to_remove@) =~= rs);
        }
        self.global_namespace.remove(&to_remove);
        proof {
            let g = self.globals;
            // builtins are never removed
            assert forall|b: usize| 0 <= b < BUILTIN_COUNT implies !#[trigger] rs.contains(b) by {
                if rs.contains(b) {
                    let q = choose|q: int| 0 <= q < files@.len() && ids_view(at(self.files, #[trigger] files@[q].hidden_value as int).associated_values@).contains(b);
                    let fq = files@[q].hidden_value as int;
                    assert(old(self).is_file(fq));
                    assert(file_wf(old(self).globals, old(self).files, fq));
                    let av = ids_view(at(self.files, fq).associated_values@);
                    let w = choose|w: int| 0 <= w < av.len() && av[w] == b;
                    assert(at(self.files, fq).associated_values@[w].hidden_value == b);
                }
            }
            assert forall|b: int| 0 <= b < BUILTIN_COUNT implies {
                &&& #[trigger] live(g, b)
                &&& builtin_entity_wf(at(g, b), b)
                &&& self.global_namespace.lookup(builtin_name(b)) == seq![b as usize]
            } by {
                assert(live(old(self).globals, b));
                assert(!rs.contains(b as usize));
                assert(g@[b] == old(self).globals@[b]);
                reveal(Seq::filter);
                assert(seq![b as usize].drop_last() =~= Seq::<usize>::empty());
                assert(without(seq![b as usize], rs) =~= seq![b as usize]);
            }
            assert forall|n: Seq<char>, q: int|
                0 <= q < self.global_namespace.lookup(n).len() implies live(g, #[trigger] self.global_namespace.lookup(n)[q] as int) by {
                let ol = old(self).global_namespace.lookup(n);
                lemma_without_member(ol, rs, q);
                let x = self.global_namespace.lookup(n)[q];
                let w = choose|w: int| 0 <= w < ol.len() && ol[w] == x;
                assert(live(old(self).globals, ol[w] as int));
            }
            assert forall|n: Seq<char>, q: int|
                0 <= q < self.global_namespace.lookup(n).len() && builtin_index(n) is None
                    implies #[trigger] self.global_namespace.lookup(n)[q] >= BUILTIN_COUNT by {
                let ol = old(self).global_namespace.lookup(n);
                lemma_without_member(ol, rs, q);
                let x = self.global_namespace.lookup(n)[q];
                let w = choose|w: int| 0 <= w < ol.len() && ol[w] == x;
                assert(ol[w] >= BUILTIN_COUNT);
            }
            assert forall|i: int| BUILTIN_COUNT <= i && #[trigger] live(g, i) implies user_entity_wf(g, self.files, i) by {
                assert(removed_slot(g@[i], old(self).globals@[i], rs.contains(i as usize)));
                assert(g@[i] == old(self).globals@[i]);
                assert(live(old(self).globals, i));
                assert(user_entity_wf(old(self).globals, old(self).files, i));
            }
            assert forall|f: int| #[trigger] live(self.files, f) implies file_wf(g, self.files, f) by {
                assert(file_wf(old(self).globals, old(self).files, f));
                let fd = at(self.files, f);
                assert forall|q: int| 0 <= q < fd.associated_values@.len() implies {
                    let id = #[trigger] fd.associated_values@[q].hidden_value as int;
                    &&& BUILTIN_COUNT <= id < g@.len()
                    &&& live(g, id) ==> spec_link_info(at(g, id))->0.file.hidden_value == f
                } by {
                    let id = fd.associated_values@[q].hidden_value as int;
                    if live(g, id) {
                        assert(removed_slot(g@[id], old(self).globals@[id], rs.contains(id as usize)));
                        assert(g@[id] == old(self).globals@[id]);
                    }
                }
            }
        }
    }
}

impl Linker {
    /// After `remove_file_datas` on `files`, no live declaration belongs to one of them.
    proof fn lemma_no_entity_in_removed_files(&self, prev: &Linker, files: Seq<FileUUID>, i: int)
        requires
            prev.wf(),
            self.files == prev.files,
            self.globals@.len() == prev.globals@.len(),
            forall|j: int|
                0 <= j < prev.globals@.len() ==> removed_slot(self.globals@[j], prev.globals@[j], ids_of_files(prev.files, files).contains(j as usize)),
            BUILTIN_COUNT <= i,
            live(self.globals, i),
        ensures
            !ids_of_files(prev.files, files).contains(i as usize),
            forall|k: int| 0 <= k < files.len() ==> spec_link_info(at(self.globals, i))->0.file != #[trigger] files[k],
    {
        assert(removed_slot(self.globals@[i], prev.globals@[i], ids_of_files(prev.files, files).contains(i as usize)));
        assert(live(prev.globals, i));
        assert(user_entity_wf(prev.globals, prev.files, i));
        assert forall|k: int| 0 <= k < files.len() implies spec_link_info(at(self.globals, i))->0.file != #[trigger] files[k] by {
            if spec_link_info(at(self.globals, i))->0.file == files[k] {
                assert(ids_view(at(prev.files, files[k].hidden_value as int).associated_values@).contains(i as usize));
            }
        }
    }

    /// Removes files together with their declarations.
    pub fn remove_files(&mut self, files: &Vec<FileUUID>)
        requires
            old(self).wf(),
            forall|k: int| 0 <= k < files@.len() ==> old(self).is_file(#[trigger] files@[k].hidden_value as int),
            forall|a: int, b: int| 0 <= a < b < files@.len() ==> files@[a].hidden_value != files@[b].hidden_value,
        ensures
            final(self).wf(),
            forall|k: int| 0 <= k < files@.len() ==> !final(self).is_file(#[trigger] files@[k].hidden_value as int),
            forall|f: int| #[trigger] old(self).is_file(f) && (forall|k: int| 0 <= k < files@.len() ==> files@[k].hidden_value != f)
                ==> final(self).is_file(f) && final(self).file(f) == old(self).file(f),
            final(self).globals@.len() == old(self).globals@.len(),
            forall|i: int|
                0 <= i < old(self).globals@.len() ==> removed_slot(final(self).globals@[i], old(self).globals@[i], ids_of_files(old(self).files, files@).contains(i as usize)),
            files_removed(*old(self), *final(self), files@),
    {
        self.remove_file_datas(files);
        let ghost mid = *self;
        let mut k: usize = 0;
        while k < files.len()
            invariant
                mid.wf(),
                mid.files == old(self).files,
                self.globals == mid.globals,
                self.global_namespace == mid.global_namespace,
                self.files@.len() == mid.files@.len(),
                k <= files@.len(),
                forall|j: int| 0 <= j < files@.len() ==> old(self).is_file(#[trigger] files@[j].hidden_value as int),
                forall|a: int, b: int| 0 <= a < b < files@.len() ==> files@[a].hidden_value != files@[b].hidden_value,
                forall|j: int| 0 <= j < k ==> self.files@[#[trigger] files@[j].hidden_value as int] is Freed,
                forall|f: int| 0 <= f < self.files@.len() && (forall|j: int| 0 <= j < k ==> files@[j].hidden_value != f)
                    ==> #[trigger] self.files@[f] == mid.files@[f],
            decreases files@.len() - k,
        {
            let f = files[k];
            proof {
                assert(self.files@[f.hidden_value as int] == mid.files@[f.hidden_value as int]) by {
                    assert forall|j: int| 0 <= j < k implies files@[j].hidden_value != f.hidden_value by {
                        assert(files@[k as int] == f);
                    }
                }
            }
            self.files.free(f);
            k = k + 1;
        }
        proof {
            let g = self.globals;
            let fs = self.files;
            assert forall|i: int| BUILTIN_COUNT <= i && #[trigger] live(g, i) implies user_entity_wf(g, fs, i) by {
                mid.lemma_no_entity_in_removed_files(old(self), files@, i);
                assert(live(mid.globals, i));
                assert(user_entity_wf(mid.globals, mid.files, i));
                let f = spec_link_info(at(g, i))->0.file.hidden_value as int;
                assert forall|j: int| 0 <= j < files@.len() implies files@[j].hidden_value != f by {
                    assert(spec_link_info(at(g, i))->0.file != files@[j]);
                }
                assert(fs@[f] == mid.files@[f]);
            }
            assert forall|f: int| #[trigger] live(fs, f) implies file_wf(g, fs, f) by {
                if exists|j: int| 0 <= j < files@.len() && files@[j].hidden_value == f {
                    let j = choose|j: int| 0 <= j < files@.len() && files@[j].hidden_value == f;
                    assert(fs@[files@[j].hidden_value as int] is Freed);
                }
                assert(fs@[f] == mid.files@[f]);
                assert(live(mid.files, f));
                assert(file_wf(mid.globals, mid.files, f));
            }
            assert forall|f: int| #[trigger] old(self).is_file(f) && (forall|j: int| 0 <= j < files@.len() ==> files@[j].hidden_value != f)
                implies self.is_file(f) && self.file(f) == old(self).file(f) by {
                assert(fs@[f] == mid.files@[f]);
            }
            assert forall|n: Seq<char>|
                #[trigger] self.lookup(n) == without(old(self).lookup(n), ids_of_files(old(self).files, files@)) by {
                assert(mid.lookup(n) == without(old(self).lookup(n), ids_of_files(old(self).files, files@)));
            }
            assert(files_removed(*old(self), *self, files@));
        }
    }

    /// Re-gathers a file from new text, keeping its id.
    pub fn relink(&mut self, file: FileUUID, file_text: String, parsed: ParsedFile)
        requires
            old(self).wf(),
            old(self).is_file(file.hidden_value as int),
            parsed.fits(file_text@.len()),
            old(self).globals@.len() + parsed.objects@.len() <= usize::MAX,
        ensures
            final(self).wf(),
            final(self).is_file(file.hidden_value as int),
            final(self).file(file.hidden_value as int).file_text@ == file_text@,
            final(self).file(file.hidden_value as int).file_identifier@ == old(self).file(file.hidden_value as int).file_identifier@,
            final(self).file(file.hidden_value as int).parsed == parsed,
            final(self).file(file.hidden_value as int).parsing_errors@ == syntax_error_views(parsed.syntax_errors@),
            consecutive_ids(
                final(self).file(file.hidden_value as int).associated_values@,
                old(self).globals@.len() as int,
                parsed.objects@.len() as int,
            ),
            final(self).files@.len() == old(self).files@.len(),
            forall|f: int| 0 <= f < old(self).files@.len() && f != file.hidden_value ==> #[trigger] final(self).files@[f] == old(self).files@[f],
            final(self).globals@.len() == old(self).globals@.len() + parsed.objects@.len(),
            forall|i: int|
                0 <= i < old(self).globals@.len() ==> removed_slot(
                    #[trigger] final(self).globals@[i],
                    old(self).globals@[i],
                    ids_of_files(old(self).files, seq![file]).contains(i as usize),
                ),
            forall|i: int|
                old(self).globals@.len() <= i < final(self).globals@.len() ==> #[trigger] gathered_at(
                    final(self).globals,
                    i,
                    old(self).globals@.len() as int,
                    file,
                    file_text@,
                    parsed.objects@,
                ),
            forall|n: Seq<char>|
                #[trigger] final(self).lookup(n) == without(old(self).lookup(n), ids_of_files(old(self).files, seq![file]))
                    + declared_ids(old(self).globals@.len() as int, object_names(file_text@, parsed.objects@), n),
    {
        let ghost names = object_names(file_text@, parsed.objects@);
        let ghost base = self.globals@.len() as int;
        let file_identifier = self.files.get(file).file_identifier.clone();
        let mut fs: Vec<FileUUID> = Vec::new();
        fs.push(file);
        self.remove_file_datas(&fs);
        let ghost mid = *self;
        self.files.revert_to_reservation(file);
        proof {
            let g = self.globals;
            let fi = file.hidden_value as int;
            assert(fs@[0] == file);
            assert forall|i: int| BUILTIN_COUNT <= i && #[trigger] live(g, i) implies user_entity_wf(g, self.files, i) by {
                mid.lemma_no_entity_in_removed_files(old(self), fs@, i);
                assert(live(mid.globals, i));
                assert(user_entity_wf(mid.globals, mid.files, i));
                let f = spec_link_info(at(g, i))->0.file.hidden_value as int;
                assert(spec_link_info(at(g, i))->0.file != fs@[0]);
                assert(self.files@[f] == mid.files@[f]);
            }
            assert forall|f: int| #[trigger] live(self.files, f) implies file_wf(g, self.files, f) by {
                assert(self.files@[f] == mid.files@[f]);
                assert(live(mid.files, f));
            }
        }
        let ghost reverted = *self;
        proof {
        }
        self.add_reserved_file(file, file_identifier, file_text, parsed);
        proof {
            assert(fs@ =~= seq![file]);
            assert forall|i: int|
                0 <= i < old(self).globals@.len() implies removed_slot(
                    #[trigger] self.globals@[i],
                    old(self).globals@[i],
                    ids_of_files(old(self).files, seq![file]).contains(i as usize),
                ) by {
                assert(self.globals@[i] == mid.globals@[i]);
                assert(removed_slot(mid.globals@[i], old(self).globals@[i], ids_of_files(old(self).files, fs@).contains(i as usize)));
            }
            assert forall|f: int| 0 <= f < old(self).files@.len() && f != file.hidden_value implies #[trigger] self.files@[f] == old(self).files@[f] by {
                assert(self.files@[f] == reverted.files@[f]);
            }
            assert forall|n: Seq<char>|
                #[trigger] self.lookup(n) == without(old(self).lookup(n), ids_of_files(old(self).files, seq![file]))
                    + declared_ids(base, names, n) by {
                assert(reverted.lookup(n) == mid.lookup(n));
                assert(mid.lookup(n) == without(old(self).lookup(n), ids_of_files(old(self).files, fs@)));
            }
        }
    }

    /// The declaration bound directly to `name`; none where the name is unbound or collides.
    pub fn get_obj_id(&self, name: &String) -> (r: Option<NamedUUID>)
        requires
            self.wf(),
        ensures
            match r {
                Some(id) => self.lookup(name@) == seq![id.hidden_value],
                None => self.lookup(name@).len() != 1,
            },
    {
        match self.global_namespace.get(name) {
            Some(NamespaceElement::Global(id)) => {
                proof {
                    assert(self.lookup(name@) =~= seq![id.hidden_value]);
                }
                Some(*id)
            },
            _ => None,
        }
    }

    pub fn get_obj_by_name(&self, name: &String) -> (r: Option<&Named>)
        requires
            self.wf(),
        ensures
            match r {
                Some(n) => self.lookup(name@).len() == 1 && *n == self.entity(self.lookup(name@)[0] as int),
                None => self.lookup(name@).len() != 1,
            },
    {
        match self.get_obj_id(name) {
            Some(id) => {
                proof {
                    assert(self.lookup(name@)[0] == id.hidden_value);
                    assert(live(self.globals, id.hidden_value as int));
                }
                Some(self.globals.get(id))
            },
            None => None,
        }
    }
}

/// What removing `files` does to the namespace: every name keeps the declarations of the other files.
pub open spec fn files_removed(before: Linker, after: Linker, files: Seq<FileUUID>) -> bool {
    forall|n: Seq<char>| #[trigger] after.lookup(n) == without(before.lookup(n), ids_of_files(before.files, files))
}

/// Two user declarations collide on `name`; removing the file of the first, and not
/// that of the second, binds `name` directly to the second again.
pub proof fn lemma_removal_restores_direct_binding(before: Linker, after: Linker, files: Seq<FileUUID>, name: Seq<char>)
    requires
        before.wf(),
        before.lookup(name).len() == 2,
        before.lookup(name)[0] >= BUILTIN_COUNT,
        before.lookup(name)[1] >= BUILTIN_COUNT,
        forall|k: int| 0 <= k < files.len() ==> before.is_file(#[trigger] files[k].hidden_value as int),
        exists|k: int| 0 <= k < files.len() && files[k].hidden_value == spec_link_info(before.entity(before.lookup(name)[0] as int))->0.file.hidden_value,
        forall|k: int| 0 <= k < files.len() ==> files[k].hidden_value != spec_link_info(before.entity(before.lookup(name)[1] as int))->0.file.hidden_value,
        files_removed(before, after, files),
    ensures
        after.lookup(name) == seq![before.lookup(name)[1]],
{
    let ids = before.lookup(name);
    let a = ids[0];
    let b = ids[1];
    let rs = ids_of_files(before.files, files);
    before.global_namespace.lemma_lookup_wf(name);
    assert(live(before.globals, a as int));
    assert(live(before.globals, b as int));
    assert(user_entity_wf(before.globals, before.files, a as int));
    assert(user_entity_wf(before.globals, before.files, b as int));
    let k = choose|k: int| 0 <= k < files.len() && files[k].hidden_value == spec_link_info(before.entity(a as int))->0.file.hidden_value;
    assert(rs.contains(a)) by {
        assert(ids_view(at(before.files, files[k].hidden_value as int).associated_values@).contains(a));
    }
    assert(!rs.contains(b)) by {
        if rs.contains(b) {
            let q = choose|q: int| 0 <= q < files.len() && ids_view(at(before.files, #[trigger] files[q].hidden_value as int).associated_values@).contains(b);
            let fq = files[q].hidden_value as int;
            let av = at(before.files, fq).associated_values@;
            let w = choose|w: int| 0 <= w < ids_view(av).len() && ids_view(av)[w] == b;
            assert(before.is_file(fq));
            assert(file_wf(before.globals, before.files, fq));
            assert(av[w].hidden_value == b);
        }
    }
    assert(after.lookup(name) == without(ids, rs));
    let p = |x: usize| !rs.contains(x);
    assert(ids =~= Seq::<usize>::empty().push(a).push(b));
    Seq::<usize>::empty().push(a).lemma_filter_push(b, p);
    Seq::<usize>::empty().lemma_filter_push(a, p);
    assert(Seq::<usize>::empty().filter(p) =~= Seq::<usize>::empty()) by {
        reveal(Seq::filter);
    }
    assert(without(ids, rs) =~= seq![b]);
}

/// `n` with its link info replaced by `li`; builtins have none to replace.
pub open spec fn with_link_info(n: Named, li: LinkInfo) -> Named {
    match n {
        Named::Module(md) => Named::Module(Module { link_info: li, instantiations: md.instantiations }),
        Named::Type(NamedType::Struct(_)) => Named::Type(NamedType::Struct(li)),
        Named::Constant(NamedConstant::User(_)) => Named::Constant(NamedConstant::User(li)),
        _ => n,
    }
}

/// `b` describes the same declaration as `a`: only what the pipeline computes may differ.
pub open spec fn same_declaration(a: LinkInfo, b: LinkInfo) -> bool {
    &&& a.file == b.file
    &&& a.object_index == b.object_index
    &&& a.name == b.name
    &&& a.name_span == b.name_span
    &&& a.template_arguments == b.template_arguments
    &&& b.wf()
}

impl Linker {
    /// `self` is `prev` with declaration `i` replaced by `n`, which declares the same thing.
    pub open spec fn unit_replaced(&self, prev: Linker, i: int) -> bool {
        &&& prev.is_entity(i)
        &&& spec_link_info(prev.entity(i)) is Some
        &&& self.global_namespace == prev.global_namespace
        &&& self.files == prev.files
        &&& self.globals@.len() == prev.globals@.len()
        &&& forall|j: int| 0 <= j < prev.globals@.len() && j != i ==> self.globals@[j] == prev.globals@[j]
        &&& self.is_entity(i)
        &&& spec_link_info(self.entity(i)) is Some
        &&& same_declaration(spec_link_info(prev.entity(i))->0, spec_link_info(self.entity(i))->0)
        &&& (self.entity(i) is Module <==> prev.entity(i) is Module)
        &&& (self.entity(i) is Type <==> prev.entity(i) is Type)
        &&& (self.entity(i) is Constant <==> prev.entity(i) is Constant)
    }

    pub proof fn lemma_unit_replaced_wf(&self, prev: Linker, i: int)
        requires
            prev.wf(),
            self.unit_replaced(prev, i),
        ensures
            self.wf(),
    {
        let g = self.globals;
        assert(user_entity_wf(prev.globals, prev.files, i));
        assert forall|b: int| 0 <= b < BUILTIN_COUNT implies {
            &&& #[trigger] live(g, b)
            &&& builtin_entity_wf(at(g, b), b)
            &&& self.global_namespace.lookup(builtin_name(b)) == seq![b as usize]
        } by {
            assert(live(prev.globals, b));
        }
        assert forall|n: Seq<char>, k: int|
            0 <= k < self.global_namespace.lookup(n).len() implies live(g, #[trigger] self.global_namespace.lookup(n)[k] as int) by {
            assert(live(prev.globals, prev.global_namespace.lookup(n)[k] as int));
        }
        assert forall|j: int| BUILTIN_COUNT <= j && #[trigger] live(g, j) implies user_entity_wf(g, self.files, j) by {
            assert(live(prev.globals, j));
            assert(user_entity_wf(prev.globals, prev.files, j));
        }
        assert forall|f: int| #[trigger] live(self.files, f) implies file_wf(g, self.files, f) by {
            assert(file_wf(prev.globals, prev.files, f));
            let fd = at(self.files, f);
            assert forall|q: int| 0 <= q < fd.associated_values@.len() implies {
                let id = #[trigger] fd.associated_values@[q].hidden_value as int;
                &&& BUILTIN_COUNT <= id < g@.len()
                &&& live(g, id) ==> spec_link_info(at(g, id))->0.file.hidden_value == f
            } by {
                let id = fd.associated_values@[q].hidden_value as int;
                if id != i {
                    assert(g@[id] == prev.globals@[id]);
                }
            }
        }
    }

    /// The link info of a user declaration, to change in place.
    pub fn get_link_info_mut(&mut self, id: NamedUUID) -> (r: &mut LinkInfo)
        requires
            old(self).is_entity(id.hidden_value as int),
            spec_link_info(old(self).entity(id.hidden_value as int)) is Some,
        ensures
            *r == spec_link_info(old(self).entity(id.hidden_value as int))->0,
            final(self).globals@ == old(self).globals@.update(
                id.hidden_value as int,
                ArenaSlot::Filled(with_link_info(old(self).entity(id.hidden_value as int), *final(r))),
            ),
            final(self).global_namespace == old(self).global_namespace,
            final(self).files == old(self).files,
    {
        match self.globals.get_mut(id) {
            Named::Module(md) => &mut md.link_info,
            Named::Type(NamedType::Struct(li)) => li,
            Named::Constant(NamedConstant::User(li)) => li,
            _ => unreached(),
        }
    }

    pub fn get_link_info(&self, id: NamedUUID) -> (r: &LinkInfo)
        requires
            self.is_entity(id.hidden_value as int),
            spec_link_info(self.entity(id.hidden_value as int)) is Some,
        ensures
            *r == spec_link_info(self.entity(id.hidden_value as int))->0,
    {
        match self.globals.get(id) {
            Named::Module(md) => &md.link_info,
            Named::Type(NamedType::Struct(li)) => li,
            Named::Constant(NamedConstant::User(li)) => li,
            _ => unreached(),
        }
    }
}

impl Linker {
    /// A name bound to several declarations is no builtin's, so they are all user declarations.
    pub proof fn lemma_collision_is_user(&self, name: Seq<char>)
        requires
            self.wf(),
            self.lookup(name).len() >= 2,
        ensures
            builtin_index(name) is None,
            forall|q: int| 0 <= q < self.lookup(name).len() ==> #[trigger] self.lookup(name)[q] >= BUILTIN_COUNT,
            forall|q: int| 0 <= q < self.lookup(name).len() ==> self.is_entity(#[trigger] self.lookup(name)[q] as int),
    {
        if builtin_index(name) is Some {
            let b = builtin_index(name)->0;
            assert(live(self.globals, b));
            assert(name == builtin_name(b));
        }
    }
}

/// A builtin stays bound, alone, to its name in every well-formed linker: a user declaration of
/// that name neither collides with it nor hides it.
pub proof fn lemma_builtin_always_resolves(linker: Linker, b: int)
    requires
        linker.wf(),
        0 <= b < BUILTIN_COUNT,
    ensures
        linker.lookup(builtin_name(b)) == seq![b as usize],
        builtin_entity_wf(linker.entity(b), b),
{
    assert(live(linker.globals, b));
}

} // verus!
