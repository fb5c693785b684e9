use sus_compiler::config::EarlyExitUpTo;
use sus_compiler::file_position::Span;
use sus_compiler::name_context::LocalVariableContext;
use sus_compiler::resolver::{ResolvedGlobals, ResolvedGlobalsCheckpoint};
use sus_compiler::linker::NamedUUID;
use sus_compiler::template::{ConcreteTemplateArg, TemplateArgKind, TemplateInputKind, TypedValue, GenerativeTemplateInputKind};

#[test]
fn latest_declaration_is_found() {
    let mut ctx: LocalVariableContext<'_, u32> = LocalVariableContext::new_initial();
    assert_eq!(ctx.add_declaration("a", 1), Ok(()));
    assert_eq!(ctx.add_declaration("b", 2), Ok(()));
    assert_eq!(ctx.get_declaration_for("a"), Some(1));
    assert_eq!(ctx.get_declaration_for("b"), Some(2));
    assert_eq!(ctx.get_declaration_for("c"), None);
}

#[test]
fn redeclaration_in_the_same_frame_returns_the_earlier_declaration() {
    let mut ctx: LocalVariableContext<'_, u32> = LocalVariableContext::new_initial();
    assert_eq!(ctx.add_declaration("x", 7), Ok(()));
    assert_eq!(ctx.add_declaration("x", 8), Err(7));
    assert_eq!(ctx.local_stack.len(), 1);
}

#[test]
fn a_name_of_an_outer_frame_is_shadowed() {
    let mut ctx: LocalVariableContext<'_, u32> = LocalVariableContext::new_initial();
    assert_eq!(ctx.add_declaration("x", 7), Ok(()));
    let saved = ctx.new_frame();
    assert_eq!(saved, 1);
    assert_eq!(ctx.add_declaration("x", 8), Ok(()));
    assert_eq!(ctx.get_declaration_for("x"), Some(8));
    assert_eq!(ctx.add_declaration("x", 9), Err(8));
    ctx.pop_frame(0);
    assert_eq!(ctx.get_declaration_for("x"), None);
}

#[test]
fn popping_a_frame_drops_its_declarations() {
    let mut ctx: LocalVariableContext<'_, u32> = LocalVariableContext::new_initial();
    assert_eq!(ctx.add_declaration("outer", 1), Ok(()));
    let saved = ctx.new_frame();
    assert_eq!(ctx.add_declaration("inner", 2), Ok(()));
    assert_eq!(ctx.get_declaration_for("inner"), Some(2));
    ctx.pop_frame(saved);
    assert_eq!(ctx.get_declaration_for("inner"), None);
    assert_eq!(ctx.get_declaration_for("outer"), Some(1));
    assert_eq!(ctx.current_frame_starts_at, 1);
}

#[test]
fn resolved_globals_roll_back_to_a_checkpoint() {
    let mut g = ResolvedGlobals::empty();
    assert!(g.is_untouched());
    g.push(NamedUUID::from_hidden_value(4));
    let cp = g.checkpoint();
    assert_eq!(cp, ResolvedGlobalsCheckpoint(1, true));
    g.push(NamedUUID::from_hidden_value(5));
    g.mark_unresolved();
    assert_eq!(g.checkpoint(), ResolvedGlobalsCheckpoint(2, false));
    g.reset_to(cp);
    assert_eq!(g.checkpoint(), ResolvedGlobalsCheckpoint(1, true));
    let taken = g.take();
    assert!(g.is_untouched());
    assert_eq!(taken.checkpoint(), ResolvedGlobalsCheckpoint(1, true));
    assert!(ResolvedGlobals::new().is_untouched());
}

#[test]
fn overarching_span_covers_both() {
    let s = Span::new_overarching(Span { start: 4, end: 9 }, Span { start: 2, end: 6 });
    assert_eq!(s, Span { start: 2, end: 9 });
}

#[test]
fn unwrapping_template_kinds() {
    let v = TemplateArgKind::Value(TypedValue::Integer(12));
    assert_eq!(v.unwrap_value(), TypedValue::Integer(12));
    let g = TemplateInputKind::Generative(GenerativeTemplateInputKind {
        decl_span: Span { start: 1, end: 3 },
        declaration_instruction: 0,
    });
    assert_eq!(g.unwrap_value().decl_span, Span { start: 1, end: 3 });
    let c = ConcreteTemplateArg::Value(TypedValue::Bool(false));
    assert_eq!(*c.unwrap_value(), TypedValue::Bool(false));
}

#[test]
fn early_exit_runs_the_stages_before_it() {
    assert!(EarlyExitUpTo::Flatten.runs(EarlyExitUpTo::Initialize));
    assert!(EarlyExitUpTo::Flatten.runs(EarlyExitUpTo::Flatten));
    assert!(!EarlyExitUpTo::Flatten.runs(EarlyExitUpTo::AbstractTypecheck));
    assert!(EarlyExitUpTo::CodeGen.runs(EarlyExitUpTo::Instantiate));
}
