use std::rc::Rc;

use sus_compiler::errors::join_expected_list;
use sus_compiler::file_position::{BracketSpan, Span};
use sus_compiler::linker::{get_builtin_constant, get_builtin_type, FileUUID, Linkable, Linker, Named, NamedUUID};
use sus_compiler::syntax_highlighting::{walk_name_color, IDEIdentifierType};
use sus_compiler::syntax::{
    GlobalKind, GlobalObjectKind, GlobalObjectSyntax, ParsedFile, ReferenceSyntax, TemplateArgSyntax,
    TemplateArgValueSyntax, TemplateInputSyntax,
};
use sus_compiler::template::{ConcreteTemplateArg, ConcreteType, TypedValue};

/// The span, in characters, of the first occurrence of `word` at or after `from`.
fn span_of(text: &str, word: &str, from: usize) -> Span {
    let chars: Vec<char> = text.chars().collect();
    let w: Vec<char> = word.chars().collect();
    for i in from..=chars.len() - w.len() {
        if chars[i..i + w.len()] == w[..] {
            return Span { start: i, end: i + w.len() };
        }
    }
    panic!("{word} not in {text}");
}

fn reference(text: &str, word: &str, from: usize, expected: GlobalKind) -> ReferenceSyntax {
    ReferenceSyntax { name_span: span_of(text, word, from), expected, template_args: Vec::new(), template_span: None }
}

fn object(kind: GlobalObjectKind, text: &str, name: &str, from: usize) -> GlobalObjectSyntax {
    GlobalObjectSyntax { kind, name_span: span_of(text, name, from), template_inputs: Vec::new(), references: Vec::new() }
}

fn parsed(objects: Vec<GlobalObjectSyntax>) -> ParsedFile {
    ParsedFile { objects, syntax_errors: Vec::new() }
}

fn add(linker: &mut Linker, name: &str, text: &str, objects: Vec<GlobalObjectSyntax>) -> FileUUID {
    linker.add_file(name.to_string(), text.to_string(), parsed(objects))
}

/// Every diagnostic of a file, written out with its labels.
fn diagnostics(linker: &Linker, file: FileUUID) -> Vec<String> {
    linker
        .get_all_errors_in_file(file)
        .iter()
        .map(|e| {
            let mut s = format!("{}..{}: {}", e.position.start, e.position.end, e.reason);
            for i in &e.infos {
                s += &format!(" | file {} {}..{}: {}", i.file.hidden_value, i.position.start, i.position.end, i.info);
            }
            s
        })
        .collect()
}

fn point_files(linker: &mut Linker) -> (FileUUID, FileUUID) {
    let a = "struct Point {}";
    let b = "struct Point {\n}";
    let fa = add(linker, "a.sus", a, vec![object(GlobalObjectKind::Struct, a, "Point", 0)]);
    let fb = add(linker, "b.sus", b, vec![object(GlobalObjectKind::Struct, b, "Point", 0)]);
    (fa, fb)
}

fn module_using_point(linker: &mut Linker) -> FileUUID {
    let c = "module User {\n  input Point p\n}";
    let mut m = object(GlobalObjectKind::Module, c, "User", 0);
    m.references.push(reference(c, "Point", 0, GlobalKind::Type));
    add(linker, "c.sus", c, vec![m])
}

fn id_of(linker: &Linker, name: &str) -> Option<usize> {
    linker.get_obj_id(&name.to_string()).map(|id| id.hidden_value)
}

#[test]
fn colliding_structs_without_use_give_no_errors() {
    let mut linker = Linker::new();
    let (fa, fb) = point_files(&mut linker);
    linker.recompile_all();
    assert!(diagnostics(&linker, fa).is_empty());
    assert!(diagnostics(&linker, fb).is_empty());
}

#[test]
fn colliding_structs_reported_once_at_use() {
    let mut linker = Linker::new();
    let (fa, fb) = point_files(&mut linker);
    linker.recompile_all();
    let fc = module_using_point(&mut linker);
    linker.recompile_all();
    let errors = linker.get_all_errors_in_file(fc);
    assert_eq!(errors.len(), 1);
    let e = &errors[0];
    assert_eq!(e.reason, "There were colliding imports for the name 'Point'. Pick one and import it by name.");
    assert_eq!((e.position.start, e.position.end), (22, 27));
    assert_eq!(e.infos.len(), 2);
    assert_eq!(e.infos[0].file.hidden_value, fa.hidden_value);
    assert_eq!(e.infos[1].file.hidden_value, fb.hidden_value);
    for info in &e.infos {
        assert_eq!((info.position.start, info.position.end), (7, 12));
        assert_eq!(info.info, "Struct ::Point declared here");
    }
    assert!(diagnostics(&linker, fa).is_empty());
    assert!(diagnostics(&linker, fb).is_empty());
}

#[test]
fn collision_labels_each_declaration_once() {
    let mut linker = Linker::new();
    let text = "module Twice {}\nmodule Twice {}\nmodule Use {}";
    let first = object(GlobalObjectKind::Module, text, "Twice", 0);
    let second = object(GlobalObjectKind::Module, text, "Twice", 10);
    let mut user = object(GlobalObjectKind::Module, text, "Use", 0);
    user.references.push(reference(text, "Twice", 0, GlobalKind::Module));
    let f = add(&mut linker, "t.sus", text, vec![first, second, user]);
    linker.recompile_all();
    let errors = linker.get_all_errors_in_file(f);
    assert_eq!(errors.len(), 1);
    let starts: Vec<usize> = errors[0].infos.iter().map(|i| i.position.start).collect();
    assert_eq!(starts, vec![7, 23]);
    assert!(errors[0].infos.iter().all(|i| i.info == "Module ::Twice declared here"));
}

#[test]
fn removing_a_colliding_file_restores_direct_binding() {
    let mut linker = Linker::new();
    let (fa, fb) = point_files(&mut linker);
    assert_eq!(id_of(&linker, "Point"), None);
    let survivor = linker.get_link_info(NamedUUID::from_hidden_value(5)).file.hidden_value;
    assert_eq!(survivor, fb.hidden_value);
    linker.remove_files(&vec![fa]);
    assert_eq!(id_of(&linker, "Point"), Some(5));
    let fc = module_using_point(&mut linker);
    linker.recompile_all();
    assert!(diagnostics(&linker, fc).is_empty());
}

#[test]
fn removing_the_last_declaration_unbinds_the_name() {
    let mut linker = Linker::new();
    let (fa, fb) = point_files(&mut linker);
    linker.remove_files(&vec![fa, fb]);
    assert_eq!(id_of(&linker, "Point"), None);
    let fc = module_using_point(&mut linker);
    linker.recompile_all();
    assert_eq!(
        diagnostics(&linker, fc),
        vec!["22..27: No Global of the name 'Point' was found. Did you forget to import it?".to_string()]
    );
}

#[test]
fn redeclaring_builtin_bool_is_an_error() {
    let mut linker = Linker::new();
    let text = "struct bool {}";
    let f = add(&mut linker, "b.sus", text, vec![object(GlobalObjectKind::Struct, text, "bool", 0)]);
    linker.recompile_all();
    assert_eq!(diagnostics(&linker, f), vec!["7..11: Cannot redeclare the builtin 'bool'".to_string()]);
    assert_eq!(id_of(&linker, "bool"), Some(0));
    let user_text = "module M {\n  input bool b\n}";
    let mut m = object(GlobalObjectKind::Module, user_text, "M", 0);
    m.references.push(reference(user_text, "bool", 0, GlobalKind::Type));
    let g = add(&mut linker, "m.sus", user_text, vec![m]);
    linker.recompile_all();
    assert!(diagnostics(&linker, g).is_empty());
    assert_eq!(diagnostics(&linker, f), vec!["7..11: Cannot redeclare the builtin 'bool'".to_string()]);
    let module_id = NamedUUID::from_hidden_value(5);
    let li = linker.get_link_info(module_id);
    assert_eq!(li.instructions.len(), 1);
    assert_eq!(li.instructions[0].id.hidden_value, 0);
}

#[test]
fn recompiling_twice_gives_the_same_diagnostics_and_instances() {
    let mut linker = Linker::new();
    let (fa, fb) = point_files(&mut linker);
    let fc = module_using_point(&mut linker);
    let text = "module Lonely {\n  input Missing m\n}";
    let mut lonely = object(GlobalObjectKind::Module, text, "Lonely", 0);
    lonely.references.push(reference(text, "Missing", 0, GlobalKind::Type));
    let fd = add(&mut linker, "d.sus", text, vec![lonely]);
    linker.recompile_all();
    let first: Vec<Vec<String>> = [fa, fb, fc, fd].iter().map(|f| diagnostics(&linker, *f)).collect();
    let lonely_id = NamedUUID::from_hidden_value(7);
    let inst1 = linker.instantiate(lonely_id, &Vec::new()).unwrap();
    linker.recompile_all();
    let second: Vec<Vec<String>> = [fa, fb, fc, fd].iter().map(|f| diagnostics(&linker, *f)).collect();
    assert_eq!(first, second);
    assert_eq!(first[2].len(), 1);
    assert_eq!(first[3].len(), 1);
    let inst2 = linker.instantiate(lonely_id, &Vec::new()).unwrap();
    assert_eq!(inst1.name, inst2.name);
    assert_eq!(inst1.template_args.len(), inst2.template_args.len());
    let refs1: Vec<usize> = inst1.references.iter().map(|r| r.hidden_value).collect();
    let refs2: Vec<usize> = inst2.references.iter().map(|r| r.hidden_value).collect();
    assert_eq!(refs1, refs2);
}

fn adder(linker: &mut Linker) -> NamedUUID {
    let text = "module Adder #(T, int N) {}";
    let mut m = object(GlobalObjectKind::Module, text, "Adder", 0);
    m.template_inputs.push(TemplateInputSyntax { name_span: span_of(text, "T", 14), generative_decl_span: None });
    m.template_inputs.push(TemplateInputSyntax {
        name_span: span_of(text, "N", 14),
        generative_decl_span: Some(span_of(text, "int N", 0)),
    });
    add(linker, "adder.sus", text, vec![m]);
    NamedUUID::from_hidden_value(4)
}

#[test]
fn instantiating_twice_returns_the_same_instance() {
    let mut linker = Linker::new();
    let id = adder(&mut linker);
    linker.recompile_all();
    let args = vec![
        ConcreteTemplateArg::Type(ConcreteType::Named(get_builtin_type("int"))),
        ConcreteTemplateArg::Value(TypedValue::Integer(3)),
    ];
    let a = linker.instantiate(id, &args).unwrap();
    let b = linker.instantiate(id, &args).unwrap();
    assert!(Rc::ptr_eq(&a, &b));
    assert_eq!(a.name, "Adder");
    assert_eq!(a.template_args.len(), 2);
    let other = vec![
        ConcreteTemplateArg::Type(ConcreteType::Named(get_builtin_type("bool"))),
        ConcreteTemplateArg::Value(TypedValue::Integer(3)),
    ];
    let c = linker.instantiate(id, &other).unwrap();
    assert!(!Rc::ptr_eq(&a, &c));
}

#[test]
fn two_missing_arguments_give_one_error() {
    let mut linker = Linker::new();
    let id = adder(&mut linker);
    linker.recompile_all();
    let file = linker.get_link_info(id).file;
    let args = vec![ConcreteTemplateArg::NotProvided, ConcreteTemplateArg::NotProvided];
    assert!(linker.instantiate(id, &args).is_none());
    let errors = linker.get_all_errors_in_file(file);
    assert_eq!(errors.len(), 1);
    assert_eq!(
        errors[0].reason,
        "Could not instantiate ::Adder because the template arguments 'T', 'N' were missing and no default was provided"
    );
    assert_eq!((errors[0].position.start, errors[0].position.end), (7, 12));
    let labels: Vec<(usize, String)> = errors[0].infos.iter().map(|i| (i.position.start, i.info.clone())).collect();
    assert_eq!(labels, vec![(15, "'T' defined here".to_string()), (22, "'N' defined here".to_string())]);
    assert!(linker.instantiate(id, &args).is_none());
    assert_eq!(linker.get_all_errors_in_file(file).len(), 1);
}

#[test]
fn one_missing_argument_is_named_alone() {
    let mut linker = Linker::new();
    let id = adder(&mut linker);
    linker.recompile_all();
    let file = linker.get_link_info(id).file;
    let args = vec![ConcreteTemplateArg::Value(TypedValue::Bool(true)), ConcreteTemplateArg::NotProvided];
    assert!(linker.instantiate(id, &args).is_none());
    let errors = linker.get_all_errors_in_file(file);
    assert_eq!(
        errors[0].reason,
        "Could not instantiate ::Adder because the template arguments 'N' were missing and no default was provided"
    );
    assert_eq!(errors[0].infos.len(), 1);
}

#[test]
fn parameterless_module_is_instantiated_by_recompile() {
    let mut linker = Linker::new();
    let text = "module Top {}\nmodule Adder #(T) {}";
    let top = object(GlobalObjectKind::Module, text, "Top", 0);
    let mut generic = object(GlobalObjectKind::Module, text, "Adder", 0);
    generic.template_inputs.push(TemplateInputSyntax { name_span: span_of(text, "T", 20), generative_decl_span: None });
    add(&mut linker, "top.sus", text, vec![top, generic]);
    linker.recompile_all();
    match linker.globals.get(NamedUUID::from_hidden_value(4)) {
        Named::Module(md) => {
            assert_eq!(md.instantiations.cache.len(), 1);
            assert!(md.instantiations.cache[0].args.is_empty());
            assert!(md.instantiations.cache[0].result.is_some());
        }
        _ => panic!("not a module"),
    }
    match linker.globals.get(NamedUUID::from_hidden_value(5)) {
        Named::Module(md) => assert!(md.instantiations.cache.is_empty()),
        _ => panic!("not a module"),
    }
    let again = linker.instantiate(NamedUUID::from_hidden_value(4), &Vec::new()).unwrap();
    match linker.globals.get(NamedUUID::from_hidden_value(4)) {
        Named::Module(md) => assert!(Rc::ptr_eq(md.instantiations.cache[0].result.as_ref().unwrap(), &again)),
        _ => panic!("not a module"),
    }
}

#[test]
fn wrong_kind_is_reported_with_its_declaration() {
    let mut linker = Linker::new();
    let text = "module Inner {}\nmodule Outer {\n  input Inner x\n}";
    let inner = object(GlobalObjectKind::Module, text, "Inner", 0);
    let mut outer = object(GlobalObjectKind::Module, text, "Outer", 0);
    outer.references.push(reference(text, "Inner", 20, GlobalKind::Type));
    let f = add(&mut linker, "k.sus", text, vec![inner, outer]);
    linker.recompile_all();
    assert_eq!(
        diagnostics(&linker, f),
        vec!["39..44: Module Inner is not a Type! | file 0 7..12: Defined here".to_string()]
    );
}

#[test]
fn builtin_constant_where_a_type_is_expected() {
    let mut linker = Linker::new();
    let text = "module M {\n  input true x\n}";
    let mut m = object(GlobalObjectKind::Module, text, "M", 0);
    m.references.push(reference(text, "true", 0, GlobalKind::Type));
    let f = add(&mut linker, "k.sus", text, vec![m]);
    linker.recompile_all();
    assert_eq!(
        diagnostics(&linker, f),
        vec!["19..23: Builtin Constant true is not a Type!".to_string()]
    );
}

#[test]
fn template_arguments_bind_to_parameters_in_order() {
    let mut linker = Linker::new();
    adder(&mut linker);
    let text = "module Use {\n  Adder #(T: bool, N: 5) a\n}";
    let mut m = object(GlobalObjectKind::Module, text, "Use", 0);
    let mut r = reference(text, "Adder", 0, GlobalKind::Module);
    r.template_args.push(Some(TemplateArgSyntax {
        name_span: span_of(text, "T", 20),
        value_span: span_of(text, "bool", 0),
        value: TemplateArgValueSyntax::Type(span_of(text, "bool", 0)),
    }));
    r.template_args.push(Some(TemplateArgSyntax {
        name_span: span_of(text, "N", 20),
        value_span: span_of(text, "5", 0),
        value: TemplateArgValueSyntax::Value(TypedValue::Integer(5)),
    }));
    r.template_span = Some(BracketSpan { outer: Span { start: 21, end: 37 } });
    m.references.push(r);
    let f = add(&mut linker, "u.sus", text, vec![m]);
    linker.recompile_all();
    assert!(diagnostics(&linker, f).is_empty());
    let li = linker.get_link_info(NamedUUID::from_hidden_value(5));
    let reference = &li.instructions[0];
    assert_eq!(reference.id.hidden_value, 4);
    assert_eq!(reference.template_args.len(), 2);
    let total = reference.get_total_span();
    assert_eq!((total.start, total.end), (15, 37));
    assert_eq!(reference.template_arg_types.len(), 2);
    let types: Vec<Option<usize>> = reference
        .template_arg_types
        .iter()
        .map(|t| match t {
            sus_compiler::template::AbstractType::Named(id) => Some(id.hidden_value),
            sus_compiler::template::AbstractType::Unknown => None,
        })
        .collect();
    assert_eq!(types, vec![Some(0), Some(1)]);
    // gathering, flattening and type checking each left a checkpoint
    assert_eq!(li.checkpoints.len(), 3);
}

#[test]
fn updating_a_file_replaces_its_declarations() {
    let mut linker = Linker::new();
    let (fa, _fb) = point_files(&mut linker);
    let text = "struct Vector {}";
    linker.update_file(text.to_string(), fa, parsed(vec![object(GlobalObjectKind::Struct, text, "Vector", 0)]));
    assert_eq!(id_of(&linker, "Point"), Some(5));
    assert_eq!(id_of(&linker, "Vector"), Some(6));
    assert_eq!(linker.files.get(fa).file_text, text);
}

#[test]
fn syntax_errors_are_diagnostics_of_the_file() {
    let mut linker = Linker::new();
    let text = "struct {";
    let mut p = parsed(Vec::new());
    p.syntax_errors.push(Span { start: 7, end: 8 });
    let f = linker.add_file("e.sus".to_string(), text.to_string(), p);
    assert_eq!(diagnostics(&linker, f), vec!["7..8: Syntax error".to_string()]);
}

#[test]
fn builtins_have_fixed_ids() {
    assert_eq!(get_builtin_type("bool").hidden_value, 0);
    assert_eq!(get_builtin_type("int").hidden_value, 1);
    assert_eq!(get_builtin_constant("true").hidden_value, 2);
    assert_eq!(get_builtin_constant("false").hidden_value, 3);
    let linker = Linker::new();
    for (name, id) in [("bool", 0), ("int", 1), ("true", 2), ("false", 3)] {
        assert_eq!(id_of(&linker, name), Some(id));
    }
}

#[test]
fn expected_tokens_are_listed_with_or() {
    let three = vec!["a".to_string(), "b".to_string(), "c".to_string()];
    assert_eq!(join_expected_list(&three), "'a','b', or 'c'");
    assert_eq!(join_expected_list(&vec!["x".to_string()]), "'x'");
}

#[test]
fn linking_error_location_of_a_struct() {
    let mut linker = Linker::new();
    let (fa, _fb) = point_files(&mut linker);
    let point = linker.globals.get(NamedUUID::from_hidden_value(4));
    let location = point.get_linking_error_location();
    assert_eq!(location.named_type, "Struct");
    assert_eq!(location.full_name, "::Point");
    let (file, span) = location.location.unwrap();
    assert_eq!(file.hidden_value, fa.hidden_value);
    assert_eq!((span.start, span.end), (7, 12));
    let builtin = linker.globals.get(get_builtin_constant("true"));
    assert_eq!(builtin.get_linking_error_location().named_type, "Builtin Constant");
    assert!(builtin.get_linking_error_location().location.is_none());
    assert!(builtin.get_link_info().is_none());
}

#[test]
fn names_are_colored_by_the_kind_of_global() {
    let mut linker = Linker::new();
    let a = "struct Point {}";
    add(&mut linker, "a.sus", a, vec![object(GlobalObjectKind::Struct, a, "Point", 0)]);
    module_using_point(&mut linker);
    linker.recompile_all();
    let ids = vec![NamedUUID::from_hidden_value(4), NamedUUID::from_hidden_value(5)];
    let colors: Vec<(IDEIdentifierType, usize, usize)> =
        walk_name_color(&ids, &linker).iter().map(|(c, s)| (*c, s.start, s.end)).collect();
    assert_eq!(
        colors,
        vec![
            (IDEIdentifierType::Type, 7, 12),
            (IDEIdentifierType::Type, 22, 27),
            (IDEIdentifierType::Interface, 7, 11),
        ]
    );
}

#[test]
fn an_empty_file_declares_nothing() {
    let mut linker = Linker::new();
    let f = add(&mut linker, "empty.sus", "", Vec::new());
    linker.recompile_all();
    assert!(diagnostics(&linker, f).is_empty());
    assert_eq!(linker.globals.len(), 4);
    assert!(linker.files.get(f).associated_values.is_empty());
}

#[test]
fn updating_away_a_collision_binds_the_other_declaration() {
    let mut linker = Linker::new();
    let (fa, _fb) = point_files(&mut linker);
    let fc = module_using_point(&mut linker);
    linker.recompile_all();
    assert_eq!(diagnostics(&linker, fc).len(), 1);
    let text = "struct Other {}";
    linker.update_file(text.to_string(), fa, parsed(vec![object(GlobalObjectKind::Struct, text, "Other", 0)]));
    linker.recompile_all();
    assert!(diagnostics(&linker, fc).is_empty());
    let user = linker.get_link_info(NamedUUID::from_hidden_value(6));
    assert_eq!(user.instructions[0].id.hidden_value, 5);
}

#[test]
fn redeclaring_a_builtin_twice_labels_the_other_declaration() {
    let mut linker = Linker::new();
    let a = "struct bool {}";
    let b = "const bool x {}";
    let fa = add(&mut linker, "a.sus", a, vec![object(GlobalObjectKind::Struct, a, "bool", 0)]);
    let fb = add(&mut linker, "b.sus", b, vec![object(GlobalObjectKind::Constant, b, "bool", 0)]);
    linker.recompile_all();
    assert_eq!(
        diagnostics(&linker, fa),
        vec![format!("7..11: Cannot redeclare the builtin 'bool' | file {} 6..10: Conflicts with", fb.hidden_value)]
    );
    assert_eq!(
        diagnostics(&linker, fb),
        vec![format!("6..10: Cannot redeclare the builtin 'bool' | file {} 7..11: Conflicts with", fa.hidden_value)]
    );
    assert_eq!(id_of(&linker, "bool"), Some(0));
}
