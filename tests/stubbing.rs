use wepl::bindings::{BindingTable, Handler, ImportPath};
use wepl::check::{check_interface, check_signature, LinkError};
use wepl::runtime::{check_function_binding, populate_stubs, Runtime};
use wepl::types::{TypeDefKind, WitType};
use wepl::world::{ComponentMeta, Function, Ident, Interface, ItemIdent, Param, Results, WorldItem};

fn param(name: &str, ty: WitType) -> Param {
    Param { name: name.to_string(), ty }
}

fn func(name: &str, params: Vec<Param>, results: Results) -> Function {
    Function { name: name.to_string(), params, results }
}

fn iface(name: &str, functions: Vec<Function>) -> Interface {
    Interface { name: name.to_string(), functions, resources: vec![], capability: false }
}

fn meta(imports: Vec<WorldItem>, exports: Vec<WorldItem>) -> ComponentMeta {
    ComponentMeta { types: vec![], imports, exports }
}

fn root(item: &str) -> ItemIdent {
    ItemIdent { interface: None, item: item.to_string() }
}

fn root_path(name: &str) -> ImportPath {
    ImportPath { interface: None, name: name.to_string() }
}

fn iface_path(interface: &str, name: &str) -> ImportPath {
    ImportPath { interface: Some(interface.to_string()), name: name.to_string() }
}

fn greet() -> Function {
    func("greet", vec![], Results::Anon(WitType::Str))
}

fn add2() -> Function {
    func("add", vec![param("a", WitType::U32), param("b", WitType::U32)], Results::Anon(WitType::U32))
}

fn next_named() -> Function {
    func("next", vec![], Results::Named(vec![param("value", WitType::U32)]))
}

#[test]
fn init_binds_every_import() {
    let wasi = Interface {
        name: "wasi:cli/stdout".to_string(),
        functions: vec![func("get-stdout", vec![], Results::Anon(WitType::U32))],
        resources: vec!["output-stream".to_string()],
        capability: true,
    };
    let files = Interface {
        name: "files".to_string(),
        functions: vec![func("open", vec![], Results::Anon(WitType::U32))],
        resources: vec!["descriptor".to_string()],
        capability: false,
    };
    let m = meta(
        vec![WorldItem::Function(greet()), WorldItem::Interface(wasi), WorldItem::Interface(files)],
        vec![],
    );
    let mut rt = Runtime::init(vec![0, 97, 115, 109], m);
    assert_eq!(rt.binding(&root_path("greet")), Some(&Handler::Stub("greet".to_string())));
    assert_eq!(rt.binding(&iface_path("wasi:cli/stdout", "get-stdout")), Some(&Handler::Host));
    assert_eq!(rt.binding(&iface_path("wasi:cli/stdout", "output-stream")), Some(&Handler::Host));
    assert_eq!(rt.binding(&iface_path("files", "open")), Some(&Handler::Stub("files".to_string())));
    assert_eq!(rt.binding(&iface_path("files", "descriptor")), Some(&Handler::Resource));
    assert_eq!(rt.binding(&root_path("absent")), None);
    assert_eq!(rt.component_bytes(), &[0u8, 97, 115, 109][..]);
    assert_eq!(rt.refresh(), Ok(()));
}

#[test]
fn populate_stubs_on_empty_metadata_is_empty() {
    let table = populate_stubs(&meta(vec![], vec![]));
    assert_eq!(table.len(), 0);
}

#[test]
fn install_twice_shadows() {
    let mut table = BindingTable::new();
    table.install(root_path("log"), Handler::Stub("log".to_string()));
    table.install(root_path("log"), Handler::Host);
    assert_eq!(table.len(), 1);
    assert_eq!(table.lookup(&root_path("log")), Some(&Handler::Host));
}

#[test]
fn stub_simple_function() {
    let primary = meta(vec![WorldItem::Function(greet())], vec![]);
    let donor = meta(vec![], vec![WorldItem::Function(greet())]);
    let mut rt = Runtime::init(vec![], primary);
    let r = rt.stub(Ident::Item(root("greet")), Ident::Item(root("greet")), donor.clone());
    assert_eq!(r, Ok(()));
    assert_eq!(
        rt.binding(&root_path("greet")),
        Some(&Handler::Donor { donor: 0, export: root("greet") })
    );
}

#[test]
fn arity_mismatch() {
    let primary = meta(vec![WorldItem::Function(add2())], vec![]);
    let add1 = func("add", vec![param("a", WitType::U32)], Results::Anon(WitType::U32));
    let donor = meta(vec![], vec![WorldItem::Function(add1)]);
    let mut rt = Runtime::init(vec![], primary);
    let r = rt.stub_function(&root("add"), root("add"), donor.clone());
    assert_eq!(r, Err(LinkError::ArityMismatch { function: "add".to_string() }));
    assert_eq!(rt.binding(&root_path("add")), Some(&Handler::Stub("add".to_string())));
}

#[test]
fn interface_binding_with_named_results() {
    let primary = meta(vec![WorldItem::Interface(iface("counter", vec![next_named()]))], vec![]);
    let donor = meta(vec![], vec![WorldItem::Interface(iface("counter", vec![next_named()]))]);
    let mut rt = Runtime::init(vec![], primary);
    let r = rt.stub(Ident::Interface("counter".to_string()), Ident::Interface("counter".to_string()), donor.clone());
    assert_eq!(r, Ok(()));
    assert_eq!(
        rt.binding(&iface_path("counter", "next")),
        Some(&Handler::Donor {
            donor: 0,
            export: ItemIdent { interface: Some("counter".to_string()), item: "next".to_string() },
        })
    );
}

#[test]
fn return_kind_mismatch() {
    let u: Vec<TypeDefKind> = vec![];
    let named = func("get", vec![], Results::Named(vec![param("v", WitType::U32)]));
    let anon = func("get", vec![], Results::Anon(WitType::U32));
    assert_eq!(
        check_signature(&u, &named, &u, &anon),
        Err(LinkError::ReturnKindMismatch { function: "get".to_string() })
    );
    let primary = meta(vec![WorldItem::Function(named)], vec![]);
    let donor = meta(vec![], vec![WorldItem::Function(anon)]);
    let mut rt = Runtime::init(vec![], primary);
    assert_eq!(
        rt.stub_function(&root("get"), root("get"), donor.clone()),
        Err(LinkError::ReturnKindMismatch { function: "get".to_string() })
    );
}

#[test]
fn shadow_rebinding() {
    let log = func("log", vec![param("msg", WitType::Str)], Results::Named(vec![]));
    let primary = meta(vec![WorldItem::Function(log.clone())], vec![]);
    let donor_a = meta(vec![], vec![WorldItem::Function(log.clone())]);
    let donor_b = meta(vec![], vec![WorldItem::Function(log)]);
    let mut rt = Runtime::init(vec![], primary);
    assert_eq!(rt.stub_function(&root("log"), root("log"), donor_a.clone()), Ok(()));
    assert_eq!(rt.binding(&root_path("log")), Some(&Handler::Donor { donor: 0, export: root("log") }));
    assert_eq!(rt.stub_function(&root("log"), root("log"), donor_b.clone()), Ok(()));
    assert_eq!(rt.binding(&root_path("log")), Some(&Handler::Donor { donor: 1, export: root("log") }));
}

#[test]
fn compose_replaces_bindings() {
    let f = func("f", vec![], Results::Anon(WitType::U32));
    let g = func("g", vec![], Results::Anon(WitType::U32));
    let primary = meta(vec![WorldItem::Function(f.clone()), WorldItem::Function(g.clone())], vec![]);
    let donor = meta(vec![], vec![WorldItem::Function(f)]);
    let mut rt = Runtime::init(vec![1], primary);
    assert_eq!(rt.stub_function(&root("f"), root("f"), donor.clone()), Ok(()));
    let composed = meta(vec![WorldItem::Function(g)], vec![]);
    assert_eq!(rt.set_component(vec![2], composed), Ok(()));
    assert_eq!(rt.component_bytes(), &[2u8][..]);
    assert_eq!(rt.component_meta().imports.len(), 1);
    let h = func("h", vec![], Results::Anon(WitType::U32));
    let needs_more = meta(vec![WorldItem::Function(h)], vec![]);
    assert_eq!(rt.set_component(vec![3], needs_more), Err(LinkError::InstantiationFailed("h".to_string())));
}

#[test]
fn shape_mismatch_changes_nothing() {
    let primary = meta(vec![WorldItem::Function(greet()), WorldItem::Interface(iface("counter", vec![next_named()]))], vec![]);
    let donor = meta(vec![], vec![WorldItem::Function(greet()), WorldItem::Interface(iface("counter", vec![next_named()]))]);
    let mut rt = Runtime::init(vec![], primary);
    assert_eq!(
        rt.stub(Ident::Item(root("greet")), Ident::Interface("counter".to_string()), donor.clone()),
        Err(LinkError::ShapeMismatch)
    );
    assert_eq!(
        rt.stub(Ident::Interface("counter".to_string()), Ident::Item(root("greet")), donor.clone()),
        Err(LinkError::ShapeMismatch)
    );
    assert_eq!(rt.binding(&root_path("greet")), Some(&Handler::Stub("greet".to_string())));
    assert_eq!(rt.binding(&iface_path("counter", "next")), Some(&Handler::Stub("counter".to_string())));
}

#[test]
fn unknown_import_and_export() {
    let primary = meta(vec![WorldItem::Function(greet())], vec![]);
    let donor = meta(vec![], vec![WorldItem::Function(greet())]);
    assert_eq!(
        check_function_binding(&primary, &root("nope"), &donor, &root("greet")),
        Err(LinkError::UnknownImport("nope".to_string()))
    );
    assert_eq!(
        check_function_binding(&primary, &root("greet"), &donor, &root("nope")),
        Err(LinkError::UnknownExport("nope".to_string()))
    );
    let mut rt = Runtime::init(vec![], primary);
    assert_eq!(
        rt.stub_interface(&"counter".to_string(), &"counter".to_string(), donor.clone()),
        Err(LinkError::UnknownImport("counter".to_string()))
    );
}

#[test]
fn parameter_type_mismatch_names_argument() {
    let u: Vec<TypeDefKind> = vec![];
    let a = func("add", vec![param("a", WitType::U32), param("b", WitType::U32)], Results::Anon(WitType::U32));
    let b = func("add", vec![param("x", WitType::U32), param("y", WitType::S32)], Results::Anon(WitType::U32));
    assert_eq!(
        check_signature(&u, &a, &u, &b),
        Err(LinkError::TypeMismatch { function: "add".to_string(), arg: Some("b".to_string()) })
    );
}

#[test]
fn named_result_mismatches() {
    let u: Vec<TypeDefKind> = vec![];
    let imp = func("next", vec![], Results::Named(vec![param("value", WitType::U32)]));
    let other_name = func("next", vec![], Results::Named(vec![param("count", WitType::U32)]));
    let other_type = func("next", vec![], Results::Named(vec![param("value", WitType::U64)]));
    let anon_other = func("next", vec![], Results::Anon(WitType::U64));
    let anon_same = func("next", vec![], Results::Anon(WitType::U32));
    assert_eq!(
        check_signature(&u, &imp, &u, &other_name),
        Err(LinkError::ReturnNameMismatch { function: "next".to_string(), name: "value".to_string() })
    );
    assert_eq!(
        check_signature(&u, &imp, &u, &other_type),
        Err(LinkError::ReturnTypeMismatch { function: "next".to_string(), name: "value".to_string() })
    );
    assert_eq!(
        check_signature(&u, &anon_same, &u, &anon_other),
        Err(LinkError::TypeMismatch { function: "next".to_string(), arg: None })
    );
    assert_eq!(check_signature(&u, &anon_same, &u, &anon_same), Ok(()));
}

#[test]
fn missing_export_function() {
    let u: Vec<TypeDefKind> = vec![];
    let imp = iface("counter", vec![next_named(), func("reset", vec![], Results::Named(vec![]))]);
    let exp = iface("counter", vec![next_named()]);
    assert_eq!(
        check_interface(&u, &imp, &u, &exp),
        Err(LinkError::MissingExportFunction("reset".to_string()))
    );
    assert_eq!(check_interface(&u, &exp, &u, &imp), Ok(()));
}

#[test]
fn get_func_resolves_exports() {
    let primary = meta(vec![], vec![WorldItem::Function(greet()), WorldItem::Interface(iface("counter", vec![next_named()]))]);
    let rt = Runtime::init(vec![], primary);
    let missing_interface = ItemIdent { interface: Some("clock".to_string()), item: "now".to_string() };
    assert_eq!(
        rt.get_func(&missing_interface).map(|f| f.name.clone()),
        Err(LinkError::NoSuchExport("clock".to_string()))
    );
    let missing_function = ItemIdent { interface: Some("counter".to_string()), item: "reset".to_string() };
    assert_eq!(
        rt.get_func(&missing_function).map(|f| f.name.clone()),
        Err(LinkError::NoSuchExport("reset".to_string()))
    );
    assert_eq!(rt.get_func(&root("greet")).map(|f| f.name.clone()), Ok("greet".to_string()));
    let next = ItemIdent { interface: Some("counter".to_string()), item: "next".to_string() };
    assert_eq!(rt.get_func(&next).map(|f| f.name.clone()), Ok("next".to_string()));
    assert_eq!(rt.get_func(&root("nope")).map(|f| f.name.clone()), Err(LinkError::NoSuchExport("nope".to_string())));
}

#[test]
fn install_waits_for_refresh() {
    let mut rt = Runtime::init(vec![], meta(vec![WorldItem::Function(greet())], vec![]));
    rt.install(root_path("greet"), Handler::Host);
    assert_eq!(rt.binding(&root_path("greet")), Some(&Handler::Host));
    assert_eq!(rt.refresh(), Ok(()));
}

#[test]
fn named_result_count_mismatch() {
    let u: Vec<TypeDefKind> = vec![];
    let one = func("pair", vec![], Results::Named(vec![param("a", WitType::U32)]));
    let two = func("pair", vec![], Results::Named(vec![param("a", WitType::U32), param("b", WitType::U32)]));
    assert_eq!(
        check_signature(&u, &one, &u, &two),
        Err(LinkError::ArityMismatch { function: "pair".to_string() })
    );
}

#[test]
fn well_formedness_and_capabilities() {
    let forward = ComponentMeta {
        types: vec![TypeDefKind::List(WitType::Id(0))],
        imports: vec![],
        exports: vec![],
    };
    assert!(!forward.is_well_formed());
    let dangling = meta(vec![WorldItem::Function(func("f", vec![param("x", WitType::Id(3))], Results::Named(vec![])))], vec![]);
    assert!(!dangling.is_well_formed());
    let good = ComponentMeta {
        types: vec![TypeDefKind::List(WitType::U8), TypeDefKind::OptionOf(WitType::Id(0))],
        imports: vec![WorldItem::Function(func("f", vec![param("x", WitType::Id(1))], Results::Named(vec![])))],
        exports: vec![],
    };
    assert!(good.is_well_formed());
    assert!(!good.imports_capabilities());
    let wasi = Interface {
        name: "wasi:io/streams".to_string(),
        functions: vec![],
        resources: vec!["output-stream".to_string()],
        capability: true,
    };
    assert!(meta(vec![WorldItem::Interface(wasi)], vec![]).imports_capabilities());
}

#[test]
fn typed_signatures_across_tables() {
    let u1 = vec![TypeDefKind::Record(vec![wepl::types::Field { name: "n".to_string(), ty: WitType::U32 }])];
    let u2 = vec![
        TypeDefKind::Record(vec![wepl::types::Field { name: "n".to_string(), ty: WitType::U32 }]),
        TypeDefKind::Alias(WitType::Id(0)),
    ];
    let imp = func("take", vec![param("r", WitType::Id(0))], Results::Anon(WitType::Id(0)));
    let exp = func("take", vec![param("other", WitType::Id(1))], Results::Anon(WitType::Id(0)));
    assert_eq!(check_signature(&u1, &imp, &u2, &exp), Ok(()));
}

#[test]
fn refresh_rejects_a_donor_handler_that_no_longer_fits() {
    let f = func("f", vec![], Results::Anon(WitType::U32));
    let primary = meta(vec![WorldItem::Function(f.clone())], vec![]);
    let donor = meta(vec![], vec![WorldItem::Function(f)]);
    let mut rt = Runtime::init(vec![], primary);
    assert_eq!(rt.stub_function(&root("f"), root("f"), donor), Ok(()));
    let changed = meta(vec![WorldItem::Function(func("f", vec![], Results::Anon(WitType::Str)))], vec![]);
    assert_eq!(rt.set_component(vec![9], changed), Err(LinkError::InstantiationFailed("f".to_string())));
    let mut rt2 = Runtime::init(vec![], meta(vec![WorldItem::Function(greet())], vec![]));
    rt2.install(root_path("greet"), Handler::Donor { donor: 7, export: root("greet") });
    assert_eq!(rt2.refresh(), Err(LinkError::InstantiationFailed("greet".to_string())));
}
