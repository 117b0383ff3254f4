use js_runtime::errors::ErrorKind;
use js_runtime::module_run::{ModuleAction, ModuleEvent, ModuleRun, ModuleStep};
use js_runtime::modules::{resolve_imports, ModuleLoader, ModuleMap, Wanted};
use js_runtime::resolve::resolve_import;
use js_runtime::runtime::JsRuntime;

fn s(x: &str) -> String {
    x.to_string()
}

fn entry(id: &str) -> Wanted {
    Wanted { id: s(id), specifier: s(id), referrer: None }
}

fn imported(id: &str, by: &str) -> Wanted {
    Wanted { id: s(id), specifier: s(id), referrer: Some(s(by)) }
}

fn imports_of(id: &str) -> Vec<&'static str> {
    match id {
        "/app/a.js" => vec!["./b.js", "./c.js"],
        "/app/b.js" => vec!["./lib/d.js"],
        "/app/c.js" => vec!["./lib/../lib/d.js", "./a.js"],
        "/app/lib/d.js" => vec!["../b.js"],
        _ => vec![],
    }
}

fn load(entry: &str) -> (ModuleMap<usize>, Vec<String>) {
    let mut map: ModuleMap<usize> = ModuleMap::new();
    let mut loader = ModuleLoader::new(self::entry(entry));
    let mut order = Vec::new();
    while let Some(wanted) = loader.next(&map) {
        let specifiers: Vec<String> = imports_of(&wanted.id).into_iter().map(s).collect();
        let imports = resolve_imports(&wanted.id, &specifiers).unwrap();
        order.push(wanted.id.clone());
        assert!(loader.compiled(&mut map, wanted.id, order.len(), imports));
    }
    (map, order)
}

#[test]
fn shared_module_is_compiled_once() {
    let (map, order) = load("/app/a.js");
    assert_eq!(order, vec![s("/app/a.js"), s("/app/b.js"), s("/app/lib/d.js"), s("/app/c.js")]);
    assert_eq!(map.len(), 4);
    assert_eq!(map.get(&s("/app/lib/d.js")), Some(&3));
}

#[test]
fn mutual_imports_end() {
    let (map, order) = load("/app/lib/d.js");
    assert_eq!(order, vec![s("/app/lib/d.js"), s("/app/b.js")]);
    assert_eq!(map.len(), 2);
}

#[test]
fn module_without_imports_is_alone() {
    let (map, order) = load("/x.js");
    assert_eq!(order, vec![s("/x.js")]);
    assert!(map.contains(&s("/x.js")));
    assert!(!map.contains(&s("/y.js")));
}

#[test]
fn second_record_for_an_identifier_is_refused() {
    let mut map: ModuleMap<&str> = ModuleMap::new();
    assert!(map.insert(s("/a.js"), "first"));
    assert!(!map.insert(s("/a.js"), "second"));
    assert!(map.insert(s("/b.js"), "other"));
    assert_eq!(map.len(), 2);
    assert_eq!(map.get(&s("/a.js")), Some(&"first"));
    assert_eq!(map.get(&s("/b.js")), Some(&"other"));
    assert_eq!(map.get(&s("/c.js")), None);
    assert_eq!(map.find(&s("/b.js")), Some(1));
    assert_eq!(map.id_at(1), "/b.js");
    assert_eq!(map.record_at(0), &"first");
    assert_eq!(map.find(&s("/c.js")), None);
}

#[test]
fn compiled_twice_changes_nothing() {
    let mut map: ModuleMap<u8> = ModuleMap::new();
    let mut loader = ModuleLoader::new(entry("/a.js"));
    let id = loader.next(&map).unwrap().id;
    assert!(loader.compiled(&mut map, id, 1, vec![imported("/b.js", "/a.js")]));
    assert!(!loader.compiled(&mut map, s("/a.js"), 2, vec![imported("/z.js", "/a.js")]));
    assert_eq!(map.get(&s("/a.js")), Some(&1));
    assert_eq!(loader.next(&map).unwrap().id, "/b.js");
    assert!(loader.next(&map).is_none());
}

#[test]
fn first_import_is_visited_first() {
    let map: ModuleMap<u8> = ModuleMap::new();
    let mut loader = ModuleLoader::new(entry("/a.js"));
    let mut m2: ModuleMap<u8> = ModuleMap::new();
    let id = loader.next(&map).unwrap().id;
    let imports = resolve_imports("/a.js", &vec![s("./1.js"), s("./2.js"), s("./3.js")]).unwrap();
    loader.compiled(&mut m2, id, 0, imports);
    for (id, specifier) in [("/1.js", "./1.js"), ("/2.js", "./2.js"), ("/3.js", "./3.js")] {
        let next = loader.next(&m2).unwrap();
        assert_eq!(next.id, id);
        assert_eq!(next.specifier, specifier);
        assert_eq!(next.referrer, Some(s("/a.js")));
    }
    assert!(loader.next(&m2).is_none());
}

#[test]
fn relative_specifier_starts_at_the_referrers_directory() {
    assert_eq!(resolve_import(Some("/app/main.js"), "./util.js").unwrap(), "/app/util.js");
    assert_eq!(resolve_import(Some("/app/main.js"), "util.js").unwrap(), "/app/util.js");
    assert_eq!(resolve_import(Some("/app/src/main.js"), "../lib/x.js").unwrap(), "/app/lib/x.js");
    assert_eq!(resolve_import(Some("/main.js"), "a/b/c.js").unwrap(), "/a/b/c.js");
}

#[test]
fn different_specifiers_for_one_file_give_one_identifier() {
    let by = Some("/app/src/main.js");
    let want = "/app/src/dep.js";
    for spec in ["dep.js", "./dep.js", "././dep.js", ".//dep.js", "../src/dep.js", "x/../dep.js", "/app/src/dep.js", "/app/./src//dep.js"] {
        assert_eq!(resolve_import(by, spec).unwrap(), want);
    }
    assert_eq!(resolve_import(Some("/other/place.js"), "../app/src/dep.js").unwrap(), want);
}

#[test]
fn resolution_gives_the_same_answer_each_time() {
    let a = resolve_import(Some("/a/b.js"), "../c/./d.js");
    let b = resolve_import(Some("/a/b.js"), "../c/./d.js");
    assert_eq!(a.unwrap(), b.unwrap());
}

#[test]
fn absolute_specifier_ignores_the_referrer() {
    assert_eq!(resolve_import(Some("/app/main.js"), "/lib/x.js").unwrap(), "/lib/x.js");
    assert_eq!(resolve_import(Some("../../.."), "/lib/x.js").unwrap(), "/lib/x.js");
}

#[test]
fn entry_module_starts_at_the_root() {
    assert_eq!(resolve_import(None, "main.js").unwrap(), "/main.js");
    assert_eq!(resolve_import(None, "./a/../main.js").unwrap(), "/main.js");
    assert_eq!(resolve_import(None, "/srv/app/main.js").unwrap(), "/srv/app/main.js");
}

#[test]
fn identifier_is_already_canonical() {
    let id = resolve_import(Some("/a/b/c.js"), "../x/./y.js").unwrap();
    assert_eq!(id, "/a/x/y.js");
    assert_eq!(resolve_import(None, &id).unwrap(), id);
}

#[test]
fn non_ascii_names_are_kept() {
    assert_eq!(resolve_import(Some("/día/a.js"), "./ñ/é.js").unwrap(), "/día/ñ/é.js");
}

#[test]
fn empty_specifier_is_refused() {
    let e = resolve_import(Some("/app/main.js"), "").unwrap_err();
    assert_eq!(e.specifier, "");
    assert_eq!(e.referrer, Some(s("/app/main.js")));
}

#[test]
fn climbing_above_the_root_is_refused() {
    let e = resolve_import(Some("/app/main.js"), "../../x.js").unwrap_err();
    assert_eq!(e.specifier, "../../x.js");
    assert_eq!(e.referrer, Some(s("/app/main.js")));
    assert!(resolve_import(None, "../x.js").is_err());
    assert!(resolve_import(None, "/../x.js").is_err());
    assert!(resolve_import(Some("/a.js"), "b/../../c.js").is_err());
}

#[test]
fn specifier_that_names_the_root_is_refused() {
    let e = resolve_import(None, "/").unwrap_err();
    assert_eq!(e.specifier, "/");
    assert_eq!(e.referrer, None);
    assert!(resolve_import(None, ".").is_err());
    assert!(resolve_import(Some("/a.js"), "./").is_err());
    assert!(resolve_import(Some("/a/b.js"), "..").is_err());
}

#[test]
fn referrer_that_climbs_above_the_root_fails_relative_imports() {
    assert!(resolve_import(Some("../x/main.js"), "./a.js").is_err());
}

#[test]
fn inline_entry_keeps_its_name() {
    let rt: JsRuntime<u8, u8, u8, u8, u8> = JsRuntime::new(0, Vec::new());
    assert_eq!(rt.module_entry("dune:environment/main", true).unwrap(), "dune:environment/main");
    assert_eq!(rt.module_entry("../x", true).unwrap(), "../x");
}

#[test]
fn entry_from_storage_is_resolved() {
    let rt: JsRuntime<u8, u8, u8, u8, u8> = JsRuntime::new(0, Vec::new());
    assert_eq!(rt.module_entry("./app/../main.js", false).unwrap(), "/main.js");
    let e = rt.module_entry("../main.js", false).unwrap_err();
    assert_eq!(e.kind, ErrorKind::Resolution);
    assert_eq!(e.exception.message, "../main.js");
    assert_eq!(e.exception.resource_name, "");
}

#[test]
fn link_hands_every_importer_the_same_record() {
    let (map, _) = load("/app/a.js");
    let from_b = map.linked("/app/b.js", "./lib/d.js");
    let from_c = map.linked("/app/c.js", "./lib/../lib/d.js");
    assert_eq!(from_b, Some(&3));
    assert_eq!(from_b, from_c);
    assert_eq!(map.linked("/app/lib/d.js", "../b.js"), Some(&2));
    assert_eq!(map.linked("/app/a.js", "./missing.js"), None);
    assert_eq!(map.linked("/app/a.js", "../../x.js"), None);
}

#[test]
fn imports_resolve_in_source_order() {
    let imports = resolve_imports("/app/main.js", &vec![s("./a.js"), s("../b.js"), s("/c.js")]).unwrap();
    let ids: Vec<&str> = imports.iter().map(|w| w.id.as_str()).collect();
    assert_eq!(ids, vec!["/app/a.js", "/b.js", "/c.js"]);
    let written: Vec<&str> = imports.iter().map(|w| w.specifier.as_str()).collect();
    assert_eq!(written, vec!["./a.js", "../b.js", "/c.js"]);
    assert!(imports.iter().all(|w| w.referrer == Some(s("/app/main.js"))));
    assert!(resolve_imports("/app/main.js", &Vec::new()).unwrap().is_empty());
}

#[test]
fn first_import_that_does_not_resolve_is_reported() {
    let e = resolve_imports("/app/main.js", &vec![s("./a.js"), s("../../b.js"), s("")]).unwrap_err();
    assert_eq!(e.specifier, "../../b.js");
    assert_eq!(e.referrer, Some(s("/app/main.js")));
}

fn run_graph(entry: &str) -> (ModuleMap<usize>, Vec<String>) {
    let mut map: ModuleMap<usize> = ModuleMap::new();
    let (mut run, mut action) = ModuleRun::start(self::entry(entry), &map);
    let mut order = Vec::new();
    loop {
        let event: ModuleEvent<usize, u8> = match action {
            ModuleAction::Compile(id) => {
                let specifiers = imports_of(&id).into_iter().map(s).collect();
                order.push(id);
                ModuleEvent::Compiled { record: order.len(), specifiers }
            }
            ModuleAction::Instantiate => ModuleEvent::Instantiated,
            ModuleAction::Evaluate => ModuleEvent::Evaluated { errored: None, value: Some(9) },
        };
        assert!(run.accepts(&event));
        match run.step(&mut map, event) {
            ModuleStep::Next(next) => action = next,
            ModuleStep::Done(r) => {
                assert_eq!(r.unwrap(), 9);
                return (map, order);
            }
        }
    }
}

#[test]
fn run_compiles_each_module_of_the_graph_once() {
    let (map, order) = run_graph("/app/a.js");
    assert_eq!(order, vec![s("/app/a.js"), s("/app/b.js"), s("/app/lib/d.js"), s("/app/c.js")]);
    assert_eq!(map.len(), 4);
    assert_eq!(map.linked("/app/b.js", "./lib/d.js"), map.linked("/app/c.js", "./lib/../lib/d.js"));
}

#[test]
fn run_of_mutual_imports_ends() {
    let (map, order) = run_graph("/app/lib/d.js");
    assert_eq!(order, vec![s("/app/lib/d.js"), s("/app/b.js")]);
    assert_eq!(map.linked("/app/b.js", "./lib/d.js"), Some(&1));
    assert_eq!(map.linked("/app/lib/d.js", "../b.js"), Some(&2));
}

#[test]
fn module_that_imports_itself_is_compiled_once() {
    let mut map: ModuleMap<u8> = ModuleMap::new();
    let (mut run, _) = ModuleRun::start(entry("/self.js"), &map);
    let next = run.step::<u8, u8>(&mut map, ModuleEvent::Compiled { record: 1, specifiers: vec![s("./self.js"), s("/self.js")] });
    assert!(matches!(next, ModuleStep::Next(ModuleAction::Instantiate)));
    assert_eq!(map.len(), 1);
}

#[test]
fn wanted_module_is_copied_whole() {
    let w = imported("/a/b.js", "/a/main.js");
    let d = w.duplicate();
    assert_eq!((d.id, d.specifier, d.referrer), (w.id.clone(), w.specifier.clone(), w.referrer.clone()));
    let e = w.missing();
    assert_eq!(e.specifier, "/a/b.js");
    assert_eq!(e.referrer, Some(s("/a/main.js")));
    assert_eq!(entry("/x.js").missing().referrer, None);
}

#[test]
fn missing_module_deep_in_the_graph_names_its_importer() {
    let mut map: ModuleMap<u8> = ModuleMap::new();
    let (mut run, _) = ModuleRun::start(entry("/app/a.js"), &map);
    let next = run.step::<u8, u8>(&mut map, ModuleEvent::Compiled { record: 1, specifiers: vec![s("./b.js")] });
    assert!(matches!(next, ModuleStep::Next(ModuleAction::Compile(ref id)) if id == "/app/b.js"));
    let next = run.step::<u8, u8>(&mut map, ModuleEvent::Compiled { record: 2, specifiers: vec![s("./lib/../gone.js")] });
    assert!(matches!(next, ModuleStep::Next(ModuleAction::Compile(ref id)) if id == "/app/gone.js"));
    match run.step::<u8, u8>(&mut map, ModuleEvent::Missing) {
        ModuleStep::Done(Err(e)) => {
            assert_eq!(e.kind, ErrorKind::Resolution);
            assert_eq!(e.exception.message, "./lib/../gone.js");
            assert_eq!(e.exception.resource_name, "/app/b.js");
        }
        _ => panic!("the run should have failed"),
    }
    assert_eq!(map.len(), 2);
}
