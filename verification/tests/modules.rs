use quiz_arena::modules::{ModuleInfo, names, service_names, unknown_sections};

fn modules() -> Vec<ModuleInfo> {
    vec![
        ModuleInfo {
            name: "greet".to_owned(),
            service_names: vec!["quiz_arena.greet.v1.GreetService".to_owned()],
        },
        ModuleInfo {
            name: "registry".to_owned(),
            service_names: vec![
                "quiz_arena.registry.v1.QuizCatalogService".to_owned(),
                "quiz_arena.registry.v1.QuizAuthoringService".to_owned(),
            ],
        },
    ]
}

#[test]
fn module_names_are_listed_in_order() {
    assert_eq!(names(&modules()), vec!["greet", "registry"]);
}

#[test]
fn service_names_are_flattened_in_order() {
    assert_eq!(
        service_names(&modules()),
        vec![
            "quiz_arena.greet.v1.GreetService",
            "quiz_arena.registry.v1.QuizCatalogService",
            "quiz_arena.registry.v1.QuizAuthoringService",
        ]
    );
}

#[test]
fn unknown_sections_are_the_unclaimed_keys() {
    let keys = vec![
        "server".to_owned(),
        "greet".to_owned(),
        "gret".to_owned(),
        "telemetry".to_owned(),
        "extra".to_owned(),
    ];
    assert_eq!(unknown_sections(&keys, &modules()), vec!["gret", "extra"]);
}
