use lightboard::cue::CueList;
use lightboard::effect::EffectPool;
use lightboard::fixture::ElementKind;
use lightboard::installation::Installation;
use lightboard::installation_loader::{
    build_element, fixture_def_path, ElementConfig, FixtureConfig, FixtureDefConfig,
    InstallationConfig, InstallationError, ModeConfig,
};
use lightboard::light::{Color, FULL};
use lightboard::names::NameMap;
use lightboard::show_loader::{
    build_cue_list_from_config, build_from_config, pattern_path, CueConfig, EffectConfig,
    GroupConfig, ShowConfig, ShowError,
};
use lightboard::value::Value;

const CONSTANT: &str = r#"
function setup()
    options.color = { default = 0 }
end
function update(dt)
    local values = {}
    for i = 1, element_count do
        values[i] = options.color.value
    end
    return values
end
"#;

fn map<V>(entries: Vec<(&str, V)>) -> NameMap<V> {
    let mut map = NameMap::new();
    for (name, value) in entries {
        map.insert(name.to_owned(), value);
    }
    map
}

fn text(text: &str) -> Value {
    Value::String(text.to_owned())
}

fn element_config(kind: &str, channels: [Option<u8>; 5]) -> ElementConfig {
    ElementConfig {
        kind: kind.to_owned(),
        i: channels[0],
        r: channels[1],
        g: channels[2],
        b: channels[3],
        uv: channels[4],
    }
}

fn par() -> FixtureDefConfig {
    FixtureDefConfig {
        modes: vec![
            ModeConfig {
                name: "3ch".to_owned(),
                num_channels: 3,
                elements: map(vec![(
                    "led",
                    element_config("rgbi", [None, Some(1), Some(2), Some(3), None]),
                )]),
            },
            ModeConfig {
                name: "9ch".to_owned(),
                num_channels: 9,
                elements: map(vec![
                    ("right", element_config("rgbi", [Some(5), Some(6), Some(7), Some(8), None])),
                    (
                        "left",
                        element_config("rgbiu", [Some(1), Some(2), Some(3), Some(4), Some(9)]),
                    ),
                ]),
            },
            ModeConfig { name: "3ch".to_owned(), num_channels: 99, elements: NameMap::new() },
        ],
    }
}

fn fixture_config(kind: &str, channel: u8, mode: &str) -> FixtureConfig {
    FixtureConfig {
        kind: kind.to_owned(),
        channel,
        mode: mode.to_owned(),
        pos: (1.0f32.to_bits(), 2.5f32.to_bits()),
    }
}

fn show(effects: Vec<EffectConfig>, cues: Vec<CueConfig>) -> ShowConfig {
    ShowConfig {
        installation: None,
        effects,
        groups: map(vec![
            (
                "front",
                GroupConfig { elements: vec!["par1:led".to_owned(), "par2:left:extra".to_owned()] },
            ),
            ("empty", GroupConfig { elements: vec![] }),
        ]),
        pool: map(vec![("A1", "wash".to_owned()), ("B1", "chase".to_owned())]),
        cues,
    }
}

fn sources() -> NameMap<String> {
    map(vec![("constant.lua", CONSTANT.to_owned())])
}

fn installation() -> Installation {
    let config = InstallationConfig {
        fixtures: map(vec![
            ("par1", fixture_config("par", 1, "3ch")),
            ("par2", fixture_config("par", 4, "9ch")),
        ]),
    };
    Installation::new_from_config(&config, &map(vec![("par", par())])).unwrap()
}

#[test]
fn paths_follow_the_layout_of_a_show() {
    assert_eq!("fixtures/par64.toml", fixture_def_path("par64"));
    assert_eq!("fixtures/.toml", fixture_def_path(""));
    assert_eq!("patterns/chase.lua", pattern_path("chase.lua"));
}

#[test]
fn kind_names_stand_for_kinds_in_their_initial_state() {
    let kind = |name: &str| *build_element(&element_config(name, [None; 5])).kind();
    assert_eq!(ElementKind::Rgbiu { rgb: Color::black(), uv: FULL }, kind("rgbiu"));
    assert_eq!(ElementKind::Rgbi(Color::black()), kind("rgbi"));
    assert_eq!(ElementKind::Uv(0), kind("u"));
    assert_eq!(ElementKind::Smoke, kind("smoke"));
    assert_eq!(ElementKind::Gobo, kind("gobo"));
    assert_eq!(ElementKind::Actuator, kind("actuator"));
    assert_eq!(ElementKind::Unknown, kind("intensity"));
    assert_eq!(ElementKind::Unknown, kind("RGBI"));
    assert_eq!(ElementKind::Unknown, kind(""));
}

#[test]
fn element_gets_the_channels_that_are_configured() {
    let element = build_element(&element_config("rgbi", [Some(4), None, Some(2), None, Some(9)]));
    assert_eq!(Some(4), element.channel("i"));
    assert_eq!(None, element.channel("r"));
    assert_eq!(Some(2), element.channel("g"));
    assert_eq!(None, element.channel("b"));
    assert_eq!(Some(9), element.channel("uv"));
    assert_eq!((0, 0), element.pos());
}

#[test]
fn installation_is_built_from_the_first_mode_of_the_name() {
    let mut installation = installation();
    assert!(installation.is_wf());
    assert_eq!(2, installation.fixtures().len());
    let par1 = installation.fixtures().get("par1").unwrap();
    assert_eq!(1, par1.channel());
    assert_eq!((1.0f32.to_bits(), 2.5f32.to_bits()), par1.pos());
    assert_eq!(&vec![0u8; 3], par1.dmx());
    assert_eq!(1, par1.elements().len());
    let par2 = installation.fixtures().get("par2").unwrap();
    assert_eq!(4, par2.channel());
    assert_eq!(&vec![0u8; 9], par2.dmx());
    assert_eq!(Some((1, 0)), par2.elements().get("right").map(|e| e.pos()));
    assert_eq!(Some((0, 0)), par2.elements().get("left").map(|e| e.pos()));
    assert_eq!(
        Some(&ElementKind::Rgbiu { rgb: Color::black(), uv: FULL }),
        par2.elements().get("left").map(|e| e.kind())
    );
    assert_eq!(vec![0, 0, 0, 255, 0, 0, 0, 255, 0, 0, 0, 255], installation.build_dmx_chain());
}

#[test]
fn mode_that_the_definition_lacks_gives_a_fixture_without_elements() {
    let config = InstallationConfig { fixtures: map(vec![("par1", fixture_config("par", 7, "1ch"))]) };
    let mut installation = Installation::new_from_config(&config, &map(vec![("par", par())])).unwrap();
    let par1 = installation.fixtures().get("par1").unwrap();
    assert_eq!(0, par1.elements().len());
    assert!(par1.dmx().is_empty());
    assert_eq!(vec![0u8; 6], installation.build_dmx_chain());
}

#[test]
fn fixture_without_a_definition_is_an_error() {
    let config = InstallationConfig {
        fixtures: map(vec![
            ("par1", fixture_config("par", 1, "3ch")),
            ("spot", fixture_config("moving-head", 4, "3ch")),
            ("strobe", fixture_config("strobe", 9, "3ch")),
        ]),
    };
    match Installation::new_from_config(&config, &map(vec![("par", par())])) {
        Err(InstallationError::MissingFixtureDef(kind)) => assert_eq!("moving-head", kind),
        Ok(_) => panic!("built"),
    }
}

#[test]
fn show_without_effects_has_groups_keys_and_the_default_installation() {
    let mut pool = build_from_config(&show(vec![], vec![]), &NameMap::new()).unwrap();
    assert_eq!("installation.toml", pool.installation());
    assert_eq!(0, pool.effects_mut().len());
    assert_eq!(2, pool.groups().len());
    let front = pool.groups().get("front").unwrap();
    assert_eq!(2, front.len());
    assert_eq!(("par1", "led"), (front[0].fixture.as_str(), front[0].element.as_str()));
    assert_eq!(("par2", "left"), (front[1].fixture.as_str(), front[1].element.as_str()));
    assert!(pool.groups().get("empty").unwrap().is_empty());
    let mut named = show(vec![], vec![]);
    named.installation = Some("stage.toml".to_owned());
    assert_eq!("stage.toml", EffectPool::new_from_config(&named, &NameMap::new()).unwrap().installation());
}

#[test]
fn effects_are_built_switched_off_and_bound_to_their_keys() {
    let effects = vec![
        EffectConfig {
            name: "wash".to_owned(),
            elements: Some(vec![
                map(vec![("target", text("par1:led:color")), ("color", Value::Integer(0xff_00_00))]),
                map(vec![("target", text("par2:right:color:more")), ("color", Value::Integer(0x00_00_ff))]),
                map(vec![("color", Value::Integer(0x00_ff_00))]),
                map(vec![("target", Value::Integer(5)), ("color", Value::Integer(0x00_ff_00))]),
                map(vec![("target", text("par1:led:color"))]),
            ]),
            patterns: None,
        },
        EffectConfig {
            name: "chase".to_owned(),
            elements: None,
            patterns: Some(vec![
                map(vec![
                    ("target", text("@front:color")),
                    ("script", text("constant.lua")),
                    ("color", Value::Integer(0x00_08_00)),
                ]),
                map(vec![("target", text("@back:color")), ("script", text("constant.lua"))]),
                map(vec![("target", text("@front:color"))]),
                map(vec![("script", text("constant.lua"))]),
                map(vec![("target", text("@front:color")), ("script", Value::Boolean(true))]),
            ]),
        },
    ];
    let mut pool = build_from_config(&show(effects, vec![]), &sources()).unwrap();
    assert_eq!(vec!["constant.lua"], pool.script_names());
    assert_eq!(Some(("wash", 0)), pool.get_effect_by_key("A1").map(|e| (e.name(), e.strength())));
    assert_eq!(Some(("chase", 0)), pool.get_effect_by_key("B1").map(|e| (e.name(), e.strength())));
    assert_eq!(Some(true), pool.get_effect_by_key("A1").map(|e| e.is_static()));
    assert_eq!(Some(false), pool.get_effect_by_key("B1").map(|e| e.is_static()));
    let mut installation = installation();
    pool.apply_to(&mut installation);
    assert_eq!(vec![0, 0, 0, 255, 0, 0, 0, 255, 0, 0, 0, 0], installation.build_dmx_chain());
    pool.get_effect_by_key("A1").unwrap().toggle();
    pool.apply_to(&mut installation);
    assert_eq!(vec![255, 0, 0, 255, 0, 0, 0, 255, 0, 0, 255, 0], installation.build_dmx_chain());
    pool.get_effect_by_key("B1").unwrap().toggle();
    pool.apply_to(&mut installation);
    assert_eq!(vec![255, 8, 0, 255, 0, 8, 0, 255, 0, 0, 255, 0], installation.build_dmx_chain());
}

#[test]
fn target_with_too_few_fields_is_an_error() {
    let element = |target: &str| {
        show(
            vec![EffectConfig {
                name: "wash".to_owned(),
                elements: Some(vec![map(vec![("target", text(target)), ("color", Value::Integer(1))])]),
                patterns: None,
            }],
            vec![],
        )
    };
    for target in ["par1:led", "par1", ""] {
        match build_from_config(&element(target), &sources()) {
            Err(ShowError::BadTarget(found)) => assert_eq!(target, found),
            other => panic!("{:?}", other.map(|_| ())),
        }
    }
    assert!(build_from_config(&element("::"), &sources()).is_ok());
    let pattern = |target: &str| {
        show(
            vec![EffectConfig {
                name: "chase".to_owned(),
                elements: None,
                patterns: Some(vec![map(vec![("target", text(target)), ("script", text("constant.lua"))])]),
            }],
            vec![],
        )
    };
    for target in ["@front", ":color", ""] {
        match build_from_config(&pattern(target), &sources()) {
            Err(ShowError::BadTarget(found)) => assert_eq!(target, found),
            other => panic!("{:?}", other.map(|_| ())),
        }
    }
    assert!(build_from_config(&pattern("@:"), &sources()).is_ok());
}

#[test]
fn group_member_with_too_few_fields_is_an_error() {
    let mut config = show(vec![], vec![]);
    config.groups = map(vec![
        ("fine", GroupConfig { elements: vec!["par1:led".to_owned()] }),
        ("odd", GroupConfig { elements: vec!["par1:led".to_owned(), "par2".to_owned(), "".to_owned()] }),
    ]);
    match build_from_config(&config, &sources()) {
        Err(ShowError::BadTarget(found)) => assert_eq!("par2", found),
        other => panic!("{:?}", other.map(|_| ())),
    }
}

#[test]
fn script_without_text_is_an_error() {
    let config = show(
        vec![EffectConfig {
            name: "chase".to_owned(),
            elements: None,
            patterns: Some(vec![map(vec![("target", text("@front:color")), ("script", text("gone.lua"))])]),
        }],
        vec![],
    );
    match build_from_config(&config, &sources()) {
        Err(ShowError::MissingScript(found)) => assert_eq!("gone.lua", found),
        other => panic!("{:?}", other.map(|_| ())),
    }
}

#[test]
fn pattern_gets_the_size_of_its_group_and_the_other_entries_as_options() {
    let report = r#"
        function setup()
            options.color = { default = 1 }
            options.target = { default = 2 }
            options.script = { default = 3 }
        end
        function update(dt)
            return { element_count, options.color.value, options.target.value, options.script.value, #group_name }
        end
    "#;
    let config = show(
        vec![EffectConfig {
            name: "chase".to_owned(),
            elements: None,
            patterns: Some(vec![map(vec![
                ("color", Value::Integer(0x10)),
                ("target", text("@front:color")),
                ("script", text("report.lua")),
            ])]),
        }],
        vec![],
    );
    let mut pool = build_from_config(&config, &map(vec![("report.lua", report.to_owned())])).unwrap();
    let mut installation = installation();
    pool.get_effect_by_key("B1").unwrap().toggle();
    pool.apply_to(&mut installation);
    assert_eq!(
        Some(&ElementKind::Rgbi(Color::from(2))),
        installation.find_element("par1", "led").map(|e| e.kind())
    );
    assert_eq!(
        Some(&ElementKind::Rgbiu { rgb: Color::from(0x10), uv: 0 }),
        installation.find_element("par2", "left").map(|e| e.kind())
    );
}

#[test]
fn cues_are_named_by_their_number() {
    let config = show(
        vec![],
        vec![
            CueConfig { name: Some("Intro".to_owned()), command: "a1".to_owned() },
            CueConfig { name: None, command: "b1 1".to_owned() },
            CueConfig { name: Some("".to_owned()), command: "".to_owned() },
        ],
    );
    let cues = build_cue_list_from_config(&config);
    assert_eq!(3, cues.len());
    assert_eq!(("1 Intro", "a1"), (cues.cues()[0].name(), cues.cues()[0].command()));
    assert_eq!(("2", "b1 1"), (cues.cues()[1].name(), cues.cues()[1].command()));
    assert_eq!(("3 ", ""), (cues.cues()[2].name(), cues.cues()[2].command()));
    assert_eq!(Ok("b1 1".to_owned()), CueList::new_from_config(&config).cue_command(1));
    let many: Vec<CueConfig> =
        (0..12).map(|i| CueConfig { name: None, command: format!("a{}", i) }).collect();
    let long = build_cue_list_from_config(&show(vec![], many));
    assert_eq!("10", long.cues()[9].name());
    assert_eq!("12", long.cues()[11].name());
}
