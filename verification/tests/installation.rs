use lightboard::fixture::{Element, ElementKind, Fixture};
use lightboard::installation::Installation;
use lightboard::light::{Color, FULL};
use lightboard::names::NameMap;

fn rgb(i: Option<u8>, r: u8, g: u8, b: u8, color: Color) -> Element {
    let mut element = Element::new(ElementKind::Rgbi(color));
    if let Some(i) = i {
        element.add_channel("i", i);
    }
    element.add_channel("r", r);
    element.add_channel("g", g);
    element.add_channel("b", b);
    element
}

fn fixture(entries: Vec<(&str, Element)>, channel: usize, num_channels: usize) -> Fixture {
    let mut elements = NameMap::new();
    for (name, element) in entries {
        elements.insert(name.to_owned(), element);
    }
    Fixture::new(elements, (0, 0), channel, num_channels)
}

fn installation(entries: Vec<(&str, Fixture)>) -> Installation {
    let mut fixtures = NameMap::new();
    for (name, fixture) in entries {
        fixtures.insert(name.to_owned(), fixture);
    }
    Installation::new(fixtures)
}

#[test]
fn universe_is_assembled_from_the_frames() {
    let red = Color::new(FULL as i64, 0, 0);
    let green = Color::new(0, FULL as i64, 0);
    let mut installation = installation(vec![
        ("F1", fixture(vec![("led", rgb(Some(1), 2, 3, 4, red))], 1, 4)),
        ("F2", fixture(vec![("led", rgb(None, 1, 2, 3, green))], 10, 3)),
    ]);
    assert!(installation.is_wf());
    let universe = installation.build_dmx_chain();
    assert_eq!(12, universe.len());
    assert_eq!([255, 255, 0, 0], universe[0..4]);
    assert_eq!([0, 0, 0, 0, 0], universe[4..9]);
    assert_eq!([0, 255, 0], universe[9..12]);
}

#[test]
fn universe_of_no_fixture_is_empty() {
    let mut installation = installation(vec![]);
    assert!(installation.is_wf());
    assert!(installation.build_dmx_chain().is_empty());
}

#[test]
fn universe_is_as_long_as_the_widest_fixture_asks_for() {
    let mut installation = installation(vec![
        ("far", fixture(vec![], 20, 2)),
        ("near", fixture(vec![], 1, 3)),
        ("empty", fixture(vec![], 30, 0)),
    ]);
    assert_eq!(vec![0u8; 29], installation.build_dmx_chain());
    let mut single = self::installation(vec![("one", fixture(vec![], 1, 0))]);
    assert!(single.build_dmx_chain().is_empty());
}

#[test]
fn of_two_fixtures_on_one_byte_the_later_one_wins() {
    let white = Color::from(0xff_ff_ff);
    let grey = Color::from(0x40_40_40);
    let mut installation = installation(vec![
        ("first", fixture(vec![("led", rgb(None, 1, 2, 3, white))], 1, 3)),
        ("second", fixture(vec![("led", rgb(None, 1, 2, 3, grey))], 3, 3)),
    ]);
    assert_eq!(vec![255, 255, 0x40, 0x40, 0x40], installation.build_dmx_chain());
    let mut swapped = self::installation(vec![
        ("second", fixture(vec![("led", rgb(None, 1, 2, 3, grey))], 3, 3)),
        ("first", fixture(vec![("led", rgb(None, 1, 2, 3, white))], 1, 3)),
    ]);
    assert_eq!(vec![255, 255, 255, 0x40, 0x40], swapped.build_dmx_chain());
}

#[test]
fn universe_is_built_anew_on_each_call() {
    let mut installation = installation(vec![(
        "F1",
        fixture(vec![("led", rgb(None, 1, 2, 3, Color::from(0x01_02_03)))], 2, 3),
    )]);
    assert_eq!(vec![0, 1, 2, 3], installation.build_dmx_chain());
    installation.find_element("F1", "led").unwrap().set_kind(ElementKind::Rgbi(Color::from(0x0a0b0c)));
    assert_eq!(vec![0, 10, 11, 12], installation.build_dmx_chain());
    assert_eq!(Some(&vec![10, 11, 12]), installation.fixtures().get("F1").map(|f| f.dmx()));
}

#[test]
fn find_element_finds_by_both_names() {
    let mut installation = installation(vec![
        ("F1", fixture(vec![("a", Element::new(ElementKind::Smoke)), ("b", Element::new(ElementKind::Gobo))], 1, 0)),
        ("F2", fixture(vec![("a", Element::new(ElementKind::Actuator))], 1, 0)),
    ]);
    assert_eq!(Some(&ElementKind::Smoke), installation.find_element("F1", "a").map(|e| e.kind()));
    assert_eq!(Some(&ElementKind::Gobo), installation.find_element("F1", "b").map(|e| e.kind()));
    assert_eq!(Some(&ElementKind::Actuator), installation.find_element("F2", "a").map(|e| e.kind()));
    assert!(installation.find_element("F2", "b").is_none());
    assert!(installation.find_element("F3", "a").is_none());
    assert!(installation.find_element("a", "F1").is_none());
    installation.find_element("F2", "a").unwrap().set_kind(ElementKind::Uv(5));
    assert_eq!(Some(&ElementKind::Uv(5)), installation.find_element("F2", "a").map(|e| e.kind()));
    assert_eq!(Some(&ElementKind::Smoke), installation.find_element("F1", "a").map(|e| e.kind()));
}

#[test]
fn zero_resets_every_element_to_the_neutral_state_of_its_variant() {
    let red = Color::new(FULL as i64, 0, 0);
    let mut installation = installation(vec![
        (
            "F1",
            fixture(
                vec![
                    ("dimmer", Element::new(ElementKind::Intensity(40_000))),
                    ("led", Element::new(ElementKind::Rgbi(red))),
                    ("wash", Element::new(ElementKind::Rgbiu { rgb: red, uv: FULL })),
                ],
                1,
                0,
            ),
        ),
        (
            "F2",
            fixture(
                vec![
                    ("tube", Element::new(ElementKind::Uv(7))),
                    ("fog", Element::new(ElementKind::Smoke)),
                    ("arm", Element::new(ElementKind::Actuator)),
                    ("gobo", Element::new(ElementKind::Gobo)),
                    ("odd", Element::new(ElementKind::Unknown)),
                ],
                1,
                0,
            ),
        ),
    ]);
    installation.zero();
    let kind = |installation: &mut Installation, fixture: &str, element: &str| {
        *installation.find_element(fixture, element).unwrap().kind()
    };
    assert_eq!(ElementKind::Intensity(0), kind(&mut installation, "F1", "dimmer"));
    assert_eq!(ElementKind::Rgbi(Color::black()), kind(&mut installation, "F1", "led"));
    assert_eq!(
        ElementKind::Rgbiu { rgb: Color::black(), uv: 0 },
        kind(&mut installation, "F1", "wash")
    );
    assert_eq!(ElementKind::Uv(0), kind(&mut installation, "F2", "tube"));
    assert_eq!(ElementKind::Smoke, kind(&mut installation, "F2", "fog"));
    assert_eq!(ElementKind::Actuator, kind(&mut installation, "F2", "arm"));
    assert_eq!(ElementKind::Gobo, kind(&mut installation, "F2", "gobo"));
    assert_eq!(ElementKind::Unknown, kind(&mut installation, "F2", "odd"));
}

#[test]
fn installation_is_well_formed_when_every_fixture_is() {
    let fine = installation(vec![("F1", fixture(vec![], 1, 4)), ("F2", fixture(vec![], 5, 4))]);
    assert!(fine.is_wf());
    let broken = installation(vec![("F1", fixture(vec![], 1, 4)), ("F2", fixture(vec![], 0, 4))]);
    assert!(!broken.is_wf());
}
