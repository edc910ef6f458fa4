//! Builds an installation from its configuration and the fixture definitions.
use crate::fixture::{arranged, models, Element, ElementKind, ElementModel, Fixture, FixtureModel};
use crate::installation::{fixture_models, Installation, InstallationModel};
use crate::light::{Color, Rgb, FULL};
use crate::names::NameMap;
use vstd::prelude::*;

verus! {

/// One fixture of an installation, as configured.
pub struct FixtureConfig {
    /// The kind of device, which names its definition.
    pub kind: String,
    /// The 1-based universe channel at which the fixture starts.
    pub channel: u8,
    /// The mode of the definition that the device is set to.
    pub mode: String,
    /// Where the fixture is drawn: two IEEE 754 single-precision bit patterns.
    pub pos: (u32, u32),
}

/// An installation, as configured: its fixtures by name.
pub struct InstallationConfig {
    pub fixtures: NameMap<FixtureConfig>,
}

/// One element of a mode: its kind, and the frame index of each role it has.
pub struct ElementConfig {
    pub kind: String,
    pub i: Option<u8>,
    pub r: Option<u8>,
    pub g: Option<u8>,
    pub b: Option<u8>,
    pub uv: Option<u8>,
}

/// One mode of a kind of device: how many channels it takes, and its elements.
pub struct ModeConfig {
    pub name: String,
    pub num_channels: usize,
    pub elements: NameMap<ElementConfig>,
}

/// The definition of a kind of device: its modes.
pub struct FixtureDefConfig {
    pub modes: Vec<ModeConfig>,
}

/// Why an installation cannot be built.
#[derive(Debug)]
pub enum InstallationError {
    /// No definition was given for this kind of device.
    MissingFixtureDef(String),
}

/// Where the definition of a kind of device is kept.
pub open spec fn definition_path(kind: Seq<char>) -> Seq<char> {
    "fixtures/"@ + kind + ".toml"@
}

/// Where the definition of a kind of device is kept.
pub fn fixture_def_path(kind: &str) -> (path: String)
    ensures
        path@ == definition_path(kind@),
{
    String::from_str("fixtures/").concat(kind).concat(".toml")
}

/// The kind, in its initial state, that a kind name of a definition stands
/// for. A name that stands for nothing gives `Unknown`.
pub open spec fn kind_named(name: Seq<char>) -> ElementKind {
    if name == "rgbiu"@ {
        ElementKind::Rgbiu { rgb: Color::of(Rgb::black()), uv: FULL }
    } else if name == "rgbi"@ {
        ElementKind::Rgbi(Color::of(Rgb::black()))
    } else if name == "u"@ {
        ElementKind::Uv(0)
    } else if name == "smoke"@ {
        ElementKind::Smoke
    } else if name == "gobo"@ {
        ElementKind::Gobo
    } else if name == "actuator"@ {
        ElementKind::Actuator
    } else {
        ElementKind::Unknown
    }
}

/// A channel map with `role` mapped to `index`, where one is given.
pub open spec fn with_role(
    roles: (Seq<Seq<char>>, Seq<u8>),
    role: Seq<char>,
    index: Option<u8>,
) -> (Seq<Seq<char>>, Seq<u8>) {
    match index {
        Some(c) => (roles.0.push(role), roles.1.push(c)),
        None => roles,
    }
}

/// The channel map of a configured element: its roles in the order intensity,
/// red, green, blue, UV.
pub open spec fn roles_of(config: &ElementConfig) -> (Seq<Seq<char>>, Seq<u8>) {
    let none = (Seq::<Seq<char>>::empty(), Seq::<u8>::empty());
    let i = with_role(none, "i"@, config.i);
    let r = with_role(i, "r"@, config.r);
    let g = with_role(r, "g"@, config.g);
    let b = with_role(g, "b"@, config.b);
    with_role(b, "uv"@, config.uv)
}

/// The element that a configuration describes.
pub open spec fn element_of(config: &ElementConfig) -> ElementModel {
    ElementModel {
        kind: kind_named(config.kind@),
        roles: roles_of(config).0,
        indices: roles_of(config).1,
        pos: (0usize, 0usize),
    }
}

/// The kind that a kind name stands for.
fn kind_from_name(name: &String) -> (kind: ElementKind)
    ensures
        kind == kind_named(name@),
{
    let black = Color::black();
    proof {
        Color::lemma_of_view(Rgb::black());
        Color::lemma_view_injective(black, Color::of(Rgb::black()));
    }
    if *name == String::from_str("rgbiu") {
        ElementKind::Rgbiu { rgb: black, uv: FULL }
    } else if *name == String::from_str("rgbi") {
        ElementKind::Rgbi(black)
    } else if *name == String::from_str("u") {
        ElementKind::Uv(0)
    } else if *name == String::from_str("smoke") {
        ElementKind::Smoke
    } else if *name == String::from_str("gobo") {
        ElementKind::Gobo
    } else if *name == String::from_str("actuator") {
        ElementKind::Actuator
    } else {
        ElementKind::Unknown
    }
}

/// Maps `role` to `index` in the channel map of `element`, where an index is
/// given.
fn add_role(element: &mut Element, role: &str, index: Option<u8>)
    requires
        !old(element)@.roles.contains(role@),
        old(element)@.roles.len() == old(element)@.indices.len(),
    ensures
        final(element)@.kind == old(element)@.kind,
        final(element)@.pos == old(element)@.pos,
        (final(element)@.roles, final(element)@.indices) == with_role(
            (old(element)@.roles, old(element)@.indices),
            role@,
            index,
        ),
        final(element)@.roles.len() == final(element)@.indices.len(),
{
    match index {
        Some(channel) => {
            element.add_channel(role, channel);
        },
        None => {},
    }
}

/// The five role names are five different names.
proof fn lemma_roles_differ()
    ensures
        "i"@ != "r"@,
        "i"@ != "g"@,
        "i"@ != "b"@,
        "i"@ != "uv"@,
        "r"@ != "g"@,
        "r"@ != "b"@,
        "r"@ != "uv"@,
        "g"@ != "b"@,
        "g"@ != "uv"@,
        "b"@ != "uv"@,
{
    reveal_strlit("i");
    reveal_strlit("r");
    reveal_strlit("g");
    reveal_strlit("b");
    reveal_strlit("uv");
    assert("i"@[0] == 'i' && "r"@[0] == 'r' && "g"@[0] == 'g' && "b"@[0] == 'b' && "uv"@[0]
        == 'u');
}

/// Builds the element that a configuration describes.
pub fn build_element(config: &ElementConfig) -> (element: Element)
    ensures
        element@ == element_of(config),
{
    let mut element = Element::new(kind_from_name(&config.kind));
    proof {
        lemma_roles_differ();
    }
    add_role(&mut element, "i", config.i);
    assert(!element@.roles.contains("r"@)) by {
        if element@.roles.contains("r"@) {
            let k = element@.roles.index_of("r"@);
            assert(element@.roles[k] == "r"@);
        }
    }
    add_role(&mut element, "r", config.r);
    assert(!element@.roles.contains("g"@)) by {
        if element@.roles.contains("g"@) {
            let k = element@.roles.index_of("g"@);
            assert(element@.roles[k] == "g"@);
        }
    }
    add_role(&mut element, "g", config.g);
    assert(!element@.roles.contains("b"@)) by {
        if element@.roles.contains("b"@) {
            let k = element@.roles.index_of("b"@);
            assert(element@.roles[k] == "b"@);
        }
    }
    add_role(&mut element, "b", config.b);
    assert(!element@.roles.contains("uv"@)) by {
        if element@.roles.contains("uv"@) {
            let k = element@.roles.index_of("uv"@);
            assert(element@.roles[k] == "uv"@);
        }
    }
    add_role(&mut element, "uv", config.uv);
    element
}

/// The place of the first of the first `n` modes that is called `mode`.
pub open spec fn first_mode(modes: Seq<ModeConfig>, mode: Seq<char>, n: int) -> Option<int>
    decreases n,
{
    if n <= 0 {
        None
    } else {
        match first_mode(modes, mode, n - 1) {
            Some(i) => Some(i),
            None => if modes[n - 1].name@ == mode {
                Some(n - 1)
            } else {
                None
            },
        }
    }
}

/// What is found among the first `n` modes is found among more of them.
pub proof fn lemma_first_mode_stays(modes: Seq<ModeConfig>, mode: Seq<char>, n: int, m: int)
    requires
        0 <= n <= m <= modes.len(),
        first_mode(modes, mode, n) is Some,
    ensures
        first_mode(modes, mode, m) == first_mode(modes, mode, n),
        0 <= first_mode(modes, mode, n).unwrap() < n,
    decreases m,
{
    if n < m {
        lemma_first_mode_stays(modes, mode, n, m - 1);
    } else if n > 0 {
        if first_mode(modes, mode, n - 1) is Some {
            lemma_first_mode_stays(modes, mode, n - 1, n - 1);
        }
    }
}

/// The elements that the configurations of a mode describe, each under its
/// name.
pub open spec fn elements_of(configs: Seq<ElementConfig>) -> Seq<ElementModel> {
    Seq::new(configs.len(), |i: int| element_of(&configs[i]))
}

/// The fixture that is built from its configuration and the definition of its
/// kind: the elements of the first mode of that name, put into a row by name,
/// and a dark frame as long as the mode says. A mode that the definition
/// lacks gives a fixture without elements and without channels.
pub open spec fn fixture_of(config: &FixtureConfig, def: &FixtureDefConfig) -> FixtureModel {
    match first_mode(def.modes@, config.mode@, def.modes@.len() as int) {
        Some(m) => FixtureModel {
            names: def.modes@[m].elements.names(),
            elements: arranged(
                def.modes@[m].elements.names(),
                elements_of(def.modes@[m].elements.values()),
            ),
            pos: config.pos,
            frame: Seq::new(def.modes@[m].num_channels as nat, |i: int| 0u8),
            channel: config.channel as usize,
        },
        None => FixtureModel {
            names: Seq::empty(),
            elements: Seq::empty(),
            pos: config.pos,
            frame: Seq::empty(),
            channel: config.channel as usize,
        },
    }
}

/// The elements and the number of channels of the mode `mode` of a definition.
fn load_elements(def: &FixtureDefConfig, mode: &str) -> (loaded: (NameMap<Element>, usize))
    ensures
        match first_mode(def.modes@, mode@, def.modes@.len() as int) {
            Some(m) => {
                &&& loaded.0.names() == def.modes@[m].elements.names()
                &&& models(loaded.0.values()) == elements_of(def.modes@[m].elements.values())
                &&& loaded.1 == def.modes@[m].num_channels
            },
            None => {
                &&& loaded.0.names() == Seq::<Seq<char>>::empty()
                &&& loaded.0.values() == Seq::<Element>::empty()
                &&& loaded.1 == 0
            },
        },
{
    let wanted = mode.to_owned();
    let mut m: usize = 0;
    while m < def.modes.len()
        invariant
            m <= def.modes.len(),
            wanted@ == mode@,
            first_mode(def.modes@, mode@, m as int) is None,
        decreases def.modes.len() - m,
    {
        if def.modes[m].name == wanted {
            proof {
                lemma_first_mode_stays(def.modes@, mode@, m + 1, def.modes@.len() as int);
            }
            let configs = &def.modes[m].elements;
            let n = configs.len();
            let mut elements: NameMap<Element> = NameMap::new();
            let mut i: usize = 0;
            assert(models(elements.values()) =~= elements_of(configs.values()).take(0));
            assert(elements.names() =~= configs.names().take(0));
            while i < n
                invariant
                    i <= n,
                    n == configs.names().len(),
                    n == configs.values().len(),
                    configs.is_map(),
                    elements.names() == configs.names().take(i as int),
                    models(elements.values()) == elements_of(configs.values()).take(i as int),
                decreases n - i,
            {
                let ghost before = elements;
                let name = configs.name(i).clone();
                let element = build_element(configs.value(i));
                assert(!before.names().contains(name@)) by {
                    if before.names().contains(name@) {
                        let k = before.names().index_of(name@);
                        assert(before.names()[k] == name@);
                        assert(configs.names()[k] == name@);
                    }
                }
                elements.insert(name, element);
                assert(elements.names() =~= configs.names().take(i + 1));
                assert(models(elements.values()) =~= elements_of(configs.values()).take(i + 1));
                i += 1;
            }
            assert(configs.names().take(n as int) =~= configs.names());
            assert(elements_of(configs.values()).take(n as int) =~= elements_of(configs.values()));
            return (elements, def.modes[m].num_channels);
        }
        m += 1;
    }
    (NameMap::new(), 0)
}

/// The fixtures that are built from the first `n` configured fixtures.
pub open spec fn fixtures_of(
    config: &InstallationConfig,
    defs: &NameMap<FixtureDefConfig>,
    n: int,
) -> Seq<FixtureModel> {
    Seq::new(
        n as nat,
        |i: int|
            fixture_of(
                &config.fixtures.values()[i],
                &defs.value_of(config.fixtures.values()[i].kind@).unwrap(),
            ),
    )
}

/// The place of the first of the first `n` configured fixtures whose kind
/// has no definition.
pub open spec fn first_undefined(
    config: &InstallationConfig,
    defs: &NameMap<FixtureDefConfig>,
    n: int,
) -> Option<int>
    decreases n,
{
    if n <= 0 {
        None
    } else {
        match first_undefined(config, defs, n - 1) {
            Some(i) => Some(i),
            None => if defs.contains(config.fixtures.values()[n - 1].kind@) {
                None
            } else {
                Some(n - 1)
            },
        }
    }
}

/// What is found among the first `n` fixtures is found among more of them.
pub proof fn lemma_first_undefined_stays(
    config: &InstallationConfig,
    defs: &NameMap<FixtureDefConfig>,
    n: int,
    m: int,
)
    requires
        0 <= n <= m,
        first_undefined(config, defs, n) is Some,
    ensures
        first_undefined(config, defs, m) == first_undefined(config, defs, n),
    decreases m,
{
    if n < m {
        lemma_first_undefined_stays(config, defs, n, m - 1);
    }
}

/// Builds the installation that `config` describes. `defs` holds the
/// definition of each kind of device under the name of the kind. It fails at
/// the first fixture whose kind has no definition.
pub fn build_from_config(config: &InstallationConfig, defs: &NameMap<FixtureDefConfig>) -> (built:
    Result<Installation, InstallationError>)
    ensures
        match built {
            Ok(installation) => {
                &&& first_undefined(config, defs, config.fixtures.values().len() as int) is None
                &&& installation@ == (InstallationModel {
                    names: config.fixtures.names(),
                    fixtures: fixtures_of(config, defs, config.fixtures.values().len() as int),
                })
            },
            Err(InstallationError::MissingFixtureDef(kind)) => {
                &&& first_undefined(config, defs, config.fixtures.values().len() as int) matches Some(
                    i,
                )
                &&& 0 <= i < config.fixtures.values().len()
                &&& kind@ == config.fixtures.values()[i].kind@
            },
        },
{
    let n = config.fixtures.len();
    let mut fixtures: NameMap<Fixture> = NameMap::new();
    let mut i: usize = 0;
    assert(fixture_models(fixtures.values()) =~= fixtures_of(config, defs, 0));
    assert(fixtures.names() =~= config.fixtures.names().take(0));
    while i < n
        invariant
            i <= n,
            n == config.fixtures.names().len(),
            n == config.fixtures.values().len(),
            config.fixtures.is_map(),
            first_undefined(config, defs, i as int) is None,
            fixtures.names() == config.fixtures.names().take(i as int),
            fixture_models(fixtures.values()) == fixtures_of(config, defs, i as int),
        decreases n - i,
    {
        let ghost before = fixtures;
        let name = config.fixtures.name(i).clone();
        let fixture_config = config.fixtures.value(i);
        let def = match defs.get(fixture_config.kind.as_str()) {
            Some(def) => def,
            None => {
                proof {
                    lemma_first_undefined_stays(config, defs, i + 1, n as int);
                }
                return Err(InstallationError::MissingFixtureDef(fixture_config.kind.clone()));
            },
        };
        let (elements, num_channels) = load_elements(def, fixture_config.mode.as_str());
        let fixture = Fixture::new(
            elements,
            fixture_config.pos,
            fixture_config.channel as usize,
            num_channels,
        );
        assert(fixture@ == fixture_of(fixture_config, def)) by {
            assert(arranged(Seq::<Seq<char>>::empty(), models(Seq::<Element>::empty()))
                =~= Seq::<ElementModel>::empty());
            assert(Seq::new(0nat, |i: int| 0u8) =~= Seq::<u8>::empty());
        }
        assert(!before.names().contains(name@)) by {
            if before.names().contains(name@) {
                let k = before.names().index_of(name@);
                assert(before.names()[k] == name@);
                assert(config.fixtures.names()[k] == name@);
            }
        }
        let ghost model = fixture@;
        fixtures.insert(name, fixture);
        assert(fixtures.names() =~= config.fixtures.names().take(i + 1));
        assert(defs.value_of(config.fixtures.values()[i as int].kind@) == Some(*def));
        assert(fixtures_of(config, defs, i + 1)[i as int] == model);
        assert(fixture_models(fixtures.values()) =~= fixture_models(before.values()).push(model));
        assert(fixture_models(fixtures.values()) =~= fixtures_of(config, defs, i + 1));
        i += 1;
    }
    assert(config.fixtures.names().take(n as int) =~= config.fixtures.names());
    Ok(Installation::new(fixtures))
}

impl Installation {
    /// Builds the installation that `config` describes, with the definition
    /// of each kind of device taken from `defs`.
    pub fn new_from_config(config: &InstallationConfig, defs: &NameMap<FixtureDefConfig>) -> (built:
        Result<Installation, InstallationError>)
        ensures
            match built {
                Ok(installation) => {
                    &&& first_undefined(config, defs, config.fixtures.values().len() as int) is None
                    &&& installation@ == (InstallationModel {
                        names: config.fixtures.names(),
                        fixtures: fixtures_of(config, defs, config.fixtures.values().len() as int),
                    })
                },
                Err(InstallationError::MissingFixtureDef(kind)) => {
                    &&& first_undefined(
                        config,
                        defs,
                        config.fixtures.values().len() as int,
                    ) matches Some(i)
                    &&& 0 <= i < config.fixtures.values().len()
                    &&& kind@ == config.fixtures.values()[i].kind@
                },
            },
    {
        build_from_config(config, defs)
    }
}

} // verus!
