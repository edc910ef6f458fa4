use lightboard::cue::CueList;
use lightboard::effect::{Effect, EffectElement, EffectPool};
use lightboard::fixture::{Element, ElementKind, Fixture};
use lightboard::installation::Installation;
use lightboard::keys::KeyCode;
use lightboard::light::{Color, FULL};
use lightboard::mixer::{next_frame, DmxStatus, Mixer};
use lightboard::names::NameMap;
use lightboard::pattern::Pattern;
use lightboard::value::Value;

const CONSTANT: &str = r#"
function setup()
    options.color = { default = 0x20 }
end
function update(dt)
    local values = {}
    for i = 1, element_count do
        values[i] = options.color.value
    end
    return values
end
"#;

fn installation(channel: usize) -> Installation {
    let mut led = Element::new(ElementKind::Rgbi(Color::black()));
    led.add_channel("r", 1);
    led.add_channel("g", 2);
    led.add_channel("b", 3);
    let mut elements = NameMap::new();
    elements.insert("led".to_owned(), led);
    let mut fixtures = NameMap::new();
    fixtures.insert("par".to_owned(), Fixture::new(elements, (0, 0), channel, 3));
    Installation::new(fixtures)
}

fn pool(patterns: Vec<Pattern>) -> EffectPool {
    let red = EffectElement::new("par", "led", "color", &Value::Integer(0xff_00_00));
    let blue = EffectElement::new("par", "led", "color", &Value::Integer(0x00_00_80));
    let mut groups = NameMap::new();
    groups.insert(
        "all".to_owned(),
        vec![lightboard::effect::GroupElement { fixture: "par".to_owned(), element: "led".to_owned() }],
    );
    let mut pool = EffectPool::new(
        vec![
            Effect::new("red", 0, vec![red], vec![]),
            Effect::new("blue", 0, vec![blue], patterns),
        ],
        groups,
        "installation.toml".to_owned(),
    );
    pool.set_key("A1", "red");
    pool.set_key("B2", "blue");
    pool
}

fn cues() -> CueList {
    let mut cues = CueList::new();
    cues.add("1", "A1");
    cues.add("2", "1 b2");
    cues
}

fn mixer() -> Mixer {
    Mixer::new(installation(2), pool(vec![]), cues()).unwrap()
}

fn press(mixer: &mut Mixer, keys: &[KeyCode]) {
    for key in keys {
        mixer.key_down(*key);
    }
}

fn strength(mixer: &mut Mixer, key: &str) -> Option<u32> {
    mixer.effect_strength(key)
}

#[test]
fn new_mixer_has_nothing_typed_and_nothing_sent() {
    let mut mixer = mixer();
    assert_eq!(Some(0), strength(&mut mixer, "A1"));
    assert_eq!(None, strength(&mut mixer, "C3"));
    assert_eq!("", mixer.command_input_buffer());
    assert!(mixer.dmx_chain().is_empty());
    assert_eq!(DmxStatus::Unknown, mixer.dmx_status());
    assert_eq!(2, mixer.cue_list().len());
    assert_eq!(1, mixer.installation().fixtures().len());
    assert_eq!("installation.toml", mixer.effect_pool().installation());
}

#[test]
fn there_is_no_mixer_for_an_installation_that_is_not_well_formed() {
    assert!(Mixer::new(installation(0), pool(vec![]), cues()).is_none());
    assert!(Mixer::new(installation(1), pool(vec![]), cues()).is_some());
}

#[test]
fn keys_edit_the_command_line() {
    let mut mixer = mixer();
    press(&mut mixer, &[KeyCode::A, KeyCode::Key1, KeyCode::Space, KeyCode::Numpad2, KeyCode::X]);
    assert_eq!("a1 2x", mixer.command_input_buffer());
    press(&mut mixer, &[KeyCode::Back, KeyCode::Other]);
    assert_eq!("a1 2", mixer.command_input_buffer());
    press(&mut mixer, &[KeyCode::Escape, KeyCode::B]);
    assert_eq!("b", mixer.command_input_buffer());
}

#[test]
fn toggle_via_cue() {
    let mut mixer = mixer();
    assert_eq!(vec![0, 0, 0, 0], mixer.tick(None));
    press(&mut mixer, &[KeyCode::Key1, KeyCode::Return]);
    assert_eq!("", mixer.command_input_buffer());
    assert_eq!(Some(0), strength(&mut mixer, "A1"));
    assert_eq!(vec![0, 255, 0, 0], mixer.tick(None));
    assert_eq!(Some(FULL), strength(&mut mixer, "A1"));
    press(&mut mixer, &[KeyCode::Key1, KeyCode::NumpadEnter]);
    assert_eq!(vec![0, 0, 0, 0], mixer.tick(None));
    assert_eq!(Some(0), strength(&mut mixer, "A1"));
}

#[test]
fn commands_take_effect_in_the_frame_that_follows() {
    let mut mixer = mixer();
    press(&mut mixer, &[KeyCode::A, KeyCode::Key1, KeyCode::Return]);
    assert_eq!(vec![0, 255, 0, 0], mixer.tick(None));
    assert_eq!(vec![0, 255, 0, 0], mixer.tick(None));
    assert_eq!(&vec![0, 255, 0, 0], mixer.dmx_chain());
    press(&mut mixer, &[KeyCode::Key2, KeyCode::Return]);
    assert_eq!(vec![0, 0, 0, 0x80], mixer.tick(None));
    press(&mut mixer, &[KeyCode::A, KeyCode::Key1, KeyCode::B, KeyCode::Key2, KeyCode::Return]);
    press(&mut mixer, &[KeyCode::B, KeyCode::Key2, KeyCode::Return]);
    assert_eq!(vec![0, 255, 0, 0x80], mixer.tick(None));
}

#[test]
fn malformed_line_is_cleared_without_a_command() {
    let mut mixer = mixer();
    press(&mut mixer, &[KeyCode::A, KeyCode::Key1, KeyCode::Space, KeyCode::Return]);
    assert_eq!("", mixer.command_input_buffer());
    assert_eq!(vec![0, 0, 0, 0], mixer.tick(None));
    press(&mut mixer, &[KeyCode::Key9, KeyCode::Return, KeyCode::Return]);
    assert_eq!(vec![0, 0, 0, 0], mixer.tick(None));
}

#[test]
fn strength_can_be_set_by_key() {
    let mut mixer = mixer();
    mixer.set_strength("A1", 0x80 * 257);
    mixer.set_strength("Z9", FULL);
    assert_eq!(vec![0, 0x80, 0, 0], mixer.tick(None));
    mixer.set_strength("B2", FULL);
    assert_eq!(vec![0, 0x80, 0, 0x80], mixer.tick(None));
    press(&mut mixer, &[KeyCode::A, KeyCode::Key1, KeyCode::Return]);
    assert_eq!(vec![0, 0, 0, 0x80], mixer.tick(None));
}

#[test]
fn patterns_are_loaded_anew_on_request() {
    let pattern = Pattern::new("constant.lua", "all", "color", 1, NameMap::new(), CONSTANT);
    let mut mixer = Mixer::new(installation(1), pool(vec![pattern]), cues()).unwrap();
    mixer.set_strength("B2", FULL);
    assert_eq!(vec![0, 0, 0xa0], mixer.tick(None));
    let mut sources = NameMap::new();
    sources.insert("constant.lua".to_owned(), CONSTANT.replace("0x20", "0x3000"));
    assert_eq!(vec![0, 0x30, 0x80], mixer.tick(Some(&sources)));
    assert_eq!(vec![0, 0x30, 0x80], mixer.tick(None));
    sources.insert("constant.lua".to_owned(), "broken".to_owned());
    assert_eq!(vec![0, 0, 0x80], mixer.tick(Some(&sources)));
    assert_eq!(vec![0, 0, 0x80], mixer.tick(Some(&NameMap::new())));
}

#[test]
fn status_follows_the_last_send() {
    let mut mixer = mixer();
    mixer.record_send(true);
    assert_eq!(DmxStatus::Sent, mixer.dmx_status());
    mixer.record_send(false);
    assert_eq!(DmxStatus::Error, mixer.dmx_status());
    mixer.tick(None);
    assert_eq!(DmxStatus::Error, mixer.dmx_status());
    mixer.record_send(true);
    assert_eq!(DmxStatus::Sent, mixer.dmx_status());
}

#[test]
fn transmitter_sends_the_latest_frame_that_arrived() {
    assert_eq!(vec![1, 2], next_frame(vec![1, 2], vec![]));
    assert_eq!(vec![3], next_frame(vec![1, 2], vec![vec![3]]));
    assert_eq!(vec![5, 6], next_frame(vec![1, 2], vec![vec![3], vec![], vec![5, 6]]));
    assert!(next_frame(vec![], vec![]).is_empty());
    assert!(next_frame(vec![1], vec![vec![2], vec![]]).is_empty());
}
