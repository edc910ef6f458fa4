use lightboard::names::NameMap;
use lightboard::pattern::{frame_values, Pattern, PatternError};
use lightboard::value::Value;

const CONSTANT: &str = r#"
function setup()
    options.color = { default = 0, desc = "the colour of every element" }
end

function update(dt)
    local values = {}
    for i = 1, element_count do
        values[i] = options.color.value
    end
    return values
end
"#;

const COUNTER: &str = r#"
local frame = 0

function setup()
    options.step = { default = 1 }
    options.label = { default = "none" }
    options.flag = { default = false }
    options.gain = { default = 1.0 }
end

function update(dt)
    frame = frame + options.step.value
    local values = {}
    for i = 1, element_count do
        values[i] = frame * 10 + i
    end
    if options.flag.value then
        values[1] = #options.label.value + #group_name
    end
    if options.gain.value == 0.5 then
        values[2] = 50
    end
    return values
end
"#;

const INTERVAL: &str = r#"
function setup()
end

function update(dt)
    if dt == 0.03333333507180214 then
        return { 1 }
    end
    return { 0 }
end
"#;

fn options(entries: Vec<(&str, Value)>) -> NameMap<Value> {
    let mut map = NameMap::new();
    for (name, value) in entries {
        map.insert(name.to_owned(), value);
    }
    map
}

#[test]
fn test_pattern_creation() {
    let options = options(vec![("color", Value::Integer(0x123456))]);
    let mut p = Pattern::new("constant.lua", "group1", "color", 2, options, CONSTANT);
    assert_eq!([0x123456, 0x123456], p.update().as_slice());
}

#[test]
fn pattern_keeps_what_it_was_made_with() {
    let p = Pattern::new("constant.lua", "group1", "color", 2, NameMap::new(), CONSTANT);
    assert_eq!("group1", p.group());
    assert_eq!("constant.lua", p.script_name());
    assert!(p.is_loaded());
    assert!(p.fault().is_none());
}

#[test]
fn option_without_a_supplied_value_takes_the_default_of_the_script() {
    let mut p = Pattern::new("constant.lua", "group1", "color", 3, NameMap::new(), CONSTANT);
    assert_eq!(vec![0, 0, 0], p.update());
}

#[test]
fn supplied_options_that_the_script_does_not_declare_are_ignored() {
    let options = options(vec![("unknown", Value::Integer(5)), ("list", Value::Array)]);
    let mut p = Pattern::new("constant.lua", "g", "color", 1, options, CONSTANT);
    assert!(p.is_loaded());
    assert_eq!(vec![0], p.update());
}

#[test]
fn script_keeps_its_state_between_frames() {
    let mut p = Pattern::new("counter.lua", "g", "color", 2, NameMap::new(), COUNTER);
    assert_eq!(vec![11, 12], p.update());
    assert_eq!(vec![21, 22], p.update());
    assert_eq!(vec![31, 32], p.update());
}

#[test]
fn every_scalar_kind_of_option_reaches_the_script() {
    let options = options(vec![
        ("step", Value::Integer(3)),
        ("label", Value::String("abcd".to_owned())),
        ("flag", Value::Boolean(true)),
        ("gain", Value::Float(0.5f64.to_bits())),
    ]);
    let mut p = Pattern::new("counter.lua", "group", "color", 3, options, COUNTER);
    assert!(p.is_loaded());
    assert_eq!(vec![9, 50, 33], p.update());
}

#[test]
fn datetime_option_is_passed_as_text() {
    let options = options(vec![
        ("label", Value::Datetime("1979-05-27T07:32:00Z".to_owned())),
        ("flag", Value::Boolean(true)),
    ]);
    let mut p = Pattern::new("counter.lua", "", "color", 1, options, COUNTER);
    assert_eq!(vec![20], p.update());
}

#[test]
fn list_and_table_options_are_rejected() {
    for value in [Value::Array, Value::Table] {
        let options = options(vec![("color", value)]);
        let mut p = Pattern::new("constant.lua", "g", "color", 2, options, CONSTANT);
        assert!(!p.is_loaded());
        match p.fault() {
            Some(PatternError::UnsupportedOption(name)) => assert_eq!("color", name),
            other => panic!("{:?}", other),
        }
        assert!(p.update().is_empty());
    }
}

#[test]
fn script_that_does_not_compile_leaves_the_pattern_broken() {
    let mut p = Pattern::new("broken.lua", "g", "color", 2, NameMap::new(), "function (");
    assert!(!p.is_loaded());
    assert!(matches!(p.fault(), Some(PatternError::Script(_))));
    assert!(p.update().is_empty());
    assert!(matches!(p.try_update(), Ok(values) if values.is_empty()));
}

#[test]
fn script_without_setup_leaves_the_pattern_broken() {
    let source = "function update(dt) return { 1 } end";
    let mut p = Pattern::new("nosetup.lua", "g", "color", 1, NameMap::new(), source);
    assert!(!p.is_loaded());
    assert!(p.update().is_empty());
}

#[test]
fn option_that_is_no_table_leaves_the_pattern_broken() {
    let source = "function setup() options.color = 5 end function update(dt) return {} end";
    let p = Pattern::new("odd.lua", "g", "color", 1, NameMap::new(), source);
    assert!(!p.is_loaded());
    assert!(matches!(p.fault(), Some(PatternError::Script(_))));
}

#[test]
fn failing_update_yields_nothing_and_the_pattern_stays_loaded() {
    let source = r#"
        local calls = 0
        function setup() end
        function update(dt)
            calls = calls + 1
            if calls == 2 then error("second frame") end
            return { calls }
        end
    "#;
    let mut p = Pattern::new("flaky.lua", "g", "color", 1, NameMap::new(), source);
    assert_eq!(vec![1], p.update());
    assert!(p.update().is_empty());
    assert!(p.is_loaded());
    assert_eq!(vec![3], p.update());
    let mut q = Pattern::new("flaky.lua", "g", "color", 1, NameMap::new(), source);
    assert!(matches!(q.try_update(), Ok(values) if values == vec![1]));
    assert!(matches!(q.try_update(), Err(PatternError::Script(_))));
}

#[test]
fn update_that_returns_no_list_of_integers_yields_nothing() {
    for body in ["return 5", "return { 'a' }", "return nil", "return { 2147483648 }"] {
        let source = format!("function setup() end function update(dt) {} end", body);
        let mut p = Pattern::new("odd.lua", "g", "color", 1, NameMap::new(), &source);
        assert!(p.is_loaded());
        assert!(p.update().is_empty(), "{}", body);
    }
}

#[test]
fn update_values_are_taken_as_the_interpreter_converts_them() {
    let source = "function setup() end function update(dt) return { 1.5, '12', -7, 8, nil, 9 } end";
    let mut p = Pattern::new("mixed.lua", "g", "color", 1, NameMap::new(), source);
    assert_eq!(vec![1, 12, -7, 8], p.update());
}

#[test]
fn script_without_update_yields_nothing() {
    let mut p = Pattern::new("idle.lua", "g", "color", 1, NameMap::new(), "function setup() end");
    assert!(p.is_loaded());
    assert!(p.update().is_empty());
}

#[test]
fn update_is_told_the_frame_interval() {
    let mut p = Pattern::new("interval.lua", "g", "color", 1, NameMap::new(), INTERVAL);
    assert_eq!(vec![1], p.update());
    assert_eq!((1.0f32 / 30.0) as f64, f64::from_bits(lightboard::pattern::FRAME_INTERVAL));
}

#[test]
fn reload_replaces_the_script_and_keeps_the_options() {
    let options = options(vec![("color", Value::Integer(7))]);
    let mut p = Pattern::new("constant.lua", "g", "color", 2, options, CONSTANT);
    assert_eq!(vec![7, 7], p.update());
    let doubled = CONSTANT.replace("options.color.value", "options.color.value * 2");
    p.reload(&doubled);
    assert!(p.is_loaded());
    assert_eq!(vec![14, 14], p.update());
    p.reload("this is not lua");
    assert!(!p.is_loaded());
    assert!(p.fault().is_some());
    assert!(p.update().is_empty());
    p.reload(CONSTANT);
    assert!(p.is_loaded());
    assert!(p.fault().is_none());
    assert_eq!(vec![7, 7], p.update());
    assert_eq!("g", p.group());
}

#[test]
fn reload_starts_the_script_from_scratch() {
    let mut p = Pattern::new("counter.lua", "g", "color", 1, NameMap::new(), COUNTER);
    assert_eq!(vec![11], p.update());
    assert_eq!(vec![21], p.update());
    p.reload(COUNTER);
    assert_eq!(vec![11], p.update());
}

#[test]
fn each_pattern_has_an_interpreter_of_its_own() {
    let mut a = Pattern::new("counter.lua", "g", "color", 1, NameMap::new(), COUNTER);
    let mut b = Pattern::new("counter.lua", "g", "color", 1, NameMap::new(), COUNTER);
    assert_eq!(vec![11], a.update());
    assert_eq!(vec![21], a.update());
    assert_eq!(vec![11], b.update());
}

#[test]
fn frame_values_are_the_returned_values_or_nothing() {
    assert_eq!(vec![1, -2, 3], frame_values(Ok(vec![1, -2, 3])));
    assert!(frame_values(Ok(vec![])).is_empty());
    assert!(frame_values(Err(PatternError::Script("boom".to_owned()))).is_empty());
    assert!(frame_values(Err(PatternError::UnsupportedOption("x".to_owned()))).is_empty());
}
