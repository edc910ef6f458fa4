//! Patterns: scripted generators that drive the elements of a group.
//!
//! A pattern script is Lua source. It sees three globals, `group_name`,
//! `element_count` and `options`, and defines `setup()` and `update(dt)`;
//! `update` returns one integer per element of the group.
use crate::names::NameMap;
use crate::value::Value;
use vstd::prelude::*;

verus! {

/// The time between two frames that `update` is told, in seconds: the single
/// precision 1/30, as a double-precision bit pattern.
pub const FRAME_INTERVAL: u64 = 0x3fa1_1111_2000_0000;

/// A Lua interpreter with its state.
#[verifier::external_type_specification]
#[verifier::external_body]
pub struct ExLua(rlua::Lua);

/// What a Lua call reports when it fails.
#[verifier::external_type_specification]
#[verifier::external_body]
pub struct ExLuaError(rlua::Error);

/// Why a pattern has no running script, or no values for a frame.
#[derive(Debug)]
pub enum PatternError {
    /// The interpreter reported an error; this is its message.
    Script(String),
    /// The option of this name was given a list or a table.
    UnsupportedOption(String),
}

/// A `PatternError` as a mathematical value.
pub ghost enum PatternFault {
    Script(Seq<char>),
    UnsupportedOption(Seq<char>),
}

impl View for PatternError {
    type V = PatternFault;

    open spec fn view(&self) -> PatternFault {
        match self {
            PatternError::Script(message) => PatternFault::Script(message@),
            PatternError::UnsupportedOption(name) => PatternFault::UnsupportedOption(name@),
        }
    }
}

/// `rlua::Lua::new`: a fresh interpreter with the standard library, without
/// `debug`.
#[verifier::external_body]
fn lua_new() -> (lua: rlua::Lua) {
    rlua::Lua::new()
}

/// `rlua::Table::set` on the globals: binds the global `name` to a string.
/// Nothing is claimed of the outcome.
#[verifier::external_body]
fn set_global_text(lua: &rlua::Lua, name: &str, value: &str) -> (done: Result<(), rlua::Error>) {
    lua.context(|ctx| ctx.globals().set(name, value.to_owned()))
}

/// `rlua::Table::set` on the globals: binds the global `name` to a count.
/// Nothing is claimed of the outcome.
#[verifier::external_body]
fn set_global_count(lua: &rlua::Lua, name: &str, value: usize) -> (done: Result<(), rlua::Error>) {
    lua.context(|ctx| ctx.globals().set(name, value))
}

/// `rlua::Context::create_table`, then `rlua::Table::set` on the globals:
/// binds the global `name` to a new, empty table. Nothing is claimed of the
/// outcome.
#[verifier::external_body]
fn set_global_table(lua: &rlua::Lua, name: &str) -> (done: Result<(), rlua::Error>) {
    lua.context(|ctx| ctx.globals().set(name, ctx.create_table()?))
}

/// `rlua::Chunk::exec`: runs `source` as a chunk. It returns when the chunk
/// does; nothing is claimed of the outcome.
#[verifier::external_body]
fn run_chunk(lua: &rlua::Lua, source: &str) -> (done: Result<(), rlua::Error>) {
    lua.context(|ctx| ctx.load(source).exec())
}

/// `rlua::Function::call` on the global function `name`, without arguments
/// and without results. It returns when the function does; nothing is
/// claimed of the outcome.
#[verifier::external_body]
fn call_global(lua: &rlua::Lua, name: &str) -> (done: Result<(), rlua::Error>) {
    lua.context(|ctx| ctx.globals().get::<_, rlua::Function>(name)?.call::<(), ()>(()))
}

/// `rlua::Table::pairs` on the global table `table`: the keys of its
/// entries, each of which must be a string with a table as its value. The
/// order is the interpreter's; nothing is claimed of the outcome.
#[verifier::external_body]
fn table_names(lua: &rlua::Lua, table: &str) -> (names: Result<Vec<String>, rlua::Error>) {
    lua.context(|ctx| {
        let entries: rlua::Table = ctx.globals().get(table)?;
        entries.pairs::<String, rlua::Table>().map(|pair| pair.map(|(name, _)| name)).collect()
    })
}

/// `rlua::Table::set`: sets `field` of the entry `name` of the global table
/// `table` to a string.
/// Nothing is claimed of the outcome.
#[verifier::external_body]
fn set_option_text(
    lua: &rlua::Lua,
    table: &str,
    name: &str,
    field: &str,
    value: &str,
) -> (done: Result<(), rlua::Error>) {
    lua.context(|ctx| {
        let options: rlua::Table = ctx.globals().get(table)?;
        options.get::<_, rlua::Table>(name)?.set(field, value.to_owned())
    })
}

/// `rlua::Table::set`: sets `field` of the entry `name` of the global table
/// `table` to an integer. Nothing is claimed of the outcome.
#[verifier::external_body]
fn set_option_integer(
    lua: &rlua::Lua,
    table: &str,
    name: &str,
    field: &str,
    value: i64,
) -> (done: Result<(), rlua::Error>) {
    lua.context(|ctx| {
        let options: rlua::Table = ctx.globals().get(table)?;
        options.get::<_, rlua::Table>(name)?.set(field, value)
    })
}

/// `rlua::Table::set`: sets `field` of the entry `name` of the global table
/// `table` to the number with the given double-precision bit pattern.
/// Nothing is claimed of the outcome.
#[verifier::external_body]
fn set_option_number(
    lua: &rlua::Lua,
    table: &str,
    name: &str,
    field: &str,
    bits: u64,
) -> (done: Result<(), rlua::Error>) {
    lua.context(|ctx| {
        let options: rlua::Table = ctx.globals().get(table)?;
        options.get::<_, rlua::Table>(name)?.set(field, rlua::Number::from_bits(bits))
    })
}

/// `rlua::Table::set`: sets `field` of the entry `name` of the global table
/// `table` to a boolean.
/// Nothing is claimed of the outcome.
#[verifier::external_body]
fn set_option_flag(
    lua: &rlua::Lua,
    table: &str,
    name: &str,
    field: &str,
    value: bool,
) -> (done: Result<(), rlua::Error>) {
    lua.context(|ctx| {
        let options: rlua::Table = ctx.globals().get(table)?;
        options.get::<_, rlua::Table>(name)?.set(field, value)
    })
}

/// `rlua::Table::get`, then `rlua::Table::set`: copies the field `from` of
/// the entry `name` of the global table `table` to its field `to`. Nothing
/// is claimed of the outcome.
#[verifier::external_body]
fn copy_option_field(
    lua: &rlua::Lua,
    table: &str,
    name: &str,
    from: &str,
    to: &str,
) -> (done: Result<(), rlua::Error>) {
    lua.context(|ctx| {
        let options: rlua::Table = ctx.globals().get(table)?;
        let option: rlua::Table = options.get(name)?;
        option.set(to, option.get::<_, rlua::Value>(from)?)
    })
}

/// `rlua::Function::call` on the global function `name`, with the number of
/// the given bit pattern as its argument and a list of integers as its
/// result. What comes back depends on the script and on the state it has
/// built up, so nothing is claimed of it.
#[verifier::external_body]
fn call_for_values(lua: &rlua::Lua, name: &str, bits: u64) -> (values: Result<
    Vec<i32>,
    rlua::Error,
>) {
    lua.context(|ctx| {
        let function: rlua::Function = ctx.globals().get(name)?;
        function.call::<rlua::Number, Vec<i32>>(rlua::Number::from_bits(bits))
    })
}

/// The `Display` form of an `rlua::Error`.
#[verifier::external_body]
fn describe(error: &rlua::Error) -> (message: String) {
    format!("{}", error)
}

/// Turns the outcome of a Lua call into one of this library.
fn checked<T>(outcome: Result<T, rlua::Error>) -> (checked: Result<T, PatternError>)
    ensures
        match outcome {
            Ok(value) => checked == Ok::<T, PatternError>(value),
            Err(_) => checked matches Err(PatternError::Script(_)),
        },
{
    match outcome {
        Ok(value) => Ok(value),
        Err(error) => Err(PatternError::Script(describe(&error))),
    }
}

/// The values that a frame gets from the outcome of an update: what the
/// script returned, and nothing where it failed.
pub fn frame_values(outcome: Result<Vec<i32>, PatternError>) -> (values: Vec<i32>)
    ensures
        match outcome {
            Ok(returned) => values == returned,
            Err(_) => values@ == Seq::<i32>::empty(),
        },
{
    match outcome {
        Ok(returned) => returned,
        Err(_) => Vec::new(),
    }
}

/// Whether options with the given names and values let the option `name` of
/// a script be installed: they do unless they give it a list or a table.
pub open spec fn accepted(names: Seq<Seq<char>>, values: Seq<Value>, name: Seq<char>) -> bool {
    !(names.contains(name) && names.index_of(name) < values.len()
        && !values[names.index_of(name)].is_scalar())
}

/// Whether the caller's options let the option `name` of a script be
/// installed: they do unless they give it a list or a table.
pub open spec fn option_accepted(options: &NameMap<Value>, name: Seq<char>) -> bool {
    accepted(options.names(), options.values(), name)
}

/// The place of the first of the first `n` of `names` that the caller's
/// options do not let be installed.
pub open spec fn first_refused(names: Seq<String>, options: &NameMap<Value>, n: int) -> Option<int>
    decreases n,
{
    if n <= 0 {
        None
    } else {
        match first_refused(names, options, n - 1) {
            Some(k) => Some(k),
            None => if option_accepted(options, names[n - 1]@) {
                None
            } else {
                Some(n - 1)
            },
        }
    }
}

/// The first refused name is refused, and every name before it is accepted;
/// where there is none, every name is accepted.
pub proof fn lemma_first_refused(names: Seq<String>, options: &NameMap<Value>, n: int)
    requires
        0 <= n <= names.len(),
    ensures
        match first_refused(names, options, n) {
            Some(k) => 0 <= k < n && !option_accepted(options, names[k]@) && forall|j: int|
                0 <= j < k ==> option_accepted(options, (#[trigger] names[j])@),
            None => forall|j: int| 0 <= j < n ==> option_accepted(options, (#[trigger] names[j])@),
        },
    decreases n,
{
    if n > 0 {
        lemma_first_refused(names, options, n - 1);
    }
}

/// A name that is refused, with none refused before it, is the first
/// refused among any number of names that includes it.
pub proof fn lemma_first_refused_found(names: Seq<String>, options: &NameMap<Value>, k: int, n: int)
    requires
        0 <= k < n <= names.len(),
        !option_accepted(options, names[k]@),
        forall|j: int| 0 <= j < k ==> option_accepted(options, (#[trigger] names[j])@),
    ensures
        first_refused(names, options, n) == Some(k),
    decreases n,
{
    if n - 1 > k {
        lemma_first_refused_found(names, options, k, n - 1);
    } else {
        lemma_first_refused(names, options, k);
    }
}

/// Installs the options that a script declared, in the order of `names`: an
/// option that the caller supplied gets the caller's value as its `default`,
/// and every option then gets its `default` as its `value`. It stops at the
/// first option that cannot be installed.
///
/// With no option to install it succeeds. The interpreter may fail any
/// step; apart from that, it fails exactly where the caller supplied a list
/// or a table, at the first such option and with its name.
fn install_options(lua: &rlua::Lua, names: &Vec<String>, options: &NameMap<Value>) -> (done:
    Result<(), PatternError>)
    ensures
        names@.len() == 0 ==> done is Ok,
        done is Ok ==> first_refused(names@, options, names@.len() as int) is None,
        match done {
            Err(PatternError::UnsupportedOption(name)) => {
                &&& !option_accepted(options, name@)
                &&& first_refused(names@, options, names@.len() as int) matches Some(k)
                &&& name@ == names@[k]@
            },
            _ => true,
        },
        first_refused(names@, options, names@.len() as int) == Some(0int) ==> done matches Err(
            PatternError::UnsupportedOption(_),
        ),
{
    let mut i: usize = 0;
    while i < names.len()
        invariant
            i <= names.len(),
            forall|j: int| 0 <= j < i ==> option_accepted(options, (#[trigger] names@[j])@),
        decreases names.len() - i,
    {
        let name = &names[i];
        proof {
            lemma_first_refused(names@, options, names@.len() as int);
        }
        match options.get(name.as_str()) {
            Some(value) => {
                let set = match value {
                    Value::String(text) => set_option_text(
                        lua,
                        "options",
                        name.as_str(),
                        "default",
                        text.as_str(),
                    ),
                    Value::Integer(x) => set_option_integer(lua, "options", name.as_str(), "default", *x),
                    Value::Float(bits) => set_option_number(
                        lua,
                        "options",
                        name.as_str(),
                        "default",
                        *bits,
                    ),
                    Value::Boolean(flag) => set_option_flag(
                        lua,
                        "options",
                        name.as_str(),
                        "default",
                        *flag,
                    ),
                    Value::Datetime(text) => set_option_text(
                        lua,
                        "options",
                        name.as_str(),
                        "default",
                        text.as_str(),
                    ),
                    _ => {
                        proof {
                            lemma_first_refused_found(
                                names@,
                                options,
                                i as int,
                                names@.len() as int,
                            );
                        }
                        return Err(PatternError::UnsupportedOption(name.clone()));
                    },
                };
                assert(option_accepted(options, name@));
                checked(set)?;
            },
            None => {
                assert(option_accepted(options, name@));
            },
        }
        checked(copy_option_field(lua, "options", name.as_str(), "default", "value"))?;
        i += 1;
    }
    proof {
        lemma_first_refused(names@, options, names@.len() as int);
    }
    Ok(())
}

/// A pattern as a mathematical value.
pub ghost struct PatternModel {
    pub script_name: Seq<char>,
    pub group: Seq<char>,
    pub property: Seq<char>,
    pub element_count: usize,
    pub option_names: Seq<Seq<char>>,
    pub option_values: Seq<Value>,
    /// Whether a script is loaded and can be asked for values.
    pub loaded: bool,
    /// Why no script is loaded, where none is.
    pub fault: Option<PatternFault>,
}

impl PatternModel {
    /// What holds of a pattern however the loading of its script ended: a
    /// script is loaded exactly if no fault is kept, and a fault that names
    /// an option names one that the pattern's options give a list or a table.
    pub open spec fn settled(self) -> bool {
        &&& self.loaded <==> self.fault is None
        &&& match self.fault {
            Some(PatternFault::UnsupportedOption(name)) => !accepted(
                self.option_names,
                self.option_values,
                name,
            ),
            _ => true,
        }
    }

    /// This pattern after its script has been loaded anew, with the given
    /// fault or with none.
    pub open spec fn loaded_with(self, fault: Option<PatternFault>) -> PatternModel {
        PatternModel { loaded: fault is None, fault, ..self }
    }
}

/// A scripted generator bound to a group. It is broken, and yields nothing,
/// while its script has failed to load.
pub struct Pattern {
    lua: Option<rlua::Lua>,
    fault: Option<PatternError>,
    group: String,
    property: String,
    script_name: String,
    options: NameMap<Value>,
    element_count: usize,
}

impl View for Pattern {
    type V = PatternModel;

    closed spec fn view(&self) -> PatternModel {
        PatternModel {
            script_name: self.script_name@,
            group: self.group@,
            property: self.property@,
            element_count: self.element_count,
            option_names: self.options.names(),
            option_values: self.options.values(),
            loaded: self.lua is Some,
            fault: match self.fault {
                Some(error) => Some(error@),
                None => None,
            },
        }
    }
}

impl Pattern {
    /// Takes the outcome of loading a script: the interpreter where it
    /// loaded, and the reason where it did not.
    fn accept(&mut self, built: Result<rlua::Lua, PatternError>)
        ensures
            final(self)@ == old(self)@.loaded_with(
                match built {
                    Ok(_) => None,
                    Err(error) => Some(error@),
                },
            ),
    {
        match built {
            Ok(lua) => {
                self.lua = Some(lua);
                self.fault = None;
            },
            Err(error) => {
                self.lua = None;
                self.fault = Some(error);
            },
        }
    }

    /// Builds an interpreter for `script`: installs the globals, runs the
    /// script, calls `setup`, and installs the options.
    fn build_lua_env(script: &str, group: &str, element_count: usize, options: &NameMap<Value>) -> (built:
        Result<rlua::Lua, PatternError>)
        ensures
            match built {
                Err(PatternError::UnsupportedOption(name)) => !option_accepted(options, name@),
                _ => true,
            },
    {
        let lua = lua_new();
        checked(set_global_text(&lua, "group_name", group))?;
        checked(set_global_count(&lua, "element_count", element_count))?;
        checked(set_global_table(&lua, "options"))?;
        checked(run_chunk(&lua, script))?;
        checked(call_global(&lua, "setup"))?;
        let names = checked(table_names(&lua, "options"))?;
        install_options(&lua, &names, options)?;
        Ok(lua)
    }

    /// A pattern that runs `source`, the text of the script `script_name`,
    /// for the `element_count` elements of `group`. Where the script fails to
    /// load the pattern is broken, and says why.
    pub fn new(
        script_name: &str,
        group: &str,
        property: &str,
        element_count: usize,
        options: NameMap<Value>,
        source: &str,
    ) -> (pattern: Pattern)
        ensures
            pattern@.script_name == script_name@,
            pattern@.group == group@,
            pattern@.property == property@,
            pattern@.element_count == element_count,
            pattern@.option_names == options.names(),
            pattern@.option_values == options.values(),
            pattern@.settled(),
    {
        let (lua, fault) = match Pattern::build_lua_env(source, group, element_count, &options) {
            Ok(lua) => (Some(lua), None),
            Err(error) => (None, Some(error)),
        };
        Pattern {
            lua,
            fault,
            group: group.to_owned(),
            property: property.to_owned(),
            script_name: script_name.to_owned(),
            options,
            element_count,
        }
    }

    /// Loads `source` in place of the running script, with the same group,
    /// element count and options. Where that fails the pattern is broken,
    /// and says why.
    pub fn reload(&mut self, source: &str)
        ensures
            final(self)@ == old(self)@.loaded_with(final(self)@.fault),
            final(self)@.settled(),
    {
        let built = Pattern::build_lua_env(
            source,
            self.group.as_str(),
            self.element_count,
            &self.options,
        );
        self.accept(built);
    }

    /// Asks the script for the values of the next frame. A broken pattern
    /// has none. A script that fails stays loaded.
    pub fn try_update(&mut self) -> (outcome: Result<Vec<i32>, PatternError>)
        ensures
            final(self)@ == old(self)@,
            !old(self)@.loaded ==> (outcome matches Ok(values) && values@ == Seq::<i32>::empty()),
            outcome is Err ==> outcome matches Err(PatternError::Script(_)),
    {
        match &self.lua {
            Some(lua) => checked(call_for_values(lua, "update", FRAME_INTERVAL)),
            None => Ok(Vec::new()),
        }
    }

    /// The values of the next frame: what the script returns, and nothing
    /// where the pattern is broken or the script fails.
    pub fn update(&mut self) -> (values: Vec<i32>)
        ensures
            final(self)@ == old(self)@,
            !old(self)@.loaded ==> values@ == Seq::<i32>::empty(),
    {
        frame_values(self.try_update())
    }

    pub fn group(&self) -> (group: &str)
        ensures
            group@ == self@.group,
    {
        self.group.as_str()
    }

    pub fn script_name(&self) -> (name: &str)
        ensures
            name@ == self@.script_name,
    {
        self.script_name.as_str()
    }

    /// Whether a script is loaded.
    pub fn is_loaded(&self) -> (loaded: bool)
        ensures
            loaded == self@.loaded,
    {
        self.lua.is_some()
    }

    /// What went wrong when the script was last loaded, if anything did.
    pub fn fault(&self) -> (fault: Option<&PatternError>)
        ensures
            match fault {
                Some(error) => self@.fault == Some(error@),
                None => self@.fault is None,
            },
    {
        self.fault.as_ref()
    }
}

} // verus!
