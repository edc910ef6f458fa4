//! The mixer: what happens on each key and on each frame.
use crate::command_input_parser::{parse, parsed};
use crate::cue::{command_keys, expand_cues, expanded, CueList, CueModel};
use crate::effect::{
    keys_of, lemma_commands_ignore_scripts, lemma_commands_keep_patterns,
    lemma_static_effects_are_known, mixed_effects, mixed_pool, pool_frames_fit, EffectModel,
    EffectPool, EffectPoolModel,
};
use crate::light::Strength;
use crate::installation::{universe, Installation, InstallationModel};
use crate::keys::{edited, mutate_from_key, KeyCode};
use crate::names::NameMap;
use vstd::prelude::*;

verus! {

/// Whether the last universe could be handed to the transmitter.
#[derive(PartialEq, Eq, Debug, Clone, Copy)]
pub enum DmxStatus {
    /// The transmitter took the last universe.
    Sent,
    /// The transmitter did not take the last universe.
    Error,
    /// No universe has been handed over yet.
    Unknown,
}

/// The frame that the transmitter sends next: the latest of those that have
/// arrived since the last one was sent, and the one it has where none did.
pub fn next_frame(current: Vec<u8>, arrived: Vec<Vec<u8>>) -> (frame: Vec<u8>)
    ensures
        frame@ == if arrived@.len() > 0 {
            arrived@.last()@
        } else {
            current@
        },
{
    let mut arrived = arrived;
    match arrived.pop() {
        Some(latest) => latest,
        None => current,
    }
}

/// A mixer as a mathematical value.
pub ghost struct MixerModel {
    pub installation: InstallationModel,
    pub pool: EffectPoolModel,
    pub cues: Seq<CueModel>,
    /// The command line as typed so far.
    pub buffer: Seq<char>,
    /// The universe of the last frame.
    pub chain: Seq<u8>,
    pub status: DmxStatus,
}

impl MixerModel {
    /// The keys of the commands that the command line stands for.
    pub open spec fn commands(self) -> Seq<Seq<char>> {
        expanded(parsed(self.buffer), self.cues, self.cues.len())
    }

    /// The mixer after a key has been pressed. A key that commits puts the
    /// commands of the command line into the queue and clears the line;
    /// every other key edits the line.
    pub open spec fn after_key(self, key: KeyCode) -> MixerModel {
        if key.commits() {
            MixerModel {
                pool: EffectPoolModel { queue: self.pool.queue + self.commands(), ..self.pool },
                buffer: Seq::empty(),
                ..self
            }
        } else {
            MixerModel { buffer: edited(self.buffer, key), ..self }
        }
    }

    /// The pool after the waiting commands have been run.
    pub open spec fn pool_after_commands(self) -> EffectPoolModel {
        EffectPoolModel {
            effects: self.pool.after_commands(self.pool.queue),
            queue: Seq::empty(),
            ..self.pool
        }
    }

    /// The installation after a frame of a pool without patterns: zeroed,
    /// every effect mixed in at the strength that the commands left it with,
    /// and every frame written.
    pub open spec fn mixed(self) -> InstallationModel {
        mixed_effects(
            self.installation.zeroed(),
            self.pool_after_commands().effects,
            self.pool.effects.len() as int,
        ).refreshed()
    }
}

/// The installation, the effect pool and the cue list of a show, together
/// with the command line and the last universe. The installation of a mixer
/// is well formed.
pub struct Mixer {
    installation: Installation,
    effect_pool: EffectPool,
    cue_list: CueList,
    dmx_chain: Vec<u8>,
    dmx_status: DmxStatus,
    command_input_buffer: String,
}

impl View for Mixer {
    type V = MixerModel;

    closed spec fn view(&self) -> MixerModel {
        MixerModel {
            installation: self.installation@,
            pool: self.effect_pool@,
            cues: self.cue_list@,
            buffer: self.command_input_buffer@,
            chain: self.dmx_chain@,
            status: self.dmx_status,
        }
    }
}

impl Mixer {
    #[verifier::type_invariant]
    spec fn installation_wf(self) -> bool {
        self.installation@.wf()
    }

    /// A mixer for a show, with an empty command line and no universe yet.
    /// There is none for an installation that is not well formed.
    pub fn new(installation: Installation, effect_pool: EffectPool, cue_list: CueList) -> (mixer:
        Option<Mixer>)
        ensures
            mixer is Some <==> installation@.wf(),
            match mixer {
                Some(m) => m@ == (MixerModel {
                    installation: installation@,
                    pool: effect_pool@,
                    cues: cue_list@,
                    buffer: Seq::empty(),
                    chain: Seq::empty(),
                    status: DmxStatus::Unknown,
                }),
                None => true,
            },
    {
        if !installation.is_wf() {
            return None;
        }
        Some(
            Mixer {
                installation,
                effect_pool,
                cue_list,
                dmx_chain: Vec::new(),
                dmx_status: DmxStatus::Unknown,
                command_input_buffer: String::new(),
            },
        )
    }

    /// Takes the effect pool out, leaving an empty one in its place.
    fn take_pool(&mut self) -> (pool: EffectPool)
        ensures
            pool@ == old(self)@.pool,
            final(self)@.installation == old(self)@.installation,
            final(self)@.cues == old(self)@.cues,
            final(self)@.buffer == old(self)@.buffer,
            final(self)@.chain == old(self)@.chain,
            final(self)@.status == old(self)@.status,
    {
        proof {
            use_type_invariant(&*self);
        }
        let mut pool = EffectPool::new(Vec::new(), NameMap::new(), String::new());
        core::mem::swap(&mut pool, &mut self.effect_pool);
        pool
    }

    /// Takes a key: an editing key changes the command line; a key that
    /// commits parses the line, expands its cue numbers, puts the commands
    /// into the queue of the pool and clears the line.
    pub fn key_down(&mut self, key: KeyCode)
        ensures
            final(self)@ == old(self)@.after_key(key),
    {
        proof {
            use_type_invariant(&*self);
        }
        if key.is_commit() {
            let chunks = parse(self.command_input_buffer.as_str());
            let commands = expand_cues(chunks, &self.cue_list);
            assert(keys_of(commands@) =~= command_keys(commands@));
            let mut pool = self.take_pool();
            pool.add_commands(commands);
            self.effect_pool = pool;
            self.command_input_buffer = String::new();
        } else {
            let mut buffer = String::new();
            core::mem::swap(&mut buffer, &mut self.command_input_buffer);
            mutate_from_key(&mut buffer, key);
            self.command_input_buffer = buffer;
        }
    }

    /// One frame: loads the patterns anew where `reloaded` holds the texts
    /// of their scripts, runs the waiting commands, mixes the effects into
    /// the zeroed installation, and builds the universe, which it keeps and
    /// returns.
    ///
    /// What the patterns yield is theirs to say; the installation is what
    /// the pool makes of whatever they yielded, with every frame written.
    pub fn tick(&mut self, reloaded: Option<&NameMap<String>>) -> (chain: Vec<u8>)
        ensures
            final(self)@.cues == old(self)@.cues,
            final(self)@.buffer == old(self)@.buffer,
            final(self)@.status == old(self)@.status,
            final(self)@.pool.without_scripts() == old(self)@.pool_after_commands().without_scripts(),
            exists|frames: Seq<Seq<Seq<i32>>>|
                pool_frames_fit(final(self)@.pool, frames) && final(self)@.installation
                    == mixed_pool(
                    old(self)@.installation.zeroed(),
                    final(self)@.pool,
                    frames,
                    final(self)@.pool.effects.len() as int,
                ).refreshed(),
            chain@ == final(self)@.chain,
            chain@ == universe(final(self)@.installation.fixtures),
            old(self)@.pool.is_static() ==> final(self)@.installation == old(self)@.mixed(),
    {
        proof {
            use_type_invariant(&*self);
        }
        let mut installation = Installation::new(NameMap::new());
        core::mem::swap(&mut installation, &mut self.installation);
        let mut pool = self.take_pool();
        match reloaded {
            Some(sources) => {
                pool.reload_patterns(sources);
            },
            None => {},
        }
        let ghost loaded = pool@;
        pool.run_commands();
        let ghost ran = pool@;
        pool.apply_to(&mut installation);
        let ghost mixed = installation@;
        let chain = installation.build_dmx_chain();
        self.installation = installation;
        self.effect_pool = pool;
        self.dmx_chain = chain.clone();
        proof {
            assert(self.dmx_chain@ =~= chain@);
            assert(loaded.queue == loaded.without_scripts().queue);
            assert(old(self)@.pool.queue == old(self)@.pool.without_scripts().queue);
            lemma_commands_ignore_scripts(old(self)@.pool, loaded, loaded.queue);
            assert(self@.installation == mixed.refreshed());
            let frames = choose|frames: Seq<Seq<Seq<i32>>>|
                pool_frames_fit(ran, frames) && mixed == mixed_pool(
                    old(self)@.installation.zeroed(),
                    ran,
                    frames,
                    ran.effects.len() as int,
                );
            assert(pool_frames_fit(self@.pool, frames));
            if old(self)@.pool.is_static() {
                let planned = old(self)@.pool_after_commands().effects;
                lemma_commands_keep_patterns(old(self)@.pool, loaded.queue);
                lemma_static_effects_are_known(planned, ran.effects);
            }
        }
        chain
    }

    /// Notes whether the universe of the last frame could be handed to the
    /// transmitter.
    pub fn record_send(&mut self, sent: bool)
        ensures
            final(self)@ == (MixerModel {
                status: if sent {
                    DmxStatus::Sent
                } else {
                    DmxStatus::Error
                },
                ..old(self)@
            }),
    {
        proof {
            use_type_invariant(&*self);
        }
        self.dmx_status = if sent {
            DmxStatus::Sent
        } else {
            DmxStatus::Error
        };
    }

    pub fn installation(&self) -> (installation: &Installation)
        ensures
            installation@ == self@.installation,
            installation@.wf(),
    {
        proof {
            use_type_invariant(self);
        }
        &self.installation
    }

    pub fn effect_pool(&self) -> (pool: &EffectPool)
        ensures
            pool@ == self@.pool,
    {
        &self.effect_pool
    }

    /// Sets the strength of the effect that `key` stands for, if it stands
    /// for one.
    pub fn set_strength(&mut self, key: &str, strength: Strength)
        ensures
            final(self)@ == (MixerModel {
                pool: match old(self)@.pool.effect_of(key@) {
                    Some(i) => EffectPoolModel {
                        effects: old(self)@.pool.effects.update(
                            i,
                            EffectModel { strength, ..old(self)@.pool.effects[i] },
                        ),
                        ..old(self)@.pool
                    },
                    None => old(self)@.pool,
                },
                ..old(self)@
            }),
    {
        proof {
            use_type_invariant(&*self);
        }
        let mut pool = self.take_pool();
        match pool.get_effect_by_key(key) {
            Some(effect) => {
                effect.set_strength(strength);
            },
            None => {},
        }
        self.effect_pool = pool;
    }

    /// The strength of the effect that `key` stands for, if it stands for one.
    pub fn effect_strength(&self, key: &str) -> (strength: Option<Strength>)
        ensures
            strength == match self@.pool.effect_of(key@) {
                Some(i) => Some(self@.pool.effects[i].strength),
                None => None,
            },
    {
        match self.effect_pool.effect_by_key(key) {
            Some(effect) => Some(effect.strength()),
            None => None,
        }
    }

    pub fn cue_list(&self) -> (cues: &CueList)
        ensures
            cues@ == self@.cues,
    {
        &self.cue_list
    }

    pub fn dmx_status(&self) -> (status: DmxStatus)
        ensures
            status == self@.status,
    {
        self.dmx_status
    }

    /// The universe of the last frame.
    pub fn dmx_chain(&self) -> (chain: &Vec<u8>)
        ensures
            chain@ == self@.chain,
    {
        &self.dmx_chain
    }

    /// The command line as typed so far.
    pub fn command_input_buffer(&self) -> (buffer: &str)
        ensures
            buffer@ == self@.buffer,
    {
        self.command_input_buffer.as_str()
    }
}

} // verus!
