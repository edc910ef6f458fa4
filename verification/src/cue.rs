//! The cue list, and the expansion of cue numbers into commands.
use crate::command_input_parser::{chunk_models, parse, parsed, Chunk, ChunkModel};
use crate::effect::{Action, Command};
use vstd::prelude::*;

verus! {

/// A cue as a mathematical value.
pub ghost struct CueModel {
    pub name: Seq<char>,
    pub command: Seq<char>,
}

/// A named command line.
pub struct Cue {
    name: String,
    command: String,
}

impl View for Cue {
    type V = CueModel;

    closed spec fn view(&self) -> CueModel {
        CueModel { name: self.name@, command: self.command@ }
    }
}

impl Cue {
    pub fn name(&self) -> (name: &str)
        ensures
            name@ == self@.name,
    {
        self.name.as_str()
    }

    pub fn command(&self) -> (command: &str)
        ensures
            command@ == self@.command,
    {
        self.command.as_str()
    }
}

/// The models of a sequence of cues.
pub open spec fn cue_models(cues: Seq<Cue>) -> Seq<CueModel> {
    Seq::new(cues.len(), |i: int| cues[i]@)
}

/// The cues of a show, in the order in which they were added. The operator
/// counts them from 1; `cue_command` counts from 0.
pub struct CueList {
    cues: Vec<Cue>,
}

impl View for CueList {
    type V = Seq<CueModel>;

    closed spec fn view(&self) -> Seq<CueModel> {
        cue_models(self.cues@)
    }
}

impl CueList {
    pub fn new() -> (list: CueList)
        ensures
            list@ == Seq::<CueModel>::empty(),
    {
        let list = CueList { cues: Vec::new() };
        assert(list@ =~= Seq::<CueModel>::empty());
        list
    }

    /// Appends a cue.
    pub fn add(&mut self, name: &str, command: &str)
        ensures
            final(self)@ == old(self)@.push(CueModel { name: name@, command: command@ }),
    {
        let cue = Cue { name: name.to_owned(), command: command.to_owned() };
        self.cues.push(cue);
        assert(self@ =~= old(self)@.push(CueModel { name: name@, command: command@ }));
    }

    pub fn cues(&self) -> (cues: &Vec<Cue>)
        ensures
            cue_models(cues@) == self@,
    {
        &self.cues
    }

    pub fn len(&self) -> (n: usize)
        ensures
            n == self@.len(),
    {
        self.cues.len()
    }

    /// The command line of the cue at `index`, counted from 0.
    pub fn cue_command(&self, index: usize) -> (command: Result<String, ()>)
        ensures
            match command {
                Ok(text) => index < self@.len() && text@ == self@[index as int].command,
                Err(_) => index >= self@.len(),
            },
    {
        if index < self.cues.len() {
            Ok(self.cues[index].command.clone())
        } else {
            Err(())
        }
    }
}

/// The keys of a sequence of commands.
pub open spec fn command_keys(commands: Seq<Command>) -> Seq<Seq<char>> {
    Seq::new(commands.len(), |i: int| commands[i].key@)
}

/// The keys that `chunks` stand for. An effect stands for its key. A cue
/// number stands for what the command line of that cue expands to, one level
/// further down; it stands for nothing where no such cue exists, and where
/// `depth` levels have been entered already.
pub open spec fn expanded(chunks: Seq<ChunkModel>, cues: Seq<CueModel>, depth: nat) -> Seq<
    Seq<char>,
>
    decreases depth, chunks.len(),
{
    if chunks.len() == 0 {
        Seq::empty()
    } else {
        expanded(chunks.drop_last(), cues, depth) + match chunks.last() {
            ChunkModel::Effect(key) => seq![key],
            ChunkModel::CueNum(n) => if depth > 0 && 1 <= n <= cues.len() {
                expanded(parsed(cues[n - 1].command), cues, (depth - 1) as nat)
            } else {
                Seq::empty()
            },
        }
    }
}

/// Whether the expansion of `chunks` ever wants to go deeper than `depth` levels.
pub open spec fn cut_short(chunks: Seq<ChunkModel>, cues: Seq<CueModel>, depth: nat) -> bool
    decreases depth, chunks.len(),
{
    if chunks.len() == 0 {
        false
    } else {
        cut_short(chunks.drop_last(), cues, depth) || match chunks.last() {
            ChunkModel::Effect(_) => false,
            ChunkModel::CueNum(n) => 1 <= n <= cues.len() && (depth == 0 || cut_short(
                parsed(cues[n - 1].command),
                cues,
                (depth - 1) as nat,
            )),
        }
    }
}

/// An expansion that was not cut short is the same at every greater depth:
/// the depth limit changes the result only where cues refer to each other
/// without end.
pub proof fn lemma_expansion_is_stable(
    chunks: Seq<ChunkModel>,
    cues: Seq<CueModel>,
    depth: nat,
    deeper: nat,
)
    requires
        !cut_short(chunks, cues, depth),
        depth <= deeper,
    ensures
        !cut_short(chunks, cues, deeper),
        expanded(chunks, cues, deeper) == expanded(chunks, cues, depth),
    decreases depth, chunks.len(),
{
    if chunks.len() > 0 {
        lemma_expansion_is_stable(chunks.drop_last(), cues, depth, deeper);
        match chunks.last() {
            ChunkModel::Effect(_) => {},
            ChunkModel::CueNum(n) => {
                if 1 <= n <= cues.len() {
                    lemma_expansion_is_stable(
                        parsed(cues[n - 1].command),
                        cues,
                        (depth - 1) as nat,
                        (deeper - 1) as nat,
                    );
                }
            },
        }
    }
}

/// Expands `chunks`, entering at most `depth` levels of cues.
fn expand_to_depth(chunks: &Vec<Chunk>, cue_list: &CueList, depth: usize) -> (commands: Vec<
    Command,
>)
    ensures
        command_keys(commands@) == expanded(chunk_models(chunks@), cue_list@, depth as nat),
    decreases depth,
{
    let ghost models = chunk_models(chunks@);
    let mut commands: Vec<Command> = Vec::new();
    let mut i: usize = 0;
    assert(models.take(0) =~= Seq::<ChunkModel>::empty());
    assert(command_keys(commands@) =~= Seq::<Seq<char>>::empty());
    while i < chunks.len()
        invariant
            i <= chunks.len(),
            models == chunk_models(chunks@),
            command_keys(commands@) == expanded(models.take(i as int), cue_list@, depth as nat),
        decreases chunks.len() - i,
    {
        let ghost before = command_keys(commands@);
        proof {
            let next = models.take(i + 1);
            assert(next.drop_last() =~= models.take(i as int));
            assert(next.last() == chunks@[i as int]@);
        }
        match &chunks[i] {
            Chunk::Effect(command) => {
                let action = match command.action {
                    Action::Toggle => Action::Toggle,
                };
                commands.push(Command { key: command.key.clone(), action });
                assert(command_keys(commands@) =~= before + seq![command.key@]);
            },
            Chunk::CueNum(n) => {
                if depth > 0 && *n >= 1 {
                    match cue_list.cue_command(*n - 1) {
                        Ok(text) => {
                            let inner = parse(text.as_str());
                            let mut found = expand_to_depth(&inner, cue_list, depth - 1);
                            let ghost keys = command_keys(found@);
                            commands.append(&mut found);
                            assert(command_keys(commands@) =~= before + keys);
                        },
                        Err(_) => {
                            assert(command_keys(commands@) =~= before + Seq::<Seq<char>>::empty());
                        },
                    }
                } else {
                    assert(command_keys(commands@) =~= before + Seq::<Seq<char>>::empty());
                }
            },
        }
        i += 1;
    }
    assert(models.take(chunks.len() as int) =~= models);
    commands
}

/// Turns chunks into the commands they stand for: an effect passes through,
/// a cue number is replaced by the expansion of that cue's command line. A
/// number without a cue contributes nothing. Cues are entered as deep as the
/// list has cues, which is as deep as cues that do not refer back to
/// themselves can ever go.
pub fn expand_cues(chunks: Vec<Chunk>, cue_list: &CueList) -> (commands: Vec<Command>)
    ensures
        command_keys(commands@) == expanded(
            chunk_models(chunks@),
            cue_list@,
            cue_list@.len() as nat,
        ),
{
    expand_to_depth(&chunks, cue_list, cue_list.len())
}

} // verus!
