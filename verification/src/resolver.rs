//! The search for a name, source by source: first the kernel command line,
//! then the configuration files of a directory, one after the other.
//!
//! The resolver reads nothing itself. It says what it needs next, its driver
//! fetches that and hands it back, and so on until a name is found or every
//! source has been tried.
use vstd::prelude::*;
use crate::cmdline::{find_device_name, hinted_name};
use crate::error::ResolveError;
use crate::ifcfg::{config_name, extract};
use crate::mac::MacAddress;
use crate::name::{is_kernel_style_name, DeviceName};
use crate::scanner::{config_files_in, list_config_files, names_of};

verus! {

/// Where a search stands.
pub enum Stage {
    /// The kernel command line is awaited.
    Cmdline,
    /// The listing of the configuration directory is awaited.
    ConfigDir,
    /// The content of the configuration file `files[index]` is awaited.
    ConfigFile { files: Seq<Seq<char>>, index: int },
    /// The search ended with this name.
    Resolved { name: Seq<char> },
    /// The search ended without a name.
    Failed,
}

/// What the driver of a search is asked to fetch.
#[derive(Debug)]
pub enum Request {
    /// The text of the kernel command line.
    Cmdline,
    /// The names of the entries of the configuration directory.
    ConfigDir,
    /// The content of the configuration file of this name.
    ConfigFile(String),
}

/// What a search says after each move.
#[derive(Debug)]
pub enum Step {
    /// The search goes on once the driver has fetched this.
    Ask(Request),
    /// The search ended with `name`. `kernel_style` warns that the name looks
    /// like one the kernel assigns; it does not change the outcome.
    Resolved { name: DeviceName, kernel_style: bool },
    /// The search ended without a name.
    Failed(ResolveError),
}

/// A [`Step`] as plain values.
pub enum StepView {
    AskCmdline,
    AskConfigDir,
    AskConfigFile(Seq<char>),
    Resolved(Seq<char>, bool),
    Failed(ResolveError),
}

impl View for Step {
    type V = StepView;

    open spec fn view(&self) -> StepView {
        match *self {
            Step::Ask(Request::Cmdline) => StepView::AskCmdline,
            Step::Ask(Request::ConfigDir) => StepView::AskConfigDir,
            Step::Ask(Request::ConfigFile(name)) => StepView::AskConfigFile(name@),
            Step::Resolved { name, kernel_style } => StepView::Resolved(name@, kernel_style),
            Step::Failed(error) => StepView::Failed(error),
        }
    }
}

/// What a search at `stage` says: what it awaits, or how it ended.
pub open spec fn pending_step(stage: Stage) -> StepView {
    match stage {
        Stage::Cmdline => StepView::AskCmdline,
        Stage::ConfigDir => StepView::AskConfigDir,
        Stage::ConfigFile { files, index } => StepView::AskConfigFile(files[index]),
        Stage::Resolved { name } => StepView::Resolved(name, is_kernel_style_name(name)),
        Stage::Failed => StepView::Failed(ResolveError::ResolutionFailed),
    }
}

/// The stage after the command line was handed in; `text` is `None` where it
/// could not be read. A hint for `target` ends the search; otherwise the
/// configuration directory is next. At any other stage nothing changes.
pub open spec fn after_cmdline(target: Seq<u8>, stage: Stage, text: Option<Seq<char>>) -> Stage {
    match stage {
        Stage::Cmdline => match text {
            Some(text) => match hinted_name(text, target) {
                Some(name) => Stage::Resolved { name },
                None => Stage::ConfigDir,
            },
            None => Stage::ConfigDir,
        },
        _ => stage,
    }
}

/// The stage after the listing of the directory was handed in; `entries` is
/// `None` where the directory could not be listed. The search goes on with
/// the first configuration file, and fails where there is none. At any other
/// stage nothing changes.
pub open spec fn after_listing(stage: Stage, entries: Option<Seq<Seq<char>>>) -> Stage {
    match stage {
        Stage::ConfigDir => match entries {
            Some(names) => if config_files_in(names).len() > 0 {
                Stage::ConfigFile { files: config_files_in(names), index: 0 }
            } else {
                Stage::Failed
            },
            None => Stage::Failed,
        },
        _ => stage,
    }
}

/// The stage after the awaited configuration file was handed in; `content`
/// is `None` where it could not be read. A file that names `target` ends the
/// search; otherwise the next file is awaited, and the search fails after the
/// last one. At any other stage nothing changes.
pub open spec fn after_config_file(
    target: Seq<u8>,
    stage: Stage,
    content: Option<Seq<char>>,
) -> Stage {
    match stage {
        Stage::ConfigFile { files, index } => {
            let named = match content {
                Some(content) => config_name(content, target),
                None => None,
            };
            match named {
                Some(name) => Stage::Resolved { name },
                None => if index + 1 < files.len() {
                    Stage::ConfigFile { files, index: index + 1 }
                } else {
                    Stage::Failed
                },
            }
        },
        _ => stage,
    }
}

/// The characters of an optional text.
pub open spec fn text_of(text: Option<&str>) -> Option<Seq<char>> {
    match text {
        Some(text) => Some(text@),
        None => None,
    }
}

/// The names of an optional listing.
pub open spec fn listing_of(entries: Option<Vec<String>>) -> Option<Seq<Seq<char>>> {
    match entries {
        Some(entries) => Some(names_of(entries@)),
        None => None,
    }
}

/// What the sources hold when a driver fetches them.
pub struct Sources {
    /// The kernel command line, or `None` where it cannot be read.
    pub cmdline: Option<Seq<char>>,
    /// The names of the entries of the configuration directory, or `None`
    /// where it cannot be listed.
    pub listing: Option<Seq<Seq<char>>>,
    /// The content of each file of the directory that can be read, by name.
    pub contents: Map<Seq<char>, Seq<char>>,
}

impl Sources {
    /// The content of the file `name`, or `None` where it cannot be read.
    pub open spec fn content_of(self, name: Seq<char>) -> Option<Seq<char>> {
        if self.contents.dom().contains(name) {
            Some(self.contents[name])
        } else {
            None
        }
    }

    /// The name that the file `name` gives to `target`.
    pub open spec fn named_by(self, target: Seq<u8>, name: Seq<char>) -> Option<Seq<char>> {
        match self.content_of(name) {
            Some(content) => config_name(content, target),
            None => None,
        }
    }

    /// The name that the command line hints for `target`.
    pub open spec fn hinted(self, target: Seq<u8>) -> Option<Seq<char>> {
        match self.cmdline {
            Some(text) => hinted_name(text, target),
            None => None,
        }
    }

    /// The configuration files of the directory, in the order of its
    /// listing.
    pub open spec fn config_files(self) -> Seq<Seq<char>> {
        match self.listing {
            Some(names) => config_files_in(names),
            None => Seq::empty(),
        }
    }

    /// Whether the `i`-th configuration file names `target` and none before
    /// it does.
    pub open spec fn is_first_naming_file(self, target: Seq<u8>, i: int) -> bool {
        &&& 0 <= i < self.config_files().len()
        &&& self.named_by(target, self.config_files()[i]) is Some
        &&& forall|j: int| 0 <= j < i ==> self.named_by(target, #[trigger] self.config_files()[j]) is None
    }

    /// The name that the sources give to `target`: the one hinted on the
    /// command line, else the one given by the first configuration file that
    /// names `target`.
    pub open spec fn resolution(self, target: Seq<u8>) -> Option<Seq<char>> {
        match self.hinted(target) {
            Some(name) => Some(name),
            None => if exists|i: int| self.is_first_naming_file(target, i) {
                let i = choose|i: int| self.is_first_naming_file(target, i);
                self.named_by(target, self.config_files()[i])
            } else {
                None
            },
        }
    }
}

/// The stage after the driver fetched from `sources` what the search awaits
/// and handed it in.
pub open spec fn served(target: Seq<u8>, stage: Stage, sources: Sources) -> Stage {
    match stage {
        Stage::Cmdline => after_cmdline(target, stage, sources.cmdline),
        Stage::ConfigDir => after_listing(stage, sources.listing),
        Stage::ConfigFile { files, index } => after_config_file(
            target,
            stage,
            sources.content_of(files[index]),
        ),
        _ => stage,
    }
}

/// The stage after `moves` rounds of fetching and handing in.
pub open spec fn run(target: Seq<u8>, stage: Stage, sources: Sources, moves: nat) -> Stage
    decreases moves,
{
    if moves == 0 {
        stage
    } else {
        run(target, served(target, stage, sources), sources, (moves - 1) as nat)
    }
}

/// The stage at which a search with this outcome ends.
pub open spec fn final_stage(outcome: Option<Seq<char>>) -> Stage {
    match outcome {
        Some(name) => Stage::Resolved { name },
        None => Stage::Failed,
    }
}

#[derive(Clone, Copy, Debug, PartialEq, Eq, Structural)]
enum Phase {
    Cmdline,
    ConfigDir,
    ConfigFile,
    Resolved,
    Failed,
}

/// A search for the name of the interface with one hardware address.
#[derive(Debug)]
pub struct Resolver {
    target: MacAddress,
    phase: Phase,
    files: Vec<String>,
    index: usize,
    name: Option<DeviceName>,
}

impl Resolver {
    #[verifier::type_invariant]
    spec fn well_formed(self) -> bool {
        &&& self.phase == Phase::ConfigFile ==> self.index < self.files@.len()
        &&& self.phase == Phase::Resolved ==> self.name is Some
    }

    /// The address whose name is searched.
    pub closed spec fn target(&self) -> Seq<u8> {
        self.target@
    }

    /// Where the search stands.
    pub closed spec fn stage(&self) -> Stage {
        match self.phase {
            Phase::Cmdline => Stage::Cmdline,
            Phase::ConfigDir => Stage::ConfigDir,
            Phase::ConfigFile => Stage::ConfigFile {
                files: names_of(self.files@),
                index: self.index as int,
            },
            Phase::Resolved => Stage::Resolved { name: self.name->0@ },
            Phase::Failed => Stage::Failed,
        }
    }

    /// A search for the name of `target`, which starts at the kernel command
    /// line.
    pub fn new(target: MacAddress) -> (resolver: Resolver)
        ensures
            resolver.target() == target@,
            resolver.stage() == Stage::Cmdline,
    {
        Resolver { target, phase: Phase::Cmdline, files: Vec::new(), index: 0, name: None }
    }

    /// What the search awaits, or how it ended.
    pub fn pending(&self) -> (step: Step)
        ensures
            step@ == pending_step(self.stage()),
    {
        proof {
            use_type_invariant(self);
        }
        match self.phase {
            Phase::Cmdline => Step::Ask(Request::Cmdline),
            Phase::ConfigDir => Step::Ask(Request::ConfigDir),
            Phase::ConfigFile => Step::Ask(Request::ConfigFile(self.files[self.index].clone())),
            Phase::Resolved => match &self.name {
                Some(name) => Step::Resolved {
                    name: name.clone(),
                    kernel_style: name.is_kernel_style(),
                },
                None => Step::Failed(ResolveError::ResolutionFailed),
            },
            Phase::Failed => Step::Failed(ResolveError::ResolutionFailed),
        }
    }

    /// Hands in the kernel command line, or `None` where it could not be
    /// read.
    pub fn on_cmdline(&mut self, text: Option<&str>) -> (step: Step)
        ensures
            final(self).target() == old(self).target(),
            final(self).stage() == after_cmdline(old(self).target(), old(self).stage(), text_of(text)),
            step@ == pending_step(final(self).stage()),
    {
        if self.phase == Phase::Cmdline {
            let found = match text {
                Some(text) => find_device_name(text, &self.target),
                None => None,
            };
            match found {
                Some(name) => {
                    self.name = Some(name);
                    self.phase = Phase::Resolved;
                },
                None => {
                    self.phase = Phase::ConfigDir;
                },
            }
        }
        self.pending()
    }

    /// Hands in the names of the entries of the configuration directory, or
    /// `None` where it could not be listed.
    pub fn on_listing(&mut self, entries: Option<Vec<String>>) -> (step: Step)
        ensures
            final(self).target() == old(self).target(),
            final(self).stage() == after_listing(old(self).stage(), listing_of(entries)),
            step@ == pending_step(final(self).stage()),
    {
        if self.phase == Phase::ConfigDir {
            let files = match entries {
                Some(entries) => list_config_files(&entries),
                None => None,
            };
            match files {
                Some(files) => {
                    self.files = files;
                    self.index = 0;
                    self.phase = Phase::ConfigFile;
                },
                None => {
                    self.phase = Phase::Failed;
                },
            }
        }
        self.pending()
    }

    /// Hands in the content of the awaited configuration file, or `None`
    /// where it could not be read.
    pub fn on_config_file(&mut self, content: Option<&str>) -> (step: Step)
        ensures
            final(self).target() == old(self).target(),
            final(self).stage() == after_config_file(
                old(self).target(),
                old(self).stage(),
                text_of(content),
            ),
            step@ == pending_step(final(self).stage()),
    {
        proof {
            use_type_invariant(&*self);
        }
        if self.phase == Phase::ConfigFile {
            let named = match content {
                Some(content) => match extract(content, &self.target) {
                    Ok(named) => named,
                    Err(_) => None,
                },
                None => None,
            };
            match named {
                Some(name) => {
                    self.name = Some(name);
                    self.phase = Phase::Resolved;
                },
                None => {
                    if self.files.len() - self.index > 1 {
                        self.index = self.index + 1;
                    } else {
                        self.phase = Phase::Failed;
                    }
                },
            }
        }
        self.pending()
    }
}

/// A search that has ended stays as it is, whatever is handed in.
pub proof fn law_finished_stays_finished(
    target: Seq<u8>,
    stage: Stage,
    sources: Sources,
    moves: nat,
)
    requires
        stage is Resolved || stage is Failed,
    ensures
        forall|text: Option<Seq<char>>| after_cmdline(target, stage, text) == stage,
        forall|entries: Option<Seq<Seq<char>>>| after_listing(stage, entries) == stage,
        forall|content: Option<Seq<char>>| after_config_file(target, stage, content) == stage,
        run(target, stage, sources, moves) == stage,
        !(pending_step(stage) is AskCmdline || pending_step(stage) is AskConfigDir || pending_step(
            stage,
        ) is AskConfigFile),
    decreases moves,
{
    if moves > 0 {
        law_finished_stays_finished(target, stage, sources, (moves - 1) as nat);
    }
}

/// A search that awaits the file `index`, none of the files before which
/// names the address, ends with what the first naming file gives.
proof fn lemma_run_over_files(target: Seq<u8>, sources: Sources, index: int, moves: nat)
    requires
        0 <= index < sources.config_files().len(),
        sources.hinted(target) is None,
        forall|j: int|
            0 <= j < index ==> sources.named_by(target, #[trigger] sources.config_files()[j])
                is None,
        moves >= sources.config_files().len() - index,
    ensures
        run(target, Stage::ConfigFile { files: sources.config_files(), index }, sources, moves)
            == final_stage(sources.resolution(target)),
    decreases sources.config_files().len() - index,
{
    let files = sources.config_files();
    let stage = Stage::ConfigFile { files, index };
    let next = served(target, stage, sources);
    let rest = (moves - 1) as nat;
    match sources.named_by(target, files[index]) {
        Some(name) => {
            assert(sources.is_first_naming_file(target, index));
            let i = choose|i: int| sources.is_first_naming_file(target, i);
            assert(i == index) by {
                if i < index {
                    assert(sources.named_by(target, files[i]) is None);
                }
                if index < i {
                    assert(sources.named_by(target, files[index]) is None);
                }
            }
            law_finished_stays_finished(target, next, sources, rest);
        },
        None => {
            if index + 1 < files.len() {
                lemma_run_over_files(target, sources, index + 1, rest);
            } else {
                assert forall|i: int| !sources.is_first_naming_file(target, i) by {
                    if sources.is_first_naming_file(target, i) {
                        assert(sources.named_by(target, files[i]) is None);
                    }
                }
                law_finished_stays_finished(target, next, sources, rest);
            }
        },
    }
}

/// A driver that serves the search from `sources` sees it end, after at most
/// two rounds and one for each configuration file, with the name that the
/// sources give to the address, and without a name exactly where they give
/// none.
pub proof fn law_run_ends_with_resolution(target: Seq<u8>, sources: Sources, moves: nat)
    requires
        moves >= 2 + sources.config_files().len(),
    ensures
        run(target, Stage::Cmdline, sources, moves) == final_stage(sources.resolution(target)),
{
    let files = sources.config_files();
    let first = served(target, Stage::Cmdline, sources);
    match sources.hinted(target) {
        Some(name) => {
            law_finished_stays_finished(target, first, sources, (moves - 1) as nat);
        },
        None => {
            assert(first == Stage::ConfigDir);
            let second = served(target, first, sources);
            assert(run(target, Stage::Cmdline, sources, moves) == run(
                target,
                second,
                sources,
                (moves - 2) as nat,
            )) by {
                reveal_with_fuel(run, 3);
            }
            if files.len() > 0 {
                lemma_run_over_files(target, sources, 0, (moves - 2) as nat);
            } else {
                assert forall|i: int| !sources.is_first_naming_file(target, i) by {}
                law_finished_stays_finished(target, second, sources, (moves - 2) as nat);
            }
        },
    }
}

/// While a search awaits a configuration file, none of the files before it
/// names the address: once a file has named it, no further file is asked
/// for.
pub proof fn law_no_file_after_a_match(target: Seq<u8>, sources: Sources, moves: nat)
    ensures
        run(target, Stage::Cmdline, sources, moves) matches Stage::ConfigFile { files, index } ==> {
            &&& files == sources.config_files()
            &&& 0 <= index < files.len()
            &&& forall|j: int|
                0 <= j < index ==> sources.named_by(target, #[trigger] files[j]) is None
        },
{
    lemma_reachable_stages(target, sources, moves);
}

/// Whether a search served from `sources` can be at `stage`.
spec fn is_sound_stage(target: Seq<u8>, sources: Sources, stage: Stage) -> bool {
    stage matches Stage::ConfigFile { files, index } ==> {
        &&& files == sources.config_files()
        &&& 0 <= index < files.len()
        &&& forall|j: int| 0 <= j < index ==> sources.named_by(target, #[trigger] files[j]) is None
    }
}

/// Serving a search keeps its stage sound.
proof fn lemma_served_is_sound(target: Seq<u8>, sources: Sources, stage: Stage)
    requires
        is_sound_stage(target, sources, stage),
    ensures
        is_sound_stage(target, sources, served(target, stage, sources)),
{
}

/// Every stage that a search served from `sources` reaches is sound.
proof fn lemma_reachable_stages(target: Seq<u8>, sources: Sources, moves: nat)
    ensures
        is_sound_stage(target, sources, run(target, Stage::Cmdline, sources, moves)),
{
    lemma_run_keeps_sound(target, sources, Stage::Cmdline, moves);
}

/// Rounds of serving keep a sound stage sound.
proof fn lemma_run_keeps_sound(target: Seq<u8>, sources: Sources, stage: Stage, moves: nat)
    requires
        is_sound_stage(target, sources, stage),
    ensures
        is_sound_stage(target, sources, run(target, stage, sources, moves)),
    decreases moves,
{
    if moves > 0 {
        lemma_served_is_sound(target, sources, stage);
        lemma_run_keeps_sound(
            target,
            sources,
            served(target, stage, sources),
            (moves - 1) as nat,
        );
    }
}

} // verus!
