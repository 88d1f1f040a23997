//! The order in which configuration layers are read and merged, and what
//! becomes of the merged layer: the search path and its written form.

use crate::cli::{Mode, Opts};
use crate::config::config_source::{ConfigFileDescription, ConfigFileFormat, ConfigSource};
use crate::config::include_administrative::{IncludeAdministrative, Policy};
use crate::config::path::resolved_list;
use crate::config::path_flags::PathFlags;
use crate::config::{lemma_merged_empty, Config, Layer};
use crate::text::{join, lemma_views_push, views};
use vstd::prelude::*;
use vstd::string::StringExecFns;

verus! {

/// The layer that is to be read next.
#[derive(Debug, Copy, Clone, PartialEq, Eq, Structural)]
pub enum Stage {
    /// The environment of the process.
    Environment,
    /// The file in the user's home directory.
    Home,
    /// The system-wide file.
    System,
    /// The built-in configuration.
    Included,
    /// The file that was named explicitly.
    Explicit,
    /// Nothing is left to read.
    Done,
}

/// What the caller is asked to read.
#[derive(Debug, Clone, PartialEq, Eq)]
pub enum Request {
    /// The variables of the environment and, if `with_path` is set, the
    /// entries of the `PATH` variable.
    Environment { with_path: bool },
    /// The file in the user's home directory.
    Home,
    /// The system-wide file.
    System,
    /// The built-in configuration.
    Included,
    /// The file at the given location.
    Explicit(String),
    /// Nothing: the merged layer is complete.
    Finished,
}

/// What the caller found where it was asked to read.
#[derive(Debug, Clone, PartialEq, Eq)]
pub enum Answer {
    /// The layer that was read.
    Loaded(Config),
    /// There is nothing to read there.
    Missing,
}

/// The layers read so far, merged, and what is to be read next.
#[derive(Debug, Clone, PartialEq, Eq)]
pub struct Acquisition {
    /// The merged layer.
    pub config: Config,
    /// The layer to read next.
    pub stage: Stage,
    /// Whether the entries of `PATH` are asked for.
    pub from_env: bool,
    /// Whether the configuration files and the built-in configuration are
    /// asked for.
    pub included: bool,
    /// The file that was named explicitly, if one was.
    pub explicit: Option<String>,
}

/// The stage after the files and the built-in configuration: the explicit
/// file if one was named, else the end.
pub open spec fn after_included(explicit: bool) -> Stage {
    if explicit {
        Stage::Explicit
    } else {
        Stage::Done
    }
}

/// The stage that follows `stage`, where `base` says whether the layer
/// merged so far asks to stop. Files are read only if they were asked for;
/// the system-wide file and the built-in configuration only while no layer
/// asks to stop; the explicit file in any case.
pub open spec fn following(stage: Stage, base: bool, included: bool, explicit: bool) -> Stage {
    match stage {
        Stage::Environment => if included {
            Stage::Home
        } else {
            after_included(explicit)
        },
        Stage::Home => if !base {
            Stage::System
        } else {
            after_included(explicit)
        },
        Stage::System => if !base {
            Stage::Included
        } else {
            after_included(explicit)
        },
        Stage::Included => after_included(explicit),
        Stage::Explicit => Stage::Done,
        Stage::Done => Stage::Done,
    }
}

/// The layer that results when `found` was read at `stage` and `sofar` was
/// there before: the new layer is merged with what was there as the
/// overriding side, so its paths rank after those already there and its
/// settings give way to them. Where nothing was found, nothing changes.
pub open spec fn absorbed(stage: Stage, sofar: Layer, found: Option<Layer>) -> Layer {
    match found {
        Some(layer) => if stage == Stage::Done {
            sofar
        } else {
            layer.merged(sofar)
        },
        None => sofar,
    }
}

/// The source that the entries of a layer read at `stage` come from.
pub open spec fn source_at(stage: Stage, explicit: Option<String>) -> Option<ConfigSource> {
    match stage {
        Stage::Environment => None,
        Stage::Home => Some(ConfigSource::Home(ConfigFileFormat::Toml)),
        Stage::System => Some(ConfigSource::System(ConfigFileFormat::Toml)),
        Stage::Included => Some(ConfigSource::Included),
        Stage::Explicit => match explicit {
            Some(location) => Some(
                ConfigSource::Config(
                    ConfigFileDescription { location, format: ConfigFileFormat::Toml },
                ),
            ),
            None => None,
        },
        Stage::Done => None,
    }
}

/// Where the entries of a layer come from once it was read: from `source`
/// where there is one, else from where they were marked to come from.
pub open spec fn stamped(provenances: Seq<Option<ConfigSource>>, source: Option<ConfigSource>) -> Seq<
    Option<ConfigSource>,
> {
    match source {
        Some(s) => Seq::new(provenances.len(), |i: int| Some(s)),
        None => provenances,
    }
}

/// The layer that is there when the run that begins at `stage` with the
/// layer `sofar` has come to its end, where `answers` holds what is found
/// at each stage; `steps` bounds the number of stages.
pub open spec fn run_from(
    stage: Stage,
    sofar: Layer,
    included: bool,
    explicit: bool,
    answers: spec_fn(Stage) -> Option<Layer>,
    steps: nat,
) -> Layer
    decreases steps,
{
    if stage == Stage::Done || steps == 0 {
        sofar
    } else {
        let next = absorbed(stage, sofar, answers(stage));
        run_from(
            following(stage, next.base, included, explicit),
            next,
            included,
            explicit,
            answers,
            (steps - 1) as nat,
        )
    }
}

/// A run passes through at most five stages, and what it merges is
/// `acquired` of what was found: the system-wide file and the built-in
/// configuration count only while no layer read before them asks to stop,
/// the files only if they were asked for.
pub proof fn lemma_run_acquires(
    included: bool,
    environment: Layer,
    home: Option<Layer>,
    system: Option<Layer>,
    builtin: Layer,
    explicit: Option<Layer>,
    answers: spec_fn(Stage) -> Option<Layer>,
)
    requires
        answers(Stage::Environment) == Some(environment),
        answers(Stage::Home) == home,
        answers(Stage::System) == system,
        answers(Stage::Included) == Some(builtin),
        answers(Stage::Explicit) == explicit,
    ensures
        run_from(Stage::Environment, Layer::empty(), included, explicit is Some, answers, 5)
            == acquired(included, environment, home, system, builtin, explicit),
{
    reveal_with_fuel(run_from, 6);
    lemma_merged_empty(environment);
}

/// The layer that a whole run merges: the environment first; if files were
/// asked for, the home file, then the system-wide file and the built-in
/// configuration while no layer asked to stop; at last the explicit file.
pub open spec fn acquired(
    included: bool,
    environment: Layer,
    home: Option<Layer>,
    system: Option<Layer>,
    builtin: Layer,
    explicit: Option<Layer>,
) -> Layer {
    let c1 = if included {
        absorbed(Stage::Home, environment, home)
    } else {
        environment
    };
    let c2 = if included && !c1.base {
        absorbed(Stage::System, c1, system)
    } else {
        c1
    };
    let c3 = if included && !c2.base {
        absorbed(Stage::Included, c2, Some(builtin))
    } else {
        c2
    };
    absorbed(Stage::Explicit, c3, explicit)
}

impl Acquisition {
    /// The state before anything is read.
    pub fn start(opts: &Opts) -> (r: Acquisition)
        ensures
            r.stage == Stage::Environment,
            r.config@ == Layer::empty(),
            r.from_env == (opts.from_env || opts.wants_defaults()),
            r.included == (opts.included || opts.wants_defaults()),
            r.explicit == opts.config,
    {
        Acquisition {
            config: Config::new(),
            stage: Stage::Environment,
            from_env: opts.from_env(),
            included: opts.included(),
            explicit: opts.config.clone(),
        }
    }

    /// What is to be read next. A state that is to read the explicit file
    /// though none was named has nothing left to read.
    pub fn request(&self) -> (r: Request)
        ensures
            match self.stage {
                Stage::Environment => r == (Request::Environment { with_path: self.from_env }),
                Stage::Home => r == Request::Home,
                Stage::System => r == Request::System,
                Stage::Included => r == Request::Included,
                Stage::Explicit => match self.explicit {
                    Some(location) => r == Request::Explicit(location),
                    None => r == Request::Finished,
                },
                Stage::Done => r == Request::Finished,
            },
    {
        match self.stage {
            Stage::Environment => Request::Environment { with_path: self.from_env },
            Stage::Home => Request::Home,
            Stage::System => Request::System,
            Stage::Included => Request::Included,
            Stage::Explicit => match &self.explicit {
                Some(location) => Request::Explicit(location.clone()),
                None => Request::Finished,
            },
            Stage::Done => Request::Finished,
        }
    }

    /// Takes in what was found for the last request, and moves on. A layer
    /// that was read is marked with its source and merged; a file that is
    /// missing is passed over.
    pub fn accept(self, answer: Answer) -> (next: Acquisition)
        ensures
            next.config@ == absorbed(
                self.stage,
                self.config@,
                match answer {
                    Answer::Loaded(c) => Some(c@),
                    Answer::Missing => None,
                },
            ),
            next.stage == following(
                self.stage,
                next.config.base,
                self.included,
                self.explicit is Some,
            ),
            answer matches Answer::Loaded(c) ==> self.stage != Stage::Done
                ==> next.config.paths.provenances() == self.config.paths.provenances() + stamped(
                c.paths.provenances(),
                source_at(self.stage, self.explicit),
            ),
            answer is Missing || self.stage == Stage::Done ==> next.config == self.config,
            next.from_env == self.from_env,
            next.included == self.included,
            next.explicit == self.explicit,
    {
        let Acquisition { config, stage, from_env, included, explicit } = self;
        let merged = match answer {
            Answer::Loaded(layer) => {
                let mut layer = layer;
                match stage {
                    Stage::Environment => {},
                    Stage::Home => {
                        layer.paths.set_source(ConfigSource::Home(ConfigFileFormat::Toml));
                    },
                    Stage::System => {
                        layer.paths.set_source(ConfigSource::System(ConfigFileFormat::Toml));
                    },
                    Stage::Included => {
                        layer.paths.set_source(ConfigSource::Included);
                    },
                    Stage::Explicit => match &explicit {
                        Some(location) => {
                            layer.paths.set_source(
                                ConfigSource::Config(
                                    ConfigFileDescription::new(
                                        location.clone(),
                                        ConfigFileFormat::Toml,
                                    ),
                                ),
                            );
                        },
                        None => {},
                    },
                    Stage::Done => {},
                }
                match stage {
                    Stage::Done => config,
                    _ => layer.merge(config),
                }
            },
            Answer::Missing => config,
        };
        let after = if explicit.is_some() {
            Stage::Explicit
        } else {
            Stage::Done
        };
        let next = match stage {
            Stage::Environment => if included {
                Stage::Home
            } else {
                after
            },
            Stage::Home => if !merged.base {
                Stage::System
            } else {
                after
            },
            Stage::System => if !merged.base {
                Stage::Included
            } else {
                after
            },
            Stage::Included => after,
            Stage::Explicit => Stage::Done,
            Stage::Done => Stage::Done,
        };
        Acquisition { config: merged, stage: next, from_env, included, explicit }
    }
}

/// The policy that applies where the merged layer names none: only the
/// user with the id 0 is an administrator.
pub open spec fn effective(policy: Option<Policy>) -> Policy {
    match policy {
        Some(p) => p,
        None => Policy::RootOnly,
    }
}

/// The policy for administrative paths that the layer asks for, or the
/// fallback where it asks for none.
pub fn effective_policy(config: &Config) -> (r: IncludeAdministrative)
    ensures
        r@ == effective(config@.policy),
{
    match &config.include_administrative {
        Some(IncludeAdministrative::Always) => IncludeAdministrative::Always,
        Some(IncludeAdministrative::RootOnly) => IncludeAdministrative::RootOnly,
        Some(IncludeAdministrative::Users(names)) => IncludeAdministrative::Users(
            clone_names(names),
        ),
        Some(IncludeAdministrative::Groups(names)) => IncludeAdministrative::Groups(
            clone_names(names),
        ),
        Some(IncludeAdministrative::Never) => IncludeAdministrative::Never,
        None => IncludeAdministrative::RootOnly,
    }
}

/// A copy of the names.
fn clone_names(names: &Vec<String>) -> (r: Vec<String>)
    ensures
        views(r@) == views(names@),
{
    let n: usize = names.len();
    let mut out: Vec<String> = Vec::new();
    let mut i: usize = 0;
    while i < n
        invariant
            n == names.len(),
            i <= n,
            out@.len() == i,
            forall|j: int| 0 <= j < i ==> (#[trigger] out@[j])@ == names@[j]@,
        decreases n - i,
    {
        out.push(names[i].clone());
        i = i + 1;
    }
    proof {
        assert(views(out@) =~= views(names@));
    }
    out
}

/// The paths without repetitions: each path where it is seen first.
pub open spec fn first_seen(paths: Seq<Seq<char>>) -> Seq<Seq<char>>
    decreases paths.len(),
{
    if paths.len() == 0 {
        Seq::empty()
    } else {
        let before = first_seen(paths.drop_last());
        if paths.drop_last().contains(paths.last()) {
            before
        } else {
            before.push(paths.last())
        }
    }
}

/// Removing repetitions loses no path and adds none, and what is left
/// holds no path twice.
pub proof fn lemma_first_seen(paths: Seq<Seq<char>>)
    ensures
        forall|p: Seq<char>| #[trigger] first_seen(paths).contains(p) <==> paths.contains(p),
        first_seen(paths).no_duplicates(),
        first_seen(paths).len() <= paths.len(),
    decreases paths.len(),
{
    if paths.len() > 0 {
        let front = paths.drop_last();
        let last = paths.last();
        let before = first_seen(front);
        lemma_first_seen(front);
        assert forall|p: Seq<char>| #[trigger]
            first_seen(paths).contains(p) <==> paths.contains(p) by {
            if paths.contains(p) {
                let i = choose|i: int| 0 <= i < paths.len() && paths[i] == p;
                if i < front.len() {
                    assert(front[i] == p);
                    assert(front.contains(p));
                    assert(before.contains(p));
                    if !front.contains(last) {
                        let j = choose|j: int| 0 <= j < before.len() && before[j] == p;
                        assert(before.push(last)[j] == p);
                    }
                } else {
                    assert(p == last);
                    if front.contains(last) {
                        assert(before.contains(last));
                    } else {
                        assert(before.push(last)[before.len() as int] == last);
                    }
                }
            }
            if first_seen(paths).contains(p) {
                let i = choose|i: int| 0 <= i < first_seen(paths).len() && first_seen(paths)[i] == p;
                if front.contains(last) || i < before.len() {
                    assert(before[i] == p);
                    assert(before.contains(p));
                    assert(front.contains(p));
                    let j = choose|j: int| 0 <= j < front.len() && front[j] == p;
                    assert(paths[j] == p);
                } else {
                    assert(paths[paths.len() - 1] == p);
                }
            }
        }
        if !front.contains(last) {
            assert(!before.contains(last));
            assert forall|i: int, j: int|
                0 <= i < before.push(last).len() && 0 <= j < before.push(last).len() && i
                    != j implies before.push(last)[i] != before.push(last)[j] by {
                if i < before.len() && j < before.len() {
                } else if i < before.len() {
                    assert(before.contains(before[i]));
                } else {
                    assert(before.contains(before[j]));
                }
            }
        }
    }
}

/// Removes duplicates while preserving the order: of each path, the first
/// occurrence stays.
pub fn dedup(paths: Vec<String>) -> (r: Vec<String>)
    ensures
        views(r@) == first_seen(views(paths@)),
{
    let n: usize = paths.len();
    let mut out: Vec<String> = Vec::new();
    let mut i: usize = 0;
    proof {
        assert(views(paths@).take(0) =~= Seq::<Seq<char>>::empty());
        assert(views(out@) =~= Seq::<Seq<char>>::empty());
    }
    while i < n
        invariant
            n == paths.len(),
            i <= n,
            views(out@) == first_seen(views(paths@).take(i as int)),
        decreases n - i,
    {
        proof {
            assert(views(paths@).take(i + 1).drop_last() =~= views(paths@).take(i as int));
            assert(views(paths@).take(i + 1).last() == paths@[i as int]@);
            lemma_first_seen(views(paths@).take(i as int));
        }
        if !crate::config::include_administrative::is_listed(&out, paths[i].as_str()) {
            let p = paths[i].clone();
            proof {
                lemma_views_push(out@, p);
            }
            out.push(p);
        }
        i = i + 1;
    }
    proof {
        assert(views(paths@).take(n as int) =~= views(paths@));
    }
    out
}

/// Each path followed by a line feed.
pub open spec fn lines_of(paths: Seq<Seq<char>>) -> Seq<char>
    decreases paths.len(),
{
    if paths.len() == 0 {
        Seq::empty()
    } else {
        lines_of(paths.drop_last()) + paths.last() + seq!['\n']
    }
}

/// The text that is written out for the paths: one line with the paths
/// separated by colons, or one line for each path.
pub open spec fn written(paths: Seq<Seq<char>>, mode: Mode) -> Seq<char> {
    match mode {
        Mode::Colon => join(paths, seq![':']) + seq!['\n'],
        Mode::Lines => lines_of(paths),
    }
}

/// The text that is written out for the paths.
pub fn render(paths: &Vec<String>, mode: Mode) -> (r: String)
    ensures
        r@ == written(views(paths@), mode),
{
    let n: usize = paths.len();
    let mut out = String::new();
    let mut i: usize = 0;
    proof {
        reveal_strlit(":");
        reveal_strlit("\n");
        assert(":"@ =~= seq![':']);
        assert("\n"@ =~= seq!['\n']);
        assert(views(paths@).take(0) =~= Seq::<Seq<char>>::empty());
    }
    while i < n
        invariant
            n == paths.len(),
            i <= n,
            ":"@ == seq![':'],
            "\n"@ == seq!['\n'],
            mode == Mode::Colon ==> out@ == join(views(paths@).take(i as int), seq![':']),
            mode == Mode::Lines ==> out@ == lines_of(views(paths@).take(i as int)),
        decreases n - i,
    {
        proof {
            assert(views(paths@).take(i + 1).drop_last() =~= views(paths@).take(i as int));
            assert(views(paths@).take(i + 1).last() == paths@[i as int]@);
        }
        match mode {
            Mode::Colon => {
                if i > 0 {
                    out.append(":");
                }
                out.append(paths[i].as_str());
                proof {
                    if i == 0 {
                        assert(out@ =~= paths@[0]@);
                    }
                }
            },
            Mode::Lines => {
                out.append(paths[i].as_str());
                out.append("\n");
            },
        }
        i = i + 1;
    }
    proof {
        assert(views(paths@).take(n as int) =~= views(paths@));
    }
    match mode {
        Mode::Colon => {
            out.append("\n");
        },
        Mode::Lines => {},
    }
    out
}

/// The search path of the merged layer on a system with the capabilities
/// `system`: the resolved paths of the entries that the system may see, in
/// the order of the entries, without repetitions if `dedup` is set.
pub open spec fn search_path_of(layer: Layer, system: PathFlags, dedup: bool) -> Seq<Seq<char>> {
    let all = resolved_list(layer.paths, system, layer.env);
    if dedup {
        first_seen(all)
    } else {
        all
    }
}

/// The search path of the merged layer on a system with the capabilities
/// `system`.
pub fn search_path(config: &Config, system: PathFlags, dedup_paths: bool) -> (r: Vec<String>)
    ensures
        views(r@) == search_path_of(config@, system, dedup_paths),
{
    let all = config.paths.resolve(system, &config.env);
    if dedup_paths {
        dedup(all)
    } else {
        all
    }
}

} // verus!
