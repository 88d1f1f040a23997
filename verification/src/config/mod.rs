//! Configuration layers and the rules that apply to their path entries.

pub mod config_source;
pub mod include_administrative;
pub mod path;
pub mod path_flags;

pub use config_source::{
    ConfigFileDescription, ConfigFileError, ConfigFileFormat, ConfigSource, HomeUnknown,
};
pub use include_administrative::{
    GroupNames, Identity, IdentityLookupError, IncludeAdministrative, UserName,
};
pub use path::{Path, Paths, SyntaxSuggarPath};
pub use path_flags::{
    ParseFlagsError, ParsePathOsError, ParsePathOsResult, PathFlags, PathOs, PathOsError,
    PathOsResult,
};

use crate::env::{pairs_map, Env};
use crate::text::{lemma_split_nonempty, split, split_str, trim, trim_str, views};
use include_administrative::Policy;
use path::PathView;
use vstd::prelude::*;

verus! {

/// One configuration layer: the path entries it adds, the environment
/// overlay, the policy for administrative paths, and whether wider layers
/// are to be left unread.
#[derive(Debug, Clone, PartialEq, Eq)]
pub struct Config {
    /// Do not read the layers of wider scope.
    pub base: bool,
    pub include_administrative: Option<IncludeAdministrative>,
    pub paths: Paths,
    pub env: Env,
}

/// The mathematical form of a configuration layer.
pub struct Layer {
    pub base: bool,
    pub policy: Option<Policy>,
    pub paths: Seq<PathView>,
    pub env: Map<Seq<char>, Seq<char>>,
}

impl View for Config {
    type V = Layer;

    open spec fn view(&self) -> Layer {
        Layer {
            base: self.base,
            policy: match self.include_administrative {
                Some(p) => Some(p@),
                None => None,
            },
            paths: self.paths@,
            env: self.env@,
        }
    }
}

impl Layer {
    /// The layer that adds nothing.
    pub open spec fn empty() -> Layer {
        Layer { base: false, policy: None, paths: Seq::empty(), env: Map::empty() }
    }

    /// The layer that `self` and `other` make together. The merged layer
    /// asks to stop if either does; the policy and the values of the
    /// environment are `other`'s where it has them, else `self`'s; the
    /// paths of `other` come before those of `self`.
    pub open spec fn merged(self, other: Layer) -> Layer {
        Layer {
            base: self.base || other.base,
            policy: if other.policy is Some {
                other.policy
            } else {
                self.policy
            },
            paths: other.paths + self.paths,
            env: self.env.union_prefer_right(other.env),
        }
    }
}

/// Merging is associative: three layers merge to the same layer however
/// the two merges are grouped.
pub proof fn lemma_merged_associative(a: Layer, b: Layer, c: Layer)
    ensures
        a.merged(b).merged(c) == a.merged(b.merged(c)),
{
    assert(c.paths + (b.paths + a.paths) =~= (c.paths + b.paths) + a.paths);
    assert(a.env.union_prefer_right(b.env).union_prefer_right(c.env) =~= a.env.union_prefer_right(
        b.env.union_prefer_right(c.env),
    ));
}

/// The empty layer changes nothing, on either side of a merge.
pub proof fn lemma_merged_empty(a: Layer)
    ensures
        a.merged(Layer::empty()) == a,
        Layer::empty().merged(a) == a,
{
    assert(Layer::empty().paths + a.paths =~= a.paths);
    assert(a.paths + Layer::empty().paths =~= a.paths);
    assert(a.env.union_prefer_right(Layer::empty().env) =~= a.env);
    assert(Layer::empty().env.union_prefer_right(a.env) =~= a.env);
}

/// Once a layer asks to stop, every later merge does: the request of
/// either side is the request of the merged layer, whatever else they hold.
pub proof fn lemma_merged_base(a: Layer, b: Layer)
    ensures
        a.base || b.base <==> a.merged(b).base,
        a.base ==> a.merged(b).base && b.merged(a).base,
{
}

/// The policy of the overriding layer wins where it has one; where it has
/// none, the policy of the other layer stays.
pub proof fn lemma_merged_policy(a: Layer, b: Layer)
    ensures
        b.policy is Some ==> a.merged(b).policy == b.policy,
        b.policy is None ==> a.merged(b).policy == a.policy,
{
}

/// Merging keeps every entry, those of the overriding layer first, each
/// side in its own order.
pub proof fn lemma_merged_paths(a: Layer, b: Layer)
    ensures
        a.merged(b).paths.len() == a.paths.len() + b.paths.len(),
        forall|i: int| 0 <= i < b.paths.len() ==> a.merged(b).paths[i] == b.paths[i],
        forall|i: int|
            0 <= i < a.paths.len() ==> a.merged(b).paths[b.paths.len() + i] == a.paths[i],
{
}

/// What a line of a text configuration stands for: what is left of it
/// before the first `#`, without white space around it.
pub open spec fn text_entry(line: Seq<char>) -> Seq<char> {
    trim(split(line, '#')[0])
}

/// The entries that the lines of a text configuration stand for: one for
/// each line that is not empty once comment and white space are gone, in
/// the order of the lines, without requirements.
pub open spec fn text_entries(lines: Seq<Seq<char>>) -> Seq<PathView>
    decreases lines.len(),
{
    if lines.len() == 0 {
        Seq::empty()
    } else {
        let before = text_entries(lines.drop_last());
        let entry = text_entry(lines.last());
        if entry.len() == 0 {
            before
        } else {
            before.push(PathView { raw: entry, flags: PathFlags::empty() })
        }
    }
}

impl Config {
    /// Creates a new, empty layer.
    pub fn new() -> (r: Config)
        ensures
            r@ == Layer::empty(),
    {
        let r = Config {
            base: false,
            include_administrative: None,
            paths: Paths(Vec::new()),
            env: Env::new(),
        };
        proof {
            assert(r.paths@ =~= Seq::<PathView>::empty());
        }
        r
    }

    /// Reads a layer from the text of a simple list of paths: one path on
    /// each line, `#` beginning a comment. The lines are the pieces between
    /// line feeds; a carriage return before a line feed is white space and
    /// goes with it.
    pub fn from_txt(contents: &str) -> (r: Config)
        ensures
            r.base == false,
            r.include_administrative is None,
            r.env@ == Map::<Seq<char>, Seq<char>>::empty(),
            r.paths@ == text_entries(split(contents@, '\n')),
            forall|i: int| 0 <= i < r.paths@.len() ==> #[trigger] r.paths.provenances()[i] is None,
    {
        let lines = split_str(contents, '\n');
        let n: usize = lines.len();
        let mut out: Vec<Path> = Vec::new();
        let mut i: usize = 0;
        let ghost mut sofar: Seq<PathView> = Seq::empty();
        while i < n
            invariant
                n == lines.len(),
                i <= n,
                views(lines@) == split(contents@, '\n'),
                sofar == text_entries(views(lines@).take(i as int)),
                out@.len() == sofar.len(),
                forall|j: int| 0 <= j < out@.len() ==> (#[trigger] out@[j])@ == sofar[j],
                forall|j: int| 0 <= j < out@.len() ==> (#[trigger] out@[j]).provenance() is None,
            decreases n - i,
        {
            proof {
                assert(views(lines@).take(i + 1).drop_last() =~= views(lines@).take(i as int));
                assert(views(lines@).take(i + 1).last() == lines@[i as int]@);
                lemma_split_nonempty(lines@[i as int]@, '#');
            }
            let pieces = split_str(lines[i].as_str(), '#');
            let entry = trim_str(pieces[0].as_str());
            proof {
                assert(views(pieces@)[0] == pieces@[0]@);
            }
            if entry.unicode_len() > 0 {
                out.push(Path::new(entry));
                proof {
                    sofar = sofar.push(PathView { raw: entry@, flags: PathFlags::empty() });
                }
            }
            i = i + 1;
        }
        proof {
            assert(views(lines@).take(n as int) =~= views(lines@));
        }
        let r = Config {
            base: false,
            include_administrative: None,
            paths: Paths(out),
            env: Env::new(),
        };
        proof {
            assert(r.paths@ =~= sofar);
        }
        r
    }

    /// Sets the environment overlay to the given variables, a later one
    /// replacing an earlier one of the same name. The overlay that the layer
    /// had is dropped.
    pub fn with_env(self, vars: Vec<(String, String)>) -> (r: Config)
        ensures
            r.env@ == pairs_map(vars@),
            r.base == self.base,
            r.include_administrative == self.include_administrative,
            r.paths == self.paths,
    {
        Config {
            base: self.base,
            include_administrative: self.include_administrative,
            paths: self.paths,
            env: Env::from_pairs(vars),
        }
    }

    /// Replaces the entries of the layer by those that the colon separated
    /// `path` holds.
    pub fn with_path_from_env(self, path: &str) -> (r: Config)
        ensures
            r.paths@.len() == split(path@, ':').len(),
            forall|i: int|
                0 <= i < r.paths@.len() ==> #[trigger] r.paths@[i] == (PathView {
                    raw: split(path@, ':')[i],
                    flags: PathFlags::empty(),
                }),
            forall|i: int|
                0 <= i < r.paths@.len() ==> #[trigger] r.paths.provenances()[i] == Some(
                    ConfigSource::PathVar,
                ),
            r.base == self.base,
            r.include_administrative == self.include_administrative,
            r.env == self.env,
    {
        Config {
            base: self.base,
            include_administrative: self.include_administrative,
            paths: Paths::from_path(path),
            env: self.env,
        }
    }

    /// Merges two layers. The policy and the environment of `other`
    /// overwrite those of `self`; the paths of `other` are placed before
    /// those of `self`; the merged layer asks to stop if either does.
    pub fn merge(self, other: Config) -> (r: Config)
        ensures
            r@ == self@.merged(other@),
            r.paths.provenances() == other.paths.provenances() + self.paths.provenances(),
    {
        let include_administrative = match other.include_administrative {
            Some(p) => Some(p),
            None => self.include_administrative,
        };
        Config {
            base: self.base || other.base,
            include_administrative,
            paths: self.paths.merge(other.paths),
            env: self.env.merge(other.env),
        }
    }
}

impl Default for Config {
    fn default() -> (r: Config)
        ensures
            r@ == Layer::empty(),
    {
        Config::new()
    }
}

} // verus!
