//! Path entries and ordered lists of them.

use crate::config::config_source::ConfigSource;
use crate::config::path_flags::{FlagsFault, ParseFlagsError, PathFlags};
use crate::env::Env;
use crate::text::{
    chars_of, join, lemma_join_split, lemma_views_push, split, split_str, str_is, views,
};
use vstd::prelude::*;
use vstd::string::StrSliceExecFns;
use vstd::string::StringExecFns;

verus! {

/// What a path entry is, apart from where it comes from: the text of the
/// path and the flags that gate it.
pub struct PathView {
    pub raw: Seq<char>,
    pub flags: PathFlags,
}

/// One candidate directory. The text may hold the segment `~` and segments
/// that begin with `$`; resolving replaces them and never changes the entry.
#[derive(Debug)]
pub struct Path {
    path: String,
    flags: PathFlags,
    source: Option<ConfigSource>,
}

impl View for Path {
    type V = PathView;

    closed spec fn view(&self) -> PathView {
        PathView { raw: self.path@, flags: self.flags }
    }
}

/// What one segment of a path stands for under `env`: the value of `HOME`
/// for `~`, the value of the variable for a segment that begins with `$`,
/// the segment itself otherwise; nothing where the variable has no value.
pub open spec fn segment_value(segment: Seq<char>, env: Map<Seq<char>, Seq<char>>) -> Option<
    Seq<char>,
> {
    if segment == seq!['~'] {
        if env.contains_key("HOME"@) {
            Some(env["HOME"@])
        } else {
            None
        }
    } else if segment.len() > 0 && segment[0] == '$' {
        if env.contains_key(segment.skip(1)) {
            Some(env[segment.skip(1)])
        } else {
            None
        }
    } else {
        Some(segment)
    }
}

/// What the segments stand for, if every one of them stands for something.
pub open spec fn segment_values(segments: Seq<Seq<char>>, env: Map<Seq<char>, Seq<char>>) -> Option<
    Seq<Seq<char>>,
>
    decreases segments.len(),
{
    if segments.len() == 0 {
        Some(Seq::empty())
    } else {
        match (segment_values(segments.drop_last(), env), segment_value(segments.last(), env)) {
            (Some(before), Some(value)) => Some(before.push(value)),
            _ => None,
        }
    }
}

/// The path that `raw` stands for under `env`: its segments between `/`,
/// each replaced by what it stands for, joined by `/` again. Nothing if any
/// segment stands for nothing.
pub open spec fn resolved(raw: Seq<char>, env: Map<Seq<char>, Seq<char>>) -> Option<Seq<char>> {
    match segment_values(split(raw, '/'), env) {
        Some(values) => Some(join(values, seq!['/'])),
        None => None,
    }
}

/// Whether a segment is taken literally when a path is resolved.
pub open spec fn literal(segment: Seq<char>) -> bool {
    segment != seq!['~'] && (segment.len() == 0 || segment[0] != '$')
}

/// Literal segments stand for themselves.
pub proof fn lemma_literal_values(segments: Seq<Seq<char>>, env: Map<Seq<char>, Seq<char>>)
    requires
        forall|i: int| 0 <= i < segments.len() ==> literal(#[trigger] segments[i]),
    ensures
        segment_values(segments, env) == Some(segments),
    decreases segments.len(),
{
    if segments.len() == 0 {
        assert(segments =~= Seq::<Seq<char>>::empty());
    } else {
        assert forall|i: int| 0 <= i < segments.drop_last().len() implies literal(
            #[trigger] segments.drop_last()[i],
        ) by {
            assert(segments.drop_last()[i] == segments[i]);
        }
        lemma_literal_values(segments.drop_last(), env);
        assert(literal(segments[segments.len() - 1]));
        assert(segments.drop_last().push(segments.last()) =~= segments);
    }
}

/// A path without symbolic segments resolves to itself, whatever the
/// environment holds.
pub proof fn lemma_resolve_literal(raw: Seq<char>, env: Map<Seq<char>, Seq<char>>)
    requires
        forall|i: int| 0 <= i < split(raw, '/').len() ==> literal(#[trigger] split(raw, '/')[i]),
    ensures
        resolved(raw, env) == Some(raw),
{
    lemma_literal_values(split(raw, '/'), env);
    lemma_join_split(raw, '/');
}

/// A path resolves to nothing exactly if one of its segments stands for
/// nothing: no partly replaced path ever comes out.
pub proof fn lemma_resolve_all_or_nothing(raw: Seq<char>, env: Map<Seq<char>, Seq<char>>)
    ensures
        resolved(raw, env) is None <==> exists|i: int|
            0 <= i < split(raw, '/').len() && segment_value(#[trigger] split(raw, '/')[i], env)
                is None,
{
    lemma_values_all_or_nothing(split(raw, '/'), env);
}

/// The segments stand for nothing exactly if one of them does.
pub proof fn lemma_values_all_or_nothing(
    segments: Seq<Seq<char>>,
    env: Map<Seq<char>, Seq<char>>,
)
    ensures
        segment_values(segments, env) is None <==> exists|i: int|
            0 <= i < segments.len() && segment_value(#[trigger] segments[i], env) is None,
        segment_values(segments, env) matches Some(values) ==> values.len() == segments.len(),
    decreases segments.len(),
{
    if segments.len() > 0 {
        let front = segments.drop_last();
        lemma_values_all_or_nothing(front, env);
        if segment_values(segments, env) is None {
            if segment_values(front, env) is None {
                let i = choose|i: int|
                    0 <= i < front.len() && segment_value(#[trigger] front[i], env) is None;
                assert(segments[i] == front[i]);
            } else {
                assert(segment_value(segments[segments.len() - 1], env) is None);
            }
        }
        if exists|i: int|
            0 <= i < segments.len() && segment_value(#[trigger] segments[i], env) is None {
            let i = choose|i: int|
                0 <= i < segments.len() && segment_value(#[trigger] segments[i], env) is None;
            if i < front.len() {
                assert(front[i] == segments[i]);
            }
        }
    }
}

/// Once the segments up to some place stand for nothing, so do all of them.
pub proof fn lemma_prefix_fails(segments: Seq<Seq<char>>, env: Map<Seq<char>, Seq<char>>, k: int)
    requires
        0 <= k <= segments.len(),
        segment_values(segments.take(k), env) is None,
    ensures
        segment_values(segments, env) is None,
    decreases segments.len() - k,
{
    if k == segments.len() {
        assert(segments.take(k) =~= segments);
    } else {
        assert(segments.take(k + 1).drop_last() =~= segments.take(k));
        lemma_prefix_fails(segments, env, k + 1);
    }
}

impl Path {
    /// Where the entry comes from, if that is recorded.
    pub closed spec fn provenance(self) -> Option<ConfigSource> {
        self.source
    }

    /// An entry for `path` without requirements and without a recorded
    /// source.
    pub fn new(path: &str) -> (r: Path)
        ensures
            r@ == (PathView { raw: path@, flags: PathFlags::empty() }),
            r.provenance() is None,
    {
        Path { path: path.to_owned(), flags: PathFlags::new(), source: None }
    }

    /// An entry for `path` with the given requirements.
    pub fn with_flags(path: &str, flags: PathFlags) -> (r: Path)
        ensures
            r@ == (PathView { raw: path@, flags }),
            r.provenance() is None,
    {
        Path { path: path.to_owned(), flags, source: None }
    }

    /// An entry for `path` with the given requirements, marked as coming
    /// from `source`.
    pub fn with_source(path: &str, flags: PathFlags, source: ConfigSource) -> (r: Path)
        ensures
            r@ == (PathView { raw: path@, flags }),
            r.provenance() == Some(source),
    {
        Path { path: path.to_owned(), flags, source: Some(source) }
    }

    /// Replaces the symbolic segments of the path by their values in `env`.
    /// Returns nothing if a value is missing.
    pub fn resolve(&self, env: &Env) -> (r: Option<String>)
        ensures
            match r {
                Some(s) => resolved(self@.raw, env@) == Some(s@),
                None => resolved(self@.raw, env@) is None,
            },
    {
        let segments = split_str(self.path.as_str(), '/');
        let n: usize = segments.len();
        let mut out = String::new();
        let mut i: usize = 0;
        let ghost mut values: Seq<Seq<char>> = Seq::empty();
        proof {
            reveal_strlit("/");
            reveal_strlit("~");
            assert("/"@ =~= seq!['/']);
            assert("~"@ =~= seq!['~']);
            assert(views(segments@).take(0) =~= Seq::<Seq<char>>::empty());
        }
        while i < n
            invariant
                n == segments.len(),
                i <= n,
                "/"@ == seq!['/'],
                "~"@ == seq!['~'],
                views(segments@) == split(self@.raw, '/'),
                segment_values(views(segments@).take(i as int), env@) == Some(values),
                values.len() == i,
                out@ == join(values, seq!['/']),
            decreases n - i,
        {
            let segment = segments[i].as_str();
            proof {
                assert(views(segments@).take(i + 1).drop_last() =~= views(segments@).take(
                    i as int,
                ));
                assert(views(segments@).take(i + 1).last() == segment@);
            }
            let chars = chars_of(segment);
            let value: Option<&String> = if str_is(segment, "~") {
                env.get("HOME")
            } else if chars.len() > 0 && chars[0] == '$' {
                let name = segment.substring_char(1, chars.len());
                proof {
                    assert(name@ =~= segment@.skip(1));
                }
                env.get(name)
            } else {
                None
            };
            let symbolic = str_is(segment, "~") || (chars.len() > 0 && chars[0] == '$');
            if symbolic && value.is_none() {
                proof {
                    lemma_prefix_fails(views(segments@), env@, i + 1);
                }
                return None;
            }
            let ghost piece = segment_value(segment@, env@)->0;
            proof {
                assert((values.push(piece)).drop_last() =~= values);
            }
            if i > 0 {
                out.append("/");
            }
            match value {
                Some(v) => {
                    out.append(v.as_str());
                },
                None => {
                    out.append(segment);
                },
            }
            proof {
                if i == 0 {
                    assert(values =~= Seq::<Seq<char>>::empty());
                    assert(out@ =~= piece);
                }
                values = values.push(piece);
            }
            i = i + 1;
        }
        proof {
            assert(views(segments@).take(n as int) =~= views(segments@));
        }
        Some(out)
    }

    /// Returns the contained path string.
    pub fn path(&self) -> (r: &str)
        ensures
            r@ == self@.raw,
    {
        self.path.as_str()
    }

    /// The requirements of the entry.
    pub fn flags(&self) -> (r: PathFlags)
        ensures
            r == self@.flags,
    {
        self.flags
    }

    /// Returns the source of where the path originates from.
    pub fn source(&self) -> (r: Option<&ConfigSource>)
        ensures
            match r {
                Some(s) => self.provenance() == Some(*s),
                None => self.provenance() is None,
            },
    {
        self.source.as_ref()
    }
}

impl Clone for Path {
    fn clone(&self) -> (r: Path)
        ensures
            r@ == self@,
            r.provenance() == self.provenance(),
    {
        let source = match &self.source {
            Some(s) => Some(s.clone()),
            None => None,
        };
        Path { path: self.path.clone(), flags: self.flags, source }
    }
}

impl PartialEq for Path {
    /// Two entries are equal if their paths and flags are: where an entry
    /// comes from plays no part.
    fn eq(&self, other: &Path) -> (r: bool) {
        str_is(self.path.as_str(), other.path.as_str()) && self.flags == other.flags
    }
}

impl Eq for Path {

}

impl vstd::std_specs::cmp::PartialEqSpecImpl for Path {
    open spec fn obeys_eq_spec() -> bool {
        true
    }

    open spec fn eq_spec(&self, other: &Path) -> bool {
        self@ == other@
    }
}

impl From<&str> for Path {
    fn from(path: &str) -> (r: Path)
        ensures
            r@ == (PathView { raw: path@, flags: PathFlags::empty() }),
            r.provenance() is None,
    {
        Path::new(path)
    }
}

impl From<String> for Path {
    fn from(path: String) -> (r: Path)
        ensures
            r@ == (PathView { raw: path@, flags: PathFlags::empty() }),
            r.provenance() is None,
    {
        Path { path, flags: PathFlags::new(), source: None }
    }
}

impl vstd::std_specs::convert::FromSpecImpl<&str> for Path {
    open spec fn obeys_from_spec() -> bool {
        false
    }

    open spec fn from_spec(path: &str) -> Path {
        arbitrary()
    }
}

impl vstd::std_specs::convert::FromSpecImpl<String> for Path {
    open spec fn obeys_from_spec() -> bool {
        true
    }

    closed spec fn from_spec(path: String) -> Path {
        Path { path, flags: PathFlags::empty(), source: None }
    }
}

/// A path entry as configuration files may write it: the bare text of the
/// path, or the entry with its flags.
#[derive(Debug, Clone, PartialEq, Eq)]
pub enum SyntaxSuggarPath {
    Simple(String),
    Struct(Path),
}

impl SyntaxSuggarPath {
    /// The entry that is meant: a bare text stands for the path without
    /// requirements.
    pub open spec fn entry(self) -> PathView {
        match self {
            SyntaxSuggarPath::Simple(s) => PathView { raw: s@, flags: PathFlags::empty() },
            SyntaxSuggarPath::Struct(p) => p@,
        }
    }
}

impl From<SyntaxSuggarPath> for Path {
    fn from(path: SyntaxSuggarPath) -> (r: Path)
        ensures
            r@ == path.entry(),
    {
        match path {
            SyntaxSuggarPath::Simple(s) => Path { path: s, flags: PathFlags::new(), source: None },
            SyntaxSuggarPath::Struct(p) => p,
        }
    }
}

impl vstd::std_specs::convert::FromSpecImpl<SyntaxSuggarPath> for Path {
    open spec fn obeys_from_spec() -> bool {
        false
    }

    open spec fn from_spec(path: SyntaxSuggarPath) -> Path {
        arbitrary()
    }
}

impl From<&str> for SyntaxSuggarPath {
    fn from(path: &str) -> (r: SyntaxSuggarPath)
        ensures
            r.entry() == (PathView { raw: path@, flags: PathFlags::empty() }),
            r is Struct,
    {
        SyntaxSuggarPath::Struct(Path::new(path))
    }
}

impl vstd::std_specs::convert::FromSpecImpl<&str> for SyntaxSuggarPath {
    open spec fn obeys_from_spec() -> bool {
        false
    }

    open spec fn from_spec(path: &str) -> SyntaxSuggarPath {
        arbitrary()
    }
}

/// An ordered list of path entries. The order is significant, and nothing
/// is removed because it occurs twice.
#[derive(Debug, PartialEq, Eq)]
pub struct Paths(pub Vec<Path>);

impl View for Paths {
    type V = Seq<PathView>;

    open spec fn view(&self) -> Seq<PathView> {
        Seq::new(self.0@.len(), |i: int| self.0@[i]@)
    }
}

/// The resolved paths of the entries that a system with the capabilities
/// `system` may see, in the order of the entries; an entry that resolves to
/// nothing is left out.
pub open spec fn resolved_list(
    entries: Seq<PathView>,
    system: PathFlags,
    env: Map<Seq<char>, Seq<char>>,
) -> Seq<Seq<char>>
    decreases entries.len(),
{
    if entries.len() == 0 {
        Seq::empty()
    } else {
        let before = resolved_list(entries.drop_last(), system, env);
        let entry = entries.last();
        if entry.flags.permits(system) && resolved(entry.raw, env) is Some {
            before.push(resolved(entry.raw, env)->0)
        } else {
            before
        }
    }
}

/// Resolving one list after another gives the resolved paths of the first,
/// then those of the second.
pub proof fn lemma_resolved_list_concat(
    a: Seq<PathView>,
    b: Seq<PathView>,
    system: PathFlags,
    env: Map<Seq<char>, Seq<char>>,
)
    ensures
        resolved_list(a + b, system, env) == resolved_list(a, system, env) + resolved_list(
            b,
            system,
            env,
        ),
    decreases b.len(),
{
    if b.len() == 0 {
        assert(a + b =~= a);
        assert(resolved_list(a, system, env) + resolved_list(b, system, env) =~= resolved_list(
            a,
            system,
            env,
        ));
    } else {
        assert((a + b).drop_last() =~= a + b.drop_last());
        assert((a + b).last() == b.last());
        lemma_resolved_list_concat(a, b.drop_last(), system, env);
        let ra = resolved_list(a, system, env);
        let rb = resolved_list(b.drop_last(), system, env);
        if b.last().flags.permits(system) && resolved(b.last().raw, env) is Some {
            let value = resolved(b.last().raw, env)->0;
            assert((ra + rb).push(value) =~= ra + rb.push(value));
        }
    }
}

/// No more paths come out than entries go in.
pub proof fn lemma_resolved_list_len(
    entries: Seq<PathView>,
    system: PathFlags,
    env: Map<Seq<char>, Seq<char>>,
)
    ensures
        resolved_list(entries, system, env).len() <= entries.len(),
    decreases entries.len(),
{
    if entries.len() > 0 {
        lemma_resolved_list_len(entries.drop_last(), system, env);
    }
}

impl Paths {
    /// Where each entry comes from, in the order of the entries.
    pub open spec fn provenances(self) -> Seq<Option<ConfigSource>> {
        Seq::new(self.0@.len(), |i: int| self.0@[i].provenance())
    }

    /// The list of the given entries.
    pub fn new(v: Vec<Path>) -> (r: Paths)
        ensures
            r.0 == v,
    {
        Paths(v)
    }

    /// Parses a colon separated path: one entry for each piece between
    /// colons, empty pieces included, in their order, without requirements
    /// and marked as coming from the `PATH` variable.
    pub fn from_path(path: &str) -> (r: Paths)
        ensures
            r@.len() == split(path@, ':').len(),
            forall|i: int|
                0 <= i < r@.len() ==> #[trigger] r@[i] == (PathView {
                    raw: split(path@, ':')[i],
                    flags: PathFlags::empty(),
                }),
            forall|i: int|
                0 <= i < r@.len() ==> #[trigger] r.provenances()[i] == Some(ConfigSource::PathVar),
    {
        let pieces = split_str(path, ':');
        let n: usize = pieces.len();
        let mut out: Vec<Path> = Vec::new();
        let mut i: usize = 0;
        while i < n
            invariant
                n == pieces.len(),
                i <= n,
                out.len() == i,
                views(pieces@) == split(path@, ':'),
                forall|j: int|
                    0 <= j < i ==> (#[trigger] out[j])@ == (PathView {
                        raw: pieces[j]@,
                        flags: PathFlags::empty(),
                    }) && out[j].provenance() == Some(ConfigSource::PathVar),
            decreases n - i,
        {
            out.push(
                Path::with_source(pieces[i].as_str(), PathFlags::new(), ConfigSource::PathVar),
            );
            i = i + 1;
        }
        let r = Paths(out);
        proof {
            assert forall|i: int| 0 <= i < r@.len() implies #[trigger] r@[i] == (PathView {
                raw: split(path@, ':')[i],
                flags: PathFlags::empty(),
            }) by {
                assert(views(pieces@)[i] == pieces[i]@);
            }
        }
        r
    }

    /// The list that a mapping from paths to flag strings stands for: one
    /// entry for each pair, in the order of the pairs. The first flag string
    /// that does not parse decides the error.
    pub fn from_entries(entries: &Vec<(String, String)>) -> (r: Result<Paths, ParseFlagsError>)
        ensures
            match r {
                Ok(paths) => {
                    &&& paths@.len() == entries@.len()
                    &&& forall|i: int|
                        0 <= i < entries@.len() ==> (#[trigger] paths@[i]).raw == entries@[i].0@
                            && PathFlags::parsed(entries@[i].1@) == Ok::<PathFlags, FlagsFault>(
                            paths@[i].flags,
                        )
                    &&& forall|i: int|
                        0 <= i < entries@.len() ==> #[trigger] paths.provenances()[i] is None
                },
                Err(e) => exists|k: int|
                    {
                        &&& 0 <= k < entries@.len()
                        &&& PathFlags::parsed((#[trigger] entries@[k]).1@) == Err::<
                            PathFlags,
                            FlagsFault,
                        >(e@)
                        &&& forall|j: int|
                            0 <= j < k ==> PathFlags::parsed((#[trigger] entries@[j]).1@) is Ok
                    },
            },
    {
        let n: usize = entries.len();
        let mut out: Vec<Path> = Vec::new();
        let mut i: usize = 0;
        while i < n
            invariant
                n == entries.len(),
                i <= n,
                out.len() == i,
                forall|j: int|
                    0 <= j < i ==> (#[trigger] out[j])@.raw == entries@[j].0@ && PathFlags::parsed(
                        entries@[j].1@,
                    ) == Ok::<PathFlags, FlagsFault>(out[j]@.flags) && out[j].provenance() is None,
            decreases n - i,
        {
            match PathFlags::from_str(entries[i].1.as_str()) {
                Ok(flags) => {
                    out.push(Path::with_flags(entries[i].0.as_str(), flags));
                },
                Err(e) => {
                    proof {
                        assert(PathFlags::parsed(entries@[i as int].1@) == Err::<
                            PathFlags,
                            FlagsFault,
                        >(e@));
                        assert forall|j: int| 0 <= j < i implies PathFlags::parsed(
                            (#[trigger] entries@[j]).1@,
                        ) is Ok by {
                            assert(out[j]@.raw == entries@[j].0@);
                        }
                    }
                    return Err(e);
                },
            }
            i = i + 1;
        }
        Ok(Paths(out))
    }

    /// Merges two lists: the entries of `other` come first, then those of
    /// `self`, each side in its own order.
    pub fn merge(self, other: Paths) -> (r: Paths)
        ensures
            r@ == other@ + self@,
            r.provenances() == other.provenances() + self.provenances(),
    {
        let mut out = other.0;
        let mut rest = self.0;
        out.append(&mut rest);
        let r = Paths(out);
        proof {
            assert(r@ =~= other@ + self@);
            assert(r.provenances() =~= other.provenances() + self.provenances());
        }
        r
    }

    /// The resolved paths of the entries that a system with the given
    /// capabilities may see.
    pub fn resolve(&self, system_flags: PathFlags, env: &Env) -> (r: Vec<String>)
        ensures
            views(r@) == resolved_list(self@, system_flags, env@),
    {
        let n: usize = self.0.len();
        let mut out: Vec<String> = Vec::new();
        let mut i: usize = 0;
        proof {
            assert(self@.take(0) =~= Seq::<PathView>::empty());
            assert(views(out@) =~= Seq::<Seq<char>>::empty());
        }
        while i < n
            invariant
                n == self.0.len(),
                i <= n,
                views(out@) == resolved_list(self@.take(i as int), system_flags, env@),
            decreases n - i,
        {
            proof {
                assert(self@.take(i + 1).drop_last() =~= self@.take(i as int));
                assert(self@.take(i + 1).last() == self.0[i as int]@);
            }
            if self.0[i].flags().check(system_flags) {
                match self.0[i].resolve(env) {
                    Some(s) => {
                        proof {
                            lemma_views_push(out@, s);
                        }
                        out.push(s);
                    },
                    None => {},
                }
            }
            i = i + 1;
        }
        proof {
            assert(self@.take(n as int) =~= self@);
        }
        out
    }

    /// Sets the source of all entries of the list; the entries themselves
    /// stay as they are.
    pub fn set_source(&mut self, source: ConfigSource)
        ensures
            final(self)@ == old(self)@,
            final(self).provenances().len() == old(self)@.len(),
            forall|i: int|
                0 <= i < old(self)@.len() ==> #[trigger] final(self).provenances()[i] == Some(
                    source,
                ),
    {
        let n: usize = self.0.len();
        let mut i: usize = 0;
        while i < n
            invariant
                n == self.0.len(),
                i <= n,
                self@ == old(self)@,
                forall|j: int| 0 <= j < i ==> (#[trigger] self.0[j]).provenance() == Some(source),
            decreases n - i,
        {
            let ghost before = self@;
            let entry = Path {
                path: self.0[i].path.clone(),
                flags: self.0[i].flags,
                source: Some(source.clone()),
            };
            self.0.set(i, entry);
            proof {
                assert(self@ =~= before);
            }
            i = i + 1;
        }
    }
}

impl Default for Paths {
    fn default() -> (r: Paths)
        ensures
            r@ == Seq::<PathView>::empty(),
    {
        let r = Paths(Vec::new());
        proof {
            assert(r@ =~= Seq::<PathView>::empty());
        }
        r
    }
}

impl Clone for Paths {
    fn clone(&self) -> (r: Paths)
        ensures
            r@ == self@,
            r.provenances() == self.provenances(),
    {
        let n: usize = self.0.len();
        let mut out: Vec<Path> = Vec::new();
        let mut i: usize = 0;
        while i < n
            invariant
                n == self.0.len(),
                i <= n,
                out.len() == i,
                forall|j: int|
                    0 <= j < i ==> (#[trigger] out[j])@ == self.0[j]@ && out[j].provenance()
                        == self.0[j].provenance(),
            decreases n - i,
        {
            out.push(self.0[i].clone());
            i = i + 1;
        }
        let r = Paths(out);
        proof {
            assert(r@ =~= self@);
            assert(r.provenances() =~= self.provenances());
        }
        r
    }
}

impl From<Vec<&str>> for Paths {
    fn from(v: Vec<&str>) -> (r: Paths)
        ensures
            r@.len() == v@.len(),
            forall|i: int|
                0 <= i < v@.len() ==> #[trigger] r@[i] == (PathView {
                    raw: v@[i]@,
                    flags: PathFlags::empty(),
                }),
            forall|i: int| 0 <= i < v@.len() ==> #[trigger] r.provenances()[i] is None,
    {
        let n: usize = v.len();
        let mut out: Vec<Path> = Vec::new();
        let mut i: usize = 0;
        while i < n
            invariant
                n == v.len(),
                i <= n,
                out.len() == i,
                forall|j: int|
                    0 <= j < i ==> (#[trigger] out[j])@ == (PathView {
                        raw: v@[j]@,
                        flags: PathFlags::empty(),
                    }) && out[j].provenance() is None,
            decreases n - i,
        {
            out.push(Path::new(v[i]));
            i = i + 1;
        }
        Paths(out)
    }
}

impl vstd::std_specs::convert::FromSpecImpl<Vec<&str>> for Paths {
    open spec fn obeys_from_spec() -> bool {
        false
    }

    open spec fn from_spec(v: Vec<&str>) -> Paths {
        arbitrary()
    }
}

} // verus!
